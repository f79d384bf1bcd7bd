use vstd::prelude::*;
use vstd::std_specs::hash::obeys_key_model;
use vstd::laws_cmp::obeys_cmp;
use std::collections::{HashSet, HashMap, BTreeSet, BTreeMap};
use std::hash::Hash;
use crate::comprehension::{vecc, verdicts, images, callable_on};

verus! {

broadcast use vstd::std_specs::hash::group_hash_axioms;

/// The map that inserting `pairs` in order into an empty map gives: of two
/// pairs with one key, the later one stays.
pub open spec fn map_of<K, V>(pairs: Seq<(K, V)>) -> Map<K, V>
    decreases pairs.len(),
{
    if pairs.len() == 0 {
        Map::empty()
    } else {
        map_of(pairs.drop_last()).insert(pairs.last().0, pairs.last().1)
    }
}

proof fn lemma_to_set_take<A>(s: Seq<A>, k: int)
    requires
        0 <= k < s.len(),
    ensures
        s.take(k + 1).to_set() == s.take(k).to_set().insert(s[k]),
{
    assert(s.take(k + 1) =~= s.take(k).push(s[k]));
    assert forall|x: A| #[trigger] s.take(k + 1).to_set().contains(x) <==> s.take(
        k,
    ).to_set().insert(s[k]).contains(x) by {
        if s.take(k).contains(x) {
            let i = choose|i: int| 0 <= i < k && s.take(k)[i] == x;
            assert(s.take(k + 1)[i] == x);
        }
        if x == s[k] {
            assert(s.take(k + 1)[k] == x);
        }
    }
    assert(s.take(k + 1).to_set() =~= s.take(k).to_set().insert(s[k]));
}

proof fn lemma_map_of_take<K, V>(s: Seq<(K, V)>, k: int)
    requires
        0 <= k < s.len(),
    ensures
        map_of(s.take(k + 1)) == map_of(s.take(k)).insert(s[k].0, s[k].1),
{
    assert(s.take(k + 1).drop_last() =~= s.take(k));
}

/// The items of `v`, last first.
fn reversed<A>(v: Vec<A>) -> (r: Vec<A>)
    ensures
        forall|i: int| 0 <= i < v@.len() ==> #[trigger] r@[i] == v@[v@.len() - 1 - i],
        r@.len() == v@.len(),
{
    let ghost orig = v@;
    let mut v = v;
    let mut r: Vec<A> = Vec::new();
    while v.len() > 0
        invariant
            v@.len() + r@.len() == orig.len(),
            forall|i: int| 0 <= i < v@.len() ==> #[trigger] v@[i] == orig[i],
            forall|i: int| 0 <= i < r@.len() ==> #[trigger] r@[i] == orig[orig.len() - 1 - i],
        decreases v@.len(),
    {
        let x = v.pop().unwrap();
        r.push(x);
    }
    r
}

/// Hash set comprehension: the set of `exp` of the items of `items` that `cond`
/// accepts.
pub fn hashsetc<T, K: Hash + Eq, C: Fn(&T) -> bool, E: Fn(&T) -> K>(
    items: &Vec<T>,
    cond: C,
    exp: E,
) -> (r: HashSet<K>)
    requires
        callable_on(cond, exp, items@),
    ensures
        exists|keep: Seq<bool>, out: Seq<K>| #[trigger]
            verdicts(cond, items@, keep) && #[trigger] images(exp, items@, keep, out) && (
            obeys_key_model::<K>() ==> r@ == out.to_set()),
{
    let values = vecc(items, cond, exp);
    let mut set: HashSet<K> = HashSet::new();
    let n: usize = values.len();
    let ghost all = values@;
    let mut rest = reversed(values);
    let mut k: usize = 0;
    // `rest` holds the values not yet inserted, last first.
    while rest.len() > 0
        invariant
            k + rest@.len() == all.len(),
            all.len() == n,
            forall|i: int| 0 <= i < rest@.len() ==> #[trigger] rest@[i] == all[all.len() - 1 - i],
            obeys_key_model::<K>() ==> set@ == all.take(k as int).to_set(),
        decreases rest@.len(),
    {
        let ghost before = rest@;
        let v = rest.pop().unwrap();
        proof {
            assert(v == all[k as int]);
            lemma_to_set_take(all, k as int);
            assert forall|i: int| 0 <= i < rest@.len() implies #[trigger] rest@[i] == all[all.len() - 1 - i] by {
                assert(rest@[i] == before[i]);
            }
        }
        set.insert(v);
        k = k + 1;
    }
    assert(all.take(all.len() as int) =~= all);
    set
}

/// Ordered set comprehension: the set of `exp` of the items of `items` that
/// `cond` accepts.
pub fn btreesetc<T, K: Ord, C: Fn(&T) -> bool, E: Fn(&T) -> K>(
    items: &Vec<T>,
    cond: C,
    exp: E,
) -> (r: BTreeSet<K>)
    requires
        callable_on(cond, exp, items@),
    ensures
        exists|keep: Seq<bool>, out: Seq<K>| #[trigger]
            verdicts(cond, items@, keep) && #[trigger] images(exp, items@, keep, out) && (
            obeys_cmp::<K>() ==> r@ == out.to_set()),
{
    let values = vecc(items, cond, exp);
    let mut set: BTreeSet<K> = BTreeSet::new();
    let n: usize = values.len();
    let ghost all = values@;
    let mut rest = reversed(values);
    let mut k: usize = 0;
    // `rest` holds the values not yet inserted, last first.
    while rest.len() > 0
        invariant
            k + rest@.len() == all.len(),
            all.len() == n,
            forall|i: int| 0 <= i < rest@.len() ==> #[trigger] rest@[i] == all[all.len() - 1 - i],
            obeys_cmp::<K>() ==> set@ == all.take(k as int).to_set(),
        decreases rest@.len(),
    {
        let ghost before = rest@;
        let v = rest.pop().unwrap();
        proof {
            assert(v == all[k as int]);
            lemma_to_set_take(all, k as int);
            assert forall|i: int| 0 <= i < rest@.len() implies #[trigger] rest@[i] == all[all.len() - 1 - i] by {
                assert(rest@[i] == before[i]);
            }
        }
        set.insert(v);
        k = k + 1;
    }
    assert(all.take(all.len() as int) =~= all);
    set
}

/// Hash map comprehension: the map built by inserting, in the order of
/// `items`, the pair `entry` gives on each item that `cond` accepts. Of two
/// pairs with one key, the later one stays.
pub fn hashmapc<T, K: Hash + Eq, V, C: Fn(&T) -> bool, E: Fn(&T) -> (K, V)>(
    items: &Vec<T>,
    cond: C,
    entry: E,
) -> (r: HashMap<K, V>)
    requires
        callable_on(cond, entry, items@),
    ensures
        exists|keep: Seq<bool>, out: Seq<(K, V)>| #[trigger]
            verdicts(cond, items@, keep) && #[trigger] images(entry, items@, keep, out) && (
            obeys_key_model::<K>() ==> r@ == map_of(out)),
{
    let pairs = vecc(items, cond, entry);
    let mut map: HashMap<K, V> = HashMap::new();
    let n: usize = pairs.len();
    let ghost all = pairs@;
    let mut rest = reversed(pairs);
    let mut k: usize = 0;
    // `rest` holds the pairs not yet inserted, last first.
    while rest.len() > 0
        invariant
            k + rest@.len() == all.len(),
            all.len() == n,
            forall|i: int| 0 <= i < rest@.len() ==> #[trigger] rest@[i] == all[all.len() - 1 - i],
            obeys_key_model::<K>() ==> map@ == map_of(all.take(k as int)),
        decreases rest@.len(),
    {
        let ghost before = rest@;
        let (key, value) = rest.pop().unwrap();
        proof {
            assert((key, value) == all[k as int]);
            lemma_map_of_take(all, k as int);
            assert forall|i: int| 0 <= i < rest@.len() implies #[trigger] rest@[i] == all[all.len() - 1 - i] by {
                assert(rest@[i] == before[i]);
            }
        }
        map.insert(key, value);
        k = k + 1;
    }
    assert(all.take(all.len() as int) =~= all);
    map
}

/// Ordered map comprehension: the map built by inserting, in the order of
/// `items`, the pair `entry` gives on each item that `cond` accepts. Of two
/// pairs with one key, the later one stays.
pub fn btreemapc<T, K: Ord, V, C: Fn(&T) -> bool, E: Fn(&T) -> (K, V)>(
    items: &Vec<T>,
    cond: C,
    entry: E,
) -> (r: BTreeMap<K, V>)
    requires
        callable_on(cond, entry, items@),
    ensures
        exists|keep: Seq<bool>, out: Seq<(K, V)>| #[trigger]
            verdicts(cond, items@, keep) && #[trigger] images(entry, items@, keep, out) && (
            obeys_cmp::<K>() ==> r@ == map_of(out)),
{
    let pairs = vecc(items, cond, entry);
    let mut map: BTreeMap<K, V> = BTreeMap::new();
    let n: usize = pairs.len();
    let ghost all = pairs@;
    let mut rest = reversed(pairs);
    let mut k: usize = 0;
    // `rest` holds the pairs not yet inserted, last first.
    while rest.len() > 0
        invariant
            k + rest@.len() == all.len(),
            all.len() == n,
            forall|i: int| 0 <= i < rest@.len() ==> #[trigger] rest@[i] == all[all.len() - 1 - i],
            obeys_cmp::<K>() ==> map@ == map_of(all.take(k as int)),
        decreases rest@.len(),
    {
        let ghost before = rest@;
        let (key, value) = rest.pop().unwrap();
        proof {
            assert((key, value) == all[k as int]);
            lemma_map_of_take(all, k as int);
            assert forall|i: int| 0 <= i < rest@.len() implies #[trigger] rest@[i] == all[all.len() - 1 - i] by {
                assert(rest@[i] == before[i]);
            }
        }
        map.insert(key, value);
        k = k + 1;
    }
    assert(all.take(all.len() as int) =~= all);
    map
}

} // verus!
