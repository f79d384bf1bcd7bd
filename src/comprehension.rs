use vstd::prelude::*;
use crate::selection::{kept, lemma_kept_push};

verus! {

/// `keep` records, for each item of `items`, a verdict that `cond` may give on it.
pub open spec fn verdicts<T, C: Fn(&T) -> bool>(cond: C, items: Seq<T>, keep: Seq<bool>) -> bool {
    &&& keep.len() == items.len()
    &&& forall|i: int| 0 <= i < items.len() ==> #[trigger] cond.ensures((&items[i],), keep[i])
}

/// `out` holds, in order, a value that `exp` may give on each item that `keep`
/// marks as kept.
pub open spec fn images<T, U, E: Fn(&T) -> U>(
    exp: E,
    items: Seq<T>,
    keep: Seq<bool>,
    out: Seq<U>,
) -> bool {
    &&& out.len() == kept(keep).len()
    &&& forall|j: int|
        0 <= j < out.len() ==> #[trigger] exp.ensures((&items[kept(keep)[j]],), out[j])
}

/// Both clauses may be called on every item of `items`.
pub open spec fn callable_on<T, U, C: Fn(&T) -> bool, E: Fn(&T) -> U>(
    cond: C,
    exp: E,
    items: Seq<T>,
) -> bool {
    forall|i: int|
        0 <= i < items.len() ==> cond.requires((&#[trigger] items[i],)) && exp.requires(
            (&items[i],),
        )
}

/// Vector comprehension: `exp` of each item of `items` that `cond` accepts, in
/// the order of `items`.
pub fn vecc<T, U, C: Fn(&T) -> bool, E: Fn(&T) -> U>(items: &Vec<T>, cond: C, exp: E) -> (r: Vec<U>)
    requires
        callable_on(cond, exp, items@),
    ensures
        exists|keep: Seq<bool>| #[trigger]
            verdicts(cond, items@, keep) && images(exp, items@, keep, r@),
{
    let mut out: Vec<U> = Vec::new();
    let ghost mut keep: Seq<bool> = Seq::empty();
    let mut i: usize = 0;
    while i < items.len()
        invariant
            callable_on(cond, exp, items@),
            i <= items@.len(),
            verdicts(cond, items@.take(i as int), keep),
            images(exp, items@, keep, out@),
        decreases items@.len() - i,
    {
        let accepted = cond(&items[i]);
        proof {
            lemma_kept_push(keep, accepted);
        }
        if accepted {
            let value = exp(&items[i]);
            out.push(value);
        }
        proof {
            let prev = keep;
            keep = keep.push(accepted);
            assert(items@.take(i + 1) =~= items@.take(i as int).push(items@[i as int]));
            assert forall|j: int| 0 <= j < out@.len() implies #[trigger] exp.ensures(
                (&items@[kept(keep)[j]],),
                out@[j],
            ) by {
                if j < kept(prev).len() {
                    assert(kept(keep)[j] == kept(prev)[j]);
                }
            }
        }
        i = i + 1;
    }
    assert(items@.take(items@.len() as int) =~= items@);
    out
}

} // verus!
