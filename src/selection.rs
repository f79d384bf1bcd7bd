use vstd::prelude::*;

verus! {

/// The indices, in increasing order, at which `keep` holds `true`.
pub open spec fn kept(keep: Seq<bool>) -> Seq<int>
    decreases keep.len(),
{
    if keep.len() == 0 {
        Seq::empty()
    } else {
        let rest = kept(keep.drop_last());
        if keep.last() {
            rest.push(keep.len() - 1)
        } else {
            rest
        }
    }
}

/// Appending one decision to `keep` adds its index exactly when it is `true`.
pub proof fn lemma_kept_push(keep: Seq<bool>, b: bool)
    ensures
        kept(keep.push(b)) == (if b {
            kept(keep).push(keep.len() as int)
        } else {
            kept(keep)
        }),
{
    assert(keep.push(b).drop_last() =~= keep);
}

} // verus!
