use vstd::prelude::*;

verus! {

/// A lazily evaluated comprehension over a source sequence.
///
/// Each call of `next` resumes the walk of `source` where the previous one
/// stopped, skips the items that `cond` rejects, and yields `exp` of the first
/// item that `cond` accepts. Once the source is exhausted it yields nothing.
pub struct GeneratorIterator<T, C, E> {
    source: Vec<T>,
    pos: usize,
    cond: C,
    exp: E,
}

impl<T, U, C: Fn(&T) -> bool, E: Fn(&T) -> U> GeneratorIterator<T, C, E> {
    /// The items the comprehension walks.
    pub closed spec fn source(&self) -> Seq<T> {
        self.source@
    }

    /// How many items of `source` have been walked so far.
    pub closed spec fn pos(&self) -> int {
        self.pos as int
    }

    /// The filter clause.
    pub closed spec fn cond(&self) -> C {
        self.cond
    }

    /// The expression evaluated on each kept item.
    pub closed spec fn exp(&self) -> E {
        self.exp
    }

    /// The position lies within the source, and both clauses may be called on
    /// every item of it.
    pub open spec fn wf(&self) -> bool {
        &&& 0 <= self.pos() <= self.source().len()
        &&& forall|i: int|
            0 <= i < self.source().len() ==> self.cond().requires((&#[trigger] self.source()[i],))
                && self.exp().requires((&self.source()[i],))
    }

    /// Whether `cond` may reject each item of `source` from `lo` up to, but not
    /// including, `hi`.
    pub open spec fn all_rejected(&self, lo: int, hi: int) -> bool {
        forall|i: int| lo <= i < hi ==> #[trigger] self.cond().ensures((&self.source()[i],), false)
    }

    /// Starts a comprehension over `source` that keeps the items that `cond`
    /// accepts and yields `exp` of each; nothing is evaluated yet.
    pub fn new(source: Vec<T>, cond: C, exp: E) -> (r: Self)
        requires
            forall|i: int|
                0 <= i < source@.len() ==> cond.requires((&#[trigger] source@[i],)) && exp.requires(
                    (&source@[i],),
                ),
        ensures
            r.wf(),
            r.source() == source@,
            r.pos() == 0,
            r.cond() == cond,
            r.exp() == exp,
    {
        GeneratorIterator { source, pos: 0, cond, exp }
    }

    /// Resumes the comprehension: yields `exp` of the next item that `cond`
    /// accepts, or `None` once every remaining item has been rejected.
    pub fn next(&mut self) -> (r: Option<U>)
        requires
            old(self).wf(),
        ensures
            final(self).wf(),
            final(self).source() == old(self).source(),
            final(self).cond() == old(self).cond(),
            final(self).exp() == old(self).exp(),
            match r {
                None => {
                    &&& final(self).pos() == old(self).source().len()
                    &&& old(self).all_rejected(old(self).pos(), old(self).source().len() as int)
                },
                Some(u) => {
                    let j = final(self).pos() - 1;
                    &&& old(self).pos() <= j < old(self).source().len()
                    &&& old(self).all_rejected(old(self).pos(), j)
                    &&& old(self).cond().ensures((&old(self).source()[j],), true)
                    &&& old(self).exp().ensures((&old(self).source()[j],), u)
                },
            },
    {
        let ghost start = self.pos as int;
        while self.pos < self.source.len()
            invariant
                self.wf(),
                self.source() == old(self).source(),
                self.cond() == old(self).cond(),
                self.exp() == old(self).exp(),
                start == old(self).pos(),
                start <= self.pos(),
                self.all_rejected(start, self.pos()),
            decreases self.source@.len() - self.pos,
        {
            let i = self.pos;
            self.pos = i + 1;
            let accepted = (self.cond)(&self.source[i]);
            if accepted {
                let value = (self.exp)(&self.source[i]);
                return Some(value);
            }
        }
        None
    }
}

} // verus!
