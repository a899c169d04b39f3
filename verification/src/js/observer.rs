//! `MutationObserver`: whether it observes, and the records it holds.
use vstd::prelude::*;

verus! {

/// An observer. `R` is what a record is.
pub struct MutationObserver<R> {
    pub observing: bool,
    pub records: Vec<R>,
}

impl<R> MutationObserver<R> {
    /// `new MutationObserver(callback)`
    pub fn new() -> (r: MutationObserver<R>)
        ensures
            !r.observing,
            r.records@ == Seq::<R>::empty(),
    {
        MutationObserver { observing: false, records: Vec::new() }
    }

    /// `observe(target, options)`
    pub fn observe(&mut self)
        ensures
            final(self).observing,
            final(self).records == old(self).records,
    {
        self.observing = true;
    }

    /// `disconnect()`: it observes no longer, and its records are gone.
    pub fn disconnect(&mut self)
        ensures
            !final(self).observing,
            final(self).records@ == Seq::<R>::empty(),
    {
        self.observing = false;
        self.records = Vec::new();
    }

    /// `takeRecords()`: the records are handed out, and none are left.
    pub fn take_records(&mut self) -> (r: Vec<R>)
        ensures
            r@ == old(self).records@,
            final(self).records@ == Seq::<R>::empty(),
            final(self).observing == old(self).observing,
    {
        let mut out: Vec<R> = Vec::new();
        std::mem::swap(&mut out, &mut self.records);
        out
    }
}

} // verus!
