//! Consumers of constraints: what an arithmetisation hands its constraint
//! values to, one by one.

use vstd::prelude::*;
use crate::field::Ring;

verus! {

/// Something that takes constraints in. It keeps them in order, each as
/// `seen` makes it.
pub trait ConstraintConsumer<R: Ring>: Sized {
    /// The constraints taken in so far, first to last.
    spec fn collected(&self) -> Seq<R>;

    /// What the consumer keeps of a constraint that is handed to it.
    spec fn seen(&self, constraint: R) -> R;

    /// Takes a constraint that is to hold on every row.
    fn global(&mut self, constraint: R)
        ensures
            final(self).collected() == old(self).collected().push(old(self).seen(constraint)),
            forall|c: R| final(self).seen(c) == old(self).seen(c),
    ;

    /// A consumer that multiplies every constraint by `filter` before it
    /// hands it on to this one.
    fn when(self, filter: R) -> (r: FilteredConstraintConsumer<R, Self>)
        ensures
            r.inner == self,
            r.filter == filter,
    {
        FilteredConstraintConsumer { inner: self, filter }
    }
}

/// A consumer that keeps every constraint as it is.
pub struct ConstraintCollector<R: Ring> {
    pub constraints: Vec<R>,
}

impl<R: Ring> ConstraintConsumer<R> for ConstraintCollector<R> {
    open spec fn collected(&self) -> Seq<R> {
        self.constraints@
    }

    open spec fn seen(&self, constraint: R) -> R {
        constraint
    }

    fn global(&mut self, constraint: R) {
        self.constraints.push(constraint);
    }
}

/// A consumer in front of another: it hands on `filter` times the constraint.
pub struct FilteredConstraintConsumer<R: Ring, CC: ConstraintConsumer<R>> {
    pub inner: CC,
    pub filter: R,
}

impl<R: Ring, CC: ConstraintConsumer<R>> FilteredConstraintConsumer<R, CC> {
    /// Gives back the consumer behind the filter.
    pub fn into_inner(self) -> (r: CC)
        ensures
            r == self.inner,
    {
        self.inner
    }
}

impl<R: Ring, CC: ConstraintConsumer<R>> ConstraintConsumer<R> for FilteredConstraintConsumer<R, CC> {
    open spec fn collected(&self) -> Seq<R> {
        self.inner.collected()
    }

    open spec fn seen(&self, constraint: R) -> R {
        self.inner.seen(self.filter.times_spec(constraint))
    }

    fn global(&mut self, constraint: R) {
        self.inner.global(self.filter.times(constraint));
    }
}

} // verus!
