//! The order of the elements of a cubic extension, in the terms of the
//! standard library.

use crate::cubic_extension::{CubicExtConfig, CubicExtField};
use crate::field::Comparison;
use core::cmp::Ordering;
use vstd::prelude::*;

verus! {

/// The standard ordering that stands for an outcome.
pub open spec fn to_ordering(c: Comparison) -> Ordering {
    match c {
        Comparison::Less => Ordering::Less,
        Comparison::Equal => Ordering::Equal,
        Comparison::Greater => Ordering::Greater,
    }
}

impl<P: CubicExtConfig> CubicExtField<P> {
    /// Compares by `c2`, then by `c1`, then by `c0`.
    pub fn cmp(&self, other: &Self) -> (r: Ordering)
        requires
            self.wf(),
            other.wf(),
        ensures
            r == to_ordering(self.compare_spec(*other)),
    {
        match self.compare(other) {
            Comparison::Less => Ordering::Less,
            Comparison::Equal => Ordering::Equal,
            Comparison::Greater => Ordering::Greater,
        }
    }

    /// The same comparison; an order is always found.
    pub fn partial_cmp(&self, other: &Self) -> (r: Option<Ordering>)
        requires
            self.wf(),
            other.wf(),
        ensures
            r == Some(to_ordering(self.compare_spec(*other))),
    {
        Some(self.cmp(other))
    }
}

} // verus!
