//! The trajectory capability: an ordered collection of snapshots, uniform
//! across file formats. A streaming reader is not one — it yields its frames
//! forward-only — but a format that loads whole trajectories can offer this
//! interface to its callers.

use vstd::prelude::*;

verus! {

/// A trait that gives the same access to any kind of trajectory.
pub trait Trajectory<T>: Sized {
    /// The precision of the values (e.g. a 32- or 64-bit floating point).
    type Value;

    /// How many snapshots the trajectory holds.
    spec fn spec_len(&self) -> nat;

    /// Returns how many snapshots are contained in the trajectory.
    fn len(&self) -> (r: usize)
        ensures
            r as nat == self.spec_len(),
    ;
}

} // verus!
