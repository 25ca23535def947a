//! The snapshot capability: aggregate accessors over one frame's particles,
//! uniform across file formats.
//!
//! Different formats contain trajectory data in different ways; this trait
//! lets them all be read in one way. Each aggregate accessor is all-or-
//! nothing: it collects a quantity across every particle, and is `None` as
//! soon as one particle lacks it — never a partially populated column.

use vstd::prelude::*;

use crate::particle::Attribute;

verus! {

/// The sequence a collected optional column stands for: the vector's
/// contents, or `None` where the column is absent.
pub open spec fn opt_vec_view<X>(v: Option<Vec<X>>) -> Option<Seq<X>> {
    match v {
        Some(v) => Some(v@),
        None => None,
    }
}

/// A trait that gives the same access to any kind of snapshot: how many
/// particles it holds, and each per-particle quantity collected into one
/// optional column.
pub trait Snapshot<T>: Sized {
    /// The precision of the values (e.g. a 32- or 64-bit floating point).
    type Value;

    /// How many particles the snapshot holds.
    spec fn spec_len(&self) -> nat;

    /// The mass column, where every particle has a mass.
    spec fn spec_masses(&self) -> Option<Seq<T>>;

    /// The position column, where every particle has a position.
    spec fn spec_positions(&self) -> Option<Seq<(T, T, T)>>;

    /// The velocity column, where every particle has a velocity.
    spec fn spec_velocities(&self) -> Option<Seq<(T, T, T)>>;

    /// The force column, where every particle has a force.
    spec fn spec_forces(&self) -> Option<Seq<(T, T, T)>>;

    /// The attribute column under `name`, where every particle has one.
    spec fn spec_attributes(&self, name: Seq<char>) -> Option<Seq<Attribute<T>>>;

    /// Returns how many particles are contained in the snapshot.
    fn len(&self) -> (r: usize)
        ensures
            r as nat == self.spec_len(),
    ;

    /// Collects the mass of each particle, if every particle has one.
    fn masses(&self) -> (r: Option<Vec<T>>)
        ensures
            opt_vec_view(r) == self.spec_masses(),
    ;

    /// Collects the position of each particle, if every particle has one.
    fn positions(&self) -> (r: Option<Vec<(T, T, T)>>)
        ensures
            opt_vec_view(r) == self.spec_positions(),
    ;

    /// Collects the velocity of each particle, if every particle has one.
    fn velocities(&self) -> (r: Option<Vec<(T, T, T)>>)
        ensures
            opt_vec_view(r) == self.spec_velocities(),
    ;

    /// Collects the force on each particle, if every particle has one.
    fn forces(&self) -> (r: Option<Vec<(T, T, T)>>)
        ensures
            opt_vec_view(r) == self.spec_forces(),
    ;

    /// Collects the attribute under `name` of each particle, if every
    /// particle has one.
    fn attributes(&self, name: &str) -> (r: Option<Vec<Attribute<T>>>)
        ensures
            opt_vec_view(r) == self.spec_attributes(name@),
    ;
}

} // verus!
