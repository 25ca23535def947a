//! The particle capability: the uniform accessors a concrete particle type of
//! any trajectory format may satisfy, each returning `None` for a quantity
//! the format does not store.

use vstd::prelude::*;

verus! {

/// A named, format-specific value attached to a particle, whose type cannot
/// be known statically: a file may store residue names, charges, spins or
/// other parameters beside the coordinates.
#[derive(Debug, Clone, PartialEq)]
pub enum Attribute<T> {
    /// A scalar of the trajectory's numeric type.
    Float(T),
    /// An integral value.
    Integer(i64),
    /// A textual value.
    Text(String),
    /// A three-component vector of the trajectory's numeric type.
    Vector(T, T, T),
}

/// A trait that every concrete particle type implements, so that any kind of
/// file format is accessible in the same way. Each accessor is a pure
/// function of the particle: calls are side-effect-free and repeatable, and a
/// quantity the format does not store is `None`. An attribute lookup with an
/// unrecognized name is `None`, never a failure.
pub trait Particle<T>: Sized {
    /// The precision of the values (e.g. a 32- or 64-bit floating point).
    type Value;

    /// The mass this particle carries, if the format stores one.
    spec fn spec_mass(&self) -> Option<T>;

    /// The position this particle carries, if any.
    spec fn spec_pos(&self) -> Option<(T, T, T)>;

    /// The velocity this particle carries, if any.
    spec fn spec_vel(&self) -> Option<(T, T, T)>;

    /// The force this particle carries, if any.
    spec fn spec_force(&self) -> Option<(T, T, T)>;

    /// The attribute stored under `name`, if any.
    spec fn spec_attribute(&self, name: Seq<char>) -> Option<Attribute<T>>;

    /// The mass of the particle, where the format stores one.
    fn mass(&self) -> (r: Option<T>)
        ensures
            r == self.spec_mass(),
    ;

    /// The position of the particle, where it holds one.
    fn pos(&self) -> (r: Option<(T, T, T)>)
        ensures
            r == self.spec_pos(),
    ;

    /// The velocity of the particle, where it holds one.
    fn vel(&self) -> (r: Option<(T, T, T)>)
        ensures
            r == self.spec_vel(),
    ;

    /// The force on the particle, where it holds one.
    fn force(&self) -> (r: Option<(T, T, T)>)
        ensures
            r == self.spec_force(),
    ;

    /// The attribute stored under `name`, or `None` for an unrecognized name.
    fn attribute(&self, name: &str) -> (r: Option<Attribute<T>>)
        ensures
            r == self.spec_attribute(name@),
    ;
}

} // verus!
