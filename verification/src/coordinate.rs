//! A tagged three-component vector and the tag that names which physical
//! quantity (position, velocity or force) the components stand for.

use vstd::prelude::*;

verus! {

/// A flag to represent which kind of vector is contained in a file.
///
/// Generally, which kind of vector is contained in a file cannot be deduced
/// from the file format alone, so readers are configured with it explicitly.
#[derive(Copy, Clone, Debug, PartialEq, Eq, Structural)]
pub enum CoordKind {
    Position,
    Velocity,
    Force,
}

/// A three-component vector tagged with the kind of quantity it represents.
///
/// The tag is fixed at construction and never changes; component access is
/// defined uniformly for every tag.
#[derive(Debug, Clone, PartialEq)]
pub enum Coordinate<T> {
    Position { x: T, y: T, z: T },
    Velocity { x: T, y: T, z: T },
    Force { x: T, y: T, z: T },
}

impl<T> Coordinate<T> {
    /// The tag of this coordinate, as a value of `CoordKind`.
    pub open spec fn spec_which(&self) -> CoordKind {
        match self {
            Coordinate::Position { .. } => CoordKind::Position,
            Coordinate::Velocity { .. } => CoordKind::Velocity,
            Coordinate::Force { .. } => CoordKind::Force,
        }
    }

    /// The first component, regardless of the tag.
    pub open spec fn spec_x(&self) -> T {
        match self {
            Coordinate::Position { x, .. } => *x,
            Coordinate::Velocity { x, .. } => *x,
            Coordinate::Force { x, .. } => *x,
        }
    }

    /// The second component, regardless of the tag.
    pub open spec fn spec_y(&self) -> T {
        match self {
            Coordinate::Position { y, .. } => *y,
            Coordinate::Velocity { y, .. } => *y,
            Coordinate::Force { y, .. } => *y,
        }
    }

    /// The third component, regardless of the tag.
    pub open spec fn spec_z(&self) -> T {
        match self {
            Coordinate::Position { z, .. } => *z,
            Coordinate::Velocity { z, .. } => *z,
            Coordinate::Force { z, .. } => *z,
        }
    }

    /// Convert (x, y, z) into a `Coordinate` tagged with `kind`.
    pub fn build(kind: CoordKind, x: T, y: T, z: T) -> (r: Self)
        ensures
            r.spec_which() == kind,
            r.spec_x() == x,
            r.spec_y() == y,
            r.spec_z() == z,
    {
        match kind {
            CoordKind::Position => Coordinate::Position { x, y, z },
            CoordKind::Velocity => Coordinate::Velocity { x, y, z },
            CoordKind::Force => Coordinate::Force { x, y, z },
        }
    }

    /// Get the `CoordKind` that corresponds to the current `Coordinate`.
    /// If `self` is a `Coordinate::Position`, it returns `CoordKind::Position`.
    pub fn which(&self) -> (r: CoordKind)
        ensures
            r == self.spec_which(),
    {
        match self {
            Coordinate::Position { .. } => CoordKind::Position,
            Coordinate::Velocity { .. } => CoordKind::Velocity,
            Coordinate::Force { .. } => CoordKind::Force,
        }
    }

    /// Borrow the x value regardless of the kind.
    pub fn x(&self) -> (r: &T)
        ensures
            *r == self.spec_x(),
    {
        match self {
            Coordinate::Position { x, .. } => x,
            Coordinate::Velocity { x, .. } => x,
            Coordinate::Force { x, .. } => x,
        }
    }

    /// Borrow the y value regardless of the kind.
    pub fn y(&self) -> (r: &T)
        ensures
            *r == self.spec_y(),
    {
        match self {
            Coordinate::Position { y, .. } => y,
            Coordinate::Velocity { y, .. } => y,
            Coordinate::Force { y, .. } => y,
        }
    }

    /// Borrow the z value regardless of the kind.
    pub fn z(&self) -> (r: &T)
        ensures
            *r == self.spec_z(),
    {
        match self {
            Coordinate::Position { z, .. } => z,
            Coordinate::Velocity { z, .. } => z,
            Coordinate::Force { z, .. } => z,
        }
    }

    /// Borrow the mutable x value regardless of the kind. Writing through the
    /// returned reference changes the first component and nothing else.
    pub fn x_mut(&mut self) -> (r: &mut T)
        ensures
            *r == old(self).spec_x(),
            final(self).spec_which() == old(self).spec_which(),
            final(self).spec_x() == *final(r),
            final(self).spec_y() == old(self).spec_y(),
            final(self).spec_z() == old(self).spec_z(),
    {
        match self {
            Coordinate::Position { x, .. } => x,
            Coordinate::Velocity { x, .. } => x,
            Coordinate::Force { x, .. } => x,
        }
    }

    /// Borrow the mutable y value regardless of the kind. Writing through the
    /// returned reference changes the second component and nothing else.
    pub fn y_mut(&mut self) -> (r: &mut T)
        ensures
            *r == old(self).spec_y(),
            final(self).spec_which() == old(self).spec_which(),
            final(self).spec_x() == old(self).spec_x(),
            final(self).spec_y() == *final(r),
            final(self).spec_z() == old(self).spec_z(),
    {
        match self {
            Coordinate::Position { y, .. } => y,
            Coordinate::Velocity { y, .. } => y,
            Coordinate::Force { y, .. } => y,
        }
    }

    /// Borrow the mutable z value regardless of the kind. Writing through the
    /// returned reference changes the third component and nothing else.
    pub fn z_mut(&mut self) -> (r: &mut T)
        ensures
            *r == old(self).spec_z(),
            final(self).spec_which() == old(self).spec_which(),
            final(self).spec_x() == old(self).spec_x(),
            final(self).spec_y() == old(self).spec_y(),
            final(self).spec_z() == *final(r),
    {
        match self {
            Coordinate::Position { z, .. } => z,
            Coordinate::Velocity { z, .. } => z,
            Coordinate::Force { z, .. } => z,
        }
    }

    /// The component selected by `idx` (0, 1, 2 for x, y, z), regardless of
    /// the kind. An out-of-range index is a programming error, not an input
    /// error, and is ruled out by the precondition.
    pub fn index(&self, idx: usize) -> (r: &T)
        requires
            idx < 3,
        ensures
            idx == 0 ==> *r == self.spec_x(),
            idx == 1 ==> *r == self.spec_y(),
            idx == 2 ==> *r == self.spec_z(),
    {
        if idx == 0 {
            self.x()
        } else if idx == 1 {
            self.y()
        } else {
            self.z()
        }
    }

    /// Mutable access to the component selected by `idx` (0, 1, 2 for x, y,
    /// z). Writing through the returned reference changes that component and
    /// nothing else.
    pub fn index_mut(&mut self, idx: usize) -> (r: &mut T)
        requires
            idx < 3,
        ensures
            final(self).spec_which() == old(self).spec_which(),
            idx == 0 ==> *r == old(self).spec_x() && final(self).spec_x() == *final(r)
                && final(self).spec_y() == old(self).spec_y() && final(self).spec_z() == old(
                self,
            ).spec_z(),
            idx == 1 ==> *r == old(self).spec_y() && final(self).spec_y() == *final(r)
                && final(self).spec_x() == old(self).spec_x() && final(self).spec_z() == old(
                self,
            ).spec_z(),
            idx == 2 ==> *r == old(self).spec_z() && final(self).spec_z() == *final(r)
                && final(self).spec_x() == old(self).spec_x() && final(self).spec_y() == old(
                self,
            ).spec_y(),
    {
        if idx == 0 {
            self.x_mut()
        } else if idx == 1 {
            self.y_mut()
        } else {
            self.z_mut()
        }
    }

    /// Convert into the plain component triple, discarding the tag.
    pub fn into_components(self) -> (r: (T, T, T))
        ensures
            r == (self.spec_x(), self.spec_y(), self.spec_z()),
    {
        match self {
            Coordinate::Position { x, y, z } => (x, y, z),
            Coordinate::Velocity { x, y, z } => (x, y, z),
            Coordinate::Force { x, y, z } => (x, y, z),
        }
    }
}

} // verus!
