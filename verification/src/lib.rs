//! A library for reading and writing molecular-dynamics trajectory data:
//! sequences of per-frame particle records ("snapshots"), exposed through one
//! uniform access pattern, with a streaming reader and writer for the
//! line-oriented XYZ text format.
//!
//! - [`coordinate`]: a tagged three-component vector (position, velocity or
//!   force) with uniform component access.
//! - [`particle`], [`snapshot`], [`trajectory`]: the capability traits that
//!   give every concrete format the same accessors.
//! - [`error`]: the closed taxonomy of failures.
//! - [`grammar`]: the text layer -- lines, whitespace, tokens and decimal
//!   counts -- as specification functions with verified executable readers
//!   and writers of each piece.
//! - [`xyz`]: the XYZ format itself: its particle and snapshot types, the
//!   frame reader and writer, and the proof that a written frame reads back
//!   as itself.

pub mod coordinate;
pub mod error;
pub mod grammar;
pub mod particle;
pub mod snapshot;
pub mod trajectory;
pub mod xyz;
