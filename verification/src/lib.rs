//! Decoding of typed numeric elements (scalars, vectors, matrices) out of
//! flat binary buffers, following a declarative accessor description, with an
//! optional sparse overlay that replaces a subset of elements.
//!
//! The crate is organised leaves-first:
//! - [`component`] declares the component encodings, index encodings and
//!   element shapes, together with their byte sizes and wire codes.
//! - [`codec`] knows the packed byte layout of one element (including the
//!   column padding of matrix shapes), decodes and encodes one element at a
//!   byte offset, and states the normalized-integer scaling law exactly as an
//!   integer numerator over an integer denominator.
//! - [`buffer`] resolves a buffer view to a sub-slice of caller-supplied
//!   bytes, with bounds checking.
//! - [`sparse`] and [`accessor`] hold the descriptor records as plain values.
//! - [`read`] walks an accessor's `count` elements across a resolved view and
//!   reconciles them with a decoded sparse overlay.

pub mod accessor;
pub mod buffer;
pub mod codec;
pub mod component;
pub mod error;
pub mod read;
pub mod sparse;
