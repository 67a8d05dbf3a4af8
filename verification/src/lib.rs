//! Range checker for a zero-knowledge virtual machine.
//!
//! The VM reports every value it claims fits in 16 bits; this library records
//! the multiplicity of each reported value and then materializes a dense
//! four-column execution trace (`t`, `s0`, `s1`, `v`) from which a downstream
//! algebraic protocol can enforce the range property with a constant-size
//! constraint system.
//!
//! The trace layout, the packing of repeated lookups into selector rows, and
//! the "bridge" rows that keep consecutive 16-bit values at most 255 apart are
//! all specified by the spec functions in [`model`] and proved of the code in
//! [`range`]; the laws that hold of every emitted trace are stated and proved
//! in [`props`].

pub mod felt;
pub mod model;
pub mod props;
pub mod range;
pub mod trace;
