//! Trusted boundary to the host VM's prime field element type.
//!
//! Every cell of the emitted execution trace is a field element of the host
//! VM (`miden_core::Felt`, a prime field of modulus 2^64 - 2^32 + 1). The value
//! a cell carries is opaque to the verifier, so the conversions in and out of
//! the field are the only trusted items of this crate: everything written
//! into a trace cell here is far below the modulus, where the conversion is
//! value-preserving.

#![allow(unused_imports)]

use vstd::prelude::*;
use miden_core::StarkField;

verus! {

/// The host VM's prime field element type, opaque to the verifier.
#[verifier::external_type_specification]
#[verifier::external_body]
pub struct ExFelt(miden_core::Felt);

/// The modulus of the field: 2^64 - 2^32 + 1.
pub const FELT_MODULUS: u64 = 0xFFFF_FFFF_0000_0001;

/// The canonical integer value of a field element, in `[0, FELT_MODULUS)`.
/// Names the result of `miden_core::Felt::as_int`, which depends on the element
/// alone.
pub uninterp spec fn felt_val(f: miden_core::Felt) -> u64;

/// Relies on `miden_core::Felt::new`: converts an integer into a field element.
/// For inputs below the modulus the conversion is value-preserving, so the
/// canonical value (`Felt::as_int`, named by `felt_val`) of the result is the
/// input itself.
#[verifier::external_body]
pub fn felt_from_u64(value: u64) -> (r: miden_core::Felt)
    requires
        value < FELT_MODULUS,
    ensures
        felt_val(r) == value,
{
    miden_core::Felt::new(value)
}

/// Relies on `miden_core::Felt::as_int` (via the `StarkField` trait): returns
/// the canonical integer value of the element, the value `felt_val` names.
#[verifier::external_body]
pub fn felt_to_u64(f: &miden_core::Felt) -> (r: u64)
    ensures
        r == felt_val(*f),
{
    f.as_int()
}

} // verus!
