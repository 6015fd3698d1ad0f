//! The numbers by which failures and versions are told across a C interface.

use crate::stream::VcdError;
use vstd::prelude::*;

verus! {

/// The status code of a failure: 1 to 6, in the order of the kinds of failure.
/// Zero stands for success.
pub open spec fn spec_encode_error(err: VcdError) -> i32 {
    match err {
        VcdError::IoError(_) => 1,
        VcdError::ParseError => 2,
        VcdError::MissingData => 3,
        VcdError::PartialHeader => 4,
        VcdError::Utf8Error => 5,
        VcdError::EndOfInput => 6,
    }
}

/// The status code of the failure `err`.
pub fn encode_error(err: &VcdError) -> (status: i32)
    ensures
        status == spec_encode_error(*err),
        1 <= status <= 6,
{
    match err {
        VcdError::IoError(_) => 1,
        VcdError::ParseError => 2,
        VcdError::MissingData => 3,
        VcdError::PartialHeader => 4,
        VcdError::Utf8Error => 5,
        VcdError::EndOfInput => 6,
    }
}

/// A version as one number: the major part above the minor part above the
/// patch, eight bits each.
pub fn pack_version(major: u8, minor: u8, patch: u8) -> (packed: u32)
    ensures
        packed == major * 65536 + minor * 256 + patch,
{
    let a = major as u32;
    let b = minor as u32;
    let c = patch as u32;
    assert((a << 16 | b << 8 | c) == a * 65536 + b * 256 + c) by (bit_vector)
        requires
            a < 256,
            b < 256,
            c < 256,
    ;
    a << 16 | b << 8 | c
}

} // verus!
