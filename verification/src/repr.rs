//! The representation of a value as it is shown, cut off where it is too
//! long to be shown.

use vstd::prelude::*;
use vstd::string::StringExecFns;
use vstd::utf8::encode_utf8;
use crate::text::{decimal, decimal_string};

verus! {

/// The greatest number of bytes of a representation that is shown whole.
pub const REPR_LIMIT: usize = 104857600;

/// What stands in for a representation of `bytes` bytes that is too long.
pub open spec fn truncation_note(bytes: nat) -> Seq<char> {
    "[truncated-repr: "@ + decimal(bytes) + " bytes]"@
}

/// The number of bytes that a text takes, as a string reports it.
pub open spec fn byte_len(text: Seq<char>) -> usize {
    encode_utf8(text).len() as usize
}

/// The representation as it is shown under a limit of `limit` bytes.
pub open spec fn shown_repr(repr: Seq<char>, limit: nat) -> Seq<char> {
    if byte_len(repr) > limit {
        truncation_note(byte_len(repr) as nat)
    } else {
        repr
    }
}

/// Gets the representation, but cut off at a size of `SZ_LIMIT` bytes: a
/// longer one is replaced by a note of its size.
pub fn truncated_repr_<const SZ_LIMIT: usize>(repr: String) -> (out: String)
    ensures
        out@ == shown_repr(repr@, SZ_LIMIT as nat),
{
    let bytes = repr.as_str().len();
    if bytes > SZ_LIMIT {
        let mut out = String::from_str("[truncated-repr: ");
        out.append(decimal_string(bytes as u64).as_str());
        out.append(" bytes]");
        out
    } else {
        repr
    }
}

/// Gets the representation, but cut off at a hundred mebibytes.
pub fn truncated_repr(repr: String) -> (out: String)
    ensures
        out@ == shown_repr(repr@, REPR_LIMIT as nat),
{
    truncated_repr_::<REPR_LIMIT>(repr)
}

} // verus!
