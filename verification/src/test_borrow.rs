//! Borrowing a string view of a byte buffer.

use vstd::prelude::*;
use vstd::utf8::*;
use vstd::string::StringSliceAdditionalSpecFns;
use crate::text::str_from_utf8;

verus! {

/// The bytes of `buf` read as a string. They must be valid UTF-8.
pub fn read_str<'a>(buf: &'a [u8]) -> (s: &'a str)
    requires
        valid_utf8(buf@),
    ensures
        s.spec_bytes() == buf@,
{
    str_from_utf8(buf).unwrap()
}

} // verus!
