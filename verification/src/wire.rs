//! Byte-level building blocks of the wire format: little-endian integers,
//! length-prefixed text, and writing into the middle of a buffer.

use vstd::bytes::{spec_u32_from_le_bytes, spec_u32_to_le_bytes, u32_from_le_bytes, u32_to_le_bytes};
use vstd::prelude::*;
use vstd::slice::slice_subrange;
use vstd::utf8::{decode_utf8, valid_utf8};

verus! {

/// Width in bytes of an encoded `u32`.
pub const U32_SIZE: usize = 4;

/// Width in bytes of an encoded `u8`.
pub const U8_SIZE: usize = 1;

/// What lossy decoding makes of bytes that are not valid UTF-8: every
/// malformed sequence is replaced by U+FFFD, as `String::from_utf8_lossy`
/// does. It depends on the bytes alone.
pub uninterp spec fn utf8_lossy_replaced(bytes: Seq<u8>) -> Seq<char>;

/// The text that a length-prefixed field holds: the decoded characters where
/// the bytes are valid UTF-8, and the lossy replacement otherwise.
pub open spec fn text_of(bytes: Seq<u8>) -> Seq<char> {
    if valid_utf8(bytes) {
        decode_utf8(bytes)
    } else {
        utf8_lossy_replaced(bytes)
    }
}

/// `buf` with `bytes` written over it from offset `at` on.
pub open spec fn overwrite(buf: Seq<u8>, at: int, bytes: Seq<u8>) -> Seq<u8>
    recommends
        0 <= at,
        at + bytes.len() <= buf.len(),
{
    buf.subrange(0, at) + bytes + buf.subrange(at + bytes.len(), buf.len() as int)
}

/// The `u32` stored little-endian in the four bytes of `data` from `at` on.
pub open spec fn u32_at(data: Seq<u8>, at: int) -> u32
    recommends
        0 <= at,
        at + 4 <= data.len(),
{
    spec_u32_from_le_bytes(data.subrange(at, at + 4))
}

/// `String::from_utf8_lossy`, made into an owned `String`. Valid UTF-8 comes
/// back as the text it encodes; for anything else the standard library
/// substitutes U+FFFD, which this contract only names.
#[verifier::external_body]
pub(crate) fn lossy_string(bytes: &[u8]) -> (s: String)
    ensures
        valid_utf8(bytes@) ==> s@ == decode_utf8(bytes@),
        !valid_utf8(bytes@) ==> s@ == utf8_lossy_replaced(bytes@),
{
    String::from_utf8_lossy(bytes).into_owned()
}

/// Reads a little-endian `u32` at offset `at`.
pub(crate) fn read_u32(data: &[u8], at: usize) -> (x: u32)
    requires
        at + 4 <= data.len(),
    ensures
        x == u32_at(data@, at as int),
{
    u32_from_le_bytes(slice_subrange(data, at, at + 4))
}

/// Copies `src` over `dst`, starting at offset `at`.
pub(crate) fn write_bytes(dst: &mut [u8], at: usize, src: &[u8])
    requires
        at + src.len() <= old(dst).len(),
    ensures
        final(dst)@ == overwrite(old(dst)@, at as int, src@),
{
    let n = src.len();
    let mut i: usize = 0;
    while i < n
        invariant
            n == src@.len(),
            i <= n,
            at + n <= dst.len(),
            dst.len() == old(dst).len(),
            dst@ == overwrite(old(dst)@, at as int, src@.subrange(0, i as int)),
        decreases n - i,
    {
        dst[at + i] = src[i];
        i += 1;
    }
    assert(src@.subrange(0, n as int) == src@);
}

/// Writes `x` little-endian over the four bytes of `dst` from `at` on.
pub(crate) fn write_u32(dst: &mut [u8], at: usize, x: u32)
    requires
        at + 4 <= old(dst).len(),
    ensures
        final(dst)@ == overwrite(old(dst)@, at as int, spec_u32_to_le_bytes(x)),
{
    let bytes = u32_to_le_bytes(x);
    write_bytes(dst, at, bytes.as_slice());
}

} // verus!
