//! Little-endian reads, zero-terminator scanning, and byte/string bridging
//! over the in-memory archive bytes.

use vstd::prelude::*;
use vstd::utf8::{valid_utf8, decode_utf8, encode_utf8, is_ascii_chars};

verus! {

/// The little-endian 16-bit value stored at byte offset `i`.
pub open spec fn le16(b: Seq<u8>, i: int) -> int
    recommends
        0 <= i,
        i + 2 <= b.len(),
{
    b[i] + 0x100 * b[i + 1]
}

/// The little-endian 32-bit value stored at byte offset `i`.
pub open spec fn le32(b: Seq<u8>, i: int) -> int
    recommends
        0 <= i,
        i + 4 <= b.len(),
{
    le16(b, i) + 0x10000 * le16(b, i + 2)
}

/// The little-endian 64-bit value stored at byte offset `i`.
pub open spec fn le64(b: Seq<u8>, i: int) -> int
    recommends
        0 <= i,
        i + 8 <= b.len(),
{
    le32(b, i) + 0x1_0000_0000 * le32(b, i + 4)
}

/// Reads the little-endian `u16` at `off`.
pub fn read_u16(data: &Vec<u8>, off: usize) -> (r: u16)
    requires
        off + 2 <= data.len(),
    ensures
        r == le16(data@, off as int),
{
    let b0 = data[off] as u16;
    let b1 = data[off + 1] as u16;
    b0 + 0x100 * b1
}

/// Reads the little-endian `u32` at `off`.
pub fn read_u32(data: &Vec<u8>, off: usize) -> (r: u32)
    requires
        off + 4 <= data.len(),
    ensures
        r == le32(data@, off as int),
{
    let b0 = data[off] as u32;
    let b1 = data[off + 1] as u32;
    let b2 = data[off + 2] as u32;
    let b3 = data[off + 3] as u32;
    b0 + 0x100 * b1 + 0x10000 * b2 + 0x100_0000 * b3
}

/// Reads the little-endian `u64` at `off`.
pub fn read_u64(data: &Vec<u8>, off: usize) -> (r: u64)
    requires
        off + 8 <= data.len(),
    ensures
        r == le64(data@, off as int),
{
    let lo = read_u32(data, off) as u64;
    let hi = read_u32(data, off + 4) as u64;
    lo + 0x1_0000_0000 * hi
}

/// The index of the first zero byte at or after `i`, or `b.len()` if there
/// is none (or if `i` is out of range).
pub open spec fn first_zero_at(b: Seq<u8>, i: int) -> int
    decreases b.len() - i,
{
    if 0 <= i < b.len() {
        if b[i] == 0 {
            i
        } else {
            first_zero_at(b, i + 1)
        }
    } else {
        b.len() as int
    }
}

/// Basic facts about `first_zero_at`: the result lies between `i` and the
/// length, points at a zero byte when in range, and nothing before it is zero.
pub proof fn lemma_first_zero_at(b: Seq<u8>, i: int)
    requires
        0 <= i <= b.len(),
    ensures
        i <= first_zero_at(b, i) <= b.len(),
        first_zero_at(b, i) < b.len() ==> b[first_zero_at(b, i)] == 0,
        forall|k: int| i <= k < first_zero_at(b, i) ==> b[k] != 0,
    decreases b.len() - i,
{
    if i < b.len() && b[i] != 0 {
        lemma_first_zero_at(b, i + 1);
    }
}

/// Scans for the first zero byte at or after `from`; returns `data.len()`
/// when there is none.
pub fn find_zero(data: &Vec<u8>, from: usize) -> (r: usize)
    requires
        from <= data.len(),
    ensures
        r == first_zero_at(data@, from as int),
{
    let mut i: usize = from;
    loop
        invariant
            from <= i <= data@.len(),
            first_zero_at(data@, from as int) == first_zero_at(data@, i as int),
        decreases data@.len() - i,
    {
        if i == data.len() {
            return i;
        }
        if data[i] == 0 {
            return i;
        }
        proof {
            assert(first_zero_at(data@, i as int) == first_zero_at(data@, i + 1));
        }
        i = i + 1;
    }
}

/// Copies the byte range `[start, end)` out of `data`.
pub fn copy_range(data: &Vec<u8>, start: usize, end: usize) -> (r: Vec<u8>)
    requires
        start <= end <= data.len(),
    ensures
        r@ == data@.subrange(start as int, end as int),
{
    let mut r: Vec<u8> = Vec::new();
    let mut i: usize = start;
    while i < end
        invariant
            start <= i <= end <= data@.len(),
            r@ == data@.subrange(start as int, i as int),
        decreases end - i,
    {
        r.push(data[i]);
        proof {
            assert(data@.subrange(start as int, i + 1)
                =~= data@.subrange(start as int, i as int).push(data@[i as int]));
        }
        i = i + 1;
    }
    r
}

/// Compares two byte vectors for equality of contents.
pub fn bytes_eq(a: &Vec<u8>, b: &Vec<u8>) -> (r: bool)
    ensures
        r == (a@ == b@),
{
    if a.len() != b.len() {
        return false;
    }
    let mut i: usize = 0;
    while i < a.len()
        invariant
            0 <= i <= a@.len(),
            a@.len() == b@.len(),
            forall|k: int| 0 <= k < i ==> a@[k] == b@[k],
        decreases a@.len() - i,
    {
        if a[i] != b[i] {
            return false;
        }
        i = i + 1;
    }
    proof {
        assert(a@ =~= b@);
    }
    true
}

/// Relies on `String::from_utf8`: it succeeds exactly on valid UTF-8 input
/// and yields the string whose characters are that input's decoding.
#[verifier::external_body]
pub(crate) fn string_from_utf8(v: Vec<u8>) -> (r: Option<String>)
    ensures
        r is Some <==> valid_utf8(v@),
        r matches Some(s) ==> s@ == decode_utf8(v@),
{
    String::from_utf8(v).ok()
}

/// A sequence of ASCII bytes is valid UTF-8 and decodes byte-for-byte.
pub proof fn lemma_ascii_bytes_utf8(bytes: Seq<u8>)
    requires
        forall|i: int| 0 <= i < bytes.len() ==> bytes[i] < 0x80,
    ensures
        valid_utf8(bytes),
        decode_utf8(bytes).len() == bytes.len(),
        forall|i: int| 0 <= i < bytes.len() ==> decode_utf8(bytes)[i] == bytes[i] as char,
{
    let chars = Seq::new(bytes.len(), |i: int| bytes[i] as char);
    assert(is_ascii_chars(chars)) by {
        assert forall|i: int| 0 <= i < chars.len() implies '\0' <= #[trigger] chars[i]
            <= '\u{7f}' by {
            assert(bytes[i] < 0x80);
        }
    }
    vstd::utf8::is_ascii_chars_encode_utf8(chars);
    assert(encode_utf8(chars) =~= bytes);
    vstd::utf8::encode_utf8_valid_utf8(chars);
    vstd::utf8::encode_utf8_decode_utf8(chars);
}

/// Builds a `String` from ASCII bytes; the result's characters correspond
/// one-for-one to the input bytes.
pub fn ascii_to_string(v: Vec<u8>) -> (r: String)
    requires
        forall|i: int| 0 <= i < v@.len() ==> v@[i] < 0x80,
    ensures
        r@.len() == v@.len(),
        forall|i: int| 0 <= i < v@.len() ==> r@[i] == v@[i] as char,
{
    proof {
        lemma_ascii_bytes_utf8(v@);
    }
    let ghost bs = v@;
    match string_from_utf8(v) {
        Some(s) => s,
        None => {
            proof {
                assert(valid_utf8(bs));
            }
            vstd::pervasive::unreached()
        },
    }
}

} // verus!
