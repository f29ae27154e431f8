//! The archive's 16-byte unique id and its hexadecimal rendering.

use vstd::prelude::*;
use crate::bytes::ascii_to_string;

verus! {

/// The unique id stored in a ZIM header.
#[derive(Debug)]
pub struct Uuid(pub [u8; 16]);

impl View for Uuid {
    type V = Seq<u8>;

    open spec fn view(&self) -> Seq<u8> {
        self.0@
    }
}

/// The ASCII code of the lower-case hex digit for `n` (meaningful for
/// `0 <= n < 16`).
pub open spec fn spec_hex_digit(n: int) -> u8 {
    if n < 10 {
        (48 + n) as u8
    } else {
        (87 + n) as u8
    }
}

/// The two hex digits of one byte, high nibble first.
pub open spec fn spec_hex_pair(b: u8) -> Seq<u8> {
    seq![spec_hex_digit(b as int / 16), spec_hex_digit(b as int % 16)]
}

/// The hex digits of the bytes `u[a..b]`.
pub open spec fn spec_hex_range(u: Seq<u8>, a: int, b: int) -> Seq<u8>
    decreases b - a,
{
    if a >= b {
        seq![]
    } else {
        spec_hex_pair(u[a]) + spec_hex_range(u, a + 1, b)
    }
}

/// The canonical dashed rendering of a 16-byte id, as ASCII bytes:
/// five hex groups of 4, 2, 2, 2 and 6 bytes, separated by `-` (45).
pub open spec fn spec_uuid_bytes(u: Seq<u8>) -> Seq<u8> {
    spec_hex_range(u, 0, 4) + seq![45u8] + spec_hex_range(u, 4, 6) + seq![45u8] + spec_hex_range(
        u,
        6,
        8,
    ) + seq![45u8] + spec_hex_range(u, 8, 10) + seq![45u8] + spec_hex_range(u, 10, 16)
}

/// Extending a hex range by one byte appends that byte's pair.
proof fn lemma_hex_range_snoc(u: Seq<u8>, a: int, i: int)
    requires
        a <= i,
    ensures
        spec_hex_range(u, a, i + 1) == spec_hex_range(u, a, i) + spec_hex_pair(u[i]),
    decreases i - a,
{
    if a == i {
        assert(spec_hex_range(u, i + 1, i + 1) =~= Seq::<u8>::empty());
        assert(spec_hex_range(u, a, i) =~= Seq::<u8>::empty());
        assert(spec_hex_range(u, a, i + 1) =~= spec_hex_range(u, a, i) + spec_hex_pair(u[i]));
    } else {
        lemma_hex_range_snoc(u, a + 1, i);
        assert(spec_hex_range(u, a, i + 1) == spec_hex_pair(u[a]) + spec_hex_range(
            u,
            a + 1,
            i + 1,
        ));
        assert(spec_hex_range(u, a, i) == spec_hex_pair(u[a]) + spec_hex_range(u, a + 1, i));
        assert(spec_hex_range(u, a, i + 1) =~= spec_hex_range(u, a, i) + spec_hex_pair(u[i]));
    }
}

/// The ASCII code of the lower-case hex digit for `n < 16`.
fn hex_digit(n: u8) -> (r: u8)
    requires
        n < 16,
    ensures
        r == spec_hex_digit(n as int),
        r < 0x80,
{
    if n < 10 {
        48 + n
    } else {
        87 + n
    }
}

impl Uuid {
    /// Wraps the 16 raw bytes of an archive id.
    pub fn new(uuid: [u8; 16]) -> (r: Self)
        ensures
            r@ == uuid@,
    {
        Uuid(uuid)
    }

    /// The hex digit of byte `i`'s high nibble.
    pub fn hi(&self, i: usize) -> (r: u8)
        requires
            i < 16,
        ensures
            r == spec_hex_digit(self@[i as int] as int / 16),
            r < 0x80,
    {
        let b = self.0[i];
        let n = (b >> 4) & 0xF;
        proof {
            assert((b >> 4) & 0xF == b / 16 && (b >> 4) & 0xF < 16) by (bit_vector);
        }
        hex_digit(n)
    }

    /// The hex digit of byte `i`'s low nibble.
    pub fn lo(&self, i: usize) -> (r: u8)
        requires
            i < 16,
        ensures
            r == spec_hex_digit(self@[i as int] as int % 16),
            r < 0x80,
    {
        let b = self.0[i];
        let n = b & 0xF;
        proof {
            assert(b & 0xF == b % 16 && b & 0xF < 16) by (bit_vector);
        }
        hex_digit(n)
    }

    /// Appends the hex digits of bytes `a..b` of the id to `out`.
    fn push_hex_range(&self, out: &mut Vec<u8>, a: usize, b: usize)
        requires
            a <= b <= 16,
            forall|k: int| 0 <= k < old(out)@.len() ==> old(out)@[k] < 0x80,
        ensures
            final(out)@ == old(out)@ + spec_hex_range(self@, a as int, b as int),
            forall|k: int| 0 <= k < final(out)@.len() ==> final(out)@[k] < 0x80,
    {
        let mut i: usize = a;
        while i < b
            invariant
                a <= i <= b <= 16,
                self@.len() == 16,
                out@ == old(out)@ + spec_hex_range(self@, a as int, i as int),
                forall|k: int| 0 <= k < out@.len() ==> out@[k] < 0x80,
            decreases b - i,
        {
            out.push(self.hi(i));
            out.push(self.lo(i));
            proof {
                lemma_hex_range_snoc(self@, a as int, i as int);
                assert(out@ =~= old(out)@ + spec_hex_range(self@, a as int, i + 1));
            }
            i = i + 1;
        }
    }

    /// Renders the id in its canonical dashed lower-case hex form.
    pub fn to_hex(&self) -> (r: String)
        ensures
            r@.len() == spec_uuid_bytes(self@).len(),
            forall|i: int|
                0 <= i < r@.len() ==> r@[i] == spec_uuid_bytes(self@)[i] as char,
    {
        let mut out: Vec<u8> = Vec::new();
        self.push_hex_range(&mut out, 0, 4);
        out.push(45);
        self.push_hex_range(&mut out, 4, 6);
        out.push(45);
        self.push_hex_range(&mut out, 6, 8);
        out.push(45);
        self.push_hex_range(&mut out, 8, 10);
        out.push(45);
        self.push_hex_range(&mut out, 10, 16);
        proof {
            assert(out@ =~= spec_uuid_bytes(self@));
        }
        ascii_to_string(out)
    }
}

} // verus!
