//! Big-endian ("network order") byte conversions for the integer fields of
//! the wire format: 16-bit lengths and 128-bit room / message identifiers.

use vstd::prelude::*;
use vstd::bytes::{
    lemma_auto_spec_u128_to_from_le_bytes, spec_u128_from_le_bytes, spec_u128_to_le_bytes,
    u128_from_le_bytes, u128_to_le_bytes,
};

verus! {

/// The two big-endian bytes of a 16-bit integer.
pub open spec fn spec_u16_be(x: u16) -> Seq<u8> {
    seq![((x >> 8) & 0xff) as u8, (x & 0xff) as u8]
}

/// The 16-bit integer read from two big-endian bytes.
pub open spec fn spec_u16_from_be(s: Seq<u8>) -> u16
    recommends
        s.len() == 2,
{
    (((s[0] as u16) << 8) | (s[1] as u16)) as u16
}

/// Writing a 16-bit integer big-endian and reading it back yields the
/// integer.
pub proof fn lemma_u16_be_round_trip(x: u16)
    ensures
        spec_u16_be(x).len() == 2,
        spec_u16_from_be(spec_u16_be(x)) == x,
{
    let hi = ((x >> 8) & 0xff) as u8;
    let lo = (x & 0xff) as u8;
    assert((((hi as u16) << 8) | (lo as u16)) == x) by (bit_vector)
        requires
            hi == ((x >> 8) & 0xff) as u8 && lo == (x & 0xff) as u8,
    ;
}

/// Appends the two big-endian bytes of `x` to `buf`.
pub fn push_u16_be(buf: &mut Vec<u8>, x: u16)
    ensures
        final(buf)@ == old(buf)@ + spec_u16_be(x),
{
    let hi: u8 = (x >> 8) as u8;
    let lo: u8 = (x & 0xff) as u8;
    proof {
        assert((x >> 8) < 256 && (x & 0xff) < 256 && ((x >> 8) & 0xff) == (x >> 8))
            by (bit_vector);
    }
    buf.push(hi);
    buf.push(lo);
    proof {
        assert(final(buf)@ =~= old(buf)@ + spec_u16_be(x));
    }
}

/// Reads the 16-bit integer held big-endian in two bytes.
pub fn read_u16_be(b0: u8, b1: u8) -> (r: u16)
    ensures
        r == spec_u16_from_be(seq![b0, b1]),
{
    ((b0 as u16) << 8u16) | (b1 as u16)
}

/// The sixteen big-endian bytes of a 128-bit integer.
pub open spec fn spec_u128_be(x: u128) -> Seq<u8> {
    spec_u128_to_le_bytes(x).reverse()
}

/// The 128-bit integer read from sixteen big-endian bytes.
pub open spec fn spec_u128_from_be(s: Seq<u8>) -> u128
    recommends
        s.len() == 16,
{
    spec_u128_from_le_bytes(s.reverse())
}

/// Writing a 128-bit integer big-endian and reading it back yields the
/// integer.
pub proof fn lemma_u128_be_round_trip(x: u128)
    ensures
        spec_u128_be(x).len() == 16,
        spec_u128_from_be(spec_u128_be(x)) == x,
{
    lemma_auto_spec_u128_to_from_le_bytes();
    assert(spec_u128_to_le_bytes(x).reverse().reverse() =~= spec_u128_to_le_bytes(x));
}

/// Appends the sixteen big-endian bytes of `x` to `buf`.
pub fn push_u128_be(buf: &mut Vec<u8>, x: u128)
    ensures
        final(buf)@ == old(buf)@ + spec_u128_be(x),
{
    let le = u128_to_le_bytes(x);
    let mut i: usize = 0;
    while i < 16
        invariant
            le@ == spec_u128_to_le_bytes(x),
            le@.len() == 16,
            i <= 16,
            buf@ == old(buf)@ + spec_u128_be(x).take(i as int),
        decreases 16 - i,
    {
        proof {
            assert(spec_u128_be(x)[i as int] == le@[15 - i as int]);
            assert(spec_u128_be(x).take(i as int).push(le@[15 - i as int])
                =~= spec_u128_be(x).take(i + 1));
        }
        let b = le[15 - i];
        buf.push(b);
        i += 1;
    }
    proof {
        assert(spec_u128_be(x).take(16) =~= spec_u128_be(x));
    }
}

/// Reads the 128-bit integer held big-endian in `buf[pos .. pos + 16]`.
pub fn read_u128_be(buf: &Vec<u8>, pos: usize) -> (r: u128)
    requires
        pos + 16 <= buf@.len(),
    ensures
        r == spec_u128_from_be(buf@.subrange(pos as int, pos + 16)),
{
    let ghost s = buf@.subrange(pos as int, pos + 16);
    let n = buf.len();
    let mut le: Vec<u8> = Vec::new();
    let mut i: usize = 0;
    while i < 16
        invariant
            pos + 16 <= n == buf@.len(),
            s == buf@.subrange(pos as int, pos + 16),
            i <= 16,
            le@ == s.reverse().take(i as int),
        decreases 16 - i,
    {
        proof {
            assert(s.reverse()[i as int] == s[15 - i as int]);
            assert(s[15 - i as int] == buf@[pos + 15 - i as int]);
            assert(s.reverse().take(i as int).push(s.reverse()[i as int])
                =~= s.reverse().take(i + 1));
        }
        le.push(buf[pos + (15 - i)]);
        i += 1;
    }
    proof {
        assert(le@ =~= s.reverse());
    }
    u128_from_le_bytes(le.as_slice())
}

} // verus!
