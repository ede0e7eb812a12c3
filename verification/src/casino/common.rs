//! Arithmetic, byte-encoding and card helpers shared by the games.

use vstd::prelude::*;

verus! {

/// Product clamped to `u64::MAX`, as `u64::saturating_mul` computes it.
pub open spec fn sat_mul(a: int, b: int) -> int {
    if a * b > u64::MAX {
        u64::MAX as int
    } else {
        a * b
    }
}

/// Sum clamped to `u64::MAX`, as `u64::saturating_add` computes it.
pub open spec fn sat_add(a: int, b: int) -> int {
    if a + b > u64::MAX {
        u64::MAX as int
    } else {
        a + b
    }
}

/// Difference clamped at 0, as `u64::saturating_sub` computes it.
pub open spec fn sat_sub(a: int, b: int) -> int {
    if a - b < 0 {
        0
    } else {
        a - b
    }
}

/// `a.saturating_mul(b)` on `u64`.
pub fn saturating_mul_u64(a: u64, b: u64) -> (r: u64)
    ensures
        r == sat_mul(a as int, b as int),
{
    match a.checked_mul(b) {
        Some(v) => v,
        None => u64::MAX,
    }
}

/// Sum clamped to the `i64` range, as `i64::saturating_add` computes it.
pub open spec fn sat_i64(x: int) -> int {
    if x > i64::MAX {
        i64::MAX as int
    } else if x < i64::MIN {
        i64::MIN as int
    } else {
        x
    }
}

/// `a.saturating_add(b)` on `i64`.
pub fn saturating_add_i64(a: i64, b: i64) -> (r: i64)
    ensures
        r == sat_i64(a + b),
{
    match a.checked_add(b) {
        Some(v) => v,
        None => if b > 0 {
            i64::MAX
        } else {
            i64::MIN
        },
    }
}

/// The value of `x as i64`: two's-complement reinterpretation of the bits.
pub open spec fn wrap_i64(x: u64) -> int {
    if x > i64::MAX {
        x - 0x1_0000_0000_0000_0000
    } else {
        x as int
    }
}

/// `x as i64`.
pub fn u64_as_i64(x: u64) -> (r: i64)
    ensures
        r == wrap_i64(x),
{
    let r = #[verifier::truncate] (x as i64);
    assert(x > 0x7fff_ffff_ffff_ffffu64 ==> r == x - 0x1_0000_0000_0000_0000int) by (bit_vector)
        requires
            r == #[verifier::truncate] (x as i64),
    ;
    assert(x <= 0x7fff_ffff_ffff_ffffu64 ==> r == x) by (bit_vector)
        requires
            r == #[verifier::truncate] (x as i64),
    ;
    r
}

/// A length written as one byte (taken modulo 256).
pub open spec fn len_byte(n: nat) -> u8 {
    (n % 256) as u8
}

/// Big-endian bytes of a `u64`.
pub open spec fn u64_be_bytes(x: u64) -> Seq<u8> {
    seq![
        ((x >> 56u64) & 0xff) as u8,
        ((x >> 48u64) & 0xff) as u8,
        ((x >> 40u64) & 0xff) as u8,
        ((x >> 32u64) & 0xff) as u8,
        ((x >> 24u64) & 0xff) as u8,
        ((x >> 16u64) & 0xff) as u8,
        ((x >> 8u64) & 0xff) as u8,
        (x & 0xff) as u8,
    ]
}

/// Big-endian bytes of a `u32`.
pub open spec fn u32_be_bytes(x: u32) -> Seq<u8> {
    seq![
        ((x >> 24u32) & 0xff) as u8,
        ((x >> 16u32) & 0xff) as u8,
        ((x >> 8u32) & 0xff) as u8,
        (x & 0xff) as u8,
    ]
}

/// The `u64` whose big-endian bytes are the first eight of `b`.
pub open spec fn be_u64(b: Seq<u8>) -> u64 {
    (b[0] as int * 0x100_0000_0000_0000 + b[1] as int * 0x1_0000_0000_0000 + b[2] as int
        * 0x100_0000_0000 + b[3] as int * 0x1_0000_0000 + b[4] as int * 0x100_0000 + b[5] as int
        * 0x1_0000 + b[6] as int * 0x100 + b[7] as int) as u64
}

/// Decoding the big-endian bytes of a `u64` gives it back.
pub proof fn lemma_u64_be_roundtrip(x: u64)
    ensures
        u64_be_bytes(x).len() == 8,
        be_u64(u64_be_bytes(x)) == x,
{
    let b = u64_be_bytes(x);
    assert(((x >> 56u64) & 0xff) * 0x100_0000_0000_0000 + ((x >> 48u64) & 0xff) * 0x1_0000_0000_0000
        + ((x >> 40u64) & 0xff) * 0x100_0000_0000 + ((x >> 32u64) & 0xff) * 0x1_0000_0000 + ((x
        >> 24u64) & 0xff) * 0x100_0000 + ((x >> 16u64) & 0xff) * 0x1_0000 + ((x >> 8u64) & 0xff)
        * 0x100 + (x & 0xff) == x) by (bit_vector);
    assert(b[0] as int == ((x >> 56u64) & 0xff)) by {
        assert(((x >> 56u64) & 0xff) < 256) by (bit_vector);
    }
    assert(b[1] as int == ((x >> 48u64) & 0xff)) by {
        assert(((x >> 48u64) & 0xff) < 256) by (bit_vector);
    }
    assert(b[2] as int == ((x >> 40u64) & 0xff)) by {
        assert(((x >> 40u64) & 0xff) < 256) by (bit_vector);
    }
    assert(b[3] as int == ((x >> 32u64) & 0xff)) by {
        assert(((x >> 32u64) & 0xff) < 256) by (bit_vector);
    }
    assert(b[4] as int == ((x >> 24u64) & 0xff)) by {
        assert(((x >> 24u64) & 0xff) < 256) by (bit_vector);
    }
    assert(b[5] as int == ((x >> 16u64) & 0xff)) by {
        assert(((x >> 16u64) & 0xff) < 256) by (bit_vector);
    }
    assert(b[6] as int == ((x >> 8u64) & 0xff)) by {
        assert(((x >> 8u64) & 0xff) < 256) by (bit_vector);
    }
    assert(b[7] as int == (x & 0xff)) by {
        assert((x & 0xff) < 256) by (bit_vector);
    }
}

/// Appends the big-endian bytes of `x`.
pub fn push_u64_be(out: &mut Vec<u8>, x: u64)
    ensures
        final(out)@ == old(out)@ + u64_be_bytes(x),
{
    out.push(((x >> 56u64) & 0xff) as u8);
    out.push(((x >> 48u64) & 0xff) as u8);
    out.push(((x >> 40u64) & 0xff) as u8);
    out.push(((x >> 32u64) & 0xff) as u8);
    out.push(((x >> 24u64) & 0xff) as u8);
    out.push(((x >> 16u64) & 0xff) as u8);
    out.push(((x >> 8u64) & 0xff) as u8);
    out.push((x & 0xff) as u8);
    assert(out@ =~= old(out)@ + u64_be_bytes(x));
}

/// Reads the big-endian `u64` at `offset`.
pub fn read_u64_be(bytes: &[u8], offset: usize) -> (x: u64)
    requires
        offset + 8 <= bytes@.len(),
    ensures
        x == be_u64(bytes@.subrange(offset as int, offset + 8)),
{
    let ghost b = bytes@.subrange(offset as int, offset + 8);
    let v = bytes[offset] as u64 * 0x100_0000_0000_0000 + bytes[offset + 1] as u64
        * 0x1_0000_0000_0000 + bytes[offset + 2] as u64 * 0x100_0000_0000 + bytes[offset + 3] as u64
        * 0x1_0000_0000 + bytes[offset + 4] as u64 * 0x100_0000 + bytes[offset + 5] as u64 * 0x1_0000
        + bytes[offset + 6] as u64 * 0x100 + bytes[offset + 7] as u64;
    v
}

/// Appends all of `src`.
pub fn push_all(out: &mut Vec<u8>, src: &[u8])
    ensures
        final(out)@ == old(out)@ + src@,
{
    let mut i: usize = 0;
    while i < src.len()
        invariant
            i <= src@.len(),
            out@ == old(out)@ + src@.subrange(0, i as int),
        decreases src@.len() - i,
    {
        out.push(src[i]);
        i += 1;
        proof {
            assert(out@ =~= old(out)@ + src@.subrange(0, i as int));
        }
    }
    assert(src@.subrange(0, src@.len() as int) =~= src@);
}

/// Copies `bytes[start..end]`.
pub fn copy_range(bytes: &[u8], start: usize, end: usize) -> (out: Vec<u8>)
    requires
        start <= end <= bytes@.len(),
    ensures
        out@ == bytes@.subrange(start as int, end as int),
{
    let mut out: Vec<u8> = Vec::new();
    let mut i = start;
    while i < end
        invariant
            start <= i <= end,
            end <= bytes@.len(),
            out@ == bytes@.subrange(start as int, i as int),
        decreases end - i,
    {
        out.push(bytes[i]);
        i += 1;
        proof {
            assert(out@ =~= bytes@.subrange(start as int, i as int));
        }
    }
    out
}

/// Card rank 0-12 (A, 2, ..., K).
pub open spec fn rank_of(card: u8) -> u8 {
    card % 13
}

/// Card suit 0-3 for cards 0-51.
pub open spec fn suit_of(card: u8) -> u8 {
    card / 13
}

/// Rank with ace high: 2-13 for 2-K and 14 for the ace.
pub open spec fn rank_ace_high(card: u8) -> u8 {
    if card % 13 == 0 {
        14
    } else {
        (card % 13 + 1) as u8
    }
}

} // verus!
