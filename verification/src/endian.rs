//! Big-endian encoding and decoding of the fixed-width integers that
//! appear in packet headers, with proofs that the two directions are
//! inverse to each other.

use vstd::prelude::*;

verus! {

/// The eight big-endian bytes of a 64-bit value, most significant first.
pub open spec fn spec_be_u64(v: u64) -> Seq<u8> {
    seq![
        ((v >> 56) & 0xff) as u8,
        ((v >> 48) & 0xff) as u8,
        ((v >> 40) & 0xff) as u8,
        ((v >> 32) & 0xff) as u8,
        ((v >> 24) & 0xff) as u8,
        ((v >> 16) & 0xff) as u8,
        ((v >> 8) & 0xff) as u8,
        (v & 0xff) as u8,
    ]
}

/// The four big-endian bytes of a 32-bit value, most significant first.
pub open spec fn spec_be_u32(v: u32) -> Seq<u8> {
    seq![
        ((v >> 24) & 0xff) as u8,
        ((v >> 16) & 0xff) as u8,
        ((v >> 8) & 0xff) as u8,
        (v & 0xff) as u8,
    ]
}

/// A signed 64-bit value is encoded as the bytes of its two's-complement
/// bit pattern.
pub open spec fn spec_be_i64(v: i64) -> Seq<u8> {
    spec_be_u64(v as u64)
}

/// A signed 32-bit value is encoded as the bytes of its two's-complement
/// bit pattern.
pub open spec fn spec_be_i32(v: i32) -> Seq<u8> {
    spec_be_u32(v as u32)
}

/// The 64-bit value read big-endian from eight bytes.
pub open spec fn spec_u64_of_be(s: Seq<u8>) -> u64
    recommends
        s.len() == 8,
{
    ((s[0] as u64) << 56) | ((s[1] as u64) << 48) | ((s[2] as u64) << 40) | ((s[3] as u64) << 32)
        | ((s[4] as u64) << 24) | ((s[5] as u64) << 16) | ((s[6] as u64) << 8) | (s[7] as u64)
}

/// The 32-bit value read big-endian from four bytes.
pub open spec fn spec_u32_of_be(s: Seq<u8>) -> u32
    recommends
        s.len() == 4,
{
    ((s[0] as u32) << 24) | ((s[1] as u32) << 16) | ((s[2] as u32) << 8) | (s[3] as u32)
}

/// The signed 64-bit value whose two's-complement bit pattern is read
/// big-endian from eight bytes.
pub open spec fn spec_i64_of_be(s: Seq<u8>) -> i64
    recommends
        s.len() == 8,
{
    spec_u64_of_be(s) as i64
}

/// The signed 32-bit value whose two's-complement bit pattern is read
/// big-endian from four bytes.
pub open spec fn spec_i32_of_be(s: Seq<u8>) -> i32
    recommends
        s.len() == 4,
{
    spec_u32_of_be(s) as i32
}

/// Decoding the eight bytes of an encoded 64-bit value gives the value back.
pub proof fn lemma_u64_be_round_trip(v: u64)
    ensures
        spec_u64_of_be(spec_be_u64(v)) == v,
{
    let s = spec_be_u64(v);
    let b0 = s[0];
    let b1 = s[1];
    let b2 = s[2];
    let b3 = s[3];
    let b4 = s[4];
    let b5 = s[5];
    let b6 = s[6];
    let b7 = s[7];
    assert(((b0 as u64) << 56) | ((b1 as u64) << 48) | ((b2 as u64) << 40) | ((b3 as u64) << 32)
        | ((b4 as u64) << 24) | ((b5 as u64) << 16) | ((b6 as u64) << 8) | (b7 as u64) == v)
        by (bit_vector)
        requires
            b0 == ((v >> 56) & 0xff) as u8,
            b1 == ((v >> 48) & 0xff) as u8,
            b2 == ((v >> 40) & 0xff) as u8,
            b3 == ((v >> 32) & 0xff) as u8,
            b4 == ((v >> 24) & 0xff) as u8,
            b5 == ((v >> 16) & 0xff) as u8,
            b6 == ((v >> 8) & 0xff) as u8,
            b7 == (v & 0xff) as u8,
    ;
}

/// Decoding the four bytes of an encoded 32-bit value gives the value back.
pub proof fn lemma_u32_be_round_trip(v: u32)
    ensures
        spec_u32_of_be(spec_be_u32(v)) == v,
{
    let s = spec_be_u32(v);
    let b0 = s[0];
    let b1 = s[1];
    let b2 = s[2];
    let b3 = s[3];
    assert(((b0 as u32) << 24) | ((b1 as u32) << 16) | ((b2 as u32) << 8) | (b3 as u32) == v)
        by (bit_vector)
        requires
            b0 == ((v >> 24) & 0xff) as u8,
            b1 == ((v >> 16) & 0xff) as u8,
            b2 == ((v >> 8) & 0xff) as u8,
            b3 == (v & 0xff) as u8,
    ;
}

/// Decoding the eight bytes of an encoded signed 64-bit value gives the
/// value back.
pub proof fn lemma_i64_be_round_trip(v: i64)
    ensures
        spec_i64_of_be(spec_be_i64(v)) == v,
{
    lemma_u64_be_round_trip(v as u64);
    assert((v as u64) as i64 == v) by (bit_vector);
}

/// Decoding the four bytes of an encoded signed 32-bit value gives the
/// value back.
pub proof fn lemma_i32_be_round_trip(v: i32)
    ensures
        spec_i32_of_be(spec_be_i32(v)) == v,
{
    lemma_u32_be_round_trip(v as u32);
    assert((v as u32) as i32 == v) by (bit_vector);
}

/// Appends the big-endian encoding of a signed 64-bit value.
pub fn push_i64_be(out: &mut Vec<u8>, v: i64)
    ensures
        final(out)@ == old(out)@ + spec_be_i64(v),
{
    let u: u64 = v as u64;
    out.push(((u >> 56) & 0xff) as u8);
    out.push(((u >> 48) & 0xff) as u8);
    out.push(((u >> 40) & 0xff) as u8);
    out.push(((u >> 32) & 0xff) as u8);
    out.push(((u >> 24) & 0xff) as u8);
    out.push(((u >> 16) & 0xff) as u8);
    out.push(((u >> 8) & 0xff) as u8);
    out.push((u & 0xff) as u8);
    proof {
        assert(out@ =~= old(out)@ + spec_be_i64(v));
    }
}

/// Appends the big-endian encoding of a signed 32-bit value.
pub fn push_i32_be(out: &mut Vec<u8>, v: i32)
    ensures
        final(out)@ == old(out)@ + spec_be_i32(v),
{
    let u: u32 = v as u32;
    out.push(((u >> 24) & 0xff) as u8);
    out.push(((u >> 16) & 0xff) as u8);
    out.push(((u >> 8) & 0xff) as u8);
    out.push((u & 0xff) as u8);
    proof {
        assert(out@ =~= old(out)@ + spec_be_i32(v));
    }
}

/// Reads the signed 64-bit value stored big-endian at `off`.
pub fn read_i64_be(buf: &Vec<u8>, off: usize) -> (r: i64)
    requires
        off + 8 <= buf@.len(),
    ensures
        r == spec_i64_of_be(buf@.subrange(off as int, off as int + 8)),
{
    let _n: usize = buf.len();
    let u: u64 = ((buf[off] as u64) << 56) | ((buf[off + 1] as u64) << 48) | ((buf[off + 2]
        as u64) << 40) | ((buf[off + 3] as u64) << 32) | ((buf[off + 4] as u64) << 24) | ((buf[off
        + 5] as u64) << 16) | ((buf[off + 6] as u64) << 8) | (buf[off + 7] as u64);
    proof {
        let s = buf@.subrange(off as int, off as int + 8);
        assert(s[0] == buf@[off as int]);
        assert(u == spec_u64_of_be(s));
    }
    #[verifier::truncate] (u as i64)
}

/// Reads the signed 32-bit value stored big-endian at `off`.
pub fn read_i32_be(buf: &Vec<u8>, off: usize) -> (r: i32)
    requires
        off + 4 <= buf@.len(),
    ensures
        r == spec_i32_of_be(buf@.subrange(off as int, off as int + 4)),
{
    let _n: usize = buf.len();
    let u: u32 = ((buf[off] as u32) << 24) | ((buf[off + 1] as u32) << 16) | ((buf[off + 2]
        as u32) << 8) | (buf[off + 3] as u32);
    proof {
        let s = buf@.subrange(off as int, off as int + 4);
        assert(s[0] == buf@[off as int]);
        assert(u == spec_u32_of_be(s));
    }
    #[verifier::truncate] (u as i32)
}

} // verus!
