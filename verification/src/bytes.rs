//! Big-endian encodings of the fixed-width integers used by the
//! archive format, together with their round-trip lemmas.
//!
//! Every multi-byte quantity in the archive format is big-endian.
//! Signed values travel as their two's-complement bit patterns.
use vstd::prelude::*;

verus! {

/// The two big-endian bytes of a `u16`.
pub open spec fn spec_u16_be(x: u16) -> Seq<u8> {
    seq![((x >> 8) & 0xff) as u8, (x & 0xff) as u8]
}

/// The four big-endian bytes of a `u32`.
pub open spec fn spec_u32_be(x: u32) -> Seq<u8> {
    seq![
        ((x >> 24) & 0xff) as u8,
        ((x >> 16) & 0xff) as u8,
        ((x >> 8) & 0xff) as u8,
        (x & 0xff) as u8,
    ]
}

/// The eight big-endian bytes of a `u64`.
pub open spec fn spec_u64_be(x: u64) -> Seq<u8> {
    seq![
        ((x >> 56) & 0xff) as u8,
        ((x >> 48) & 0xff) as u8,
        ((x >> 40) & 0xff) as u8,
        ((x >> 32) & 0xff) as u8,
        ((x >> 24) & 0xff) as u8,
        ((x >> 16) & 0xff) as u8,
        ((x >> 8) & 0xff) as u8,
        (x & 0xff) as u8,
    ]
}

/// The `u16` denoted by two big-endian bytes.
pub open spec fn spec_be_u16(b: Seq<u8>) -> u16
    recommends
        b.len() == 2,
{
    ((b[0] as u16) << 8) | (b[1] as u16)
}

/// The `u32` denoted by four big-endian bytes.
pub open spec fn spec_be_u32(b: Seq<u8>) -> u32
    recommends
        b.len() == 4,
{
    ((b[0] as u32) << 24) | ((b[1] as u32) << 16) | ((b[2] as u32) << 8) | (b[3] as u32)
}

/// The `u64` denoted by eight big-endian bytes.
pub open spec fn spec_be_u64(b: Seq<u8>) -> u64
    recommends
        b.len() == 8,
{
    ((b[0] as u64) << 56) | ((b[1] as u64) << 48) | ((b[2] as u64) << 40) | ((b[3] as u64) << 32)
        | ((b[4] as u64) << 24) | ((b[5] as u64) << 16) | ((b[6] as u64) << 8) | (b[7] as u64)
}

pub broadcast proof fn lemma_u16_be_round_trip(x: u16)
    ensures
        #[trigger] spec_be_u16(spec_u16_be(x)) == x,
{
    let b = spec_u16_be(x);
    let b0 = ((x >> 8) & 0xff) as u8;
    let b1 = (x & 0xff) as u8;
    assert(((b0 as u16) << 8) | (b1 as u16) == x) by (bit_vector)
        requires
            b0 == ((x >> 8) & 0xff) as u8 && b1 == (x & 0xff) as u8,
    ;
}

pub broadcast proof fn lemma_u32_be_round_trip(x: u32)
    ensures
        #[trigger] spec_be_u32(spec_u32_be(x)) == x,
{
    let b0 = ((x >> 24) & 0xff) as u8;
    let b1 = ((x >> 16) & 0xff) as u8;
    let b2 = ((x >> 8) & 0xff) as u8;
    let b3 = (x & 0xff) as u8;
    assert(((b0 as u32) << 24) | ((b1 as u32) << 16) | ((b2 as u32) << 8) | (b3 as u32) == x)
        by (bit_vector)
        requires
            b0 == ((x >> 24) & 0xff) as u8 && b1 == ((x >> 16) & 0xff) as u8 && b2 == ((x >> 8)
                & 0xff) as u8 && b3 == (x & 0xff) as u8,
    ;
}

pub broadcast proof fn lemma_u64_be_round_trip(x: u64)
    ensures
        #[trigger] spec_be_u64(spec_u64_be(x)) == x,
{
    let b0 = ((x >> 56) & 0xff) as u8;
    let b1 = ((x >> 48) & 0xff) as u8;
    let b2 = ((x >> 40) & 0xff) as u8;
    let b3 = ((x >> 32) & 0xff) as u8;
    let b4 = ((x >> 24) & 0xff) as u8;
    let b5 = ((x >> 16) & 0xff) as u8;
    let b6 = ((x >> 8) & 0xff) as u8;
    let b7 = (x & 0xff) as u8;
    assert(((b0 as u64) << 56) | ((b1 as u64) << 48) | ((b2 as u64) << 40) | ((b3 as u64) << 32) | (
    (b4 as u64) << 24) | ((b5 as u64) << 16) | ((b6 as u64) << 8) | (b7 as u64) == x)
        by (bit_vector)
        requires
            b0 == ((x >> 56) & 0xff) as u8 && b1 == ((x >> 48) & 0xff) as u8 && b2 == ((x >> 40)
                & 0xff) as u8 && b3 == ((x >> 32) & 0xff) as u8 && b4 == ((x >> 24) & 0xff) as u8
                && b5 == ((x >> 16) & 0xff) as u8 && b6 == ((x >> 8) & 0xff) as u8 && b7 == (x
                & 0xff) as u8,
    ;
}

pub broadcast proof fn lemma_i32_cast_round_trip(x: i32)
    ensures
        #[trigger] ((x as u32) as i32) == x,
{
    assert(((x as u32) as i32) == x) by (bit_vector);
}

pub broadcast proof fn lemma_i64_cast_round_trip(x: i64)
    ensures
        #[trigger] ((x as u64) as i64) == x,
{
    assert(((x as u64) as i64) == x) by (bit_vector);
}

/// Appends the two big-endian bytes of `x` to `out`.
pub fn push_u16_be(out: &mut Vec<u8>, x: u16)
    requires
        old(out)@.len() + 2 <= usize::MAX,
    ensures
        final(out)@ == old(out)@ + spec_u16_be(x),
{
    out.push(((x >> 8) & 0xff) as u8);
    out.push((x & 0xff) as u8);
    assert(out@ =~= old(out)@ + spec_u16_be(x));
}

/// Appends the four big-endian bytes of `x` to `out`.
pub fn push_u32_be(out: &mut Vec<u8>, x: u32)
    requires
        old(out)@.len() + 4 <= usize::MAX,
    ensures
        final(out)@ == old(out)@ + spec_u32_be(x),
{
    out.push(((x >> 24) & 0xff) as u8);
    out.push(((x >> 16) & 0xff) as u8);
    out.push(((x >> 8) & 0xff) as u8);
    out.push((x & 0xff) as u8);
    assert(out@ =~= old(out)@ + spec_u32_be(x));
}

/// Appends the eight big-endian bytes of `x` to `out`.
pub fn push_u64_be(out: &mut Vec<u8>, x: u64)
    requires
        old(out)@.len() + 8 <= usize::MAX,
    ensures
        final(out)@ == old(out)@ + spec_u64_be(x),
{
    out.push(((x >> 56) & 0xff) as u8);
    out.push(((x >> 48) & 0xff) as u8);
    out.push(((x >> 40) & 0xff) as u8);
    out.push(((x >> 32) & 0xff) as u8);
    out.push(((x >> 24) & 0xff) as u8);
    out.push(((x >> 16) & 0xff) as u8);
    out.push(((x >> 8) & 0xff) as u8);
    out.push((x & 0xff) as u8);
    assert(out@ =~= old(out)@ + spec_u64_be(x));
}

/// Reads the big-endian `u16` stored at `data[at..at + 2]`.
pub fn read_u16_be(data: &Vec<u8>, at: usize) -> (r: u16)
    requires
        at + 2 <= data@.len(),
    ensures
        r == spec_be_u16(data@.subrange(at as int, at + 2)),
{
    let n = data.len();
    let ghost b = data@.subrange(at as int, at + 2);
    let r = ((data[at] as u16) << 8) | (data[at + 1] as u16);
    assert(b[0] == data@[at as int] && b[1] == data@[at + 1]);
    r
}

/// Reads the big-endian `u32` stored at `data[at..at + 4]`.
pub fn read_u32_be(data: &Vec<u8>, at: usize) -> (r: u32)
    requires
        at + 4 <= data@.len(),
    ensures
        r == spec_be_u32(data@.subrange(at as int, at + 4)),
{
    let n = data.len();
    let ghost b = data@.subrange(at as int, at + 4);
    let r = ((data[at] as u32) << 24) | ((data[at + 1] as u32) << 16) | ((data[at + 2] as u32)
        << 8) | (data[at + 3] as u32);
    assert(b[0] == data@[at as int] && b[1] == data@[at + 1] && b[2] == data@[at + 2] && b[3]
        == data@[at + 3]);
    r
}

/// Reads the big-endian `u64` stored at `data[at..at + 8]`.
pub fn read_u64_be(data: &Vec<u8>, at: usize) -> (r: u64)
    requires
        at + 8 <= data@.len(),
    ensures
        r == spec_be_u64(data@.subrange(at as int, at + 8)),
{
    let n = data.len();
    let ghost b = data@.subrange(at as int, at + 8);
    let r = ((data[at] as u64) << 56) | ((data[at + 1] as u64) << 48) | ((data[at + 2] as u64)
        << 40) | ((data[at + 3] as u64) << 32) | ((data[at + 4] as u64) << 24) | ((data[at
        + 5] as u64) << 16) | ((data[at + 6] as u64) << 8) | (data[at + 7] as u64);
    assert(b[0] == data@[at as int] && b[1] == data@[at + 1] && b[2] == data@[at + 2] && b[3]
        == data@[at + 3] && b[4] == data@[at + 4] && b[5] == data@[at + 5] && b[6] == data@[at + 6]
        && b[7] == data@[at + 7]);
    r
}

} // verus!
