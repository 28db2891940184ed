use vstd::prelude::*;

verus! {

/// The big-endian `u16` stored at `pos`.
pub open spec fn u16_at(data: Seq<u8>, pos: int) -> u16 {
    ((data[pos] as u16) << 8u16) | (data[pos + 1] as u16)
}

/// The big-endian `u32` stored at `pos`.
pub open spec fn u32_at(data: Seq<u8>, pos: int) -> u32 {
    ((data[pos] as u32) << 24u32) | ((data[pos + 1] as u32) << 16u32) | ((data[pos + 2] as u32)
        << 8u32) | (data[pos + 3] as u32)
}

/// The big-endian `u64` stored at `pos`.
pub open spec fn u64_at(data: Seq<u8>, pos: int) -> u64 {
    ((u32_at(data, pos) as u64) << 32u64) | (u32_at(data, pos + 4) as u64)
}

/// The two's complement integers stored at `pos`.
pub open spec fn i8_at(data: Seq<u8>, pos: int) -> i8 {
    data[pos] as i8
}

pub open spec fn i16_at(data: Seq<u8>, pos: int) -> i16 {
    u16_at(data, pos) as i16
}

pub open spec fn i32_at(data: Seq<u8>, pos: int) -> i32 {
    u32_at(data, pos) as i32
}

pub open spec fn i64_at(data: Seq<u8>, pos: int) -> i64 {
    u64_at(data, pos) as i64
}

/// The big-endian byte encodings.
pub open spec fn u16_bytes(x: u16) -> Seq<u8> {
    seq![(x >> 8u16) as u8, x as u8]
}

pub open spec fn u32_bytes(x: u32) -> Seq<u8> {
    seq![(x >> 24u32) as u8, (x >> 16u32) as u8, (x >> 8u32) as u8, x as u8]
}

pub open spec fn u64_bytes(x: u64) -> Seq<u8> {
    u32_bytes((x >> 32u64) as u32) + u32_bytes(x as u32)
}

pub open spec fn i8_bytes(x: i8) -> Seq<u8> {
    seq![x as u8]
}

pub open spec fn i16_bytes(x: i16) -> Seq<u8> {
    u16_bytes(x as u16)
}

pub open spec fn i32_bytes(x: i32) -> Seq<u8> {
    u32_bytes(x as u32)
}

pub open spec fn i64_bytes(x: i64) -> Seq<u8> {
    u64_bytes(x as u64)
}

/// Reading back an encoded `u16` gives the value.
pub proof fn lemma_u16_roundtrip(x: u16, data: Seq<u8>, pos: int)
    requires
        0 <= pos,
        pos + 2 <= data.len(),
        data.subrange(pos, pos + 2) == u16_bytes(x),
    ensures
        u16_at(data, pos) == x,
{
    assert(data[pos] == u16_bytes(x)[0]);
    assert(data[pos + 1] == u16_bytes(x)[1]);
    let b0 = (x >> 8u16) as u8;
    let b1 = x as u8;
    assert((((b0 as u16) << 8u16) | (b1 as u16)) == x) by (bit_vector)
        requires
            b0 == (x >> 8u16) as u8,
            b1 == x as u8,
    ;
}

pub proof fn lemma_u32_roundtrip(x: u32, data: Seq<u8>, pos: int)
    requires
        0 <= pos,
        pos + 4 <= data.len(),
        data.subrange(pos, pos + 4) == u32_bytes(x),
    ensures
        u32_at(data, pos) == x,
{
    assert(data[pos] == u32_bytes(x)[0]);
    assert(data[pos + 1] == u32_bytes(x)[1]);
    assert(data[pos + 2] == u32_bytes(x)[2]);
    assert(data[pos + 3] == u32_bytes(x)[3]);
    let b0 = (x >> 24u32) as u8;
    let b1 = (x >> 16u32) as u8;
    let b2 = (x >> 8u32) as u8;
    let b3 = x as u8;
    assert((((b0 as u32) << 24u32) | ((b1 as u32) << 16u32) | ((b2 as u32) << 8u32) | (b3 as u32))
        == x) by (bit_vector)
        requires
            b0 == (x >> 24u32) as u8,
            b1 == (x >> 16u32) as u8,
            b2 == (x >> 8u32) as u8,
            b3 == x as u8,
    ;
}

pub proof fn lemma_u64_roundtrip(x: u64, data: Seq<u8>, pos: int)
    requires
        0 <= pos,
        pos + 8 <= data.len(),
        data.subrange(pos, pos + 8) == u64_bytes(x),
    ensures
        u64_at(data, pos) == x,
{
    let hi = (x >> 32u64) as u32;
    let lo = x as u32;
    assert(data.subrange(pos, pos + 4) =~= u32_bytes(hi)) by {
        assert forall|i: int| 0 <= i < 4 implies data.subrange(pos, pos + 4)[i] == u32_bytes(hi)[i] by {
            assert(data.subrange(pos, pos + 8)[i] == u64_bytes(x)[i]);
        }
    }
    assert(data.subrange(pos + 4, pos + 8) =~= u32_bytes(lo)) by {
        assert forall|i: int| 0 <= i < 4 implies data.subrange(pos + 4, pos + 8)[i] == u32_bytes(lo)[i] by {
            assert(data.subrange(pos, pos + 8)[i + 4] == u64_bytes(x)[i + 4]);
        }
    }
    lemma_u32_roundtrip(hi, data, pos);
    lemma_u32_roundtrip(lo, data, pos + 4);
    assert((((hi as u64) << 32u64) | (lo as u64)) == x) by (bit_vector)
        requires
            hi == (x >> 32u64) as u32,
            lo == x as u32,
    ;
}

pub proof fn lemma_i8_roundtrip(x: i8, data: Seq<u8>, pos: int)
    requires
        0 <= pos,
        pos + 1 <= data.len(),
        data.subrange(pos, pos + 1) == i8_bytes(x),
    ensures
        i8_at(data, pos) == x,
{
    assert(data[pos] == i8_bytes(x)[0]);
    let b = x as u8;
    assert((b as i8) == x) by (bit_vector)
        requires
            b == x as u8,
    ;
}

pub proof fn lemma_i16_roundtrip(x: i16, data: Seq<u8>, pos: int)
    requires
        0 <= pos,
        pos + 2 <= data.len(),
        data.subrange(pos, pos + 2) == i16_bytes(x),
    ensures
        i16_at(data, pos) == x,
{
    lemma_u16_roundtrip(x as u16, data, pos);
    let u = x as u16;
    assert((u as i16) == x) by (bit_vector)
        requires
            u == x as u16,
    ;
}

pub proof fn lemma_i32_roundtrip(x: i32, data: Seq<u8>, pos: int)
    requires
        0 <= pos,
        pos + 4 <= data.len(),
        data.subrange(pos, pos + 4) == i32_bytes(x),
    ensures
        i32_at(data, pos) == x,
{
    lemma_u32_roundtrip(x as u32, data, pos);
    let u = x as u32;
    assert((u as i32) == x) by (bit_vector)
        requires
            u == x as u32,
    ;
}

pub proof fn lemma_i64_roundtrip(x: i64, data: Seq<u8>, pos: int)
    requires
        0 <= pos,
        pos + 8 <= data.len(),
        data.subrange(pos, pos + 8) == i64_bytes(x),
    ensures
        i64_at(data, pos) == x,
{
    lemma_u64_roundtrip(x as u64, data, pos);
    let u = x as u64;
    assert((u as i64) == x) by (bit_vector)
        requires
            u == x as u64,
    ;
}

} // verus!
