use vstd::prelude::*;

use super::bytes::{i16_bytes, i32_bytes, i64_bytes, i8_bytes, u16_bytes, u32_bytes, u64_bytes};

verus! {

/// An append-only byte sink for NBT output.
#[derive(Debug)]
pub struct WriteAdaptor {
    buf: Vec<u8>,
}

impl WriteAdaptor {
    /// The bytes written so far.
    pub closed spec fn bytes(&self) -> Seq<u8> {
        self.buf@
    }

    pub fn new() -> (w: Self)
        ensures
            w.bytes() == Seq::<u8>::empty(),
    {
        WriteAdaptor { buf: Vec::new() }
    }

    /// Hands out the written bytes.
    pub fn into_bytes(self) -> (v: Vec<u8>)
        ensures
            v@ == self.bytes(),
    {
        self.buf
    }

    pub fn write_u8_be(&mut self, x: u8)
        ensures
            final(self).bytes() == old(self).bytes().push(x),
    {
        self.buf.push(x);
    }

    pub fn write_i8_be(&mut self, x: i8)
        ensures
            final(self).bytes() == old(self).bytes() + i8_bytes(x),
    {
        self.buf.push(x as u8);
        assert(self.buf@ =~= old(self).bytes() + i8_bytes(x));
    }

    pub fn write_u16_be(&mut self, x: u16)
        ensures
            final(self).bytes() == old(self).bytes() + u16_bytes(x),
    {
        self.buf.push((x >> 8u16) as u8);
        self.buf.push(x as u8);
        assert(self.buf@ =~= old(self).bytes() + u16_bytes(x));
    }

    pub fn write_i16_be(&mut self, x: i16)
        ensures
            final(self).bytes() == old(self).bytes() + i16_bytes(x),
    {
        self.write_u16_be(x as u16);
    }

    fn write_u32_be(&mut self, x: u32)
        ensures
            final(self).bytes() == old(self).bytes() + u32_bytes(x),
    {
        self.buf.push((x >> 24u32) as u8);
        self.buf.push((x >> 16u32) as u8);
        self.buf.push((x >> 8u32) as u8);
        self.buf.push(x as u8);
        assert(self.buf@ =~= old(self).bytes() + u32_bytes(x));
    }

    pub fn write_i32_be(&mut self, x: i32)
        ensures
            final(self).bytes() == old(self).bytes() + i32_bytes(x),
    {
        self.write_u32_be(x as u32);
    }

    fn write_u64_be(&mut self, x: u64)
        ensures
            final(self).bytes() == old(self).bytes() + u64_bytes(x),
    {
        let ghost start = self.buf@;
        self.write_u32_be((x >> 32u64) as u32);
        self.write_u32_be(x as u32);
        assert(self.buf@ =~= start + u64_bytes(x));
    }

    pub fn write_i64_be(&mut self, x: i64)
        ensures
            final(self).bytes() == old(self).bytes() + i64_bytes(x),
    {
        self.write_u64_be(x as u64);
    }

    /// Writes the bit pattern of an `f32`.
    pub fn write_f32_be(&mut self, bits: u32)
        ensures
            final(self).bytes() == old(self).bytes() + u32_bytes(bits),
    {
        self.write_u32_be(bits);
    }

    /// Writes the bit pattern of an `f64`.
    pub fn write_f64_be(&mut self, bits: u64)
        ensures
            final(self).bytes() == old(self).bytes() + u64_bytes(bits),
    {
        self.write_u64_be(bits);
    }

    pub fn write_slice(&mut self, s: &[u8])
        ensures
            final(self).bytes() == old(self).bytes() + s@,
    {
        let ghost start = self.buf@;
        let mut i: usize = 0;
        while i < s.len()
            invariant
                i <= s.len(),
                self.buf@ == start + s@.subrange(0, i as int),
            decreases s.len() - i,
        {
            self.buf.push(s[i]);
            i = i + 1;
            assert(self.buf@ =~= start + s@.subrange(0, i as int));
        }
        assert(s@.subrange(0, s@.len() as int) =~= s@);
    }
}

} // verus!
