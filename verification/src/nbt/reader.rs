use vstd::prelude::*;

use super::bytes::{i16_at, i32_at, i64_at, i8_at, u16_at, u32_at, u64_at};
use super::error::{eof_error, Error, IoErrorKind};

verus! {

/// A cursor over the bytes of an NBT document.
#[derive(Debug)]
pub struct ReadAdaptor {
    data: Vec<u8>,
    pos: usize,
}

impl ReadAdaptor {
    /// The cursor never moves past the end of the data.
    #[verifier::type_invariant]
    pub open spec fn inv(&self) -> bool {
        0 <= self.pos() <= self.data().len()
    }

    /// The bytes being read.
    pub closed spec fn data(&self) -> Seq<u8> {
        self.data@
    }

    /// How many bytes have been consumed.
    pub closed spec fn pos(&self) -> int {
        self.pos as int
    }

    pub fn new(data: Vec<u8>) -> (r: Self)
        ensures
            r.data() == data@,
            r.pos() == 0,
    {
        ReadAdaptor { data, pos: 0 }
    }

    /// The number of bytes consumed so far.
    pub fn position(&self) -> (p: usize)
        ensures
            p == self.pos(),
    {
        self.pos
    }

    /// Whether every byte has been consumed.
    pub fn is_at_end(&self) -> (b: bool)
        ensures
            b == (self.pos() == self.data().len()),
    {
        proof {
            use_type_invariant(self);
        }
        self.pos == self.data.len()
    }

    /// Skips up to `count` bytes; skipping past the end stops at the end and is no error.
    pub fn skip_bytes(&mut self, count: u64) -> (r: Result<(), Error>)
        ensures
            r is Ok,
            final(self).data() == old(self).data(),
            final(self).pos() == if old(self).pos() + count <= old(self).data().len() {
                old(self).pos() + count
            } else {
                old(self).data().len() as int
            },
    {
        proof {
            use_type_invariant(&*self);
        }
        let left = self.data.len() - self.pos;
        if count <= left as u64 {
            self.pos = self.pos + count as usize;
        } else {
            self.pos = self.data.len();
        }
        Ok(())
    }

    /// Consumes `n` bytes when they are available; otherwise moves to the end and
    /// reports the end of the input.
    fn take(&mut self, n: usize) -> (r: Result<usize, Error>)
        ensures
            final(self).data() == old(self).data(),
            old(self).pos() + n <= old(self).data().len() ==> r == Ok::<usize, Error>(
                old(self).pos() as usize,
            ) && final(self).pos() == old(self).pos() + n,
            old(self).pos() + n > old(self).data().len() ==> r == Err::<usize, Error>(eof_error())
                && final(self).pos() == old(self).data().len(),
    {
        proof {
            use_type_invariant(&*self);
        }
        let start = self.pos;
        if n <= self.data.len() - start {
            self.pos = start + n;
            Ok(start)
        } else {
            self.pos = self.data.len();
            Err(Error::Incomplete(IoErrorKind::UnexpectedEof))
        }
    }

    pub fn get_u8_be(&mut self) -> (r: Result<u8, Error>)
        ensures
            final(self).data() == old(self).data(),
            old(self).pos() + 1 <= old(self).data().len() ==> r == Ok::<u8, Error>(
                old(self).data()[old(self).pos()],
            ) && final(self).pos() == old(self).pos() + 1,
            old(self).pos() + 1 > old(self).data().len() ==> r == Err::<u8, Error>(eof_error())
                && final(self).pos() == old(self).data().len(),
    {
        let p = self.take(1)?;
        Ok(self.data[p])
    }

    pub fn get_i8_be(&mut self) -> (r: Result<i8, Error>)
        ensures
            final(self).data() == old(self).data(),
            old(self).pos() + 1 <= old(self).data().len() ==> r == Ok::<i8, Error>(
                i8_at(old(self).data(), old(self).pos()),
            ) && final(self).pos() == old(self).pos() + 1,
            old(self).pos() + 1 > old(self).data().len() ==> r == Err::<i8, Error>(eof_error())
                && final(self).pos() == old(self).data().len(),
    {
        let p = self.take(1)?;
        Ok(self.data[p] as i8)
    }

    pub fn get_u16_be(&mut self) -> (r: Result<u16, Error>)
        ensures
            final(self).data() == old(self).data(),
            old(self).pos() + 2 <= old(self).data().len() ==> r == Ok::<u16, Error>(
                u16_at(old(self).data(), old(self).pos()),
            ) && final(self).pos() == old(self).pos() + 2,
            old(self).pos() + 2 > old(self).data().len() ==> r == Err::<u16, Error>(eof_error())
                && final(self).pos() == old(self).data().len(),
    {
        let p = self.take(2)?;
        Ok(((self.data[p] as u16) << 8u16) | (self.data[p + 1] as u16))
    }

    pub fn get_i16_be(&mut self) -> (r: Result<i16, Error>)
        ensures
            final(self).data() == old(self).data(),
            old(self).pos() + 2 <= old(self).data().len() ==> r == Ok::<i16, Error>(
                i16_at(old(self).data(), old(self).pos()),
            ) && final(self).pos() == old(self).pos() + 2,
            old(self).pos() + 2 > old(self).data().len() ==> r == Err::<i16, Error>(eof_error())
                && final(self).pos() == old(self).data().len(),
    {
        let v = self.get_u16_be()?;
        Ok(v as i16)
    }

    fn get_u32_be(&mut self) -> (r: Result<u32, Error>)
        ensures
            final(self).data() == old(self).data(),
            old(self).pos() + 4 <= old(self).data().len() ==> r == Ok::<u32, Error>(
                u32_at(old(self).data(), old(self).pos()),
            ) && final(self).pos() == old(self).pos() + 4,
            old(self).pos() + 4 > old(self).data().len() ==> r == Err::<u32, Error>(eof_error())
                && final(self).pos() == old(self).data().len(),
    {
        let p = self.take(4)?;
        Ok(((self.data[p] as u32) << 24u32) | ((self.data[p + 1] as u32) << 16u32) | ((self.data[p
            + 2] as u32) << 8u32) | (self.data[p + 3] as u32))
    }

    fn get_u64_be(&mut self) -> (r: Result<u64, Error>)
        ensures
            final(self).data() == old(self).data(),
            old(self).pos() + 8 <= old(self).data().len() ==> r == Ok::<u64, Error>(
                u64_at(old(self).data(), old(self).pos()),
            ) && final(self).pos() == old(self).pos() + 8,
            old(self).pos() + 8 > old(self).data().len() ==> r == Err::<u64, Error>(eof_error())
                && final(self).pos() == old(self).data().len(),
    {
        proof {
            use_type_invariant(&*self);
        }
        if self.data.len() - self.pos < 8 {
            self.pos = self.data.len();
            return Err(Error::Incomplete(IoErrorKind::UnexpectedEof));
        }
        let hi = self.get_u32_be()?;
        let lo = self.get_u32_be()?;
        Ok(((hi as u64) << 32u64) | (lo as u64))
    }

    pub fn get_i32_be(&mut self) -> (r: Result<i32, Error>)
        ensures
            final(self).data() == old(self).data(),
            old(self).pos() + 4 <= old(self).data().len() ==> r == Ok::<i32, Error>(
                i32_at(old(self).data(), old(self).pos()),
            ) && final(self).pos() == old(self).pos() + 4,
            old(self).pos() + 4 > old(self).data().len() ==> r == Err::<i32, Error>(eof_error())
                && final(self).pos() == old(self).data().len(),
    {
        let v = self.get_u32_be()?;
        Ok(v as i32)
    }

    pub fn get_i64_be(&mut self) -> (r: Result<i64, Error>)
        ensures
            final(self).data() == old(self).data(),
            old(self).pos() + 8 <= old(self).data().len() ==> r == Ok::<i64, Error>(
                i64_at(old(self).data(), old(self).pos()),
            ) && final(self).pos() == old(self).pos() + 8,
            old(self).pos() + 8 > old(self).data().len() ==> r == Err::<i64, Error>(eof_error())
                && final(self).pos() == old(self).data().len(),
    {
        let v = self.get_u64_be()?;
        Ok(v as i64)
    }

    /// Reads the bit pattern of a big-endian `f32`.
    pub fn get_f32_be(&mut self) -> (r: Result<u32, Error>)
        ensures
            final(self).data() == old(self).data(),
            old(self).pos() + 4 <= old(self).data().len() ==> r == Ok::<u32, Error>(
                u32_at(old(self).data(), old(self).pos()),
            ) && final(self).pos() == old(self).pos() + 4,
            old(self).pos() + 4 > old(self).data().len() ==> r == Err::<u32, Error>(eof_error())
                && final(self).pos() == old(self).data().len(),
    {
        self.get_u32_be()
    }

    /// Reads the bit pattern of a big-endian `f64`.
    pub fn get_f64_be(&mut self) -> (r: Result<u64, Error>)
        ensures
            final(self).data() == old(self).data(),
            old(self).pos() + 8 <= old(self).data().len() ==> r == Ok::<u64, Error>(
                u64_at(old(self).data(), old(self).pos()),
            ) && final(self).pos() == old(self).pos() + 8,
            old(self).pos() + 8 > old(self).data().len() ==> r == Err::<u64, Error>(eof_error())
                && final(self).pos() == old(self).data().len(),
    {
        self.get_u64_be()
    }

    /// Reads exactly `count` bytes.
    pub fn read_boxed_slice(&mut self, count: usize) -> (r: Result<Vec<u8>, Error>)
        ensures
            final(self).data() == old(self).data(),
            old(self).pos() + count <= old(self).data().len() ==> r is Ok && r->Ok_0@ == old(
                self,
            ).data().subrange(old(self).pos(), old(self).pos() + count) && final(self).pos() == old(
                self,
            ).pos() + count,
            old(self).pos() + count > old(self).data().len() ==> r == Err::<Vec<u8>, Error>(
                eof_error(),
            ) && final(self).pos() == old(self).data().len(),
    {
        let start = self.take(count)?;
        let mut out: Vec<u8> = Vec::new();
        let mut i: usize = 0;
        while i < count
            invariant
                start + count <= self.data.len(),
                i <= count,
                out@ == self.data@.subrange(start as int, start + i),
            decreases count - i,
        {
            out.push(self.data[start + i]);
            i = i + 1;
            assert(out@ =~= self.data@.subrange(start as int, start + i));
        }
        Ok(out)
    }
}

} // verus!
