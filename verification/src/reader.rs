//! Binary field reader: a cursor over a byte buffer.
//!
//! Every operation either consumes exactly the bytes of one field or fails
//! with [`CodecError::TruncatedBuffer`] leaving the cursor where it was; none
//! panics or reads out of bounds.

use vstd::prelude::*;
use vstd::slice::slice_subrange;
use vstd::slice::slice_to_vec;

use crate::error::CodecError;
use crate::wire::{u16_be, u24_be};

verus! {

/// A cursor over a borrowed byte buffer.
pub struct Reader<'a> {
    buf: &'a [u8],
    pos: usize,
}

impl<'a> Reader<'a> {
    /// The whole underlying buffer.
    pub closed spec fn data(self) -> Seq<u8> {
        self.buf@
    }

    /// The cursor: how many bytes have been consumed.
    pub closed spec fn position(self) -> int {
        self.pos as int
    }

    /// The cursor never runs past the end of the buffer.
    pub closed spec fn wf(self) -> bool {
        self.pos <= self.buf@.len()
    }

    /// A reader at the start of `buf`.
    pub fn new(buf: &'a [u8]) -> (r: Reader<'a>)
        ensures
            r.wf(),
            r.data() == buf@,
            r.position() == 0,
    {
        Reader { buf, pos: 0 }
    }

    /// One byte.
    pub fn take_u8(&mut self) -> (r: Result<u8, CodecError>)
        requires
            old(self).wf(),
        ensures
            final(self).wf(),
            final(self).data() == old(self).data(),
            match r {
                Ok(v) => {
                    &&& old(self).position() + 1 <= old(self).data().len()
                    &&& v == old(self).data()[old(self).position()]
                    &&& final(self).position() == old(self).position() + 1
                },
                Err(e) => {
                    &&& e == CodecError::TruncatedBuffer
                    &&& old(self).position() == old(self).data().len()
                    &&& *final(self) == *old(self)
                },
            },
    {
        if self.pos < self.buf.len() {
            let v = self.buf[self.pos];
            self.pos = self.pos + 1;
            Ok(v)
        } else {
            Err(CodecError::TruncatedBuffer)
        }
    }

    /// A big-endian 16-bit integer.
    pub fn take_u16_be(&mut self) -> (r: Result<u16, CodecError>)
        requires
            old(self).wf(),
        ensures
            final(self).wf(),
            final(self).data() == old(self).data(),
            match r {
                Ok(v) => {
                    &&& old(self).position() + 2 <= old(self).data().len()
                    &&& v == u16_be(old(self).data(), old(self).position())
                    &&& final(self).position() == old(self).position() + 2
                },
                Err(e) => {
                    &&& e == CodecError::TruncatedBuffer
                    &&& old(self).position() + 2 > old(self).data().len()
                    &&& *final(self) == *old(self)
                },
            },
    {
        if self.buf.len() - self.pos >= 2 {
            let hi = self.buf[self.pos];
            let lo = self.buf[self.pos + 1];
            self.pos = self.pos + 2;
            Ok((hi as u16) * 0x100 + (lo as u16))
        } else {
            Err(CodecError::TruncatedBuffer)
        }
    }

    /// A big-endian 24-bit integer, widened with a zero top byte.
    pub fn take_u24_be(&mut self) -> (r: Result<u32, CodecError>)
        requires
            old(self).wf(),
        ensures
            final(self).wf(),
            final(self).data() == old(self).data(),
            match r {
                Ok(v) => {
                    &&& old(self).position() + 3 <= old(self).data().len()
                    &&& v == u24_be(old(self).data(), old(self).position())
                    &&& v < 0x1000000
                    &&& final(self).position() == old(self).position() + 3
                },
                Err(e) => {
                    &&& e == CodecError::TruncatedBuffer
                    &&& old(self).position() + 3 > old(self).data().len()
                    &&& *final(self) == *old(self)
                },
            },
    {
        if self.buf.len() - self.pos >= 3 {
            let b0 = self.buf[self.pos];
            let b1 = self.buf[self.pos + 1];
            let b2 = self.buf[self.pos + 2];
            self.pos = self.pos + 3;
            Ok((b0 as u32) * 0x10000 + (b1 as u32) * 0x100 + (b2 as u32))
        } else {
            Err(CodecError::TruncatedBuffer)
        }
    }

    /// Exactly `n` bytes.
    pub fn take_bytes(&mut self, n: usize) -> (r: Result<Vec<u8>, CodecError>)
        requires
            old(self).wf(),
        ensures
            final(self).wf(),
            final(self).data() == old(self).data(),
            match r {
                Ok(v) => {
                    &&& old(self).position() + n <= old(self).data().len()
                    &&& v@ == old(self).data().subrange(
                        old(self).position(),
                        old(self).position() + n,
                    )
                    &&& final(self).position() == old(self).position() + n
                },
                Err(e) => {
                    &&& e == CodecError::TruncatedBuffer
                    &&& old(self).position() + n > old(self).data().len()
                    &&& *final(self) == *old(self)
                },
            },
    {
        if self.buf.len() - self.pos >= n {
            let piece = slice_subrange(self.buf, self.pos, self.pos + n);
            let v = slice_to_vec(piece);
            self.pos = self.pos + n;
            Ok(v)
        } else {
            Err(CodecError::TruncatedBuffer)
        }
    }

    /// One length byte, then that many bytes.
    pub fn take_length_prefixed(&mut self) -> (r: Result<Vec<u8>, CodecError>)
        requires
            old(self).wf(),
        ensures
            final(self).wf(),
            final(self).data() == old(self).data(),
            match r {
                Ok(v) => {
                    &&& old(self).position() + 1 <= old(self).data().len()
                    &&& old(self).position() + 1 + (old(self).data()[old(self).position()] as int)
                        <= old(self).data().len()
                    &&& v@ == old(self).data().subrange(
                        old(self).position() + 1,
                        old(self).position() + 1 + (
                        old(self).data()[old(self).position()] as int),
                    )
                    &&& final(self).position() == old(self).position() + 1 + (
                    old(self).data()[old(self).position()] as int)
                },
                Err(e) => {
                    &&& e == CodecError::TruncatedBuffer
                    &&& (old(self).position() == old(self).data().len() || old(self).position() + 1
                        + (old(self).data()[old(self).position()] as int) > old(
                        self,
                    ).data().len())
                    &&& *final(self) == *old(self)
                },
            },
    {
        if self.pos >= self.buf.len() {
            return Err(CodecError::TruncatedBuffer);
        }
        let n = self.buf[self.pos] as usize;
        if self.buf.len() - (self.pos + 1) >= n {
            let piece = slice_subrange(self.buf, self.pos + 1, self.pos + 1 + n);
            let v = slice_to_vec(piece);
            self.pos = self.pos + 1 + n;
            Ok(v)
        } else {
            Err(CodecError::TruncatedBuffer)
        }
    }

    /// Whether any bytes remain.
    pub fn has_remaining(&self) -> (r: bool)
        requires
            self.wf(),
        ensures
            r == (self.position() < self.data().len()),
    {
        self.pos < self.buf.len()
    }
}

} // verus!
