//! A forward-only, bounds-checked reader over the input bytes.
use vstd::prelude::*;
use vstd::slice::slice_subrange;
use crate::error::{eof_at, outcome, viewed, DecodeError, ErrorKind};
use crate::text::{bytes_to_text, text_of};

verus! {

/// The unsigned 16-bit number stored big-endian at `pos`.
pub open spec fn u16_at(bytes: Seq<u8>, pos: int) -> int {
    bytes[pos] * 0x100 + bytes[pos + 1]
}

/// The unsigned 32-bit number stored big-endian at `pos`.
pub open spec fn u32_at(bytes: Seq<u8>, pos: int) -> int {
    u16_at(bytes, pos) * 0x1_0000 + u16_at(bytes, pos + 2)
}

/// The unsigned 64-bit number stored big-endian at `pos`.
pub open spec fn u64_at(bytes: Seq<u8>, pos: int) -> int {
    u32_at(bytes, pos) * 0x1_0000_0000 + u32_at(bytes, pos + 4)
}

/// The two's-complement reading of an unsigned 32-bit number.
pub open spec fn signed32(v: int) -> int {
    if v < 0x8000_0000 { v } else { v - 0x1_0000_0000 }
}

/// The two's-complement reading of an unsigned 64-bit number.
pub open spec fn signed64(v: int) -> int {
    if v < 0x8000_0000_0000_0000 { v } else { v - 0x1_0000_0000_0000_0000 }
}

/// Whether `n` bytes can be read at `pos`.
pub open spec fn available(bytes: Seq<u8>, pos: int, n: int) -> bool {
    0 <= pos && 0 <= n && pos + n <= bytes.len()
}

/// One byte at `pos`, and the position after it.
pub open spec fn spec_read_u8(bytes: Seq<u8>, pos: int) -> Result<(u8, int), DecodeError> {
    if available(bytes, pos, 1) { Ok((bytes[pos], pos + 1)) } else { Err(eof_at(pos)) }
}

/// A big-endian unsigned 16-bit number at `pos`, and the position after it.
pub open spec fn spec_read_u16(bytes: Seq<u8>, pos: int) -> Result<(u16, int), DecodeError> {
    if available(bytes, pos, 2) { Ok((u16_at(bytes, pos) as u16, pos + 2)) } else { Err(eof_at(pos)) }
}

/// A big-endian unsigned 32-bit number at `pos`, and the position after it.
pub open spec fn spec_read_u32(bytes: Seq<u8>, pos: int) -> Result<(u32, int), DecodeError> {
    if available(bytes, pos, 4) { Ok((u32_at(bytes, pos) as u32, pos + 4)) } else { Err(eof_at(pos)) }
}

/// A big-endian unsigned 64-bit number at `pos`, and the position after it.
pub open spec fn spec_read_u64(bytes: Seq<u8>, pos: int) -> Result<(u64, int), DecodeError> {
    if available(bytes, pos, 8) { Ok((u64_at(bytes, pos) as u64, pos + 8)) } else { Err(eof_at(pos)) }
}

/// A big-endian two's-complement 32-bit number at `pos`, and the position after it.
pub open spec fn spec_read_i32(bytes: Seq<u8>, pos: int) -> Result<(i32, int), DecodeError> {
    if available(bytes, pos, 4) {
        Ok((signed32(u32_at(bytes, pos)) as i32, pos + 4))
    } else {
        Err(eof_at(pos))
    }
}

/// A big-endian two's-complement 64-bit number at `pos`, and the position after it.
pub open spec fn spec_read_i64(bytes: Seq<u8>, pos: int) -> Result<(i64, int), DecodeError> {
    if available(bytes, pos, 8) {
        Ok((signed64(u64_at(bytes, pos)) as i64, pos + 8))
    } else {
        Err(eof_at(pos))
    }
}

/// `n` raw bytes at `pos`.
pub open spec fn spec_read_bytes(bytes: Seq<u8>, pos: int, n: int) -> Result<(Seq<u8>, int), DecodeError> {
    if available(bytes, pos, n) { Ok((bytes.subrange(pos, pos + n), pos + n)) } else { Err(eof_at(pos)) }
}

/// A 16-bit length at `pos`, then that many raw bytes.
pub open spec fn spec_read_block(bytes: Seq<u8>, pos: int) -> Result<(Seq<u8>, int), DecodeError> {
    match spec_read_u16(bytes, pos) {
        Ok((n, p)) => spec_read_bytes(bytes, p, n as int),
        Err(e) => Err(e),
    }
}

/// A 16-bit length at `pos`, then that many bytes of text.
pub open spec fn spec_read_string(bytes: Seq<u8>, pos: int) -> Result<(Seq<char>, int), DecodeError> {
    match spec_read_block(bytes, pos) {
        Ok((b, p)) => Ok((text_of(b), p)),
        Err(e) => Err(e),
    }
}

/// The bounds of the numbers that the big-endian readings can take.
pub proof fn lemma_be_bounds(bytes: Seq<u8>, pos: int)
    ensures
        available(bytes, pos, 2) ==> 0 <= u16_at(bytes, pos) <= 0xffff,
        available(bytes, pos, 4) ==> 0 <= u32_at(bytes, pos) <= 0xffff_ffff,
        available(bytes, pos, 8) ==> 0 <= u64_at(bytes, pos) <= 0xffff_ffff_ffff_ffff,
{
}

/// What a cursor is: the bytes it reads and how many of them it has passed.
pub struct CursorView {
    pub bytes: Seq<u8>,
    pub pos: int,
}

/// A reader that walks forward over a byte buffer and never leaves it.
#[derive(Debug)]
pub struct ByteCursor<'a> {
    buf: &'a [u8],
    pos: usize,
}

impl<'a> View for ByteCursor<'a> {
    type V = CursorView;

    closed spec fn view(&self) -> CursorView {
        CursorView { bytes: self.buf@, pos: self.pos as int }
    }
}

impl<'a> ByteCursor<'a> {
    #[verifier::type_invariant]
    spec fn in_bounds(self) -> bool {
        self.pos <= self.buf@.len()
    }

    /// A cursor at the start of `buf`.
    pub fn new(buf: &'a [u8]) -> (c: Self)
        ensures
            c@.bytes == buf@,
            c@.pos == 0,
    {
        ByteCursor { buf, pos: 0 }
    }

    /// The offset of the next byte to be read.
    pub fn position(&self) -> (p: usize)
        ensures
            p == self@.pos,
            p <= self@.bytes.len(),
    {
        proof {
            use_type_invariant(self);
        }
        self.pos
    }

    /// The number of bytes not yet read.
    pub fn remaining(&self) -> (n: usize)
        ensures
            n == self@.bytes.len() - self@.pos,
    {
        proof {
            use_type_invariant(self);
        }
        self.buf.len() - self.pos
    }

    /// Reads one byte.
    pub fn read_u8(&mut self) -> (r: Result<u8, DecodeError>)
        ensures
            final(self)@.bytes == old(self)@.bytes,
            outcome(r, final(self)@.pos) == spec_read_u8(old(self)@.bytes, old(self)@.pos),
    {
        proof {
            use_type_invariant(&*self);
        }
        if self.pos < self.buf.len() {
            let v = self.buf[self.pos];
            self.pos = self.pos + 1;
            Ok(v)
        } else {
            Err(DecodeError { kind: ErrorKind::UnexpectedEof, offset: self.pos })
        }
    }

    /// Reads a big-endian unsigned 16-bit number.
    pub fn read_u16(&mut self) -> (r: Result<u16, DecodeError>)
        ensures
            final(self)@.bytes == old(self)@.bytes,
            outcome(r, final(self)@.pos) == spec_read_u16(old(self)@.bytes, old(self)@.pos),
    {
        proof {
            use_type_invariant(&*self);
        }
        if self.buf.len() - self.pos < 2 {
            return Err(DecodeError { kind: ErrorKind::UnexpectedEof, offset: self.pos });
        }
        let hi: u16 = self.buf[self.pos] as u16;
        let lo: u16 = self.buf[self.pos + 1] as u16;
        self.pos = self.pos + 2;
        Ok(hi * 0x100 + lo)
    }

    /// Reads a big-endian unsigned 32-bit number.
    pub fn read_u32(&mut self) -> (r: Result<u32, DecodeError>)
        ensures
            final(self)@.bytes == old(self)@.bytes,
            outcome(r, final(self)@.pos) == spec_read_u32(old(self)@.bytes, old(self)@.pos),
    {
        proof {
            use_type_invariant(&*self);
        }
        if self.buf.len() - self.pos < 4 {
            return Err(DecodeError { kind: ErrorKind::UnexpectedEof, offset: self.pos });
        }
        let hi: u32 = self.buf[self.pos] as u32 * 0x100 + self.buf[self.pos + 1] as u32;
        let lo: u32 = self.buf[self.pos + 2] as u32 * 0x100 + self.buf[self.pos + 3] as u32;
        self.pos = self.pos + 4;
        Ok(hi * 0x1_0000 + lo)
    }

    /// Reads a big-endian unsigned 64-bit number.
    pub fn read_u64(&mut self) -> (r: Result<u64, DecodeError>)
        ensures
            final(self)@.bytes == old(self)@.bytes,
            outcome(r, final(self)@.pos) == spec_read_u64(old(self)@.bytes, old(self)@.pos),
    {
        proof {
            use_type_invariant(&*self);
        }
        if self.buf.len() - self.pos < 8 {
            return Err(DecodeError { kind: ErrorKind::UnexpectedEof, offset: self.pos });
        }
        let start: usize = self.pos;
        let hi: u32 = match self.read_u32() {
            Ok(v) => v,
            Err(e) => { return Err(e); },
        };
        let lo: u32 = match self.read_u32() {
            Ok(v) => v,
            Err(e) => { return Err(e); },
        };
        proof {
            lemma_be_bounds(self@.bytes, start as int);
            lemma_be_bounds(self@.bytes, start + 4);
        }
        Ok(hi as u64 * 0x1_0000_0000 + lo as u64)
    }

    /// Reads a big-endian two's-complement 32-bit number.
    pub fn read_i32(&mut self) -> (r: Result<i32, DecodeError>)
        ensures
            final(self)@.bytes == old(self)@.bytes,
            outcome(r, final(self)@.pos) == spec_read_i32(old(self)@.bytes, old(self)@.pos),
    {
        let v: u32 = self.read_u32()?;
        proof {
            lemma_be_bounds(old(self)@.bytes, old(self)@.pos);
        }
        if v < 0x8000_0000 {
            Ok(v as i32)
        } else {
            Ok((v - 0x8000_0000) as i32 - 0x7fff_ffff - 1)
        }
    }

    /// Reads a big-endian two's-complement 64-bit number.
    pub fn read_i64(&mut self) -> (r: Result<i64, DecodeError>)
        ensures
            final(self)@.bytes == old(self)@.bytes,
            outcome(r, final(self)@.pos) == spec_read_i64(old(self)@.bytes, old(self)@.pos),
    {
        let v: u64 = self.read_u64()?;
        proof {
            lemma_be_bounds(old(self)@.bytes, old(self)@.pos);
        }
        if v < 0x8000_0000_0000_0000 {
            Ok(v as i64)
        } else {
            Ok((v - 0x8000_0000_0000_0000) as i64 - 0x7fff_ffff_ffff_ffff - 1)
        }
    }

    /// Reads the four bytes of an IEEE-754 single, as its bit pattern.
    pub fn read_f32_bits(&mut self) -> (r: Result<u32, DecodeError>)
        ensures
            final(self)@.bytes == old(self)@.bytes,
            outcome(r, final(self)@.pos) == spec_read_u32(old(self)@.bytes, old(self)@.pos),
    {
        self.read_u32()
    }

    /// Reads the eight bytes of an IEEE-754 double, as its bit pattern.
    pub fn read_f64_bits(&mut self) -> (r: Result<u64, DecodeError>)
        ensures
            final(self)@.bytes == old(self)@.bytes,
            outcome(r, final(self)@.pos) == spec_read_u64(old(self)@.bytes, old(self)@.pos),
    {
        self.read_u64()
    }

    /// Reads `n` raw bytes.
    pub fn read_bytes(&mut self, n: usize) -> (r: Result<&'a [u8], DecodeError>)
        ensures
            final(self)@.bytes == old(self)@.bytes,
            viewed(r, final(self)@.pos) == spec_read_bytes(old(self)@.bytes, old(self)@.pos, n as int),
    {
        proof {
            use_type_invariant(&*self);
        }
        if self.buf.len() - self.pos < n {
            return Err(DecodeError { kind: ErrorKind::UnexpectedEof, offset: self.pos });
        }
        let b = slice_subrange(self.buf, self.pos, self.pos + n);
        self.pos = self.pos + n;
        Ok(b)
    }

    /// Reads a 16-bit length and that many bytes of text.
    pub fn read_length_prefixed_string(&mut self) -> (r: Result<String, DecodeError>)
        ensures
            final(self)@.bytes == old(self)@.bytes,
            viewed(r, final(self)@.pos) == spec_read_string(old(self)@.bytes, old(self)@.pos),
    {
        let n: u16 = self.read_u16()?;
        let b = self.read_bytes(n as usize)?;
        Ok(bytes_to_text(b))
    }
}

} // verus!
