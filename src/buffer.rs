use byteorder::{BigEndian, ByteOrder};
use vstd::prelude::*;

use crate::error::FontError;

verus! {

/// The big-endian unsigned 16-bit value stored at `b[i..i + 2]`.
pub open spec fn be_u16(b: Seq<u8>, i: int) -> u16 {
    (b[i] as int * 0x100 + b[i + 1] as int) as u16
}

/// The big-endian unsigned 32-bit value stored at `b[i..i + 4]`.
pub open spec fn be_u32(b: Seq<u8>, i: int) -> u32 {
    (b[i] as int * 0x100_0000 + b[i + 1] as int * 0x1_0000 + b[i + 2] as int * 0x100
        + b[i + 3] as int) as u32
}

/// Two's complement reading of a 16-bit pattern.
pub open spec fn as_signed16(u: u16) -> i16 {
    if u < 0x8000 {
        u as i16
    } else {
        (u - 0x1_0000) as i16
    }
}

/// Two's complement reading of a 32-bit pattern.
pub open spec fn as_signed32(u: u32) -> i32 {
    if u < 0x8000_0000 {
        u as i32
    } else {
        (u - 0x1_0000_0000) as i32
    }
}

pub open spec fn be_i16(b: Seq<u8>, i: int) -> i16 {
    as_signed16(be_u16(b, i))
}

pub open spec fn be_i32(b: Seq<u8>, i: int) -> i32 {
    as_signed32(be_u32(b, i))
}

/// Relies on byteorder's `BigEndian::read_u16`: it decodes the first two bytes
/// of the slice, most significant first, and panics only on a shorter slice.
#[verifier::external_body]
fn read_be_u16(bytes: &Vec<u8>, pos: usize) -> (r: u16)
    requires
        pos + 2 <= bytes.len(),
    ensures
        r == be_u16(bytes@, pos as int),
{
    BigEndian::read_u16(&bytes[pos..])
}

/// Relies on byteorder's `BigEndian::read_u32`: it decodes the first four bytes
/// of the slice, most significant first, and panics only on a shorter slice.
#[verifier::external_body]
fn read_be_u32(bytes: &Vec<u8>, pos: usize) -> (r: u32)
    requires
        pos + 4 <= bytes.len(),
    ensures
        r == be_u32(bytes@, pos as int),
{
    BigEndian::read_u32(&bytes[pos..])
}

fn signed16(u: u16) -> (r: i16)
    ensures
        r == as_signed16(u),
{
    if u < 0x8000 {
        u as i16
    } else {
        (u as i32 - 0x1_0000) as i16
    }
}

fn signed32(u: u32) -> (r: i32)
    ensures
        r == as_signed32(u),
{
    if u < 0x8000_0000 {
        u as i32
    } else {
        (u as i64 - 0x1_0000_0000) as i32
    }
}

/// A bounds-checked big-endian cursor over an owned byte buffer.
pub struct ByteBuffer {
    buffer: Vec<u8>,
    position: usize,
}

impl ByteBuffer {
    /// The bytes the cursor reads.
    pub closed spec fn data(&self) -> Seq<u8> {
        self.buffer@
    }

    pub closed spec fn position_nat(&self) -> nat {
        self.position as nat
    }

    /// The cursor position; it may lie past the end after a seek.
    pub open spec fn pos(&self) -> int {
        self.position_nat() as int
    }

    /// Whether `n` more bytes can be read at the cursor.
    pub open spec fn has(&self, n: int) -> bool {
        self.pos() + n <= self.data().len()
    }

    /// The cursor after a successful read of `n` bytes: same data, advanced.
    pub open spec fn advanced(&self, old: &ByteBuffer, n: int) -> bool {
        self.data() == old.data() && self.pos() == old.pos() + n
    }

    pub fn new(buffer: Vec<u8>) -> (r: ByteBuffer)
        ensures
            r.data() == buffer@,
            r.pos() == 0,
    {
        ByteBuffer { buffer, position: 0 }
    }

    pub fn len(&self) -> (r: usize)
        ensures
            r == self.data().len(),
    {
        self.buffer.len()
    }

    fn fits(&self, count: usize) -> (r: bool)
        ensures
            r == self.has(count as int),
            r ==> self.position + count <= self.buffer.len(),
    {
        self.position <= self.buffer.len() && count <= self.buffer.len() - self.position
    }

    /// Reads `count` raw bytes.
    pub fn read_bytes(&mut self, count: usize) -> (r: Result<Vec<u8>, FontError>)
        ensures
            match r {
                Ok(v) => old(self).has(count as int) && final(self).advanced(old(self), count as int)
                    && v@ == old(self).data().subrange(old(self).pos(), old(self).pos() + count),
                Err(e) => !old(self).has(count as int) && e == FontError::OutOfBounds && *final(self)
                    == *old(self),
            },
    {
        if !self.fits(count) {
            return Err(FontError::OutOfBounds);
        }
        let start = self.position;
        let mut out: Vec<u8> = Vec::new();
        let mut i: usize = 0;
        while i < count
            invariant
                i <= count,
                start + count <= self.buffer.len(),
                out@ == self.buffer@.subrange(start as int, start + i),
            decreases count - i,
        {
            out.push(self.buffer[start + i]);
            i = i + 1;
        }
        self.position = start + count;
        Ok(out)
    }

    /// Moves the cursor `count` bytes forward.
    pub fn skip_bytes(&mut self, count: usize) -> (r: Result<(), FontError>)
        ensures
            match r {
                Ok(_) => old(self).has(count as int) && final(self).advanced(old(self), count as int),
                Err(e) => !old(self).has(count as int) && e == FontError::OutOfBounds && *final(self)
                    == *old(self),
            },
    {
        if !self.fits(count) {
            return Err(FontError::OutOfBounds);
        }
        self.position = self.position + count;
        Ok(())
    }

    pub fn read_u8(&mut self) -> (r: Result<u8, FontError>)
        ensures
            match r {
                Ok(v) => old(self).has(1) && final(self).advanced(old(self), 1) && v == old(
                    self,
                ).data()[old(self).pos()],
                Err(e) => !old(self).has(1) && e == FontError::OutOfBounds && *final(self) == *old(
                    self,
                ),
            },
    {
        if !self.fits(1) {
            return Err(FontError::OutOfBounds);
        }
        let v = self.buffer[self.position];
        self.position = self.position + 1;
        Ok(v)
    }

    pub fn read_i8(&mut self) -> (r: Result<i8, FontError>)
        ensures
            match r {
                Ok(v) => old(self).has(1) && final(self).advanced(old(self), 1) && v == (if old(
                    self,
                ).data()[old(self).pos()] < 0x80 {
                    old(self).data()[old(self).pos()] as int
                } else {
                    old(self).data()[old(self).pos()] - 0x100
                }),
                Err(e) => !old(self).has(1) && e == FontError::OutOfBounds && *final(self) == *old(
                    self,
                ),
            },
    {
        let b = self.read_u8()?;
        if b < 0x80 {
            Ok(b as i8)
        } else {
            Ok((b as i16 - 0x100) as i8)
        }
    }

    pub fn read_u16(&mut self) -> (r: Result<u16, FontError>)
        ensures
            match r {
                Ok(v) => old(self).has(2) && final(self).advanced(old(self), 2) && v == be_u16(
                    old(self).data(),
                    old(self).pos(),
                ),
                Err(e) => !old(self).has(2) && e == FontError::OutOfBounds && *final(self) == *old(
                    self,
                ),
            },
    {
        if !self.fits(2) {
            return Err(FontError::OutOfBounds);
        }
        let v = read_be_u16(&self.buffer, self.position);
        self.position = self.position + 2;
        Ok(v)
    }

    pub fn read_i16(&mut self) -> (r: Result<i16, FontError>)
        ensures
            match r {
                Ok(v) => old(self).has(2) && final(self).advanced(old(self), 2) && v == be_i16(
                    old(self).data(),
                    old(self).pos(),
                ),
                Err(e) => !old(self).has(2) && e == FontError::OutOfBounds && *final(self) == *old(
                    self,
                ),
            },
    {
        let u = self.read_u16()?;
        Ok(signed16(u))
    }

    pub fn read_u32(&mut self) -> (r: Result<u32, FontError>)
        ensures
            match r {
                Ok(v) => old(self).has(4) && final(self).advanced(old(self), 4) && v == be_u32(
                    old(self).data(),
                    old(self).pos(),
                ),
                Err(e) => !old(self).has(4) && e == FontError::OutOfBounds && *final(self) == *old(
                    self,
                ),
            },
    {
        if !self.fits(4) {
            return Err(FontError::OutOfBounds);
        }
        let v = read_be_u32(&self.buffer, self.position);
        self.position = self.position + 4;
        Ok(v)
    }

    pub fn read_i32(&mut self) -> (r: Result<i32, FontError>)
        ensures
            match r {
                Ok(v) => old(self).has(4) && final(self).advanced(old(self), 4) && v == be_i32(
                    old(self).data(),
                    old(self).pos(),
                ),
                Err(e) => !old(self).has(4) && e == FontError::OutOfBounds && *final(self) == *old(
                    self,
                ),
            },
    {
        let u = self.read_u32()?;
        Ok(signed32(u))
    }

    /// Reads a four-byte table tag.
    pub fn read_tag(&mut self) -> (r: Result<[u8; 4], FontError>)
        ensures
            match r {
                Ok(t) => old(self).has(4) && final(self).advanced(old(self), 4) && t@ == old(
                    self,
                ).data().subrange(old(self).pos(), old(self).pos() + 4),
                Err(e) => !old(self).has(4) && e == FontError::OutOfBounds && *final(self) == *old(
                    self,
                ),
            },
    {
        if !self.fits(4) {
            return Err(FontError::OutOfBounds);
        }
        let p = self.position;
        let t = [self.buffer[p], self.buffer[p + 1], self.buffer[p + 2], self.buffer[p + 3]];
        self.position = p + 4;
        proof {
            assert(t@ =~= self.buffer@.subrange(p as int, p + 4));
        }
        Ok(t)
    }

    /// Whether `count` items of `width` bytes fit after the cursor; checked
    /// without overflow.
    fn fits_items(&self, count: usize, width: usize) -> (r: bool)
        requires
            1 <= width <= 4,
        ensures
            r == self.has(width * count),
            r ==> self.position + width * count <= self.buffer.len(),
    {
        if self.position > self.buffer.len() {
            return false;
        }
        let room = self.buffer.len() - self.position;
        let ok = count <= room / width;
        proof {
            if ok {
                assert(width * count <= room) by (nonlinear_arith)
                    requires
                        count <= room / width,
                        width >= 1,
                ;
            } else {
                assert(width * count > room) by (nonlinear_arith)
                    requires
                        count > room / width,
                        width >= 1,
                ;
            }
        }
        ok
    }

    /// Reads `count` big-endian unsigned 16-bit values.
    pub fn read_u16_array(&mut self, count: usize) -> (r: Result<Vec<u16>, FontError>)
        ensures
            match r {
                Ok(v) => old(self).has(2 * count) && final(self).advanced(old(self), 2 * count)
                    && v@.len() == count && forall|i: int|
                    0 <= i < count ==> #[trigger] v@[i] == be_u16(old(self).data(), old(self).pos() + 2 * i),
                Err(e) => !old(self).has(2 * count) && e == FontError::OutOfBounds && *final(self)
                    == *old(self),
            },
    {
        if !self.fits_items(count, 2) {
            return Err(FontError::OutOfBounds);
        }
        let start = self.position;
        let mut out: Vec<u16> = Vec::new();
        let mut i: usize = 0;
        while i < count
            invariant
                i <= count,
                start + 2 * count <= self.buffer.len(),
                self.buffer@ == old(self).buffer@,
                self.position == start + 2 * i,
                out@.len() == i,
                forall|j: int| 0 <= j < i ==> #[trigger] out@[j] == be_u16(self.buffer@, start + 2 * j),
            decreases count - i,
        {
            let x = read_be_u16(&self.buffer, self.position);
            out.push(x);
            self.position = self.position + 2;
            i = i + 1;
        }
        Ok(out)
    }

    /// Reads `count` big-endian signed 16-bit values.
    pub fn read_i16_array(&mut self, count: usize) -> (r: Result<Vec<i16>, FontError>)
        ensures
            match r {
                Ok(v) => old(self).has(2 * count) && final(self).advanced(old(self), 2 * count)
                    && v@.len() == count && forall|i: int|
                    0 <= i < count ==> #[trigger] v@[i] == be_i16(old(self).data(), old(self).pos() + 2 * i),
                Err(e) => !old(self).has(2 * count) && e == FontError::OutOfBounds && *final(self)
                    == *old(self),
            },
    {
        if !self.fits_items(count, 2) {
            return Err(FontError::OutOfBounds);
        }
        let start = self.position;
        let mut out: Vec<i16> = Vec::new();
        let mut i: usize = 0;
        while i < count
            invariant
                i <= count,
                start + 2 * count <= self.buffer.len(),
                self.buffer@ == old(self).buffer@,
                self.position == start + 2 * i,
                out@.len() == i,
                forall|j: int| 0 <= j < i ==> #[trigger] out@[j] == be_i16(self.buffer@, start + 2 * j),
            decreases count - i,
        {
            let x = read_be_u16(&self.buffer, self.position);
            out.push(signed16(x));
            self.position = self.position + 2;
            i = i + 1;
        }
        Ok(out)
    }

    /// Reads `count` big-endian unsigned 32-bit values.
    pub fn read_u32_array(&mut self, count: usize) -> (r: Result<Vec<u32>, FontError>)
        ensures
            match r {
                Ok(v) => old(self).has(4 * count) && final(self).advanced(old(self), 4 * count)
                    && v@.len() == count && forall|i: int|
                    0 <= i < count ==> #[trigger] v@[i] == be_u32(old(self).data(), old(self).pos() + 4 * i),
                Err(e) => !old(self).has(4 * count) && e == FontError::OutOfBounds && *final(self)
                    == *old(self),
            },
    {
        if !self.fits_items(count, 4) {
            return Err(FontError::OutOfBounds);
        }
        let start = self.position;
        let mut out: Vec<u32> = Vec::new();
        let mut i: usize = 0;
        while i < count
            invariant
                i <= count,
                start + 4 * count <= self.buffer.len(),
                self.buffer@ == old(self).buffer@,
                self.position == start + 4 * i,
                out@.len() == i,
                forall|j: int| 0 <= j < i ==> #[trigger] out@[j] == be_u32(self.buffer@, start + 4 * j),
            decreases count - i,
        {
            let x = read_be_u32(&self.buffer, self.position);
            out.push(x);
            self.position = self.position + 4;
            i = i + 1;
        }
        Ok(out)
    }

    /// The number of bytes between the cursor and the end (0 past the end).
    pub fn remaining(&self) -> (r: usize)
        ensures
            r == (if self.pos() <= self.data().len() {
                self.data().len() - self.pos()
            } else {
                0
            }),
    {
        if self.position <= self.buffer.len() {
            self.buffer.len() - self.position
        } else {
            0
        }
    }

    /// Moves the cursor to an absolute position, forward or backward.
    pub fn set_position(&mut self, position: usize)
        ensures
            final(self).data() == old(self).data(),
            final(self).pos() == position,
    {
        self.position = position;
    }

    pub fn current_position(&self) -> (r: usize)
        ensures
            r == self.pos(),
    {
        self.position
    }
}

} // verus!
