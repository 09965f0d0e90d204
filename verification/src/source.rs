//! Bytes that are read from front to back, and the numbers in them.

use crate::error::Error;
use vstd::prelude::*;

verus! {

/// The unsigned 32-bit number in the four bytes from `at`, the first byte being the highest.
pub open spec fn be_u32(bytes: Seq<u8>, at: int) -> int {
    bytes[at] * 0x100_0000 + bytes[at + 1] * 0x1_0000 + bytes[at + 2] * 0x100 + bytes[at + 3]
}

/// The unsigned 32-bit number in the four bytes from `at`, the first byte being the lowest.
pub open spec fn le_u32(bytes: Seq<u8>, at: int) -> int {
    bytes[at] + bytes[at + 1] * 0x100 + bytes[at + 2] * 0x1_0000 + bytes[at + 3] * 0x100_0000
}

/// The number that a 32-bit pattern stands for in two's complement.
pub open spec fn signed(pattern: int) -> int {
    if pattern < 0x8000_0000 {
        pattern
    } else {
        pattern - 0x1_0000_0000
    }
}

/// The signed 32-bit number in the four bytes from `at`, big-endian.
pub open spec fn be_i32(bytes: Seq<u8>, at: int) -> int {
    signed(be_u32(bytes, at))
}

/// The signed 32-bit number in the four bytes from `at`, little-endian.
pub open spec fn le_i32(bytes: Seq<u8>, at: int) -> int {
    signed(le_u32(bytes, at))
}

/// The unsigned 64-bit number in the eight bytes from `at`, little-endian.
pub open spec fn le_u64(bytes: Seq<u8>, at: int) -> int {
    le_u32(bytes, at) + le_u32(bytes, at + 4) * 0x1_0000_0000
}

/// `count` signed 32-bit numbers from `at` on, little-endian.
pub open spec fn le_i32s(bytes: Seq<u8>, at: int, count: int) -> Seq<i32> {
    Seq::new(count as nat, |i: int| le_i32(bytes, at + 4 * i) as i32)
}

/// `count` unsigned 64-bit numbers from `at` on, little-endian.
pub open spec fn le_u64s(bytes: Seq<u8>, at: int, count: int) -> Seq<u64> {
    Seq::new(count as nat, |i: int| le_u64(bytes, at + 8 * i) as u64)
}

/// `count` pairs of unsigned 64-bit numbers from `at` on, little-endian.
pub open spec fn le_u64_pairs(bytes: Seq<u8>, at: int, count: int) -> Seq<(u64, u64)> {
    Seq::new(
        count as nat,
        |i: int| (le_u64(bytes, at + 16 * i) as u64, le_u64(bytes, at + 16 * i + 8) as u64),
    )
}

/// What `std::io::Read::read_exact` of a byte slice reports when it is asked for a byte of `bytes`
/// and there is none.
pub uninterp spec fn read_past_end(bytes: Seq<u8>) -> std::io::Error;

/// The error of every read that the bytes are too short for.
pub open spec fn unexpected_eof() -> Error {
    Error::IoError(read_past_end(Seq::empty()))
}

/// Calls `std::io::Read::read_exact` of a byte slice with room for one byte. It gives the first
/// byte; where there is none, it fails, with an error that depends on the bytes alone. (The kind
/// of the error is `UnexpectedEof`, which is left unsaid.)
#[verifier::external_body]
fn read_byte(bytes: &[u8]) -> (r: Result<u8, std::io::Error>)
    ensures
        match r {
            Ok(byte) => bytes@.len() > 0 && byte == bytes@[0],
            Err(error) => bytes@.len() == 0 && error == read_past_end(bytes@),
        },
{
    let mut rest = bytes;
    let mut room = [0u8];
    std::io::Read::read_exact(&mut rest, &mut room)?;
    Ok(room[0])
}

/// The error of a read that the bytes are too short for: that of reading behind the last byte.
pub(crate) fn end_error() -> (error: Error)
    ensures
        error == unexpected_eof(),
{
    let none: Vec<u8> = Vec::new();
    match read_byte(none.as_slice()) {
        Err(error) => {
            assert(none@ =~= Seq::<u8>::empty());
            Error::IoError(error)
        },
        Ok(_) => vstd::pervasive::unreached(),
    }
}

/// Bytes with a position at which the next read starts.
pub struct ByteSource {
    /// The bytes.
    pub bytes: Vec<u8>,
    /// Where the next read starts.
    pub pos: usize,
}

impl ByteSource {
    /// Whether `count` more bytes can be read.
    pub open spec fn holds(&self, count: int) -> bool {
        self.pos + count <= self.bytes@.len()
    }

    /// The source after `count` bytes have been read.
    pub open spec fn advanced(&self, after: &ByteSource, count: int) -> bool {
        after.bytes@ == self.bytes@ && after.pos == self.pos + count
    }

    /// A source that reads `bytes` from their start.
    pub fn new(bytes: Vec<u8>) -> (source: ByteSource)
        ensures
            source.bytes == bytes,
            source.pos == 0,
    {
        ByteSource { bytes, pos: 0 }
    }

    /// Whether `count` more bytes can be read.
    pub fn has(&self, count: usize) -> (r: bool)
        ensures
            r == self.holds(count as int),
            r ==> self.pos + count <= usize::MAX,
    {
        self.pos <= self.bytes.len() && count <= self.bytes.len() - self.pos
    }

    /// Passes over `count` bytes.
    pub fn skip(&mut self, count: usize) -> (r: Result<(), Error>)
        ensures
            old(self).holds(count as int) ==> r is Ok && old(self).advanced(final(self), count as int),
            !old(self).holds(count as int) ==> r == Err::<(), Error>(unexpected_eof())
                && *final(self) == *old(self),
    {
        if !self.has(count) {
            return Err(end_error());
        }
        self.pos = self.pos + count;
        Ok(())
    }

    fn le_u32_at(&self, at: usize) -> (r: u32)
        requires
            at + 4 <= self.bytes@.len(),
            at + 4 <= usize::MAX,
        ensures
            r == le_u32(self.bytes@, at as int),
    {
        self.bytes[at] as u32 + self.bytes[at + 1] as u32 * 0x100 + self.bytes[at + 2] as u32
            * 0x1_0000 + self.bytes[at + 3] as u32 * 0x100_0000
    }

    /// Reads a signed 32-bit number, big-endian.
    pub fn read_i32_be(&mut self) -> (r: Result<i32, Error>)
        ensures
            old(self).holds(4) ==> r is Ok && r->Ok_0 == be_i32(old(self).bytes@, old(self).pos as int)
                && old(self).advanced(final(self), 4),
            !old(self).holds(4) ==> r == Err::<i32, Error>(unexpected_eof()) && *final(self) == *old(self),
    {
        if !self.has(4) {
            return Err(end_error());
        }
        let at: usize = self.pos;
        let pattern: u32 = self.bytes[at] as u32 * 0x100_0000 + self.bytes[at + 1] as u32 * 0x1_0000
            + self.bytes[at + 2] as u32 * 0x100 + self.bytes[at + 3] as u32;
        self.pos = at + 4;
        Ok(to_signed(pattern))
    }

    /// Reads a signed 32-bit number, little-endian.
    pub fn read_i32_le(&mut self) -> (r: Result<i32, Error>)
        ensures
            old(self).holds(4) ==> r is Ok && r->Ok_0 == le_i32(old(self).bytes@, old(self).pos as int)
                && old(self).advanced(final(self), 4),
            !old(self).holds(4) ==> r == Err::<i32, Error>(unexpected_eof()) && *final(self) == *old(self),
    {
        if !self.has(4) {
            return Err(end_error());
        }
        let pattern: u32 = self.le_u32_at(self.pos);
        self.pos = self.pos + 4;
        Ok(to_signed(pattern))
    }

    /// Reads an unsigned 64-bit number, little-endian.
    pub fn read_u64_le(&mut self) -> (r: Result<u64, Error>)
        ensures
            old(self).holds(8) ==> r is Ok && r->Ok_0 == le_u64(old(self).bytes@, old(self).pos as int)
                && old(self).advanced(final(self), 8),
            !old(self).holds(8) ==> r == Err::<u64, Error>(unexpected_eof()) && *final(self) == *old(self),
    {
        if !self.has(8) {
            return Err(end_error());
        }
        let low: u32 = self.le_u32_at(self.pos);
        let high: u32 = self.le_u32_at(self.pos + 4);
        self.pos = self.pos + 8;
        Ok(low as u64 + high as u64 * 0x1_0000_0000)
    }

    /// Reads `count` signed 32-bit numbers, little-endian.
    pub fn read_i32s_le(&mut self, count: usize) -> (r: Result<Vec<i32>, Error>)
        ensures
            old(self).holds(4 * count) ==> r is Ok && r->Ok_0@ == le_i32s(
                old(self).bytes@,
                old(self).pos as int,
                count as int,
            ) && old(self).advanced(final(self), 4 * count),
            !old(self).holds(4 * count) ==> r == Err::<Vec<i32>, Error>(unexpected_eof())
                && *final(self) == *old(self),
    {
        if self.pos > self.bytes.len() || count > (self.bytes.len() - self.pos) / 4 {
            return Err(end_error());
        }
        let ghost start = *self;
        let mut values: Vec<i32> = Vec::new();
        while values.len() < count
            invariant
                values@.len() <= count,
                start.holds(4 * count),
                start.advanced(self, 4 * values@.len() as int),
                values@ == le_i32s(start.bytes@, start.pos as int, values@.len() as int),
            decreases count - values@.len(),
        {
            let value: i32 = self.read_i32_le()?;
            values.push(value);
        }
        Ok(values)
    }

    /// Reads `count` unsigned 64-bit numbers, little-endian.
    pub fn read_u64s_le(&mut self, count: usize) -> (r: Result<Vec<u64>, Error>)
        ensures
            old(self).holds(8 * count) ==> r is Ok && r->Ok_0@ == le_u64s(
                old(self).bytes@,
                old(self).pos as int,
                count as int,
            ) && old(self).advanced(final(self), 8 * count),
            !old(self).holds(8 * count) ==> r == Err::<Vec<u64>, Error>(unexpected_eof())
                && *final(self) == *old(self),
    {
        if self.pos > self.bytes.len() || count > (self.bytes.len() - self.pos) / 8 {
            return Err(end_error());
        }
        let ghost start = *self;
        let mut values: Vec<u64> = Vec::new();
        while values.len() < count
            invariant
                values@.len() <= count,
                start.holds(8 * count),
                start.advanced(self, 8 * values@.len() as int),
                values@ == le_u64s(start.bytes@, start.pos as int, values@.len() as int),
            decreases count - values@.len(),
        {
            let value: u64 = self.read_u64_le()?;
            values.push(value);
        }
        Ok(values)
    }

    /// Reads `count` pairs of unsigned 64-bit numbers, little-endian.
    pub fn read_u64_pairs_le(&mut self, count: usize) -> (r: Result<Vec<(u64, u64)>, Error>)
        ensures
            old(self).holds(16 * count) ==> r is Ok && r->Ok_0@ == le_u64_pairs(
                old(self).bytes@,
                old(self).pos as int,
                count as int,
            ) && old(self).advanced(final(self), 16 * count),
            !old(self).holds(16 * count) ==> r == Err::<Vec<(u64, u64)>, Error>(
                unexpected_eof(),
            ) && *final(self) == *old(self),
    {
        if self.pos > self.bytes.len() || count > (self.bytes.len() - self.pos) / 16 {
            return Err(end_error());
        }
        let ghost start = *self;
        let mut values: Vec<(u64, u64)> = Vec::new();
        while values.len() < count
            invariant
                values@.len() <= count,
                start.holds(16 * count),
                start.advanced(self, 16 * values@.len() as int),
                values@ == le_u64_pairs(start.bytes@, start.pos as int, values@.len() as int),
            decreases count - values@.len(),
        {
            let first: u64 = self.read_u64_le()?;
            let second: u64 = self.read_u64_le()?;
            values.push((first, second));
        }
        Ok(values)
    }
}

/// The number that a 32-bit pattern stands for in two's complement.
fn to_signed(pattern: u32) -> (r: i32)
    ensures
        r == signed(pattern as int),
{
    if pattern < 0x8000_0000 {
        pattern as i32
    } else {
        (pattern as i64 - 0x1_0000_0000) as i32
    }
}

} // verus!
