//! The index of a shapefile (`.shx`).

use crate::error::Error;
use crate::header::{HEADER_SIZE, Header, parse_header};
use crate::source::{ByteSource, be_i32, end_error, unexpected_eof};
use vstd::prelude::*;

verus! {

/// Where a record of the main file stands.
#[derive(Debug, Clone, Copy, PartialEq, Eq, Structural)]
pub struct ShapeIndex {
    /// Where the record starts, in 16-bit words from the start of the main file.
    pub offset: i32,
    /// The length of the record without its head, in 16-bit words.
    pub record_size: i32,
}

/// How many bytes an entry of the index takes.
pub const INDEX_RECORD_SIZE: i64 = 8;

/// How many entries an index has that says of itself that it is `file_length` 16-bit words long.
pub open spec fn index_count(file_length: int) -> int {
    if 2 * file_length <= HEADER_SIZE {
        0
    } else {
        (2 * file_length - HEADER_SIZE) / INDEX_RECORD_SIZE as int
    }
}

/// `count` entries of an index from `at` on.
pub open spec fn index_entries(bytes: Seq<u8>, at: int, count: int) -> Seq<ShapeIndex> {
    Seq::new(
        count as nat,
        |i: int|
            ShapeIndex {
                offset: be_i32(bytes, at + 8 * i) as i32,
                record_size: be_i32(bytes, at + 8 * i + 4) as i32,
            },
    )
}

/// The index that is written in `bytes`, or the first thing that is wrong with it.
pub open spec fn parse_index(bytes: Seq<u8>) -> Result<Seq<ShapeIndex>, Error> {
    match parse_header(bytes, 0) {
        Err(error) => Err(error),
        Ok(header) => {
            let count = index_count(header.file_length as int);
            if HEADER_SIZE + 8 * count > bytes.len() {
                Err(unexpected_eof())
            } else {
                Ok(index_entries(bytes, HEADER_SIZE as int, count))
            }
        },
    }
}

/// Reads an index.
pub fn read_index_file(source: Vec<u8>) -> (r: Result<Vec<ShapeIndex>, Error>)
    ensures
        match r {
            Ok(entries) => parse_index(source@) == Ok::<Seq<ShapeIndex>, Error>(entries@),
            Err(error) => parse_index(source@) == Err::<Seq<ShapeIndex>, Error>(error),
        },
{
    let ghost bytes = source@;
    let mut source = ByteSource::new(source);
    let header = Header::read_from(&mut source)?;
    let length: i64 = 2 * header.file_length as i64;
    let count: i64 = if length <= HEADER_SIZE as i64 {
        0
    } else {
        (length - HEADER_SIZE as i64) / INDEX_RECORD_SIZE
    };
    if count as u64 > ((source.bytes.len() - source.pos) / 8) as u64 {
        return Err(end_error());
    }
    let mut entries: Vec<ShapeIndex> = Vec::new();
    while (entries.len() as u64) < count as u64
        invariant
            0 <= count,
            entries@.len() <= count,
            HEADER_SIZE + 8 * count <= bytes.len(),
            source.bytes@ == bytes,
            source.pos == HEADER_SIZE + 8 * entries@.len(),
            entries@ == index_entries(bytes, HEADER_SIZE as int, entries@.len() as int),
        decreases count - entries@.len(),
    {
        let offset: i32 = source.read_i32_be()?;
        let record_size: i32 = source.read_i32_be()?;
        entries.push(ShapeIndex { offset, record_size });
    }
    Ok(entries)
}

} // verus!
