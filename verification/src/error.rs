//! The errors of the library.

use vstd::prelude::*;

verus! {

/// `std::io::Error`. A value of it is handed on and never looked into.
#[verifier::external_type_specification]
#[verifier::external_body]
pub struct ExIoError(std::io::Error);

/// What a processor reports when it cannot take what it was given.
#[derive(Debug)]
pub enum GeozeroError {
    /// The dataset was refused.
    Dataset(String),
    /// A feature was refused.
    Feature(String),
    /// A geometry was refused.
    Geometry(String),
    /// A property was refused.
    Property(String),
}

/// What can go wrong when a shapefile is read.
#[derive(Debug)]
pub enum Error {
    /// One of the files could not be read, or ends in the middle of a value.
    IoError(std::io::Error),
    /// The file does not start with the file code of a shapefile; the code that was found.
    InvalidFileCode(i32),
    /// The code of a shape type is none of those known; the code that was found.
    InvalidShapeType(i32),
    /// The size of a record is negative, or is not the size of the shape in it.
    InvalidShapeRecordSize,
    /// The table (`.dbf`) could not be read.
    DbaseError(dbase::Error),
    /// The processor refused what it was given.
    GeozeroError(GeozeroError),
    /// There is no table (`.dbf`).
    MissingDbf,
}

} // verus!
