//! Reading of ESRI shapefiles.
//!
//! A shapefile is a group of files: the main file (`.shp`) holds the geometries, the index
//! (`.shx`) tells where each of them starts, and the table (`.dbf`) holds one row of properties
//! for each geometry. [`reader::ShpReader`] takes the bytes of these files; its iterators walk
//! the main file, and the table beside it, and report what they meet to a processor.

pub mod dbf;
pub mod encoding;
pub mod error;
pub mod format;
pub mod header;
pub mod laws;
pub mod processor;
pub mod reader;
pub mod reading_laws;
pub mod shape_format;
pub mod shp_reader;
pub mod shx_reader;
pub mod source;
