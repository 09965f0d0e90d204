//! The head of a main file (`.shp`) or an index (`.shx`), and the types of shapes.

use crate::error::Error;
use crate::source::{ByteSource, be_i32, le_i32, le_u64, unexpected_eof};
use vstd::prelude::*;

verus! {

/// How many bytes the head takes.
pub const HEADER_SIZE: i32 = 100;

/// The number that every main file and every index starts with.
pub const FILE_CODE: i32 = 9994;

/// How many unused bytes follow the file code.
pub const SIZE_OF_SKIP: usize = 20;

/// The types of shapes.
#[derive(Debug, Clone, Copy, PartialEq, Eq, Structural)]
pub enum ShapeType {
    /// No geometry.
    NullShape,
    /// One point.
    Point,
    /// Lines.
    Polyline,
    /// Rings.
    Polygon,
    /// A set of points.
    Multipoint,
    /// One point with a height.
    PointZ,
    /// Lines with heights.
    PolylineZ,
    /// Rings with heights.
    PolygonZ,
    /// A set of points with heights.
    MultipointZ,
    /// One point with a measure.
    PointM,
    /// Lines with measures.
    PolylineM,
    /// Rings with measures.
    PolygonM,
    /// A set of points with measures.
    MultipointM,
    /// Surface patches.
    Multipatch,
}

impl ShapeType {
    /// The number that stands for the type in a file.
    pub open spec fn spec_code(self) -> i32 {
        match self {
            ShapeType::NullShape => 0,
            ShapeType::Point => 1,
            ShapeType::Polyline => 3,
            ShapeType::Polygon => 5,
            ShapeType::Multipoint => 8,
            ShapeType::PointZ => 11,
            ShapeType::PolylineZ => 13,
            ShapeType::PolygonZ => 15,
            ShapeType::MultipointZ => 18,
            ShapeType::PointM => 21,
            ShapeType::PolylineM => 23,
            ShapeType::PolygonM => 25,
            ShapeType::MultipointM => 28,
            ShapeType::Multipatch => 31,
        }
    }

    /// Whether some type has this number.
    pub open spec fn is_code(code: int) -> bool {
        exists|shape_type: ShapeType| #[trigger] shape_type.spec_code() == code
    }

    /// The type that has this number.
    pub open spec fn of_code(code: int) -> ShapeType {
        choose|shape_type: ShapeType| #[trigger] shape_type.spec_code() == code
    }

    /// The number that stands for the type in a file.
    pub fn code(self) -> (code: i32)
        ensures
            code == self.spec_code(),
    {
        match self {
            ShapeType::NullShape => 0,
            ShapeType::Point => 1,
            ShapeType::Polyline => 3,
            ShapeType::Polygon => 5,
            ShapeType::Multipoint => 8,
            ShapeType::PointZ => 11,
            ShapeType::PolylineZ => 13,
            ShapeType::PolygonZ => 15,
            ShapeType::MultipointZ => 18,
            ShapeType::PointM => 21,
            ShapeType::PolylineM => 23,
            ShapeType::PolygonM => 25,
            ShapeType::MultipointM => 28,
            ShapeType::Multipatch => 31,
        }
    }

    /// The type that a number stands for, if there is one.
    pub fn from_code(code: i32) -> (r: Option<ShapeType>)
        ensures
            match r {
                Some(shape_type) => shape_type.spec_code() == code && Self::is_code(code as int)
                    && Self::of_code(code as int) == shape_type,
                None => !Self::is_code(code as int),
            },
    {
        let shape_type = match code {
            0 => ShapeType::NullShape,
            1 => ShapeType::Point,
            3 => ShapeType::Polyline,
            5 => ShapeType::Polygon,
            8 => ShapeType::Multipoint,
            11 => ShapeType::PointZ,
            13 => ShapeType::PolylineZ,
            15 => ShapeType::PolygonZ,
            18 => ShapeType::MultipointZ,
            21 => ShapeType::PointM,
            23 => ShapeType::PolylineM,
            25 => ShapeType::PolygonM,
            28 => ShapeType::MultipointM,
            31 => ShapeType::Multipatch,
            _ => {
                return None;
            },
        };
        proof {
            lemma_code_is_unique(shape_type);
        }
        Some(shape_type)
    }

    /// Reads the number of a shape type.
    pub fn read_from(source: &mut ByteSource) -> (r: Result<ShapeType, Error>)
        ensures
            r == parse_shape_type(old(source).bytes@, old(source).pos as int),
            final(source).bytes@ == old(source).bytes@,
            r is Ok ==> old(source).advanced(final(source), 4),
    {
        let code: i32 = source.read_i32_le()?;
        match ShapeType::from_code(code) {
            Some(shape_type) => Ok(shape_type),
            None => Err(Error::InvalidShapeType(code)),
        }
    }
}

/// Each shape type is found again by its number: no two types share one.
pub proof fn lemma_code_is_unique(shape_type: ShapeType)
    ensures
        ShapeType::is_code(shape_type.spec_code() as int),
        ShapeType::of_code(shape_type.spec_code() as int) == shape_type,
{
    let found = ShapeType::of_code(shape_type.spec_code() as int);
    assert(found.spec_code() == shape_type.spec_code());
}

/// The shape type whose number stands at `at`.
pub open spec fn parse_shape_type(bytes: Seq<u8>, at: int) -> Result<ShapeType, Error> {
    if at + 4 > bytes.len() {
        Err(unexpected_eof())
    } else if !ShapeType::is_code(le_i32(bytes, at)) {
        Err(Error::InvalidShapeType(le_i32(bytes, at) as i32))
    } else {
        Ok(ShapeType::of_code(le_i32(bytes, at)))
    }
}

/// The box around all shapes of a file. Each bound is the bit pattern of a double.
#[derive(Debug, Clone, Copy, PartialEq, Eq, Structural)]
pub struct Bounds {
    pub x_min: u64,
    pub y_min: u64,
    pub x_max: u64,
    pub y_max: u64,
    pub z_min: u64,
    pub z_max: u64,
    pub m_min: u64,
    pub m_max: u64,
}

/// The head of a main file or an index.
#[derive(Debug, Clone, Copy, PartialEq, Eq, Structural)]
pub struct Header {
    /// The length of the whole file, the head among it, in 16-bit words.
    pub file_length: i32,
    /// The version of the format.
    pub version: i32,
    /// The type of the shapes.
    pub shape_type: ShapeType,
    /// The box around all shapes.
    pub bounds: Bounds,
}

/// The bounds that stand at `at`.
pub open spec fn parse_bounds(bytes: Seq<u8>, at: int) -> Bounds {
    Bounds {
        x_min: le_u64(bytes, at) as u64,
        y_min: le_u64(bytes, at + 8) as u64,
        x_max: le_u64(bytes, at + 16) as u64,
        y_max: le_u64(bytes, at + 24) as u64,
        z_min: le_u64(bytes, at + 32) as u64,
        z_max: le_u64(bytes, at + 40) as u64,
        m_min: le_u64(bytes, at + 48) as u64,
        m_max: le_u64(bytes, at + 56) as u64,
    }
}

/// The head that starts at `at`, or the first thing that is wrong with it.
pub open spec fn parse_header(bytes: Seq<u8>, at: int) -> Result<Header, Error> {
    if at + 4 > bytes.len() {
        Err(unexpected_eof())
    } else if be_i32(bytes, at) != FILE_CODE {
        Err(Error::InvalidFileCode(be_i32(bytes, at) as i32))
    } else if at + 32 > bytes.len() {
        Err(unexpected_eof())
    } else {
        match parse_shape_type(bytes, at + 32) {
            Err(error) => Err(error),
            Ok(shape_type) => if at + HEADER_SIZE > bytes.len() {
                Err(unexpected_eof())
            } else {
                Ok(
                    Header {
                        file_length: be_i32(bytes, at + 24) as i32,
                        version: le_i32(bytes, at + 28) as i32,
                        shape_type,
                        bounds: parse_bounds(bytes, at + 36),
                    },
                )
            },
        }
    }
}

impl Bounds {
    fn read_from(source: &mut ByteSource) -> (r: Result<Bounds, Error>)
        ensures
            final(source).bytes@ == old(source).bytes@,
            match r {
                Ok(bounds) => old(source).holds(64) && old(source).advanced(final(source), 64)
                    && bounds == parse_bounds(old(source).bytes@, old(source).pos as int),
                Err(error) => !old(source).holds(64) && error == unexpected_eof(),
            },
    {
        Ok(
            Bounds {
                x_min: source.read_u64_le()?,
                y_min: source.read_u64_le()?,
                x_max: source.read_u64_le()?,
                y_max: source.read_u64_le()?,
                z_min: source.read_u64_le()?,
                z_max: source.read_u64_le()?,
                m_min: source.read_u64_le()?,
                m_max: source.read_u64_le()?,
            },
        )
    }
}

impl Header {
    /// Reads the head that starts at the position of `source`.
    ///
    /// Fails where the bytes end within the head, where they do not start with the file code,
    /// and where the shape type is not known.
    pub fn read_from(source: &mut ByteSource) -> (r: Result<Header, Error>)
        ensures
            r == parse_header(old(source).bytes@, old(source).pos as int),
            final(source).bytes@ == old(source).bytes@,
            r is Ok ==> old(source).advanced(final(source), HEADER_SIZE as int),
    {
        let file_code: i32 = source.read_i32_be()?;
        if file_code != FILE_CODE {
            return Err(Error::InvalidFileCode(file_code));
        }
        source.skip(SIZE_OF_SKIP)?;
        let file_length: i32 = source.read_i32_be()?;
        let version: i32 = source.read_i32_le()?;
        let shape_type = ShapeType::read_from(source)?;
        let bounds = Bounds::read_from(source)?;
        Ok(Header { file_length, version, shape_type, bounds })
    }
}

} // verus!
