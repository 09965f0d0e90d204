//! The records of a main file (`.shp`), each with one shape.

use crate::error::Error;
use crate::header::{ShapeType, parse_shape_type};
use crate::processor::{Event, GeomProcessor, replied_within, takes_all};
use crate::source::{
    ByteSource, be_i32, end_error, le_i32, le_i32s, le_u64_pairs, le_u64s, unexpected_eof,
};
use vstd::prelude::*;

verus! {

/// The head of a record.
#[derive(Debug, Clone, Copy, PartialEq, Eq, Structural)]
pub struct RecordHeader {
    /// The number of the record.
    pub record_number: i32,
    /// The length of what follows the head, in 16-bit words.
    pub record_size: i32,
}

/// A shape as it stands in the file.
///
/// Every coordinate, height, measure and bound is the bit pattern of a double. What the type of
/// the shape does not have is empty.
#[derive(Debug, Clone, PartialEq, Eq)]
pub struct Shape {
    /// The type of the shape.
    pub shape_type: ShapeType,
    /// The box around the shape: the smallest x and y, the largest x and y.
    pub bbox: Vec<u64>,
    /// For each part, the number of its first point.
    pub parts: Vec<i32>,
    /// For each part, the kind of surface patch that it is.
    pub patch_types: Vec<i32>,
    /// The points, each with its x and its y.
    pub points: Vec<(u64, u64)>,
    /// The smallest and the largest height.
    pub z_range: Vec<u64>,
    /// The height of each point.
    pub z: Vec<u64>,
    /// The smallest and the largest measure.
    pub m_range: Vec<u64>,
    /// The measure of each point.
    pub m: Vec<u64>,
}

/// [`Shape`] as contracts see it.
#[verifier::ext_equal]
pub struct ShapeView {
    pub shape_type: ShapeType,
    pub bbox: Seq<u64>,
    pub parts: Seq<i32>,
    pub patch_types: Seq<i32>,
    pub points: Seq<(u64, u64)>,
    pub z_range: Seq<u64>,
    pub z: Seq<u64>,
    pub m_range: Seq<u64>,
    pub m: Seq<u64>,
}

impl View for Shape {
    type V = ShapeView;

    open spec fn view(&self) -> ShapeView {
        ShapeView {
            shape_type: self.shape_type,
            bbox: self.bbox@,
            parts: self.parts@,
            patch_types: self.patch_types@,
            points: self.points@,
            z_range: self.z_range@,
            z: self.z@,
            m_range: self.m_range@,
            m: self.m@,
        }
    }
}

/// Whether shapes of a type come with measures.
#[derive(Debug, Clone, Copy, PartialEq, Eq, Structural)]
pub enum Measures {
    /// They never do.
    Never,
    /// They may: the size of the record tells.
    Optional,
    /// They always do.
    Always,
}

/// What shapes of a type consist of.
#[derive(Debug, Clone, Copy, PartialEq, Eq, Structural)]
pub struct Layout {
    /// One point, with neither box nor counts.
    pub single: bool,
    /// The points are divided into parts.
    pub parts: bool,
    /// Each part has a kind of surface patch.
    pub patches: bool,
    /// Each point has a height.
    pub z: bool,
    /// Whether each point has a measure.
    pub m: Measures,
}

/// What shapes of a type consist of. (A null shape consists of nothing, which is not told here.)
pub open spec fn layout(shape_type: ShapeType) -> Layout {
    Layout {
        single: shape_type is Point || shape_type is PointM || shape_type is PointZ,
        parts: shape_type is Polyline || shape_type is PolylineM || shape_type is PolylineZ
            || shape_type is Polygon || shape_type is PolygonM || shape_type is PolygonZ
            || shape_type is Multipatch,
        patches: shape_type is Multipatch,
        z: shape_type is PointZ || shape_type is PolylineZ || shape_type is PolygonZ
            || shape_type is MultipointZ || shape_type is Multipatch,
        m: match shape_type {
            ShapeType::NullShape
            | ShapeType::Point
            | ShapeType::Polyline
            | ShapeType::Polygon
            | ShapeType::Multipoint => Measures::Never,
            ShapeType::PointM => Measures::Always,
            _ => Measures::Optional,
        },
    }
}

fn layout_of(shape_type: ShapeType) -> (r: Layout)
    ensures
        r == layout(shape_type),
{
    let single = matches!(shape_type, ShapeType::Point | ShapeType::PointM | ShapeType::PointZ);
    let patches = matches!(shape_type, ShapeType::Multipatch);
    let parts = patches || matches!(
        shape_type,
        ShapeType::Polyline | ShapeType::PolylineM | ShapeType::PolylineZ | ShapeType::Polygon
            | ShapeType::PolygonM | ShapeType::PolygonZ
    );
    let z = patches || matches!(
        shape_type,
        ShapeType::PointZ | ShapeType::PolylineZ | ShapeType::PolygonZ | ShapeType::MultipointZ
    );
    let m = match shape_type {
        ShapeType::NullShape
        | ShapeType::Point
        | ShapeType::Polyline
        | ShapeType::Polygon
        | ShapeType::Multipoint => Measures::Never,
        ShapeType::PointM => Measures::Always,
        _ => Measures::Optional,
    };
    Layout { single, parts, patches, z, m }
}

impl Layout {
    /// How many bytes come before the numbers of the parts: the box and the counts.
    pub open spec fn counts_size(self) -> int {
        if self.parts {
            40
        } else {
            36
        }
    }

    /// How many bytes a shape takes, without its measures.
    pub open spec fn plain_size(self, parts: int, points: int) -> int {
        if self.single {
            if self.z {
                24
            } else {
                16
            }
        } else {
            self.counts_size() + (if self.parts {
                4 * parts
            } else {
                0
            }) + (if self.patches {
                4 * parts
            } else {
                0
            }) + 16 * points + (if self.z {
                16 + 8 * points
            } else {
                0
            })
        }
    }

    /// How many bytes the measures of a shape take.
    pub open spec fn measures_size(self, points: int) -> int {
        if self.single {
            8
        } else {
            16 + 8 * points
        }
    }

    /// Whether a shape of this size has measures.
    pub open spec fn measured(self, parts: int, points: int, size: int) -> bool {
        self.m != Measures::Never && size == self.plain_size(parts, points) + self.measures_size(
            points,
        )
    }

    /// Whether a shape can have this size.
    pub open spec fn allows(self, parts: int, points: int, size: int) -> bool {
        self.measured(parts, points, size) || (self.m != Measures::Always && size
            == self.plain_size(parts, points))
    }
}

/// The shape of a type that is not null, of `size` bytes from `at` on.
pub open spec fn shape_at(
    bytes: Seq<u8>,
    at: int,
    shape_type: ShapeType,
    parts: int,
    points: int,
    size: int,
) -> ShapeView {
    let layout = layout(shape_type);
    let measured = layout.measured(parts, points, size);
    let m_at = at + layout.plain_size(parts, points);
    if layout.single {
        ShapeView {
            shape_type,
            bbox: Seq::empty(),
            parts: Seq::empty(),
            patch_types: Seq::empty(),
            points: le_u64_pairs(bytes, at, 1),
            z_range: Seq::empty(),
            z: if layout.z {
                le_u64s(bytes, at + 16, 1)
            } else {
                Seq::empty()
            },
            m_range: Seq::empty(),
            m: if measured {
                le_u64s(bytes, m_at, 1)
            } else {
                Seq::empty()
            },
        }
    } else {
        let parts_at = at + layout.counts_size();
        let patches_at = if layout.parts {
            parts_at + 4 * parts
        } else {
            parts_at
        };
        let points_at = if layout.patches {
            patches_at + 4 * parts
        } else {
            patches_at
        };
        let z_at = points_at + 16 * points;
        ShapeView {
            shape_type,
            bbox: le_u64s(bytes, at, 4),
            parts: if layout.parts {
                le_i32s(bytes, parts_at, parts)
            } else {
                Seq::empty()
            },
            patch_types: if layout.patches {
                le_i32s(bytes, patches_at, parts)
            } else {
                Seq::empty()
            },
            points: le_u64_pairs(bytes, points_at, points),
            z_range: if layout.z {
                le_u64s(bytes, z_at, 2)
            } else {
                Seq::empty()
            },
            z: if layout.z {
                le_u64s(bytes, z_at + 16, points)
            } else {
                Seq::empty()
            },
            m_range: if measured {
                le_u64s(bytes, m_at, 2)
            } else {
                Seq::empty()
            },
            m: if measured {
                le_u64s(bytes, m_at + 16, points)
            } else {
                Seq::empty()
            },
        }
    }
}

/// The shape that `size` bytes from `at` on hold, `None` for a null shape, or the first thing
/// that is wrong with it.
pub open spec fn parse_shape(bytes: Seq<u8>, at: int, shape_type: ShapeType, size: int) -> Result<
    Option<ShapeView>,
    Error,
> {
    let layout = layout(shape_type);
    if shape_type is NullShape {
        Ok(None)
    } else if !layout.single && at + layout.counts_size() > bytes.len() {
        Err(unexpected_eof())
    } else {
        let parts = if layout.parts {
            le_i32(bytes, at + 32)
        } else {
            0
        };
        let points = if layout.single {
            1
        } else {
            le_i32(bytes, at + layout.counts_size() - 4)
        };
        if parts < 0 || points < 0 || !layout.allows(parts, points, size) {
            Err(Error::InvalidShapeRecordSize)
        } else if at + size > bytes.len() {
            Err(unexpected_eof())
        } else {
            Ok(Some(shape_at(bytes, at, shape_type, parts, points, size)))
        }
    }
}

/// A record, and where it ends.
pub struct ParsedRecord {
    /// The head of the record.
    pub header: RecordHeader,
    /// The shape in the record, `None` for a null shape.
    pub shape: Option<ShapeView>,
    /// The position after the last byte that was read.
    pub end: int,
}

/// The record that starts at `at`, or the first thing that is wrong with it.
pub open spec fn parse_record(bytes: Seq<u8>, at: int) -> Result<ParsedRecord, Error> {
    if at + 8 > bytes.len() {
        Err(unexpected_eof())
    } else {
        let header = RecordHeader {
            record_number: be_i32(bytes, at) as i32,
            record_size: be_i32(bytes, at + 4) as i32,
        };
        let size = 2 * header.record_size - 4;
        match parse_shape_type(bytes, at + 8) {
            Err(error) => Err(error),
            Ok(shape_type) => match parse_shape(bytes, at + 12, shape_type, size) {
                Err(error) => Err(error),
                Ok(shape) => Ok(
                    ParsedRecord {
                        header,
                        shape,
                        end: if shape_type is NullShape {
                            at + 12
                        } else {
                            at + 12 + size
                        },
                    },
                ),
            },
        }
    }
}

impl RecordHeader {
    /// How many bytes the head of a record takes.
    pub const SIZE: usize = 8;

    /// Reads the head of a record.
    pub fn read_from(source: &mut ByteSource) -> (r: Result<RecordHeader, Error>)
        ensures
            final(source).bytes@ == old(source).bytes@,
            match r {
                Ok(header) => {
                    &&& old(source).holds(8)
                    &&& old(source).advanced(final(source), 8)
                    &&& header.record_number == be_i32(old(source).bytes@, old(source).pos as int)
                    &&& header.record_size == be_i32(old(source).bytes@, old(source).pos + 4)
                },
                Err(error) => !old(source).holds(8) && error == unexpected_eof(),
            },
    {
        let record_number: i32 = source.read_i32_be()?;
        let record_size: i32 = source.read_i32_be()?;
        Ok(RecordHeader { record_number, record_size })
    }
}

/// Reads a single point.
fn read_point(source: &mut ByteSource, shape_type: ShapeType, size: i64) -> (r: Result<Shape, Error>)
    requires
        layout(shape_type).single,
    ensures
        final(source).bytes@ == old(source).bytes@,
        match r {
            Ok(shape) => {
                &&& parse_shape(old(source).bytes@, old(source).pos as int, shape_type, size as int)
                    == Ok::<Option<ShapeView>, Error>(Some(shape@))
                &&& old(source).advanced(final(source), size as int)
            },
            Err(error) => parse_shape(
                old(source).bytes@,
                old(source).pos as int,
                shape_type,
                size as int,
            ) == Err::<Option<ShapeView>, Error>(error),
        },
{
    let layout = layout_of(shape_type);
    let plain: i64 = if layout.z {
        24
    } else {
        16
    };
    let measured = layout.m != Measures::Never && size == plain + 8;
    if !(measured || (layout.m != Measures::Always && size == plain)) {
        return Err(Error::InvalidShapeRecordSize);
    }
    if !source.has(size as usize) {
        return Err(end_error());
    }
    let points = source.read_u64_pairs_le(1)?;
    let z = if layout.z {
        source.read_u64s_le(1)?
    } else {
        Vec::new()
    };
    let m = if measured {
        source.read_u64s_le(1)?
    } else {
        Vec::new()
    };
    let shape = Shape {
        shape_type,
        bbox: Vec::new(),
        parts: Vec::new(),
        patch_types: Vec::new(),
        points,
        z_range: Vec::new(),
        z,
        m_range: Vec::new(),
        m,
    };
    Ok(shape)
}

/// How many bytes a shape takes, with or without measures.
spec fn size_with(shape_type: ShapeType, parts: int, points: int, measured: bool) -> int {
    layout(shape_type).plain_size(parts, points) + (if measured {
        layout(shape_type).measures_size(points)
    } else {
        0
    })
}

/// Reads what follows the counts of a shape of many points.
fn read_sections(
    source: &mut ByteSource,
    shape_type: ShapeType,
    bbox: Vec<u64>,
    parts: usize,
    points: usize,
    measured: bool,
) -> (r: Result<Shape, Error>)
    requires
        !layout(shape_type).single,
        old(source).pos >= layout(shape_type).counts_size(),
        bbox@ == le_u64s(
            old(source).bytes@,
            old(source).pos - layout(shape_type).counts_size(),
            4,
        ),
        old(source).pos - layout(shape_type).counts_size() + size_with(
            shape_type,
            parts as int,
            points as int,
            measured,
        ) <= old(source).bytes@.len(),
        measured ==> layout(shape_type).m != Measures::Never,
    ensures
        final(source).bytes@ == old(source).bytes@,
        final(source).pos == old(source).pos - layout(shape_type).counts_size() + size_with(
            shape_type,
            parts as int,
            points as int,
            measured,
        ),
        r matches Ok(shape) && shape@ == shape_at(
            old(source).bytes@,
            old(source).pos - layout(shape_type).counts_size(),
            shape_type,
            parts as int,
            points as int,
            size_with(shape_type, parts as int, points as int, measured),
        ),
{
    let layout = layout_of(shape_type);
    let part_starts = if layout.parts {
        source.read_i32s_le(parts)?
    } else {
        Vec::new()
    };
    let patch_types = if layout.patches {
        source.read_i32s_le(parts)?
    } else {
        Vec::new()
    };
    let point_list = source.read_u64_pairs_le(points)?;
    let z_range = if layout.z {
        source.read_u64s_le(2)?
    } else {
        Vec::new()
    };
    let z = if layout.z {
        source.read_u64s_le(points)?
    } else {
        Vec::new()
    };
    let m_range = if measured {
        source.read_u64s_le(2)?
    } else {
        Vec::new()
    };
    let m = if measured {
        source.read_u64s_le(points)?
    } else {
        Vec::new()
    };
    Ok(
        Shape {
            shape_type,
            bbox,
            parts: part_starts,
            patch_types,
            points: point_list,
            z_range,
            z,
            m_range,
            m,
        },
    )
}

/// How many bytes a shape of many points takes, without its measures.
fn plain_size_of(layout: Layout, parts: i32, points: i32) -> (r: i64)
    requires
        !layout.single,
        parts >= 0,
        points >= 0,
    ensures
        r == layout.plain_size(parts as int, points as int),
{
    let mut plain: i64 = if layout.parts {
        40 + 4 * parts as i64
    } else {
        36
    };
    if layout.patches {
        plain = plain + 4 * parts as i64;
    }
    if layout.z {
        plain = plain + 16 + 8 * points as i64;
    }
    plain + 16 * points as i64
}

/// Reads a shape of many points.
fn read_points(source: &mut ByteSource, shape_type: ShapeType, size: i64) -> (r: Result<Shape, Error>)
    requires
        !layout(shape_type).single,
        !(shape_type is NullShape),
    ensures
        final(source).bytes@ == old(source).bytes@,
        match r {
            Ok(shape) => {
                &&& parse_shape(old(source).bytes@, old(source).pos as int, shape_type, size as int)
                    == Ok::<Option<ShapeView>, Error>(Some(shape@))
                &&& old(source).advanced(final(source), size as int)
            },
            Err(error) => parse_shape(
                old(source).bytes@,
                old(source).pos as int,
                shape_type,
                size as int,
            ) == Err::<Option<ShapeView>, Error>(error),
        },
{
    let layout = layout_of(shape_type);
    let counts_size: usize = if layout.parts {
        40
    } else {
        36
    };
    if !source.has(counts_size) {
        return Err(end_error());
    }
    let bbox = source.read_u64s_le(4)?;
    let parts: i32 = if layout.parts {
        source.read_i32_le()?
    } else {
        0
    };
    let points: i32 = source.read_i32_le()?;
    if parts < 0 || points < 0 {
        return Err(Error::InvalidShapeRecordSize);
    }
    let plain: i64 = plain_size_of(layout, parts, points);
    let measured = layout.m != Measures::Never && size == plain + 16 + 8 * points as i64;
    if !(measured || (layout.m != Measures::Always && size == plain)) {
        return Err(Error::InvalidShapeRecordSize);
    }
    if (size - counts_size as i64) as u64 > (source.bytes.len() - source.pos) as u64 {
        return Err(end_error());
    }
    read_sections(source, shape_type, bbox, parts as usize, points as usize, measured)
}

/// Whether reading the record at `at` takes the log of a processor from `before` to `after`.
///
/// Of a record that cannot be read, and of a null shape, the processor hears nothing. Any other
/// shape it is handed.
pub open spec fn shape_told(bytes: Seq<u8>, at: int, before: Seq<Event>, after: Seq<Event>) -> bool {
    match parse_record(bytes, at) {
        Ok(ParsedRecord { shape: Some(shape), .. }) => {
            &&& after.len() == before.len() + 1
            &&& after.drop_last() == before
            &&& after.last() matches Event::Shape(given, _)
            &&& given == shape
        },
        _ => after == before,
    }
}

/// What reading the record at `at` gives, where `after` is the log of the processor afterwards:
/// the head of the record, or what is wrong with the record, or the refusal of the processor.
pub open spec fn shape_outcome(bytes: Seq<u8>, at: int, after: Seq<Event>) -> Result<
    RecordHeader,
    Error,
> {
    match parse_record(bytes, at) {
        Err(error) => Err(error),
        Ok(record) => match (record.shape, after.last()) {
            (Some(_), Event::Shape(_, Err(error))) => Err(Error::GeozeroError(error)),
            _ => Ok(record.header),
        },
    }
}

/// Reads the record at the position of `source` and hands its shape to `processor`.
///
/// The size in the head of the record is held against the shape, unless that is a null shape:
/// then the size is handed on as it stands, whatever it is.
pub fn read_shape<P: GeomProcessor>(processor: &mut P, source: &mut ByteSource) -> (r: Result<
    RecordHeader,
    Error,
>)
    ensures
        shape_told(
            old(source).bytes@,
            old(source).pos as int,
            old(processor).log(),
            final(processor).log(),
        ),
        r == shape_outcome(
            old(source).bytes@,
            old(source).pos as int,
            final(processor).log(),
        ),
        final(source).bytes@ == old(source).bytes@,
        parse_record(old(source).bytes@, old(source).pos as int) matches Ok(record)
            ==> final(source).pos == record.end,
        final(processor).replies() == old(processor).replies(),
        replied_within(old(processor).replies(), old(processor).log(), final(processor).log()),
        takes_all(old(processor).replies()) ==> !(r matches Err(Error::GeozeroError(_))),
{
    let header = RecordHeader::read_from(source)?;
    let shape_type = ShapeType::read_from(source)?;
    let size: i64 = 2 * header.record_size as i64 - 4;
    if shape_type == ShapeType::NullShape {
        return Ok(header);
    }
    let shape = if layout_of(shape_type).single {
        read_point(source, shape_type, size)?
    } else {
        read_points(source, shape_type, size)?
    };
    let reply = processor.shape(&shape);
    assert(processor.log().drop_last() =~= old(processor).log());
    match reply {
        Ok(_) => Ok(header),
        Err(error) => Err(Error::GeozeroError(error)),
    }
}

} // verus!
