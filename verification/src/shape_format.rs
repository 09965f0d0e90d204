//! The records of a main file, told by how they are written, and that reading gives back what was
//! written.

use crate::encoding::{
    i32_be, i32_le, i32s_le, law_i32_be_reads_back, law_i32_le_reads_back, law_i32s_read_back,
    law_pairs_read_back, law_u64s_read_back, lemma_pieces_stand, pairs_le, stands_at, u64s_le,
};
use crate::error::Error;
use crate::format::{
    cut_short, is_type_number, law_shape_types_have_their_numbers, lemma_cut_short,
    lemma_same_numbers, too_short, type_number,
};
use crate::header::ShapeType;
use crate::shp_reader::{
    ParsedRecord, RecordHeader, ShapeView, layout, parse_record, parse_shape, shape_at,
};
use crate::source::{be_i32, le_i32, le_i32s, le_u64_pairs, le_u64s};
use vstd::prelude::*;

verus! {

/// Whether a shape has no heights.
pub open spec fn without_z(shape: ShapeView) -> bool {
    shape.z_range.len() == 0 && shape.z.len() == 0
}

/// Whether a shape of many points has a height for each.
pub open spec fn with_z(shape: ShapeView) -> bool {
    shape.z_range.len() == 2 && shape.z.len() == shape.points.len()
}

/// Whether a shape has no measures.
pub open spec fn without_m(shape: ShapeView) -> bool {
    shape.m_range.len() == 0 && shape.m.len() == 0
}

/// Whether a shape of many points has a measure for each.
pub open spec fn with_m(shape: ShapeView) -> bool {
    shape.m_range.len() == 2 && shape.m.len() == shape.points.len()
}

/// Whether a shape is one point with nothing else but perhaps a height and a measure.
pub open spec fn one_point(shape: ShapeView) -> bool {
    &&& shape.bbox.len() == 0
    &&& shape.parts.len() == 0
    &&& shape.patch_types.len() == 0
    &&& shape.points.len() == 1
    &&& shape.z_range.len() == 0
    &&& shape.m_range.len() == 0
}

/// Whether a shape has what shapes of its type have in the format, and nothing else.
#[verifier::opaque]
pub open spec fn is_proper(shape: ShapeView) -> bool {
    match shape.shape_type {
        ShapeType::NullShape => false,
        ShapeType::Point => one_point(shape) && shape.z.len() == 0 && shape.m.len() == 0,
        ShapeType::PointM => one_point(shape) && shape.z.len() == 0 && shape.m.len() == 1,
        ShapeType::PointZ => one_point(shape) && shape.z.len() == 1 && shape.m.len() <= 1,
        ShapeType::Multipoint => {
            &&& shape.bbox.len() == 4 && shape.parts.len() == 0 && shape.patch_types.len() == 0
            &&& without_z(shape) && without_m(shape)
        },
        ShapeType::MultipointM => {
            &&& shape.bbox.len() == 4 && shape.parts.len() == 0 && shape.patch_types.len() == 0
            &&& without_z(shape) && (without_m(shape) || with_m(shape))
        },
        ShapeType::MultipointZ => {
            &&& shape.bbox.len() == 4 && shape.parts.len() == 0 && shape.patch_types.len() == 0
            &&& with_z(shape) && (without_m(shape) || with_m(shape))
        },
        ShapeType::Polyline | ShapeType::Polygon => {
            &&& shape.bbox.len() == 4 && shape.patch_types.len() == 0
            &&& without_z(shape) && without_m(shape)
        },
        ShapeType::PolylineM | ShapeType::PolygonM => {
            &&& shape.bbox.len() == 4 && shape.patch_types.len() == 0
            &&& without_z(shape) && (without_m(shape) || with_m(shape))
        },
        ShapeType::PolylineZ | ShapeType::PolygonZ => {
            &&& shape.bbox.len() == 4 && shape.patch_types.len() == 0
            &&& with_z(shape) && (without_m(shape) || with_m(shape))
        },
        ShapeType::Multipatch => {
            &&& shape.bbox.len() == 4 && shape.patch_types.len() == shape.parts.len()
            &&& with_z(shape) && (without_m(shape) || with_m(shape))
        },
    }
}

/// The heights of a shape.
pub open spec fn z_bytes(shape: ShapeView) -> Seq<u8> {
    u64s_le(shape.z_range) + u64s_le(shape.z)
}

/// The measures of a shape.
pub open spec fn m_bytes(shape: ShapeView) -> Seq<u8> {
    u64s_le(shape.m_range) + u64s_le(shape.m)
}

/// The box and the points of a set of points.
pub open spec fn multipoint_bytes(shape: ShapeView) -> Seq<u8> {
    u64s_le(shape.bbox) + i32_le(shape.points.len() as i32) + pairs_le(shape.points)
}

/// The box, the parts and the points of lines or rings.
pub open spec fn poly_bytes(shape: ShapeView) -> Seq<u8> {
    u64s_le(shape.bbox) + i32_le(shape.parts.len() as i32) + i32_le(shape.points.len() as i32)
        + i32s_le(shape.parts) + pairs_le(shape.points)
}

/// A shape as the format has it.
#[verifier::opaque]
pub open spec fn shape_bytes(shape: ShapeView) -> Seq<u8> {
    match shape.shape_type {
        ShapeType::NullShape => Seq::empty(),
        ShapeType::Point => pairs_le(shape.points),
        ShapeType::PointM => pairs_le(shape.points) + u64s_le(shape.m),
        ShapeType::PointZ => pairs_le(shape.points) + u64s_le(shape.z) + u64s_le(shape.m),
        ShapeType::Multipoint => multipoint_bytes(shape),
        ShapeType::MultipointM => multipoint_bytes(shape) + m_bytes(shape),
        ShapeType::MultipointZ => multipoint_bytes(shape) + z_bytes(shape) + m_bytes(shape),
        ShapeType::Polyline | ShapeType::Polygon => poly_bytes(shape),
        ShapeType::PolylineM | ShapeType::PolygonM => poly_bytes(shape) + m_bytes(shape),
        ShapeType::PolylineZ | ShapeType::PolygonZ => poly_bytes(shape) + z_bytes(shape) + m_bytes(
            shape,
        ),
        ShapeType::Multipatch => u64s_le(shape.bbox) + i32_le(shape.parts.len() as i32) + i32_le(
            shape.points.len() as i32,
        ) + i32s_le(shape.parts) + i32s_le(shape.patch_types) + pairs_le(shape.points) + z_bytes(
            shape,
        ) + m_bytes(shape),
    }
}

/// A record: its number, its size in 16-bit words, the number of the shape type, and the shape.
pub open spec fn record_bytes(number: i32, size: i32, shape_type: ShapeType, content: Seq<u8>) -> Seq<
    u8,
> {
    i32_be(number) + i32_be(size) + i32_le(type_number(shape_type)) + content
}

/// The counts that stand behind the box of a shape.
#[verifier::opaque]
spec fn counts_of(shape: ShapeView) -> Seq<u8> {
    if layout(shape.shape_type).single {
        Seq::empty()
    } else if layout(shape.shape_type).parts {
        i32_le(shape.parts.len() as i32) + i32_le(shape.points.len() as i32)
    } else {
        i32_le(shape.points.len() as i32)
    }
}

/// What stands in front of the points of a shape.
#[verifier::opaque]
spec fn front_of(shape: ShapeView) -> Seq<u8> {
    u64s_le(shape.bbox) + counts_of(shape) + i32s_le(shape.parts) + i32s_le(shape.patch_types)
}

/// The points of a shape and what stands behind them.
#[verifier::opaque]
spec fn back_of(shape: ShapeView) -> Seq<u8> {
    pairs_le(shape.points) + u64s_le(shape.z_range) + u64s_le(shape.z) + u64s_le(shape.m_range)
        + u64s_le(shape.m)
}

/// Every shape is written in the same order; what its type does not have takes no bytes.
proof fn lemma_one_order(shape: ShapeView)
    requires
        is_proper(shape),
    ensures
        shape_bytes(shape) == front_of(shape) + back_of(shape),
        front_of(shape).len() == 8 * shape.bbox.len() + counts_of(shape).len() + 4
            * shape.parts.len() + 4 * shape.patch_types.len(),
        back_of(shape).len() == 16 * shape.points.len() + 8 * shape.z_range.len() + 8
            * shape.z.len() + 8 * shape.m_range.len() + 8 * shape.m.len(),
        counts_of(shape).len() == 0 || counts_of(shape).len() == 4 || counts_of(shape).len() == 8,
{
    reveal(shape_bytes);
    reveal(is_proper);
    reveal(counts_of);
    reveal(front_of);
    reveal(back_of);
    assert(shape_bytes(shape) =~= front_of(shape) + back_of(shape));
}

/// Where the front of a shape stands, reading there gives it, and the other way round.
proof fn lemma_front_stands(bytes: Seq<u8>, at: int, shape: ShapeView)
    requires
        is_proper(shape),
        0 <= at,
        shape.parts.len() <= i32::MAX,
        shape.points.len() <= i32::MAX,
        at + front_of(shape).len() <= bytes.len(),
    ensures
        stands_at(bytes, at, front_of(shape)) <==> {
            let l = layout(shape.shape_type);
            let parts_at = at + 8 * shape.bbox.len() + counts_of(shape).len();
            &&& le_u64s(bytes, at, shape.bbox.len() as int) == shape.bbox
            &&& l.parts && !l.single ==> le_i32(bytes, at + 32) == shape.parts.len()
            &&& !l.single ==> le_i32(bytes, at + l.counts_size() - 4) == shape.points.len()
            &&& le_i32s(bytes, parts_at, shape.parts.len() as int) == shape.parts
            &&& le_i32s(
                bytes,
                parts_at + 4 * shape.parts.len(),
                shape.patch_types.len() as int,
            ) == shape.patch_types
        },
{
    reveal(counts_of);
    reveal(front_of);
    reveal(is_proper);
    let a = u64s_le(shape.bbox);
    let b = a + counts_of(shape);
    let c = b + i32s_le(shape.parts);
    lemma_pieces_stand(bytes, at, a, counts_of(shape));
    lemma_pieces_stand(bytes, at, b, i32s_le(shape.parts));
    lemma_pieces_stand(bytes, at, c, i32s_le(shape.patch_types));
    law_u64s_read_back(bytes, at, shape.bbox);
    law_i32s_read_back(bytes, at + b.len(), shape.parts);
    law_i32s_read_back(bytes, at + c.len(), shape.patch_types);
    let l = layout(shape.shape_type);
    let counts_at = at + a.len();
    if !l.single {
        if l.parts {
            let p = i32_le(shape.parts.len() as i32);
            lemma_pieces_stand(bytes, counts_at, p, i32_le(shape.points.len() as i32));
            law_i32_le_reads_back(bytes, counts_at, shape.parts.len() as i32);
            law_i32_le_reads_back(bytes, counts_at + 4, shape.points.len() as i32);
        } else {
            law_i32_le_reads_back(bytes, counts_at, shape.points.len() as i32);
        }
    }
}

/// Where the back of a shape stands, reading there gives it, and the other way round.
proof fn lemma_back_stands(bytes: Seq<u8>, at: int, shape: ShapeView)
    requires
        is_proper(shape),
        0 <= at,
        at + back_of(shape).len() <= bytes.len(),
    ensures
        stands_at(bytes, at, back_of(shape)) <==> {
            let z_at = at + 16 * shape.points.len();
            let m_at = z_at + 8 * shape.z_range.len() + 8 * shape.z.len();
            &&& le_u64_pairs(bytes, at, shape.points.len() as int) == shape.points
            &&& le_u64s(bytes, z_at, shape.z_range.len() as int) == shape.z_range
            &&& le_u64s(bytes, z_at + 8 * shape.z_range.len(), shape.z.len() as int) == shape.z
            &&& le_u64s(bytes, m_at, shape.m_range.len() as int) == shape.m_range
            &&& le_u64s(bytes, m_at + 8 * shape.m_range.len(), shape.m.len() as int) == shape.m
        },
{
    reveal(back_of);
    reveal(is_proper);
    let a = pairs_le(shape.points);
    let b = a + u64s_le(shape.z_range);
    let c = b + u64s_le(shape.z);
    let d = c + u64s_le(shape.m_range);
    lemma_pieces_stand(bytes, at, a, u64s_le(shape.z_range));
    lemma_pieces_stand(bytes, at, b, u64s_le(shape.z));
    lemma_pieces_stand(bytes, at, c, u64s_le(shape.m_range));
    lemma_pieces_stand(bytes, at, d, u64s_le(shape.m));
    law_pairs_read_back(bytes, at, shape.points);
    law_u64s_read_back(bytes, at + a.len(), shape.z_range);
    law_u64s_read_back(bytes, at + b.len(), shape.z);
    law_u64s_read_back(bytes, at + c.len(), shape.m_range);
    law_u64s_read_back(bytes, at + d.len(), shape.m);
}

/// How many bytes a shape takes.
proof fn lemma_shape_size(shape: ShapeView)
    requires
        is_proper(shape),
    ensures
        ({
            let l = layout(shape.shape_type);
            let (parts, points) = (shape.parts.len() as int, shape.points.len() as int);
            let size = shape_bytes(shape).len() as int;
            &&& l.allows(parts, points, size)
            &&& l.measured(parts, points, size) <==> !without_m(shape)
            &&& size == l.plain_size(parts, points) + (if without_m(shape) {
                0
            } else {
                l.measures_size(points)
            })
            &&& size % 4 == 0
        }),
{
    reveal(counts_of);
    reveal(is_proper);
    lemma_one_order(shape);
}

/// A shape stands in the bytes where its counts do and reading the bytes behind them gives it.
proof fn lemma_shape_stands(bytes: Seq<u8>, at: int, shape: ShapeView)
    requires
        is_proper(shape),
        0 <= at,
        shape.parts.len() <= i32::MAX,
        shape.points.len() <= i32::MAX,
        at + shape_bytes(shape).len() <= bytes.len(),
    ensures
        stands_at(bytes, at, shape_bytes(shape)) <==> {
            let l = layout(shape.shape_type);
            &&& l.parts && !l.single ==> le_i32(bytes, at + 32) == shape.parts.len()
            &&& !l.single ==> le_i32(bytes, at + l.counts_size() - 4) == shape.points.len()
            &&& shape_at(
                bytes,
                at,
                shape.shape_type,
                shape.parts.len() as int,
                shape.points.len() as int,
                shape_bytes(shape).len() as int,
            ) == shape
        },
{
    reveal(counts_of);
    reveal(is_proper);
    lemma_one_order(shape);
    lemma_shape_size(shape);
    lemma_pieces_stand(bytes, at, front_of(shape), back_of(shape));
    lemma_front_stands(bytes, at, shape);
    lemma_back_stands(bytes, at + front_of(shape).len(), shape);
    let read = shape_at(
        bytes,
        at,
        shape.shape_type,
        shape.parts.len() as int,
        shape.points.len() as int,
        shape_bytes(shape).len() as int,
    );
    lemma_nothing_read(bytes, at, shape);
    if stands_at(bytes, at, shape_bytes(shape)) {
        assert(read =~= shape);
    }
}

/// Reading no numbers gives none.
proof fn lemma_nothing_read(bytes: Seq<u8>, at: int, shape: ShapeView)
    ensures
        shape.bbox.len() == 0 ==> shape.bbox =~= Seq::<u64>::empty(),
        shape.parts.len() == 0 ==> shape.parts =~= Seq::<i32>::empty(),
        shape.patch_types.len() == 0 ==> shape.patch_types =~= Seq::<i32>::empty(),
        shape.z_range.len() == 0 ==> shape.z_range =~= Seq::<u64>::empty(),
        shape.z.len() == 0 ==> shape.z =~= Seq::<u64>::empty(),
        shape.m_range.len() == 0 ==> shape.m_range =~= Seq::<u64>::empty(),
        shape.m.len() == 0 ==> shape.m =~= Seq::<u64>::empty(),
        forall|k: int| #[trigger] le_u64s(bytes, k, 0) =~= Seq::<u64>::empty(),
        forall|k: int| #[trigger] le_i32s(bytes, k, 0) =~= Seq::<i32>::empty(),
{
}

/// The size of a record with this shape, in 16-bit words.
pub open spec fn record_size(shape: ShapeView) -> int {
    (4 + shape_bytes(shape).len()) as int / 2
}

/// A record with a shape of the format.
pub open spec fn shape_record(number: i32, shape: ShapeView) -> Seq<u8> {
    record_bytes(number, record_size(shape) as i32, shape.shape_type, shape_bytes(shape))
}

/// Whether a shape is one of the format, and small enough for a record.
pub open spec fn fits_record(shape: ShapeView) -> bool {
    is_proper(shape) && record_size(shape) <= i32::MAX
}

/// The head of a record stands in the bytes where reading there gives it.
proof fn lemma_record_head(
    bytes: Seq<u8>,
    at: int,
    number: i32,
    size: i32,
    shape_type: ShapeType,
    content: Seq<u8>,
)
    requires
        0 <= at,
    ensures
        record_bytes(number, size, shape_type, content).len() == 12 + content.len(),
        stands_at(bytes, at, record_bytes(number, size, shape_type, content)) <==> {
            &&& at + 12 <= bytes.len()
            &&& be_i32(bytes, at) == number
            &&& be_i32(bytes, at + 4) == size
            &&& le_i32(bytes, at + 8) == type_number(shape_type)
            &&& stands_at(bytes, at + 12, content)
        },
{
    let a = i32_be(number);
    let b = a + i32_be(size);
    let c = b + i32_le(type_number(shape_type));
    lemma_pieces_stand(bytes, at, a, i32_be(size));
    lemma_pieces_stand(bytes, at, b, i32_le(type_number(shape_type)));
    lemma_pieces_stand(bytes, at, c, content);
    if at + 12 <= bytes.len() {
        law_i32_be_reads_back(bytes, at, number);
        law_i32_be_reads_back(bytes, at + 4, size);
        law_i32_le_reads_back(bytes, at + 8, type_number(shape_type));
    }
}

/// The counts of a shape that fits in a record fit in 32 bits.
proof fn lemma_counts_fit(shape: ShapeView)
    requires
        fits_record(shape),
    ensures
        shape.parts.len() <= i32::MAX,
        shape.points.len() <= i32::MAX,
        2 * record_size(shape) - 4 == shape_bytes(shape).len(),
        record_size(shape) >= 2,
{
    lemma_one_order(shape);
}

/// Reading a record gives the shape that was written, whatever its type and its size, and only
/// that.
pub proof fn law_shape_record_reads_back(bytes: Seq<u8>, at: int, number: i32, shape: ShapeView)
    requires
        0 <= at,
        fits_record(shape),
    ensures
        stands_at(bytes, at, shape_record(number, shape)) <==> parse_record(bytes, at) == Ok::<
            ParsedRecord,
            Error,
        >(
            ParsedRecord {
                header: RecordHeader {
                    record_number: number,
                    record_size: record_size(shape) as i32,
                },
                shape: Some(shape),
                end: at + shape_record(number, shape).len(),
            },
        ),
{
    reveal(is_proper);
    let size = record_size(shape) as i32;
    let t = shape.shape_type;
    lemma_counts_fit(shape);
    lemma_shape_size(shape);
    lemma_record_head(bytes, at, number, size, t, shape_bytes(shape));
    if at + 12 <= bytes.len() {
        law_shape_types_have_their_numbers(t, le_i32(bytes, at + 8));
        law_shape_types_have_their_numbers(
            ShapeType::of_code(le_i32(bytes, at + 8)),
            le_i32(bytes, at + 8),
        );
        if at + 12 + shape_bytes(shape).len() <= bytes.len() {
            lemma_shape_stands(bytes, at + 12, shape);
        }
    }
    if stands_at(bytes, at, shape_record(number, shape)) {
        assert(parse_shape(bytes, at + 12, t, 2 * size - 4) == Ok::<Option<ShapeView>, Error>(
            Some(shape),
        ));
    }
    if parse_record(bytes, at) == Ok::<ParsedRecord, Error>(
        ParsedRecord {
            header: RecordHeader { record_number: number, record_size: size },
            shape: Some(shape),
            end: at + shape_record(number, shape).len(),
        },
    ) {
        let read = parse_shape(bytes, at + 12, t, 2 * size - 4);
        assert(read == Ok::<Option<ShapeView>, Error>(Some(shape)));
    }
}

/// A record with a null shape.
pub open spec fn null_record(number: i32, size: i32) -> Seq<u8> {
    record_bytes(number, size, ShapeType::NullShape, Seq::empty())
}

/// Reading a record with a null shape gives none, whatever its size.
pub proof fn law_null_record_reads_back(bytes: Seq<u8>, at: int, number: i32, size: i32)
    requires
        0 <= at,
    ensures
        stands_at(bytes, at, null_record(number, size)) <==> parse_record(bytes, at) == Ok::<
            ParsedRecord,
            Error,
        >(
            ParsedRecord {
                header: RecordHeader { record_number: number, record_size: size },
                shape: None,
                end: at + 12,
            },
        ),
{
    lemma_record_head(bytes, at, number, size, ShapeType::NullShape, Seq::empty());
    if at + 12 <= bytes.len() {
        law_shape_types_have_their_numbers(ShapeType::NullShape, le_i32(bytes, at + 8));
        law_shape_types_have_their_numbers(
            ShapeType::of_code(le_i32(bytes, at + 8)),
            le_i32(bytes, at + 8),
        );
    }
}

/// Only what is written in the format is read: a record that can be read holds a shape of the
/// format, written as the format has it, or a null shape.
pub proof fn law_what_is_read_was_written(bytes: Seq<u8>, at: int)
    requires
        0 <= at,
    ensures
        parse_record(bytes, at) matches Ok(record) ==> match record.shape {
            Some(shape) => {
                &&& fits_record(shape)
                &&& record.header.record_size == record_size(shape)
                &&& stands_at(bytes, at, shape_record(record.header.record_number, shape))
                &&& record.end == at + shape_record(record.header.record_number, shape).len()
            },
            None => {
                &&& stands_at(
                    bytes,
                    at,
                    null_record(record.header.record_number, record.header.record_size),
                )
                &&& record.end == at + 12
            },
        },
{
    if let Ok(record) = parse_record(bytes, at) {
        let number = record.header.record_number;
        let size = record.header.record_size;
        let code = le_i32(bytes, at + 8);
        law_shape_types_have_their_numbers(ShapeType::of_code(code), code);
        match record.shape {
            Some(shape) => {
                lemma_shape_is_proper(bytes, at + 12, ShapeType::of_code(code), 2 * size - 4);
                lemma_counts_fit(shape);
                lemma_record_head(bytes, at, number, size, shape.shape_type, shape_bytes(shape));
                law_shape_record_reads_back(bytes, at, number, shape);
            },
            None => {
                law_null_record_reads_back(bytes, at, number, size);
            },
        }
    }
}

/// A shape that can be read is one of the format and takes the bytes that its record claims.
proof fn lemma_shape_is_proper(bytes: Seq<u8>, at: int, shape_type: ShapeType, size: int)
    ensures
        parse_shape(bytes, at, shape_type, size) matches Ok(Some(shape)) ==> {
            &&& is_proper(shape)
            &&& shape.shape_type == shape_type
            &&& shape_bytes(shape).len() == size
        },
{
    reveal(is_proper);
    if let Ok(Some(shape)) = parse_shape(bytes, at, shape_type, size) {
        assert(is_proper(shape));
        lemma_shape_size(shape);
    }
}

/// A record that is cut short, wherever that is, gives the error of a short read.
pub proof fn law_cut_record_is_too_short(bytes: Seq<u8>, at: int, number: i32, shape: ShapeView)
    requires
        fits_record(shape),
        cut_short(bytes, at, shape_record(number, shape)),
    ensures
        parse_record(bytes, at) matches Err(error) && too_short(error),
{
    reveal(is_proper);
    let whole = lemma_cut_short(bytes, at, shape_record(number, shape));
    law_shape_record_reads_back(whole, at, number, shape);
    lemma_counts_fit(shape);
    lemma_record_head(
        whole,
        at,
        number,
        record_size(shape) as i32,
        shape.shape_type,
        shape_bytes(shape),
    );
    lemma_shape_stands(whole, at + 12, shape);
    lemma_shape_size(shape);
    let l = layout(shape.shape_type);
    if at + 12 <= bytes.len() {
        lemma_same_numbers(whole, bytes, at);
        lemma_same_numbers(whole, bytes, at + 4);
        lemma_same_numbers(whole, bytes, at + 8);
        law_shape_types_have_their_numbers(shape.shape_type, le_i32(bytes, at + 8));
    }
    if !l.single && at + 12 + l.counts_size() <= bytes.len() {
        lemma_same_numbers(whole, bytes, at + 12 + 32);
        lemma_same_numbers(whole, bytes, at + 12 + l.counts_size() - 4);
    }
}

/// A record with a null shape that is cut short gives the error of a short read.
pub proof fn law_cut_null_record_is_too_short(bytes: Seq<u8>, at: int, number: i32, size: i32)
    requires
        cut_short(bytes, at, null_record(number, size)),
    ensures
        parse_record(bytes, at) matches Err(error) && too_short(error),
{
    lemma_record_head(bytes, at, number, size, ShapeType::NullShape, Seq::empty());
}

/// A record with another number than that of a shape type gives an error with that number.
pub proof fn law_unknown_shape_type_is_reported(
    bytes: Seq<u8>,
    at: int,
    number: i32,
    size: i32,
    code: i32,
)
    requires
        0 <= at,
        stands_at(bytes, at, i32_be(number) + i32_be(size) + i32_le(code)),
        !is_type_number(code as int),
    ensures
        parse_record(bytes, at) == Err::<ParsedRecord, Error>(Error::InvalidShapeType(code)),
{
    let a = i32_be(number);
    let b = a + i32_be(size);
    lemma_pieces_stand(bytes, at, b, i32_le(code));
    law_i32_le_reads_back(bytes, at + 8, code);
    law_shape_types_have_their_numbers(ShapeType::NullShape, code as int);
}

/// A record that claims a size that no shape of its type with its counts has is refused for that.
pub proof fn law_wrong_record_size_is_reported(
    bytes: Seq<u8>,
    at: int,
    number: i32,
    size: i32,
    shape: ShapeView,
)
    requires
        0 <= at,
        fits_record(shape),
        stands_at(bytes, at, record_bytes(number, size, shape.shape_type, shape_bytes(shape))),
        forall|other: ShapeView|
            #![trigger shape_bytes(other)]
            is_proper(other) && other.shape_type == shape.shape_type && other.points.len()
                == shape.points.len() && other.parts.len() == shape.parts.len() ==> shape_bytes(
                other,
            ).len() != 2 * size - 4,
    ensures
        parse_record(bytes, at) == Err::<ParsedRecord, Error>(Error::InvalidShapeRecordSize),
{
    reveal(is_proper);
    let l = layout(shape.shape_type);
    lemma_counts_fit(shape);
    lemma_record_head(bytes, at, number, size, shape.shape_type, shape_bytes(shape));
    lemma_shape_stands(bytes, at + 12, shape);
    lemma_shape_size(shape);
    lemma_one_order(shape);
    law_shape_types_have_their_numbers(shape.shape_type, le_i32(bytes, at + 8));
    let bare = ShapeView { m_range: Seq::empty(), m: Seq::empty(), ..shape };
    let full = ShapeView {
        m_range: if l.single {
            Seq::empty()
        } else {
            seq![0u64, 0u64]
        },
        m: Seq::new(shape.points.len(), |i: int| 0u64),
        ..shape
    };
    if is_proper(bare) {
        lemma_shape_size(bare);
        assert(shape_bytes(bare).len() != 2 * size - 4);
    }
    if is_proper(full) {
        lemma_shape_size(full);
        assert(shape_bytes(full).len() != 2 * size - 4);
    }
}

/// A record of lines, rings or patches with a negative number of parts or points, or of a set of
/// points with a negative number of points, is refused for its size.
pub proof fn law_negative_counts_are_reported(
    bytes: Seq<u8>,
    at: int,
    number: i32,
    size: i32,
    shape_type: ShapeType,
    bbox: Seq<u64>,
    parts: i32,
    points: i32,
)
    requires
        0 <= at,
        bbox.len() == 4,
        match shape_type {
            ShapeType::NullShape | ShapeType::Point | ShapeType::PointM | ShapeType::PointZ => false,
            ShapeType::Multipoint | ShapeType::MultipointM | ShapeType::MultipointZ => {
                &&& points < 0
                &&& stands_at(
                    bytes,
                    at,
                    record_bytes(number, size, shape_type, u64s_le(bbox) + i32_le(points)),
                )
            },
            _ => {
                &&& parts < 0 || points < 0
                &&& stands_at(
                    bytes,
                    at,
                    record_bytes(
                        number,
                        size,
                        shape_type,
                        u64s_le(bbox) + i32_le(parts) + i32_le(points),
                    ),
                )
            },
        },
    ensures
        parse_record(bytes, at) == Err::<ParsedRecord, Error>(Error::InvalidShapeRecordSize),
{
    match shape_type {
        ShapeType::NullShape | ShapeType::Point | ShapeType::PointM | ShapeType::PointZ => {},
        ShapeType::Multipoint | ShapeType::MultipointM | ShapeType::MultipointZ => {
            let content = u64s_le(bbox) + i32_le(points);
            lemma_record_head(bytes, at, number, size, shape_type, content);
            lemma_one_count(bytes, at + 12, u64s_le(bbox), points);
            lemma_negative_counts(bytes, at, shape_type, size, 0, points);
        },
        _ => {
            let front = u64s_le(bbox) + i32_le(parts);
            lemma_record_head(bytes, at, number, size, shape_type, front + i32_le(points));
            lemma_one_count(bytes, at + 12, front, points);
            lemma_one_count(bytes, at + 12, u64s_le(bbox), parts);
            lemma_negative_counts(bytes, at, shape_type, size, parts as int, points);
        },
    }
}

/// A count that was written is read.
proof fn lemma_one_count(bytes: Seq<u8>, at: int, front: Seq<u8>, count: i32)
    requires
        0 <= at,
        stands_at(bytes, at, front + i32_le(count)),
    ensures
        stands_at(bytes, at, front),
        at + front.len() + 4 <= bytes.len(),
        le_i32(bytes, at + front.len()) == count,
{
    lemma_pieces_stand(bytes, at, front, i32_le(count));
    law_i32_le_reads_back(bytes, at + front.len(), count);
}

/// Counts below zero are not those of a shape.
proof fn lemma_negative_counts(
    bytes: Seq<u8>,
    at: int,
    shape_type: ShapeType,
    size: i32,
    parts: int,
    points: i32,
)
    requires
        0 <= at,
        be_i32(bytes, at + 4) == size,
        le_i32(bytes, at + 8) == type_number(shape_type),
        !(shape_type is NullShape),
        !layout(shape_type).single,
        at + 12 + layout(shape_type).counts_size() <= bytes.len(),
        layout(shape_type).parts ==> le_i32(bytes, at + 12 + 32) == parts,
        !layout(shape_type).parts ==> parts == 0,
        le_i32(bytes, at + 12 + layout(shape_type).counts_size() - 4) == points,
        parts < 0 || points < 0,
    ensures
        parse_record(bytes, at) == Err::<ParsedRecord, Error>(Error::InvalidShapeRecordSize),
{
    law_shape_types_have_their_numbers(shape_type, le_i32(bytes, at + 8));
}

/// How long a record is: its size tells, behind its head of eight bytes.
pub proof fn lemma_record_lengths(number: i32, shape: ShapeView)
    requires
        fits_record(shape),
    ensures
        shape_record(number, shape).len() == 8 + 2 * record_size(shape),
        record_size(shape) >= 2,
{
    lemma_counts_fit(shape);
}

/// How long a record with a null shape is.
pub proof fn lemma_null_record_length(number: i32, size: i32)
    ensures
        null_record(number, size).len() == 12,
{
}

} // verus!
