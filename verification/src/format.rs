//! The format of shapefiles, told by how they are written, and that reading gives back what was
//! written.

use crate::encoding::{
    i32_be, i32_le, law_i32_be_reads_back, law_i32_le_reads_back, law_u64s_read_back,
    lemma_pieces_stand, stands_at, u64s_le,
};
use crate::error::Error;
use crate::header::{Bounds, HEADER_SIZE, Header, ShapeType, lemma_code_is_unique, parse_header};
use crate::shx_reader::{ShapeIndex, index_entries, parse_index};
use crate::source::{be_i32, le_i32, le_u64, le_u64s, read_past_end};
use vstd::prelude::*;

verus! {

/// The number of each shape type in the format.
pub open spec fn type_number(shape_type: ShapeType) -> i32 {
    match shape_type {
        ShapeType::NullShape => 0,
        ShapeType::Point => 1,
        ShapeType::Polyline => 3,
        ShapeType::Polygon => 5,
        ShapeType::Multipoint => 8,
        ShapeType::PointZ => 11,
        ShapeType::PolylineZ => 13,
        ShapeType::PolygonZ => 15,
        ShapeType::MultipointZ => 18,
        ShapeType::PointM => 21,
        ShapeType::PolylineM => 23,
        ShapeType::PolygonM => 25,
        ShapeType::MultipointM => 28,
        ShapeType::Multipatch => 31,
    }
}

/// Whether a number is that of a shape type.
pub open spec fn is_type_number(number: int) -> bool {
    ||| number == 0
    ||| number == 1
    ||| number == 3
    ||| number == 5
    ||| number == 8
    ||| number == 11
    ||| number == 13
    ||| number == 15
    ||| number == 18
    ||| number == 21
    ||| number == 23
    ||| number == 25
    ||| number == 28
    ||| number == 31
}

/// The numbers of the shape types are those of the format, and no others stand for a type.
pub proof fn law_shape_types_have_their_numbers(shape_type: ShapeType, number: int)
    ensures
        shape_type.spec_code() == type_number(shape_type),
        ShapeType::of_code(type_number(shape_type) as int) == shape_type,
        ShapeType::is_code(number) <==> is_type_number(number),
        ShapeType::of_code(0) is NullShape,
        ShapeType::of_code(1) is Point,
        ShapeType::of_code(3) is Polyline,
        ShapeType::of_code(5) is Polygon,
        ShapeType::of_code(8) is Multipoint,
        ShapeType::of_code(11) is PointZ,
        ShapeType::of_code(13) is PolylineZ,
        ShapeType::of_code(15) is PolygonZ,
        ShapeType::of_code(18) is MultipointZ,
        ShapeType::of_code(21) is PointM,
        ShapeType::of_code(23) is PolylineM,
        ShapeType::of_code(25) is PolygonM,
        ShapeType::of_code(28) is MultipointM,
        ShapeType::of_code(31) is Multipatch,
{
    lemma_code_is_unique(shape_type);
    lemma_code_is_unique(ShapeType::NullShape);
    lemma_code_is_unique(ShapeType::Point);
    lemma_code_is_unique(ShapeType::Polyline);
    lemma_code_is_unique(ShapeType::Polygon);
    lemma_code_is_unique(ShapeType::Multipoint);
    lemma_code_is_unique(ShapeType::PointZ);
    lemma_code_is_unique(ShapeType::PolylineZ);
    lemma_code_is_unique(ShapeType::PolygonZ);
    lemma_code_is_unique(ShapeType::MultipointZ);
    lemma_code_is_unique(ShapeType::PointM);
    lemma_code_is_unique(ShapeType::PolylineM);
    lemma_code_is_unique(ShapeType::PolygonM);
    lemma_code_is_unique(ShapeType::MultipointM);
    lemma_code_is_unique(ShapeType::Multipatch);
}

/// The error of a read that the bytes are too short for.
pub open spec fn too_short(error: Error) -> bool {
    error matches Error::IoError(e) && e == read_past_end(Seq::empty())
}

/// The bounds of a head, in the order in which they stand in the file.
pub open spec fn bounds_in_order(bounds: Bounds) -> Seq<u64> {
    seq![
        bounds.x_min,
        bounds.y_min,
        bounds.x_max,
        bounds.y_max,
        bounds.z_min,
        bounds.z_max,
        bounds.m_min,
        bounds.m_max,
    ]
}

/// A head: the file code, unused bytes, the length, the version, the shape type, the bounds.
#[verifier::opaque]
pub open spec fn header_bytes(unused: Seq<u8>, header: Header) -> Seq<u8> {
    i32_be(9994) + unused + i32_be(header.file_length) + i32_le(header.version) + i32_le(
        type_number(header.shape_type),
    ) + u64s_le(bounds_in_order(header.bounds))
}

/// Reading a head gives the head that was written, and only that.
pub proof fn law_header_reads_back(bytes: Seq<u8>, at: int, unused: Seq<u8>, header: Header)
    requires
        0 <= at,
        stands_at(bytes, at + 4, unused),
        unused.len() == 20,
    ensures
        stands_at(bytes, at, header_bytes(unused, header)) <==> parse_header(bytes, at) == Ok::<
            Header,
            Error,
        >(header),
{
    reveal(header_bytes);
    let a = i32_be(9994);
    let b = a + unused;
    let c = b + i32_be(header.file_length);
    let d = c + i32_le(header.version);
    let e = d + i32_le(type_number(header.shape_type));
    let bounds = bounds_in_order(header.bounds);
    lemma_pieces_stand(bytes, at, a, unused);
    lemma_pieces_stand(bytes, at, b, i32_be(header.file_length));
    lemma_pieces_stand(bytes, at, c, i32_le(header.version));
    lemma_pieces_stand(bytes, at, d, i32_le(type_number(header.shape_type)));
    lemma_pieces_stand(bytes, at, e, u64s_le(bounds));
    if at + 100 <= bytes.len() {
        law_i32_be_reads_back(bytes, at, 9994);
        law_i32_be_reads_back(bytes, at + 24, header.file_length);
        law_i32_le_reads_back(bytes, at + 28, header.version);
        law_i32_le_reads_back(bytes, at + 32, type_number(header.shape_type));
        law_u64s_read_back(bytes, at + 36, bounds);
        law_shape_types_have_their_numbers(header.shape_type, le_i32(bytes, at + 32));
        law_shape_types_have_their_numbers(
            ShapeType::of_code(le_i32(bytes, at + 32)),
            le_i32(bytes, at + 32),
        );
        let read = le_u64s(bytes, at + 36, 8);
        lemma_u64_range(bytes, at + 36);
        lemma_u64_range(bytes, at + 44);
        lemma_u64_range(bytes, at + 52);
        lemma_u64_range(bytes, at + 60);
        lemma_u64_range(bytes, at + 68);
        lemma_u64_range(bytes, at + 76);
        lemma_u64_range(bytes, at + 84);
        lemma_u64_range(bytes, at + 92);
        if read == bounds {
            assert(read[0] == bounds[0] && read[1] == bounds[1] && read[2] == bounds[2] && read[3]
                == bounds[3] && read[4] == bounds[4] && read[5] == bounds[5] && read[6]
                == bounds[6] && read[7] == bounds[7]);
        }
        if parse_header(bytes, at) == Ok::<Header, Error>(header) {
            assert forall|k: int| 0 <= k < 8 implies #[trigger] read[k] == bounds[k] by {
                assert(k == 0 || k == 1 || k == 2 || k == 3 || k == 4 || k == 5 || k == 6 || k
                    == 7);
            }
            assert(read =~= bounds);
        }
    }
}

/// What eight bytes hold fits in 64 bits.
proof fn lemma_u64_range(bytes: Seq<u8>, at: int)
    ensures
        0 <= le_u64(bytes, at) <= u64::MAX,
{
}

/// Whether the bytes from `at` to their end are the start of `written`, and not all of it.
pub open spec fn cut_short(bytes: Seq<u8>, at: int, written: Seq<u8>) -> bool {
    &&& 0 <= at <= bytes.len() < at + written.len()
    &&& forall|k: int| at <= k < bytes.len() ==> #[trigger] bytes[k] == written[k - at]
}

/// What is cut short stands whole in the bytes with the rest behind them.
pub proof fn lemma_cut_short(bytes: Seq<u8>, at: int, written: Seq<u8>) -> (whole: Seq<u8>)
    requires
        cut_short(bytes, at, written),
    ensures
        whole.len() == at + written.len(),
        stands_at(whole, at, written),
        forall|k: int| 0 <= k < bytes.len() ==> #[trigger] whole[k] == bytes[k],
{
    let whole = bytes + written.skip(bytes.len() - at);
    assert forall|k: int| 0 <= k < written.len() implies #[trigger] written[k] == whole[at + k] by {
        if at + k < bytes.len() {
            assert(bytes[at + k] == written[at + k - at]);
        }
    }
    whole
}

/// A head that is cut short, wherever that is, gives the error of a short read.
pub proof fn law_cut_header_is_too_short(bytes: Seq<u8>, at: int, unused: Seq<u8>, header: Header)
    requires
        unused.len() == 20,
        cut_short(bytes, at, header_bytes(unused, header)),
    ensures
        parse_header(bytes, at) matches Err(error) && too_short(error),
{
    let whole = lemma_cut_short(bytes, at, header_bytes(unused, header));
    lemma_header_stands(whole, at, unused, header);
    if at + 4 <= bytes.len() {
        lemma_same_numbers(whole, bytes, at);
    }
    if at + 36 <= bytes.len() {
        lemma_same_numbers(whole, bytes, at + 32);
    }
}

/// Where bytes agree, so do the numbers in them.
pub proof fn lemma_same_numbers(whole: Seq<u8>, bytes: Seq<u8>, at: int)
    requires
        0 <= at,
        at + 4 <= bytes.len(),
        forall|k: int| 0 <= k < bytes.len() ==> #[trigger] whole[k] == bytes[k],
    ensures
        be_i32(whole, at) == be_i32(bytes, at),
        le_i32(whole, at) == le_i32(bytes, at),
{
    assert(whole[at] == bytes[at] && whole[at + 1] == bytes[at + 1] && whole[at + 2] == bytes[at
        + 2] && whole[at + 3] == bytes[at + 3]);
}

/// A head that starts with another number than the file code, or has another number than that of
/// a shape type, gives an error with that number.
pub proof fn law_wrong_header_is_reported(bytes: Seq<u8>, at: int, number: i32)
    requires
        0 <= at,
    ensures
        stands_at(bytes, at, i32_be(number)) && number != 9994 ==> parse_header(bytes, at) == Err::<
            Header,
            Error,
        >(Error::InvalidFileCode(number)),
        stands_at(bytes, at, i32_be(9994)) && stands_at(bytes, at + 32, i32_le(number))
            && !is_type_number(number as int) ==> parse_header(bytes, at) == Err::<Header, Error>(
            Error::InvalidShapeType(number),
        ),
{
    law_shape_types_have_their_numbers(ShapeType::NullShape, number as int);
    if at + 4 <= bytes.len() {
        law_i32_be_reads_back(bytes, at, number);
        law_i32_be_reads_back(bytes, at, 9994);
    }
    if at + 36 <= bytes.len() {
        law_i32_le_reads_back(bytes, at + 32, number);
    }
}

/// The entries of an index, each with its offset and its size.
#[verifier::opaque]
pub open spec fn entries_bytes(entries: Seq<ShapeIndex>) -> Seq<u8> {
    Seq::new(
        8 * entries.len(),
        |k: int|
            if k % 8 < 4 {
                i32_be(entries[k / 8].offset)[k % 8]
            } else {
                i32_be(entries[k / 8].record_size)[k % 8 - 4]
            },
    )
}

/// Reading an index gives the entries that were written, and only those. The length in the head
/// may be up to three words more than the entries take.
pub proof fn law_index_reads_back(
    bytes: Seq<u8>,
    unused: Seq<u8>,
    header: Header,
    entries: Seq<ShapeIndex>,
)
    requires
        unused.len() == 20,
        stands_at(bytes, 0, header_bytes(unused, header)),
        50 + 4 * entries.len() <= header.file_length < 54 + 4 * entries.len(),
    ensures
        stands_at(bytes, 100, entries_bytes(entries)) <==> parse_index(bytes) == Ok::<
            Seq<ShapeIndex>,
            Error,
        >(entries),
{
    lemma_header_stands(bytes, 0, unused, header);
    let n = entries.len() as int;
    lemma_entries_stand(bytes, entries);
    if HEADER_SIZE + 8 * n <= bytes.len() {
        assert(parse_index(bytes) == Ok::<Seq<ShapeIndex>, Error>(index_entries(bytes, 100, n)));
    }
}

/// Entries of an index stand in the bytes where reading there gives them.
proof fn lemma_entries_stand(bytes: Seq<u8>, entries: Seq<ShapeIndex>)
    ensures
        entries_bytes(entries).len() == 8 * entries.len(),
        100 + 8 * entries.len() <= bytes.len() ==> (stands_at(bytes, 100, entries_bytes(entries))
            <==> index_entries(bytes, 100, entries.len() as int) == entries),
{
    reveal(entries_bytes);
    let w = entries_bytes(entries);
    let n = entries.len() as int;
    let read = index_entries(bytes, 100, n);
    if 100 + 8 * n <= bytes.len() {
        if stands_at(bytes, 100, w) {
            assert forall|i: int| 0 <= i < n implies #[trigger] read[i] == entries[i] by {
                lemma_entry_stands(bytes, entries, i);
                law_i32_be_reads_back(bytes, 100 + 8 * i, entries[i].offset);
                law_i32_be_reads_back(bytes, 100 + 8 * i + 4, entries[i].record_size);
            }
            assert(read =~= entries);
        }
        if read == entries {
            assert forall|k: int| 0 <= k < w.len() implies #[trigger] w[k] == bytes[100 + k] by {
                let i = k / 8;
                assert(read[i] == entries[i]);
                lemma_be_range(bytes, 100 + 8 * i);
                lemma_be_range(bytes, 100 + 8 * i + 4);
                law_i32_be_reads_back(bytes, 100 + 8 * i, entries[i].offset);
                law_i32_be_reads_back(bytes, 100 + 8 * i + 4, entries[i].record_size);
                if k % 8 < 4 {
                    assert(i32_be(entries[i].offset)[k % 8] == bytes[100 + 8 * i + k % 8]);
                } else {
                    assert(i32_be(entries[i].record_size)[k % 8 - 4] == bytes[100 + 8 * i + 4 + (k
                        % 8 - 4)]);
                }
            }
        }
    }
}

/// Where the entries of an index stand, each of them does.
proof fn lemma_entry_stands(bytes: Seq<u8>, entries: Seq<ShapeIndex>, i: int)
    requires
        stands_at(bytes, 100, entries_bytes(entries)),
        0 <= i < entries.len(),
    ensures
        stands_at(bytes, 100 + 8 * i, i32_be(entries[i].offset)),
        stands_at(bytes, 100 + 8 * i + 4, i32_be(entries[i].record_size)),
{
    reveal(entries_bytes);
    let w = entries_bytes(entries);
    let offset = i32_be(entries[i].offset);
    let size = i32_be(entries[i].record_size);
    assert forall|k: int| 0 <= k < offset.len() implies #[trigger] offset[k] == bytes[100 + 8 * i
        + k] by {
        assert(w[8 * i + k] == bytes[100 + (8 * i + k)]);
        assert((8 * i + k) / 8 == i && (8 * i + k) % 8 == k);
    }
    assert forall|k: int| 0 <= k < size.len() implies #[trigger] size[k] == bytes[100 + 8 * i + 4
        + k] by {
        assert(w[8 * i + 4 + k] == bytes[100 + (8 * i + 4 + k)]);
        assert((8 * i + 4 + k) / 8 == i && (8 * i + 4 + k) % 8 == k + 4);
    }
}

/// What four bytes hold fits in 32 bits.
proof fn lemma_be_range(bytes: Seq<u8>, at: int)
    ensures
        i32::MIN <= be_i32(bytes, at) <= i32::MAX,
        i32::MIN <= le_i32(bytes, at) <= i32::MAX,
{
}

/// A head that stands somewhere is what reading there gives.
pub proof fn lemma_header_stands(bytes: Seq<u8>, at: int, unused: Seq<u8>, header: Header)
    requires
        unused.len() == 20,
        stands_at(bytes, at, header_bytes(unused, header)),
    ensures
        parse_header(bytes, at) == Ok::<Header, Error>(header),
        at + 100 <= bytes.len(),
        header_bytes(unused, header).len() == 100,
{
    reveal(header_bytes);
    let a = i32_be(9994);
    let b = a + unused;
    let c = b + i32_be(header.file_length);
    let d = c + i32_le(header.version);
    let e = d + i32_le(type_number(header.shape_type));
    lemma_pieces_stand(bytes, at, e, u64s_le(bounds_in_order(header.bounds)));
    lemma_pieces_stand(bytes, at, d, i32_le(type_number(header.shape_type)));
    lemma_pieces_stand(bytes, at, c, i32_le(header.version));
    lemma_pieces_stand(bytes, at, b, i32_be(header.file_length));
    lemma_pieces_stand(bytes, at, a, unused);
    law_header_reads_back(bytes, at, unused, header);
}

/// An index that says of itself that it ends with its head has no entries; one whose bytes end
/// before its entries do gives the error of a short read; one with a wrong head gives the error
/// of the head.
pub proof fn law_index_without_its_entries(
    bytes: Seq<u8>,
    unused: Seq<u8>,
    header: Header,
    missing: int,
)
    requires
        unused.len() == 20,
    ensures
        stands_at(bytes, 0, header_bytes(unused, header)) && header.file_length < 54
            ==> parse_index(bytes) == Ok::<Seq<ShapeIndex>, Error>(Seq::empty()),
        stands_at(bytes, 0, header_bytes(unused, header)) && 0 < missing && header.file_length
            >= 50 + 4 * missing && bytes.len() < 100 + 8 * missing ==> (parse_index(
            bytes,
        ) matches Err(error) && too_short(error)),
        parse_header(bytes, 0) matches Err(error) ==> parse_index(bytes) == Err::<
            Seq<ShapeIndex>,
            Error,
        >(error),
{
    if stands_at(bytes, 0, header_bytes(unused, header)) {
        lemma_header_stands(bytes, 0, unused, header);
        if header.file_length < 54 {
            assert(parse_index(bytes)->Ok_0 =~= Seq::<ShapeIndex>::empty());
        }
    }
}

} // verus!
