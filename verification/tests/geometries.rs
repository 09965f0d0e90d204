//! Walking the geometries of a main file.

use geozero_shp::error::{Error, GeozeroError};
use geozero_shp::header::{FILE_CODE, HEADER_SIZE, SIZE_OF_SKIP, ShapeType};
use geozero_shp::processor::{
    CallLog, ColumnValue, FeatureProcessor, GeomProcessor, LogKey, Observed, ProcessorSink,
    PropertyProcessor,
};
use geozero_shp::reader::{ShapeIterator, ShpReader, next_position};
use geozero_shp::shp_reader::Shape;

/// Whether this is the error of a read that the bytes are too short for.
fn is_eof<T>(result: Result<T, Error>) -> bool {
    matches!(result, Err(Error::IoError(e)) if e.kind() == std::io::ErrorKind::UnexpectedEof)
}

/// One shape record: 8-byte header (number, size in 16-bit words, both
/// big-endian) followed by the shape body.
fn shape_record(number: i32, size_16_bit: i32, body: &[u8]) -> Vec<u8> {
    let mut r = number.to_be_bytes().to_vec();
    r.extend_from_slice(&size_16_bit.to_be_bytes());
    r.extend_from_slice(body);
    r
}

fn point_body(x: f64, y: f64) -> Vec<u8> {
    let mut b = ShapeType::Point.code().to_le_bytes().to_vec();
    b.extend_from_slice(&x.to_le_bytes());
    b.extend_from_slice(&y.to_le_bytes());
    b
}

/// `file_length` (in 16-bit words) for a shapefile of exactly `bytes` bytes.
fn words(bytes: usize) -> i32 {
    i32::try_from(bytes / 2).unwrap()
}

/// Pull at most `LIMIT` items and return `(ok_count, err_count)`.
///
/// Panics if the iterator has not finished by then, so a non-terminating
/// iterator fails the test instead of hanging it. Also asserts the iterator
/// stays exhausted.
fn drain<P: GeomProcessor>(mut it: ShapeIterator<'_, P>) -> (usize, usize) {
    const LIMIT: usize = 64;
    let (mut oks, mut errs) = (0, 0);
    for _ in 0..LIMIT {
        match it.next() {
            None => {
                assert!(it.next().is_none(), "iterator resumed after None");
                return (oks, errs);
            }
            Some(Ok(_)) => oks += 1,
            Some(Err(_)) => errs += 1,
        }
    }
    panic!("iterator still going after {LIMIT} items ({oks} Ok, {errs} Err)");
}

fn geometries(bytes: Vec<u8>) -> (usize, usize) {
    let reader = ShpReader::new(bytes).expect("header should parse");
    let mut sink = ProcessorSink::new();
    drain(reader.iter_geometries(&mut sink))
}

/// A well-formed 100-byte main header with a caller-chosen `file_length`
fn raw_header(file_length_16_bit: i32) -> Vec<u8> {
    let mut h = Vec::with_capacity(HEADER_SIZE as usize);
    h.extend_from_slice(&FILE_CODE.to_be_bytes());
    h.extend_from_slice(&[0u8; SIZE_OF_SKIP]);
    h.extend_from_slice(&file_length_16_bit.to_be_bytes());
    h.extend_from_slice(&1000i32.to_le_bytes()); // version
    h.extend_from_slice(&ShapeType::Polygon.code().to_le_bytes());
    h.extend_from_slice(&[0u8; 64]); // 8 x f64 bbox
    assert_eq!(h.len(), HEADER_SIZE as usize);
    h
}

#[test]
fn truncated_file_reports_one_error_and_stops() {
    // The header is entirely well formed and claims 1000 bytes; the file is
    // the 100-byte header alone. Every truncated download looks like this.
    assert_eq!(geometries(raw_header(500)), (0, 1));
}

#[test]
fn truncation_after_a_valid_record_reports_one_error_and_stops() {
    let mut bytes = raw_header(5000);
    bytes.extend(shape_record(1, 10, &point_body(1.0, 2.0)));
    assert_eq!(geometries(bytes), (1, 1));
}

#[test]
fn invalid_shape_type_reports_one_error_and_stops() {
    let mut body = 60i32.to_le_bytes().to_vec(); // not a ShapeType
    body.extend_from_slice(&[0u8; 16]);
    let mut bytes = raw_header(5000);
    bytes.extend(shape_record(1, 10, &body));
    assert_eq!(geometries(bytes), (0, 1));
}

#[test]
fn negative_record_size_is_rejected_not_panicked() {
    let mut bytes = raw_header(5000);
    bytes.extend(shape_record(1, -1, &[0u8; 32]));
    assert_eq!(geometries(bytes), (0, 1));
}

#[test]
fn huge_file_length_does_not_overflow_the_iteration_extent() {
    assert_eq!(geometries(raw_header(i32::MAX)), (0, 1));
}

#[test]
fn header_only_file_yields_no_geometries() {
    assert_eq!(geometries(raw_header(HEADER_SIZE / 2)), (0, 0));
}

#[test]
fn well_formed_file_yields_every_record() {
    let records: Vec<u8> = (1..=3)
        .flat_map(|n| shape_record(n, 10, &point_body(f64::from(n), 2.0)))
        .collect();
    let mut bytes = raw_header(words(HEADER_SIZE as usize + records.len()));
    bytes.extend(records);
    assert_eq!(geometries(bytes), (3, 0));
}

/// Keeps the shapes it is handed, and refuses the one with this number.
struct Collector {
    calls: CallLog,
    shapes: Vec<Shape>,
    refused: usize,
}

impl Observed for Collector {
    fn calls(&mut self, _key: &LogKey<Self>) -> &mut CallLog {
        &mut self.calls
    }
}

impl GeomProcessor for Collector {
    fn shape(&mut self, shape: &Shape) -> Result<(), GeozeroError> {
        self.shapes.push(shape.clone());
        if self.shapes.len() == self.refused + 1 {
            return Err(GeozeroError::Geometry("refused".to_string()));
        }
        Ok(())
    }
}

impl PropertyProcessor for Collector {
    fn property(
        &mut self,
        _idx: usize,
        _name: &str,
        _value: &ColumnValue,
    ) -> Result<bool, GeozeroError> {
        Ok(false)
    }
}

impl FeatureProcessor for Collector {}

fn collector() -> Collector {
    Collector {
        calls: CallLog::new(),
        shapes: Vec::new(),
        refused: usize::MAX - 1,
    }
}

/// The first result, and the shapes, of a file with these records.
fn first(records: Vec<u8>) -> (Result<(), Error>, Vec<Shape>) {
    let mut bytes = raw_header(words(HEADER_SIZE as usize + records.len()));
    bytes.extend(records);
    let mut processor = collector();
    let result = ShpReader::new(bytes)
        .unwrap()
        .iter_geometries(&mut processor)
        .next()
        .unwrap();
    (result, processor.shapes)
}

fn doubles(values: &[f64]) -> Vec<u8> {
    values.iter().flat_map(|v| v.to_le_bytes()).collect()
}

fn ints(values: &[i32]) -> Vec<u8> {
    values.iter().flat_map(|v| v.to_le_bytes()).collect()
}

fn bits(values: &[f64]) -> Vec<u64> {
    values.iter().map(|v| v.to_bits()).collect()
}

fn points(values: &[(f64, f64)]) -> Vec<(u64, u64)> {
    values
        .iter()
        .map(|(x, y)| (x.to_bits(), y.to_bits()))
        .collect()
}

/// A record of this type with this content, its size told rightly.
fn record(shape_type: ShapeType, content: Vec<u8>) -> Vec<u8> {
    let mut body = shape_type.code().to_le_bytes().to_vec();
    body.extend(content);
    shape_record(1, words(body.len()), &body)
}

#[test]
fn shapes_reach_the_processor_in_order() {
    let records: Vec<u8> = (1..=3)
        .flat_map(|n| shape_record(n, 10, &point_body(f64::from(n), 2.0)))
        .collect();
    let mut bytes = raw_header(words(HEADER_SIZE as usize + records.len()));
    bytes.extend(records);
    let mut processor = collector();
    let mut it = ShpReader::new(bytes).unwrap().iter_geometries(&mut processor);
    assert!(matches!(it.next(), Some(Ok(()))));
    assert_eq!(it.current_pos, 128);
    assert!(matches!(it.next(), Some(Ok(()))));
    assert!(matches!(it.next(), Some(Ok(()))));
    assert_eq!(it.current_pos, 184);
    assert!(it.next().is_none());
    let xs: Vec<_> = processor.shapes.iter().map(|s| s.points.clone()).collect();
    assert_eq!(
        xs,
        vec![
            points(&[(1.0, 2.0)]),
            points(&[(2.0, 2.0)]),
            points(&[(3.0, 2.0)])
        ]
    );
}

#[test]
fn a_refused_shape_ends_the_geometries() {
    let records: Vec<u8> = (1..=3)
        .flat_map(|n| shape_record(n, 10, &point_body(f64::from(n), 2.0)))
        .collect();
    let mut bytes = raw_header(words(HEADER_SIZE as usize + records.len()));
    bytes.extend(records);
    let mut processor = Collector {
        calls: CallLog::new(),
        shapes: Vec::new(),
        refused: 1,
    };
    let mut it = ShpReader::new(bytes).unwrap().iter_geometries(&mut processor);
    assert!(matches!(it.next(), Some(Ok(()))));
    match it.next() {
        Some(Err(Error::GeozeroError(GeozeroError::Geometry(text)))) => assert_eq!(text, "refused"),
        _ => panic!("the refusal should be reported"),
    }
    assert!(it.next().is_none());
    assert!(it.next().is_none());
    assert_eq!(processor.shapes.len(), 2);
}

#[test]
fn each_fault_of_a_record_has_its_error() {
    let (result, shapes) = first(vec![0, 0, 0, 1]);
    assert!(is_eof(result));
    assert!(shapes.is_empty());

    let (result, _) = first(shape_record(1, 10, &60i32.to_le_bytes()));
    assert!(matches!(result, Err(Error::InvalidShapeType(60))));

    let (result, _) = first(shape_record(1, 11, &point_body(1.0, 2.0)));
    assert!(matches!(result, Err(Error::InvalidShapeRecordSize)));

    let (result, _) = first(shape_record(1, -1, &ints(&[0])));
    assert!(matches!(result, Err(Error::InvalidShapeRecordSize)));

    let (result, _) = first(shape_record(1, 10, &point_body(1.0, 2.0)[..19]));
    assert!(is_eof(result));
}

#[test]
fn a_cut_after_small_null_shapes_reports_one_error() {
    for size in [0, 1, 2] {
        let mut bytes = raw_header(500);
        bytes.extend(shape_record(1, size, &ints(&[0])));
        assert_eq!(geometries(bytes), (1, 1));
    }
    // a larger one takes the iterator to the end that the head tells
    let mut bytes = raw_header(500);
    bytes.extend(shape_record(1, 446, &ints(&[0])));
    assert_eq!(geometries(bytes), (1, 0));
}

#[test]
fn a_cut_among_points_reports_one_error() {
    // a polygon whose first point has an x of zero, cut behind that
    let mut body = ints(&[ShapeType::Polygon.code()]);
    body.extend(doubles(&[0.0; 4]));
    body.extend(ints(&[1, 4, 0]));
    body.extend(doubles(&[0.0]));
    let mut bytes = raw_header(500);
    bytes.extend(shape_record(1, 56, &body));
    assert_eq!(geometries(bytes), (0, 1));
}

#[test]
fn null_shapes_are_not_told() {
    let (result, shapes) = first(record(ShapeType::NullShape, Vec::new()));
    assert!(result.is_ok());
    assert!(shapes.is_empty());
}

#[test]
fn a_null_shape_of_another_size_moves_the_position_by_it() {
    let mut records = shape_record(1, 6, &ints(&[0]));
    records.extend(shape_record(2, 10, &point_body(1.0, 2.0)));
    let mut bytes = raw_header(words(HEADER_SIZE as usize + records.len()));
    bytes.extend(records);
    let mut processor = collector();
    let mut it = ShpReader::new(bytes).unwrap().iter_geometries(&mut processor);
    assert!(matches!(it.next(), Some(Ok(()))));
    assert_eq!(it.current_pos, 120);
    assert_eq!(it.source.pos, 112);
    assert!(matches!(it.next(), Some(Ok(()))));
    assert_eq!(it.current_pos, 148);
    assert!(it.next().is_none());
    assert_eq!(processor.shapes.len(), 1);
}

#[test]
fn points_with_heights_and_measures() {
    let (result, shapes) = first(record(ShapeType::PointM, doubles(&[1.0, 2.0, 3.0])));
    assert!(result.is_ok());
    assert_eq!(shapes[0].points, points(&[(1.0, 2.0)]));
    assert_eq!(shapes[0].m, bits(&[3.0]));
    assert!(shapes[0].z.is_empty());

    let (result, shapes) = first(record(ShapeType::PointZ, doubles(&[1.0, 2.0, 3.0])));
    assert!(result.is_ok());
    assert_eq!(shapes[0].z, bits(&[3.0]));
    assert!(shapes[0].m.is_empty());

    let (result, shapes) = first(record(ShapeType::PointZ, doubles(&[1.0, 2.0, 3.0, 4.0])));
    assert!(result.is_ok());
    assert_eq!(shapes[0].z, bits(&[3.0]));
    assert_eq!(shapes[0].m, bits(&[4.0]));

    let (result, _) = first(record(ShapeType::PointM, doubles(&[1.0, 2.0])));
    assert!(matches!(result, Err(Error::InvalidShapeRecordSize)));
}

#[test]
fn multipoint() {
    let mut content = doubles(&[1.0, 2.0, 3.0, 4.0]);
    content.extend(ints(&[2]));
    content.extend(doubles(&[1.0, 2.0, 3.0, 4.0]));
    let (result, shapes) = first(record(ShapeType::Multipoint, content.clone()));
    assert!(result.is_ok());
    assert_eq!(shapes[0].shape_type, ShapeType::Multipoint);
    assert_eq!(shapes[0].bbox, bits(&[1.0, 2.0, 3.0, 4.0]));
    assert_eq!(shapes[0].points, points(&[(1.0, 2.0), (3.0, 4.0)]));
    assert!(shapes[0].parts.is_empty());

    content[32] = 3;
    let (result, _) = first(record(ShapeType::Multipoint, content.clone()));
    assert!(matches!(result, Err(Error::InvalidShapeRecordSize)));
    content[35] = 0x80;
    let (result, _) = first(record(ShapeType::Multipoint, content));
    assert!(matches!(result, Err(Error::InvalidShapeRecordSize)));
}

#[test]
fn polygon_with_two_rings() {
    let ring = [0.0, 0.0, 0.0, 1.0, 1.0, 1.0, 0.0, 0.0];
    let mut content = doubles(&[0.0, 0.0, 1.0, 1.0]);
    content.extend(ints(&[2, 8, 0, 4]));
    content.extend(doubles(&ring));
    content.extend(doubles(&ring));
    let (result, shapes) = first(record(ShapeType::Polygon, content.clone()));
    assert!(result.is_ok());
    assert_eq!(shapes[0].parts, vec![0, 4]);
    assert_eq!(shapes[0].points.len(), 8);
    assert_eq!(shapes[0].points[5], (0f64.to_bits(), 1f64.to_bits()));
    assert!(shapes[0].patch_types.is_empty());

    // cut within the counts, and within the points
    let whole = record(ShapeType::Polygon, content);
    let (result, _) = first(whole[..50].to_vec());
    assert!(is_eof(result));
    let (result, _) = first(whole[..whole.len() - 1].to_vec());
    assert!(is_eof(result));
}

#[test]
fn polyline_with_heights_with_and_without_measures() {
    let mut content = doubles(&[0.0, 0.0, 1.0, 1.0]);
    content.extend(ints(&[1, 2, 0]));
    content.extend(doubles(&[0.0, 0.0, 1.0, 1.0]));
    content.extend(doubles(&[5.0, 6.0, 5.0, 6.0]));
    let (result, shapes) = first(record(ShapeType::PolylineZ, content.clone()));
    assert!(result.is_ok());
    assert_eq!(shapes[0].z_range, bits(&[5.0, 6.0]));
    assert_eq!(shapes[0].z, bits(&[5.0, 6.0]));
    assert!(shapes[0].m_range.is_empty());
    assert!(shapes[0].m.is_empty());

    content.extend(doubles(&[7.0, 8.0, 8.0, 7.0]));
    let (result, shapes) = first(record(ShapeType::PolylineZ, content));
    assert!(result.is_ok());
    assert_eq!(shapes[0].m_range, bits(&[7.0, 8.0]));
    assert_eq!(shapes[0].m, bits(&[8.0, 7.0]));
}

#[test]
fn multipatch() {
    let mut content = doubles(&[0.0, 0.0, 1.0, 1.0]);
    content.extend(ints(&[2, 2, 0, 1, 0, 5]));
    content.extend(doubles(&[0.0, 0.0, 1.0, 1.0]));
    content.extend(doubles(&[5.0, 6.0, 5.0, 6.0]));
    let (result, shapes) = first(record(ShapeType::Multipatch, content));
    assert!(result.is_ok());
    assert_eq!(shapes[0].parts, vec![0, 1]);
    assert_eq!(shapes[0].patch_types, vec![0, 5]);
    assert_eq!(shapes[0].points, points(&[(0.0, 0.0), (1.0, 1.0)]));
    assert_eq!(shapes[0].z, bits(&[5.0, 6.0]));
}

#[test]
fn a_negative_file_length_sets_no_end() {
    let mut sink = ProcessorSink::new();
    let it = ShpReader::new(raw_header(-1))
        .unwrap()
        .iter_geometries(&mut sink);
    assert_eq!(it.file_length, usize::MAX);
    assert_eq!(geometries(raw_header(-1)), (0, 1));
    let mut sink = ProcessorSink::new();
    let it = ShpReader::new(raw_header(i32::MAX))
        .unwrap()
        .iter_geometries(&mut sink);
    assert_eq!(it.file_length, 4294967294);
    assert_eq!(it.current_pos, 100);
}

#[test]
fn positions_move_by_head_and_size() {
    assert!(matches!(next_position(100, 10), Ok(128)));
    assert!(matches!(next_position(100, 0), Ok(108)));
    assert!(matches!(next_position(100, i32::MAX), Ok(4294967402)));
    assert!(matches!(
        next_position(100, -1),
        Err(Error::InvalidShapeRecordSize)
    ));
    assert!(matches!(next_position(usize::MAX - 10, 2), Ok(usize::MAX)));
}

#[test]
fn shape_types_are_found_by_their_numbers() {
    let codes: Vec<i32> = (-1..40)
        .filter(|code| ShapeType::from_code(*code).is_some())
        .collect();
    assert_eq!(
        codes,
        vec![0, 1, 3, 5, 8, 11, 13, 15, 18, 21, 23, 25, 28, 31]
    );
    for code in codes {
        assert_eq!(ShapeType::from_code(code).unwrap().code(), code);
    }
    assert_eq!(ShapeType::from_code(5), Some(ShapeType::Polygon));
}
