//! Walking the features of a shapefile: main file and table side by side.

use geozero_shp::error::{Error, GeozeroError};
use geozero_shp::header::{FILE_CODE, SIZE_OF_SKIP, ShapeType};
use geozero_shp::processor::{
    CallLog, ColumnValue, FeatureProcessor, GeomProcessor, LogKey, Observed, ProcessorSink,
    PropertyProcessor,
};
use geozero_shp::reader::{ShapeRecordIterator, ShpReader, process_entries};
use geozero_shp::shp_reader::Shape;

/// A main file with this many points, each record 28 bytes long.
fn shp(count: i32) -> Vec<u8> {
    let mut bytes = FILE_CODE.to_be_bytes().to_vec();
    bytes.extend_from_slice(&[0u8; SIZE_OF_SKIP]);
    bytes.extend_from_slice(&(50 + 14 * count).to_be_bytes());
    bytes.extend_from_slice(&1000i32.to_le_bytes());
    bytes.extend_from_slice(&ShapeType::Point.code().to_le_bytes());
    bytes.extend_from_slice(&[0u8; 64]);
    for n in 1..=count {
        bytes.extend_from_slice(&n.to_be_bytes());
        bytes.extend_from_slice(&10i32.to_be_bytes());
        bytes.extend_from_slice(&ShapeType::Point.code().to_le_bytes());
        bytes.extend_from_slice(&f64::from(n).to_le_bytes());
        bytes.extend_from_slice(&0.5f64.to_le_bytes());
    }
    bytes
}

fn field(name: &str, field_type: u8, length: u8) -> Vec<u8> {
    let mut bytes = name.as_bytes().to_vec();
    bytes.resize(11, 0);
    bytes.push(field_type);
    bytes.extend_from_slice(&[0u8; 4]);
    bytes.push(length);
    bytes.extend_from_slice(&[0u8; 15]);
    bytes
}

/// A table with these fields and these rows, each row with its mark.
fn table(fields: &[Vec<u8>], rows: &[&str]) -> Vec<u8> {
    let mut bytes = vec![3, 120, 1, 1];
    bytes.extend_from_slice(&(rows.len() as u32).to_le_bytes());
    bytes.extend_from_slice(&((33 + 32 * fields.len()) as u16).to_le_bytes());
    bytes.extend_from_slice(&(rows.first().map_or(1, |r| r.len()) as u16).to_le_bytes());
    bytes.extend_from_slice(&[0u8; 20]);
    for f in fields {
        bytes.extend_from_slice(f);
    }
    bytes.push(13);
    for row in rows {
        bytes.extend_from_slice(row.as_bytes());
    }
    bytes
}

/// A table with one field for names.
fn names(rows: &[&str]) -> Vec<u8> {
    table(&[field("NAME", b'C', 3)], rows)
}

fn reader(shp: Vec<u8>, dbf: Vec<u8>) -> ShpReader {
    let mut reader = ShpReader::new(shp).expect("header should parse");
    reader.add_dbf_source(dbf).unwrap();
    reader
}

fn drain<P: FeatureProcessor>(mut it: ShapeRecordIterator<'_, P>) -> (usize, usize) {
    const LIMIT: usize = 64;
    let (mut oks, mut errs) = (0, 0);
    for _ in 0..LIMIT {
        match it.next() {
            None => {
                assert!(it.next().is_none(), "iterator resumed after None");
                return (oks, errs);
            }
            Some(Ok(_)) => oks += 1,
            Some(Err(_)) => errs += 1,
        }
    }
    panic!("iterator still going after {LIMIT} items ({oks} Ok, {errs} Err)");
}

fn features(shp: Vec<u8>, dbf: Vec<u8>) -> (usize, usize) {
    let mut sink = ProcessorSink::new();
    drain(reader(shp, dbf).iter_features(&mut sink).unwrap())
}

/// Writes down its calls.
struct Recorder {
    log: CallLog,
    calls: Vec<String>,
    reply: fn(usize) -> Result<bool, GeozeroError>,
}

fn recorder() -> Recorder {
    Recorder {
        log: CallLog::new(),
        calls: Vec::new(),
        reply: |_| Ok(false),
    }
}

impl Recorder {
    fn note(&mut self, call: String) -> Result<(), GeozeroError> {
        self.calls.push(call);
        // The replies to calls of the frame make no difference.
        Err(GeozeroError::Feature("unheard".to_string()))
    }
}

impl Observed for Recorder {
    fn calls(&mut self, _key: &LogKey<Self>) -> &mut CallLog {
        &mut self.log
    }
}

impl GeomProcessor for Recorder {
    fn shape(&mut self, shape: &Shape) -> Result<(), GeozeroError> {
        let x = f64::from_bits(shape.points[0].0);
        self.calls.push(format!("shape {x}"));
        Ok(())
    }
}

impl PropertyProcessor for Recorder {
    fn property(
        &mut self,
        idx: usize,
        name: &str,
        value: &ColumnValue,
    ) -> Result<bool, GeozeroError> {
        self.calls.push(format!("property {idx} {name} {value:?}"));
        (self.reply)(idx)
    }
}

impl FeatureProcessor for Recorder {
    fn dataset_begin(&mut self, name: Option<&str>) -> Result<(), GeozeroError> {
        self.note(format!("dataset_begin {name:?}"))
    }

    fn dataset_end(&mut self) -> Result<(), GeozeroError> {
        self.note("dataset_end".to_string())
    }

    fn feature_begin(&mut self, idx: u64) -> Result<(), GeozeroError> {
        self.note(format!("feature_begin {idx}"))
    }

    fn feature_end(&mut self, idx: u64) -> Result<(), GeozeroError> {
        self.note(format!("feature_end {idx}"))
    }

    fn properties_begin(&mut self) -> Result<(), GeozeroError> {
        self.note("properties_begin".to_string())
    }

    fn properties_end(&mut self) -> Result<(), GeozeroError> {
        self.note("properties_end".to_string())
    }

    fn geometry_begin(&mut self) -> Result<(), GeozeroError> {
        self.note("geometry_begin".to_string())
    }

    fn geometry_end(&mut self) -> Result<(), GeozeroError> {
        self.note("geometry_end".to_string())
    }
}

#[test]
fn every_feature_of_a_well_formed_shapefile_comes() {
    assert_eq!(features(shp(3), names(&[" abc", " def", " ghi"])), (3, 0));
}

#[test]
fn features_stop_where_the_main_file_is_cut_short() {
    // 100 bytes of head, 28 of the first record, 10 of the second
    let rows = names(&[" abc", " def", " ghi"]);
    assert_eq!(features(shp(3)[..138].to_vec(), rows), (1, 1));
}

#[test]
fn features_stop_where_the_table_is_cut_short() {
    let rows = names(&[" abc", " def", " ghi"]);
    let cut = rows.len() - 6;
    assert_eq!(features(shp(3), rows[..cut].to_vec()), (1, 1));
    // a whole row is missing
    assert_eq!(features(shp(3), names(&[" abc", " def"])), (2, 1));
}

#[test]
fn features_stop_where_the_processor_refuses_a_property() {
    let mut processor = recorder();
    processor.reply = |_| Err(GeozeroError::Property("rejected".to_string()));
    let mut it = reader(shp(2), names(&[" abc", " def"]))
        .iter_features(&mut processor)
        .unwrap();
    match it.next() {
        Some(Err(Error::GeozeroError(GeozeroError::Property(text)))) => {
            assert_eq!(text, "rejected")
        }
        _ => panic!("the refusal should be reported"),
    }
    assert!(it.next().is_none());
    assert!(it.next().is_none());
    assert_eq!(
        processor.calls,
        vec![
            "dataset_begin None",
            "feature_begin 0",
            "properties_begin",
            "property 0 NAME Character(Some(\"abc\"))",
        ]
    );
}

struct FailingProperties(CallLog);

impl Observed for FailingProperties {
    fn calls(&mut self, _key: &LogKey<Self>) -> &mut CallLog {
        &mut self.0
    }
}

impl GeomProcessor for FailingProperties {}
impl FeatureProcessor for FailingProperties {}
impl PropertyProcessor for FailingProperties {
    fn property(
        &mut self,
        _idx: usize,
        _name: &str,
        _value: &ColumnValue,
    ) -> Result<bool, GeozeroError> {
        Err(GeozeroError::Property("rejected".to_string()))
    }
}

#[test]
fn a_processor_that_fails_on_properties_gets_no_feature() {
    let mut processor = FailingProperties(CallLog::new());
    let rows = names(&[" abc", " def"]);
    assert_eq!(
        drain(reader(shp(2), rows).iter_features(&mut processor).unwrap()),
        (0, 1)
    );
}

#[test]
fn replies_to_the_frame_change_nothing() {
    // the recorder replies with errors, the sink does not
    for (file, rows) in [
        (shp(3), names(&[" abc", " def", " ghi"])),
        (shp(3)[..138].to_vec(), names(&[" abc", " def", " ghi"])),
        (shp(3), names(&[" abc", " def"])),
    ] {
        let mut recorder = recorder();
        let mut sink = ProcessorSink::new();
        let mut one = reader(file.clone(), rows.clone())
            .iter_features(&mut recorder)
            .unwrap();
        let mut other = reader(file, rows).iter_features(&mut sink).unwrap();
        for _ in 0..5 {
            match (one.next(), other.next()) {
                (None, None) => {}
                (Some(Ok(x)), Some(Ok(y))) => assert_eq!(x.record, y.record),
                (Some(Err(x)), Some(Err(y))) => assert_eq!(format!("{x:?}"), format!("{y:?}")),
                _ => panic!("the replies made a difference"),
            }
            assert_eq!(one.featno, other.featno);
        }
    }
}

#[test]
fn features_come_as_geometries_do() {
    for file in [shp(0), shp(3), shp(3)[..138].to_vec(), shp(3)[..100].to_vec()] {
        let rows = names(&[" abc", " def", " ghi"]);
        let mut one = ProcessorSink::new();
        let mut other = ProcessorSink::new();
        let mut features = reader(file.clone(), rows).iter_features(&mut one).unwrap();
        let mut geometries = ShpReader::new(file).unwrap().iter_geometries(&mut other);
        for _ in 0..5 {
            match (features.next(), geometries.next()) {
                (None, None) | (Some(Ok(_)), Some(Ok(()))) => {}
                (Some(Err(x)), Some(Err(y))) => assert_eq!(format!("{x:?}"), format!("{y:?}")),
                _ => panic!("features and geometries differ"),
            }
        }
    }
}

#[test]
fn the_dataset_begins_once_and_ends_with_no_error() {
    let rows = || names(&[" abc", " def", " ghi"]);
    let count = |calls: &[String], start: &str| calls.iter().filter(|c| c.starts_with(start)).count();
    let mut processor = recorder();
    drain(reader(shp(3), rows()).iter_features(&mut processor).unwrap());
    assert_eq!(processor.calls[0], "dataset_begin None");
    assert_eq!(count(&processor.calls, "dataset_begin"), 1);

    let mut processor = recorder();
    let file = shp(3)[..138].to_vec();
    drain(reader(file, rows()).iter_features(&mut processor).unwrap());
    assert_eq!(count(&processor.calls, "dataset_begin"), 1);
    assert_eq!(count(&processor.calls, "dataset_end"), 0);
    assert_eq!(processor.calls.last().unwrap(), "geometry_begin");
}

#[test]
fn the_error_of_a_row_is_handed_on() {
    let rows = table(&[field("POP", b'N', 3)], &[" 123", " 12x"]);
    let mut dbf = dbase::Reader::new(std::io::Cursor::new(rows.clone())).unwrap();
    assert!(matches!(dbf.iter_records().next(), Some(Ok(_))));
    let expected = dbf.iter_records().next().unwrap().unwrap_err();
    let mut sink = ProcessorSink::new();
    let mut it = reader(shp(2), rows).iter_features(&mut sink).unwrap();
    assert!(matches!(it.next(), Some(Ok(_))));
    match it.next() {
        Some(Err(Error::DbaseError(error))) => {
            assert_eq!(format!("{error:?}"), format!("{expected:?}"))
        }
        _ => panic!("the row should not be read"),
    }
}

#[test]
fn features_are_told_in_their_frame() {
    let mut processor = recorder();
    let mut it = reader(shp(2), names(&[" abc", " def"]))
        .iter_features(&mut processor)
        .unwrap();
    let first = it.next().unwrap().unwrap();
    assert_eq!(
        first.record.get("NAME"),
        Some(&dbase::FieldValue::Character(Some("abc".to_string())))
    );
    assert_eq!(it.featno, 1);
    assert!(matches!(it.next(), Some(Ok(_))));
    assert_eq!(it.featno, 2);
    assert!(it.next().is_none());
    assert_eq!(
        processor.calls,
        vec![
            "dataset_begin None",
            "feature_begin 0",
            "properties_begin",
            "property 0 NAME Character(Some(\"abc\"))",
            "properties_end",
            "geometry_begin",
            "shape 1",
            "geometry_end",
            "feature_end 0",
            "feature_begin 1",
            "properties_begin",
            "property 0 NAME Character(Some(\"def\"))",
            "properties_end",
            "geometry_begin",
            "shape 2",
            "geometry_end",
            "feature_end 1",
            "dataset_end",
        ]
    );
}

#[test]
fn a_dataset_without_features_begins_and_ends() {
    let mut processor = recorder();
    let mut it = reader(shp(0), names(&[]))
        .iter_features(&mut processor)
        .unwrap();
    assert!(it.next().is_none());
    assert_eq!(processor.calls, vec!["dataset_begin None", "dataset_end"]);
}

#[test]
fn a_table_without_rows_ends_the_dataset() {
    let mut processor = recorder();
    let mut it = reader(shp(2), names(&[]))
        .iter_features(&mut processor)
        .unwrap();
    assert!(it.next().is_none());
    assert!(it.next().is_none());
    assert_eq!(it.shape_iter.current_pos, 100);
    assert_eq!(processor.calls, vec!["dataset_begin None", "dataset_end"]);
}

#[test]
fn a_row_that_cannot_be_read_is_not_told() {
    let mut processor = recorder();
    let rows = table(&[field("POP", b'N', 3)], &[" 12x"]);
    let mut it = reader(shp(1), rows).iter_features(&mut processor).unwrap();
    assert!(matches!(it.next(), Some(Err(Error::DbaseError(_)))));
    assert!(it.next().is_none());
    assert_eq!(it.shape_iter.current_pos, 100);
    assert_eq!(processor.calls, vec!["dataset_begin None"]);
}

#[test]
fn deleted_rows_are_passed_over() {
    let rows = names(&[" abc", "*xyz", " def"]);
    let mut sink = ProcessorSink::new();
    let mut it = reader(shp(2), rows).iter_features(&mut sink).unwrap();
    assert!(matches!(it.next(), Some(Ok(_))));
    let second = it.next().unwrap().unwrap();
    assert_eq!(
        second.record.get("NAME"),
        Some(&dbase::FieldValue::Character(Some("def".to_string())))
    );
    assert!(it.next().is_none());
}

#[test]
fn a_fault_of_the_main_file_leaves_the_feature_open() {
    let mut processor = recorder();
    let mut bytes = shp(1);
    bytes[108] = 60;
    let mut it = reader(bytes, names(&[" abc"]))
        .iter_features(&mut processor)
        .unwrap();
    assert!(matches!(
        it.next(),
        Some(Err(Error::InvalidShapeType(60)))
    ));
    assert!(it.next().is_none());
    assert_eq!(it.featno, 0);
    assert_eq!(processor.calls.last().unwrap(), "geometry_begin");
    assert_eq!(processor.calls.len(), 6);
}

#[test]
fn features_have_the_rows_of_the_whole_table() {
    let rows = || names(&[" abc", "*xyz", " def", " ghi"]);
    let records = reader(shp(3), rows()).read_records().unwrap();
    assert_eq!(records.len(), 3);
    let mut sink = ProcessorSink::new();
    let mut it = reader(shp(3), rows()).iter_features(&mut sink).unwrap();
    for record in records {
        assert_eq!(it.next().unwrap().unwrap().record, record);
    }
    assert!(it.next().is_none());
}

#[test]
fn all_fields_are_handed_over_once() {
    let fields = [field("NAME", b'C', 3), field("POP", b'N', 2)];
    let mut processor = recorder();
    let mut it = reader(shp(1), table(&fields, &[" abc42"]))
        .iter_features(&mut processor)
        .unwrap();
    let record = it.next().unwrap().unwrap();
    let mut told: Vec<String> = processor.calls[3..5]
        .iter()
        .map(|c| c[11..].to_string())
        .collect();
    told.sort();
    assert_eq!(
        told,
        vec!["NAME Character(Some(\"abc\"))", "POP Numeric(Some(42.0))"]
    );
    assert_eq!(processor.calls[5], "properties_end");

    let mut second = recorder();
    assert!(matches!(record.process_properties(&mut second), Ok(false)));
    assert_eq!(second.calls.len(), 2);
}

#[test]
fn properties_stop_where_the_processor_has_enough() {
    let entries: Vec<(String, dbase::FieldValue)> = (0..4)
        .map(|i| (format!("F{i}"), dbase::FieldValue::Integer(i)))
        .collect();
    let mut processor = recorder();
    processor.reply = |idx| Ok(idx == 2);
    assert!(matches!(process_entries(&entries, &mut processor), Ok(true)));
    assert_eq!(
        processor.calls,
        vec![
            "property 0 F0 Integer(0)",
            "property 1 F1 Integer(1)",
            "property 2 F2 Integer(2)",
        ]
    );

    let mut processor = recorder();
    assert!(matches!(process_entries(&entries, &mut processor), Ok(false)));
    assert_eq!(processor.calls.len(), 4);
    let mut processor = recorder();
    assert!(matches!(process_entries(&Vec::new(), &mut processor), Ok(false)));
    assert!(processor.calls.is_empty());
}

#[test]
fn properties_that_are_cut_short_do_not_end_the_feature() {
    let mut processor = recorder();
    processor.reply = |_| Ok(true);
    assert_eq!(
        drain(
            reader(shp(1), names(&[" abc"]))
                .iter_features(&mut processor)
                .unwrap()
        ),
        (1, 0)
    );
}

#[test]
fn an_ended_dataset_ends_again_when_asked() {
    let mut processor = recorder();
    let mut it = reader(shp(1), names(&[" abc"]))
        .iter_features(&mut processor)
        .unwrap();
    assert!(matches!(it.next(), Some(Ok(_))));
    assert!(it.next().is_none());
    assert!(it.next().is_none());
    let ends = processor.calls.iter().filter(|c| *c == "dataset_end");
    assert_eq!(ends.count(), 2);
}
