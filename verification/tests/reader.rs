//! The reader of a shapefile, apart from its iterators.

use geozero_shp::dbf::FieldInfo;
use geozero_shp::error::Error;
use geozero_shp::header::{Header, ShapeType};
use geozero_shp::processor::ProcessorSink;
use geozero_shp::reader::{ShpReader, keep_own_fields};
use geozero_shp::shx_reader::{ShapeIndex, read_index_file};
use geozero_shp::source::ByteSource;

/// Whether this is the error of a read that the bytes are too short for.
fn is_eof<T>(result: Result<T, Error>) -> bool {
    matches!(result, Err(Error::IoError(e)) if e.kind() == std::io::ErrorKind::UnexpectedEof)
}

fn head(file_length: i32, shape_type: i32) -> Vec<u8> {
    let mut bytes = 9994i32.to_be_bytes().to_vec();
    bytes.extend_from_slice(&[0u8; 20]);
    bytes.extend_from_slice(&file_length.to_be_bytes());
    bytes.extend_from_slice(&1000i32.to_le_bytes());
    bytes.extend_from_slice(&shape_type.to_le_bytes());
    for bound in 1..=8 {
        bytes.extend_from_slice(&f64::from(bound).to_le_bytes());
    }
    bytes
}

fn field(name: &str, field_type: u8, length: u8) -> Vec<u8> {
    let mut bytes = name.as_bytes().to_vec();
    bytes.resize(11, 0);
    bytes.push(field_type);
    bytes.extend_from_slice(&[0u8; 4]);
    bytes.push(length);
    bytes.extend_from_slice(&[0u8; 15]);
    bytes
}

fn table(fields: &[Vec<u8>], rows: &[&str]) -> Vec<u8> {
    let mut bytes = vec![3, 120, 1, 1];
    bytes.extend_from_slice(&(rows.len() as u32).to_le_bytes());
    bytes.extend_from_slice(&((33 + 32 * fields.len()) as u16).to_le_bytes());
    bytes.extend_from_slice(&(rows.first().map_or(1, |r| r.len()) as u16).to_le_bytes());
    bytes.extend_from_slice(&[0u8; 20]);
    for f in fields {
        bytes.extend_from_slice(f);
    }
    bytes.push(13);
    for row in rows {
        bytes.extend_from_slice(row.as_bytes());
    }
    bytes
}

fn with_table(rows: &[&str]) -> ShpReader {
    let fields = [field("NAME", b'C', 3), field("POP", b'N', 2)];
    let mut reader = ShpReader::new(head(50, 5)).unwrap();
    reader.add_dbf_source(table(&fields, rows)).unwrap();
    reader
}

#[test]
fn the_head_is_read() {
    let reader = ShpReader::new(head(50, 15)).unwrap();
    let header: &Header = reader.header();
    assert_eq!(header.file_length, 50);
    assert_eq!(header.version, 1000);
    assert_eq!(header.shape_type, ShapeType::PolygonZ);
    assert_eq!(header.bounds.x_min, 1f64.to_bits());
    assert_eq!(header.bounds.y_min, 2f64.to_bits());
    assert_eq!(header.bounds.x_max, 3f64.to_bits());
    assert_eq!(header.bounds.y_max, 4f64.to_bits());
    assert_eq!(header.bounds.z_min, 5f64.to_bits());
    assert_eq!(header.bounds.z_max, 6f64.to_bits());
    assert_eq!(header.bounds.m_min, 7f64.to_bits());
    assert_eq!(header.bounds.m_max, 8f64.to_bits());
    assert_eq!(reader.source.pos, 100);
}

#[test]
fn each_fault_of_the_head_has_its_error() {
    let mut bytes = head(50, 5);
    bytes[3] += 1;
    assert!(matches!(
        ShpReader::new(bytes),
        Err(Error::InvalidFileCode(9995))
    ));
    assert!(matches!(
        ShpReader::new(head(50, 2)),
        Err(Error::InvalidShapeType(2))
    ));
    assert!(matches!(
        ShpReader::new(head(50, -1)),
        Err(Error::InvalidShapeType(-1))
    ));
    for length in [0, 3, 4, 24, 30, 35, 36, 99] {
        assert!(is_eof(ShpReader::new(head(50, 5)[..length].to_vec())));
    }
}

#[test]
fn numbers_are_read_in_their_byte_order() {
    let mut source = ByteSource::new(vec![0xFF, 0xFF, 0xFF, 0xFE, 0xFE, 0xFF, 0xFF, 0xFF, 1, 2]);
    assert!(matches!(source.read_i32_be(), Ok(-2)));
    assert!(matches!(source.read_i32_le(), Ok(-2)));
    assert!(is_eof(source.read_i32_le()));
    assert!(source.skip(2).is_ok());
    assert!(is_eof(source.skip(1)));
    let mut source = ByteSource::new(vec![1, 2, 3, 4, 5, 6, 7, 8]);
    assert!(matches!(source.read_u64_le(), Ok(0x0807_0605_0403_0201)));
}

#[test]
fn the_index_is_read() {
    let mut bytes = head(58, 5);
    for number in [50i32, 10, 64, 12] {
        bytes.extend_from_slice(&number.to_be_bytes());
    }
    let entries = vec![
        ShapeIndex {
            offset: 50,
            record_size: 10,
        },
        ShapeIndex {
            offset: 64,
            record_size: 12,
        },
    ];
    assert_eq!(read_index_file(bytes.clone()).unwrap(), entries);
    let mut reader = ShpReader::new(head(50, 5)).unwrap();
    assert!(reader.shapes_index.is_none());
    assert!(reader.add_index_source(bytes.clone()).is_ok());
    assert_eq!(reader.shapes_index, Some(entries.clone()));

    // a failure leaves the index as it was
    bytes.pop();
    assert!(is_eof(reader.add_index_source(bytes)));
    assert!(matches!(
        reader.add_index_source(head(50, 2)),
        Err(Error::InvalidShapeType(2))
    ));
    assert_eq!(reader.shapes_index, Some(entries));
}

#[test]
fn an_index_can_be_empty() {
    assert!(read_index_file(head(50, 5)).unwrap().is_empty());
    assert!(read_index_file(head(0, 5)).unwrap().is_empty());
    assert!(read_index_file(head(-7, 5)).unwrap().is_empty());
    assert!(is_eof(read_index_file(head(i32::MAX, 5))));
}

#[test]
fn the_fields_of_the_table() {
    let fields = with_table(&[]).dbf_fields().unwrap();
    let told: Vec<(&str, u8, u8)> = fields
        .iter()
        .map(|f| (f.name.as_str(), f.field_type, f.length))
        .collect();
    assert_eq!(told, vec![("NAME", b'C', 3), ("POP", b'N', 2)]);
}

#[test]
fn the_mark_of_deleted_rows_is_no_field() {
    let info = |name: &str| FieldInfo {
        name: name.to_string(),
        field_type: b'C',
        length: 1,
    };
    let fields = vec![info("DeletionFlag"), info("A"), info("deletionflag"), info("B")];
    let names: Vec<String> = keep_own_fields(fields)
        .into_iter()
        .map(|f| f.name)
        .collect();
    assert_eq!(names, vec!["A", "deletionflag", "B"]);
}

#[test]
fn the_rows_of_the_table() {
    let records = with_table(&[" abc42", "*xyz 1", " def 7"])
        .read_records()
        .unwrap();
    assert_eq!(records.len(), 2);
    assert_eq!(
        records[0].get("NAME"),
        Some(&dbase::FieldValue::Character(Some("abc".to_string())))
    );
    assert_eq!(
        records[1].get("POP"),
        Some(&dbase::FieldValue::Numeric(Some(7.0)))
    );
    assert!(matches!(
        with_table(&[" abcxx"]).read_records(),
        Err(Error::DbaseError(_))
    ));
}

#[test]
fn a_table_that_is_none_is_refused() {
    let mut reader = with_table(&[]);
    assert!(matches!(
        reader.add_dbf_source(vec![3, 120]),
        Err(Error::DbaseError(_))
    ));
    // the table from before is kept
    assert_eq!(reader.dbf_fields().unwrap().len(), 2);
}

#[test]
fn without_a_table_what_needs_one_fails() {
    let reader = ShpReader::new(head(50, 5)).unwrap();
    assert!(matches!(reader.dbf_fields(), Err(Error::MissingDbf)));
    assert!(matches!(reader.read_records(), Err(Error::MissingDbf)));
    let reader = ShpReader::new(head(50, 5)).unwrap();
    let mut sink = ProcessorSink::new();
    assert!(matches!(
        reader.iter_features(&mut sink),
        Err(Error::MissingDbf)
    ));
    let reader = ShpReader::new(head(50, 5)).unwrap();
    let mut sink = ProcessorSink::new();
    assert!(reader.iter_geometries(&mut sink).next().is_none());
}

fn unreadable() -> Result<Vec<u8>, std::io::Error> {
    Err(std::io::Error::from(std::io::ErrorKind::PermissionDenied))
}

#[test]
fn files_that_are_missing_are_no_error() {
    let reader = ShpReader::from_files(Ok(head(50, 5)), None, None).unwrap();
    assert!(reader.shapes_index.is_none());
    assert!(reader.dbf_reader.is_none());
    let rows = table(&[field("NAME", b'C', 3)], &[" abc"]);
    let reader = ShpReader::from_files(Ok(head(50, 5)), Some(Ok(head(50, 5))), Some(Ok(rows)));
    let reader = reader.unwrap();
    assert_eq!(reader.shapes_index, Some(Vec::new()));
    assert_eq!(reader.dbf_fields().unwrap().len(), 1);
}

#[test]
fn reading_files_is_adding_them_in_turn() {
    let rows = table(&[field("NAME", b'C', 3)], &[" abc"]);
    let cut = head(50, 5)[..99].to_vec();
    for (shp, shx, dbf) in [
        (head(50, 5), head(50, 5), rows.clone()),
        (cut.clone(), head(50, 2), vec![3]),
        (head(50, 5), cut, vec![3]),
        (head(50, 5), head(50, 5), vec![3]),
        (head(50, 5), head(50, 5), rows[..40].to_vec()),
    ] {
        let all = ShpReader::from_files(Ok(shp.clone()), Some(Ok(shx.clone())), Some(Ok(dbf.clone())));
        let in_turn = ShpReader::new(shp).and_then(|mut reader| {
            reader.add_index_source(shx)?;
            reader.add_dbf_source(dbf)?;
            Ok(reader)
        });
        match (all, in_turn) {
            (Ok(x), Ok(y)) => {
                assert_eq!(x.header(), y.header());
                assert_eq!(x.shapes_index, y.shapes_index);
                assert_eq!(x.read_records().unwrap(), y.read_records().unwrap());
            }
            (Err(x), Err(y)) => assert_eq!(format!("{x:?}"), format!("{y:?}")),
            _ => panic!("only one of the two failed"),
        }
    }
}

#[test]
fn the_errors_of_the_table_are_handed_on() {
    let rows = table(&[field("POP", b'N', 3)], &[" 123", " 12x"]);
    let open = |bytes: Vec<u8>| dbase::Reader::new(std::io::Cursor::new(bytes));
    let expected = open(rows.clone()).unwrap().read().unwrap_err();
    let mut reader = ShpReader::new(head(50, 5)).unwrap();
    reader.add_dbf_source(rows).unwrap();
    match reader.read_records() {
        Err(Error::DbaseError(error)) => assert_eq!(format!("{error:?}"), format!("{expected:?}")),
        _ => panic!("the second row should not be read"),
    }
    let expected = match open(vec![3, 120]) {
        Err(error) => error,
        Ok(_) => panic!("the head should not be read"),
    };
    let mut reader = ShpReader::new(head(50, 5)).unwrap();
    match reader.add_dbf_source(vec![3, 120]) {
        Err(Error::DbaseError(error)) => assert_eq!(format!("{error:?}"), format!("{expected:?}")),
        _ => panic!("the head should not be read"),
    }
}

#[test]
fn the_first_file_with_a_fault_is_reported() {
    let good = || Ok(head(50, 5));
    assert!(matches!(
        ShpReader::from_files(unreadable(), Some(unreadable()), None),
        Err(Error::IoError(_))
    ));
    assert!(matches!(
        ShpReader::from_files(Ok(head(50, 2)), Some(unreadable()), None),
        Err(Error::InvalidShapeType(2))
    ));
    assert!(matches!(
        ShpReader::from_files(good(), Some(unreadable()), Some(Ok(vec![]))),
        Err(Error::IoError(_))
    ));
    assert!(matches!(
        ShpReader::from_files(good(), Some(Ok(head(50, 2))), Some(unreadable())),
        Err(Error::InvalidShapeType(2))
    ));
    assert!(matches!(
        ShpReader::from_files(good(), Some(good()), Some(unreadable())),
        Err(Error::IoError(_))
    ));
    assert!(matches!(
        ShpReader::from_files(good(), None, Some(Ok(vec![]))),
        Err(Error::DbaseError(_))
    ));
}
