//! The table of a shapefile (`.dbf`), read by the `dbase` crate.

use dbase::Error as DbaseFailure;
use vstd::prelude::*;

verus! {

/// `dbase::Reader`, the reader of a table.
#[verifier::external_type_specification]
#[verifier::external_body]
#[verifier::reject_recursive_types(T)]
pub struct ExDbaseReader<T>(dbase::Reader<T>);

/// `std::io::Cursor`, in which the bytes of a table are handed to `dbase`.
#[verifier::external_type_specification]
#[verifier::external_body]
#[verifier::reject_recursive_types(T)]
pub struct ExCursor<T>(std::io::Cursor<T>);

/// `dbase::Error`. A value of it is handed on and never looked into.
#[verifier::external_type_specification]
#[verifier::external_body]
pub struct ExDbaseError(DbaseFailure);

/// `dbase::Record`, one row of a table: a map from the names of its fields to their values.
#[verifier::external_type_specification]
#[verifier::external_body]
pub struct ExDbaseRecord(dbase::Record);

/// `dbase::FieldValue`, the value of one field. It is handed on and never looked into.
#[verifier::external_type_specification]
#[verifier::external_body]
pub struct ExDbaseFieldValue(dbase::FieldValue);

/// The reader of a table whose bytes are in memory.
pub type DbfReader = dbase::Reader<std::io::Cursor<Vec<u8>>>;

/// What a row holds: the value of each field, by the name of the field.
pub type Row = Map<Seq<char>, dbase::FieldValue>;

/// One field of a table.
#[derive(Debug, Clone)]
pub struct FieldInfo {
    /// The name of the field.
    pub name: String,
    /// The letter that stands for the type of the field in the file (`C` for text, `N` for
    /// numbers written out, and so on).
    pub field_type: u8,
    /// How many bytes the field takes in each row.
    pub length: u8,
}

/// [`FieldInfo`] as contracts see it.
pub struct FieldInfoView {
    /// The name of the field.
    pub name: Seq<char>,
    /// The letter that stands for its type.
    pub field_type: u8,
    /// How many bytes it takes in each row.
    pub length: u8,
}

impl View for FieldInfo {
    type V = FieldInfoView;

    open spec fn view(&self) -> FieldInfoView {
        FieldInfoView { name: self.name@, field_type: self.field_type, length: self.length }
    }
}

/// What a reader of a table still has to give.
pub struct DbfContents {
    /// The fields of the table, in the order of the file.
    pub fields: Seq<FieldInfoView>,
    /// The rows that asking for one row after another gives, up to the first time that no row
    /// comes.
    pub upcoming: Seq<Row>,
    /// What comes after the `upcoming` rows: nothing (`None`), or this error.
    pub end: Option<dbase::Error>,
    /// The rows that come when all of them are asked for at once, or the error that comes
    /// instead.
    pub table: Result<Seq<Row>, dbase::Error>,
}

impl DbfContents {
    /// Whether the rows that come all at once are those that come one after another, as far as
    /// they go.
    pub open spec fn rows_agree(self) -> bool {
        self.table matches Ok(rows) ==> rows.is_prefix_of(self.upcoming)
    }
}

/// What `dbase::Reader::new` makes of the bytes of a table: what the reader that it returns has
/// to give, or the error that it reports.
pub uninterp spec fn dbf_opened(bytes: Seq<u8>) -> Result<DbfContents, dbase::Error>;

/// What a `dbase::Reader` still has to give.
pub uninterp spec fn dbf_contents(reader: DbfReader) -> DbfContents;

/// What a `dbase::Record` holds.
pub uninterp spec fn record_row(record: dbase::Record) -> Row;

/// Whether `entries` lists the fields of `row`, each of them once, in some order.
pub open spec fn lists_row(entries: Seq<(String, dbase::FieldValue)>, row: Row) -> bool {
    &&& forall|i: int, j: int| 0 <= i < j < entries.len() ==> entries[i].0@ != entries[j].0@
    &&& forall|i: int|
        0 <= i < entries.len() ==> row.contains_key(#[trigger] entries[i].0@) && row[entries[i].0@]
            == entries[i].1
    &&& forall|name: Seq<char>| #[trigger]
        row.contains_key(name) ==> exists|i: int|
            0 <= i < entries.len() && #[trigger] entries[i].0@ == name
}

/// Calls `dbase::Reader::new`, which reads the head of the table. That the call succeeds, what
/// the reader has to give, and the error otherwise depend on the bytes alone. Where all rows can
/// be read at once, asking for one after another gives the same rows first.
#[verifier::external_body]
pub(crate) fn open_dbf(source: Vec<u8>) -> (r: Result<DbfReader, dbase::Error>)
    ensures
        match r {
            Ok(reader) => {
                &&& dbf_opened(source@) matches Ok(contents)
                &&& contents == dbf_contents(reader)
                &&& contents.rows_agree()
            },
            Err(error) => dbf_opened(source@) matches Err(opening) && opening == error,
        },
{
    dbase::Reader::new(std::io::Cursor::new(source))
}

/// Calls `dbase::Reader::iter_records` and takes the first record from the iterator, which reads
/// the next row that is not marked as deleted. The rows come in their order; the reader keeps
/// its place between calls. What comes after the rows, nothing or an error, depends on the reader
/// alone; what comes after that is left unsaid.
#[verifier::external_body]
pub(crate) fn next_record(reader: &mut DbfReader) -> (r: Option<
    Result<dbase::Record, dbase::Error>,
>)
    ensures
        dbf_contents(*final(reader)).fields == dbf_contents(*old(reader)).fields,
        dbf_contents(*old(reader)).upcoming.len() > 0 ==> {
            &&& r matches Some(Ok(record))
            &&& record_row(record) == dbf_contents(*old(reader)).upcoming[0]
            &&& dbf_contents(*final(reader)).upcoming == dbf_contents(
                *old(reader),
            ).upcoming.drop_first()
            &&& dbf_contents(*final(reader)).end == dbf_contents(*old(reader)).end
        },
        dbf_contents(*old(reader)).upcoming.len() == 0 ==> match r {
            None => dbf_contents(*old(reader)).end is None,
            Some(Ok(_)) => false,
            Some(Err(error)) => dbf_contents(*old(reader)).end == Some(error),
        },
{
    reader.iter_records().next()
}

/// Calls `dbase::Reader::read`, which reads the rows that are not marked as deleted, or stops
/// at the first that it cannot read and reports that.
#[verifier::external_body]
pub(crate) fn read_table(reader: &mut DbfReader) -> (r: Result<Vec<dbase::Record>, dbase::Error>)
    ensures
        match r {
            Ok(records) => {
                &&& dbf_contents(*old(reader)).table matches Ok(rows)
                &&& records@.len() == rows.len()
                &&& forall|i: int|
                    0 <= i < records@.len() ==> record_row(#[trigger] records@[i]) == rows[i]
            },
            Err(error) => dbf_contents(*old(reader)).table matches Err(failure) && failure == error,
        },
{
    reader.read()
}

/// Calls `dbase::Reader::fields` and takes the name, the type letter and the length of each
/// field, in the order of the file.
#[verifier::external_body]
pub(crate) fn list_fields(reader: &DbfReader) -> (r: Vec<FieldInfo>)
    ensures
        r@.map_values(|field: FieldInfo| field@) == dbf_contents(*reader).fields,
{
    reader.fields().iter().map(
        |f|
            FieldInfo {
                name: f.name().to_string(),
                field_type: u8::from(f.field_type()),
                length: f.length(),
            },
    ).collect()
}

/// Walks a `dbase::Record` by its `into_iter` and takes the name and the value of each field.
/// Each field comes once; in which order is left open.
#[verifier::external_body]
pub(crate) fn list_record(record: &dbase::Record) -> (r: Vec<(String, dbase::FieldValue)>)
    ensures
        lists_row(r@, record_row(*record)),
{
    record.clone().into_iter().collect()
}

} // verus!
