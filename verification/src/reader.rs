//! The reader of shapefiles and its iterators.

use crate::dbf::{
    DbfContents, DbfReader, FieldInfo, FieldInfoView, Row, dbf_contents, dbf_opened, list_fields,
    list_record, lists_row, next_record, open_dbf, read_table, record_row,
};
use crate::error::{Error, GeozeroError};
use crate::header::{HEADER_SIZE, Header, parse_header};
use crate::processor::{
    Event, FeatureProcessor, GeomProcessor, PropertyProcessor, can_be_told, refuses_properties,
    replied_within, takes_all,
};
use crate::shp_reader::{RecordHeader, parse_record, read_shape, shape_outcome, shape_told};
use crate::shx_reader::{ShapeIndex, parse_index, read_index_file};
use crate::source::ByteSource;
use vstd::prelude::*;

verus! {

/// Where an iterator over geometries stands.
#[verifier::ext_equal]
pub struct GeometryState {
    /// The bytes of the main file.
    pub bytes: Seq<u8>,
    /// Where the next read starts.
    pub pos: int,
    /// Where the next record starts, going by the sizes in the heads of the records.
    pub current_pos: int,
    /// Where the file ends, going by its head.
    pub file_length: int,
    /// Whether an error has been reported.
    pub failed: bool,
    /// The calls that the processor has had.
    pub log: Seq<Event>,
    /// What the processor may reply.
    pub replies: Set<Event>,
}

impl GeometryState {
    /// Whether nothing more comes.
    pub open spec fn finished(self) -> bool {
        self.failed || self.current_pos >= self.file_length
    }

    /// The same, but for the calls that the processor has had.
    pub open spec fn logged(self, log: Seq<Event>) -> GeometryState {
        GeometryState { log, ..self }
    }
}

/// Where the record after one of this size starts. Positions end at the largest `usize`.
pub open spec fn position_after(current_pos: int, record_size: int) -> int {
    if current_pos + RecordHeader::SIZE + 2 * record_size > usize::MAX {
        usize::MAX as int
    } else {
        current_pos + RecordHeader::SIZE + 2 * record_size
    }
}

/// Whether reading the next record leads from `before` to `after` and gives `r`; of `failed`
/// nothing is said.
pub open spec fn record_read(
    before: GeometryState,
    after: GeometryState,
    r: Result<(), Error>,
) -> bool {
    &&& after.bytes == before.bytes
    &&& after.file_length == before.file_length
    &&& after.replies == before.replies
    &&& shape_told(before.bytes, before.pos, before.log, after.log)
    &&& replied_within(before.replies, before.log, after.log)
    &&& parse_record(before.bytes, before.pos) matches Ok(record) ==> after.pos == record.end
    &&& match shape_outcome(before.bytes, before.pos, after.log) {
        Err(error) => r == Err::<(), Error>(error) && after.current_pos == before.current_pos,
        Ok(header) => if header.record_size < 0 {
            r == Err::<(), Error>(Error::InvalidShapeRecordSize) && after.current_pos
                == before.current_pos
        } else {
            r is Ok && after.current_pos == position_after(
                before.current_pos,
                header.record_size as int,
            )
        },
    }
}

/// Whether asking for the next geometry leads from `before` to `after` and gives `r`.
pub open spec fn geometry_step(
    before: GeometryState,
    after: GeometryState,
    r: Option<Result<(), Error>>,
) -> bool {
    if before.finished() {
        r is None && after == before
    } else {
        &&& r matches Some(result)
        &&& record_read(before, after, result)
        &&& after.failed == result is Err
    }
}

/// Where the record after one of this size starts. Positions end at the largest `usize`.
///
/// The size is in 16-bit words and comes straight off the head of the record, so it can be
/// negative: that is an error.
pub fn next_position(current_pos: usize, record_size: i32) -> (r: Result<usize, Error>)
    ensures
        record_size < 0 ==> r == Err::<usize, Error>(Error::InvalidShapeRecordSize),
        record_size >= 0 ==> r is Ok && r->Ok_0 == position_after(
            current_pos as int,
            record_size as int,
        ),
{
    if record_size < 0 {
        return Err(Error::InvalidShapeRecordSize);
    }
    match (record_size as usize).checked_mul(2) {
        Some(size) => Ok(current_pos.saturating_add(RecordHeader::SIZE).saturating_add(size)),
        None => Err(Error::InvalidShapeRecordSize),
    }
}

/// Iterator over the geometries of a main file: each is handed to the processor.
pub struct ShapeIterator<'a, P: GeomProcessor> {
    /// Takes in the geometries.
    pub processor: &'a mut P,
    /// The main file.
    pub source: ByteSource,
    /// Where the next record starts, going by the sizes in the heads of the records.
    pub current_pos: usize,
    /// Where the file ends, going by its head.
    pub file_length: usize,
    /// Whether an error has been reported.
    pub encountered_error: bool,
}

impl<'a, P: GeomProcessor> ShapeIterator<'a, P> {
    /// Where the iterator stands.
    pub open spec fn state(&self) -> GeometryState {
        GeometryState {
            bytes: self.source.bytes@,
            pos: self.source.pos as int,
            current_pos: self.current_pos as int,
            file_length: self.file_length as int,
            failed: self.encountered_error,
            log: self.processor.log(),
            replies: self.processor.replies(),
        }
    }

    /// Reads one record and moves on to the next.
    pub fn read_record(&mut self) -> (r: Result<(), Error>)
        ensures
            record_read(old(self).state(), final(self).state(), r),
            final(self).encountered_error == old(self).encountered_error,
            takes_all(old(self).state().replies) ==> !(r matches Err(Error::GeozeroError(_))),
            *final(final(self).processor) == *final(old(self).processor),
    {
        let header = read_shape(&mut *self.processor, &mut self.source)?;
        self.current_pos = next_position(self.current_pos, header.record_size)?;
        Ok(())
    }

    /// Hands the next geometry to the processor.
    ///
    /// Gives `None` at the end of the file, and after an error: from then on always.
    pub fn next(&mut self) -> (r: Option<Result<(), Error>>)
        ensures
            geometry_step(old(self).state(), final(self).state(), r),
            old(self).state().finished() ==> *final(self) == *old(self),
            takes_all(old(self).state().replies) ==> !(r matches Some(Err(Error::GeozeroError(_)))),
            *final(final(self).processor) == *final(old(self).processor),
    {
        if self.encountered_error || self.current_pos >= self.file_length {
            return None;
        }
        let result = self.read_record();
        self.encountered_error = result.is_err();
        Some(result)
    }
}

/// Whether handing `entries` to a processor as properties takes its log from `before` to `after`
/// and gives `r`.
///
/// The properties are handed over in their order, numbered from 0, for as long as the processor
/// replies `Ok(false)`. The last reply is what is given, and `Ok(false)` where there are none.
pub open spec fn properties_told(
    entries: Seq<(String, dbase::FieldValue)>,
    before: Seq<Event>,
    after: Seq<Event>,
    r: Result<bool, GeozeroError>,
) -> bool {
    let count = after.len() - before.len();
    &&& 0 <= count <= entries.len()
    &&& after.take(before.len() as int) == before
    &&& forall|i: int|
        0 <= i < count ==> {
            &&& #[trigger] after[before.len() + i] matches Event::Property(idx, name, value, reply)
            &&& idx == i
            &&& name == entries[i].0@
            &&& value == entries[i].1
            &&& reply == (if i == count - 1 {
                r
            } else {
                Ok(false)
            })
        }
    &&& r == Ok::<bool, GeozeroError>(false) ==> count == entries.len()
    &&& count == 0 ==> r == Ok::<bool, GeozeroError>(false)
}

/// Hands `entries` to `processor` as properties.
///
/// Stops where the processor wants no more of them (`Ok(true)`) or refuses one.
pub fn process_entries<P: PropertyProcessor>(
    entries: &Vec<(String, dbase::FieldValue)>,
    processor: &mut P,
) -> (r: Result<bool, GeozeroError>)
    ensures
        properties_told(entries@, old(processor).log(), final(processor).log(), r),
        final(processor).replies() == old(processor).replies(),
        replied_within(old(processor).replies(), old(processor).log(), final(processor).log()),
        takes_all(old(processor).replies()) ==> r is Ok,
        refuses_properties(old(processor).replies()) && entries@.len() > 0 ==> r is Err,
{
    let ghost before = processor.log();
    let mut i: usize = 0;
    while i < entries.len()
        invariant
            0 <= i <= entries@.len(),
            before == old(processor).log(),
            processor.replies() == old(processor).replies(),
            replied_within(processor.replies(), before, processor.log()),
            refuses_properties(processor.replies()) ==> i == 0,
            processor.log().len() == before.len() + i,
            processor.log().take(before.len() as int) == before,
            forall|j: int|
                0 <= j < i ==> {
                    &&& #[trigger] processor.log()[before.len() + j] matches Event::Property(
                        idx,
                        name,
                        value,
                        reply,
                    )
                    &&& idx == j
                    &&& name == entries@[j].0@
                    &&& value == entries@[j].1
                    &&& reply == Ok::<bool, GeozeroError>(false)
                },
        decreases entries@.len() - i,
    {
        let ghost told = processor.log();
        let reply = processor.property(i, entries[i].0.as_str(), &entries[i].1);
        assert(processor.log().take(before.len() as int) =~= told.take(before.len() as int));
        match reply {
            Ok(false) => {},
            stop => {
                return stop;
            },
        }
        i = i + 1;
    }
    Ok(false)
}

/// Whether a row has any fields.
pub open spec fn has_fields(row: Row) -> bool {
    exists|name: Seq<char>| #[trigger] row.contains_key(name)
}

/// A feature that was read: its row of the table. (Its geometry went to the processor.)
pub struct ShapeRecord {
    /// The row of the table.
    pub record: dbase::Record,
}

impl ShapeRecord {
    /// Hands the fields of the row to `processor` as properties, in no particular order.
    ///
    /// Stops where the processor wants no more of them (`Ok(true)`) or refuses one.
    pub fn process_properties<P: PropertyProcessor>(&self, processor: &mut P) -> (r: Result<
        bool,
        GeozeroError,
    >)
        ensures
            exists|entries: Seq<(String, dbase::FieldValue)>|
                lists_row(entries, record_row(self.record)) && properties_told(
                    entries,
                    old(processor).log(),
                    final(processor).log(),
                    r,
                ),
            final(processor).replies() == old(processor).replies(),
            replied_within(old(processor).replies(), old(processor).log(), final(processor).log()),
            takes_all(old(processor).replies()) ==> r is Ok,
            refuses_properties(old(processor).replies()) && has_fields(record_row(self.record))
                ==> r is Err,
    {
        let entries = list_record(&self.record);
        process_entries(&entries, processor)
    }
}

/// Where an iterator over features stands.
#[verifier::ext_equal]
pub struct FeatureState {
    /// Where it stands in the main file.
    pub shapes: GeometryState,
    /// What the table still has to give.
    pub table: DbfContents,
    /// How many features have been read.
    pub featno: u64,
    /// Whether the features have come to an early end.
    pub failed: bool,
}

impl FeatureState {
    /// The same, but for the calls that the processor has had.
    pub open spec fn logged(self, log: Seq<Event>) -> FeatureState {
        FeatureState { shapes: self.shapes.logged(log), ..self }
    }

    /// The calls that the processor has had.
    pub open spec fn log(self) -> Seq<Event> {
        self.shapes.log
    }

    /// Whether nothing more comes.
    pub open spec fn finished(self) -> bool {
        self.failed || self.shapes.current_pos >= self.shapes.file_length
    }

    /// What holds of every iterator over features: its count of features is no larger than its
    /// position, and it has ended if the geometries have ended in an error.
    pub open spec fn valid(self) -> bool {
        &&& self.featno <= self.shapes.current_pos
        &&& self.shapes.failed ==> self.failed
    }
}

/// Whether the next feature has a field that the processor refuses, because it refuses every one.
pub open spec fn refused_at_once(state: FeatureState) -> bool {
    &&& refuses_properties(state.shapes.replies)
    &&& state.table.upcoming.len() > 0
    &&& has_fields(state.table.upcoming[0])
}

/// How the processor was told of a feature.
pub struct Telling {
    /// The fields of the row, in the order in which they were handed over.
    pub entries: Seq<(String, dbase::FieldValue)>,
    /// The log after the properties.
    pub told: Seq<Event>,
    /// The reply to the properties.
    pub reply: Result<bool, GeozeroError>,
    /// Where the geometries stood after the geometry, if it came to that.
    pub read: GeometryState,
    /// What asking for the geometry gave, if it came to that.
    pub geometry: Option<Result<(), Error>>,
}

/// Whether a feature that the processor was told of in this way leads from `before` to `after`
/// and gives `r`.
pub open spec fn feature_told(
    before: FeatureState,
    after: FeatureState,
    r: Option<Result<ShapeRecord, Error>>,
    telling: Telling,
) -> bool {
    let featno = before.featno;
    &&& properties_told(
        telling.entries,
        before.log().push(Event::FeatureBegin(featno)).push(Event::PropertiesBegin),
        telling.told,
        telling.reply,
    )
    &&& replied_within(before.shapes.replies, before.log(), telling.told)
    &&& match telling.reply {
        Err(error) => {
            &&& r == Some(Err::<ShapeRecord, Error>(Error::GeozeroError(error)))
            &&& after.shapes == before.shapes.logged(telling.told)
            &&& after.featno == featno
        },
        Ok(_) => {
            &&& geometry_step(
                before.shapes.logged(
                    telling.told.push(Event::PropertiesEnd).push(Event::GeometryBegin),
                ),
                telling.read,
                telling.geometry,
            )
            &&& match telling.geometry {
                None => {
                    &&& r is None
                    &&& after.shapes == telling.read
                    &&& after.featno == featno
                },
                Some(Err(error)) => {
                    &&& r == Some(Err::<ShapeRecord, Error>(error))
                    &&& after.shapes == telling.read
                    &&& after.featno == featno
                },
                Some(Ok(_)) => {
                    &&& r matches Some(Ok(record))
                    &&& record_row(record.record) == before.table.upcoming[0]
                    &&& after.shapes == telling.read.logged(
                        telling.read.log.push(Event::GeometryEnd).push(Event::FeatureEnd(featno)),
                    )
                    &&& after.featno == featno + 1
                },
            }
        },
    }
}

/// Whether reading the next feature leads from `before` to `after` and gives `r`; of `failed`
/// nothing is said.
///
/// Where the table has no more rows, the dataset ends. Where its next row cannot be read, that
/// is the error, and the processor hears nothing. Otherwise the processor is told that the
/// feature begins, is handed the properties, then the geometry, and is told that the feature
/// ends; an error cuts this short.
pub open spec fn feature_read(
    before: FeatureState,
    after: FeatureState,
    r: Option<Result<ShapeRecord, Error>>,
) -> bool {
    let rows = before.table.upcoming;
    &&& after.table.fields == before.table.fields
    &&& if rows.len() == 0 {
        &&& after.featno == before.featno
        &&& match before.table.end {
            None => {
                &&& r is None
                &&& after.shapes == before.shapes.logged(before.log().push(Event::DatasetEnd))
            },
            Some(error) => {
                &&& r == Some(Err::<ShapeRecord, Error>(Error::DbaseError(error)))
                &&& after.shapes == before.shapes
            },
        }
    } else {
        &&& after.table.upcoming == rows.drop_first()
        &&& after.table.end == before.table.end
        &&& exists|telling: Telling|
            lists_row(telling.entries, rows[0]) && #[trigger] feature_told(
                before,
                after,
                r,
                telling,
            )
    }
}

/// How the processor was told of the feature that was read.
pub proof fn lemma_feature_was_told(
    before: FeatureState,
    after: FeatureState,
    r: Option<Result<ShapeRecord, Error>>,
) -> (telling: Telling)
    requires
        feature_read(before, after, r),
        before.table.upcoming.len() > 0,
    ensures
        lists_row(telling.entries, before.table.upcoming[0]),
        feature_told(before, after, r, telling),
{
    choose|telling: Telling|
        lists_row(telling.entries, before.table.upcoming[0]) && #[trigger] feature_told(
            before,
            after,
            r,
            telling,
        )
}

/// Reading a feature says nothing of `failed`.
proof fn lemma_feature_read_leaves_failed_open(
    before: FeatureState,
    after: FeatureState,
    marked: FeatureState,
    r: Option<Result<ShapeRecord, Error>>,
)
    requires
        feature_read(before, after, r),
        marked == (FeatureState { failed: marked.failed, ..after }),
    ensures
        feature_read(before, marked, r),
{
    if before.table.upcoming.len() > 0 {
        let telling = lemma_feature_was_told(before, after, r);
        assert(feature_told(before, marked, r, telling));
    }
}

/// The state in which a feature is asked for: before the first, the processor has been told that
/// the dataset begins.
pub open spec fn dataset_opened(before: FeatureState) -> FeatureState {
    if before.featno == 0 {
        before.logged(before.log().push(Event::DatasetBegin(None)))
    } else {
        before
    }
}

/// Whether asking for the next feature leads from `before` to `after` and gives `r`.
pub open spec fn feature_step(
    before: FeatureState,
    after: FeatureState,
    r: Option<Result<ShapeRecord, Error>>,
) -> bool {
    let opened = dataset_opened(before);
    if before.failed {
        r is None && after == before
    } else if before.shapes.current_pos >= before.shapes.file_length {
        r is None && after == opened.logged(opened.log().push(Event::DatasetEnd))
    } else {
        &&& feature_read(opened, after, r)
        &&& after.failed == !(r matches Some(Ok(_)))
    }
}

/// Iterator over the features of a shapefile: the properties and the geometry of each are handed
/// to the processor.
pub struct ShapeRecordIterator<'a, P: FeatureProcessor> {
    /// The geometries.
    pub shape_iter: ShapeIterator<'a, P>,
    /// The table.
    pub dbf_reader: DbfReader,
    /// How many features have been read.
    pub featno: u64,
    /// Whether the features have come to an early end.
    pub encountered_error: bool,
}

impl<'a, P: FeatureProcessor> ShapeRecordIterator<'a, P> {
    /// Where the iterator stands.
    pub open spec fn state(&self) -> FeatureState {
        FeatureState {
            shapes: self.shape_iter.state(),
            table: dbf_contents(self.dbf_reader),
            featno: self.featno,
            failed: self.encountered_error,
        }
    }

    /// Hands the next feature to the processor, and gives its row of the table.
    ///
    /// Gives `None` at the end of the file, and after an error: from then on always.
    pub fn next(&mut self) -> (r: Option<Result<ShapeRecord, Error>>)
        requires
            old(self).state().valid(),
        ensures
            feature_step(old(self).state(), final(self).state(), r),
            final(self).state().valid(),
            old(self).encountered_error ==> *final(self) == *old(self),
            takes_all(old(self).state().shapes.replies) ==> !(r matches Some(
                Err(Error::GeozeroError(_)),
            )),
            refused_at_once(old(self).state()) && !old(self).state().finished() ==> r matches Some(
                Err(Error::GeozeroError(_)),
            ),
            *final(final(self).shape_iter.processor) == *final(old(self).shape_iter.processor),
    {
        if self.encountered_error {
            return None;
        }
        if self.featno == 0 {
            self.shape_iter.processor.dataset_begin(None).ok();
        }
        // The table cannot tell where the features end: its reader reports an error there.
        if self.shape_iter.current_pos >= self.shape_iter.file_length {
            self.shape_iter.processor.dataset_end().ok();
            return None;
        }
        let ghost opened = self.state();
        let result = self.read_feature();
        let ghost read = self.state();
        // What did not end in a feature leaves the file, the table and the processor amid one.
        self.encountered_error = !matches!(result, Some(Ok(_)));
        proof {
            lemma_feature_read_leaves_failed_open(opened, read, self.state(), result);
        }
        result
    }

    /// Reads one feature.
    pub fn read_feature(&mut self) -> (r: Option<Result<ShapeRecord, Error>>)
        requires
            old(self).featno < u64::MAX,
        ensures
            feature_read(old(self).state(), final(self).state(), r),
            final(self).encountered_error == old(self).encountered_error,
            old(self).featno <= old(self).shape_iter.current_pos
                ==> final(self).featno <= final(self).shape_iter.current_pos,
            r matches Some(Ok(_)) ==> !final(self).shape_iter.encountered_error,
            takes_all(old(self).state().shapes.replies) ==> !(r matches Some(
                Err(Error::GeozeroError(_)),
            )),
            refused_at_once(old(self).state()) ==> r matches Some(Err(Error::GeozeroError(_))),
            *final(final(self).shape_iter.processor) == *final(old(self).shape_iter.processor),
    {
        let record = match next_record(&mut self.dbf_reader) {
            None => {
                self.shape_iter.processor.dataset_end().ok();
                return None;
            },
            Some(Err(error)) => {
                return Some(Err(Error::DbaseError(error)));
            },
            Some(Ok(record)) => record,
        };
        let shprec = ShapeRecord { record };
        self.shape_iter.processor.feature_begin(self.featno).ok();
        self.shape_iter.processor.properties_begin().ok();
        let ghost begun = self.shape_iter.processor.log();
        let reply = shprec.process_properties(&mut *self.shape_iter.processor);
        let ghost told = self.shape_iter.processor.log();
        let ghost entries = choose|entries: Seq<(String, dbase::FieldValue)>|
            lists_row(entries, record_row(shprec.record)) && properties_told(
                entries,
                begun,
                told,
                reply,
            );
        assert forall|k: int| old(self).state().log().len() <= k < told.len() implies can_be_told(
            old(self).state().shapes.replies,
            #[trigger] told[k],
        ) by {
            if k < begun.len() {
                assert(told[k] == told.take(begun.len() as int)[k]);
            }
        }
        let ghost telling = Telling {
            entries,
            told,
            reply,
            read: self.shape_iter.state(),
            geometry: None,
        };
        if let Err(error) = reply {
            let r = Some(Err(Error::GeozeroError(error)));
            assert(feature_told(old(self).state(), self.state(), r, telling));
            return r;
        }
        self.shape_iter.processor.properties_end().ok();
        self.shape_iter.processor.geometry_begin().ok();
        let geometry = self.shape_iter.next();
        let ghost telling = Telling { read: self.shape_iter.state(), geometry, ..telling };
        match geometry {
            None => {
                assert(feature_told(old(self).state(), self.state(), None, telling));
                return None;
            },
            Some(Err(error)) => {
                let r = Some(Err(error));
                assert(feature_told(old(self).state(), self.state(), r, telling));
                return r;
            },
            Some(Ok(_)) => {},
        }
        self.shape_iter.processor.geometry_end().ok();
        self.shape_iter.processor.feature_end(self.featno).ok();
        self.featno = self.featno + 1;
        let r = Some(Ok(shprec));
        assert(feature_told(old(self).state(), self.state(), r, telling));
        r
    }
}

/// Where a main file ends that says of itself that it is `file_length` 16-bit words long. A
/// negative length sets no end.
pub open spec fn extent(file_length: i32) -> int {
    if file_length < 0 {
        usize::MAX as int
    } else {
        2 * file_length
    }
}

/// Whether a field is one of the table's own, and not the mark of deleted rows.
pub open spec fn is_own_field(field: FieldInfoView) -> bool {
    field.name != "DeletionFlag"@
}

/// The fields among `fields` that are the table's own, in their order.
pub open spec fn own_fields(fields: Seq<FieldInfoView>) -> Seq<FieldInfoView> {
    fields.filter(|field: FieldInfoView| is_own_field(field))
}

/// Reads the content of a shapefile.
pub struct ShpReader {
    /// The main file.
    pub source: ByteSource,
    /// The head of the main file.
    pub header: Header,
    /// The index, if there is one.
    pub shapes_index: Option<Vec<ShapeIndex>>,
    /// The table, if there is one.
    pub dbf_reader: Option<DbfReader>,
}

impl ShpReader {
    /// The entries of the index, if there is one.
    pub open spec fn index(&self) -> Option<Seq<ShapeIndex>> {
        match self.shapes_index {
            Some(entries) => Some(entries@),
            None => None,
        }
    }

    /// What the table has to give, if there is one.
    pub open spec fn table(&self) -> Option<DbfContents> {
        match self.dbf_reader {
            Some(reader) => Some(dbf_contents(reader)),
            None => None,
        }
    }

    /// Whether this is the reader of a main file, with this index and this table.
    pub open spec fn reads(
        &self,
        bytes: Seq<u8>,
        index: Option<Seq<ShapeIndex>>,
        table: Option<DbfContents>,
    ) -> bool {
        &&& self.source.bytes@ == bytes
        &&& self.source.pos == HEADER_SIZE
        &&& parse_header(bytes, 0) == Ok::<Header, Error>(self.header)
        &&& self.index() == index
        &&& self.table() == table
    }

    /// Creates a reader of a main file.
    ///
    /// The head of the file is read at once, but none of the shapes.
    ///
    /// # Errors
    ///
    /// Fails where the bytes end within the head, where they are not those of a shapefile (wrong
    /// file code), and where the shape type in the head is not known.
    pub fn new(source: Vec<u8>) -> (r: Result<ShpReader, Error>)
        ensures
            reader_created(source@, r),
    {
        let mut source = ByteSource::new(source);
        let header = Header::read_from(&mut source)?;
        Ok(ShpReader { source, header, shapes_index: None, dbf_reader: None })
    }

    /// Creates a reader of a shapefile from what reading its files gave: the main file, and the
    /// index and the table, `None` where there is no such file.
    ///
    /// That there is no index or no table is no error here: it is one where they are needed.
    ///
    /// # Errors
    ///
    /// Fails where one of the files could not be read, and as [`ShpReader::new`],
    /// [`ShpReader::add_index_source`] and [`ShpReader::add_dbf_source`] do. What is wrong with
    /// the main file is reported before what is wrong with the index, and that before what is
    /// wrong with the table.
    pub fn from_files(
        shp: Result<Vec<u8>, std::io::Error>,
        shx: Option<Result<Vec<u8>, std::io::Error>>,
        dbf: Option<Result<Vec<u8>, std::io::Error>>,
    ) -> (r: Result<ShpReader, Error>)
        ensures
            files_read(shp, shx, dbf, r),
    {
        let source = match shp {
            Ok(source) => source,
            Err(error) => {
                return Err(Error::IoError(error));
            },
        };
        let mut reader = ShpReader::new(source)?;
        match shx {
            Some(Ok(source)) => reader.add_index_source(source)?,
            Some(Err(error)) => {
                return Err(Error::IoError(error));
            },
            None => {},
        }
        match dbf {
            Some(Ok(source)) => reader.add_dbf_source(source)?,
            Some(Err(error)) => {
                return Err(Error::IoError(error));
            },
            None => {},
        }
        Ok(reader)
    }

    /// The head of the main file.
    pub fn header(&self) -> (header: &Header)
        ensures
            *header == self.header,
    {
        &self.header
    }

    /// Reads the rows of the table, and nothing else.
    ///
    /// # Errors
    ///
    /// Fails where there is no table, and where a row cannot be read.
    pub fn read_records(self) -> (r: Result<Vec<dbase::Record>, Error>)
        ensures
            records_read(self.table(), r),
    {
        let mut dbf_reader = match self.dbf_reader {
            Some(dbf_reader) => dbf_reader,
            None => {
                return Err(Error::MissingDbf);
            },
        };
        match read_table(&mut dbf_reader) {
            Ok(records) => {
                assert(records@.map_values(|record: dbase::Record| record_row(record))
                    =~= self.table()->0.table->Ok_0);
                Ok(records)
            },
            Err(error) => Err(Error::DbaseError(error)),
        }
    }

    /// The fields of the table. The mark of deleted rows is not among them.
    ///
    /// # Errors
    ///
    /// Fails where there is no table.
    pub fn dbf_fields(&self) -> (r: Result<Vec<FieldInfo>, Error>)
        ensures
            fields_listed(self.table(), r),
    {
        let fields = match &self.dbf_reader {
            Some(dbf_reader) => list_fields(dbf_reader),
            None => {
                return Err(Error::MissingDbf);
            },
        };
        Ok(keep_own_fields(fields))
    }

    /// Iterates over the geometries.
    pub fn iter_geometries<'a, P: FeatureProcessor>(self, processor: &'a mut P) -> (r: ShapeIterator<
        'a,
        P,
    >)
        ensures
            r.state() == geometries_begun(self, old(processor).log(), old(processor).replies()),
            *r.processor == *old(processor),
            *final(r.processor) == *final(processor),
    {
        let file_length: usize = if self.header.file_length < 0 {
            usize::MAX
        } else {
            match (self.header.file_length as usize).checked_mul(2) {
                Some(length) => length,
                None => usize::MAX,
            }
        };
        ShapeIterator {
            processor,
            source: self.source,
            current_pos: HEADER_SIZE as usize,
            file_length,
            encountered_error: false,
        }
    }

    /// Iterates over the geometries and their rows of the table.
    ///
    /// # Errors
    ///
    /// Fails where there is no table.
    pub fn iter_features<'a, P: FeatureProcessor>(self, processor: &'a mut P) -> (r: Result<
        ShapeRecordIterator<'a, P>,
        Error,
    >)
        ensures
            match self.table() {
                None => r is Err && r->Err_0 == Error::MissingDbf && *final(processor) == *old(
                    processor,
                ),
                Some(contents) => {
                    &&& r matches Ok(features)
                    &&& features.state() == features_begun(
                        self,
                        contents,
                        old(processor).log(),
                        old(processor).replies(),
                    )
                    &&& features.state().valid()
                    &&& *features.shape_iter.processor == *old(processor)
                    &&& *final(features.shape_iter.processor) == *final(processor)
                },
            },
    {
        let mut reader = self;
        match reader.dbf_reader.take() {
            Some(dbf_reader) => {
                let shape_iter = reader.iter_geometries(processor);
                Ok(ShapeRecordIterator { shape_iter, dbf_reader, featno: 0, encountered_error: false })
            },
            None => Err(Error::MissingDbf),
        }
    }

    /// Reads the index.
    ///
    /// # Errors
    ///
    /// Fails where the head of the index is wrong, and where the bytes end before the index
    /// does. The reader is then left as it was.
    pub fn add_index_source(&mut self, source: Vec<u8>) -> (r: Result<(), Error>)
        ensures
            index_added(*old(self), source@, *final(self), r),
    {
        let entries = read_index_file(source)?;
        self.shapes_index = Some(entries);
        Ok(())
    }

    /// Takes `source` as the table that the rows are read from.
    ///
    /// # Errors
    ///
    /// Fails where the head of the table cannot be read. The reader is then left as it was.
    pub fn add_dbf_source(&mut self, source: Vec<u8>) -> (r: Result<(), Error>)
        ensures
            table_added(*old(self), source@, *final(self), r),
    {
        match open_dbf(source) {
            Ok(dbf_reader) => {
                self.dbf_reader = Some(dbf_reader);
                Ok(())
            },
            Err(error) => Err(Error::DbaseError(error)),
        }
    }
}

/// Whether reading the rows of a table gives `r`.
pub open spec fn records_read(
    table: Option<DbfContents>,
    r: Result<Vec<dbase::Record>, Error>,
) -> bool {
    match table {
        None => r == Err::<Vec<dbase::Record>, Error>(Error::MissingDbf),
        Some(contents) => match contents.table {
            Err(error) => r == Err::<Vec<dbase::Record>, Error>(Error::DbaseError(error)),
            Ok(rows) => {
                &&& r matches Ok(records)
                &&& records@.map_values(|record: dbase::Record| record_row(record)) == rows
            },
        },
    }
}

/// Whether listing the fields of a table gives `r`.
pub open spec fn fields_listed(
    table: Option<DbfContents>,
    r: Result<Vec<FieldInfo>, Error>,
) -> bool {
    match table {
        None => r == Err::<Vec<FieldInfo>, Error>(Error::MissingDbf),
        Some(contents) => {
            &&& r matches Ok(fields)
            &&& fields@.map_values(|field: FieldInfo| field@) == own_fields(contents.fields)
        },
    }
}

/// Where the iteration over the geometries of a reader begins, for a processor that has had these
/// calls and has these replies.
pub open spec fn geometries_begun(
    reader: ShpReader,
    log: Seq<Event>,
    replies: Set<Event>,
) -> GeometryState {
    GeometryState {
        bytes: reader.source.bytes@,
        pos: reader.source.pos as int,
        current_pos: HEADER_SIZE as int,
        file_length: extent(reader.header.file_length),
        failed: false,
        log,
        replies,
    }
}

/// Where the iteration over the features of a reader begins, for a table and a processor that has
/// had these calls and has these replies.
pub open spec fn features_begun(
    reader: ShpReader,
    table: DbfContents,
    log: Seq<Event>,
    replies: Set<Event>,
) -> FeatureState {
    FeatureState {
        shapes: geometries_begun(reader, log, replies),
        table,
        featno: 0,
        failed: false,
    }
}

/// Whether creating a reader of a main file gives `r`.
pub open spec fn reader_created(bytes: Seq<u8>, r: Result<ShpReader, Error>) -> bool {
    match parse_header(bytes, 0) {
        Ok(_) => r matches Ok(reader) && reader.reads(bytes, None, None),
        Err(error) => r == Err::<ShpReader, Error>(error),
    }
}

/// Whether adding an index leads from `before` to `after` and gives `r`.
pub open spec fn index_added(
    before: ShpReader,
    bytes: Seq<u8>,
    after: ShpReader,
    r: Result<(), Error>,
) -> bool {
    match parse_index(bytes) {
        Ok(entries) => {
            &&& r is Ok
            &&& after.index() == Some(entries)
            &&& after.source == before.source
            &&& after.header == before.header
            &&& after.dbf_reader == before.dbf_reader
        },
        Err(error) => r == Err::<(), Error>(error) && after == before,
    }
}

/// Whether adding a table leads from `before` to `after` and gives `r`.
pub open spec fn table_added(
    before: ShpReader,
    bytes: Seq<u8>,
    after: ShpReader,
    r: Result<(), Error>,
) -> bool {
    match dbf_opened(bytes) {
        Ok(contents) => {
            &&& r is Ok
            &&& after.table() == Some(contents)
            &&& contents.rows_agree()
            &&& after.source == before.source
            &&& after.header == before.header
            &&& after.shapes_index == before.shapes_index
        },
        Err(error) => r == Err::<(), Error>(Error::DbaseError(error)) && after == before,
    }
}

/// The bytes of the main file, if it was read and its head is right, else what is wrong.
pub open spec fn main_file(shp: Result<Vec<u8>, std::io::Error>) -> Result<Seq<u8>, Error> {
    match shp {
        Err(error) => Err(Error::IoError(error)),
        Ok(bytes) => match parse_header(bytes@, 0) {
            Err(error) => Err(error),
            Ok(_) => Ok(bytes@),
        },
    }
}

/// The index, if it was read and is right, `None` if there is none, else what is wrong.
pub open spec fn index_file(shx: Option<Result<Vec<u8>, std::io::Error>>) -> Result<
    Option<Seq<ShapeIndex>>,
    Error,
> {
    match shx {
        None => Ok(None),
        Some(Err(error)) => Err(Error::IoError(error)),
        Some(Ok(bytes)) => match parse_index(bytes@) {
            Err(error) => Err(error),
            Ok(entries) => Ok(Some(entries)),
        },
    }
}

/// The table, if it was read and can be opened, `None` if there is none, else what is wrong.
pub open spec fn table_file(dbf: Option<Result<Vec<u8>, std::io::Error>>) -> Result<
    Option<DbfContents>,
    Error,
> {
    match dbf {
        None => Ok(None),
        Some(Err(error)) => Err(Error::IoError(error)),
        Some(Ok(bytes)) => match dbf_opened(bytes@) {
            Err(error) => Err(Error::DbaseError(error)),
            Ok(contents) => Ok(Some(contents)),
        },
    }
}

/// Whether creating a reader from what reading the files gave gives `r`.
pub open spec fn files_read(
    shp: Result<Vec<u8>, std::io::Error>,
    shx: Option<Result<Vec<u8>, std::io::Error>>,
    dbf: Option<Result<Vec<u8>, std::io::Error>>,
    r: Result<ShpReader, Error>,
) -> bool {
    match (main_file(shp), index_file(shx), table_file(dbf)) {
        (Err(error), _, _) => r == Err::<ShpReader, Error>(error),
        (_, Err(error), _) => r == Err::<ShpReader, Error>(error),
        (_, _, Err(error)) => r == Err::<ShpReader, Error>(error),
        (Ok(bytes), Ok(index), Ok(table)) => {
            &&& r matches Ok(reader)
            &&& reader.reads(bytes, index, table)
            &&& table matches Some(contents) ==> contents.rows_agree()
        },
    }
}

/// Keeps the fields that are the table's own.
pub fn keep_own_fields(fields: Vec<FieldInfo>) -> (r: Vec<FieldInfo>)
    ensures
        r@.map_values(|field: FieldInfo| field@) == own_fields(
            fields@.map_values(|field: FieldInfo| field@),
        ),
{
    let deletion_flag = "DeletionFlag".to_owned();
    let mut own: Vec<FieldInfo> = Vec::new();
    let ghost seen = fields@.map_values(|field: FieldInfo| field@);
    let mut i: usize = 0;
    while i < fields.len()
        invariant
            0 <= i <= fields@.len(),
            deletion_flag@ == "DeletionFlag"@,
            seen == fields@.map_values(|field: FieldInfo| field@),
            own@.map_values(|field: FieldInfo| field@) == own_fields(seen.take(i as int)),
        decreases fields@.len() - i,
    {
        let ghost before = own@;
        let field = &fields[i];
        proof {
            reveal(Seq::filter);
            assert(seen.take(i + 1).drop_last() =~= seen.take(i as int));
            assert(seen.take(i + 1).last() == field@);
        }
        if field.name != deletion_flag {
            own.push(
                FieldInfo {
                    name: field.name.clone(),
                    field_type: field.field_type,
                    length: field.length,
                },
            );
            assert(own@.map_values(|field: FieldInfo| field@) =~= before.map_values(
                |field: FieldInfo| field@,
            ).push(field@));
        }
        i = i + 1;
    }
    assert(seen.take(i as int) =~= seen);
    own
}

} // verus!
