//! What reading a shapefile is for, told from the bytes of its files to what the processor hears.

use crate::dbf::{
    DbfContents, FieldInfo, FieldInfoView, Row, dbf_contents, dbf_opened, lists_row, record_row,
};
use crate::encoding::{lemma_pieces_stand, stands_at};
use crate::error::{Error, GeozeroError};
use crate::format::{header_bytes, lemma_header_stands};
use crate::header::{Header, parse_header};
use crate::laws::{
    feature_run, geometry_run, has_row, law_feature_takes_one_row_and_one_record,
    law_features_are_all_taken, law_features_pair_with_rows, law_geometries_are_all_taken,
    law_well_formed_file_yields_every_geometry, law_well_formed_shapefile_yields_every_feature,
    lemma_features_come, lemma_last_reply, lemma_row_names, lemma_telling_is_in_log,
    records_between, shapes_taken,
};
use crate::processor::{Event, Observed, ProcessorSink, takes_all};
use crate::reader::{
    FeatureState, GeometryState, ShapeRecord, ShpReader, dataset_opened, feature_step,
    features_begun, fields_listed, files_read, geometries_begun, geometry_step, index_added,
    lemma_feature_was_told, own_fields, position_after, properties_told,
    reader_created, records_read, table_added,
};
use crate::shape_format::{
    fits_record, law_null_record_reads_back, law_shape_record_reads_back, lemma_null_record_length,
    lemma_record_lengths, null_record, shape_record,
};
use crate::shp_reader::{Shape, ShapeView, parse_record, shape_told};
use crate::shx_reader::parse_index;
use vstd::prelude::*;

verus! {

/// The fields of a table that are its own are all but those named `DeletionFlag`, whatever their
/// type and length: each is there, in the order of the table, and nothing else is.
pub proof fn law_only_the_deletion_flag_is_left_out(fields: Seq<FieldInfoView>)
    ensures
        exists|places: Seq<int>|
            {
                &&& #[trigger] places.len() == own_fields(fields).len()
                &&& forall|j: int|
                    0 <= j < places.len() ==> {
                        &&& 0 <= #[trigger] places[j] < fields.len()
                        &&& fields[places[j]] == own_fields(fields)[j]
                        &&& fields[places[j]].name != "DeletionFlag"@
                    }
                &&& forall|i: int, j: int| 0 <= i < j < places.len() ==> places[i] < places[j]
                &&& forall|k: int|
                    0 <= k < fields.len() && (#[trigger] fields[k]).name != "DeletionFlag"@
                        ==> places.contains(k)
            },
    decreases fields.len(),
{
    reveal(Seq::filter);
    let own = own_fields(fields);
    if fields.len() == 0 {
        let places = Seq::<int>::empty();
        assert(places.len() == own.len());
    } else {
        let rest = fields.drop_last();
        law_only_the_deletion_flag_is_left_out(rest);
        let before = choose|places: Seq<int>|
            {
                &&& #[trigger] places.len() == own_fields(rest).len()
                &&& forall|j: int|
                    0 <= j < places.len() ==> {
                        &&& 0 <= #[trigger] places[j] < rest.len()
                        &&& rest[places[j]] == own_fields(rest)[j]
                        &&& rest[places[j]].name != "DeletionFlag"@
                    }
                &&& forall|i: int, j: int| 0 <= i < j < places.len() ==> places[i] < places[j]
                &&& forall|k: int|
                    0 <= k < rest.len() && (#[trigger] rest[k]).name != "DeletionFlag"@
                        ==> places.contains(k)
            };
        let last = fields.len() - 1;
        let places = if fields.last().name != "DeletionFlag"@ {
            before.push(last)
        } else {
            before
        };
        assert(places.len() == own.len());
        assert forall|j: int| 0 <= j < places.len() implies 0 <= #[trigger] places[j] < fields.len()
            && fields[places[j]] == own[j] && fields[places[j]].name != "DeletionFlag"@ by {
            if j < before.len() {
                assert(places[j] == before[j]);
                assert(rest[before[j]] == fields[before[j]]);
            }
        }
        assert forall|k: int|
            0 <= k < fields.len() && (#[trigger] fields[k]).name
                != "DeletionFlag"@ implies places.contains(k) by {
            if k < last {
                assert(rest[k] == fields[k]);
                assert(before.contains(k));
                let j = choose|j: int| 0 <= j < before.len() && before[j] == k;
                assert(places[j] == k);
            } else {
                assert(places[places.len() - 1] == k);
            }
        }
    }
}

/// The fields that a reader lists are those of its table, in their order, but for those named
/// `DeletionFlag`; without a table that is an error.
pub proof fn law_listed_fields_are_those_of_the_table(
    table: Option<DbfContents>,
    r: Result<Vec<FieldInfo>, Error>,
)
    requires
        fields_listed(table, r),
    ensures
        table is None ==> r == Err::<Vec<FieldInfo>, Error>(Error::MissingDbf),
        table matches Some(contents) ==> {
            &&& r is Ok
            &&& exists|places: Seq<int>|
                {
                    &&& #[trigger] places.len() == r->Ok_0@.len()
                    &&& forall|j: int|
                        0 <= j < places.len() ==> {
                            &&& 0 <= #[trigger] places[j] < contents.fields.len()
                            &&& contents.fields[places[j]].name == r->Ok_0@[j].name@
                            &&& contents.fields[places[j]].field_type == r->Ok_0@[j].field_type
                            &&& contents.fields[places[j]].length == r->Ok_0@[j].length
                            &&& r->Ok_0@[j].name@ != "DeletionFlag"@
                        }
                    &&& forall|i: int, j: int| 0 <= i < j < places.len() ==> places[i] < places[j]
                    &&& forall|k: int|
                        0 <= k < contents.fields.len() && (#[trigger] contents.fields[k]).name
                            != "DeletionFlag"@ ==> places.contains(k)
                }
        },
{
    if let Some(contents) = table {
        let fields = contents.fields;
        let listed = r->Ok_0@;
        law_only_the_deletion_flag_is_left_out(fields);
        let places = choose|places: Seq<int>|
            {
                &&& #[trigger] places.len() == own_fields(fields).len()
                &&& forall|j: int|
                    0 <= j < places.len() ==> {
                        &&& 0 <= #[trigger] places[j] < fields.len()
                        &&& fields[places[j]] == own_fields(fields)[j]
                        &&& fields[places[j]].name != "DeletionFlag"@
                    }
                &&& forall|i: int, j: int| 0 <= i < j < places.len() ==> places[i] < places[j]
                &&& forall|k: int|
                    0 <= k < fields.len() && (#[trigger] fields[k]).name != "DeletionFlag"@
                        ==> places.contains(k)
            };
        let views = listed.map_values(|field: FieldInfo| field@);
        assert(places.len() == listed.len());
        assert forall|j: int| 0 <= j < places.len() implies 0 <= #[trigger] places[j] < fields.len()
            && fields[places[j]].name == listed[j].name@ && fields[places[j]].field_type
            == listed[j].field_type && fields[places[j]].length == listed[j].length
            && listed[j].name@ != "DeletionFlag"@ by {
            assert(views[j] == listed[j]@);
        }
    }
}

/// The records that a reader reads are the rows of its table, all of them and in their order;
/// without a table, and where a row cannot be read, that is the error.
pub proof fn law_read_records_are_the_rows_of_the_table(
    table: Option<DbfContents>,
    r: Result<Vec<dbase::Record>, Error>,
)
    requires
        records_read(table, r),
    ensures
        table is None ==> r == Err::<Vec<dbase::Record>, Error>(Error::MissingDbf),
        table matches Some(contents) ==> match contents.table {
            Err(error) => r == Err::<Vec<dbase::Record>, Error>(Error::DbaseError(error)),
            Ok(rows) => {
                &&& r is Ok
                &&& r->Ok_0@.len() == rows.len()
                &&& forall|i: int|
                    0 <= i < rows.len() ==> record_row(r->Ok_0@[i]) == #[trigger] rows[i]
            },
        },
{
    if let Some(contents) = table {
        if let Ok(rows) = contents.table {
            let records = r->Ok_0@;
            let read = records.map_values(|record: dbase::Record| record_row(record));
            assert forall|i: int| 0 <= i < rows.len() implies record_row(records[i])
                == #[trigger] rows[i] by {
                assert(read[i] == record_row(records[i]));
            }
        }
    }
}

/// What the fields of a field or a shape are in contracts is what they are.
pub proof fn law_views_show_everything(field: FieldInfo, shape: Shape)
    ensures
        field@.name == field.name@,
        field@.field_type == field.field_type,
        field@.length == field.length,
        shape@.shape_type == shape.shape_type,
        shape@.bbox == shape.bbox@,
        shape@.parts == shape.parts@,
        shape@.patch_types == shape.patch_types@,
        shape@.points == shape.points@,
        shape@.z_range == shape.z_range@,
        shape@.z == shape.z@,
        shape@.m_range == shape.m_range@,
        shape@.m == shape.m@,
{
}

/// Properties are handed over one by one, in their order and numbered from 0, up to and with the
/// first that is not answered with `Ok(false)`, or else all of them. The last reply is what comes
/// of it.
pub proof fn law_properties_are_handed_over_in_order(
    entries: Seq<(String, dbase::FieldValue)>,
    before: Seq<Event>,
    after: Seq<Event>,
    r: Result<bool, GeozeroError>,
)
    requires
        properties_told(entries, before, after, r),
    ensures
        before.len() <= after.len() <= before.len() + entries.len(),
        forall|k: int| 0 <= k < before.len() ==> #[trigger] after[k] == before[k],
        forall|k: int|
            before.len() <= k < after.len() ==> {
                let i = k - before.len();
                &&& #[trigger] after[k] matches Event::Property(idx, name, value, reply)
                &&& idx == i
                &&& name == entries[i].0@
                &&& value == entries[i].1
                &&& k < after.len() - 1 ==> reply == Ok::<bool, GeozeroError>(false)
                &&& k == after.len() - 1 ==> reply == r
            },
        after.len() == before.len() ==> r == Ok::<bool, GeozeroError>(false),
        after.len() < before.len() + entries.len() ==> r != Ok::<bool, GeozeroError>(false),
{
    assert forall|k: int| 0 <= k < before.len() implies #[trigger] after[k] == before[k] by {
        assert(after.take(before.len() as int)[k] == after[k]);
    }
    assert forall|k: int| before.len() <= k < after.len() implies {
        let i = k - before.len();
        &&& #[trigger] after[k] matches Event::Property(idx, name, value, reply)
        &&& idx == i
        &&& name == entries[i].0@
        &&& value == entries[i].1
        &&& k < after.len() - 1 ==> reply == Ok::<bool, GeozeroError>(false)
        &&& k == after.len() - 1 ==> reply == r
    } by {
        assert(after[before.len() + (k - before.len())] is Property);
    }
}

/// A list of the fields of a row has as many entries as the row has fields.
proof fn lemma_as_many_entries(entries: Seq<(String, dbase::FieldValue)>, row: Row)
    requires
        lists_row(entries, row),
    ensures
        row.dom().finite(),
        row.dom().len() == entries.len(),
{
    let names = entries.map_values(|entry: (String, dbase::FieldValue)| entry.0@);
    names.unique_seq_to_set();
    assert forall|name: Seq<char>| names.to_set().contains(name) <==> row.dom().contains(name) by {
        lemma_row_names(entries, row, name);
    }
    assert(names.to_set() =~= row.dom());
}

/// Whether the events from `at` on are the properties of a row, `count` of them: numbered from 0,
/// each a field of the row with its value, no field twice, each but the last answered with
/// `Ok(false)`, and none refused.
pub open spec fn hands_over(log: Seq<Event>, at: int, count: int, row: Row) -> bool {
    &&& forall|k: int|
        at <= k < at + count ==> {
            &&& #[trigger] log[k] matches Event::Property(idx, name, value, reply)
            &&& idx == k - at
            &&& row.contains_key(name)
            &&& row[name] == value
            &&& k < at + count - 1 ==> reply == Ok::<bool, GeozeroError>(false)
            &&& reply is Ok
        }
    &&& forall|k: int, l: int|
        at <= k < l < at + count ==> (#[trigger] log[k])->Property_1 != (
        #[trigger] log[l])->Property_1
}

/// Whether a log grew from `before` to `log` by a feature with this number, this row and this
/// shape (`None` being a null shape), of which `count` properties were handed over.
pub open spec fn feature_is_told(
    before: Seq<Event>,
    log: Seq<Event>,
    featno: u64,
    row: Row,
    shape: Option<ShapeView>,
    count: int,
) -> bool {
    let start = before.len() + (if featno == 0 {
        1int
    } else {
        0int
    });
    let shapes = if shape is Some {
        1int
    } else {
        0int
    };
    &&& 0 <= count <= row.dom().len()
    &&& log.len() == start + 6 + count + shapes
    &&& forall|k: int| 0 <= k < before.len() ==> #[trigger] log[k] == before[k]
    &&& featno == 0 ==> log[before.len() as int] == Event::DatasetBegin(None)
    &&& log[start] == Event::FeatureBegin(featno)
    &&& log[start + 1] == Event::PropertiesBegin
    &&& hands_over(log, start + 2, count, row)
    &&& count < row.dom().len() ==> count > 0 && (log[start + 1 + count] matches Event::Property(
        _,
        _,
        _,
        Ok(true),
    ))
    &&& log[start + 2 + count] == Event::PropertiesEnd
    &&& log[start + 3 + count] == Event::GeometryBegin
    &&& shape matches Some(s) ==> (log[start + 4 + count] matches Event::Shape(given, Ok(_))
        && given == s)
    &&& log[start + 4 + count + shapes] == Event::GeometryEnd
    &&& log[start + 5 + count + shapes] == Event::FeatureEnd(featno)
}

/// A feature that comes is told from its beginning to its end: that the dataset begins, if it is
/// the first; that the feature begins; its properties, between their begin and end; its shape, if
/// it has one, between the begin and the end of the geometry; that the feature ends. All fields of
/// its row are handed over, unless the processor wants no more (`Ok(true)`).
pub proof fn law_a_feature_is_told_whole(
    before: FeatureState,
    after: FeatureState,
    feature: ShapeRecord,
) -> (count: int)
    requires
        before.valid(),
        before.shapes.file_length <= usize::MAX,
        feature_step(before, after, Some(Ok(feature))),
    ensures
        record_row(feature.record) == before.table.upcoming[0],
        feature_is_told(
            before.log(),
            after.log(),
            before.featno,
            before.table.upcoming[0],
            parse_record(before.shapes.bytes, before.shapes.pos)->Ok_0.shape,
            count,
        ),
{
    let opened = dataset_opened(before);
    let log = after.log();
    let row = before.table.upcoming[0];
    let telling = lemma_feature_was_told(opened, after, Some(Ok(feature)));
    law_feature_takes_one_row_and_one_record(before, after, feature);
    lemma_telling_is_in_log(opened, after, Some(Ok(feature)), telling);
    lemma_as_many_entries(telling.entries, row);
    let begun = opened.log().push(Event::FeatureBegin(before.featno)).push(Event::PropertiesBegin);
    let told = telling.told;
    let read = telling.read.log;
    let ready = told.push(Event::PropertiesEnd).push(Event::GeometryBegin);
    law_properties_are_handed_over_in_order(telling.entries, begun, told, telling.reply);
    let count = told.len() - begun.len();
    let start = opened.log().len() as int;
    assert(shape_told(opened.shapes.bytes, opened.shapes.pos, ready, read));
    assert forall|k: int| 0 <= k < told.len() implies #[trigger] log[k] == told[k] by {
        assert(log.take(told.len() as int)[k] == log[k]);
    }
    assert forall|k: int| 0 <= k < ready.len() implies #[trigger] log[k] == ready[k] by {
        assert(log.take(ready.len() as int)[k] == log[k]);
    }
    assert forall|k: int| 0 <= k < read.len() implies #[trigger] log[k] == read[k] by {
        assert(log.take(read.len() as int)[k] == log[k]);
    }
    assert forall|k: int| 0 <= k < begun.len() implies #[trigger] log[k] == begun[k] by {
        assert(told[k] == begun[k]);
    }
    assert forall|k: int, l: int|
        start + 2 <= k < l < start + 2 + count implies (#[trigger] log[k])->Property_1 != (
    #[trigger] log[l])->Property_1 by {
        assert(told[k] is Property && told[l] is Property);
        assert(telling.entries[k - begun.len()].0@ != telling.entries[l - begun.len()].0@);
    }
    assert forall|k: int| start + 2 <= k < start + 2 + count implies {
        &&& #[trigger] log[k] matches Event::Property(idx, name, value, reply)
        &&& idx == k - (start + 2)
        &&& row.contains_key(name)
        &&& row[name] == value
        &&& k < start + 2 + count - 1 ==> reply == Ok::<bool, GeozeroError>(false)
        &&& reply is Ok
    } by {
        assert(told[k] is Property);
        let entry = telling.entries[k - begun.len()];
        assert(row.contains_key(entry.0@));
    }
    let shape = parse_record(before.shapes.bytes, before.shapes.pos)->Ok_0.shape;
    if shape is Some {
        assert(log[ready.len() as int] == read.last());
    }
    assert(log =~= read.push(Event::GeometryEnd).push(Event::FeatureEnd(before.featno)));
    if count < row.dom().len() {
        let last = told.len() - 1;
        assert(told.len() < begun.len() + telling.entries.len());
        assert(told[last] is Property);
        assert(log[last] == told[last]);
    }
    assert(hands_over(log, start + 2, count, row));
    assert(begun.len() == start + 2);
    assert(begun[start] == Event::FeatureBegin(before.featno));
    assert(begun[start + 1] == Event::PropertiesBegin);
    assert(ready.len() == start + 4 + count);
    if before.featno == 0 {
        assert(begun[start - 1] == Event::DatasetBegin(None));
    }
    count
}

/// Every field of a row reaches a processor that keeps asking for more: where each property of a
/// feature was answered with `Ok(false)`, there are as many as the row has fields, and each field
/// is among them, with its value, once.
pub proof fn law_every_field_is_handed_over(
    before: FeatureState,
    after: FeatureState,
    feature: ShapeRecord,
    name: Seq<char>,
) -> (at: int)
    requires
        before.valid(),
        before.shapes.file_length <= usize::MAX,
        feature_step(before, after, Some(Ok(feature))),
        forall|k: int|
            before.log().len() <= k < after.log().len() && (#[trigger] after.log()[k] is Property)
                ==> after.log()[k]->Property_3 == Ok::<bool, GeozeroError>(false),
        record_row(feature.record).contains_key(name),
    ensures
        before.log().len() <= at < after.log().len(),
        after.log()[at] matches Event::Property(_, given, value, _) && given == name && value
            == record_row(feature.record)[name],
        forall|k: int|
            before.log().len() <= k < after.log().len() && k != at && (
            #[trigger] after.log()[k] is Property) ==> after.log()[k]->Property_1 != name,
        exists|first: int|
            before.log().len() <= first && #[trigger] after.log()[first - 1]
                == Event::PropertiesBegin && after.log()[first + record_row(
                feature.record,
            ).dom().len()] == Event::PropertiesEnd && first <= at < first + record_row(
                feature.record,
            ).dom().len(),
{
    let log = after.log();
    let row = before.table.upcoming[0];
    let shape = parse_record(before.shapes.bytes, before.shapes.pos)->Ok_0.shape;
    let count = law_a_feature_is_told_whole(before, after, feature);
    lemma_rows_are_finite(before, after, feature);
    lemma_told_field(before.log(), log, before.featno, row, shape, count, name)
}

/// The rows of features have finitely many fields.
proof fn lemma_rows_are_finite(before: FeatureState, after: FeatureState, feature: ShapeRecord)
    requires
        before.valid(),
        before.shapes.file_length <= usize::MAX,
        feature_step(before, after, Some(Ok(feature))),
    ensures
        before.table.upcoming[0].dom().finite(),
{
    let telling = lemma_feature_was_told(dataset_opened(before), after, Some(Ok(feature)));
    lemma_as_many_entries(telling.entries, before.table.upcoming[0]);
}

/// Where a log grew by a feature and each property was answered with `Ok(false)`, a field of the
/// row was handed over.
proof fn lemma_told_field(
    before: Seq<Event>,
    log: Seq<Event>,
    featno: u64,
    row: Row,
    shape: Option<ShapeView>,
    count: int,
    name: Seq<char>,
) -> (at: int)
    requires
        feature_is_told(before, log, featno, row, shape, count),
        row.dom().finite(),
        row.contains_key(name),
        forall|k: int|
            before.len() <= k < log.len() && (#[trigger] log[k] is Property)
                ==> log[k]->Property_3 == Ok::<bool, GeozeroError>(false),
    ensures
        before.len() <= at < log.len(),
        log[at] matches Event::Property(_, given, value, _) && given == name && value == row[name],
        forall|k: int|
            before.len() <= k < log.len() && k != at && (#[trigger] log[k] is Property)
                ==> log[k]->Property_1 != name,
        exists|first: int|
            before.len() <= first && #[trigger] log[first - 1] == Event::PropertiesBegin
                && log[first + row.dom().len()] == Event::PropertiesEnd && first <= at < first
                + row.dom().len(),
{
    let start = before.len() + (if featno == 0 {
        1int
    } else {
        0int
    });
    let first = start + 2;
    if count < row.dom().len() {
        assert(log[start + 1 + count] is Property);
    }
    let at = lemma_handed_field(log, first, count, row, name);
    assert forall|k: int|
        before.len() <= k < log.len() && k != at && (
        #[trigger] log[k] is Property) implies log[k]->Property_1 != name by {
        if first <= k < first + count {
            assert(log[k]->Property_1 != log[at]->Property_1);
        } else if k < start {
            assert(featno == 0 && k == before.len());
        } else if k < first {
            assert(k == start || k == start + 1);
        } else {
            let behind = k - first - count;
            assert(behind == 0 || behind == 1 || behind == 2 || behind == 3 || behind == 4);
        }
    }
    assert(log[first - 1] == Event::PropertiesBegin);
    at
}

/// Where as many properties are handed over as a row has fields, each field is among them.
proof fn lemma_handed_field(log: Seq<Event>, first: int, count: int, row: Row, name: Seq<char>) -> (at:
    int)
    requires
        hands_over(log, first, count, row),
        row.dom().finite(),
        count == row.dom().len(),
        row.contains_key(name),
    ensures
        first <= at < first + count,
        log[at] is Property,
        log[at]->Property_1 == name,
        log[at]->Property_2 == row[name],
{
    let names = Seq::new(count as nat, |i: int| log[first + i]->Property_1);
    assert forall|i: int, j: int|
        0 <= i < names.len() && 0 <= j < names.len() && i != j implies names[i] != names[j] by {
        assert(log[first + i] is Property && log[first + j] is Property);
        if i < j {
            assert(log[first + i]->Property_1 != log[first + j]->Property_1);
        } else {
            assert(log[first + j]->Property_1 != log[first + i]->Property_1);
        }
    }
    names.unique_seq_to_set();
    assert forall|n: Seq<char>| names.to_set().contains(n) implies row.dom().contains(n) by {
        let i = choose|i: int| 0 <= i < names.len() && names[i] == n;
        assert(log[first + i] is Property);
    }
    vstd::seq_lib::seq_to_set_is_finite(names);
    vstd::set_lib::lemma_subset_equality(names.to_set(), row.dom());
    assert(names.to_set().contains(name));
    let i = choose|i: int| 0 <= i < names.len() && names[i] == name;
    assert(log[first + i] is Property);
    first + i
}

/// The smaller of a position and the largest `usize`.
pub open spec fn capped(position: int) -> int {
    if position <= usize::MAX {
        position
    } else {
        usize::MAX as int
    }
}

/// What asking for a geometry does, by what stands in the bytes: at the end of the file, or after
/// an error, nothing comes and nothing changes. Else a record that cannot be read is the error; a
/// null shape of negative size too, and any other null shape is passed over; any other shape is
/// handed over, and a refusal is the error. Where there is no error the next record is looked for
/// behind this one: eight bytes for its head and two for each word of its size.
pub proof fn law_what_comes_of_a_record(
    before: GeometryState,
    after: GeometryState,
    r: Option<Result<(), Error>>,
)
    requires
        geometry_step(before, after, r),
    ensures
        before.failed || before.current_pos >= before.file_length ==> r is None && after == before,
        !before.failed && before.current_pos < before.file_length ==> {
            &&& r is Some
            &&& after.failed == r->0 is Err
            &&& after.bytes == before.bytes
            &&& after.file_length == before.file_length
            &&& after.replies == before.replies
            &&& r->0 is Err ==> after.current_pos == before.current_pos
            &&& match parse_record(before.bytes, before.pos) {
                Err(error) => {
                    &&& r == Some(Err::<(), Error>(error))
                    &&& after.log == before.log
                },
                Ok(record) => {
                    &&& after.pos == record.end
                    &&& r->0 is Ok ==> after.current_pos == capped(
                        before.current_pos + 8 + 2 * record.header.record_size,
                    )
                    &&& match record.shape {
                        None => {
                            &&& after.log == before.log
                            &&& r->0 is Ok <==> record.header.record_size >= 0
                            &&& r->0 is Err ==> r == Some(
                                Err::<(), Error>(Error::InvalidShapeRecordSize),
                            )
                        },
                        Some(shape) => {
                            &&& after.log.len() == before.log.len() + 1
                            &&& forall|k: int|
                                0 <= k < before.log.len() ==> #[trigger] after.log[k]
                                    == before.log[k]
                            &&& after.log.last() matches Event::Shape(given, reply)
                            &&& given == shape
                            &&& r->0 is Ok <==> reply is Ok
                            &&& reply matches Err(error) ==> r == Some(
                                Err::<(), Error>(Error::GeozeroError(error)),
                            )
                        },
                    }
                },
            }
        },
{
    if !before.failed && before.current_pos < before.file_length {
        if let Ok(record) = parse_record(before.bytes, before.pos) {
            if record.shape is Some {
                lemma_shape_records_have_a_size(before.bytes, before.pos);
                assert forall|k: int| 0 <= k < before.log.len() implies #[trigger] after.log[k]
                    == before.log[k] by {
                    assert(after.log.drop_last()[k] == after.log[k]);
                }
            }
        }
    }
}

/// A record with a shape has no negative size.
proof fn lemma_shape_records_have_a_size(bytes: Seq<u8>, at: int)
    ensures
        parse_record(bytes, at) matches Ok(record) ==> (record.shape is Some
            ==> record.header.record_size >= 2),
{
}

/// Where the record behind one of this size starts, as the position moves on.
pub proof fn law_positions_move_by_head_and_size(current_pos: int, record_size: int)
    ensures
        position_after(current_pos, record_size) == capped(current_pos + 8 + 2 * record_size),
{
}

/// What asking for a feature does where none comes. After an error, nothing. At the end of the
/// main file, and where the table has no more rows, the dataset ends. A row that cannot be read is
/// the error, and nothing is told of it. A row is used up even where its feature does not come; the
/// error is then that of the record, or the last thing told was refused with it.
pub proof fn law_what_ends_the_features(
    before: FeatureState,
    after: FeatureState,
    r: Option<Result<ShapeRecord, Error>>,
)
    requires
        before.valid(),
        before.shapes.file_length <= usize::MAX,
        feature_step(before, after, r),
    ensures
        before.failed ==> r is None && after == before,
        !before.failed ==> {
            let told = if before.featno == 0 {
                before.log().push(Event::DatasetBegin(None))
            } else {
                before.log()
            };
            let at_end = before.shapes.current_pos >= before.shapes.file_length;
            &&& at_end ==> {
                &&& r is None
                &&& !after.failed
                &&& after.log() == told.push(Event::DatasetEnd)
                &&& after.featno == before.featno
            }
            &&& !at_end && before.table.upcoming.len() == 0 ==> {
                &&& after.failed
                &&& after.featno == before.featno
                &&& after.shapes.pos == before.shapes.pos
                &&& match before.table.end {
                    None => r is None && after.log() == told.push(Event::DatasetEnd),
                    Some(error) => r == Some(Err::<ShapeRecord, Error>(Error::DbaseError(error)))
                        && after.log() == told,
                }
            }
            &&& !at_end && before.table.upcoming.len() > 0 ==> {
                &&& r is Some
                &&& after.failed == r->0 is Err
                &&& after.table.upcoming == before.table.upcoming.drop_first()
                &&& after.table.end == before.table.end
                &&& after.featno == before.featno + (if r->0 is Ok {
                    1int
                } else {
                    0int
                })
                &&& r->0 matches Err(Error::GeozeroError(error)) ==> {
                    &&& after.log().len() > told.len()
                    &&& match after.log().last() {
                        Event::Property(_, _, _, Err(e)) => e == error,
                        Event::Shape(_, Err(e)) => e == error,
                        _ => false,
                    }
                }
                &&& r->0 is Err && !(r->0 matches Err(Error::GeozeroError(_))) ==> {
                    &&& after.log().last() == Event::GeometryBegin
                    &&& match parse_record(before.shapes.bytes, before.shapes.pos) {
                        Err(error) => r == Some(Err::<ShapeRecord, Error>(error)),
                        Ok(record) => {
                            &&& record.shape is None
                            &&& record.header.record_size < 0
                            &&& r == Some(Err::<ShapeRecord, Error>(Error::InvalidShapeRecordSize))
                        },
                    }
                }
            }
        },
{
    if !before.finished() && before.table.upcoming.len() > 0 {
        let opened = dataset_opened(before);
        let telling = lemma_feature_was_told(opened, after, r);
        lemma_telling_is_in_log(opened, after, r, telling);
        lemma_last_reply(opened, after, r, telling);
        if telling.reply is Ok {
            let ready = telling.told.push(Event::PropertiesEnd).push(Event::GeometryBegin);
            law_what_comes_of_a_record(
                opened.shapes.logged(ready),
                telling.read,
                telling.geometry,
            );
        }
    }
}

/// A reader of a main file holds its bytes and its head, and stands behind the head; it has no
/// index and no table. A wrong head is the error.
pub proof fn law_a_new_reader_holds_its_file(bytes: Seq<u8>, r: Result<ShpReader, Error>)
    requires
        reader_created(bytes, r),
    ensures
        match parse_header(bytes, 0) {
            Err(error) => r == Err::<ShpReader, Error>(error),
            Ok(header) => {
                &&& r is Ok
                &&& r->Ok_0.source.bytes@ == bytes
                &&& r->Ok_0.source.pos == 100
                &&& r->Ok_0.header == header
                &&& r->Ok_0.shapes_index is None
                &&& r->Ok_0.dbf_reader is None
            },
        },
{
}

/// Adding an index gives the reader its entries, adding a table the table; nothing else of the
/// reader changes, and nothing at all where it fails.
pub proof fn law_adding_a_file_adds_it(
    before: ShpReader,
    bytes: Seq<u8>,
    after: ShpReader,
    r: Result<(), Error>,
)
    ensures
        index_added(before, bytes, after, r) ==> match parse_index(bytes) {
            Err(error) => r == Err::<(), Error>(error) && after == before,
            Ok(entries) => {
                &&& r is Ok
                &&& after.shapes_index is Some
                &&& after.shapes_index->0@ == entries
                &&& after.source == before.source
                &&& after.header == before.header
                &&& after.dbf_reader == before.dbf_reader
            },
        },
        table_added(before, bytes, after, r) ==> match dbf_opened(bytes) {
            Err(error) => r == Err::<(), Error>(Error::DbaseError(error)) && after == before,
            Ok(contents) => {
                &&& r is Ok
                &&& after.dbf_reader is Some
                &&& dbf_contents(after.dbf_reader->0) == contents
                &&& after.source == before.source
                &&& after.header == before.header
                &&& after.shapes_index == before.shapes_index
            },
        },
{
}

/// A file that could not be read is the error, unless a file before it is at fault: the main file
/// comes first, then the index, then the table.
pub proof fn law_unreadable_files_are_reported(
    shp: Result<Vec<u8>, std::io::Error>,
    shx: Option<Result<Vec<u8>, std::io::Error>>,
    dbf: Option<Result<Vec<u8>, std::io::Error>>,
    r: Result<ShpReader, Error>,
)
    requires
        files_read(shp, shx, dbf, r),
    ensures
        shp matches Err(error) ==> r == Err::<ShpReader, Error>(Error::IoError(error)),
        shp matches Ok(bytes) ==> match parse_header(bytes@, 0) {
            Err(error) => r == Err::<ShpReader, Error>(error),
            Ok(_) => match shx {
                Some(Err(error)) => r == Err::<ShpReader, Error>(Error::IoError(error)),
                Some(Ok(index)) if parse_index(index@) is Err => r == Err::<ShpReader, Error>(
                    parse_index(index@)->Err_0,
                ),
                _ => match dbf {
                    Some(Err(error)) => r == Err::<ShpReader, Error>(Error::IoError(error)),
                    Some(Ok(table)) if dbf_opened(table@) is Err => r == Err::<ShpReader, Error>(
                        Error::DbaseError(dbf_opened(table@)->Err_0),
                    ),
                    _ => r is Ok,
                },
            },
        },
{
}

/// Where iteration begins: behind the head, with nothing failed and nothing told, and with the end
/// at twice the length in the head, or at the largest position where that is negative.
pub proof fn law_iteration_begins_behind_the_head(
    reader: ShpReader,
    table: DbfContents,
    log: Seq<Event>,
    replies: Set<Event>,
)
    ensures
        ({
            let begun = geometries_begun(reader, log, replies);
            &&& begun.bytes == reader.source.bytes@
            &&& begun.pos == reader.source.pos
            &&& begun.current_pos == 100
            &&& reader.header.file_length >= 0 ==> begun.file_length == 2
                * reader.header.file_length
            &&& reader.header.file_length < 0 ==> begun.file_length == usize::MAX
            &&& !begun.failed
            &&& begun.log == log
            &&& begun.replies == replies
            &&& features_begun(reader, table, log, replies).shapes == begun
            &&& features_begun(reader, table, log, replies).table == table
            &&& features_begun(reader, table, log, replies).featno == 0
            &&& !features_begun(reader, table, log, replies).failed
        }),
{
}

/// A record with this shape, `None` being a null shape.
#[verifier::opaque]
pub open spec fn one_record(number: i32, shape: Option<ShapeView>) -> Seq<u8> {
    match shape {
        Some(shape) => shape_record(number, shape),
        None => null_record(number, 2),
    }
}

/// Records, one after the other.
pub open spec fn records_bytes(numbers: Seq<i32>, shapes: Seq<Option<ShapeView>>) -> Seq<u8>
    decreases shapes.len(),
{
    if shapes.len() == 0 {
        Seq::empty()
    } else {
        one_record(numbers[0], shapes[0]) + records_bytes(numbers.drop_first(), shapes.drop_first())
    }
}

/// Whether all of these are shapes of the format, or null shapes.
pub open spec fn all_fit(shapes: Seq<Option<ShapeView>>) -> bool {
    forall|i: int|
        0 <= i < shapes.len() ==> (#[trigger] shapes[i] matches Some(shape) ==> fits_record(shape))
}

/// A record that was written is there to be read.
proof fn lemma_one_record(bytes: Seq<u8>, at: int, number: i32, shape: Option<ShapeView>)
    requires
        0 <= at,
        shape matches Some(s) ==> fits_record(s),
        stands_at(bytes, at, one_record(number, shape)),
    ensures
        parse_record(bytes, at) is Ok,
        parse_record(bytes, at)->Ok_0.shape == shape,
        parse_record(bytes, at)->Ok_0.header.record_size >= 0,
        parse_record(bytes, at)->Ok_0.end == at + one_record(number, shape).len(),
        one_record(number, shape).len() == 8 + 2 * parse_record(
            bytes,
            at,
        )->Ok_0.header.record_size,
{
    reveal(one_record);
    match shape {
        Some(shape) => {
            lemma_record_lengths(number, shape);
            law_shape_record_reads_back(bytes, at, number, shape);
        },
        None => {
            law_null_record_reads_back(bytes, at, number, 2);
            lemma_null_record_length(number, 2);
        },
    }
}

/// Records that were written are there to be read.
proof fn lemma_written_records(
    bytes: Seq<u8>,
    at: int,
    numbers: Seq<i32>,
    shapes: Seq<Option<ShapeView>>,
)
    requires
        0 <= at,
        numbers.len() == shapes.len(),
        all_fit(shapes),
        stands_at(bytes, at, records_bytes(numbers, shapes)),
    ensures
        records_between(bytes, at, at + records_bytes(numbers, shapes).len(), shapes),
    decreases shapes.len(),
{
    if shapes.len() > 0 {
        let first = one_record(numbers[0], shapes[0]);
        let (later_numbers, later) = (numbers.drop_first(), shapes.drop_first());
        let rest = records_bytes(later_numbers, later);
        lemma_pieces_stand(bytes, at, first, rest);
        lemma_later_fit(shapes);
        lemma_written_records(bytes, at + first.len(), later_numbers, later);
        lemma_one_record(bytes, at, numbers[0], shapes[0]);
        lemma_first_record(bytes, at, at + first.len(), at + first.len() + rest.len(), shapes);
    }
}

/// What holds of all shapes holds of all but the first.
proof fn lemma_later_fit(shapes: Seq<Option<ShapeView>>)
    requires
        all_fit(shapes),
        shapes.len() > 0,
    ensures
        all_fit(shapes.drop_first()),
        shapes[0] matches Some(shape) ==> fits_record(shape),
{
    let later = shapes.drop_first();
    assert forall|i: int| 0 <= i < later.len() implies (#[trigger] later[i] matches Some(shape)
        ==> fits_record(shape)) by {
        assert(later[i] == shapes[i + 1]);
    }
}

/// A record in front of records makes one more.
proof fn lemma_first_record(
    bytes: Seq<u8>,
    at: int,
    next: int,
    end: int,
    shapes: Seq<Option<ShapeView>>,
)
    requires
        shapes.len() > 0,
        parse_record(bytes, at) is Ok,
        parse_record(bytes, at)->Ok_0.shape == shapes[0],
        parse_record(bytes, at)->Ok_0.header.record_size >= 0,
        parse_record(bytes, at)->Ok_0.end == next,
        next == at + 8 + 2 * parse_record(bytes, at)->Ok_0.header.record_size,
        records_between(bytes, next, end, shapes.drop_first()),
    ensures
        records_between(bytes, at, end, shapes),
{
}

/// Whether `bytes` are a main file with this head and these records.
pub open spec fn is_main_file(
    bytes: Seq<u8>,
    unused: Seq<u8>,
    header: Header,
    numbers: Seq<i32>,
    shapes: Seq<Option<ShapeView>>,
) -> bool {
    &&& unused.len() == 20
    &&& numbers.len() == shapes.len()
    &&& all_fit(shapes)
    &&& bytes == header_bytes(unused, header) + records_bytes(numbers, shapes)
    &&& 2 * header.file_length == bytes.len()
}

/// The calls of a processor that is handed these shapes and takes them: one for each that is not
/// null, in their order.
pub open spec fn handed(shapes: Seq<Option<ShapeView>>) -> Seq<Event> {
    shapes.filter(|shape: Option<ShapeView>| shape is Some).map_values(
        |shape: Option<ShapeView>| Event::Shape(shape->0, Ok(())),
    )
}

/// The calls come shape by shape.
proof fn lemma_handed(shapes: Seq<Option<ShapeView>>)
    ensures
        handed(shapes) == shapes_taken(shapes),
    decreases shapes.len(),
{
    let some = |shape: Option<ShapeView>| shape is Some;
    let call = |shape: Option<ShapeView>| Event::Shape(shape->0, Ok(()));
    if shapes.len() == 0 {
        reveal(Seq::filter);
        assert(handed(shapes) =~= Seq::<Event>::empty());
    } else {
        let first = seq![shapes[0]];
        let rest = shapes.drop_first();
        assert(shapes =~= first + rest);
        Seq::filter_distributes_over_add(first, rest, some);
        lemma_handed(rest);
        assert(first.filter(some) =~= if shapes[0] is Some {
            first
        } else {
            Seq::empty()
        }) by {
            reveal(Seq::filter);
            assert(first.drop_last() =~= Seq::<Option<ShapeView>>::empty());
            assert(first.drop_last().filter(some) =~= Seq::<Option<ShapeView>>::empty());
        }
        assert(shapes.filter(some).map_values(call) =~= first.filter(some).map_values(call)
            + rest.filter(some).map_values(call));
        assert(handed(shapes) =~= shapes_taken(shapes));
    }
}

/// A main file that was written is read: a reader of it is created, with its head. A processor
/// that takes everything is handed the shapes of its records, each as it was written, in their
/// order and each once; as many geometries come as there are records, and then nothing more.
pub proof fn law_a_written_file_is_read(
    bytes: Seq<u8>,
    unused: Seq<u8>,
    header: Header,
    numbers: Seq<i32>,
    shapes: Seq<Option<ShapeView>>,
    created: Result<ShpReader, Error>,
    log: Seq<Event>,
    replies: Set<Event>,
    states: Seq<GeometryState>,
    results: Seq<Option<Result<(), Error>>>,
)
    requires
        is_main_file(bytes, unused, header, numbers, shapes),
        bytes.len() <= usize::MAX,
        reader_created(bytes, created),
        takes_all(replies),
        geometry_run(states, results),
        states[0] == geometries_begun(created->Ok_0, log, replies),
        results.len() > shapes.len(),
    ensures
        created is Ok,
        created->Ok_0.header == header,
        forall|i: int| 0 <= i < shapes.len() ==> #[trigger] results[i] matches Some(Ok(_)),
        forall|i: int| shapes.len() <= i < results.len() ==> #[trigger] results[i] is None,
        states.last().log == log + handed(shapes),
{
    lemma_main_file(bytes, unused, header, numbers, shapes);
    law_a_new_reader_holds_its_file(bytes, created);
    lemma_handed(shapes);
    assert forall|i: int| 0 <= i < results.len() implies !(#[trigger] results[i] matches Some(
        Err(Error::GeozeroError(_)),
    )) by {
        law_geometries_are_all_taken(states, results, i);
    }
    law_well_formed_file_yields_every_geometry(states, results, shapes);
}

/// A main file that was written has its head and its records.
proof fn lemma_main_file(
    bytes: Seq<u8>,
    unused: Seq<u8>,
    header: Header,
    numbers: Seq<i32>,
    shapes: Seq<Option<ShapeView>>,
)
    requires
        is_main_file(bytes, unused, header, numbers, shapes),
    ensures
        parse_header(bytes, 0) == Ok::<Header, Error>(header),
        records_between(bytes, 100, bytes.len() as int, shapes),
        bytes.len() >= 100,
{
    let head = header_bytes(unused, header);
    let records = records_bytes(numbers, shapes);
    assert(stands_at(bytes, 0, head + records));
    lemma_pieces_stand(bytes, 0, head, records);
    lemma_header_stands(bytes, 0, unused, header);
    lemma_written_records(bytes, 100, numbers, shapes);
}

/// A shapefile that was written is read: where its main file was written and its table has a row
/// for each record, a processor that takes everything gets a feature for each, numbered from 0,
/// with its row and its shape, and then nothing more.
pub proof fn law_a_written_shapefile_is_read(
    bytes: Seq<u8>,
    unused: Seq<u8>,
    header: Header,
    numbers: Seq<i32>,
    shapes: Seq<Option<ShapeView>>,
    created: Result<ShpReader, Error>,
    table: DbfContents,
    log: Seq<Event>,
    replies: Set<Event>,
    states: Seq<FeatureState>,
    results: Seq<Option<Result<ShapeRecord, Error>>>,
)
    requires
        is_main_file(bytes, unused, header, numbers, shapes),
        bytes.len() <= usize::MAX,
        reader_created(bytes, created),
        takes_all(replies),
        feature_run(states, results),
        states[0] == features_begun(created->Ok_0, table, log, replies),
        shapes.len() <= table.upcoming.len(),
        results.len() > shapes.len(),
    ensures
        created is Ok,
        forall|i: int|
            0 <= i < shapes.len() ==> {
                &&& #[trigger] results[i] matches Some(Ok(feature))
                &&& record_row(feature.record) == table.upcoming[i]
                &&& states[i].featno == i
                &&& parse_record(bytes, states[i].shapes.pos) matches Ok(record)
                &&& record.shape == shapes[i]
            },
        forall|i: int| shapes.len() <= i < results.len() ==> #[trigger] results[i] is None,
{
    lemma_main_file(bytes, unused, header, numbers, shapes);
    law_a_new_reader_holds_its_file(bytes, created);
    law_features_are_all_taken(states, results);
    law_well_formed_shapefile_yields_every_feature(states, results, shapes);
    assert forall|i: int| 0 <= i < shapes.len() implies {
        &&& #[trigger] results[i] matches Some(Ok(feature))
        &&& record_row(feature.record) == table.upcoming[i]
        &&& states[i].featno == i
        &&& parse_record(bytes, states[i].shapes.pos) matches Ok(record)
        &&& record.shape == shapes[i]
    } by {
        assert(has_row(results[i], states[0], i));
        lemma_features_come(states, results, shapes, i);
        law_features_pair_with_rows(states, results, i);
        lemma_bytes_stay(states, results, i);
        assert(shapes.skip(i)[0] == shapes[i]);
        assert(records_between(
            states[i].shapes.bytes,
            states[i].shapes.pos,
            states[i].shapes.file_length,
            shapes.skip(i),
        ));
    }
}

/// The bytes of the main file stay the same throughout a run.
proof fn lemma_bytes_stay(
    states: Seq<FeatureState>,
    results: Seq<Option<Result<ShapeRecord, Error>>>,
    i: int,
)
    requires
        feature_run(states, results),
        0 <= i < states.len(),
    ensures
        states[i].shapes.bytes == states[0].shapes.bytes,
    decreases i,
{
    if i > 0 {
        lemma_bytes_stay(states, results, i - 1);
        let before = states[i - 1];
        assert(feature_step(before, states[i], results[i - 1]));
        if !before.finished() && before.table.upcoming.len() > 0 {
            let telling = lemma_feature_was_told(dataset_opened(before), states[i], results[i - 1]);
        }
    }
}

/// The sink takes everything: it answers every property with `Ok(false)` and refuses no shape.
pub proof fn law_the_sink_takes_everything(sink: ProcessorSink, event: Event)
    ensures
        sink.replies().contains(event) ==> (event matches Event::Property(_, _, _, Ok(false))),
        takes_all(sink.replies()),
{
}

} // verus!
