//! What holds of reading a shapefile as a whole.

use crate::dbf::{Row, lists_row, record_row};
use crate::error::{Error, GeozeroError};
use crate::processor::{Event, takes_all};
use crate::reader::{
    FeatureState, GeometryState, ShapeRecord, ShpReader, Telling, dataset_opened, feature_read,
    feature_step, feature_told, files_read, geometry_step, index_added, lemma_feature_was_told,
    position_after, properties_told, reader_created, refused_at_once, table_added,
};
use crate::shp_reader::{ShapeView, parse_record, shape_told};
use vstd::prelude::*;

verus! {

/// Whether asking for geometries again and again leads through `states` and gives `results`.
pub open spec fn geometry_run(
    states: Seq<GeometryState>,
    results: Seq<Option<Result<(), Error>>>,
) -> bool {
    &&& states.len() == results.len() + 1
    &&& forall|i: int|
        0 <= i < results.len() ==> geometry_step(states[i], states[i + 1], #[trigger] results[i])
}

/// Once the geometries have come to an end, they stay there: asking again gives `None` and
/// changes nothing.
pub proof fn law_geometries_are_fused(
    before: GeometryState,
    ended: GeometryState,
    after: GeometryState,
    r: Option<Result<(), Error>>,
)
    requires
        geometry_step(before, ended, None),
        geometry_step(ended, after, r),
    ensures
        r is None,
        after == ended,
{
}

/// An error ends the geometries: asking again gives `None` and changes nothing.
pub proof fn law_geometries_end_with_an_error(
    before: GeometryState,
    failed: GeometryState,
    after: GeometryState,
    error: Error,
    r: Option<Result<(), Error>>,
)
    requires
        geometry_step(before, failed, Some(Err(error))),
        geometry_step(failed, after, r),
    ensures
        r is None,
        after == failed,
{
}

/// Whether a call was refused, with this error.
pub open spec fn refused(event: Event, error: GeozeroError) -> bool {
    match event {
        Event::Property(_, _, _, Err(e)) => e == error,
        Event::Shape(_, Err(e)) => e == error,
        _ => false,
    }
}

/// Where the processor refuses a shape, that is the error, and the last thing that the processor
/// hears.
pub proof fn law_a_refusal_ends_the_geometries(
    before: GeometryState,
    after: GeometryState,
    r: Option<Result<(), Error>>,
    i: int,
    error: GeozeroError,
)
    requires
        geometry_step(before, after, r),
        before.log.len() <= i < after.log.len(),
        refused(after.log[i], error),
    ensures
        r == Some(Err::<(), Error>(Error::GeozeroError(error))),
        after.failed,
        i == after.log.len() - 1,
{
}

/// Every geometry that comes brings the iterator forward, by the head of a record at least, or
/// to its end.
pub proof fn law_geometries_make_progress(before: GeometryState, after: GeometryState)
    requires
        before.file_length <= usize::MAX,
        geometry_step(before, after, Some(Ok(()))),
    ensures
        after.current_pos >= before.current_pos + 8 || after.finished(),
        after.file_length == before.file_length,
{
}

/// From the first `None` on, and from right after the first error on, nothing comes any more: a
/// run reports one error at most, and the error is the last thing that it reports.
pub proof fn law_geometries_report_one_error(
    states: Seq<GeometryState>,
    results: Seq<Option<Result<(), Error>>>,
    i: int,
    j: int,
)
    requires
        geometry_run(states, results),
        0 <= i < j < results.len(),
        !(results[i] matches Some(Ok(_))),
    ensures
        results[j] is None,
        states[j + 1] == states[i + 1],
    decreases j - i,
{
    assert(geometry_step(states[i], states[i + 1], results[i]));
    assert(geometry_step(states[j], states[j + 1], results[j]));
    if j > i + 1 {
        law_geometries_report_one_error(states, results, i, j - 1);
        assert(states[j].finished()) by {
            assert(geometry_step(states[j - 1], states[j], results[j - 1]));
        }
    }
}

/// What is there to come shrinks by the head of a record with each geometry, so a run comes to
/// an end: item number `i`, counted from 0, comes only where at least `8 * i` bytes of the
/// file, going by its head, lie behind the first.
pub proof fn law_geometries_come_to_an_end(
    states: Seq<GeometryState>,
    results: Seq<Option<Result<(), Error>>>,
    i: int,
)
    requires
        geometry_run(states, results),
        states[0].file_length <= usize::MAX,
        0 <= i < results.len(),
        results[i] is Some,
    ensures
        8 * i < states[0].file_length - states[0].current_pos,
{
    lemma_position_in_run(states, results, i);
    assert(geometry_step(states[i], states[i + 1], results[i]));
}

/// Before item `i` of a run comes, `i` geometries have come.
proof fn lemma_position_in_run(
    states: Seq<GeometryState>,
    results: Seq<Option<Result<(), Error>>>,
    i: int,
)
    requires
        geometry_run(states, results),
        states[0].file_length <= usize::MAX,
        0 <= i < results.len(),
        results[i] is Some,
    ensures
        states[i].current_pos >= states[0].current_pos + 8 * i,
        states[i].file_length == states[0].file_length,
        states[i].bytes == states[0].bytes,
        forall|j: int| 0 <= j < i ==> #[trigger] results[j] matches Some(Ok(_)),
    decreases i,
{
    assert(geometry_step(states[i], states[i + 1], results[i]));
    if i > 0 {
        assert(geometry_step(states[i - 1], states[i], results[i - 1]));
        if !(results[i - 1] matches Some(Ok(_))) {
            law_geometries_report_one_error(states, results, i - 1, i);
        }
        lemma_position_in_run(states, results, i - 1);
    }
}

/// Whether the bytes from `at` to `end` are records, one right after the other, that hold
/// `shapes` (`None` being a null shape).
pub open spec fn records_between(
    bytes: Seq<u8>,
    at: int,
    end: int,
    shapes: Seq<Option<ShapeView>>,
) -> bool
    decreases shapes.len(),
{
    if shapes.len() == 0 {
        at == end
    } else {
        &&& parse_record(bytes, at) matches Ok(record)
        &&& record.shape == shapes[0]
        &&& record.header.record_size >= 0
        &&& record.end == at + 8 + 2 * record.header.record_size
        &&& records_between(bytes, record.end, end, shapes.drop_first())
    }
}

/// The calls of a processor that is handed `shapes` and takes them all.
pub open spec fn shapes_taken(shapes: Seq<Option<ShapeView>>) -> Seq<Event>
    decreases shapes.len(),
{
    if shapes.len() == 0 {
        Seq::empty()
    } else {
        match shapes[0] {
            Some(shape) => seq![Event::Shape(shape, Ok(()))] + shapes_taken(shapes.drop_first()),
            None => shapes_taken(shapes.drop_first()),
        }
    }
}

/// A well-formed file yields every record: where records fill the file up to the end that its
/// head tells, and the processor refuses no shape, each record comes, and then the end. The
/// processor is handed the shapes in their order, each once.
pub proof fn law_well_formed_file_yields_every_geometry(
    states: Seq<GeometryState>,
    results: Seq<Option<Result<(), Error>>>,
    shapes: Seq<Option<ShapeView>>,
)
    requires
        geometry_run(states, results),
        !states[0].failed,
        states[0].pos == states[0].current_pos,
        states[0].file_length <= usize::MAX,
        records_between(states[0].bytes, states[0].pos, states[0].file_length, shapes),
        forall|i: int|
            0 <= i < results.len() ==> !(#[trigger] results[i] matches Some(
                Err(Error::GeozeroError(_)),
            )),
        results.len() > shapes.len(),
    ensures
        forall|i: int| 0 <= i < shapes.len() ==> #[trigger] results[i] matches Some(Ok(_)),
        forall|i: int| shapes.len() <= i < results.len() ==> #[trigger] results[i] is None,
        states.last().log == states[0].log + shapes_taken(shapes),
        !states.last().failed,
    decreases shapes.len(),
{
    assert(geometry_step(states[0], states[1], results[0]));
    if shapes.len() > 0 {
        lemma_records_reach_forward(states[0].bytes, states[0].pos, states[0].file_length, shapes);
        let record = parse_record(states[0].bytes, states[0].pos)->Ok_0;
        lemma_records_reach_forward(
            states[0].bytes,
            record.end,
            states[0].file_length,
            shapes.drop_first(),
        );
        let rest = states.drop_first();
        let rest_results = results.drop_first();
        assert forall|i: int| 0 <= i < rest_results.len() implies geometry_step(
            rest[i],
            rest[i + 1],
            #[trigger] rest_results[i],
        ) by {
            assert(geometry_step(states[i + 1], states[i + 2], results[i + 1]));
        }
        assert forall|i: int| 0 <= i < rest_results.len() implies !(
        #[trigger] rest_results[i] matches Some(Err(Error::GeozeroError(_)))) by {
            assert(rest_results[i] == results[i + 1]);
        }
        assert(results[0] matches Some(Ok(_)));
        law_well_formed_file_yields_every_geometry(rest, rest_results, shapes.drop_first());
        assert forall|i: int| 0 <= i < shapes.len() implies #[trigger] results[i] matches Some(
            Ok(_),
        ) by {
            if i > 0 {
                assert(results[i] == rest_results[i - 1]);
            }
        }
        assert forall|i: int| shapes.len() <= i < results.len() implies #[trigger] results[i] is None by {
            assert(results[i] == rest_results[i - 1]);
        }
        assert(states.last() == rest.last());
        assert(states.last().log =~= states[0].log + shapes_taken(shapes)) by {
            match shapes[0] {
                Some(shape) => {
                    assert(states[1].log.last()->Shape_1->Ok_0 == ());
                    assert(states[1].log =~= states[1].log.drop_last().push(states[1].log.last()));
                },
                None => {},
            }
        }
    } else {
        assert forall|i: int| 0 <= i < results.len() implies #[trigger] results[i] is None by {
            if i > 0 {
                law_geometries_report_one_error(states, results, 0, i);
            }
        }
        if results.len() > 1 {
            law_geometries_report_one_error(states, results, 0, results.len() - 1);
        }
        assert(states.last() == states[1]);
        assert(states[0].log + shapes_taken(shapes) =~= states[0].log);
    }
}

/// Records lie one behind the other.
proof fn lemma_records_reach_forward(
    bytes: Seq<u8>,
    at: int,
    end: int,
    shapes: Seq<Option<ShapeView>>,
)
    requires
        records_between(bytes, at, end, shapes),
    ensures
        at + 8 * shapes.len() <= end,
    decreases shapes.len(),
{
    if shapes.len() > 0 {
        let record = parse_record(bytes, at)->Ok_0;
        lemma_records_reach_forward(bytes, record.end, end, shapes.drop_first());
    }
}

/// Whether the record that is read next, if its shape is null, claims no more than a null shape
/// takes. (The size of a null shape is not held against anything, so a larger one takes the
/// iterator ahead of what it has read, and perhaps to the end of the file.)
pub open spec fn null_shape_is_small(state: GeometryState) -> bool {
    match parse_record(state.bytes, state.pos) {
        Ok(record) => record.shape is None ==> record.header.record_size <= 2,
        Err(_) => true,
    }
}

/// A file that is cut short reports one error and stops: where the bytes end before the end
/// that the head of the file tells, a run that has come to its end has reported an error, as the
/// last thing before the end.
pub proof fn law_truncated_file_reports_one_error(
    states: Seq<GeometryState>,
    results: Seq<Option<Result<(), Error>>>,
)
    requires
        geometry_run(states, results),
        forall|i: int|
            0 <= i < results.len() && !(#[trigger] states[i]).finished() ==> null_shape_is_small(
                states[i],
            ),
        !states[0].failed,
        states[0].current_pos <= states[0].pos <= states[0].bytes.len(),
        states[0].bytes.len() < states[0].file_length <= usize::MAX,
        results.len() > 0,
        results.last() is None,
    ensures
        exists|i: int|
            {
                &&& 0 <= i < results.len()
                &&& #[trigger] results[i] matches Some(Err(_))
                &&& forall|j: int| 0 <= j < i ==> (#[trigger] results[j] matches Some(Ok(_)))
                &&& forall|j: int| i < j < results.len() ==> #[trigger] results[j] is None
            },
{
    lemma_truncated_run(states, results, results.len() - 1);
    let i = choose|i: int|
        {
            &&& 0 <= i < results.len()
            &&& #[trigger] results[i] matches Some(Err(_))
        };
    lemma_position_in_run(states, results, i);
    assert forall|j: int| i < j < results.len() implies #[trigger] results[j] is None by {
        law_geometries_report_one_error(states, results, i, j);
    }
}

/// As long as a file that is cut short has reported no error, there is more to come.
proof fn lemma_truncated_run(
    states: Seq<GeometryState>,
    results: Seq<Option<Result<(), Error>>>,
    n: int,
)
    requires
        geometry_run(states, results),
        forall|i: int|
            0 <= i < results.len() && !(#[trigger] states[i]).finished() ==> null_shape_is_small(
                states[i],
            ),
        !states[0].failed,
        states[0].current_pos <= states[0].pos <= states[0].bytes.len(),
        states[0].bytes.len() < states[0].file_length <= usize::MAX,
        0 <= n < results.len(),
    ensures
        (exists|i: int|
            {
                &&& 0 <= i < n
                &&& #[trigger] results[i] matches Some(Err(_))
            }) || ({
            &&& !states[n].failed
            &&& states[n].current_pos <= states[n].pos <= states[n].bytes.len()
            &&& states[n].bytes == states[0].bytes
            &&& states[n].file_length == states[0].file_length
            &&& results[n] is Some
        }),
    decreases n,
{
    assert(geometry_step(states[n], states[n + 1], results[n]));
    if n > 0 {
        lemma_truncated_run(states, results, n - 1);
        assert(geometry_step(states[n - 1], states[n], results[n - 1]));
        if results[n - 1] matches Some(Ok(_)) {
            lemma_record_lies_in_bytes(states[n - 1].bytes, states[n - 1].pos);
        }
    }
}

/// A record that can be read ends within the bytes, at the end that its size tells unless its
/// shape is null.
proof fn lemma_record_lies_in_bytes(bytes: Seq<u8>, at: int)
    ensures
        parse_record(bytes, at) matches Ok(record) ==> {
            &&& record.end <= bytes.len()
            &&& record.shape is Some ==> record.end == at + 8 + 2 * record.header.record_size
            &&& record.shape is None ==> record.end == at + 12
        },
{
}

/// Whether asking for features again and again leads through `states` and gives `results`.
pub open spec fn feature_run(
    states: Seq<FeatureState>,
    results: Seq<Option<Result<ShapeRecord, Error>>>,
) -> bool {
    &&& states.len() == results.len() + 1
    &&& states[0].valid()
    &&& forall|i: int|
        0 <= i < results.len() ==> feature_step(states[i], states[i + 1], #[trigger] results[i])
}

/// What comes of a feature: one row of the table and one record of the main file are used up, and
/// the next feature has the next number.
pub proof fn law_feature_takes_one_row_and_one_record(
    before: FeatureState,
    after: FeatureState,
    feature: ShapeRecord,
)
    requires
        before.valid(),
        before.shapes.file_length <= usize::MAX,
        feature_step(before, after, Some(Ok(feature))),
    ensures
        before.table.upcoming.len() > 0,
        record_row(feature.record) == before.table.upcoming[0],
        after.table.upcoming == before.table.upcoming.drop_first(),
        after.table.end == before.table.end,
        after.featno == before.featno + 1,
        parse_record(before.shapes.bytes, before.shapes.pos) matches Ok(record) && {
            &&& record.header.record_size >= 0
            &&& after.shapes.pos == record.end
            &&& after.shapes.current_pos == position_after(
                before.shapes.current_pos,
                record.header.record_size as int,
            )
        },
        after.shapes.bytes == before.shapes.bytes,
        after.shapes.file_length == before.shapes.file_length,
        !after.failed,
        after.valid(),
{
    let opened = dataset_opened(before);
    let telling = lemma_feature_was_told(opened, after, Some(Ok(feature)));
}

/// Once the features have come to an end, or to an error, they stay there: asking again gives
/// `None`.
pub proof fn law_features_are_fused(
    before: FeatureState,
    ended: FeatureState,
    ending: Option<Result<ShapeRecord, Error>>,
    after: FeatureState,
    r: Option<Result<ShapeRecord, Error>>,
)
    requires
        feature_step(before, ended, ending),
        !(ending matches Some(Ok(_))),
        feature_step(ended, after, r),
    ensures
        r is None,
        ended.finished(),
        after.finished(),
        ending is Some ==> after == ended,
{
}

/// From the first `None` on, and from right after the first error on, nothing comes any more: a
/// run reports one error at most, and the error is the last thing that it reports.
pub proof fn law_features_report_one_error(
    states: Seq<FeatureState>,
    results: Seq<Option<Result<ShapeRecord, Error>>>,
    i: int,
    j: int,
)
    requires
        feature_run(states, results),
        0 <= i < j < results.len(),
        !(results[i] matches Some(Ok(_))),
    ensures
        results[j] is None,
        states[j + 1].finished(),
    decreases j - i,
{
    assert(feature_step(states[i], states[i + 1], results[i]));
    assert(feature_step(states[j], states[j + 1], results[j]));
    if j > i + 1 {
        law_features_report_one_error(states, results, i, j - 1);
    }
}

/// The features of a run are numbered one after the other, and feature number `i` of the run has
/// row number `i` of the rows that the table had to give at its start.
pub proof fn law_features_pair_with_rows(
    states: Seq<FeatureState>,
    results: Seq<Option<Result<ShapeRecord, Error>>>,
    i: int,
)
    requires
        feature_run(states, results),
        states[0].shapes.file_length <= usize::MAX,
        0 <= i < results.len(),
        results[i] matches Some(Ok(_)),
    ensures
        i < states[0].table.upcoming.len(),
        results[i] matches Some(Ok(feature)) && record_row(feature.record)
            == states[0].table.upcoming[i],
        states[i].featno == states[0].featno + i,
{
    lemma_feature_run(states, results, i);
    assert(feature_step(states[i], states[i + 1], results[i]));
    let feature = results[i]->0->Ok_0;
    law_feature_takes_one_row_and_one_record(states[i], states[i + 1], feature);
}

/// The features of a run have the rows that reading the whole table gives, in their order.
pub proof fn law_features_have_the_rows_of_the_table(
    states: Seq<FeatureState>,
    results: Seq<Option<Result<ShapeRecord, Error>>>,
    rows: Seq<Row>,
    i: int,
)
    requires
        feature_run(states, results),
        states[0].shapes.file_length <= usize::MAX,
        states[0].table.rows_agree(),
        states[0].table.table matches Ok(all) && all == rows,
        0 <= i < results.len(),
        i < rows.len(),
        results[i] matches Some(Ok(_)),
    ensures
        results[i] matches Some(Ok(feature)) && record_row(feature.record) == rows[i],
{
    law_features_pair_with_rows(states, results, i);
    assert(rows[i] == states[0].table.upcoming.subrange(0, rows.len() as int)[i]);
}

/// Before item `i` of a run comes, `i` features have come.
proof fn lemma_feature_run(
    states: Seq<FeatureState>,
    results: Seq<Option<Result<ShapeRecord, Error>>>,
    i: int,
)
    requires
        feature_run(states, results),
        states[0].shapes.file_length <= usize::MAX,
        0 <= i < results.len(),
        results[i] is Some,
    ensures
        i <= states[0].table.upcoming.len(),
        states[i].table.upcoming == states[0].table.upcoming.skip(i),
        states[i].featno == states[0].featno + i,
        states[i].valid(),
        states[i].shapes.file_length == states[0].shapes.file_length,
        states[i].shapes.current_pos >= states[0].shapes.current_pos + 8 * i,
    decreases i,
{
    assert(feature_step(states[i], states[i + 1], results[i]));
    if i > 0 {
        assert(feature_step(states[i - 1], states[i], results[i - 1]));
        if !(results[i - 1] matches Some(Ok(_))) {
            law_features_report_one_error(states, results, i - 1, i);
        }
        lemma_feature_run(states, results, i - 1);
        let feature = results[i - 1]->0->Ok_0;
        law_feature_takes_one_row_and_one_record(states[i - 1], states[i], feature);
    } else {
        assert(states[0].table.upcoming.skip(0) =~= states[0].table.upcoming);
    }
}

/// Where the processor refuses a property or a shape, that is the error, and the last thing that
/// the processor hears.
pub proof fn law_a_refusal_ends_the_features(
    before: FeatureState,
    after: FeatureState,
    r: Option<Result<ShapeRecord, Error>>,
    i: int,
    error: GeozeroError,
)
    requires
        before.valid(),
        feature_step(before, after, r),
        before.log().len() <= i < after.log().len(),
        refused(after.log()[i], error),
    ensures
        r == Some(Err::<ShapeRecord, Error>(Error::GeozeroError(error))),
        after.failed,
        i == after.log().len() - 1,
{
    let opened = dataset_opened(before);
    if !before.finished() && before.table.upcoming.len() > 0 {
        let telling = lemma_feature_was_told(opened, after, r);
        let begun = opened.log().push(Event::FeatureBegin(before.featno)).push(
            Event::PropertiesBegin,
        );
        let told = telling.told;
        let ready = told.push(Event::PropertiesEnd).push(Event::GeometryBegin);
        assert(properties_told(telling.entries, begun, told, telling.reply));
        assert(told.take(begun.len() as int) == begun);
        let log = after.log();
        if telling.reply is Ok {
            let read = telling.read.log;
            assert(shape_told(opened.shapes.bytes, opened.shapes.pos, ready, read));
            assert(read.take(ready.len() as int) =~= ready);
            assert(i < ready.len() ==> log[i] == ready[i]);
        }
        if i < begun.len() {
            assert(begun[i] == told[i]);
        } else if i < told.len() {
            let property = told[begun.len() + (i - begun.len())];
            assert(property is Property);
            assert(property == log[i]);
        }
    }
}

/// A processor that takes every shape refuses nothing in a run.
pub proof fn law_geometries_are_all_taken(
    states: Seq<GeometryState>,
    results: Seq<Option<Result<(), Error>>>,
    i: int,
)
    requires
        geometry_run(states, results),
        takes_all(states[0].replies),
        0 <= i < results.len(),
    ensures
        !(results[i] matches Some(Err(Error::GeozeroError(_)))),
        states[i + 1].replies == states[0].replies,
    decreases i,
{
    if i > 0 {
        law_geometries_are_all_taken(states, results, i - 1);
    }
    assert(geometry_step(states[i], states[i + 1], results[i]));
}

/// A processor that takes every property and every shape refuses nothing in a run.
pub proof fn law_features_are_all_taken(
    states: Seq<FeatureState>,
    results: Seq<Option<Result<ShapeRecord, Error>>>,
)
    requires
        feature_run(states, results),
        takes_all(states[0].shapes.replies),
    ensures
        nothing_refused(results),
{
    assert forall|i: int| 0 <= i < results.len() implies !(#[trigger] results[i] matches Some(
        Err(Error::GeozeroError(_)),
    )) by {
        lemma_replies_stay(states, results, i);
        let before = states[i];
        assert(feature_step(before, states[i + 1], results[i]));
        if !before.finished() && before.table.upcoming.len() > 0 {
            let telling = lemma_feature_was_told(dataset_opened(before), states[i + 1], results[i]);
            lemma_last_reply(dataset_opened(before), states[i + 1], results[i], telling);
        }
    }
}

/// The reply to the properties is the reply to the last that was handed over, if there are any.
pub proof fn lemma_last_reply(
    before: FeatureState,
    after: FeatureState,
    r: Option<Result<ShapeRecord, Error>>,
    telling: Telling,
)
    requires
        feature_told(before, after, r, telling),
    ensures
        telling.entries.len() > 0 || telling.reply is Err ==> {
            &&& telling.told.len() > before.log().len()
            &&& telling.told.last() matches Event::Property(_, _, _, reply)
            &&& reply == telling.reply
            &&& before.shapes.replies.contains(telling.told.last())
        },
{
    let begun = before.log().push(Event::FeatureBegin(before.featno)).push(Event::PropertiesBegin);
    let told = telling.told;
    assert(properties_told(telling.entries, begun, told, telling.reply));
    if told.len() > begun.len() {
        assert(told[begun.len() + (told.len() - 1 - begun.len())] is Property);
    }
}

/// What a processor may reply stays the same throughout a run.
proof fn lemma_replies_stay(
    states: Seq<FeatureState>,
    results: Seq<Option<Result<ShapeRecord, Error>>>,
    i: int,
)
    requires
        feature_run(states, results),
        0 <= i < states.len(),
    ensures
        states[i].shapes.replies == states[0].shapes.replies,
    decreases i,
{
    if i > 0 {
        lemma_replies_stay(states, results, i - 1);
        let before = states[i - 1];
        assert(feature_step(before, states[i], results[i - 1]));
        if !before.finished() && before.table.upcoming.len() > 0 {
            let telling = lemma_feature_was_told(dataset_opened(before), states[i], results[i - 1]);
        }
    }
}

/// A processor that refuses every property ends the features with one error: where the first row
/// has a field, its refusal comes first, no feature comes, and then the end.
pub proof fn law_refused_properties_report_one_error(
    states: Seq<FeatureState>,
    results: Seq<Option<Result<ShapeRecord, Error>>>,
    n: int,
)
    requires
        feature_run(states, results),
        refused_at_once(states[0]),
        !states[0].finished(),
        0 < n <= results.len(),
    ensures
        results[0] matches Some(Err(Error::GeozeroError(_))),
        forall|i: int| 0 < i < n ==> #[trigger] results[i] is None,
        states[n].featno == states[0].featno,
{
    let opened = dataset_opened(states[0]);
    assert(feature_step(states[0], states[1], results[0]));
    let telling = lemma_feature_was_told(opened, states[1], results[0]);
    let name = choose|name: Seq<char>| #[trigger] opened.table.upcoming[0].contains_key(name);
    assert(opened.table.upcoming[0].contains_key(name));
    assert(telling.entries.len() > 0);
    lemma_last_reply(opened, states[1], results[0], telling);
    assert forall|i: int| 0 < i < n implies #[trigger] results[i] is None by {
        law_features_report_one_error(states, results, 0, i);
    }
    law_nothing_is_told_after_an_error(states, results, 0, n);
}

/// A feature comes where, and only where, its row comes, no property is refused, and its geometry
/// comes. It alone moves the count of features on, by one.
pub proof fn law_a_feature_comes_with_its_row_properties_and_geometry(
    before: FeatureState,
    after: FeatureState,
    r: Option<Result<ShapeRecord, Error>>,
)
    requires
        feature_read(before, after, r),
    ensures
        before.table.upcoming.len() == 0 ==> !(r matches Some(Ok(_))),
        before.table.upcoming.len() > 0 ==> exists|telling: Telling|
            {
                &&& lists_row(telling.entries, before.table.upcoming[0])
                &&& #[trigger] feature_told(before, after, r, telling)
                &&& (r matches Some(Ok(_))) <==> telling.reply is Ok
                    && telling.geometry matches Some(Ok(_))
            },
        after.featno == before.featno + (if r matches Some(Ok(_)) {
            1int
        } else {
            0int
        }),
{
    if before.table.upcoming.len() > 0 {
        let telling = lemma_feature_was_told(before, after, r);
        assert(feature_told(before, after, r, telling));
    }
}

/// Whether the same came of asking for a feature: nothing, the same error, or a feature with the
/// same row.
pub open spec fn same_item(
    a: Option<Result<ShapeRecord, Error>>,
    b: Option<Result<ShapeRecord, Error>>,
) -> bool {
    match (a, b) {
        (None, None) => true,
        (Some(Err(x)), Some(Err(y))) => x == y,
        (Some(Ok(x)), Some(Ok(y))) => record_row(x.record) == record_row(y.record),
        _ => false,
    }
}

/// Whether two iterators stand at the same place, whatever their processors have heard. (Of
/// iterators that have ended early, where they would read on makes no difference.)
pub open spec fn same_place(a: FeatureState, b: FeatureState) -> bool {
    &&& a.featno == b.featno
    &&& a.failed == b.failed
    &&& a.shapes.bytes == b.shapes.bytes
    &&& a.shapes.current_pos == b.shapes.current_pos
    &&& a.shapes.file_length == b.shapes.file_length
    &&& a.shapes.failed == b.shapes.failed
    &&& !a.failed ==> {
        &&& a.shapes.pos == b.shapes.pos
        &&& a.table.upcoming == b.table.upcoming
        &&& a.table.end == b.table.end
    }
}

/// Short of refusing something, a processor has no say: two iterators at the same place, neither
/// of which is refused anything, give the same and come to the same place.
pub proof fn law_replies_that_refuse_nothing_change_nothing(
    x: FeatureState,
    a: FeatureState,
    ra: Option<Result<ShapeRecord, Error>>,
    y: FeatureState,
    b: FeatureState,
    rb: Option<Result<ShapeRecord, Error>>,
)
    requires
        same_place(x, y),
        feature_step(x, a, ra),
        feature_step(y, b, rb),
        !(ra matches Some(Err(Error::GeozeroError(_)))),
        !(rb matches Some(Err(Error::GeozeroError(_)))),
    ensures
        same_item(ra, rb),
        same_place(a, b),
{
    let (opened_x, opened_y) = (dataset_opened(x), dataset_opened(y));
    if !x.finished() && x.table.upcoming.len() > 0 {
        let telling_x = lemma_feature_was_told(opened_x, a, ra);
        let telling_y = lemma_feature_was_told(opened_y, b, rb);
        assert(telling_x.reply is Ok && telling_y.reply is Ok);
    }
}

/// Over whole runs, too, a processor has no say short of refusing something: two runs in which
/// nothing is refused give the same, item by item.
pub proof fn law_replies_that_refuse_nothing_change_no_run(
    xs: Seq<FeatureState>,
    rs: Seq<Option<Result<ShapeRecord, Error>>>,
    ys: Seq<FeatureState>,
    qs: Seq<Option<Result<ShapeRecord, Error>>>,
    n: int,
)
    requires
        feature_run(xs, rs),
        feature_run(ys, qs),
        same_place(xs[0], ys[0]),
        nothing_refused(rs),
        nothing_refused(qs),
        0 <= n <= rs.len(),
        n <= qs.len(),
    ensures
        forall|i: int| 0 <= i < n ==> same_item(#[trigger] rs[i], qs[i]),
        same_place(xs[n], ys[n]),
    decreases n,
{
    if n > 0 {
        law_replies_that_refuse_nothing_change_no_run(xs, rs, ys, qs, n - 1);
        assert(feature_step(xs[n - 1], xs[n], rs[n - 1]));
        assert(feature_step(ys[n - 1], ys[n], qs[n - 1]));
        law_replies_that_refuse_nothing_change_nothing(
            xs[n - 1],
            xs[n],
            rs[n - 1],
            ys[n - 1],
            ys[n],
            qs[n - 1],
        );
    }
}

/// Whether two processors, as long as they have heard the same, were handed the fields of a row
/// in the same order and replied the same to properties and shapes.
pub open spec fn same_replies(a: Seq<Event>, b: Seq<Event>) -> bool {
    forall|i: int|
        0 <= i < a.len() && i < b.len() && #[trigger] a.take(i) == b.take(i) ==> match (a[i], b[i]) {
            (Event::Property(..), Event::Property(..)) => a[i] == b[i],
            (Event::Shape(_, x), Event::Shape(_, y)) => x == y,
            _ => true,
        }
}

/// The replies to the calls that begin and end something make no difference: two iterators at the
/// same place, whose processors have heard the same and reply the same to properties and shapes,
/// give the same, come to the same place and make the same calls.
pub proof fn law_replies_to_the_frame_change_nothing(
    x: FeatureState,
    a: FeatureState,
    ra: Option<Result<ShapeRecord, Error>>,
    y: FeatureState,
    b: FeatureState,
    rb: Option<Result<ShapeRecord, Error>>,
)
    requires
        same_place(x, y),
        x.log() == y.log(),
        feature_step(x, a, ra),
        feature_step(y, b, rb),
        same_replies(a.log(), b.log()),
    ensures
        same_item(ra, rb),
        same_place(a, b),
        a.log() == b.log(),
{
    let (opened_x, opened_y) = (dataset_opened(x), dataset_opened(y));
    if !x.finished() && x.table.upcoming.len() > 0 {
        let tx = lemma_feature_was_told(opened_x, a, ra);
        let ty = lemma_feature_was_told(opened_y, b, rb);
        let begun = opened_x.log().push(Event::FeatureBegin(x.featno)).push(
            Event::PropertiesBegin,
        );
        lemma_telling_is_in_log(opened_x, a, ra, tx);
        lemma_telling_is_in_log(opened_y, b, rb, ty);
        lemma_rows_have_one_length(tx.entries, ty.entries, x.table.upcoming[0]);
        lemma_same_properties(
            tx.entries,
            ty.entries,
            begun,
            tx.told,
            ty.told,
            tx.reply,
            ty.reply,
            a.log(),
            b.log(),
        );
        if tx.reply is Ok {
            let ready = tx.told.push(Event::PropertiesEnd).push(Event::GeometryBegin);
            assert(a.log().take(ready.len() as int) == b.log().take(ready.len() as int));
            assert(tx.read.log =~= ty.read.log);
        }
    }
}

/// What the processor was told up to the geometry is the start of its log.
pub proof fn lemma_telling_is_in_log(
    before: FeatureState,
    after: FeatureState,
    r: Option<Result<ShapeRecord, Error>>,
    telling: Telling,
)
    requires
        feature_told(before, after, r, telling),
    ensures
        telling.told.len() <= after.log().len(),
        after.log().take(telling.told.len() as int) == telling.told,
        telling.reply is Ok ==> {
            let ready = telling.told.push(Event::PropertiesEnd).push(Event::GeometryBegin);
            &&& ready.len() <= telling.read.log.len() <= after.log().len()
            &&& after.log().take(ready.len() as int) == ready
            &&& after.log().take(telling.read.log.len() as int) == telling.read.log
        },
{
    let log = after.log();
    let told = telling.told;
    if telling.reply is Ok {
        let ready = told.push(Event::PropertiesEnd).push(Event::GeometryBegin);
        let read = telling.read.log;
        if !before.shapes.finished() {
            assert(shape_told(before.shapes.bytes, before.shapes.pos, ready, read));
        }
        assert(read.take(ready.len() as int) =~= ready);
        assert(log.take(read.len() as int) =~= read);
        assert(log.take(ready.len() as int) =~= read.take(ready.len() as int));
        assert(log.take(told.len() as int) =~= ready.take(told.len() as int));
        assert(ready.take(told.len() as int) =~= told);
    } else {
        assert(log.take(told.len() as int) =~= told);
    }
}

/// Lists of the fields of one row are equally long.
proof fn lemma_rows_have_one_length(
    a: Seq<(String, dbase::FieldValue)>,
    b: Seq<(String, dbase::FieldValue)>,
    row: Row,
)
    requires
        lists_row(a, row),
        lists_row(b, row),
    ensures
        a.len() == b.len(),
{
    let names_a = a.map_values(|entry: (String, dbase::FieldValue)| entry.0@);
    let names_b = b.map_values(|entry: (String, dbase::FieldValue)| entry.0@);
    assert forall|name: Seq<char>| names_a.contains(name) <==> names_b.contains(name) by {
        lemma_row_names(a, row, name);
        lemma_row_names(b, row, name);
    }
    names_a.unique_seq_to_set();
    names_b.unique_seq_to_set();
    assert(names_a.to_set() =~= names_b.to_set());
}

/// The names in a list of the fields of a row are those of the row.
pub proof fn lemma_row_names(
    entries: Seq<(String, dbase::FieldValue)>,
    row: Row,
    name: Seq<char>,
)
    requires
        lists_row(entries, row),
    ensures
        entries.map_values(|entry: (String, dbase::FieldValue)| entry.0@).contains(name)
            <==> row.contains_key(name),
{
    let names = entries.map_values(|entry: (String, dbase::FieldValue)| entry.0@);
    if row.contains_key(name) {
        let i = choose|i: int| 0 <= i < entries.len() && #[trigger] entries[i].0@ == name;
        assert(names[i] == name);
    }
    if names.contains(name) {
        let i = choose|i: int| 0 <= i < names.len() && names[i] == name;
        assert(entries[i].0@ == name);
    }
}

/// Processors that reply the same are told the same properties.
proof fn lemma_same_properties(
    entries_a: Seq<(String, dbase::FieldValue)>,
    entries_b: Seq<(String, dbase::FieldValue)>,
    begun: Seq<Event>,
    told_a: Seq<Event>,
    told_b: Seq<Event>,
    reply_a: Result<bool, GeozeroError>,
    reply_b: Result<bool, GeozeroError>,
    log_a: Seq<Event>,
    log_b: Seq<Event>,
)
    requires
        entries_a.len() == entries_b.len(),
        properties_told(entries_a, begun, told_a, reply_a),
        properties_told(entries_b, begun, told_b, reply_b),
        told_a.len() <= log_a.len(),
        log_a.take(told_a.len() as int) == told_a,
        told_b.len() <= log_b.len(),
        log_b.take(told_b.len() as int) == told_b,
        same_replies(log_a, log_b),
    ensures
        told_a == told_b,
        reply_a == reply_b,
{
    let shared = if told_a.len() < told_b.len() {
        told_a.len()
    } else {
        told_b.len()
    };
    lemma_same_start(
        entries_a,
        entries_b,
        begun,
        told_a,
        told_b,
        reply_a,
        reply_b,
        log_a,
        log_b,
        shared as int,
    );
    assert(told_a.take(shared as int) =~= log_a.take(shared as int));
    assert(told_b.take(shared as int) =~= log_b.take(shared as int));
    if shared > begun.len() {
        let last = begun.len() + (shared - 1 - begun.len());
        assert(told_a[last] == told_a.take(shared as int)[last]);
        assert(told_b[last] == told_b.take(shared as int)[last]);
    }
    assert(told_a.len() == told_b.len());
    assert(told_a =~= told_a.take(shared as int));
    assert(told_b =~= told_b.take(shared as int));
}

/// Processors that reply the same are told the same first `n` calls.
proof fn lemma_same_start(
    entries_a: Seq<(String, dbase::FieldValue)>,
    entries_b: Seq<(String, dbase::FieldValue)>,
    begun: Seq<Event>,
    told_a: Seq<Event>,
    told_b: Seq<Event>,
    reply_a: Result<bool, GeozeroError>,
    reply_b: Result<bool, GeozeroError>,
    log_a: Seq<Event>,
    log_b: Seq<Event>,
    n: int,
)
    requires
        properties_told(entries_a, begun, told_a, reply_a),
        properties_told(entries_b, begun, told_b, reply_b),
        told_a.len() <= log_a.len(),
        log_a.take(told_a.len() as int) == told_a,
        told_b.len() <= log_b.len(),
        log_b.take(told_b.len() as int) == told_b,
        same_replies(log_a, log_b),
        begun.len() <= n <= told_a.len(),
        n <= told_b.len(),
    ensures
        log_a.take(n) == log_b.take(n),
    decreases n,
{
    if n == begun.len() {
        assert(log_a.take(n) =~= told_a.take(n));
        assert(log_b.take(n) =~= told_b.take(n));
    } else {
        let i = n - 1;
        lemma_same_start(
            entries_a,
            entries_b,
            begun,
            told_a,
            told_b,
            reply_a,
            reply_b,
            log_a,
            log_b,
            i,
        );
        assert(told_a[begun.len() + (i - begun.len())] is Property);
        assert(told_b[begun.len() + (i - begun.len())] is Property);
        assert(log_a[i] == log_a.take(told_a.len() as int)[i]);
        assert(log_b[i] == log_b.take(told_b.len() as int)[i]);
        assert(log_a.take(n) =~= log_a.take(i).push(log_a[i]));
        assert(log_b.take(n) =~= log_b.take(i).push(log_b[i]));
    }
}

/// Over whole runs, too, the replies to the calls that begin and end something make no
/// difference: the runs give the same, item by item, and make the same calls.
pub proof fn law_replies_to_the_frame_change_no_run(
    xs: Seq<FeatureState>,
    rs: Seq<Option<Result<ShapeRecord, Error>>>,
    ys: Seq<FeatureState>,
    qs: Seq<Option<Result<ShapeRecord, Error>>>,
    n: int,
)
    requires
        feature_run(xs, rs),
        feature_run(ys, qs),
        same_place(xs[0], ys[0]),
        xs[0].log() == ys[0].log(),
        0 <= n <= rs.len(),
        n <= qs.len(),
        forall|i: int|
            0 <= i < n ==> #[trigger] same_replies(xs[i + 1].log(), ys[i + 1].log()),
    ensures
        forall|i: int| 0 <= i < n ==> same_item(#[trigger] rs[i], qs[i]),
        same_place(xs[n], ys[n]),
        xs[n].log() == ys[n].log(),
    decreases n,
{
    if n > 0 {
        law_replies_to_the_frame_change_no_run(xs, rs, ys, qs, n - 1);
        assert(feature_step(xs[n - 1], xs[n], rs[n - 1]));
        assert(feature_step(ys[n - 1], ys[n], qs[n - 1]));
        assert(same_replies(xs[n - 1 + 1].log(), ys[n - 1 + 1].log()));
        law_replies_to_the_frame_change_nothing(
            xs[n - 1],
            xs[n],
            rs[n - 1],
            ys[n - 1],
            ys[n],
            qs[n - 1],
        );
    }
}

/// Whether two readers read the same: the same main file with the same head, from the same
/// position, with the same index and the same table.
pub open spec fn same_reader(a: ShpReader, b: ShpReader) -> bool {
    &&& a.source.bytes@ == b.source.bytes@
    &&& a.source.pos == b.source.pos
    &&& a.header == b.header
    &&& a.index() == b.index()
    &&& a.table() == b.table()
}

/// What reading a file that is there gave.
pub open spec fn there(file: Option<Vec<u8>>) -> Option<Result<Vec<u8>, std::io::Error>> {
    match file {
        Some(bytes) => Some(Ok(bytes)),
        None => None,
    }
}

/// Creating a reader from files is creating one from the main file, then adding the index, then
/// adding the table, each if it is there: up to the first error, which is then what comes.
pub proof fn law_reading_files_is_adding_them_in_turn(
    shp: Vec<u8>,
    shx: Option<Vec<u8>>,
    dbf: Option<Vec<u8>>,
    all: Result<ShpReader, Error>,
    created: Result<ShpReader, Error>,
    indexed: ShpReader,
    adding_index: Result<(), Error>,
    tabled: ShpReader,
    adding_table: Result<(), Error>,
)
    requires
        files_read(Ok(shp), there(shx), there(dbf), all),
        reader_created(shp@, created),
        created matches Ok(reader) ==> match shx {
            Some(bytes) => index_added(reader, bytes@, indexed, adding_index),
            None => indexed == reader && adding_index is Ok,
        },
        match dbf {
            Some(bytes) => table_added(indexed, bytes@, tabled, adding_table),
            None => tabled == indexed && adding_table is Ok,
        },
    ensures
        match (created, adding_index, adding_table) {
            (Err(error), _, _) => all == Err::<ShpReader, Error>(error),
            (_, Err(error), _) => all == Err::<ShpReader, Error>(error),
            (_, _, Err(error)) => all == Err::<ShpReader, Error>(error),
            _ => all matches Ok(reader) && same_reader(reader, tabled),
        },
{
}

/// A run comes to an end: item number `i`, counted from 0, comes only where at least `8 * i`
/// bytes of the file, going by its head, lie behind the first.
pub proof fn law_features_come_to_an_end(
    states: Seq<FeatureState>,
    results: Seq<Option<Result<ShapeRecord, Error>>>,
    i: int,
)
    requires
        feature_run(states, results),
        states[0].shapes.file_length <= usize::MAX,
        0 <= i < results.len(),
        results[i] is Some,
    ensures
        8 * i < states[0].shapes.file_length - states[0].shapes.current_pos,
{
    lemma_feature_run(states, results, i);
    assert(feature_step(states[i], states[i + 1], results[i]));
}

/// A feature comes in its frame: the processor is told that it begins, is handed the properties
/// between their begin and end, then at most one shape between the begin and the end of the
/// geometry, and is told that the feature ends.
pub proof fn law_feature_is_framed(
    before: FeatureState,
    after: FeatureState,
    feature: ShapeRecord,
)
    requires
        before.valid(),
        feature_step(before, after, Some(Ok(feature))),
    ensures
        exists|properties: Seq<Event>, geometry: Seq<Event>|
            {
                &&& after.log() == #[trigger] feature_frame(
                    dataset_opened(before).log(),
                    before.featno,
                    properties,
                    geometry,
                )
                &&& forall|i: int| 0 <= i < properties.len() ==> #[trigger] properties[i] is Property
                &&& geometry.len() <= 1
                &&& forall|i: int| 0 <= i < geometry.len() ==> #[trigger] geometry[i] is Shape
            },
{
    let opened = dataset_opened(before);
    let featno = before.featno;
    let telling = lemma_feature_was_told(opened, after, Some(Ok(feature)));
    let told = telling.told;
    let read = telling.read.log;
    let begun = opened.log().push(Event::FeatureBegin(featno)).push(Event::PropertiesBegin);
    let ready = told.push(Event::PropertiesEnd).push(Event::GeometryBegin);
    let properties = told.skip(begun.len() as int);
    let geometry = read.skip(ready.len() as int);
    assert(properties_told(telling.entries, begun, told, telling.reply));
    assert forall|i: int| 0 <= i < properties.len() implies #[trigger] properties[i] is Property by {
        assert(told[begun.len() + i] is Property);
    }
    assert(told =~= begun + properties) by {
        assert(told.take(begun.len() as int) == begun);
    }
    assert(shape_told(opened.shapes.bytes, opened.shapes.pos, ready, read));
    assert(read =~= ready + geometry);
    assert(begun =~= opened.log() + seq![Event::FeatureBegin(featno), Event::PropertiesBegin]);
    assert(ready =~= told + seq![Event::PropertiesEnd, Event::GeometryBegin]);
    assert(after.log() =~= read + seq![Event::GeometryEnd, Event::FeatureEnd(featno)]);
    assert(after.log() == feature_frame(opened.log(), featno, properties, geometry));
}

/// The log after one feature with these properties and this geometry.
pub open spec fn feature_frame(
    before: Seq<Event>,
    featno: u64,
    properties: Seq<Event>,
    geometry: Seq<Event>,
) -> Seq<Event> {
    before + seq![Event::FeatureBegin(featno), Event::PropertiesBegin] + properties
        + seq![Event::PropertiesEnd, Event::GeometryBegin] + geometry
        + seq![Event::GeometryEnd, Event::FeatureEnd(featno)]
}

/// A well-formed shapefile yields every feature: where records fill the main file up to the end
/// that its head tells, the table has a row for each, and the processor refuses nothing, each
/// feature comes with its row, and then the end.
pub proof fn law_well_formed_shapefile_yields_every_feature(
    states: Seq<FeatureState>,
    results: Seq<Option<Result<ShapeRecord, Error>>>,
    shapes: Seq<Option<ShapeView>>,
)
    requires
        feature_run(states, results),
        holds_records(states[0], shapes),
        shapes.len() <= states[0].table.upcoming.len(),
        nothing_refused(results),
        results.len() > shapes.len(),
    ensures
        forall|i: int| 0 <= i < shapes.len() ==> has_row(#[trigger] results[i], states[0], i),
        forall|i: int| shapes.len() <= i < results.len() ==> #[trigger] results[i] is None,
{
    let n = shapes.len() as int;
    lemma_features_come(states, results, shapes, n);
    assert(feature_step(states[n], states[n + 1], results[n]));
    assert forall|i: int| n <= i < results.len() implies #[trigger] results[i] is None by {
        if i > n {
            law_features_report_one_error(states, results, n, i);
        }
    }
}

/// A table that is cut short ends the features with one error: where records fill the main file,
/// the rows run out in an error before the records do, and the processor refuses nothing, the
/// features come that have a row, then one error of the table, and then the end.
pub proof fn law_truncated_table_reports_one_error(
    states: Seq<FeatureState>,
    results: Seq<Option<Result<ShapeRecord, Error>>>,
    shapes: Seq<Option<ShapeView>>,
)
    requires
        feature_run(states, results),
        holds_records(states[0], shapes),
        states[0].table.upcoming.len() < shapes.len(),
        states[0].table.end is Some,
        nothing_refused(results),
        results.len() > states[0].table.upcoming.len(),
    ensures
        forall|i: int|
            0 <= i < states[0].table.upcoming.len() ==> has_row(#[trigger] results[i], states[0], i),
        results[states[0].table.upcoming.len() as int] == Some(
            Err::<ShapeRecord, Error>(Error::DbaseError(states[0].table.end->0)),
        ),
        forall|i: int|
            states[0].table.upcoming.len() < i < results.len() ==> #[trigger] results[i] is None,
{
    let n = states[0].table.upcoming.len() as int;
    lemma_features_come(states, results, shapes, n);
    assert(feature_step(states[n], states[n + 1], results[n]));
    lemma_records_reach_forward(
        states[n].shapes.bytes,
        states[n].shapes.pos,
        states[n].shapes.file_length,
        shapes.skip(n),
    );
    assert forall|i: int| n < i < results.len() implies #[trigger] results[i] is None by {
        law_features_report_one_error(states, results, n, i);
    }
}

/// Whether the iterator stands before records that hold `shapes` and fill the rest of the main
/// file.
pub open spec fn holds_records(state: FeatureState, shapes: Seq<Option<ShapeView>>) -> bool {
    &&& !state.failed
    &&& state.shapes.pos == state.shapes.current_pos
    &&& state.shapes.file_length <= usize::MAX
    &&& records_between(
        state.shapes.bytes,
        state.shapes.pos,
        state.shapes.file_length,
        shapes,
    )
}

/// Whether the processor has refused neither a property nor a shape. (One that takes everything
/// never has.)
pub open spec fn nothing_refused(results: Seq<Option<Result<ShapeRecord, Error>>>) -> bool {
    forall|i: int|
        0 <= i < results.len() ==> !(#[trigger] results[i] matches Some(
            Err(Error::GeozeroError(_)),
        ))
}

/// Whether this is a feature with row number `i` of the rows that come.
pub open spec fn has_row(
    result: Option<Result<ShapeRecord, Error>>,
    state: FeatureState,
    i: int,
) -> bool {
    result matches Some(Ok(feature)) && record_row(feature.record) == state.table.upcoming[i]
}

/// As long as there are rows and records, features come.
pub proof fn lemma_features_come(
    states: Seq<FeatureState>,
    results: Seq<Option<Result<ShapeRecord, Error>>>,
    shapes: Seq<Option<ShapeView>>,
    n: int,
)
    requires
        feature_run(states, results),
        holds_records(states[0], shapes),
        nothing_refused(results),
        0 <= n <= shapes.len(),
        n <= states[0].table.upcoming.len(),
        n <= results.len(),
    ensures
        forall|i: int| 0 <= i < n ==> has_row(#[trigger] results[i], states[0], i),
        holds_records(states[n], shapes.skip(n)),
        states[n].valid(),
        states[n].table.upcoming == states[0].table.upcoming.skip(n),
        states[n].table.end == states[0].table.end,
    decreases n,
{
    if n == 0 {
        assert(shapes.skip(0) =~= shapes);
        assert(states[0].table.upcoming.skip(0) =~= states[0].table.upcoming);
    } else {
        lemma_features_come(states, results, shapes, n - 1);
        let before = states[n - 1];
        let left = shapes.skip(n - 1);
        assert(feature_step(before, states[n], results[n - 1]));
        assert(left.drop_first() =~= shapes.skip(n));
        assert(before.table.upcoming.drop_first() =~= states[0].table.upcoming.skip(n));
        lemma_records_reach_forward(
            before.shapes.bytes,
            before.shapes.pos,
            before.shapes.file_length,
            left,
        );
        let record = parse_record(before.shapes.bytes, before.shapes.pos)->Ok_0;
        lemma_records_reach_forward(
            before.shapes.bytes,
            record.end,
            before.shapes.file_length,
            left.drop_first(),
        );
        lemma_well_formed_feature_comes(before, states[n], results[n - 1]);
        law_feature_takes_one_row_and_one_record(before, states[n], results[n - 1]->0->Ok_0);
    }
}

/// Where there is a row and a record, and the processor refuses nothing, a feature comes.
proof fn lemma_well_formed_feature_comes(
    before: FeatureState,
    after: FeatureState,
    r: Option<Result<ShapeRecord, Error>>,
)
    requires
        before.valid(),
        !before.finished(),
        before.table.upcoming.len() > 0,
        feature_step(before, after, r),
        parse_record(before.shapes.bytes, before.shapes.pos) matches Ok(record)
            && record.header.record_size >= 0,
        !(r matches Some(Err(Error::GeozeroError(_)))),
    ensures
        r matches Some(Ok(_)),
{
    let opened = dataset_opened(before);
    let telling = lemma_feature_was_told(opened, after, r);
}

/// A main file that is cut short ends the features with one error: where its bytes end before the
/// end that its head tells, and the table does not just run out of rows, a run that has come to
/// its end has reported an error, as the last thing before the end.
pub proof fn law_truncated_shapefile_reports_one_error(
    states: Seq<FeatureState>,
    results: Seq<Option<Result<ShapeRecord, Error>>>,
)
    requires
        feature_run(states, results),
        forall|i: int|
            0 <= i < results.len() && !(#[trigger] states[i]).finished() ==> null_shape_is_small(
                states[i].shapes,
            ),
        !states[0].failed,
        states[0].table.end is Some,
        states[0].shapes.current_pos <= states[0].shapes.pos <= states[0].shapes.bytes.len(),
        states[0].shapes.bytes.len() < states[0].shapes.file_length <= usize::MAX,
        results.len() > 0,
        results.last() is None,
    ensures
        exists|i: int|
            {
                &&& 0 <= i < results.len()
                &&& #[trigger] results[i] matches Some(Err(_))
                &&& forall|j: int| 0 <= j < i ==> (#[trigger] results[j] matches Some(Ok(_)))
                &&& forall|j: int| i < j < results.len() ==> #[trigger] results[j] is None
            },
{
    lemma_truncated_feature_run(states, results, results.len() - 1);
    let i = choose|i: int|
        {
            &&& 0 <= i < results.len()
            &&& #[trigger] results[i] matches Some(Err(_))
        };
    assert forall|j: int| 0 <= j < i implies #[trigger] results[j] matches Some(Ok(_)) by {
        if !(results[j] matches Some(Ok(_))) {
            law_features_report_one_error(states, results, j, i);
        }
    }
    assert forall|j: int| i < j < results.len() implies #[trigger] results[j] is None by {
        law_features_report_one_error(states, results, i, j);
    }
}

/// As long as a shapefile that is cut short has reported no error, there is more to come.
proof fn lemma_truncated_feature_run(
    states: Seq<FeatureState>,
    results: Seq<Option<Result<ShapeRecord, Error>>>,
    n: int,
)
    requires
        feature_run(states, results),
        forall|i: int|
            0 <= i < results.len() && !(#[trigger] states[i]).finished() ==> null_shape_is_small(
                states[i].shapes,
            ),
        !states[0].failed,
        states[0].table.end is Some,
        states[0].shapes.current_pos <= states[0].shapes.pos <= states[0].shapes.bytes.len(),
        states[0].shapes.bytes.len() < states[0].shapes.file_length <= usize::MAX,
        0 <= n < results.len(),
    ensures
        (exists|i: int|
            {
                &&& 0 <= i < n
                &&& #[trigger] results[i] matches Some(Err(_))
            }) || ({
            let shapes = states[n].shapes;
            &&& !states[n].failed
            &&& states[n].valid()
            &&& states[n].table.end is Some
            &&& shapes.current_pos <= shapes.pos <= shapes.bytes.len()
            &&& shapes.bytes == states[0].shapes.bytes
            &&& shapes.file_length == states[0].shapes.file_length
            &&& results[n] is Some
        }),
    decreases n,
{
    if n > 0 {
        lemma_truncated_feature_run(states, results, n - 1);
        assert(feature_step(states[n - 1], states[n], results[n - 1]));
        if let Some(Ok(feature)) = results[n - 1] {
            lemma_record_lies_in_bytes(states[n - 1].shapes.bytes, states[n - 1].shapes.pos);
            if states[n - 1].valid() && states[n - 1].shapes.file_length <= usize::MAX {
                law_feature_takes_one_row_and_one_record(states[n - 1], states[n], feature);
            }
        }
    }
    assert(feature_step(states[n], states[n + 1], results[n]));
    if !states[n].finished() && states[n].valid() && states[n].table.end is Some {
        lemma_rows_end_in_an_error(states[n], states[n + 1], results[n]);
    }
}

/// Where the table does not just run out of rows, and the end of the main file is not reached, a
/// feature comes, or an error.
proof fn lemma_rows_end_in_an_error(
    before: FeatureState,
    after: FeatureState,
    r: Option<Result<ShapeRecord, Error>>,
)
    requires
        before.valid(),
        !before.finished(),
        before.table.end is Some,
        feature_step(before, after, r),
    ensures
        r is Some,
{
    let opened = dataset_opened(before);
    if before.table.upcoming.len() > 0 {
        let telling = lemma_feature_was_told(opened, after, r);
    }
}

/// What asking for a feature adds to the log of the processor: never that the dataset begins,
/// except before the first feature, and that the dataset ends only where nothing comes.
proof fn lemma_step_extends_log(
    before: FeatureState,
    after: FeatureState,
    r: Option<Result<ShapeRecord, Error>>,
)
    requires
        feature_step(before, after, r),
        !before.failed,
    ensures
        dataset_opened(before).log().is_prefix_of(after.log()),
        forall|k: int|
            dataset_opened(before).log().len() <= k < after.log().len() ==> !(
            #[trigger] after.log()[k] is DatasetBegin) && (after.log()[k] is DatasetEnd
                ==> r is None),
{
    let opened = dataset_opened(before);
    let log = after.log();
    let start = opened.log().len() as int;
    if !before.finished() && before.table.upcoming.len() > 0 {
        let telling = lemma_feature_was_told(opened, after, r);
        lemma_telling_is_in_log(opened, after, r, telling);
        let told = telling.told;
        let begun = opened.log().push(Event::FeatureBegin(before.featno)).push(
            Event::PropertiesBegin,
        );
        let ready = told.push(Event::PropertiesEnd).push(Event::GeometryBegin);
        assert(told.take(begun.len() as int) == begun);
        assert(log.take(start) =~= begun.take(start));
        assert(begun.take(start) =~= opened.log());
        assert forall|k: int| start <= k < log.len() implies !(#[trigger] log[k] is DatasetBegin) && (
        log[k] is DatasetEnd ==> r is None) by {
            if k < told.len() {
                assert(log[k] == told[k]);
                if k < begun.len() {
                    assert(told[k] == begun[k]);
                } else {
                    assert(told[begun.len() + (k - begun.len())] is Property);
                }
            } else if k < ready.len() {
                assert(log[k] == ready[k]);
            } else if !before.shapes.finished() {
                assert(shape_told(opened.shapes.bytes, opened.shapes.pos, ready, telling.read.log));
                if k < telling.read.log.len() {
                    assert(log[k] == telling.read.log[k]);
                }
            }
        }
    } else {
        assert(log.take(start) =~= opened.log());
    }
}

/// That the dataset begins is told once, and before all else: after the first call, and however
/// many follow. (Where the file ends before its first record, each call tells it again.)
pub proof fn law_dataset_begins_once_and_first(
    states: Seq<FeatureState>,
    results: Seq<Option<Result<ShapeRecord, Error>>>,
    n: int,
)
    requires
        feature_run(states, results),
        states[0].shapes.file_length <= usize::MAX,
        states[0].featno == 0,
        !states[0].finished(),
        0 < n <= results.len(),
    ensures
        states[0].log().push(Event::DatasetBegin(None)).is_prefix_of(states[n].log()),
        forall|k: int|
            states[0].log().len() < k < states[n].log().len() ==> !(
            #[trigger] states[n].log()[k] is DatasetBegin),
    decreases n,
{
    let begun = states[0].log().push(Event::DatasetBegin(None));
    let before = states[n - 1];
    let after = states[n];
    assert(feature_step(before, after, results[n - 1]));
    if n == 1 {
        lemma_step_extends_log(before, after, results[0]);
    } else {
        law_dataset_begins_once_and_first(states, results, n - 1);
        if !before.failed {
            lemma_step_extends_log(before, after, results[n - 1]);
            lemma_count_in_run(states, results, n - 1);
            assert(dataset_opened(before).log() == before.log());
            assert(after.log().take(before.log().len() as int) =~= before.log());
            assert(after.log().take(begun.len() as int) =~= before.log().take(begun.len() as int));
            assert forall|k: int| begun.len() <= k < after.log().len() implies !(
            #[trigger] after.log()[k] is DatasetBegin) by {
                if k < before.log().len() {
                    assert(after.log()[k] == before.log()[k]);
                }
            }
        }
    }
}

/// A run that has not failed has read a feature with its first call, unless it ended at once.
proof fn lemma_count_in_run(
    states: Seq<FeatureState>,
    results: Seq<Option<Result<ShapeRecord, Error>>>,
    n: int,
)
    requires
        feature_run(states, results),
        states[0].shapes.file_length <= usize::MAX,
        !states[0].finished(),
        0 < n <= results.len(),
        !states[n].failed,
    ensures
        states[n].featno > 0,
        states[n].valid(),
        states[n].shapes.file_length == states[0].shapes.file_length,
    decreases n,
{
    assert(feature_step(states[n - 1], states[n], results[n - 1]));
    if n > 1 {
        lemma_count_in_run(states, results, n - 1);
    }
    if let Some(Ok(feature)) = results[n - 1] {
        law_feature_takes_one_row_and_one_record(states[n - 1], states[n], feature);
    }
}

/// After an error the processor hears nothing more: the iterator stays as it is. Nor has it been
/// told before that the dataset ends.
pub proof fn law_nothing_is_told_after_an_error(
    states: Seq<FeatureState>,
    results: Seq<Option<Result<ShapeRecord, Error>>>,
    i: int,
    n: int,
)
    requires
        feature_run(states, results),
        0 <= i < n <= results.len(),
        results[i] matches Some(Err(_)),
    ensures
        states[n] == states[i + 1],
        states[0].log().is_prefix_of(states[n].log()),
        forall|k: int|
            states[0].log().len() <= k < states[n].log().len() ==> !(
            #[trigger] states[n].log()[k] is DatasetEnd),
    decreases n,
{
    assert(feature_step(states[n - 1], states[n], results[n - 1]));
    if n > i + 1 {
        law_nothing_is_told_after_an_error(states, results, i, n - 1);
        assert(feature_step(states[i], states[i + 1], results[i]));
    } else {
        lemma_items_add_no_end(states, results, i + 1);
    }
}

/// As long as something comes, the processor is not told that the dataset ends.
proof fn lemma_items_add_no_end(
    states: Seq<FeatureState>,
    results: Seq<Option<Result<ShapeRecord, Error>>>,
    n: int,
)
    requires
        feature_run(states, results),
        0 <= n <= results.len(),
        n > 0 ==> results[n - 1] is Some,
    ensures
        states[0].log().is_prefix_of(states[n].log()),
        forall|k: int|
            states[0].log().len() <= k < states[n].log().len() ==> !(
            #[trigger] states[n].log()[k] is DatasetEnd),
    decreases n,
{
    if n > 0 {
        let start = states[0].log();
        let before = states[n - 1];
        let after = states[n];
        assert(feature_step(before, after, results[n - 1]));
        if n > 1 && !(results[n - 2] matches Some(Ok(_))) {
            law_features_report_one_error(states, results, n - 2, n - 1);
        }
        lemma_items_add_no_end(states, results, n - 1);
        lemma_step_extends_log(before, after, results[n - 1]);
        let opened = dataset_opened(before).log();
        assert(after.log().take(opened.len() as int) =~= opened);
        assert(opened.take(start.len() as int) =~= start);
        assert(after.log().take(start.len() as int) =~= opened.take(start.len() as int));
        assert forall|k: int| start.len() <= k < after.log().len() implies !(
        #[trigger] after.log()[k] is DatasetEnd) by {
            if k < opened.len() {
                assert(after.log()[k] == opened[k]);
                if k < before.log().len() {
                    assert(opened[k] == before.log()[k]);
                }
            }
        }
    }
}

/// Whether the same came of asking for a feature as of asking for a geometry.
pub open spec fn same_outcome(
    feature: Option<Result<ShapeRecord, Error>>,
    geometry: Option<Result<(), Error>>,
) -> bool {
    match (feature, geometry) {
        (None, None) => true,
        (Some(Err(x)), Some(Err(y))) => x == y,
        (Some(Ok(_)), Some(Ok(_))) => true,
        _ => false,
    }
}

/// Whether an iterator over features and one over geometries stand at the same place of the main
/// file. (Of iterators that have ended early, where they would read on makes no difference.)
pub open spec fn same_spot(features: FeatureState, geometries: GeometryState) -> bool {
    &&& features.failed == geometries.failed
    &&& !features.failed ==> {
        &&& !features.shapes.failed
        &&& features.shapes.bytes == geometries.bytes
        &&& features.shapes.pos == geometries.pos
        &&& features.shapes.current_pos == geometries.current_pos
        &&& features.shapes.file_length == geometries.file_length
    }
}

/// Features come as geometries do, item by item: where the table has a row for each and nothing
/// is refused, a feature comes where a geometry does, and otherwise the same error or the end.
pub proof fn law_features_come_as_geometries_do(
    xs: Seq<FeatureState>,
    features: Seq<Option<Result<ShapeRecord, Error>>>,
    gs: Seq<GeometryState>,
    geometries: Seq<Option<Result<(), Error>>>,
    n: int,
)
    requires
        feature_run(xs, features),
        geometry_run(gs, geometries),
        same_spot(xs[0], gs[0]),
        0 <= n <= features.len(),
        n <= geometries.len(),
        forall|i: int|
            0 <= i < n ==> (#[trigger] xs[i]).finished() || xs[i].table.upcoming.len() > 0,
        nothing_refused(features),
        forall|i: int|
            0 <= i < geometries.len() ==> !(#[trigger] geometries[i] matches Some(
                Err(Error::GeozeroError(_)),
            )),
    ensures
        forall|i: int| 0 <= i < n ==> same_outcome(#[trigger] features[i], geometries[i]),
        same_spot(xs[n], gs[n]),
    decreases n,
{
    if n > 0 {
        law_features_come_as_geometries_do(xs, features, gs, geometries, n - 1);
        let x = xs[n - 1];
        assert(feature_step(x, xs[n], features[n - 1]));
        assert(geometry_step(gs[n - 1], gs[n], geometries[n - 1]));
        if !x.finished() {
            let telling = lemma_feature_was_told(dataset_opened(x), xs[n], features[n - 1]);
            assert(telling.reply is Ok);
        }
    }
}

} // verus!
