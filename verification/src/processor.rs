//! The processors that take in what a shapefile holds.

use crate::error::GeozeroError;
use crate::shp_reader::{Shape, ShapeView};
use vstd::prelude::*;

verus! {

/// The value of a property: what the table holds in the field.
pub type ColumnValue = dbase::FieldValue;

/// One call to a processor: which call it was, what it was given and, where that decides how the
/// reading goes on, what it replied.
pub enum Event {
    /// `dataset_begin`, with the name of the dataset.
    DatasetBegin(Option<Seq<char>>),
    /// `dataset_end`.
    DatasetEnd,
    /// `feature_begin`, with the number of the feature.
    FeatureBegin(u64),
    /// `feature_end`, with the number of the feature.
    FeatureEnd(u64),
    /// `properties_begin`.
    PropertiesBegin,
    /// `properties_end`.
    PropertiesEnd,
    /// `property`, with the number, the name and the value of the property, and the reply.
    Property(usize, Seq<char>, ColumnValue, Result<bool, GeozeroError>),
    /// `geometry_begin`.
    GeometryBegin,
    /// `geometry_end`.
    GeometryEnd,
    /// `shape`, with the shape, and the reply.
    Shape(ShapeView, Result<(), GeozeroError>),
}

/// The calls that a processor has had, the oldest first. Contracts speak of them; at run time
/// nothing is kept.
pub struct CallLog {
    events: Ghost<Seq<Event>>,
}

impl View for CallLog {
    type V = Seq<Event>;

    closed spec fn view(&self) -> Seq<Event> {
        self.events@
    }
}

impl CallLog {
    /// The log of a processor that has had no calls.
    pub fn new() -> (calls: CallLog)
        ensures
            calls@ == Seq::<Event>::empty(),
    {
        CallLog { events: Ghost(Seq::empty()) }
    }

    /// Notes one more call.
    pub fn note(&mut self, event: Ghost<Event>)
        ensures
            final(self)@ == old(self)@.push(event@),
    {
        self.events = Ghost(self.events@.push(event@));
    }
}

/// Whether a call was refused.
pub open spec fn is_refusal(event: Event) -> bool {
    match event {
        Event::Property(_, _, _, Err(_)) => true,
        Event::Shape(_, Err(_)) => true,
        _ => false,
    }
}

/// Whether a processor with these replies refuses no shape and no property.
pub open spec fn takes_all(replies: Set<Event>) -> bool {
    forall|event: Event| #[trigger] replies.contains(event) ==> !is_refusal(event)
}

/// Whether a processor with these replies refuses every property.
pub open spec fn refuses_properties(replies: Set<Event>) -> bool {
    forall|event: Event| #[trigger]
        replies.contains(event) && event is Property ==> is_refusal(event)
}

/// Whether a processor with these replies can have had this call: its reply to a property, and
/// its refusal of a shape, are among them.
pub open spec fn can_be_told(replies: Set<Event>, event: Event) -> bool {
    event is Property || is_refusal(event) ==> replies.contains(event)
}

/// Whether a processor with these replies can have had the calls by which its log grew from
/// `before` to `after`.
pub open spec fn replied_within(replies: Set<Event>, before: Seq<Event>, after: Seq<Event>) -> bool {
    forall|k: int| before.len() <= k < after.len() ==> can_be_told(replies, #[trigger] after[k])
}

/// What it takes to reach the log of a processor of type `P`. Only the methods in this module
/// make one, so that nothing but a call can lengthen a log.
pub struct LogKey<P: ?Sized> {
    of: core::marker::PhantomData<P>,
}

impl<P: ?Sized> LogKey<P> {
    fn new() -> LogKey<P> {
        LogKey { of: core::marker::PhantomData }
    }
}

/// What all processors have in common: the calls they have had can be spoken of.
pub trait Observed {
    /// The calls so far, the oldest first.
    ///
    /// A processor outside of verified code need not give this. It is then taken to have a log
    /// that grows with each call, as its methods promise, and not the empty one that stands here
    /// for want of another.
    open spec fn log(&self) -> Seq<Event> {
        Seq::empty()
    }

    /// What the processor may reply, now and later: the calls of `property`, each with a reply
    /// that it may get, and the calls of `shape` that it may refuse.
    open spec fn replies(&self) -> Set<Event> {
        Set::full()
    }

    /// Where the calls are noted.
    fn calls(&mut self, key: &LogKey<Self>) -> (calls: &mut CallLog)
        ensures
            calls@ == old(self).log(),
            final(self).log() == final(calls)@,
            final(self).replies() == old(self).replies(),
    ;
}

/// Takes in geometries.
pub trait GeomProcessor: Observed {
    /// Takes in one shape.
    fn shape(&mut self, shape: &Shape) -> (r: Result<(), GeozeroError>)
        ensures
            final(self).log() == old(self).log().push(Event::Shape(shape@, r)),
            can_be_told(old(self).replies(), Event::Shape(shape@, r)),
            final(self).replies() == old(self).replies(),
    {
        let r = Ok(());
        self.calls(&LogKey::new()).note(Ghost(Event::Shape(shape@, r)));
        r
    }
}

/// Takes in properties.
pub trait PropertyProcessor: Observed {
    /// Takes in one property. With `Ok(true)` no more properties of the feature are wanted.
    fn property(&mut self, idx: usize, name: &str, value: &ColumnValue) -> (r: Result<
        bool,
        GeozeroError,
    >)
        ensures
            final(self).log() == old(self).log().push(Event::Property(idx, name@, *value, r)),
            can_be_told(old(self).replies(), Event::Property(idx, name@, *value, r)),
            final(self).replies() == old(self).replies(),
    ;
}

/// Takes in features: properties and geometries, in their frame.
pub trait FeatureProcessor: GeomProcessor + PropertyProcessor {
    /// A dataset begins.
    fn dataset_begin(&mut self, name: Option<&str>) -> (r: Result<(), GeozeroError>)
        ensures
            final(self).log() == old(self).log().push(dataset_begun(name)),
            final(self).replies() == old(self).replies(),
    {
        self.calls(&LogKey::new()).note(Ghost(dataset_begun(name)));
        Ok(())
    }

    /// The dataset ends.
    fn dataset_end(&mut self) -> (r: Result<(), GeozeroError>)
        ensures
            final(self).log() == old(self).log().push(Event::DatasetEnd),
            final(self).replies() == old(self).replies(),
    {
        self.calls(&LogKey::new()).note(Ghost(Event::DatasetEnd));
        Ok(())
    }

    /// A feature begins.
    fn feature_begin(&mut self, idx: u64) -> (r: Result<(), GeozeroError>)
        ensures
            final(self).log() == old(self).log().push(Event::FeatureBegin(idx)),
            final(self).replies() == old(self).replies(),
    {
        self.calls(&LogKey::new()).note(Ghost(Event::FeatureBegin(idx)));
        Ok(())
    }

    /// The feature ends.
    fn feature_end(&mut self, idx: u64) -> (r: Result<(), GeozeroError>)
        ensures
            final(self).log() == old(self).log().push(Event::FeatureEnd(idx)),
            final(self).replies() == old(self).replies(),
    {
        self.calls(&LogKey::new()).note(Ghost(Event::FeatureEnd(idx)));
        Ok(())
    }

    /// The properties of the feature begin.
    fn properties_begin(&mut self) -> (r: Result<(), GeozeroError>)
        ensures
            final(self).log() == old(self).log().push(Event::PropertiesBegin),
            final(self).replies() == old(self).replies(),
    {
        self.calls(&LogKey::new()).note(Ghost(Event::PropertiesBegin));
        Ok(())
    }

    /// The properties of the feature end.
    fn properties_end(&mut self) -> (r: Result<(), GeozeroError>)
        ensures
            final(self).log() == old(self).log().push(Event::PropertiesEnd),
            final(self).replies() == old(self).replies(),
    {
        self.calls(&LogKey::new()).note(Ghost(Event::PropertiesEnd));
        Ok(())
    }

    /// The geometry of the feature begins.
    fn geometry_begin(&mut self) -> (r: Result<(), GeozeroError>)
        ensures
            final(self).log() == old(self).log().push(Event::GeometryBegin),
            final(self).replies() == old(self).replies(),
    {
        self.calls(&LogKey::new()).note(Ghost(Event::GeometryBegin));
        Ok(())
    }

    /// The geometry of the feature ends.
    fn geometry_end(&mut self) -> (r: Result<(), GeozeroError>)
        ensures
            final(self).log() == old(self).log().push(Event::GeometryEnd),
            final(self).replies() == old(self).replies(),
    {
        self.calls(&LogKey::new()).note(Ghost(Event::GeometryEnd));
        Ok(())
    }
}

/// The call of `dataset_begin` with this name.
pub open spec fn dataset_begun(name: Option<&str>) -> Event {
    match name {
        Some(name) => Event::DatasetBegin(Some(name@)),
        None => Event::DatasetBegin(None),
    }
}

/// A processor that takes everything and keeps nothing.
pub struct ProcessorSink {
    calls: CallLog,
}

impl ProcessorSink {
    /// A sink that has had no calls.
    pub fn new() -> (sink: ProcessorSink)
        ensures
            sink.log() == Seq::<Event>::empty(),
            takes_all(sink.replies()),
    {
        ProcessorSink { calls: CallLog::new() }
    }
}

impl Observed for ProcessorSink {
    closed spec fn log(&self) -> Seq<Event> {
        self.calls@
    }

    open spec fn replies(&self) -> Set<Event> {
        Set::new(|event: Event| event matches Event::Property(_, _, _, Ok(false)))
    }

    fn calls(&mut self, key: &LogKey<ProcessorSink>) -> (calls: &mut CallLog) {
        &mut self.calls
    }
}

impl GeomProcessor for ProcessorSink {

}

impl PropertyProcessor for ProcessorSink {
    fn property(&mut self, idx: usize, name: &str, value: &ColumnValue) -> (r: Result<
        bool,
        GeozeroError,
    >)
        ensures
            r == Ok::<bool, GeozeroError>(false),
    {
        let r = Ok(false);
        self.calls.note(Ghost(Event::Property(idx, name@, *value, r)));
        r
    }
}

impl FeatureProcessor for ProcessorSink {

}

} // verus!
