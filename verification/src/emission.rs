//! What a captured span or event hands to the sink: the intern records it
//! needs, and the event record that depends on them.
//!
//! Writing is the caller's work, and a write can fail. The event record is
//! therefore given in a pending form: each of its references knows which
//! intern record of the emission it waits for, and waits for none only
//! where the record that introduces its id has reached the sink before.
//! Once the caller has tried to write the intern records, the pending form
//! is resolved against the outcomes: a reference whose intern record did
//! not land carries its value inline. The layer is then told of the
//! outcomes, and sends again with the next reference what was lost.

use crate::record::{
    record_views, Argument, ArgumentView, Event, EventKind, EventView, Record, RecordView,
    StringRef, StringRefView, ThreadRef,
};
use vstd::prelude::*;

verus! {

/// Whether the intern record that a reference waits for has reached the
/// sink. A reference waits for none where that record has reached the sink
/// with an earlier emission. An outcome that is missing counts as a
/// failure.
pub open spec fn landed(outcomes: Seq<bool>, awaits: Option<int>) -> bool {
    match awaits {
        Some(i) => 0 <= i < outcomes.len() && outcomes[i],
        None => true,
    }
}

/// The position of an intern record, as a number.
pub open spec fn position_view(awaits: Option<usize>) -> Option<int> {
    match awaits {
        Some(i) => Some(i as int),
        None => None,
    }
}

/// A string that an event names, with its id. `awaits` is the position,
/// among the intern records of the same emission, of the string record that
/// introduces the id; it is `None` where such a record has reached the sink
/// before.
#[derive(Debug, PartialEq, Eq)]
pub struct PendingString {
    pub id: u16,
    pub value: String,
    pub awaits: Option<usize>,
}

/// The thread that an event names, with its id. `awaits` is the position,
/// among the intern records of the same emission, of the thread record that
/// introduces the id; it is `None` where such a record has reached the sink
/// before.
#[derive(Clone, Copy, Debug, PartialEq, Eq)]
pub struct PendingThread {
    pub id: u8,
    pub process_koid: u64,
    pub thread_koid: u64,
    pub awaits: Option<usize>,
}

/// An argument whose strings are pending.
#[derive(Debug, PartialEq, Eq)]
pub enum PendingArgument {
    Int64(PendingString, i64),
    UInt64(PendingString, u64),
    Boolean(PendingString, bool),
    Str(PendingString, PendingString),
    Float(PendingString, u64),
}

/// An event record whose references are pending, and that has no timestamp
/// yet.
#[derive(Debug, PartialEq, Eq)]
pub struct PendingEvent {
    pub kind: EventKind,
    pub thread: PendingThread,
    pub category: PendingString,
    pub name: PendingString,
    pub arguments: Vec<PendingArgument>,
}

/// What one captured span or event hands to the sink: first the intern
/// records, in this order, then the event record.
#[derive(Debug, PartialEq, Eq)]
pub struct Emission {
    pub interns: Vec<Record>,
    pub event: PendingEvent,
}

pub struct PendingStringView {
    pub id: u16,
    pub value: Seq<char>,
    pub awaits: Option<int>,
}

pub struct PendingThreadView {
    pub id: u8,
    pub process_koid: u64,
    pub thread_koid: u64,
    pub awaits: Option<int>,
}

pub enum PendingArgumentView {
    Int64(PendingStringView, i64),
    UInt64(PendingStringView, u64),
    Boolean(PendingStringView, bool),
    Str(PendingStringView, PendingStringView),
    Float(PendingStringView, u64),
}

pub struct PendingEventView {
    pub kind: EventKind,
    pub thread: PendingThreadView,
    pub category: PendingStringView,
    pub name: PendingStringView,
    pub arguments: Seq<PendingArgumentView>,
}

pub struct EmissionView {
    pub interns: Seq<RecordView>,
    pub event: PendingEventView,
}

impl View for PendingString {
    type V = PendingStringView;

    open spec fn view(&self) -> PendingStringView {
        PendingStringView { id: self.id, value: self.value@, awaits: position_view(self.awaits) }
    }
}

impl View for PendingThread {
    type V = PendingThreadView;

    open spec fn view(&self) -> PendingThreadView {
        PendingThreadView {
            id: self.id,
            process_koid: self.process_koid,
            thread_koid: self.thread_koid,
            awaits: position_view(self.awaits),
        }
    }
}

impl View for PendingArgument {
    type V = PendingArgumentView;

    open spec fn view(&self) -> PendingArgumentView {
        match *self {
            PendingArgument::Int64(name, value) => PendingArgumentView::Int64(name@, value),
            PendingArgument::UInt64(name, value) => PendingArgumentView::UInt64(name@, value),
            PendingArgument::Boolean(name, value) => PendingArgumentView::Boolean(name@, value),
            PendingArgument::Str(name, value) => PendingArgumentView::Str(name@, value@),
            PendingArgument::Float(name, bits) => PendingArgumentView::Float(name@, bits),
        }
    }
}

/// The pending arguments of an event, each by its view.
pub open spec fn pending_views(arguments: Seq<PendingArgument>) -> Seq<PendingArgumentView> {
    arguments.map_values(|a: PendingArgument| a@)
}

/// The views of the arguments after one more.
pub(crate) proof fn lemma_pending_views_push(
    arguments: Seq<PendingArgument>,
    argument: PendingArgument,
)
    ensures
        pending_views(arguments.push(argument)) == pending_views(arguments).push(argument@),
{
    assert(pending_views(arguments.push(argument)) =~= pending_views(arguments).push(argument@));
}

impl View for PendingEvent {
    type V = PendingEventView;

    open spec fn view(&self) -> PendingEventView {
        PendingEventView {
            kind: self.kind,
            thread: self.thread@,
            category: self.category@,
            name: self.name@,
            arguments: pending_views(self.arguments@),
        }
    }
}

impl View for Emission {
    type V = EmissionView;

    open spec fn view(&self) -> EmissionView {
        EmissionView { interns: record_views(self.interns@), event: self.event@ }
    }
}

impl PendingStringView {
    /// The reference as the event record carries it: the id where its
    /// string record has landed, the text itself where it has not.
    pub open spec fn resolve(self, outcomes: Seq<bool>) -> StringRefView {
        if landed(outcomes, self.awaits) {
            StringRefView::Ref(self.id)
        } else {
            StringRefView::Inline(self.value)
        }
    }
}

impl PendingThreadView {
    /// The reference as the event record carries it: the id where its
    /// thread record has landed, the pair itself where it has not.
    pub open spec fn resolve(self, outcomes: Seq<bool>) -> ThreadRef {
        if landed(outcomes, self.awaits) {
            ThreadRef::Ref(self.id)
        } else {
            ThreadRef::Inline { process_koid: self.process_koid, thread_koid: self.thread_koid }
        }
    }
}

impl PendingArgumentView {
    /// The argument with each of its strings resolved.
    pub open spec fn resolve(self, outcomes: Seq<bool>) -> ArgumentView {
        match self {
            PendingArgumentView::Int64(name, value) => ArgumentView::Int64(
                name.resolve(outcomes),
                value,
            ),
            PendingArgumentView::UInt64(name, value) => ArgumentView::UInt64(
                name.resolve(outcomes),
                value,
            ),
            PendingArgumentView::Boolean(name, value) => ArgumentView::Boolean(
                name.resolve(outcomes),
                value,
            ),
            PendingArgumentView::Str(name, value) => ArgumentView::Str(
                name.resolve(outcomes),
                value.resolve(outcomes),
            ),
            PendingArgumentView::Float(name, bits) => ArgumentView::Float(
                name.resolve(outcomes),
                bits,
            ),
        }
    }
}

impl PendingEventView {
    /// The event record that is written at `timestamp` after the intern
    /// records met `outcomes`.
    pub open spec fn resolve(self, outcomes: Seq<bool>, timestamp: u64) -> EventView {
        EventView {
            kind: self.kind,
            timestamp,
            thread: self.thread.resolve(outcomes),
            category: self.category.resolve(outcomes),
            name: self.name.resolve(outcomes),
            arguments: self.arguments.map_values(|a: PendingArgumentView| a.resolve(outcomes)),
        }
    }
}

/// The intern records that were written: each one, in order, whose outcome
/// tells of success.
pub open spec fn kept(interns: Seq<RecordView>, outcomes: Seq<bool>) -> Seq<RecordView>
    decreases interns.len(),
{
    if interns.len() == 0 {
        Seq::empty()
    } else if landed(outcomes, Some(interns.len() - 1)) {
        kept(interns.drop_last(), outcomes).push(interns.last())
    } else {
        kept(interns.drop_last(), outcomes)
    }
}

impl EmissionView {
    /// What reaches the sink: the intern records that were written, and
    /// after them, where it was written too, the event record, resolved
    /// against the outcomes.
    pub open spec fn reaches_sink(
        self,
        outcomes: Seq<bool>,
        written: bool,
        timestamp: u64,
    ) -> Seq<RecordView> {
        let interns = kept(self.interns, outcomes);
        if written {
            interns.push(RecordView::Event(self.event.resolve(outcomes, timestamp)))
        } else {
            interns
        }
    }
}

/// Whether the write at position `awaits` succeeded.
fn has_landed(outcomes: &[bool], awaits: Option<usize>) -> (yes: bool)
    ensures
        yes == landed(outcomes@, position_view(awaits)),
{
    match awaits {
        Some(i) => i < outcomes.len() && outcomes[i],
        None => true,
    }
}

impl PendingString {
    /// The reference to put into the event record, given the outcome of
    /// each intern write of the emission, in order.
    pub fn resolve(&self, outcomes: &[bool]) -> (reference: StringRef)
        ensures
            reference@ == self@.resolve(outcomes@),
    {
        if has_landed(outcomes, self.awaits) {
            StringRef::Ref(self.id)
        } else {
            StringRef::Inline(self.value.clone())
        }
    }
}

impl PendingThread {
    /// The reference to put into the event record, given the outcome of
    /// each intern write of the emission, in order.
    pub fn resolve(&self, outcomes: &[bool]) -> (reference: ThreadRef)
        ensures
            reference == self@.resolve(outcomes@),
    {
        if has_landed(outcomes, self.awaits) {
            ThreadRef::Ref(self.id)
        } else {
            ThreadRef::Inline { process_koid: self.process_koid, thread_koid: self.thread_koid }
        }
    }
}

impl PendingArgument {
    /// The argument to put into the event record, given the outcome of each
    /// intern write of the emission, in order.
    pub fn resolve(&self, outcomes: &[bool]) -> (argument: Argument)
        ensures
            argument@ == self@.resolve(outcomes@),
    {
        match self {
            PendingArgument::Int64(name, value) => Argument::Int64(name.resolve(outcomes), *value),
            PendingArgument::UInt64(name, value) => Argument::UInt64(
                name.resolve(outcomes),
                *value,
            ),
            PendingArgument::Boolean(name, value) => Argument::Boolean(
                name.resolve(outcomes),
                *value,
            ),
            PendingArgument::Str(name, value) => Argument::Str(
                name.resolve(outcomes),
                value.resolve(outcomes),
            ),
            PendingArgument::Float(name, bits) => Argument::Float(name.resolve(outcomes), *bits),
        }
    }
}

impl PendingEvent {
    /// The event record to write at `timestamp`, given the outcome of each
    /// intern write of the emission, in order. A reference whose intern
    /// record was written, or that waits for none, is by id; every other
    /// carries its value.
    pub fn resolve(&self, outcomes: &[bool], timestamp: u64) -> (event: Event)
        ensures
            event@ == self@.resolve(outcomes@, timestamp),
    {
        let mut arguments: Vec<Argument> = Vec::new();
        let mut i: usize = 0;
        while i < self.arguments.len()
            invariant
                i <= self.arguments.len(),
                arguments@.len() == i,
                forall|j: int|
                    0 <= j < i ==> (#[trigger] arguments@[j])@ == self.arguments@[j]@.resolve(
                        outcomes@,
                    ),
            decreases self.arguments.len() - i,
        {
            arguments.push(self.arguments[i].resolve(outcomes));
            i += 1;
        }
        let event = Event {
            kind: self.kind,
            timestamp,
            thread: self.thread.resolve(outcomes),
            category: self.category.resolve(outcomes),
            name: self.name.resolve(outcomes),
            arguments,
        };
        assert(event@.arguments =~= self@.resolve(outcomes@, timestamp).arguments);
        event
    }
}

/// What became of the writes of one emission: of each intern record, in
/// order, and of the event record, with the time that the event record was
/// stamped with.
#[derive(Debug, PartialEq, Eq)]
pub struct Delivery {
    pub outcomes: Vec<bool>,
    pub timestamp: u64,
    pub written: bool,
}

impl Emission {
    /// Hands the records of the emission to `write`, which tells of each
    /// whether it was written: first every intern record, in order, then
    /// the event record, resolved against the outcomes of the intern
    /// records and stamped with the time that `now` gives once these have
    /// been tried. The layer is to be told of the outcomes: see
    /// [`crate::layer::FtfLayer::settle`].
    pub fn deliver<W: Fn(&Record) -> bool, C: Fn() -> u64>(&self, write: W, now: C) -> (delivery:
        Delivery)
        requires
            forall|record: &Record| call_requires(write, (record,)),
            call_requires(now, ()),
        ensures
            delivery.outcomes@.len() == self.interns@.len(),
            forall|i: int|
                0 <= i < self.interns@.len() ==> call_ensures(
                    write,
                    (&self.interns@[i],),
                    #[trigger] delivery.outcomes@[i],
                ),
            call_ensures(now, (), delivery.timestamp),
            exists|event: Record| #[trigger]
                call_ensures(write, (&event,), delivery.written) && event@ == RecordView::Event(
                    self@.event.resolve(delivery.outcomes@, delivery.timestamp),
                ),
    {
        let mut outcomes: Vec<bool> = Vec::new();
        let mut i: usize = 0;
        while i < self.interns.len()
            invariant
                forall|record: &Record| call_requires(write, (record,)),
                i <= self.interns.len(),
                outcomes@.len() == i,
                forall|j: int|
                    0 <= j < i ==> call_ensures(
                        write,
                        (&self.interns@[j],),
                        #[trigger] outcomes@[j],
                    ),
            decreases self.interns.len() - i,
        {
            let outcome = write(&self.interns[i]);
            outcomes.push(outcome);
            i += 1;
        }
        let timestamp = now();
        let record = Record::Event(self.event.resolve(outcomes.as_slice(), timestamp));
        let written = write(&record);
        let delivery = Delivery { outcomes, timestamp, written };
        assert(call_ensures(write, (&record,), delivery.written) && record@ == RecordView::Event(
            self@.event.resolve(delivery.outcomes@, delivery.timestamp),
        ));
        delivery
    }

    /// The event record to write at `timestamp`, once each of the intern
    /// records has been handed to the sink and `outcomes` tells, in the same
    /// order, which of them were written.
    pub fn resolve(&self, outcomes: &[bool], timestamp: u64) -> (record: Record)
        ensures
            record@ == RecordView::Event(self@.event.resolve(outcomes@, timestamp)),
    {
        Record::Event(self.event.resolve(outcomes, timestamp))
    }
}

} // verus!
