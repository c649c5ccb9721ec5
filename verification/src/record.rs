//! The records of a trace log, as typed values.
//!
//! A record here says what is to be written; turning it into bytes is the
//! work of the record codec, which the caller of this library drives.

use vstd::prelude::*;

verus! {

/// How a record names a string: by the text itself, or by the id under which
/// an earlier string record introduced it.
#[derive(Clone, Debug, PartialEq, Eq)]
pub enum StringRef {
    Inline(String),
    Ref(u16),
}

/// How a record names a thread: by its process and thread numbers, or by the
/// id under which an earlier thread record introduced them.
#[derive(Clone, Copy, Debug, PartialEq, Eq)]
pub enum ThreadRef {
    Inline { process_koid: u64, thread_koid: u64 },
    Ref(u8),
}

/// A named value attached to an event record.
///
/// `Float` holds the IEEE 754 bit pattern of a 64-bit floating-point value.
#[derive(Clone, Debug, PartialEq, Eq)]
pub enum Argument {
    Int64(StringRef, i64),
    UInt64(StringRef, u64),
    Boolean(StringRef, bool),
    Str(StringRef, StringRef),
    Float(StringRef, u64),
}

/// The three event records the sink writes.
#[derive(Clone, Copy, Debug, PartialEq, Eq)]
pub enum EventKind {
    DurationBegin,
    DurationEnd,
    Instant,
}

/// A duration-begin, duration-end or instant record.
#[derive(Clone, Debug, PartialEq, Eq)]
pub struct Event {
    pub kind: EventKind,
    pub timestamp: u64,
    pub thread: ThreadRef,
    pub category: StringRef,
    pub name: StringRef,
    pub arguments: Vec<Argument>,
}

/// One unit of the append-only trace log.
#[derive(Clone, Debug, PartialEq, Eq)]
pub enum Record {
    /// Marks the log's format.
    Magic,
    /// Describes the provider that produced the log.
    Provider { provider_id: u32, provider_name: String },
    /// Introduces `value` under `string_id`.
    StringIntern { string_id: u16, value: String },
    /// Introduces the pair of process and thread under `thread_id`.
    ThreadIntern { thread_id: u8, process_koid: u64, thread_koid: u64 },
    /// A span's begin or end, or an instant event.
    Event(Event),
}

pub enum StringRefView {
    Inline(Seq<char>),
    Ref(u16),
}

pub enum ArgumentView {
    Int64(StringRefView, i64),
    UInt64(StringRefView, u64),
    Boolean(StringRefView, bool),
    Str(StringRefView, StringRefView),
    Float(StringRefView, u64),
}

pub struct EventView {
    pub kind: EventKind,
    pub timestamp: u64,
    pub thread: ThreadRef,
    pub category: StringRefView,
    pub name: StringRefView,
    pub arguments: Seq<ArgumentView>,
}

pub enum RecordView {
    Magic,
    Provider { provider_id: u32, provider_name: Seq<char> },
    StringIntern { string_id: u16, value: Seq<char> },
    ThreadIntern { thread_id: u8, process_koid: u64, thread_koid: u64 },
    Event(EventView),
}

impl View for StringRef {
    type V = StringRefView;

    open spec fn view(&self) -> StringRefView {
        match *self {
            StringRef::Inline(text) => StringRefView::Inline(text@),
            StringRef::Ref(id) => StringRefView::Ref(id),
        }
    }
}

impl View for Argument {
    type V = ArgumentView;

    open spec fn view(&self) -> ArgumentView {
        match *self {
            Argument::Int64(name, value) => ArgumentView::Int64(name@, value),
            Argument::UInt64(name, value) => ArgumentView::UInt64(name@, value),
            Argument::Boolean(name, value) => ArgumentView::Boolean(name@, value),
            Argument::Str(name, value) => ArgumentView::Str(name@, value@),
            Argument::Float(name, bits) => ArgumentView::Float(name@, bits),
        }
    }
}

impl View for Event {
    type V = EventView;

    open spec fn view(&self) -> EventView {
        EventView {
            kind: self.kind,
            timestamp: self.timestamp,
            thread: self.thread,
            category: self.category@,
            name: self.name@,
            arguments: argument_views(self.arguments@),
        }
    }
}

impl View for Record {
    type V = RecordView;

    open spec fn view(&self) -> RecordView {
        match *self {
            Record::Magic => RecordView::Magic,
            Record::Provider { provider_id, provider_name } => RecordView::Provider {
                provider_id,
                provider_name: provider_name@,
            },
            Record::StringIntern { string_id, value } => RecordView::StringIntern {
                string_id,
                value: value@,
            },
            Record::ThreadIntern { thread_id, process_koid, thread_koid } => {
                RecordView::ThreadIntern { thread_id, process_koid, thread_koid }
            },
            Record::Event(event) => RecordView::Event(event@),
        }
    }
}

/// The arguments of a record, each by its view.
pub open spec fn argument_views(arguments: Seq<Argument>) -> Seq<ArgumentView> {
    arguments.map_values(|a: Argument| a@)
}

/// The records of a log, each by its view.
pub open spec fn record_views(records: Seq<Record>) -> Seq<RecordView> {
    records.map_values(|r: Record| r@)
}

/// The views of the records after one more.
pub(crate) proof fn lemma_record_views_push(records: Seq<Record>, record: Record)
    ensures
        record_views(records.push(record)) == record_views(records).push(record@),
{
    assert(record_views(records.push(record)) =~= record_views(records).push(record@));
}

impl ArgumentView {
    /// Whether the argument names a string by the id `id`.
    pub open spec fn mentions_string(self, id: u16) -> bool {
        match self {
            ArgumentView::Int64(name, _) => name == StringRefView::Ref(id),
            ArgumentView::UInt64(name, _) => name == StringRefView::Ref(id),
            ArgumentView::Boolean(name, _) => name == StringRefView::Ref(id),
            ArgumentView::Float(name, _) => name == StringRefView::Ref(id),
            ArgumentView::Str(name, value) => name == StringRefView::Ref(id) || value
                == StringRefView::Ref(id),
        }
    }
}

impl RecordView {
    /// Whether the record introduces the string `value`.
    pub open spec fn introduces_string(self, value: Seq<char>) -> bool {
        self is StringIntern && self->value == value
    }

    /// Whether the record introduces the pair of process and thread.
    pub open spec fn introduces_thread(self, process: u64, thread: u64) -> bool {
        self is ThreadIntern && self->process_koid == process && self->thread_koid == thread
    }

    /// Whether the record names a string by the id `id`.
    pub open spec fn mentions_string(self, id: u16) -> bool {
        match self {
            RecordView::Event(event) => {
                ||| event.category == StringRefView::Ref(id)
                ||| event.name == StringRefView::Ref(id)
                ||| exists|i: int|
                    0 <= i < event.arguments.len() && (
                    #[trigger] event.arguments[i]).mentions_string(id)
            },
            _ => false,
        }
    }

    /// Whether the record names a thread by the id `id`.
    pub open spec fn mentions_thread(self, id: u8) -> bool {
        match self {
            RecordView::Event(event) => event.thread == ThreadRef::Ref(id),
            _ => false,
        }
    }
}

} // verus!
