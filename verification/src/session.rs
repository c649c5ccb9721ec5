//! A session: the hooks that a layer answers one after the other, what
//! becomes of the writes that each of them leads to, and the log that
//! results.

use crate::emission::EmissionView;
use crate::field::FieldView;
use crate::filter::{capture_flag, select};
use crate::layer::{header, LayerState};
use crate::record::RecordView;
use vstd::prelude::*;

verus! {

/// One call of a hook, with the time at which its event record is written.
pub enum Hook {
    NewSpan {
        id: u64,
        name: Seq<char>,
        fields: Seq<FieldView>,
        process_id: u64,
        thread: u64,
        timestamp: u64,
    },
    Close { id: u64, name: Seq<char>, process_id: u64, thread: u64, timestamp: u64 },
    Event {
        name: Seq<char>,
        fields: Seq<FieldView>,
        current: Option<u64>,
        process_id: u64,
        thread: u64,
        timestamp: u64,
    },
}

impl Hook {
    /// The time at which the hook's event record is written.
    pub open spec fn timestamp(self) -> u64 {
        match self {
            Hook::NewSpan { timestamp, .. } => timestamp,
            Hook::Close { timestamp, .. } => timestamp,
            Hook::Event { timestamp, .. } => timestamp,
        }
    }

    /// Whether the layer in `state` records the hook: a new span by its own
    /// capture flag, a closing span by the decision stored when it was
    /// created, an event by its own flag or by the stored decision of the
    /// span that encloses it.
    pub open spec fn captured(self, state: LayerState) -> bool {
        match self {
            Hook::NewSpan { fields, .. } => capture_flag(fields),
            Hook::Close { id, .. } => state.spans.contains_key(id) && state.spans[id].captured,
            Hook::Event { fields, current, .. } => select(fields).event_captured(
                state.parent(current),
            ),
        }
    }

    /// Whether the hook creates or closes the span `id`.
    pub open spec fn touches(self, id: u64) -> bool {
        match self {
            Hook::NewSpan { id: span, .. } => span == id,
            Hook::Close { id: span, .. } => span == id,
            Hook::Event { .. } => false,
        }
    }
}

/// What the layer answers to a hook.
pub open spec fn answer(state: LayerState, hook: Hook) -> (LayerState, Option<EmissionView>) {
    match hook {
        Hook::NewSpan { id, name, fields, process_id, thread, .. } => state.new_span(
            id,
            name,
            fields,
            process_id,
            thread,
        ),
        Hook::Close { id, name, process_id, thread, .. } => state.close(
            id,
            name,
            process_id,
            thread,
        ),
        Hook::Event { name, fields, current, process_id, thread, .. } => state.event(
            name,
            fields,
            current,
            process_id,
            thread,
        ),
    }
}

/// One hook as the sink saw it: the call, and what became of the writes
/// that it led to.
pub struct Call {
    pub hook: Hook,
    /// For each intern record of the emission, in order, whether it was
    /// written. An outcome that is missing counts as a failure.
    pub outcomes: Seq<bool>,
    /// Whether the event record was written.
    pub written: bool,
}

/// The state after a call, and the records that it adds to the log: the
/// layer answers the hook, the caller tries the writes, and the layer is
/// told what became of the intern records.
pub open spec fn step(state: LayerState, call: Call) -> (LayerState, Seq<RecordView>) {
    let (after, emission) = answer(state, call.hook);
    match emission {
        Some(emission) => (
            after.settled(emission.interns, call.outcomes),
            emission.reaches_sink(call.outcomes, call.written, call.hook.timestamp()),
        ),
        None => (after, Seq::empty()),
    }
}

/// The state after the calls, answered in order, and the records that they
/// add to the log.
pub open spec fn run(state: LayerState, calls: Seq<Call>) -> (LayerState, Seq<RecordView>)
    decreases calls.len(),
{
    if calls.len() == 0 {
        (state, Seq::empty())
    } else {
        let (before, log) = run(state, calls.drop_last());
        let (after, records) = step(before, calls.last());
        (after, log + records)
    }
}

/// The log of a whole session: the header, then what the calls add.
pub open spec fn session_log(
    provider_id: u32,
    provider_name: Seq<char>,
    calls: Seq<Call>,
) -> Seq<RecordView> {
    header(provider_id, provider_name) + run(LayerState::initial(), calls).1
}

} // verus!
