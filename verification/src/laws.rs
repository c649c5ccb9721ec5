//! The laws of the sink, each stated of every session and proved.

use crate::consistency::{
    consistent, headerless, ids_introduced, lemma_answer_shape, lemma_plan_shape,
    lemma_run_log, lemma_run_shape, lemma_settled, string_id_before, string_written,
    strings_kept, strings_tracked, thread_id_before, thread_written, threads_kept,
    threads_tracked,
};
use crate::emission::landed;
use crate::field::FieldView;
use crate::filter::{capture_flag, category_label, select};
use crate::layer::{header, LayerState};
use crate::record::{EventKind, RecordView};
use crate::session::{answer, run, session_log, step, Call, Hook};
use crate::text::DEFAULT_CATEGORY;
use vstd::prelude::*;

verus! {

/// A request for a string returns the id that the table then holds for it,
/// and a string that the layer has met keeps its id through every later
/// call, whatever becomes of the writes: a second request returns what the
/// first returned. The same holds of a pair of process and thread. The
/// state stays well formed; so, until the largest thread number has been
/// handed out, different threads have different numbers.
pub proof fn law_ids_are_kept(state: LayerState, calls: Seq<Call>)
    requires
        state.wf(),
    ensures
        run(state, calls).0.wf(),
        strings_kept(state.strings, run(state, calls).0.strings),
        threads_kept(state.threads, run(state, calls).0.threads),
        forall|value: Seq<char>|
            state.strings.with(value).knows(value) && #[trigger] state.strings.with(
                value,
            ).id_of(value) == state.strings.id_of(value),
        forall|process: u64, thread: u64|
            state.threads.with(process, thread).knows(process, thread)
                && #[trigger] state.threads.with(process, thread).id_of(process, thread)
                == state.threads.id_of(process, thread),
{
    lemma_run_shape(state, calls);
}

/// Until the largest thread number has been handed out, the layer gives
/// different execution threads different numbers, in every state that a
/// session reaches.
pub proof fn law_thread_numbers_are_distinct(calls: Seq<Call>, first: u64, second: u64)
    requires
        first != second,
    ensures
        ({
            let numbers = run(LayerState::initial(), calls).0.numbers;
            numbers.knows(first) && numbers.knows(second) && !numbers.exhausted()
                ==> numbers.numbers[first] != numbers.numbers[second]
        }),
{
    lemma_run_shape(LayerState::initial(), calls);
}

/// Whatever becomes of the writes of a session, every record of its log
/// that names a string or a thread by id comes after a record that
/// introduces that id: no id dangles. The log introduces exactly the
/// strings and the pairs of process and thread that the layer holds as
/// landed, each by one record, under the id that the layer holds for it.
pub proof fn law_interned_once_and_first(
    provider_id: u32,
    provider_name: Seq<char>,
    calls: Seq<Call>,
)
    ensures
        ({
            let state = run(LayerState::initial(), calls).0;
            let log = session_log(provider_id, provider_name, calls);
            &&& ids_introduced(log)
            &&& strings_tracked(state.strings, log)
            &&& threads_tracked(state.threads, log)
            &&& consistent(state, log)
        }),
{
    let start = header(provider_id, provider_name);
    assert(consistent(LayerState::initial(), start));
    lemma_run_log(LayerState::initial(), start, calls);
}

/// A write that failed is made up for. Once the layer has been told of the
/// outcomes of an emission, it holds as landed what it held so before and
/// what a written intern record of the emission introduces, and nothing
/// else: what a lost record would have introduced gets its record again
/// with the next reference, and until that record is written every
/// reference to it is carried inline. The ids stay as they are.
pub proof fn law_lost_records_are_sent_again(state: LayerState, call: Call)
    requires
        state.wf(),
    ensures
        answer(state, call.hook).1 matches Some(emission) ==> {
            let settled = step(state, call).0;
            &&& settled.strings.ids == answer(state, call.hook).0.strings.ids
            &&& settled.threads.ids == answer(state, call.hook).0.threads.ids
            &&& forall|value: Seq<char>| #[trigger]
                settled.strings.has_landed(value) <==> state.strings.has_landed(value)
                    || string_written(emission.interns, call.outcomes, value)
            &&& forall|process: u64, thread: u64| #[trigger]
                settled.threads.has_landed(process, thread) <==> state.threads.has_landed(
                    process,
                    thread,
                ) || thread_written(emission.interns, call.outcomes, process, thread)
        },
{
    lemma_answer_shape(state, call.hook);
    if let Some(emission) = answer(state, call.hook).1 {
        let after = answer(state, call.hook).0;
        lemma_settled(after, emission.interns, call.outcomes);
        assert forall|value: Seq<char>|
            string_written(emission.interns, call.outcomes, value) implies after.strings.knows(
            value,
        ) by {
            let i = choose|i: int|
                0 <= i < emission.interns.len() && landed(call.outcomes, Some(i)) && (
                #[trigger] emission.interns[i]).introduces_string(value);
        }
        assert forall|process: u64, thread: u64|
            thread_written(
                emission.interns,
                call.outcomes,
                process,
                thread,
            ) implies after.threads.knows(process, thread) by {
            let i = choose|i: int|
                0 <= i < emission.interns.len() && landed(call.outcomes, Some(i)) && (
                #[trigger] emission.interns[i]).introduces_thread(process, thread);
        }
    }
}

/// Whatever becomes of the writes of a session, no record of its log
/// introduces the id 0, for a string or for a thread, and none names it.
pub proof fn law_reserved_id(provider_id: u32, provider_name: Seq<char>, calls: Seq<Call>)
    ensures
        ({
            let log = session_log(provider_id, provider_name, calls);
            forall|i: int|
                0 <= i < log.len() ==> {
                    &&& (#[trigger] log[i]) is StringIntern ==> log[i]->string_id != 0
                    &&& log[i] is ThreadIntern ==> log[i]->thread_id != 0
                    &&& !log[i].mentions_string(0)
                    &&& !log[i].mentions_thread(0)
                }
        }),
{
    law_interned_once_and_first(provider_id, provider_name, calls);
    let state = run(LayerState::initial(), calls).0;
    let log = session_log(provider_id, provider_name, calls);
    assert forall|i: int| 0 <= i < log.len() implies {
        &&& (#[trigger] log[i]) is StringIntern ==> log[i]->string_id != 0
        &&& log[i] is ThreadIntern ==> log[i]->thread_id != 0
        &&& !log[i].mentions_string(0)
        &&& !log[i].mentions_thread(0)
    } by {
        if log[i] is StringIntern {
            assert(state.strings.has_landed(log[i]->value));
            assert(state.strings.knows(log[i]->value));
        }
        if log[i] is ThreadIntern {
            assert(state.threads.has_landed(log[i]->process_koid, log[i]->thread_koid));
            assert(state.threads.knows(log[i]->process_koid, log[i]->thread_koid));
        }
        if log[i].mentions_string(0) {
            assert(string_id_before(log, i, 0));
            let j = choose|j: int|
                0 <= j < i && j < log.len() && (#[trigger] log[j]) is StringIntern
                    && log[j]->string_id == 0;
            assert(state.strings.has_landed(log[j]->value));
            assert(state.strings.knows(log[j]->value));
        }
        if log[i].mentions_thread(0) {
            assert(thread_id_before(log, i, 0));
            let j = choose|j: int|
                0 <= j < i && j < log.len() && (#[trigger] log[j]) is ThreadIntern
                    && log[j]->thread_id == 0;
            assert(state.threads.has_landed(log[j]->process_koid, log[j]->thread_koid));
            assert(state.threads.knows(log[j]->process_koid, log[j]->thread_koid));
        }
    }
}

/// As long as the string ids of a session have not wrapped around, no two
/// strings share an id and no two string records of the log carry the same
/// id, whatever becomes of the writes: a record that introduces an id is
/// the only one with that id. The same holds of the thread ids.
pub proof fn law_ids_unambiguous_until_they_wrap(
    provider_id: u32,
    provider_name: Seq<char>,
    calls: Seq<Call>,
)
    ensures
        ({
            let state = run(LayerState::initial(), calls).0;
            let log = session_log(provider_id, provider_name, calls);
            &&& state.strings.unwrapped() ==> state.strings.unambiguous() && forall|
                i: int,
                j: int,
            |
                0 <= i < j < log.len() && (#[trigger] log[i]) is StringIntern && (
                #[trigger] log[j]) is StringIntern ==> log[i]->string_id != log[j]->string_id
            &&& state.threads.unwrapped() ==> state.threads.unambiguous() && forall|
                i: int,
                j: int,
            |
                0 <= i < j < log.len() && (#[trigger] log[i]) is ThreadIntern && (
                #[trigger] log[j]) is ThreadIntern ==> log[i]->thread_id != log[j]->thread_id
        }),
{
    let start = header(provider_id, provider_name);
    assert(consistent(LayerState::initial(), start));
    lemma_run_log(LayerState::initial(), start, calls);
    let state = run(LayerState::initial(), calls).0;
    let log = session_log(provider_id, provider_name, calls);
    if state.strings.unwrapped() {
        assert forall|i: int, j: int|
            0 <= i < j < log.len() && (#[trigger] log[i]) is StringIntern && (#[trigger] log[j])
                is StringIntern implies log[i]->string_id != log[j]->string_id by {
            assert(state.strings.has_landed(log[i]->value));
            assert(state.strings.has_landed(log[j]->value));
            assert(state.strings.knows(log[i]->value));
            assert(state.strings.knows(log[j]->value));
        }
    }
    if state.threads.unwrapped() {
        assert forall|i: int, j: int|
            0 <= i < j < log.len() && (#[trigger] log[i]) is ThreadIntern && (#[trigger] log[j])
                is ThreadIntern implies log[i]->thread_id != log[j]->thread_id by {
            let a = (log[i]->process_koid, log[i]->thread_koid);
            let b = (log[j]->process_koid, log[j]->thread_koid);
            assert(state.threads.has_landed(a.0, a.1));
            assert(state.threads.has_landed(b.0, b.1));
            assert(state.threads.knows(a.0, a.1));
            assert(state.threads.knows(b.0, b.1));
        }
    }
}

/// In the emission that a hook answers with, the intern records are string
/// and thread records only; each introduces something that has not landed,
/// and none what another introduces. Each reference carries the id that the
/// layer holds for what it names. It waits for the record of this emission
/// that introduces what it names under that id, and for none only where
/// that has landed. So a reference is by id exactly where the record that
/// introduces its id has been written, now or before.
pub proof fn law_references_await_their_own_record(state: LayerState, hook: Hook)
    requires
        state.wf(),
    ensures
        answer(state, hook).1 matches Some(emission) ==> emission.wf(
            answer(state, hook).0.strings,
            answer(state, hook).0.threads,
        ),
{
    lemma_answer_shape(state, hook);
}

/// Whether none of the calls creates or closes the span `id`.
pub open spec fn leaves_open(calls: Seq<Call>, id: u64) -> bool {
    forall|i: int| 0 <= i < calls.len() ==> !(#[trigger] calls[i]).hook.touches(id)
}

/// Calls that neither create nor close a span leave its stored decision as
/// it is.
proof fn lemma_decision_kept(state: LayerState, calls: Seq<Call>, id: u64)
    requires
        leaves_open(calls, id),
    ensures
        run(state, calls).0.spans.contains_key(id) == state.spans.contains_key(id),
        state.spans.contains_key(id) ==> run(state, calls).0.spans[id] == state.spans[id],
    decreases calls.len(),
{
    if calls.len() > 0 {
        assert(leaves_open(calls.drop_last(), id)) by {
            assert forall|i: int| 0 <= i < calls.drop_last().len() implies !(
            #[trigger] calls.drop_last()[i]).hook.touches(id) by {
                assert(calls.drop_last()[i] == calls[i]);
            }
        }
        lemma_decision_kept(state, calls.drop_last(), id);
        assert(!calls[calls.len() - 1].hook.touches(id));
        let before = run(state, calls.drop_last()).0;
        let call = calls.last();
        if let Some(emission) = answer(before, call.hook).1 {
            lemma_settled_spans(answer(before, call.hook).0, emission.interns, call.outcomes);
        }
    }
}

/// Telling the layer of the outcomes changes no stored decision and no
/// thread number.
proof fn lemma_settled_spans(state: LayerState, interns: Seq<RecordView>, outcomes: Seq<bool>)
    ensures
        state.settled(interns, outcomes).spans == state.spans,
        state.settled(interns, outcomes).numbers == state.numbers,
    decreases interns.len(),
{
    if interns.len() > 0 {
        lemma_settled_spans(state, interns.drop_last(), outcomes);
    }
}

/// The decision of a span is taken from its own fields when it is created,
/// stored whether or not the span is captured, and left as it is by every
/// call that neither creates nor closes that span.
pub proof fn law_decision_is_stored_and_frozen(
    state: LayerState,
    id: u64,
    name: Seq<char>,
    fields: Seq<FieldView>,
    process_id: u64,
    thread: u64,
    inside: Seq<Call>,
)
    requires
        leaves_open(inside, id),
    ensures
        ({
            let created = state.new_span(id, name, fields, process_id, thread).0;
            &&& created.spans.contains_key(id)
            &&& created.spans[id] == select(fields)
            &&& run(created, inside).0.spans.contains_key(id)
            &&& run(created, inside).0.spans[id] == select(fields)
        }),
{
    let created = state.new_span(id, name, fields, process_id, thread).0;
    lemma_decision_kept(created, inside, id);
}

/// A span that is created without the capture flag emits no begin record,
/// and no end record when it closes, whatever calls are answered while it
/// is open: spans and events inside it may be captured, each on its own
/// account.
pub proof fn law_span_gating(
    state: LayerState,
    id: u64,
    name: Seq<char>,
    fields: Seq<FieldView>,
    process_id: u64,
    thread: u64,
    inside: Seq<Call>,
    closing_process_id: u64,
    closing_thread: u64,
)
    requires
        !capture_flag(fields),
        leaves_open(inside, id),
    ensures
        ({
            let created = state.new_span(id, name, fields, process_id, thread);
            let closed = run(created.0, inside).0.close(
                id,
                name,
                closing_process_id,
                closing_thread,
            );
            &&& created.1 is None
            &&& closed.1 is None
        }),
{
    let created = state.new_span(id, name, fields, process_id, thread);
    lemma_decision_kept(created.0, inside, id);
}

/// An event whose own fields set the capture flag is recorded as an instant
/// event, whether or not a span encloses it and whatever that span has
/// stored.
pub proof fn law_event_self_override(
    state: LayerState,
    name: Seq<char>,
    fields: Seq<FieldView>,
    current: Option<u64>,
    process_id: u64,
    thread: u64,
)
    requires
        capture_flag(fields),
    ensures
        state.event(name, fields, current, process_id, thread).1 is Some,
        state.event(name, fields, current, process_id, thread).1->0.event.kind
            == EventKind::Instant,
        state.event(name, fields, current, process_id, thread).1->0.event.name.value == name,
{
}

/// An event that names its own category is recorded under that one,
/// whatever the span around it has stored. One that names none is recorded
/// under the category of the span around it where that span is captured:
/// the one stored with the span, or the default where the span has stored
/// none. A span that is not captured lends nothing: an event inside it that
/// names no category is recorded under the default.
pub proof fn law_category_inheritance(
    state: LayerState,
    name: Seq<char>,
    fields: Seq<FieldView>,
    span: u64,
    process_id: u64,
    thread: u64,
)
    requires
        state.spans.contains_key(span),
        state.spans[span].captured || capture_flag(fields),
    ensures
        ({
            let answered = state.event(name, fields, Some(span), process_id, thread).1;
            let stored = state.spans[span];
            &&& answered is Some
            &&& answered->0.event.category.value == match category_label(fields) {
                Some(own) => own,
                None => if stored.captured {
                    match stored.category {
                        Some(inherited) => inherited,
                        None => DEFAULT_CATEGORY@,
                    }
                } else {
                    DEFAULT_CATEGORY@
                },
            }
        }),
{
}

/// A hook is answered with an emission exactly when the span or event is
/// captured. The emission of a new span holds a duration-begin record with
/// one argument for each field, that of a closing span a duration-end
/// record without arguments, that of an event an instant record with one
/// argument for each field.
pub proof fn law_recorded_iff_captured(state: LayerState, hook: Hook)
    requires
        state.wf(),
    ensures
        answer(state, hook).1 is Some <==> hook.captured(state),
        answer(state, hook).1 matches Some(emission) ==> match hook {
            Hook::NewSpan { fields, .. } => emission.event.kind == EventKind::DurationBegin
                && emission.event.arguments.len() == fields.len(),
            Hook::Close { .. } => emission.event.kind == EventKind::DurationEnd
                && emission.event.arguments.len() == 0,
            Hook::Event { fields, .. } => emission.event.kind == EventKind::Instant
                && emission.event.arguments.len() == fields.len(),
        },
{
    match hook {
        Hook::NewSpan { id, name, fields, process_id, thread, .. } => {
            let own = select(fields);
            lemma_plan_shape(
                LayerState { spans: state.spans.insert(id, own), ..state },
                EventKind::DurationBegin,
                own.span_category(),
                name,
                process_id,
                thread,
                fields,
            );
        },
        Hook::Close { id, name, process_id, thread, .. } => {
            lemma_plan_shape(
                LayerState { spans: state.spans.remove(id), ..state },
                EventKind::DurationEnd,
                state.spans[id].span_category(),
                name,
                process_id,
                thread,
                Seq::empty(),
            );
        },
        Hook::Event { name, fields, current, process_id, thread, .. } => {
            lemma_plan_shape(
                state,
                EventKind::Instant,
                select(fields).event_category(state.parent(current)),
                name,
                process_id,
                thread,
                fields,
            );
        },
    }
}

/// A span or an event that is not captured adds nothing to the log and
/// changes neither intern table nor the numbering of the threads. An event
/// that is not captured changes nothing at all.
pub proof fn law_skip_leaves_no_trace(state: LayerState, call: Call)
    requires
        !call.hook.captured(state),
    ensures
        answer(state, call.hook).1 is None,
        step(state, call).1 == Seq::<RecordView>::empty(),
        step(state, call).0.strings == state.strings,
        step(state, call).0.threads == state.threads,
        step(state, call).0.numbers == state.numbers,
        call.hook is Event ==> step(state, call).0 == state,
{
}

/// The log of calls answered one after the other is the log of the earlier
/// ones followed by the log of the later ones, taken from the state that
/// the earlier ones left: nothing is reordered, merged or taken back.
pub proof fn law_records_in_call_order(state: LayerState, earlier: Seq<Call>, later: Seq<Call>)
    ensures
        run(state, earlier + later).0 == run(run(state, earlier).0, later).0,
        run(state, earlier + later).1 == run(state, earlier).1 + run(
            run(state, earlier).0,
            later,
        ).1,
    decreases later.len(),
{
    let middle = run(state, earlier).0;
    if later.len() == 0 {
        assert(earlier + later =~= earlier);
        assert(run(state, earlier).1 + Seq::<RecordView>::empty() =~= run(state, earlier).1);
    } else {
        let all = earlier + later;
        assert(all.drop_last() =~= earlier + later.drop_last());
        assert(all.last() == later.last());
        law_records_in_call_order(state, earlier, later.drop_last());
        let before = run(middle, later.drop_last());
        let records = step(before.0, later.last()).1;
        assert((run(state, earlier).1 + before.1) + records =~= run(state, earlier).1 + (before.1
            + records));
    }
}

/// The log of a session begins with the magic record and the provider
/// record, and holds no other record of either kind.
pub proof fn law_header_once(provider_id: u32, provider_name: Seq<char>, calls: Seq<Call>)
    ensures
        ({
            let log = session_log(provider_id, provider_name, calls);
            &&& log.len() >= 2
            &&& log[0] == RecordView::Magic
            &&& log[1] == RecordView::Provider { provider_id, provider_name }
            &&& forall|i: int|
                2 <= i < log.len() ==> !((#[trigger] log[i]) is Magic) && !(log[i] is Provider)
        }),
{
    let start = header(provider_id, provider_name);
    assert(consistent(LayerState::initial(), start));
    lemma_run_log(LayerState::initial(), start, calls);
    let log = session_log(provider_id, provider_name, calls);
    let added = run(LayerState::initial(), calls).1;
    assert(headerless(added));
    assert forall|i: int| 2 <= i < log.len() implies !((#[trigger] log[i]) is Magic) && !(log[i]
        is Provider) by {
        assert(log[i] == added[i - 2]);
    }
}

} // verus!
