//! What holds of the tables of a layer and of the log it has produced, and
//! why every call keeps it so, whatever becomes of the writes.

use crate::draft::{find_string, lemma_find_string, Draft, ThreadDraft};
use crate::emission::{
    kept, landed, EmissionView, PendingArgumentView, PendingStringView, PendingThreadView,
};
use crate::field::FieldView;
use crate::filter::select;
use crate::intern::{lemma_numbers_wf, StringTable, ThreadTable};
use crate::layer::LayerState;
use crate::record::{EventKind, RecordView, StringRefView};
use crate::session::{answer, run, step, Call, Hook};
use vstd::prelude::*;

verus! {

/// Whether the record at `i` introduces `value` under `id`.
pub open spec fn string_at(log: Seq<RecordView>, i: int, id: u16, value: Seq<char>) -> bool {
    0 <= i < log.len() && log[i] == (RecordView::StringIntern { string_id: id, value })
}

/// Whether the record at `i` introduces the pair under `id`.
pub open spec fn thread_at(
    log: Seq<RecordView>,
    i: int,
    id: u8,
    process: u64,
    thread: u64,
) -> bool {
    0 <= i < log.len() && log[i] == (RecordView::ThreadIntern {
        thread_id: id,
        process_koid: process,
        thread_koid: thread,
    })
}

/// No two string records introduce the same string.
pub open spec fn distinct_strings(records: Seq<RecordView>) -> bool {
    forall|i: int, j: int|
        0 <= i < j < records.len() && (#[trigger] records[i]) is StringIntern && (
        #[trigger] records[j]) is StringIntern ==> records[i]->value != records[j]->value
}

/// No two thread records introduce the same pair.
pub open spec fn distinct_threads(records: Seq<RecordView>) -> bool {
    forall|i: int, j: int|
        0 <= i < j < records.len() && (#[trigger] records[i]) is ThreadIntern && (
        #[trigger] records[j]) is ThreadIntern ==> (
            records[i]->process_koid,
            records[i]->thread_koid,
        ) != (records[j]->process_koid, records[j]->thread_koid)
}

/// The log introduces exactly the strings that the table holds as landed,
/// each once, under the id that the table holds for it.
pub open spec fn strings_tracked(table: StringTable, log: Seq<RecordView>) -> bool {
    &&& forall|value: Seq<char>| #[trigger]
        table.has_landed(value) ==> exists|i: int| string_at(log, i, table.ids[value], value)
    &&& forall|i: int|
        0 <= i < log.len() && (#[trigger] log[i]) is StringIntern ==> table.has_landed(
            log[i]->value,
        ) && table.ids[log[i]->value] == log[i]->string_id
    &&& distinct_strings(log)
}

/// The log introduces exactly the pairs that the table holds as landed,
/// each once, under the id that the table holds for it.
pub open spec fn threads_tracked(table: ThreadTable, log: Seq<RecordView>) -> bool {
    &&& forall|process: u64, thread: u64| #[trigger]
        table.has_landed(process, thread) ==> exists|i: int|
            thread_at(log, i, table.ids[(process, thread)], process, thread)
    &&& forall|i: int|
        0 <= i < log.len() && (#[trigger] log[i]) is ThreadIntern ==> table.has_landed(
            log[i]->process_koid,
            log[i]->thread_koid,
        ) && table.ids[(log[i]->process_koid, log[i]->thread_koid)] == log[i]->thread_id
    &&& distinct_threads(log)
}

/// Whether a string record with the id `id` stands before position `j`.
pub open spec fn string_id_before(log: Seq<RecordView>, j: int, id: u16) -> bool {
    exists|i: int|
        0 <= i < j && i < log.len() && (#[trigger] log[i]) is StringIntern && log[i]->string_id
            == id
}

/// Whether a thread record with the id `id` stands before position `j`.
pub open spec fn thread_id_before(log: Seq<RecordView>, j: int, id: u8) -> bool {
    exists|i: int|
        0 <= i < j && i < log.len() && (#[trigger] log[i]) is ThreadIntern && log[i]->thread_id
            == id
}

/// Every record that names a string or a thread by id comes after a record
/// that introduces that id.
pub open spec fn ids_introduced(log: Seq<RecordView>) -> bool {
    &&& forall|j: int, id: u16|
        0 <= j < log.len() && #[trigger] log[j].mentions_string(id) ==> string_id_before(
            log,
            j,
            id,
        )
    &&& forall|j: int, id: u8|
        0 <= j < log.len() && #[trigger] log[j].mentions_thread(id) ==> thread_id_before(
            log,
            j,
            id,
        )
}

/// What holds of the state of a layer and of the log that it has produced:
/// the state is well formed, the log introduces exactly what the tables
/// hold as landed, and no record names an id that was not introduced before
/// it.
pub open spec fn consistent(state: LayerState, log: Seq<RecordView>) -> bool {
    &&& state.wf()
    &&& strings_tracked(state.strings, log)
    &&& threads_tracked(state.threads, log)
    &&& ids_introduced(log)
}

/// Whether `longer` begins with `shorter`.
pub open spec fn extends(longer: Seq<RecordView>, shorter: Seq<RecordView>) -> bool {
    &&& shorter.len() <= longer.len()
    &&& forall|i: int| 0 <= i < shorter.len() ==> longer[i] == shorter[i]
}

/// Whether `after` knows every string that `before` knows, under the same
/// id.
pub open spec fn strings_kept(before: StringTable, after: StringTable) -> bool {
    forall|value: Seq<char>| #[trigger]
        before.knows(value) ==> after.knows(value) && after.ids[value] == before.ids[value]
}

/// Whether `after` knows every pair that `before` knows, under the same id.
pub open spec fn threads_kept(before: ThreadTable, after: ThreadTable) -> bool {
    forall|process: u64, thread: u64| #[trigger]
        before.knows(process, thread) ==> after.knows(process, thread) && after.ids[(
            process,
            thread,
        )] == before.ids[(process, thread)]
}

/// The string records among the intern records of an emission: each
/// introduces a string that has not landed, under the id that the table
/// holds for it, and no two introduce the same string.
pub open spec fn strings_fresh(table: StringTable, interns: Seq<RecordView>) -> bool {
    &&& forall|i: int|
        0 <= i < interns.len() && (#[trigger] interns[i]) is StringIntern ==> {
            &&& !table.has_landed(interns[i]->value)
            &&& table.knows(interns[i]->value)
            &&& table.ids[interns[i]->value] == interns[i]->string_id
        }
    &&& distinct_strings(interns)
}

/// The thread records among the intern records of an emission: each
/// introduces a pair that has not landed, under the id that the table holds
/// for it, and no two introduce the same pair.
pub open spec fn threads_fresh(table: ThreadTable, interns: Seq<RecordView>) -> bool {
    &&& forall|i: int|
        0 <= i < interns.len() && (#[trigger] interns[i]) is ThreadIntern ==> {
            &&& !table.has_landed(interns[i]->process_koid, interns[i]->thread_koid)
            &&& table.knows(interns[i]->process_koid, interns[i]->thread_koid)
            &&& table.ids[(interns[i]->process_koid, interns[i]->thread_koid)]
                == interns[i]->thread_id
        }
    &&& distinct_threads(interns)
}

/// What holds of a reference to a string in an emission: its id is the one
/// that the table holds for the string; where it waits for an intern
/// record, that record introduces its string under its id; and it waits for
/// none only where the string has landed.
pub open spec fn string_ready(
    table: StringTable,
    interns: Seq<RecordView>,
    pending: PendingStringView,
) -> bool {
    &&& table.knows(pending.value)
    &&& table.ids[pending.value] == pending.id
    &&& match pending.awaits {
        Some(position) => string_at(interns, position, pending.id, pending.value),
        None => table.has_landed(pending.value),
    }
}

/// What holds of the reference to the thread in an emission: its id is the
/// one that the table holds for the pair; where it waits for an intern
/// record, that record introduces its pair under its id; and it waits for
/// none only where the pair has landed.
pub open spec fn thread_ready(
    table: ThreadTable,
    interns: Seq<RecordView>,
    pending: PendingThreadView,
) -> bool {
    &&& table.knows(pending.process_koid, pending.thread_koid)
    &&& table.ids[(pending.process_koid, pending.thread_koid)] == pending.id
    &&& match pending.awaits {
        Some(position) => thread_at(
            interns,
            position,
            pending.id,
            pending.process_koid,
            pending.thread_koid,
        ),
        None => table.has_landed(pending.process_koid, pending.thread_koid),
    }
}

impl PendingArgumentView {
    /// The name of the argument.
    pub open spec fn name(self) -> PendingStringView {
        match self {
            PendingArgumentView::Int64(name, _) => name,
            PendingArgumentView::UInt64(name, _) => name,
            PendingArgumentView::Boolean(name, _) => name,
            PendingArgumentView::Str(name, _) => name,
            PendingArgumentView::Float(name, _) => name,
        }
    }

    /// Whether each string of the argument is ready: see [`string_ready`].
    pub open spec fn ready(self, table: StringTable, interns: Seq<RecordView>) -> bool {
        &&& string_ready(table, interns, self.name())
        &&& self matches PendingArgumentView::Str(_, value) ==> string_ready(
            table,
            interns,
            value,
        )
    }
}

/// Whether the records are string and thread records only.
pub open spec fn interns_only(records: Seq<RecordView>) -> bool {
    forall|i: int|
        0 <= i < records.len() ==> (#[trigger] records[i]) is StringIntern || records[i]
            is ThreadIntern
}

/// Whether the records are string, thread and event records only.
pub open spec fn headerless(records: Seq<RecordView>) -> bool {
    forall|i: int|
        0 <= i < records.len() ==> !((#[trigger] records[i]) is Magic) && !(records[i]
            is Provider)
}

impl EmissionView {
    /// What holds of the emission that a hook answers with, given the
    /// tables as the hook left them. The intern records are string and
    /// thread records only; each introduces something that has not landed,
    /// under the id that the tables hold, and none introduces what another
    /// does. Each reference carries the id that the tables hold; it waits
    /// for the record of this emission that introduces what it names, or
    /// for none where that has landed.
    pub open spec fn wf(self, strings: StringTable, threads: ThreadTable) -> bool {
        &&& interns_only(self.interns)
        &&& strings_fresh(strings, self.interns)
        &&& threads_fresh(threads, self.interns)
        &&& string_ready(strings, self.interns, self.event.category)
        &&& string_ready(strings, self.interns, self.event.name)
        &&& thread_ready(threads, self.interns, self.event.thread)
        &&& forall|i: int|
            0 <= i < self.event.arguments.len() ==> (#[trigger] self.event.arguments[i]).ready(
                strings,
                self.interns,
            )
    }
}

/// Either the string ids have not wrapped around, and then no two strings
/// share one, or the largest id has been handed out.
pub open spec fn strings_ordered(table: StringTable) -> bool {
    ||| table.unwrapped() && table.unambiguous()
    ||| exists|value: Seq<char>| #[trigger] table.knows(value) && table.ids[value] == u16::MAX
}

/// Either the thread ids have not wrapped around, and then no two pairs
/// share one, or the largest id has been handed out.
pub open spec fn threads_ordered(table: ThreadTable) -> bool {
    ||| table.unwrapped() && table.unambiguous()
    ||| exists|process: u64, thread: u64| #[trigger]
        table.knows(process, thread) && table.ids[(process, thread)] == u8::MAX
}

/// One more request keeps the string ids in order.
proof fn lemma_strings_ordered(table: StringTable, value: Seq<char>)
    requires
        strings_ordered(table),
    ensures
        strings_ordered(table.with(value)),
{
    let after = table.with(value);
    if !table.knows(value) {
        if table.unwrapped() && table.unambiguous() {
            if table.next == u16::MAX {
                assert(after.knows(value) && after.ids[value] == u16::MAX);
            } else {
                assert forall|v: Seq<char>| #[trigger] after.knows(v) implies after.ids[v]
                    < after.next by {
                    if v != value {
                        assert(table.knows(v));
                    }
                }
                assert forall|a: Seq<char>, b: Seq<char>|
                    #[trigger] after.knows(a) && #[trigger] after.knows(b) && after.ids[a]
                        == after.ids[b] implies a == b by {
                    if a != value {
                        assert(table.knows(a));
                    }
                    if b != value {
                        assert(table.knows(b));
                    }
                }
            }
        } else {
            let witness = choose|v: Seq<char>| #[trigger]
                table.knows(v) && table.ids[v] == u16::MAX;
            assert(after.knows(witness) && after.ids[witness] == u16::MAX);
        }
    }
}

/// One more request keeps the thread ids in order.
proof fn lemma_threads_ordered(table: ThreadTable, process: u64, thread: u64)
    requires
        threads_ordered(table),
    ensures
        threads_ordered(table.with(process, thread)),
{
    let after = table.with(process, thread);
    if !table.knows(process, thread) {
        if table.unwrapped() && table.unambiguous() {
            if table.next == u8::MAX {
                assert(after.knows(process, thread) && after.ids[(process, thread)] == u8::MAX);
            } else {
                assert forall|p: u64, t: u64| #[trigger] after.knows(p, t) implies after.ids[(
                    p,
                    t,
                )] < after.next by {
                    if (p, t) != (process, thread) {
                        assert(table.knows(p, t));
                    }
                }
                assert forall|a: (u64, u64), b: (u64, u64)|
                    #[trigger] after.knows(a.0, a.1) && #[trigger] after.knows(b.0, b.1)
                        && after.ids[a] == after.ids[b] implies a == b by {
                    if a != (process, thread) {
                        assert(table.knows(a.0, a.1));
                    }
                    if b != (process, thread) {
                        assert(table.knows(b.0, b.1));
                    }
                }
            }
        } else {
            let (p, t) = choose|p: u64, t: u64| #[trigger]
                table.knows(p, t) && table.ids[(p, t)] == u8::MAX;
            assert(after.knows(p, t) && after.ids[(p, t)] == u8::MAX);
        }
    }
}

/// A reference that is ready stays so when the table grows and further
/// intern records follow.
proof fn lemma_string_ready_kept(
    table: StringTable,
    interns: Seq<RecordView>,
    later_table: StringTable,
    later_interns: Seq<RecordView>,
    pending: PendingStringView,
)
    requires
        string_ready(table, interns, pending),
        strings_kept(table, later_table),
        later_table.landed == table.landed,
        extends(later_interns, interns),
    ensures
        string_ready(later_table, later_interns, pending),
{
    assert(table.knows(pending.value));
}

/// The same for an argument.
proof fn lemma_argument_ready_kept(
    table: StringTable,
    interns: Seq<RecordView>,
    later_table: StringTable,
    later_interns: Seq<RecordView>,
    argument: PendingArgumentView,
)
    requires
        argument.ready(table, interns),
        strings_kept(table, later_table),
        later_table.landed == table.landed,
        extends(later_interns, interns),
    ensures
        argument.ready(later_table, later_interns),
{
    lemma_string_ready_kept(table, interns, later_table, later_interns, argument.name());
    if let PendingArgumentView::Str(_, value) = argument {
        lemma_string_ready_kept(table, interns, later_table, later_interns, value);
    }
}

/// What holds of a draft before and after a string is interned for it.
pub open spec fn draft_ok(draft: Draft, threads: ThreadTable) -> bool {
    &&& draft.strings.wf()
    &&& interns_only(draft.interns)
    &&& strings_fresh(draft.strings, draft.interns)
    &&& threads_fresh(threads, draft.interns)
}

/// What one step does to a draft: the table grows, nothing lands, and the
/// intern records are kept.
pub open spec fn draft_grown(before: Draft, after: Draft) -> bool {
    &&& strings_kept(before.strings, after.strings)
    &&& after.strings.landed == before.strings.landed
    &&& extends(after.interns, before.interns)
    &&& strings_ordered(before.strings) ==> strings_ordered(after.strings)
    &&& (forall|i: int| 0 <= i < before.interns.len() ==> (#[trigger] before.interns[i])
        is StringIntern) ==> (forall|i: int|
        0 <= i < after.interns.len() ==> (#[trigger] after.interns[i]) is StringIntern)
}

/// What interning one string for an emission does.
proof fn lemma_string_shape(draft: Draft, threads: ThreadTable, value: Seq<char>)
    requires
        draft_ok(draft, threads),
    ensures
        ({
            let (after, pending) = draft.string(value);
            &&& draft_ok(after, threads)
            &&& draft_grown(draft, after)
            &&& string_ready(after.strings, after.interns, pending)
        }),
{
    let (after, pending) = draft.string(value);
    lemma_find_string(draft.interns, value);
    if strings_ordered(draft.strings) {
        lemma_strings_ordered(draft.strings, value);
    }
    if draft.strings.has_landed(value) {
    } else {
        match find_string(draft.interns, value) {
            Some(position) => {
                assert(draft.interns[position] is StringIntern);
                assert(draft.strings.knows(value));
                assert(string_at(after.interns, position, pending.id, pending.value));
            },
            None => {
                let record = RecordView::StringIntern { string_id: pending.id, value };
                assert(after.interns[draft.interns.len() as int] == record);
                assert forall|i: int|
                    0 <= i < after.interns.len() && (#[trigger] after.interns[i])
                        is StringIntern implies {
                    &&& !after.strings.has_landed(after.interns[i]->value)
                    &&& after.strings.knows(after.interns[i]->value)
                    &&& after.strings.ids[after.interns[i]->value] == after.interns[i]->string_id
                } by {
                    if i < draft.interns.len() {
                        assert(after.interns[i] == draft.interns[i]);
                        assert(draft.strings.knows(draft.interns[i]->value));
                    }
                }
                assert forall|i: int, j: int|
                    0 <= i < j < after.interns.len() && (#[trigger] after.interns[i])
                        is StringIntern && (#[trigger] after.interns[j])
                        is StringIntern implies after.interns[i]->value
                    != after.interns[j]->value by {
                    assert(after.interns[i] == draft.interns[i]);
                    if j < draft.interns.len() {
                        assert(after.interns[j] == draft.interns[j]);
                    } else {
                        assert(!draft.interns[i].introduces_string(value));
                    }
                }
                assert forall|i: int|
                    0 <= i < after.interns.len() && (#[trigger] after.interns[i])
                        is ThreadIntern implies i < draft.interns.len() by {}
                assert(threads_fresh(threads, after.interns)) by {
                    assert forall|i: int|
                        0 <= i < after.interns.len() && (#[trigger] after.interns[i])
                            is ThreadIntern implies after.interns[i] == draft.interns[i] by {}
                    assert forall|i: int, j: int|
                        0 <= i < j < after.interns.len() && (#[trigger] after.interns[i])
                            is ThreadIntern && (#[trigger] after.interns[j])
                            is ThreadIntern implies (
                        after.interns[i]->process_koid,
                        after.interns[i]->thread_koid,
                    ) != (after.interns[j]->process_koid, after.interns[j]->thread_koid) by {
                        assert(after.interns[i] == draft.interns[i]);
                        assert(after.interns[j] == draft.interns[j]);
                    }
                }
                assert(string_at(
                    after.interns,
                    draft.interns.len() as int,
                    pending.id,
                    pending.value,
                ));
            },
        }
    }
}

/// What interning the thread for an emission does, where the intern
/// records hold string records only so far.
proof fn lemma_thread_shape(draft: ThreadDraft, strings: StringTable, process: u64, thread: u64)
    requires
        draft.threads.wf(),
        strings_fresh(strings, draft.interns),
        forall|i: int| 0 <= i < draft.interns.len() ==> (#[trigger] draft.interns[i])
            is StringIntern,
    ensures
        ({
            let (after, pending) = draft.thread(process, thread);
            &&& after.threads.wf()
            &&& interns_only(after.interns)
            &&& strings_fresh(strings, after.interns)
            &&& threads_fresh(after.threads, after.interns)
            &&& extends(after.interns, draft.interns)
            &&& threads_kept(draft.threads, after.threads)
            &&& after.threads.landed == draft.threads.landed
            &&& thread_ready(after.threads, after.interns, pending)
            &&& threads_ordered(draft.threads) ==> threads_ordered(after.threads)
        }),
{
    let (after, pending) = draft.thread(process, thread);
    if threads_ordered(draft.threads) {
        lemma_threads_ordered(draft.threads, process, thread);
    }
    if !draft.threads.has_landed(process, thread) {
        let last = draft.interns.len() as int;
        assert(thread_at(after.interns, last, pending.id, process, thread));
        assert forall|i: int|
            0 <= i < after.interns.len() && (#[trigger] after.interns[i])
                is StringIntern implies after.interns[i] == draft.interns[i] by {}
        assert forall|i: int, j: int|
            0 <= i < j < after.interns.len() && (#[trigger] after.interns[i]) is StringIntern && (
            #[trigger] after.interns[j]) is StringIntern implies after.interns[i]->value
            != after.interns[j]->value by {
            assert(after.interns[i] == draft.interns[i]);
            assert(after.interns[j] == draft.interns[j]);
        }
        assert forall|i: int|
            0 <= i < after.interns.len() && (#[trigger] after.interns[i])
                is ThreadIntern implies i == last by {
            if i < last {
                assert(after.interns[i] == draft.interns[i]);
            }
        }
    }
}

/// What turning one field into an argument does.
proof fn lemma_argument_shape(draft: Draft, threads: ThreadTable, field: FieldView)
    requires
        draft_ok(draft, threads),
    ensures
        ({
            let (after, argument) = draft.argument(field);
            &&& draft_ok(after, threads)
            &&& draft_grown(draft, after)
            &&& argument.ready(after.strings, after.interns)
        }),
{
    let (named, name) = draft.string(field.name);
    lemma_string_shape(draft, threads, field.name);
    let (after, argument) = draft.argument(field);
    if field.value is Str || field.value is Debug {
        let text = if field.value is Str {
            field.value->Str_0
        } else {
            field.value->Debug_0
        };
        lemma_string_shape(named, threads, text);
        lemma_string_ready_kept(named.strings, named.interns, after.strings, after.interns, name);
    }
}

/// What turning the fields into arguments does.
proof fn lemma_arguments_shape(draft: Draft, threads: ThreadTable, fields: Seq<FieldView>)
    requires
        draft_ok(draft, threads),
    ensures
        ({
            let (after, arguments) = draft.arguments(fields);
            &&& draft_ok(after, threads)
            &&& draft_grown(draft, after)
            &&& arguments.len() == fields.len()
            &&& forall|i: int|
                0 <= i < arguments.len() ==> (#[trigger] arguments[i]).ready(
                    after.strings,
                    after.interns,
                )
        }),
    decreases fields.len(),
{
    if fields.len() > 0 {
        let (before, earlier) = draft.arguments(fields.drop_last());
        lemma_arguments_shape(draft, threads, fields.drop_last());
        let (after, argument) = before.argument(fields.last());
        lemma_argument_shape(before, threads, fields.last());
        let arguments = earlier.push(argument);
        assert forall|i: int| 0 <= i < arguments.len() implies (#[trigger] arguments[i]).ready(
            after.strings,
            after.interns,
        ) by {
            if i < earlier.len() {
                lemma_argument_ready_kept(
                    before.strings,
                    before.interns,
                    after.strings,
                    after.interns,
                    earlier[i],
                );
            }
        }
    }
}

/// What the tables of two states have to do with each other where the
/// second follows the first by hooks alone: the tables have grown, and
/// nothing has landed.
pub open spec fn grown(before: LayerState, after: LayerState) -> bool {
    &&& strings_kept(before.strings, after.strings)
    &&& threads_kept(before.threads, after.threads)
    &&& after.strings.landed == before.strings.landed
    &&& after.threads.landed == before.threads.landed
    &&& strings_ordered(before.strings) ==> strings_ordered(after.strings)
    &&& threads_ordered(before.threads) ==> threads_ordered(after.threads)
}

/// What putting an emission together does to the tables, and the shape of
/// the emission.
pub(crate) proof fn lemma_plan_shape(
    state: LayerState,
    kind: EventKind,
    category: Seq<char>,
    name: Seq<char>,
    process_id: u64,
    thread: u64,
    fields: Seq<FieldView>,
)
    requires
        state.wf(),
    ensures
        ({
            let (after, emission) = state.plan(kind, category, name, process_id, thread, fields);
            &&& after.wf()
            &&& grown(state, after)
            &&& emission.wf(after.strings, after.threads)
            &&& emission.event.kind == kind
            &&& emission.event.arguments.len() == fields.len()
        }),
{
    let (after, emission) = state.plan(kind, category, name, process_id, thread, fields);
    let start = Draft { strings: state.strings, interns: Seq::empty() };
    let (categorized, category_ref) = start.string(category);
    lemma_string_shape(start, state.threads, category);
    let (named, name_ref) = categorized.string(name);
    lemma_string_shape(categorized, state.threads, name);
    let threading = ThreadDraft { threads: state.threads, interns: named.interns };
    let number = state.numbers.number_of(thread);
    let (threaded, thread_ref) = threading.thread(process_id, number);
    lemma_thread_shape(threading, named.strings, process_id, number);
    let arguing = Draft { strings: named.strings, interns: threaded.interns };
    let (done, arguments) = arguing.arguments(fields);
    lemma_arguments_shape(arguing, threaded.threads, fields);
    lemma_numbers_wf(state.numbers, thread);
    lemma_string_ready_kept(
        categorized.strings,
        categorized.interns,
        named.strings,
        named.interns,
        category_ref,
    );
    lemma_string_ready_kept(
        named.strings,
        named.interns,
        done.strings,
        done.interns,
        category_ref,
    );
    lemma_string_ready_kept(named.strings, named.interns, done.strings, done.interns, name_ref);
    assert(thread_ready(threaded.threads, done.interns, thread_ref));
}

/// What answering one hook does to the tables, and the shape of the
/// emission.
pub(crate) proof fn lemma_answer_shape(state: LayerState, hook: Hook)
    requires
        state.wf(),
    ensures
        answer(state, hook).0.wf(),
        grown(state, answer(state, hook).0),
        answer(state, hook).1 matches Some(emission) ==> emission.wf(
            answer(state, hook).0.strings,
            answer(state, hook).0.threads,
        ),
{
    match hook {
        Hook::NewSpan { id, name, fields, process_id, thread, .. } => {
            let own = select(fields);
            let stored = LayerState { spans: state.spans.insert(id, own), ..state };
            lemma_plan_shape(
                stored,
                EventKind::DurationBegin,
                own.span_category(),
                name,
                process_id,
                thread,
                fields,
            );
        },
        Hook::Close { id, name, process_id, thread, .. } => {
            let dropped = LayerState { spans: state.spans.remove(id), ..state };
            lemma_plan_shape(
                dropped,
                EventKind::DurationEnd,
                state.spans[id].span_category(),
                name,
                process_id,
                thread,
                Seq::empty(),
            );
        },
        Hook::Event { name, fields, current, process_id, thread, .. } => {
            let own = select(fields);
            lemma_plan_shape(
                state,
                EventKind::Instant,
                own.event_category(state.parent(current)),
                name,
                process_id,
                thread,
                fields,
            );
        },
    }
}

/// Whether one of the intern records that were written introduces `value`.
pub open spec fn string_written(
    interns: Seq<RecordView>,
    outcomes: Seq<bool>,
    value: Seq<char>,
) -> bool {
    exists|i: int|
        0 <= i < interns.len() && landed(outcomes, Some(i)) && (
        #[trigger] interns[i]).introduces_string(value)
}

/// Whether one of the intern records that were written introduces the pair.
pub open spec fn thread_written(
    interns: Seq<RecordView>,
    outcomes: Seq<bool>,
    process: u64,
    thread: u64,
) -> bool {
    exists|i: int|
        0 <= i < interns.len() && landed(outcomes, Some(i)) && (
        #[trigger] interns[i]).introduces_thread(process, thread)
}

/// What telling the layer of the outcomes does: ids, numbers and spans stay
/// as they are, and exactly that has landed in addition which the tables
/// know and a written record introduces.
pub(crate) proof fn lemma_settled(state: LayerState, interns: Seq<RecordView>, outcomes: Seq<bool>)
    requires
        state.wf(),
    ensures
        ({
            let after = state.settled(interns, outcomes);
            &&& after.wf()
            &&& after.strings.ids == state.strings.ids
            &&& after.strings.next == state.strings.next
            &&& after.threads.ids == state.threads.ids
            &&& after.threads.next == state.threads.next
            &&& after.numbers == state.numbers
            &&& after.spans == state.spans
            &&& forall|value: Seq<char>| #[trigger]
                after.strings.has_landed(value) <==> state.strings.has_landed(value) || (
                state.strings.knows(value) && string_written(interns, outcomes, value))
            &&& forall|process: u64, thread: u64| #[trigger]
                after.threads.has_landed(process, thread) <==> state.threads.has_landed(
                    process,
                    thread,
                ) || (state.threads.knows(process, thread) && thread_written(
                    interns,
                    outcomes,
                    process,
                    thread,
                ))
        }),
    decreases interns.len(),
{
    if interns.len() > 0 {
        let shorter = interns.drop_last();
        let last = interns.len() - 1;
        lemma_settled(state, shorter, outcomes);
        let before = state.settled(shorter, outcomes);
        let after = state.settled(interns, outcomes);
        assert forall|value: Seq<char>| #[trigger]
            string_written(interns, outcomes, value) <==> string_written(
                shorter,
                outcomes,
                value,
            ) || (landed(outcomes, Some(last)) && interns[last].introduces_string(value)) by {
            if string_written(shorter, outcomes, value) {
                let i = choose|i: int|
                    0 <= i < shorter.len() && landed(outcomes, Some(i)) && (
                    #[trigger] shorter[i]).introduces_string(value);
                assert(interns[i].introduces_string(value));
            }
            if string_written(interns, outcomes, value) {
                let i = choose|i: int|
                    0 <= i < interns.len() && landed(outcomes, Some(i)) && (
                    #[trigger] interns[i]).introduces_string(value);
                if i < last {
                    assert(shorter[i].introduces_string(value));
                }
            }
        }
        assert forall|process: u64, thread: u64| #[trigger]
            thread_written(interns, outcomes, process, thread) <==> thread_written(
                shorter,
                outcomes,
                process,
                thread,
            ) || (landed(outcomes, Some(last)) && interns[last].introduces_thread(
                process,
                thread,
            )) by {
            if thread_written(shorter, outcomes, process, thread) {
                let i = choose|i: int|
                    0 <= i < shorter.len() && landed(outcomes, Some(i)) && (
                    #[trigger] shorter[i]).introduces_thread(process, thread);
                assert(interns[i].introduces_thread(process, thread));
            }
            if thread_written(interns, outcomes, process, thread) {
                let i = choose|i: int|
                    0 <= i < interns.len() && landed(outcomes, Some(i)) && (
                    #[trigger] interns[i]).introduces_thread(process, thread);
                if i < last {
                    assert(shorter[i].introduces_thread(process, thread));
                }
            }
        }
    } else {
        assert forall|value: Seq<char>| !#[trigger] string_written(interns, outcomes, value) by {}
        assert forall|process: u64, thread: u64| !#[trigger]
            thread_written(interns, outcomes, process, thread) by {}
    }
}

/// The intern records that were written: each of them is an intern record
/// with a good outcome, each intern record with a good outcome is among
/// them, and they introduce nothing twice where the intern records do not.
proof fn lemma_kept(interns: Seq<RecordView>, outcomes: Seq<bool>)
    ensures
        forall|j: int|
            0 <= j < kept(interns, outcomes).len() ==> exists|i: int|
                0 <= i < interns.len() && landed(outcomes, Some(i)) && #[trigger] interns[i]
                    == (#[trigger] kept(interns, outcomes)[j]),
        forall|i: int|
            0 <= i < interns.len() && landed(outcomes, Some(i)) ==> kept(
                interns,
                outcomes,
            ).contains(#[trigger] interns[i]),
        distinct_strings(interns) ==> distinct_strings(kept(interns, outcomes)),
        distinct_threads(interns) ==> distinct_threads(kept(interns, outcomes)),
    decreases interns.len(),
{
    if interns.len() > 0 {
        let shorter = interns.drop_last();
        let last = interns.len() - 1;
        lemma_kept(shorter, outcomes);
        let before = kept(shorter, outcomes);
        let all = kept(interns, outcomes);
        assert forall|j: int| 0 <= j < all.len() implies exists|i: int|
            0 <= i < interns.len() && landed(outcomes, Some(i)) && #[trigger] interns[i] == (
            #[trigger] all[j]) by {
            if j < before.len() {
                assert(all[j] == before[j]);
                let i = choose|i: int|
                    0 <= i < shorter.len() && landed(outcomes, Some(i)) && #[trigger] shorter[i]
                        == before[j];
                assert(interns[i] == all[j]);
            } else {
                assert(interns[last] == all[j]);
            }
        }
        assert forall|i: int|
            0 <= i < interns.len() && landed(outcomes, Some(i)) implies all.contains(
            #[trigger] interns[i],
        ) by {
            if i < last {
                assert(shorter[i] == interns[i]);
                assert(before.contains(shorter[i]));
                let j = choose|j: int| 0 <= j < before.len() && before[j] == shorter[i];
                assert(all[j] == interns[i]);
            } else {
                assert(all[all.len() - 1] == interns[i]);
            }
        }
        if distinct_strings(interns) {
            assert(distinct_strings(shorter)) by {
                assert forall|i: int, j: int|
                    0 <= i < j < shorter.len() && (#[trigger] shorter[i]) is StringIntern && (
                    #[trigger] shorter[j]) is StringIntern implies shorter[i]->value
                    != shorter[j]->value by {
                    assert(shorter[i] == interns[i] && shorter[j] == interns[j]);
                }
            }
            assert forall|i: int, j: int|
                0 <= i < j < all.len() && (#[trigger] all[i]) is StringIntern && (
                #[trigger] all[j]) is StringIntern implies all[i]->value != all[j]->value by {
                assert(all[i] == before[i]);
                if j < before.len() {
                    assert(all[j] == before[j]);
                } else {
                    let k = choose|k: int|
                        0 <= k < shorter.len() && landed(outcomes, Some(k))
                            && #[trigger] shorter[k] == before[i];
                    assert(interns[k] == all[i]);
                    assert(interns[last] == all[j]);
                }
            }
        }
        if distinct_threads(interns) {
            assert(distinct_threads(shorter)) by {
                assert forall|i: int, j: int|
                    0 <= i < j < shorter.len() && (#[trigger] shorter[i]) is ThreadIntern && (
                    #[trigger] shorter[j]) is ThreadIntern implies (
                    shorter[i]->process_koid,
                    shorter[i]->thread_koid,
                ) != (shorter[j]->process_koid, shorter[j]->thread_koid) by {
                    assert(shorter[i] == interns[i] && shorter[j] == interns[j]);
                }
            }
            assert forall|i: int, j: int|
                0 <= i < j < all.len() && (#[trigger] all[i]) is ThreadIntern && (
                #[trigger] all[j]) is ThreadIntern implies (
                all[i]->process_koid,
                all[i]->thread_koid,
            ) != (all[j]->process_koid, all[j]->thread_koid) by {
                assert(all[i] == before[i]);
                if j < before.len() {
                    assert(all[j] == before[j]);
                } else {
                    let k = choose|k: int|
                        0 <= k < shorter.len() && landed(outcomes, Some(k))
                            && #[trigger] shorter[k] == before[i];
                    assert(interns[k] == all[i]);
                    assert(interns[last] == all[j]);
                }
            }
        }
    }
}

/// A record that names only ids which the log introduces may follow it.
proof fn lemma_ids_introduced_push(log: Seq<RecordView>, record: RecordView)
    requires
        ids_introduced(log),
        forall|id: u16| #[trigger]
            record.mentions_string(id) ==> string_id_before(log, log.len() as int, id),
        forall|id: u8| #[trigger]
            record.mentions_thread(id) ==> thread_id_before(log, log.len() as int, id),
    ensures
        ids_introduced(log.push(record)),
{
    let longer = log.push(record);
    assert forall|j: int, id: u16|
        0 <= j < longer.len() && #[trigger] longer[j].mentions_string(id) implies string_id_before(
        longer,
        j,
        id,
    ) by {
        if j < log.len() {
            assert(longer[j] == log[j]);
            assert(string_id_before(log, j, id));
        } else {
            assert(string_id_before(log, log.len() as int, id));
        }
        let i = choose|i: int|
            0 <= i < j && i < log.len() && (#[trigger] log[i]) is StringIntern && log[i]->string_id
                == id;
        assert(longer[i] == log[i]);
    }
    assert forall|j: int, id: u8|
        0 <= j < longer.len() && #[trigger] longer[j].mentions_thread(id) implies thread_id_before(
        longer,
        j,
        id,
    ) by {
        if j < log.len() {
            assert(longer[j] == log[j]);
            assert(thread_id_before(log, j, id));
        } else {
            assert(thread_id_before(log, log.len() as int, id));
        }
        let i = choose|i: int|
            0 <= i < j && i < log.len() && (#[trigger] log[i]) is ThreadIntern && log[i]->thread_id
                == id;
        assert(longer[i] == log[i]);
    }
}


/// A record that introduces nothing leaves the tables tracked.
proof fn lemma_tracked_push(
    strings: StringTable,
    threads: ThreadTable,
    log: Seq<RecordView>,
    record: RecordView,
)
    requires
        strings_tracked(strings, log),
        threads_tracked(threads, log),
        !(record is StringIntern),
        !(record is ThreadIntern),
    ensures
        strings_tracked(strings, log.push(record)),
        threads_tracked(threads, log.push(record)),
{
    let longer = log.push(record);
    assert forall|value: Seq<char>| #[trigger] strings.has_landed(value) implies exists|i: int|
        string_at(longer, i, strings.ids[value], value) by {
        let i = choose|i: int| string_at(log, i, strings.ids[value], value);
        assert(string_at(longer, i, strings.ids[value], value));
    }
    assert forall|process: u64, thread: u64| #[trigger]
        threads.has_landed(process, thread) implies exists|i: int|
        thread_at(longer, i, threads.ids[(process, thread)], process, thread) by {
        let i = choose|i: int| thread_at(log, i, threads.ids[(process, thread)], process, thread);
        assert(thread_at(longer, i, threads.ids[(process, thread)], process, thread));
    }
    assert forall|i: int|
        0 <= i < longer.len() && (#[trigger] longer[i]) is StringIntern implies strings.has_landed(
        longer[i]->value,
    ) && strings.ids[longer[i]->value] == longer[i]->string_id by {
        assert(longer[i] == log[i]);
    }
    assert forall|i: int|
        0 <= i < longer.len() && (#[trigger] longer[i]) is ThreadIntern implies threads.has_landed(
        longer[i]->process_koid,
        longer[i]->thread_koid,
    ) && threads.ids[(longer[i]->process_koid, longer[i]->thread_koid)]
        == longer[i]->thread_id by {
        assert(longer[i] == log[i]);
    }
    assert forall|i: int, j: int|
        0 <= i < j < longer.len() && (#[trigger] longer[i]) is StringIntern && (
        #[trigger] longer[j]) is StringIntern implies longer[i]->value != longer[j]->value by {
        assert(longer[i] == log[i]);
        assert(longer[j] == log[j]);
    }
    assert forall|i: int, j: int|
        0 <= i < j < longer.len() && (#[trigger] longer[i]) is ThreadIntern && (
        #[trigger] longer[j]) is ThreadIntern implies (
        longer[i]->process_koid,
        longer[i]->thread_koid,
    ) != (longer[j]->process_koid, longer[j]->thread_koid) by {
        assert(longer[i] == log[i]);
        assert(longer[j] == log[j]);
    }
}

/// What the intern records of an emission that were written do to the log,
/// once the layer has been told of the outcomes: state and log stay
/// consistent, and the log introduces the id of every reference that the
/// outcomes let stand by id.
proof fn lemma_interns_log(
    before: LayerState,
    after: LayerState,
    log: Seq<RecordView>,
    emission: EmissionView,
    outcomes: Seq<bool>,
)
    requires
        consistent(before, log),
        after.wf(),
        grown(before, after),
        emission.wf(after.strings, after.threads),
    ensures
        ({
            let settled = after.settled(emission.interns, outcomes);
            let longer = log + kept(emission.interns, outcomes);
            &&& consistent(settled, longer)
            &&& headerless(kept(emission.interns, outcomes))
            &&& forall|pending: PendingStringView| #[trigger]
                string_ready(after.strings, emission.interns, pending) && landed(
                    outcomes,
                    pending.awaits,
                ) ==> string_id_before(longer, longer.len() as int, pending.id)
            &&& forall|pending: PendingThreadView| #[trigger]
                thread_ready(after.threads, emission.interns, pending) && landed(
                    outcomes,
                    pending.awaits,
                ) ==> thread_id_before(longer, longer.len() as int, pending.id)
        }),
{
    let interns = emission.interns;
    let settled = after.settled(interns, outcomes);
    let written = kept(interns, outcomes);
    let longer = log + written;
    let base = log.len() as int;
    lemma_settled(after, interns, outcomes);
    lemma_kept(interns, outcomes);
    assert forall|i: int| 0 <= i < base implies #[trigger] longer[i] == log[i] by {}
    assert forall|i: int| base <= i < longer.len() implies #[trigger] longer[i] == written[i
        - base] by {}
    // Every kept record is one of the intern records, with a good outcome.
    assert forall|i: int| base <= i < longer.len() implies exists|k: int|
        0 <= k < interns.len() && landed(outcomes, Some(k)) && #[trigger] interns[k]
            == #[trigger] longer[i] by {
        let j = i - base;
        let k = choose|k: int|
            0 <= k < interns.len() && landed(outcomes, Some(k)) && #[trigger] interns[k]
                == written[j];
        assert(interns[k] == longer[i]);
    }
    assert(headerless(written)) by {
        assert forall|j: int| 0 <= j < written.len() implies !((#[trigger] written[j]) is Magic)
            && !(written[j] is Provider) by {
            let k = choose|k: int|
                0 <= k < interns.len() && landed(outcomes, Some(k)) && #[trigger] interns[k]
                    == written[j];
        }
    }
    // Strings.
    assert forall|value: Seq<char>| #[trigger] settled.strings.has_landed(value) implies exists|
        i: int,
    | string_at(longer, i, settled.strings.ids[value], value) by {
        if before.strings.has_landed(value) {
            assert(before.strings.knows(value));
            let i = choose|i: int| string_at(log, i, before.strings.ids[value], value);
            assert(string_at(longer, i, settled.strings.ids[value], value));
        } else {
            let k = choose|k: int|
                0 <= k < interns.len() && landed(outcomes, Some(k)) && (
                #[trigger] interns[k]).introduces_string(value);
            assert(written.contains(interns[k]));
            let j = choose|j: int| 0 <= j < written.len() && written[j] == interns[k];
            assert(longer[base + j] == interns[k]);
            assert(string_at(longer, base + j, settled.strings.ids[value], value));
        }
    }
    assert forall|i: int|
        0 <= i < longer.len() && (#[trigger] longer[i])
            is StringIntern implies settled.strings.has_landed(longer[i]->value)
        && settled.strings.ids[longer[i]->value] == longer[i]->string_id by {
        if i < base {
            assert(longer[i] == log[i]);
            assert(before.strings.has_landed(log[i]->value));
            assert(before.strings.knows(log[i]->value));
        } else {
            let k = choose|k: int|
                0 <= k < interns.len() && landed(outcomes, Some(k)) && #[trigger] interns[k]
                    == longer[i];
            assert(interns[k].introduces_string(longer[i]->value));
            assert(string_written(interns, outcomes, longer[i]->value));
        }
    }
    assert forall|i: int, j: int|
        0 <= i < j < longer.len() && (#[trigger] longer[i]) is StringIntern && (
        #[trigger] longer[j]) is StringIntern implies longer[i]->value != longer[j]->value by {
        if j < base {
            assert(longer[i] == log[i] && longer[j] == log[j]);
        } else if i >= base {
            assert(longer[i] == written[i - base] && longer[j] == written[j - base]);
        } else {
            assert(longer[i] == log[i]);
            assert(before.strings.has_landed(log[i]->value));
            let k = choose|k: int|
                0 <= k < interns.len() && landed(outcomes, Some(k)) && #[trigger] interns[k]
                    == longer[j];
            assert(!after.strings.has_landed(interns[k]->value));
        }
    }
    // Threads.
    assert forall|process: u64, thread: u64| #[trigger]
        settled.threads.has_landed(process, thread) implies exists|i: int|
        thread_at(longer, i, settled.threads.ids[(process, thread)], process, thread) by {
        if before.threads.has_landed(process, thread) {
            assert(before.threads.knows(process, thread));
            let i = choose|i: int|
                thread_at(log, i, before.threads.ids[(process, thread)], process, thread);
            assert(thread_at(longer, i, settled.threads.ids[(process, thread)], process, thread));
        } else {
            let k = choose|k: int|
                0 <= k < interns.len() && landed(outcomes, Some(k)) && (
                #[trigger] interns[k]).introduces_thread(process, thread);
            assert(written.contains(interns[k]));
            let j = choose|j: int| 0 <= j < written.len() && written[j] == interns[k];
            assert(longer[base + j] == interns[k]);
            assert(thread_at(
                longer,
                base + j,
                settled.threads.ids[(process, thread)],
                process,
                thread,
            ));
        }
    }
    assert forall|i: int|
        0 <= i < longer.len() && (#[trigger] longer[i])
            is ThreadIntern implies settled.threads.has_landed(
        longer[i]->process_koid,
        longer[i]->thread_koid,
    ) && settled.threads.ids[(longer[i]->process_koid, longer[i]->thread_koid)]
        == longer[i]->thread_id by {
        if i < base {
            assert(longer[i] == log[i]);
            assert(before.threads.has_landed(log[i]->process_koid, log[i]->thread_koid));
            assert(before.threads.knows(log[i]->process_koid, log[i]->thread_koid));
        } else {
            let k = choose|k: int|
                0 <= k < interns.len() && landed(outcomes, Some(k)) && #[trigger] interns[k]
                    == longer[i];
            assert(interns[k].introduces_thread(longer[i]->process_koid, longer[i]->thread_koid));
            assert(thread_written(
                interns,
                outcomes,
                longer[i]->process_koid,
                longer[i]->thread_koid,
            ));
        }
    }
    assert forall|i: int, j: int|
        0 <= i < j < longer.len() && (#[trigger] longer[i]) is ThreadIntern && (
        #[trigger] longer[j]) is ThreadIntern implies (
        longer[i]->process_koid,
        longer[i]->thread_koid,
    ) != (longer[j]->process_koid, longer[j]->thread_koid) by {
        if j < base {
            assert(longer[i] == log[i] && longer[j] == log[j]);
        } else if i >= base {
            assert(longer[i] == written[i - base] && longer[j] == written[j - base]);
        } else {
            assert(longer[i] == log[i]);
            assert(before.threads.has_landed(log[i]->process_koid, log[i]->thread_koid));
            let k = choose|k: int|
                0 <= k < interns.len() && landed(outcomes, Some(k)) && #[trigger] interns[k]
                    == longer[j];
            assert(!after.threads.has_landed(interns[k]->process_koid, interns[k]->thread_koid));
        }
    }
    // No record names an id before it is introduced.
    assert forall|j: int, id: u16|
        0 <= j < longer.len() && #[trigger] longer[j].mentions_string(id) implies string_id_before(
        longer,
        j,
        id,
    ) by {
        if j < base {
            assert(longer[j] == log[j]);
            let i = choose|i: int|
                0 <= i < j && i < log.len() && (#[trigger] log[i]) is StringIntern
                    && log[i]->string_id == id;
            assert(longer[i] == log[i]);
        } else {
            let k = choose|k: int|
                0 <= k < interns.len() && landed(outcomes, Some(k)) && #[trigger] interns[k]
                    == longer[j];
        }
    }
    assert forall|j: int, id: u8|
        0 <= j < longer.len() && #[trigger] longer[j].mentions_thread(id) implies thread_id_before(
        longer,
        j,
        id,
    ) by {
        if j < base {
            assert(longer[j] == log[j]);
            let i = choose|i: int|
                0 <= i < j && i < log.len() && (#[trigger] log[i]) is ThreadIntern
                    && log[i]->thread_id == id;
            assert(longer[i] == log[i]);
        } else {
            let k = choose|k: int|
                0 <= k < interns.len() && landed(outcomes, Some(k)) && #[trigger] interns[k]
                    == longer[j];
        }
    }
    // Every reference that stands by id names an id that the log introduces.
    assert forall|pending: PendingStringView| #[trigger]
        string_ready(after.strings, interns, pending) && landed(
            outcomes,
            pending.awaits,
        ) implies string_id_before(longer, longer.len() as int, pending.id) by {
        match pending.awaits {
            Some(position) => {
                assert(written.contains(interns[position]));
                let j = choose|j: int| 0 <= j < written.len() && written[j] == interns[position];
                assert(longer[base + j] is StringIntern && longer[base + j]->string_id
                    == pending.id);
            },
            None => {
                assert(before.strings.has_landed(pending.value));
                assert(before.strings.knows(pending.value));
                let i = choose|i: int|
                    string_at(log, i, before.strings.ids[pending.value], pending.value);
                assert(longer[i] is StringIntern && longer[i]->string_id == pending.id);
            },
        }
    }
    assert forall|pending: PendingThreadView| #[trigger]
        thread_ready(after.threads, interns, pending) && landed(
            outcomes,
            pending.awaits,
        ) implies thread_id_before(longer, longer.len() as int, pending.id) by {
        match pending.awaits {
            Some(position) => {
                assert(written.contains(interns[position]));
                let j = choose|j: int| 0 <= j < written.len() && written[j] == interns[position];
                assert(longer[base + j] is ThreadIntern && longer[base + j]->thread_id
                    == pending.id);
            },
            None => {
                assert(before.threads.has_landed(pending.process_koid, pending.thread_koid));
                assert(before.threads.knows(pending.process_koid, pending.thread_koid));
                let i = choose|i: int|
                    thread_at(
                        log,
                        i,
                        before.threads.ids[(pending.process_koid, pending.thread_koid)],
                        pending.process_koid,
                        pending.thread_koid,
                    );
                assert(longer[i] is ThreadIntern && longer[i]->thread_id == pending.id);
            },
        }
    }
}

/// Whether the ids are in order depends on the ids alone.
proof fn lemma_ordered_same_ids(before: LayerState, after: LayerState)
    requires
        after.strings.ids == before.strings.ids,
        after.strings.next == before.strings.next,
        after.threads.ids == before.threads.ids,
        after.threads.next == before.threads.next,
    ensures
        strings_ordered(before.strings) ==> strings_ordered(after.strings),
        threads_ordered(before.threads) ==> threads_ordered(after.threads),
{
    if strings_ordered(before.strings) {
        if before.strings.unwrapped() && before.strings.unambiguous() {
            assert forall|value: Seq<char>| #[trigger]
                after.strings.knows(value) implies after.strings.ids[value]
                < after.strings.next by {
                assert(before.strings.knows(value));
            }
            assert forall|a: Seq<char>, b: Seq<char>|
                #[trigger] after.strings.knows(a) && #[trigger] after.strings.knows(b)
                    && after.strings.ids[a] == after.strings.ids[b] implies a == b by {
                assert(before.strings.knows(a) && before.strings.knows(b));
            }
        } else {
            let witness = choose|value: Seq<char>| #[trigger]
                before.strings.knows(value) && before.strings.ids[value] == u16::MAX;
            assert(after.strings.knows(witness));
        }
    }
    if threads_ordered(before.threads) {
        if before.threads.unwrapped() && before.threads.unambiguous() {
            assert forall|process: u64, thread: u64| #[trigger]
                after.threads.knows(process, thread) implies after.threads.ids[(
                process,
                thread,
            )] < after.threads.next by {
                assert(before.threads.knows(process, thread));
            }
            assert forall|a: (u64, u64), b: (u64, u64)|
                #[trigger] after.threads.knows(a.0, a.1) && #[trigger] after.threads.knows(
                    b.0,
                    b.1,
                ) && after.threads.ids[a] == after.threads.ids[b] implies a == b by {
                assert(before.threads.knows(a.0, a.1) && before.threads.knows(b.0, b.1));
            }
        } else {
            let (process, thread) = choose|process: u64, thread: u64| #[trigger]
                before.threads.knows(process, thread) && before.threads.ids[(process, thread)]
                    == u8::MAX;
            assert(after.threads.knows(process, thread));
        }
    }
}

/// What answering one call does: state and log stay consistent, whatever
/// became of the writes.
pub(crate) proof fn lemma_step_log(state: LayerState, log: Seq<RecordView>, call: Call)
    requires
        consistent(state, log),
    ensures
        consistent(step(state, call).0, log + step(state, call).1),
        headerless(step(state, call).1),
        strings_kept(state.strings, step(state, call).0.strings),
        threads_kept(state.threads, step(state, call).0.threads),
        strings_ordered(state.strings) ==> strings_ordered(step(state, call).0.strings),
        threads_ordered(state.threads) ==> threads_ordered(step(state, call).0.threads),
{
    let (after, answered) = answer(state, call.hook);
    lemma_answer_shape(state, call.hook);
    assert(log + Seq::<RecordView>::empty() =~= log);
    if let Some(emission) = answered {
        let outcomes = call.outcomes;
        let timestamp = call.hook.timestamp();
        let settled = after.settled(emission.interns, outcomes);
        let longer = log + kept(emission.interns, outcomes);
        lemma_interns_log(state, after, log, emission, outcomes);
        lemma_settled(after, emission.interns, outcomes);
        lemma_ordered_same_ids(after, settled);
        if call.written {
            let event = emission.event.resolve(outcomes, timestamp);
            let record = RecordView::Event(event);
            assert forall|id: u16| #[trigger] record.mentions_string(id) implies string_id_before(
                longer,
                longer.len() as int,
                id,
            ) by {
                let pending = if event.category == StringRefView::Ref(id) {
                    emission.event.category
                } else if event.name == StringRefView::Ref(id) {
                    emission.event.name
                } else {
                    let k = choose|k: int|
                        0 <= k < event.arguments.len() && (
                        #[trigger] event.arguments[k]).mentions_string(id);
                    let argument = emission.event.arguments[k];
                    assert(argument.ready(after.strings, emission.interns));
                    assert(event.arguments[k] == argument.resolve(outcomes));
                    if argument.name().resolve(outcomes) == StringRefView::Ref(id) {
                        argument.name()
                    } else {
                        argument->Str_1
                    }
                };
                assert(string_ready(after.strings, emission.interns, pending));
                assert(landed(outcomes, pending.awaits) && pending.id == id);
            }
            assert forall|id: u8| #[trigger] record.mentions_thread(id) implies thread_id_before(
                longer,
                longer.len() as int,
                id,
            ) by {
                let pending = emission.event.thread;
                assert(thread_ready(after.threads, emission.interns, pending));
                assert(landed(outcomes, pending.awaits) && pending.id == id);
            }
            lemma_ids_introduced_push(longer, record);
            lemma_tracked_push(settled.strings, settled.threads, longer, record);
            assert(longer.push(record) =~= log + emission.reaches_sink(
                outcomes,
                call.written,
                timestamp,
            ));
        }
    }
}

/// What answering the calls of a session does: state and log stay
/// consistent, whatever became of the writes.
pub(crate) proof fn lemma_run_log(state: LayerState, log: Seq<RecordView>, calls: Seq<Call>)
    requires
        consistent(state, log),
    ensures
        consistent(run(state, calls).0, log + run(state, calls).1),
        headerless(run(state, calls).1),
        strings_kept(state.strings, run(state, calls).0.strings),
        threads_kept(state.threads, run(state, calls).0.threads),
        strings_ordered(state.strings) ==> strings_ordered(run(state, calls).0.strings),
        threads_ordered(state.threads) ==> threads_ordered(run(state, calls).0.threads),
    decreases calls.len(),
{
    if calls.len() == 0 {
        assert(log + Seq::<RecordView>::empty() =~= log);
    } else {
        let (before, earlier) = run(state, calls.drop_last());
        lemma_run_log(state, log, calls.drop_last());
        lemma_step_log(before, log + earlier, calls.last());
        let (after, records) = step(before, calls.last());
        assert((log + earlier) + records =~= log + (earlier + records));
    }
}

/// What answering the calls of a session does to the tables, where no log
/// is at hand: they stay well formed, and every id is kept.
pub(crate) proof fn lemma_run_shape(state: LayerState, calls: Seq<Call>)
    requires
        state.wf(),
    ensures
        run(state, calls).0.wf(),
        strings_kept(state.strings, run(state, calls).0.strings),
        threads_kept(state.threads, run(state, calls).0.threads),
    decreases calls.len(),
{
    if calls.len() > 0 {
        lemma_run_shape(state, calls.drop_last());
        let before = run(state, calls.drop_last()).0;
        let call = calls.last();
        lemma_answer_shape(before, call.hook);
        if let Some(emission) = answer(before, call.hook).1 {
            lemma_settled(answer(before, call.hook).0, emission.interns, call.outcomes);
        }
    }
}

} // verus!
