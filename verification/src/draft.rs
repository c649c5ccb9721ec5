//! An emission while it is put together: interning a string or a thread
//! for it, and what that does to the tables and to the emission's intern
//! records.

use crate::emission::{
    position_view, PendingString, PendingStringView, PendingThread, PendingThreadView,
};
use crate::intern::{StringCache, StringTable, ThreadCache, ThreadTable};
use crate::record::{lemma_record_views_push, record_views, Record, RecordView};
use crate::text::str_eq;
use vstd::prelude::*;

verus! {

/// The position of the first record among `interns` that introduces
/// `value`, if there is one.
pub open spec fn find_string(interns: Seq<RecordView>, value: Seq<char>) -> Option<int>
    decreases interns.len(),
{
    if interns.len() == 0 {
        None
    } else {
        match find_string(interns.drop_last(), value) {
            Some(position) => Some(position),
            None => if interns.last().introduces_string(value) {
                Some(interns.len() - 1)
            } else {
                None
            },
        }
    }
}

/// What `find_string` finds: a record that introduces `value`, with none
/// before it; and nothing only where no record introduces `value`.
pub(crate) proof fn lemma_find_string(interns: Seq<RecordView>, value: Seq<char>)
    ensures
        match find_string(interns, value) {
            Some(position) => 0 <= position < interns.len()
                && interns[position].introduces_string(value) && forall|i: int|
                0 <= i < position ==> !(#[trigger] interns[i]).introduces_string(value),
            None => forall|i: int|
                0 <= i < interns.len() ==> !(#[trigger] interns[i]).introduces_string(value),
        },
    decreases interns.len(),
{
    if interns.len() > 0 {
        lemma_find_string(interns.drop_last(), value);
        assert forall|i: int| 0 <= i < interns.len() - 1 implies interns.drop_last()[i]
            == #[trigger] interns[i] by {}
    }
}

/// The state of an emission while it is put together: the string table, and
/// the intern records that the emission holds so far.
pub struct Draft {
    pub strings: StringTable,
    pub interns: Seq<RecordView>,
}

impl Draft {
    /// Interns `value`. A string whose record has reached the sink is named
    /// by its id and waits for nothing. Any other waits for its string
    /// record in this emission: for the one that an earlier reference has
    /// put there, or else for the one that now joins the intern records. A
    /// string that the table has not met gets the next id first.
    pub open spec fn string(self, value: Seq<char>) -> (Draft, PendingStringView) {
        let id = self.strings.id_of(value);
        let strings = self.strings.with(value);
        if self.strings.has_landed(value) {
            (
                Draft { strings, interns: self.interns },
                PendingStringView { id, value, awaits: None },
            )
        } else {
            match find_string(self.interns, value) {
                Some(position) => (
                    Draft { strings, interns: self.interns },
                    PendingStringView { id, value, awaits: Some(position) },
                ),
                None => (
                    Draft {
                        strings,
                        interns: self.interns.push(
                            RecordView::StringIntern { string_id: id, value },
                        ),
                    },
                    PendingStringView { id, value, awaits: Some(self.interns.len() as int) },
                ),
            }
        }
    }
}

/// The thread side of an emission while it is put together: the thread
/// table, and the intern records that the emission holds so far.
pub struct ThreadDraft {
    pub threads: ThreadTable,
    pub interns: Seq<RecordView>,
}

impl ThreadDraft {
    /// Interns the pair. A pair whose record has reached the sink is named
    /// by its id and waits for nothing. Any other waits for its thread
    /// record, which joins the intern records. A pair that the table has
    /// not met gets the next id first.
    pub open spec fn thread(self, process: u64, thread: u64) -> (ThreadDraft, PendingThreadView) {
        let id = self.threads.id_of(process, thread);
        let threads = self.threads.with(process, thread);
        if self.threads.has_landed(process, thread) {
            (
                ThreadDraft { threads, interns: self.interns },
                PendingThreadView { id, process_koid: process, thread_koid: thread, awaits: None },
            )
        } else {
            (
                ThreadDraft {
                    threads,
                    interns: self.interns.push(
                        RecordView::ThreadIntern {
                            thread_id: id,
                            process_koid: process,
                            thread_koid: thread,
                        },
                    ),
                },
                PendingThreadView {
                    id,
                    process_koid: process,
                    thread_koid: thread,
                    awaits: Some(self.interns.len() as int),
                },
            )
        }
    }
}

/// Looks among `interns` for the first record that introduces `value`.
fn position_of(interns: &Vec<Record>, value: &str) -> (found: Option<usize>)
    ensures
        position_view(found) == find_string(record_views(interns@), value@),
{
    let ghost views = record_views(interns@);
    let mut i: usize = 0;
    assert(views.take(0) =~= Seq::empty());
    while i < interns.len()
        invariant
            i <= interns.len(),
            views == record_views(interns@),
            find_string(views.take(i as int), value@) is None,
        decreases interns.len() - i,
    {
        let matches = match &interns[i] {
            Record::StringIntern { value: text, .. } => str_eq(text.as_str(), value),
            _ => false,
        };
        proof {
            assert(views.take(i + 1).drop_last() =~= views.take(i as int));
            assert(views.take(i + 1).last() == interns@[i as int]@);
            assert(matches == views[i as int].introduces_string(value@));
        }
        if matches {
            proof {
                lemma_find_string_extends(views, i + 1, value@);
            }
            return Some(i);
        }
        i += 1;
    }
    assert(views.take(interns.len() as int) =~= views);
    None
}

/// What is found among the first records is found among all of them.
proof fn lemma_find_string_extends(interns: Seq<RecordView>, count: int, value: Seq<char>)
    requires
        0 <= count <= interns.len(),
        find_string(interns.take(count), value) is Some,
    ensures
        find_string(interns, value) == find_string(interns.take(count), value),
    decreases interns.len() - count,
{
    if count < interns.len() {
        assert(interns.take(count + 1).drop_last() =~= interns.take(count));
        lemma_find_string_extends(interns, count + 1, value);
    } else {
        assert(interns.take(count) =~= interns);
    }
}

/// Interns `value` in `cache` for an emission whose intern records so far
/// are `interns`: see [`Draft::string`].
pub fn intern_string(cache: &mut StringCache, interns: &mut Vec<Record>, value: &str) -> (pending:
    PendingString)
    requires
        old(cache).wf(),
    ensures
        final(cache).wf(),
        ({
            let before = Draft { strings: old(cache)@, interns: record_views(old(interns)@) };
            &&& final(cache)@ == before.string(value@).0.strings
            &&& record_views(final(interns)@) == before.string(value@).0.interns
            &&& pending@ == before.string(value@).1
        }),
{
    let interned = cache.get_or_create(value);
    match interned.record {
        Some(record) => match position_of(interns, value) {
            Some(position) => PendingString {
                id: interned.id,
                value: value.to_owned(),
                awaits: Some(position),
            },
            None => {
                let position = interns.len();
                proof {
                    lemma_record_views_push(interns@, record);
                }
                interns.push(record);
                PendingString { id: interned.id, value: value.to_owned(), awaits: Some(position) }
            },
        },
        None => PendingString { id: interned.id, value: value.to_owned(), awaits: None },
    }
}

/// Interns the pair of process and thread in `cache` for an emission whose
/// intern records so far are `interns`: see [`ThreadDraft::thread`].
pub(crate) fn intern_thread(
    cache: &mut ThreadCache,
    interns: &mut Vec<Record>,
    process_id: u64,
    thread_id: u64,
) -> (pending: PendingThread)
    requires
        old(cache).wf(),
    ensures
        final(cache).wf(),
        ({
            let before = ThreadDraft { threads: old(cache)@, interns: record_views(old(interns)@) };
            &&& final(cache)@ == before.thread(process_id, thread_id).0.threads
            &&& record_views(final(interns)@) == before.thread(process_id, thread_id).0.interns
            &&& pending@ == before.thread(process_id, thread_id).1
        }),
{
    let interned = cache.get_or_create(process_id, thread_id);
    match interned.record {
        Some(record) => {
            let position = interns.len();
            proof {
                lemma_record_views_push(interns@, record);
            }
            interns.push(record);
            PendingThread {
                id: interned.id,
                process_koid: process_id,
                thread_koid: thread_id,
                awaits: Some(position),
            }
        },
        None => PendingThread {
            id: interned.id,
            process_koid: process_id,
            thread_koid: thread_id,
            awaits: None,
        },
    }
}

} // verus!
