//! The intern tables: strings and threads, each replaced by a small id after
//! one record has introduced it.

use crate::record::{Record, RecordView};
use std::collections::HashMap;
use vstd::hash_map::StringHashMap;
use vstd::prelude::*;

verus! {

/// The string id that is allocated after `id`: one more, and 1 after the
/// largest, so that 0 is never reached.
pub open spec fn next_string_id(id: u16) -> u16 {
    if id == u16::MAX {
        1
    } else {
        (id + 1) as u16
    }
}

/// The thread id that is allocated after `id`: one more, and 1 after the
/// largest, so that 0 is never reached.
pub open spec fn next_thread_id(id: u8) -> u8 {
    if id == u8::MAX {
        1
    } else {
        (id + 1) as u8
    }
}

/// The thread number that is handed out after `number`; it wraps to 0 after
/// the largest.
pub open spec fn next_thread_number(number: u64) -> u64 {
    if number == u64::MAX {
        0
    } else {
        (number + 1) as u64
    }
}

/// What a string table holds: the id of each string it has met, the id
/// that the next new string gets, and the strings whose string record has
/// reached the sink.
#[verifier::ext_equal]
pub struct StringTable {
    pub ids: Map<Seq<char>, u16>,
    pub next: u16,
    pub landed: Set<Seq<char>>,
}

impl StringTable {
    /// The table before any request.
    pub open spec fn fresh() -> StringTable {
        StringTable { ids: Map::empty(), next: 1, landed: Set::empty() }
    }

    /// No string has the reserved id 0, nor will the next one get it, and
    /// only a string that the table has met can have landed.
    pub open spec fn wf(self) -> bool {
        &&& self.next != 0
        &&& forall|value: Seq<char>| #[trigger]
            self.ids.contains_key(value) ==> self.ids[value] != 0
        &&& forall|value: Seq<char>| #[trigger]
            self.landed.contains(value) ==> self.ids.contains_key(value)
    }

    /// Whether the string record of `value` has reached the sink.
    pub open spec fn has_landed(self, value: Seq<char>) -> bool {
        self.landed.contains(value)
    }

    /// The table after the string record of `value` has reached the sink. A
    /// string that the table has not met is not marked.
    pub open spec fn marked(self, value: Seq<char>) -> StringTable {
        if self.knows(value) {
            StringTable { landed: self.landed.insert(value), ..self }
        } else {
            self
        }
    }

    /// Whether `value` has been met.
    pub open spec fn knows(self, value: Seq<char>) -> bool {
        self.ids.contains_key(value)
    }

    /// The ids have not wrapped around: each one that the table holds is
    /// below the next one.
    pub open spec fn unwrapped(self) -> bool {
        forall|value: Seq<char>| #[trigger] self.knows(value) ==> self.ids[value] < self.next
    }

    /// No two strings share an id.
    pub open spec fn unambiguous(self) -> bool {
        forall|a: Seq<char>, b: Seq<char>|
            #[trigger] self.knows(a) && #[trigger] self.knows(b) && self.ids[a] == self.ids[b]
                ==> a == b
    }

    /// The id that a request for `value` returns.
    pub open spec fn id_of(self, value: Seq<char>) -> u16 {
        if self.knows(value) {
            self.ids[value]
        } else {
            self.next
        }
    }

    /// The table after a request for `value`.
    pub open spec fn with(self, value: Seq<char>) -> StringTable {
        if self.knows(value) {
            self
        } else {
            StringTable {
                ids: self.ids.insert(value, self.next),
                next: next_string_id(self.next),
                landed: self.landed,
            }
        }
    }
}

/// What a thread table holds: the id of each pair of process and thread it
/// has met, the id that the next new pair gets, and the pairs whose thread
/// record has reached the sink.
#[verifier::ext_equal]
pub struct ThreadTable {
    pub ids: Map<(u64, u64), u8>,
    pub next: u8,
    pub landed: Set<(u64, u64)>,
}

impl ThreadTable {
    /// The table before any request.
    pub open spec fn fresh() -> ThreadTable {
        ThreadTable { ids: Map::empty(), next: 1, landed: Set::empty() }
    }

    /// No pair has the reserved id 0, nor will the next one get it, and
    /// only a pair that the table has met can have landed.
    pub open spec fn wf(self) -> bool {
        &&& self.next != 0
        &&& forall|key: (u64, u64)| #[trigger] self.ids.contains_key(key) ==> self.ids[key] != 0
        &&& forall|key: (u64, u64)| #[trigger]
            self.landed.contains(key) ==> self.ids.contains_key(key)
    }

    /// Whether the thread record of the pair has reached the sink.
    pub open spec fn has_landed(self, process: u64, thread: u64) -> bool {
        self.landed.contains((process, thread))
    }

    /// The table after the thread record of the pair has reached the sink.
    /// A pair that the table has not met is not marked.
    pub open spec fn marked(self, process: u64, thread: u64) -> ThreadTable {
        if self.knows(process, thread) {
            ThreadTable { landed: self.landed.insert((process, thread)), ..self }
        } else {
            self
        }
    }

    /// Whether the pair has been met.
    pub open spec fn knows(self, process: u64, thread: u64) -> bool {
        self.ids.contains_key((process, thread))
    }

    /// The ids have not wrapped around: each one that the table holds is
    /// below the next one.
    pub open spec fn unwrapped(self) -> bool {
        forall|process: u64, thread: u64| #[trigger]
            self.knows(process, thread) ==> self.ids[(process, thread)] < self.next
    }

    /// No two pairs share an id.
    pub open spec fn unambiguous(self) -> bool {
        forall|a: (u64, u64), b: (u64, u64)|
            #[trigger] self.knows(a.0, a.1) && #[trigger] self.knows(b.0, b.1) && self.ids[a]
                == self.ids[b] ==> a == b
    }

    /// The id that a request for the pair returns.
    pub open spec fn id_of(self, process: u64, thread: u64) -> u8 {
        if self.knows(process, thread) {
            self.ids[(process, thread)]
        } else {
            self.next
        }
    }

    /// The table after a request for the pair.
    pub open spec fn with(self, process: u64, thread: u64) -> ThreadTable {
        if self.knows(process, thread) {
            self
        } else {
            ThreadTable {
                ids: self.ids.insert((process, thread), self.next),
                next: next_thread_id(self.next),
                landed: self.landed,
            }
        }
    }
}

/// What a thread registry holds: the number of each execution thread it has
/// observed, and the number that the next new thread gets.
#[verifier::ext_equal]
pub struct ThreadNumbers {
    pub numbers: Map<u64, u64>,
    pub next: u64,
}

impl ThreadNumbers {
    /// The registry before any observation.
    pub open spec fn fresh() -> ThreadNumbers {
        ThreadNumbers { numbers: Map::empty(), next: 1 }
    }

    /// Whether the thread has been observed.
    pub open spec fn knows(self, thread: u64) -> bool {
        self.numbers.contains_key(thread)
    }

    /// Whether the largest number has been handed out, after which the
    /// numbering starts over.
    pub open spec fn exhausted(self) -> bool {
        exists|thread: u64| #[trigger] self.knows(thread) && self.numbers[thread] == u64::MAX
    }

    /// Whether different threads have different numbers.
    pub open spec fn distinct(self) -> bool {
        forall|a: u64, b: u64|
            #[trigger] self.knows(a) && #[trigger] self.knows(b) && self.numbers[a]
                == self.numbers[b] ==> a == b
    }

    /// Until the largest number has been handed out, different threads have
    /// different numbers, each below the next one.
    pub open spec fn wf(self) -> bool {
        ||| self.exhausted()
        ||| self.distinct() && forall|thread: u64| #[trigger]
            self.knows(thread) ==> self.numbers[thread] < self.next
    }

    /// The number under which the thread is recorded.
    pub open spec fn number_of(self, thread: u64) -> u64 {
        if self.knows(thread) {
            self.numbers[thread]
        } else {
            self.next
        }
    }

    /// The registry after the thread was observed.
    pub open spec fn with(self, thread: u64) -> ThreadNumbers {
        if self.knows(thread) {
            self
        } else {
            ThreadNumbers {
                numbers: self.numbers.insert(thread, self.next),
                next: next_thread_number(self.next),
            }
        }
    }
}

/// The answer of an intern table: the id of the key, and, where no record
/// that introduces the id has reached the sink yet, that record. It has to
/// reach the sink before any record names the id.
#[derive(Debug, PartialEq, Eq)]
pub struct Interned<Id> {
    pub id: Id,
    pub record: Option<Record>,
}

/// Interns strings under 16-bit ids, and keeps for each whether its string
/// record has reached the sink.
pub struct StringCache {
    by_value: StringHashMap<(u16, bool)>,
    next_id: u16,
}

impl View for StringCache {
    type V = StringTable;

    closed spec fn view(&self) -> StringTable {
        StringTable {
            ids: self.by_value@.map_values(|slot: (u16, bool)| slot.0),
            next: self.next_id,
            landed: Set::new(
                |value: Seq<char>|
                    self.by_value@.contains_key(value) && self.by_value@[value].1,
            ),
        }
    }
}

impl StringCache {
    /// The invariant of the cache: see [`StringTable::wf`].
    pub open spec fn wf(&self) -> bool {
        self@.wf()
    }

    /// An empty cache, whose first id is 1.
    pub fn new() -> (cache: Self)
        ensures
            cache@ == StringTable::fresh(),
            cache.wf(),
    {
        let cache = StringCache { by_value: StringHashMap::new(), next_id: 1 };
        assert(cache@ =~= StringTable::fresh());
        cache
    }

    /// Returns the id of `value`. A string met before keeps its id; a new
    /// one gets the next id. The answer carries the string record that
    /// introduces the id exactly where no such record has reached the sink
    /// yet: for a new string, and for one whose record was lost.
    pub fn get_or_create(&mut self, value: &str) -> (interned: Interned<u16>)
        requires
            old(self).wf(),
        ensures
            final(self).wf(),
            final(self)@ == old(self)@.with(value@),
            interned.id == old(self)@.id_of(value@),
            interned.id != 0,
            interned.record is Some <==> !old(self)@.has_landed(value@),
            interned.record matches Some(record) ==> record@ == (RecordView::StringIntern {
                string_id: interned.id,
                value: value@,
            }),
    {
        let found = match self.by_value.get(value) {
            Some(slot) => Some(*slot),
            None => None,
        };
        match found {
            Some((id, true)) => Interned { id, record: None },
            Some((id, false)) => {
                let record = Record::StringIntern { string_id: id, value: value.to_owned() };
                Interned { id, record: Some(record) }
            },
            None => {
                let id = self.next_id;
                self.next_id = if id == u16::MAX {
                    1
                } else {
                    id + 1
                };
                self.by_value.insert(value.to_owned(), (id, false));
                assert(self@ =~= old(self)@.with(value@));
                let record = Record::StringIntern { string_id: id, value: value.to_owned() };
                Interned { id, record: Some(record) }
            },
        }
    }

    /// Notes that the string record of `value` has reached the sink: later
    /// requests for `value` carry no record. A string that the cache has
    /// not met is not marked.
    pub fn mark_landed(&mut self, value: &str)
        requires
            old(self).wf(),
        ensures
            final(self).wf(),
            final(self)@ == old(self)@.marked(value@),
    {
        let found = match self.by_value.get(value) {
            Some(slot) => Some(*slot),
            None => None,
        };
        if let Some((id, _)) = found {
            self.by_value.insert(value.to_owned(), (id, true));
            assert(self@ =~= old(self)@.marked(value@));
        }
    }
}

/// The key under which a pair of process and thread is stored: the process
/// in the upper 64 bits, the thread in the lower.
spec fn pair_key(process: u64, thread: u64) -> u128 {
    (process * 0x1_0000_0000_0000_0000 + thread) as u128
}

/// Distinct pairs have distinct keys.
proof fn lemma_pair_key_distinguishes(a: (u64, u64), b: (u64, u64))
    ensures
        pair_key(a.0, a.1) == pair_key(b.0, b.1) <==> a == b,
{
}

/// Computes the key of a pair.
fn make_pair_key(process: u64, thread: u64) -> (key: u128)
    ensures
        key == pair_key(process, thread),
{
    (process as u128) * 0x1_0000_0000_0000_0000u128 + (thread as u128)
}

/// Interns pairs of process and thread under 8-bit ids, and keeps for each
/// whether its thread record has reached the sink.
pub struct ThreadCache {
    by_id: HashMap<u128, (u8, bool)>,
    next_id: u8,
}

impl View for ThreadCache {
    type V = ThreadTable;

    closed spec fn view(&self) -> ThreadTable {
        ThreadTable {
            ids: Map::new(
                |key: (u64, u64)| self.by_id@.contains_key(pair_key(key.0, key.1)),
                |key: (u64, u64)| self.by_id@[pair_key(key.0, key.1)].0,
            ),
            next: self.next_id,
            landed: Set::new(
                |key: (u64, u64)|
                    self.by_id@.contains_key(pair_key(key.0, key.1)) && self.by_id@[pair_key(
                        key.0,
                        key.1,
                    )].1,
            ),
        }
    }
}

impl ThreadCache {
    /// The invariant of the cache: see [`ThreadTable::wf`].
    pub open spec fn wf(&self) -> bool {
        self@.wf()
    }

    /// An empty cache, whose first id is 1.
    pub fn new() -> (cache: Self)
        ensures
            cache@ == ThreadTable::fresh(),
            cache.wf(),
    {
        let cache = ThreadCache { by_id: HashMap::new(), next_id: 1 };
        assert(cache@ =~= ThreadTable::fresh());
        cache
    }

    /// Returns the id of the pair. A pair met before keeps its id; a new
    /// one gets the next id. The answer carries the thread record that
    /// introduces the id exactly where no such record has reached the sink
    /// yet: for a new pair, and for one whose record was lost.
    pub fn get_or_create(&mut self, process_id: u64, thread_id: u64) -> (interned: Interned<u8>)
        requires
            old(self).wf(),
        ensures
            final(self).wf(),
            final(self)@ == old(self)@.with(process_id, thread_id),
            interned.id == old(self)@.id_of(process_id, thread_id),
            interned.id != 0,
            interned.record is Some <==> !old(self)@.has_landed(process_id, thread_id),
            interned.record matches Some(record) ==> record@ == (RecordView::ThreadIntern {
                thread_id: interned.id,
                process_koid: process_id,
                thread_koid: thread_id,
            }),
    {
        let key = make_pair_key(process_id, thread_id);
        let found = match self.by_id.get(&key) {
            Some(slot) => Some(*slot),
            None => None,
        };
        match found {
            Some((id, true)) => Interned { id, record: None },
            Some((id, false)) => Interned {
                id,
                record: Some(
                    Record::ThreadIntern {
                        thread_id: id,
                        process_koid: process_id,
                        thread_koid: thread_id,
                    },
                ),
            },
            None => {
                let id = self.next_id;
                self.next_id = if id == u8::MAX {
                    1
                } else {
                    id + 1
                };
                self.by_id.insert(key, (id, false));
                proof {
                    assert forall|other: (u64, u64)|
                        other != (process_id, thread_id) implies pair_key(other.0, other.1)
                        != key by {
                        lemma_pair_key_distinguishes(other, (process_id, thread_id));
                    }
                    assert(self@ =~= old(self)@.with(process_id, thread_id));
                }
                Interned {
                    id,
                    record: Some(
                        Record::ThreadIntern {
                            thread_id: id,
                            process_koid: process_id,
                            thread_koid: thread_id,
                        },
                    ),
                }
            },
        }
    }

    /// Notes that the thread record of the pair has reached the sink: later
    /// requests for the pair carry no record. A pair that the cache has not
    /// met is not marked.
    pub fn mark_landed(&mut self, process_id: u64, thread_id: u64)
        requires
            old(self).wf(),
        ensures
            final(self).wf(),
            final(self)@ == old(self)@.marked(process_id, thread_id),
    {
        let key = make_pair_key(process_id, thread_id);
        let found = match self.by_id.get(&key) {
            Some(slot) => Some(*slot),
            None => None,
        };
        if let Some((id, _)) = found {
            self.by_id.insert(key, (id, true));
            proof {
                assert forall|other: (u64, u64)|
                    other != (process_id, thread_id) implies pair_key(other.0, other.1)
                    != key by {
                    lemma_pair_key_distinguishes(other, (process_id, thread_id));
                }
                assert(self@ =~= old(self)@.marked(process_id, thread_id));
            }
        }
    }
}

/// Numbers the execution threads in the order in which they are first
/// observed, starting at 1.
pub struct ThreadRegistry {
    numbers: HashMap<u64, u64>,
    next: u64,
}

impl View for ThreadRegistry {
    type V = ThreadNumbers;

    closed spec fn view(&self) -> ThreadNumbers {
        ThreadNumbers { numbers: self.numbers@, next: self.next }
    }
}

impl ThreadRegistry {
    /// The invariant of the registry: see [`ThreadNumbers::wf`].
    pub open spec fn wf(&self) -> bool {
        self@.wf()
    }

    /// A registry that has observed no thread.
    pub fn new() -> (registry: Self)
        ensures
            registry@ == ThreadNumbers::fresh(),
            registry.wf(),
    {
        ThreadRegistry { numbers: HashMap::new(), next: 1 }
    }

    /// Returns the number of the thread that the platform identifies by
    /// `thread`. The first observation of a thread settles its number; every
    /// later one returns the same. Until the largest number has been handed
    /// out, no other thread has that number.
    pub fn observe(&mut self, thread: u64) -> (number: u64)
        requires
            old(self).wf(),
        ensures
            final(self).wf(),
            number == old(self)@.number_of(thread),
            final(self)@ == old(self)@.with(thread),
    {
        if let Some(number) = self.numbers.get(&thread) {
            return *number;
        }
        let number = self.next;
        self.next = if number == u64::MAX {
            0
        } else {
            number + 1
        };
        self.numbers.insert(thread, number);
        proof {
            lemma_numbers_wf(old(self)@, thread);
        }
        number
    }
}

/// One more observation keeps the numbering well formed.
pub(crate) proof fn lemma_numbers_wf(numbers: ThreadNumbers, thread: u64)
    requires
        numbers.wf(),
    ensures
        numbers.with(thread).wf(),
{
    let after = numbers.with(thread);
    if !numbers.knows(thread) {
        if numbers.exhausted() {
            let witness = choose|t: u64| #[trigger]
                numbers.knows(t) && numbers.numbers[t] == u64::MAX;
            assert(after.knows(witness) && after.numbers[witness] == u64::MAX);
        } else if numbers.next == u64::MAX {
            assert(after.knows(thread) && after.numbers[thread] == u64::MAX);
        } else {
            assert forall|t: u64| #[trigger] after.knows(t) implies after.numbers[t]
                < after.next by {
                if t != thread {
                    assert(numbers.knows(t));
                }
            }
            assert forall|a: u64, b: u64|
                #[trigger] after.knows(a) && #[trigger] after.knows(b) && after.numbers[a]
                    == after.numbers[b] implies a == b by {
                if a != thread {
                    assert(numbers.knows(a));
                }
                if b != thread {
                    assert(numbers.knows(b));
                }
            }
        }
    }
}

} // verus!
