//! The layer: the state of the sink, and what it does when a span is
//! created, when a span closes, and when an event is emitted.
//!
//! The layer takes the host's hooks as plain values and answers each with
//! the records to write, in order. It writes nothing itself.

use crate::draft::{intern_string, intern_thread, Draft, ThreadDraft};
use crate::emission::{
    landed, Emission, EmissionView, PendingEvent, PendingEventView, PendingString,
    PendingThread,
};
use crate::field::{field_views, Field, FieldView};
use crate::filter::{select, FtfFilter, Selection, SpanMetadata};
use crate::intern::{
    StringCache, StringTable, ThreadCache, ThreadNumbers, ThreadRegistry, ThreadTable,
};
use crate::record::{record_views, EventKind, Record, RecordView};
use crate::text::{DEFAULT_PROVIDER_ID, DEFAULT_PROVIDER_NAME};
use crate::visitor::record_fields;
use std::collections::HashMap;
use vstd::prelude::*;

verus! {

/// What the layer holds: the two intern tables, the numbers of the threads
/// it has observed, and the decision stored with each open span.
#[verifier::ext_equal]
pub struct LayerState {
    pub strings: StringTable,
    pub threads: ThreadTable,
    pub numbers: ThreadNumbers,
    pub spans: Map<u64, Selection>,
}

impl LayerState {
    /// The state of a new layer.
    pub open spec fn initial() -> LayerState {
        LayerState {
            strings: StringTable::fresh(),
            threads: ThreadTable::fresh(),
            numbers: ThreadNumbers::fresh(),
            spans: Map::empty(),
        }
    }

    /// Neither intern table holds or will hand out the reserved id 0, only
    /// what a table has met can have landed, and different threads have
    /// different numbers.
    pub open spec fn wf(self) -> bool {
        self.strings.wf() && self.threads.wf() && self.numbers.wf()
    }

    /// The state after the sink has taken the intern record `record`: what
    /// the record introduces has landed.
    pub open spec fn marked_by(self, record: RecordView) -> LayerState {
        match record {
            RecordView::StringIntern { value, .. } => LayerState {
                strings: self.strings.marked(value),
                ..self
            },
            RecordView::ThreadIntern { process_koid, thread_koid, .. } => LayerState {
                threads: self.threads.marked(process_koid, thread_koid),
                ..self
            },
            _ => self,
        }
    }

    /// The state after the caller has tried to write the intern records of
    /// an emission and has met `outcomes`: what a written record introduces
    /// has landed and needs no record again; what a lost record would have
    /// introduced has not, and gets its record again with the next
    /// reference.
    pub open spec fn settled(self, interns: Seq<RecordView>, outcomes: Seq<bool>) -> LayerState
        decreases interns.len(),
    {
        if interns.len() == 0 {
            self
        } else {
            let before = self.settled(interns.drop_last(), outcomes);
            if landed(outcomes, Some(interns.len() - 1)) {
                before.marked_by(interns.last())
            } else {
                before
            }
        }
    }

    /// The stored decision of the span that encloses an event, where the
    /// host names one and the layer knows it.
    pub open spec fn parent(self, current: Option<u64>) -> Option<Selection> {
        match current {
            Some(id) => if self.spans.contains_key(id) {
                Some(self.spans[id])
            } else {
                None
            },
            None => None,
        }
    }

    /// Puts the emission of one captured span or event together. The
    /// category is interned first, then the name, then the thread, then the
    /// fields in order; the intern records stand in the order in which they
    /// were first asked for.
    pub open spec fn plan(
        self,
        kind: EventKind,
        category: Seq<char>,
        name: Seq<char>,
        process_id: u64,
        thread: u64,
        fields: Seq<FieldView>,
    ) -> (LayerState, EmissionView) {
        let start = Draft { strings: self.strings, interns: Seq::empty() };
        let (categorized, category_ref) = start.string(category);
        let (named, name_ref) = categorized.string(name);
        let number = self.numbers.number_of(thread);
        let (threaded, thread_ref) = ThreadDraft {
            threads: self.threads,
            interns: named.interns,
        }.thread(process_id, number);
        let (done, arguments) = Draft {
            strings: named.strings,
            interns: threaded.interns,
        }.arguments(fields);
        (
            LayerState {
                strings: done.strings,
                threads: threaded.threads,
                numbers: self.numbers.with(thread),
                spans: self.spans,
            },
            EmissionView {
                interns: done.interns,
                event: PendingEventView {
                    kind,
                    thread: thread_ref,
                    category: category_ref,
                    name: name_ref,
                    arguments,
                },
            },
        )
    }

    /// A span is created. Its decision is taken from its own fields alone
    /// and stored, captured or not. A captured span emits a duration-begin
    /// record with its fields as arguments; any other emits nothing and
    /// leaves the intern tables as they are.
    pub open spec fn new_span(
        self,
        id: u64,
        name: Seq<char>,
        fields: Seq<FieldView>,
        process_id: u64,
        thread: u64,
    ) -> (LayerState, Option<EmissionView>) {
        let own = select(fields);
        let stored = LayerState { spans: self.spans.insert(id, own), ..self };
        if own.captured {
            let (after, emission) = stored.plan(
                EventKind::DurationBegin,
                own.span_category(),
                name,
                process_id,
                thread,
                fields,
            );
            (after, Some(emission))
        } else {
            (stored, None)
        }
    }

    /// A span closes. Its stored decision is read and dropped. A captured
    /// span emits a duration-end record without arguments; any other, and
    /// one that the layer does not know, emits nothing and leaves the
    /// intern tables as they are.
    pub open spec fn close(self, id: u64, name: Seq<char>, process_id: u64, thread: u64) -> (
        LayerState,
        Option<EmissionView>,
    ) {
        let dropped = LayerState { spans: self.spans.remove(id), ..self };
        if self.spans.contains_key(id) && self.spans[id].captured {
            let (after, emission) = dropped.plan(
                EventKind::DurationEnd,
                self.spans[id].span_category(),
                name,
                process_id,
                thread,
                Seq::empty(),
            );
            (after, Some(emission))
        } else {
            (dropped, None)
        }
    }

    /// An event is emitted while `current` is the nearest enclosing span.
    /// It is recorded where its own fields set the capture flag or that
    /// span is captured, as an instant record with its fields as arguments.
    /// Any other event emits nothing and leaves the state as it is.
    pub open spec fn event(
        self,
        name: Seq<char>,
        fields: Seq<FieldView>,
        current: Option<u64>,
        process_id: u64,
        thread: u64,
    ) -> (LayerState, Option<EmissionView>) {
        let own = select(fields);
        let parent = self.parent(current);
        if own.event_captured(parent) {
            let (after, emission) = self.plan(
                EventKind::Instant,
                own.event_category(parent),
                name,
                process_id,
                thread,
                fields,
            );
            (after, Some(emission))
        } else {
            (self, None)
        }
    }
}

/// The records that open a trace log: the format's magic record, then the
/// description of the provider.
pub open spec fn header(provider_id: u32, provider_name: Seq<char>) -> Seq<RecordView> {
    seq![RecordView::Magic, RecordView::Provider { provider_id, provider_name }]
}

/// The view of an emission that may be absent.
pub open spec fn emission_view(emission: Option<Emission>) -> Option<EmissionView> {
    match emission {
        Some(emission) => Some(emission@),
        None => None,
    }
}

/// Configuration of a layer.
#[derive(Debug, Clone)]
pub struct FtfLayerConfig {
    /// Id of the provider that the log's header names.
    pub provider_id: u32,
    /// Name of the provider that the log's header names.
    pub provider_name: String,
    /// Process id to record in place of the detected one. The layer does
    /// not apply it: every hook records the process id that it is given.
    pub process_id: Option<u64>,
}

impl Default for FtfLayerConfig {
    /// Provider 1, named "trace", and no process id.
    fn default() -> (config: Self)
        ensures
            config.provider_id == DEFAULT_PROVIDER_ID,
            config.provider_name@ == DEFAULT_PROVIDER_NAME@,
            config.process_id is None,
    {
        FtfLayerConfig {
            provider_id: DEFAULT_PROVIDER_ID,
            provider_name: DEFAULT_PROVIDER_NAME.to_owned(),
            process_id: None,
        }
    }
}

/// The state of one sink. Each hook answers with the emission to write;
/// the caller hands it to the sink, with [`Emission::deliver`] or by its
/// own means, and tells the layer of the outcomes with
/// [`FtfLayer::settle`], before the next hook is answered. An emission
/// that the layer is not told of counts as lost.
pub struct FtfLayer {
    string_cache: StringCache,
    thread_cache: ThreadCache,
    thread_ids: ThreadRegistry,
    spans: HashMap<u64, SpanMetadata>,
}

impl View for FtfLayer {
    type V = LayerState;

    closed spec fn view(&self) -> LayerState {
        LayerState {
            strings: self.string_cache@,
            threads: self.thread_cache@,
            numbers: self.thread_ids@,
            spans: self.spans@.map_values(|metadata: SpanMetadata| metadata@),
        }
    }
}

impl FtfLayer {
    /// The invariant of the layer: see [`LayerState::wf`].
    pub open spec fn wf(&self) -> bool {
        self@.wf()
    }

    /// A layer with the default configuration, and the header records of
    /// its log.
    pub fn new() -> (out: (Self, Vec<Record>))
        ensures
            out.0@ == LayerState::initial(),
            out.0.wf(),
            record_views(out.1@) == header(DEFAULT_PROVIDER_ID, DEFAULT_PROVIDER_NAME@),
    {
        Self::with_config(FtfLayerConfig::default())
    }

    /// A layer with empty tables, and the header records of its log: the
    /// magic record, then the provider record that the configuration
    /// describes. They are to be written once, before any other record.
    pub fn with_config(config: FtfLayerConfig) -> (out: (Self, Vec<Record>))
        ensures
            out.0@ == LayerState::initial(),
            out.0.wf(),
            record_views(out.1@) == header(config.provider_id, config.provider_name@),
    {
        let layer = FtfLayer {
            string_cache: StringCache::new(),
            thread_cache: ThreadCache::new(),
            thread_ids: ThreadRegistry::new(),
            spans: HashMap::new(),
        };
        let mut records: Vec<Record> = Vec::new();
        records.push(Record::Magic);
        records.push(
            Record::Provider {
                provider_id: config.provider_id,
                provider_name: config.provider_name,
            },
        );
        proof {
            assert(layer@.spans =~= Map::empty());
            assert(record_views(records@) =~= header(config.provider_id, config.provider_name@));
        }
        (layer, records)
    }

    /// The decision stored with the open span `id`, if the layer knows the
    /// span.
    pub fn span(&self, id: u64) -> (stored: Option<&SpanMetadata>)
        ensures
            match stored {
                Some(metadata) => self@.spans.contains_key(id) && metadata@ == self@.spans[id],
                None => !self@.spans.contains_key(id),
            },
    {
        self.spans.get(&id)
    }

    /// The timestamp of a record: the nanoseconds elapsed since the layer
    /// was made, cut to 64 bits.
    pub fn now(elapsed_nanos: u128) -> (timestamp: u64)
        ensures
            timestamp == elapsed_nanos % 0x1_0000_0000_0000_0000,
    {
        (elapsed_nanos % 0x1_0000_0000_0000_0000u128) as u64
    }

    /// The number of the execution thread that the platform identifies by
    /// `thread`: the first observation of a thread settles it.
    pub fn thread_id(&mut self, thread: u64) -> (number: u64)
        requires
            old(self).wf(),
        ensures
            final(self).wf(),
            number == old(self)@.numbers.number_of(thread),
            final(self)@ == (LayerState { numbers: old(self)@.numbers.with(thread), ..old(self)@ }),
    {
        self.thread_ids.observe(thread)
    }

    /// Interns `value` for an emission whose intern records so far are
    /// `interns`: see [`Draft::string`].
    fn get_string_ref(&mut self, value: &str, interns: &mut Vec<Record>) -> (pending:
        PendingString)
        requires
            old(self).wf(),
        ensures
            final(self).wf(),
            ({
                let before = Draft {
                    strings: old(self)@.strings,
                    interns: record_views(old(interns)@),
                };
                &&& final(self)@ == (LayerState {
                    strings: before.string(value@).0.strings,
                    ..old(self)@
                })
                &&& record_views(final(interns)@) == before.string(value@).0.interns
                &&& pending@ == before.string(value@).1
            }),
    {
        intern_string(&mut self.string_cache, interns, value)
    }

    /// Interns the calling thread for an emission whose intern records so
    /// far are `interns`: the thread is numbered first, then the pair of
    /// process and number is interned. See [`ThreadDraft::thread`].
    fn get_thread_ref(
        &mut self,
        process_id: u64,
        thread: u64,
        interns: &mut Vec<Record>,
    ) -> (pending: PendingThread)
        requires
            old(self).wf(),
        ensures
            final(self).wf(),
            ({
                let before = ThreadDraft {
                    threads: old(self)@.threads,
                    interns: record_views(old(interns)@),
                };
                let number = old(self)@.numbers.number_of(thread);
                &&& final(self)@ == (LayerState {
                    threads: before.thread(process_id, number).0.threads,
                    numbers: old(self)@.numbers.with(thread),
                    ..old(self)@
                })
                &&& record_views(final(interns)@) == before.thread(process_id, number).0.interns
                &&& pending@ == before.thread(process_id, number).1
            }),
    {
        let number = self.thread_id(thread);
        intern_thread(&mut self.thread_cache, interns, process_id, number)
    }

    /// Takes note of what became of the intern records of an emission:
    /// `outcomes` tells of each, in order, whether it was written, and one
    /// that is missing counts as a failure. See [`LayerState::settled`].
    pub fn settle(&mut self, emission: &Emission, outcomes: &[bool])
        requires
            old(self).wf(),
        ensures
            final(self).wf(),
            final(self)@ == old(self)@.settled(emission@.interns, outcomes@),
    {
        let ghost views = record_views(emission.interns@);
        let mut i: usize = 0;
        assert(views.take(0) =~= Seq::empty());
        while i < emission.interns.len()
            invariant
                i <= emission.interns.len(),
                views == record_views(emission.interns@),
                self.wf(),
                self@ == old(self)@.settled(views.take(i as int), outcomes@),
            decreases emission.interns.len() - i,
        {
            proof {
                assert(views.take(i + 1).drop_last() =~= views.take(i as int));
                assert(views.take(i + 1).last() == emission.interns@[i as int]@);
            }
            if i < outcomes.len() && outcomes[i] {
                match &emission.interns[i] {
                    Record::StringIntern { value, .. } => {
                        self.string_cache.mark_landed(value.as_str());
                    },
                    Record::ThreadIntern { process_koid, thread_koid, .. } => {
                        self.thread_cache.mark_landed(*process_koid, *thread_koid);
                    },
                    _ => {},
                }
            }
            i += 1;
        }
        assert(views.take(emission.interns.len() as int) =~= views);
    }

    /// Puts the emission of one captured span or event together: see
    /// [`LayerState::plan`].
    fn emit(
        &mut self,
        kind: EventKind,
        category: &str,
        name: &str,
        process_id: u64,
        thread: u64,
        fields: &Vec<Field>,
    ) -> (emission: Emission)
        requires
            old(self).wf(),
        ensures
            final(self).wf(),
            final(self)@ == old(self)@.plan(
                kind,
                category@,
                name@,
                process_id,
                thread,
                field_views(fields@),
            ).0,
            emission@ == old(self)@.plan(
                kind,
                category@,
                name@,
                process_id,
                thread,
                field_views(fields@),
            ).1,
    {
        let mut interns: Vec<Record> = Vec::new();
        assert(record_views(interns@) =~= Seq::empty());
        let category_ref = self.get_string_ref(category, &mut interns);
        let name_ref = self.get_string_ref(name, &mut interns);
        let thread_ref = self.get_thread_ref(process_id, thread, &mut interns);
        let (interns, arguments) = record_fields(&mut self.string_cache, interns, fields);
        Emission {
            interns,
            event: PendingEvent {
                kind,
                thread: thread_ref,
                category: category_ref,
                name: name_ref,
                arguments,
            },
        }
    }

    /// The hook for a new span: see [`LayerState::new_span`].
    pub fn on_new_span(
        &mut self,
        id: u64,
        name: &str,
        attrs: &Vec<Field>,
        process_id: u64,
        thread: u64,
    ) -> (emission: Option<Emission>)
        requires
            old(self).wf(),
        ensures
            final(self).wf(),
            final(self)@ == old(self)@.new_span(
                id,
                name@,
                field_views(attrs@),
                process_id,
                thread,
            ).0,
            emission_view(emission) == old(self)@.new_span(
                id,
                name@,
                field_views(attrs@),
                process_id,
                thread,
            ).1,
    {
        let metadata = FtfFilter::scan(attrs).into_metadata();
        if metadata.captured {
            let category = metadata.span_category();
            self.store(id, metadata);
            Some(
                self.emit(
                    EventKind::DurationBegin,
                    category.as_str(),
                    name,
                    process_id,
                    thread,
                    attrs,
                ),
            )
        } else {
            self.store(id, metadata);
            None
        }
    }

    /// Stores the decision of a span.
    fn store(&mut self, id: u64, metadata: SpanMetadata)
        ensures
            final(self)@ == (LayerState {
                spans: old(self)@.spans.insert(id, metadata@),
                ..old(self)@
            }),
    {
        self.spans.insert(id, metadata);
        assert(self@.spans =~= old(self)@.spans.insert(id, metadata@));
    }

    /// The hook for a span that closes: see [`LayerState::close`].
    pub fn on_close(&mut self, id: u64, name: &str, process_id: u64, thread: u64) -> (emission:
        Option<Emission>)
        requires
            old(self).wf(),
        ensures
            final(self).wf(),
            final(self)@ == old(self)@.close(id, name@, process_id, thread).0,
            emission_view(emission) == old(self)@.close(id, name@, process_id, thread).1,
    {
        let stored = self.spans.remove(&id);
        assert(self@.spans =~= old(self)@.spans.remove(id));
        match stored {
            Some(metadata) => {
                if metadata.captured {
                    let category = metadata.span_category();
                    let none: Vec<Field> = Vec::new();
                    assert(field_views(none@) =~= Seq::empty());
                    Some(
                        self.emit(
                            EventKind::DurationEnd,
                            category.as_str(),
                            name,
                            process_id,
                            thread,
                            &none,
                        ),
                    )
                } else {
                    None
                }
            },
            None => None,
        }
    }

    /// Whether an event with these fields is recorded while `current` is
    /// the nearest enclosing span: by its own capture flag, or by the stored
    /// decision of that span.
    pub fn captures_event(&self, fields: &Vec<Field>, current: Option<u64>) -> (captured: bool)
        ensures
            captured == select(field_views(fields@)).event_captured(self@.parent(current)),
    {
        let filter = FtfFilter::scan(fields);
        let parent: Option<&SpanMetadata> = match current {
            Some(id) => self.span(id),
            None => None,
        };
        filter.event_captured(parent)
    }

    /// The hook for an event: see [`LayerState::event`]. `current` is the
    /// span that the host reports as the nearest enclosing one.
    pub fn on_event(
        &mut self,
        name: &str,
        fields: &Vec<Field>,
        current: Option<u64>,
        process_id: u64,
        thread: u64,
    ) -> (emission: Option<Emission>)
        requires
            old(self).wf(),
        ensures
            final(self).wf(),
            final(self)@ == old(self)@.event(
                name@,
                field_views(fields@),
                current,
                process_id,
                thread,
            ).0,
            emission_view(emission) == old(self)@.event(
                name@,
                field_views(fields@),
                current,
                process_id,
                thread,
            ).1,
    {
        let filter = FtfFilter::scan(fields);
        let parent: Option<&SpanMetadata> = match current {
            Some(id) => self.span(id),
            None => None,
        };
        if !filter.event_captured(parent) {
            return None;
        }
        let category = filter.event_category(parent);
        Some(self.emit(EventKind::Instant, category.as_str(), name, process_id, thread, fields))
    }
}

} // verus!
