use std::cell::{Cell, RefCell};

use ftfrs_tracing::draft::intern_string;
use ftfrs_tracing::emission::Delivery;
use ftfrs_tracing::visitor::record_fields;
use ftfrs_tracing::{
    Argument, ArgumentVisitor, Emission, Event, EventKind, Field, FieldValue, FtfLayer,
    PendingArgument, PendingEvent, PendingString, PendingThread, Record, StringCache, StringRef,
    ThreadRef,
};

fn field(name: &str, value: FieldValue) -> Field {
    Field { name: name.to_string(), value }
}

fn pending(id: u16, value: &str, awaits: Option<usize>) -> PendingString {
    PendingString { id, value: value.to_string(), awaits }
}

fn string_record(string_id: u16, value: &str) -> Record {
    Record::StringIntern { string_id, value: value.to_string() }
}

#[test]
fn reference_is_by_id_where_its_record_was_written() {
    let waiting = pending(4, "alpha", Some(1));
    assert_eq!(waiting.resolve(&[false, true]), StringRef::Ref(4));
    assert_eq!(waiting.resolve(&[true, true, false]), StringRef::Ref(4));
}

#[test]
fn reference_is_inline_where_its_record_was_not_written() {
    let waiting = pending(4, "alpha", Some(1));
    assert_eq!(waiting.resolve(&[true, false]), StringRef::Inline("alpha".to_string()));
}

#[test]
fn missing_outcome_counts_as_a_failure() {
    let waiting = pending(4, "alpha", Some(1));
    assert_eq!(waiting.resolve(&[true]), StringRef::Inline("alpha".to_string()));
    assert_eq!(waiting.resolve(&[]), StringRef::Inline("alpha".to_string()));
}

#[test]
fn reference_that_waits_for_nothing_is_by_id() {
    let known = pending(9, "beta", None);
    assert_eq!(known.resolve(&[]), StringRef::Ref(9));
    assert_eq!(known.resolve(&[false, false]), StringRef::Ref(9));
}

#[test]
fn thread_reference_follows_its_record() {
    let waiting = PendingThread { id: 3, process_koid: 10, thread_koid: 20, awaits: Some(0) };
    assert_eq!(waiting.resolve(&[true]), ThreadRef::Ref(3));
    assert_eq!(
        waiting.resolve(&[false]),
        ThreadRef::Inline { process_koid: 10, thread_koid: 20 }
    );
    assert_eq!(waiting.resolve(&[]), ThreadRef::Inline { process_koid: 10, thread_koid: 20 });
    let known = PendingThread { id: 3, process_koid: 10, thread_koid: 20, awaits: None };
    assert_eq!(known.resolve(&[false]), ThreadRef::Ref(3));
}

#[test]
fn each_kind_of_argument_is_resolved() {
    let outcomes = [true, false];
    let name = || pending(1, "n", Some(0));
    let lost = || pending(2, "v", Some(1));
    assert_eq!(
        PendingArgument::Int64(name(), -5).resolve(&outcomes),
        Argument::Int64(StringRef::Ref(1), -5)
    );
    assert_eq!(
        PendingArgument::UInt64(lost(), 5).resolve(&outcomes),
        Argument::UInt64(StringRef::Inline("v".to_string()), 5)
    );
    assert_eq!(
        PendingArgument::Boolean(name(), false).resolve(&outcomes),
        Argument::Boolean(StringRef::Ref(1), false)
    );
    assert_eq!(
        PendingArgument::Float(name(), 0x3ff8_0000_0000_0000).resolve(&outcomes),
        Argument::Float(StringRef::Ref(1), 0x3ff8_0000_0000_0000)
    );
    assert_eq!(
        PendingArgument::Str(name(), lost()).resolve(&outcomes),
        Argument::Str(StringRef::Ref(1), StringRef::Inline("v".to_string()))
    );
    assert_eq!(
        PendingArgument::Str(lost(), name()).resolve(&outcomes),
        Argument::Str(StringRef::Inline("v".to_string()), StringRef::Ref(1))
    );
}

#[test]
fn event_record_falls_back_reference_by_reference() {
    let (mut layer, _header) = FtfLayer::new();
    let fields = vec![
        field("ftf", FieldValue::Bool(true)),
        field("category", FieldValue::Str("io".to_string())),
        field("bytes", FieldValue::U64(512)),
    ];
    let emission = layer.on_event("read", &fields, None, 8, 80).expect("captured");
    assert_eq!(
        emission.interns,
        vec![
            string_record(1, "io"),
            string_record(2, "read"),
            Record::ThreadIntern { thread_id: 1, process_koid: 8, thread_koid: 1 },
            string_record(3, "ftf"),
            string_record(4, "category"),
            string_record(5, "bytes"),
        ]
    );

    let all = emission.resolve(&[true, true, true, true, true, true], 99);
    assert_eq!(all, Record::Event(Event {
        kind: EventKind::Instant,
        timestamp: 99,
        thread: ThreadRef::Ref(1),
        category: StringRef::Ref(1),
        name: StringRef::Ref(2),
        arguments: vec![
            Argument::Boolean(StringRef::Ref(3), true),
            Argument::Str(StringRef::Ref(4), StringRef::Ref(1)),
            Argument::UInt64(StringRef::Ref(5), 512),
        ],
    }));

    let some = emission.resolve(&[false, true, false, true, false, true], 99);
    assert_eq!(some, Record::Event(Event {
        kind: EventKind::Instant,
        timestamp: 99,
        thread: ThreadRef::Inline { process_koid: 8, thread_koid: 1 },
        category: StringRef::Inline("io".to_string()),
        name: StringRef::Ref(2),
        arguments: vec![
            Argument::Boolean(StringRef::Ref(3), true),
            Argument::Str(
                StringRef::Inline("category".to_string()),
                StringRef::Inline("io".to_string()),
            ),
            Argument::UInt64(StringRef::Ref(5), 512),
        ],
    }));

    let none = emission.resolve(&[], 99);
    assert_eq!(none, Record::Event(Event {
        kind: EventKind::Instant,
        timestamp: 99,
        thread: ThreadRef::Inline { process_koid: 8, thread_koid: 1 },
        category: StringRef::Inline("io".to_string()),
        name: StringRef::Inline("read".to_string()),
        arguments: vec![
            Argument::Boolean(StringRef::Inline("ftf".to_string()), true),
            Argument::Str(
                StringRef::Inline("category".to_string()),
                StringRef::Inline("io".to_string()),
            ),
            Argument::UInt64(StringRef::Inline("bytes".to_string()), 512),
        ],
    }));
}

#[test]
fn lost_records_are_sent_again_until_they_land() {
    let (mut layer, _header) = FtfLayer::new();
    let flag = vec![field("ftf", FieldValue::Bool(true))];
    let interns = vec![
        string_record(1, "trace"),
        string_record(2, "e"),
        Record::ThreadIntern { thread_id: 1, process_koid: 1, thread_koid: 1 },
        string_record(3, "ftf"),
    ];
    let inline = Record::Event(Event {
        kind: EventKind::Instant,
        timestamp: 5,
        thread: ThreadRef::Inline { process_koid: 1, thread_koid: 1 },
        category: StringRef::Inline("trace".to_string()),
        name: StringRef::Inline("e".to_string()),
        arguments: vec![Argument::Boolean(StringRef::Inline("ftf".to_string()), true)],
    });

    let first = layer.on_event("e", &flag, None, 1, 1).expect("captured");
    assert_eq!(first.interns, interns);
    assert_eq!(first.resolve(&[false; 4], 5), inline);
    layer.settle(&first, &[false; 4]);

    let second = layer.on_event("e", &flag, None, 1, 1).expect("captured");
    assert_eq!(second.interns, interns);
    assert_eq!(second.resolve(&[], 5), inline);
    layer.settle(&second, &[false, true, true, false]);

    let third = layer.on_event("e", &flag, None, 1, 1).expect("captured");
    assert_eq!(third.interns, vec![string_record(1, "trace"), string_record(3, "ftf")]);
    assert_eq!(third.resolve(&[true, false], 5), Record::Event(Event {
        kind: EventKind::Instant,
        timestamp: 5,
        thread: ThreadRef::Ref(1),
        category: StringRef::Ref(1),
        name: StringRef::Ref(2),
        arguments: vec![Argument::Boolean(StringRef::Inline("ftf".to_string()), true)],
    }));
    layer.settle(&third, &[true, false]);

    let retry = layer.on_event("e", &flag, None, 1, 1).expect("captured");
    assert_eq!(retry.interns, vec![string_record(3, "ftf")]);
    layer.settle(&retry, &[true]);

    let fourth = layer.on_event("e", &flag, None, 1, 1).expect("captured");
    assert!(fourth.interns.is_empty());
    assert_eq!(fourth.resolve(&[], 5), Record::Event(Event {
        kind: EventKind::Instant,
        timestamp: 5,
        thread: ThreadRef::Ref(1),
        category: StringRef::Ref(1),
        name: StringRef::Ref(2),
        arguments: vec![Argument::Boolean(StringRef::Ref(3), true)],
    }));
}

#[test]
fn emission_that_is_never_settled_is_taken_as_lost() {
    let (mut layer, _header) = FtfLayer::new();
    let flag = vec![field("ftf", FieldValue::Bool(true))];
    let first = layer.on_event("e", &flag, None, 1, 1).expect("captured");
    let second = layer.on_event("e", &flag, None, 1, 1).expect("captured");
    assert_eq!(first, second);
    assert_eq!(second.interns.len(), 4);
}

#[test]
fn settling_takes_a_missing_outcome_as_a_failure() {
    let (mut layer, _header) = FtfLayer::new();
    let flag = vec![field("ftf", FieldValue::Bool(true))];
    let first = layer.on_event("e", &flag, None, 1, 1).expect("captured");
    layer.settle(&first, &[true, true]);
    let second = layer.on_event("e", &flag, None, 1, 1).expect("captured");
    assert_eq!(
        second.interns,
        vec![
            Record::ThreadIntern { thread_id: 1, process_koid: 1, thread_koid: 1 },
            string_record(3, "ftf"),
        ]
    );
    assert_eq!(second.event.category, pending(1, "trace", None));
    assert_eq!(second.event.name, pending(2, "e", None));
    assert_eq!(
        second.event.thread,
        PendingThread { id: 1, process_koid: 1, thread_koid: 1, awaits: Some(0) }
    );
}

#[test]
fn emission_and_its_event_resolve_alike() {
    let emission = Emission {
        interns: vec![string_record(1, "c")],
        event: PendingEvent {
            kind: EventKind::DurationEnd,
            thread: PendingThread { id: 2, process_koid: 1, thread_koid: 1, awaits: None },
            category: pending(1, "c", Some(0)),
            name: pending(7, "n", None),
            arguments: Vec::new(),
        },
    };
    assert_eq!(emission.resolve(&[true], 3), Record::Event(emission.event.resolve(&[true], 3)));
    assert_eq!(emission.event.resolve(&[false], 3), Event {
        kind: EventKind::DurationEnd,
        timestamp: 3,
        thread: ThreadRef::Ref(2),
        category: StringRef::Inline("c".to_string()),
        name: StringRef::Ref(7),
        arguments: Vec::new(),
    });
}

#[test]
fn interning_for_an_emission_appends_the_record_of_a_new_string() {
    let mut cache = StringCache::new();
    let mut interns = vec![Record::Magic];
    let first = intern_string(&mut cache, &mut interns, "a");
    assert_eq!(first, pending(1, "a", Some(1)));
    let second = intern_string(&mut cache, &mut interns, "b");
    assert_eq!(second, pending(2, "b", Some(2)));
    let again = intern_string(&mut cache, &mut interns, "a");
    assert_eq!(again, pending(1, "a", Some(1)));
    assert_eq!(interns, vec![Record::Magic, string_record(1, "a"), string_record(2, "b")]);
    cache.mark_landed("b");
    let landed = intern_string(&mut cache, &mut interns, "b");
    assert_eq!(landed, pending(2, "b", None));
    let mut later = Vec::new();
    assert_eq!(intern_string(&mut cache, &mut later, "a"), pending(1, "a", Some(0)));
    assert_eq!(intern_string(&mut cache, &mut later, "b"), pending(2, "b", None));
    assert_eq!(later, vec![string_record(1, "a")]);
}

#[test]
fn visitor_turns_each_type_of_field_into_its_argument() {
    let mut cache = StringCache::new();
    let mut visitor = ArgumentVisitor::new(Vec::new());
    visitor.record_i64(&mut cache, "a", -1);
    visitor.record_u64(&mut cache, "b", 2);
    visitor.record_bool(&mut cache, "c", true);
    visitor.record_f64(&mut cache, "d", 0x4045_4000_0000_0000);
    visitor.record_str(&mut cache, "e", "text");
    visitor.record_debug(&mut cache, "f", "Some(3)");
    assert_eq!(
        visitor.arguments,
        vec![
            PendingArgument::Int64(pending(1, "a", Some(0)), -1),
            PendingArgument::UInt64(pending(2, "b", Some(1)), 2),
            PendingArgument::Boolean(pending(3, "c", Some(2)), true),
            PendingArgument::Float(pending(4, "d", Some(3)), 0x4045_4000_0000_0000),
            PendingArgument::Str(pending(5, "e", Some(4)), pending(6, "text", Some(5))),
            PendingArgument::Str(pending(7, "f", Some(6)), pending(8, "Some(3)", Some(7))),
        ]
    );
    assert_eq!(visitor.interns.len(), 8);
    assert_eq!(visitor.interns[5], string_record(6, "text"));
}

#[test]
fn visitor_takes_a_field_by_the_type_of_its_value() {
    let mut cache = StringCache::new();
    let mut visitor = ArgumentVisitor::new(Vec::new());
    visitor.record(&mut cache, &field("n", FieldValue::I64(7)));
    visitor.record(&mut cache, &field("n", FieldValue::Debug("n".to_string())));
    assert_eq!(
        visitor.arguments,
        vec![
            PendingArgument::Int64(pending(1, "n", Some(0)), 7),
            PendingArgument::Str(pending(1, "n", Some(0)), pending(1, "n", Some(0))),
        ]
    );
    assert_eq!(visitor.interns, vec![string_record(1, "n")]);
    assert_eq!(visitor.get_string_ref(&mut cache, "m"), pending(2, "m", Some(1)));
}

#[test]
fn fields_become_arguments_in_order() {
    let mut cache = StringCache::new();
    cache.get_or_create("known");
    cache.mark_landed("known");
    let fields = vec![
        field("known", FieldValue::Str("new".to_string())),
        field("new", FieldValue::Str("known".to_string())),
        field("size", FieldValue::U64(1000)),
    ];
    let (interns, arguments) = record_fields(&mut cache, vec![Record::Magic], &fields);
    assert_eq!(interns, vec![Record::Magic, string_record(2, "new"), string_record(3, "size")]);
    assert_eq!(
        arguments,
        vec![
            PendingArgument::Str(pending(1, "known", None), pending(2, "new", Some(1))),
            PendingArgument::Str(pending(2, "new", Some(1)), pending(1, "known", None)),
            PendingArgument::UInt64(pending(3, "size", Some(2)), 1000),
        ]
    );
}

#[test]
fn no_fields_give_no_arguments() {
    let mut cache = StringCache::new();
    let (interns, arguments) = record_fields(&mut cache, Vec::new(), &Vec::new());
    assert!(interns.is_empty());
    assert!(arguments.is_empty());
    assert_eq!(cache.get_or_create("first").id, 1);
}

fn sample_emission() -> Emission {
    let (mut layer, _header) = FtfLayer::new();
    let fields = vec![
        field("ftf", FieldValue::Bool(true)),
        field("category", FieldValue::Str("io".to_string())),
    ];
    layer.on_event("read", &fields, None, 8, 80).expect("captured")
}

#[test]
fn delivery_hands_over_the_interns_then_the_event() {
    let sink = RefCell::new(Vec::new());
    let delivery = sample_emission().deliver(
        |record| {
            sink.borrow_mut().push(record.clone());
            true
        },
        || 77,
    );
    assert_eq!(delivery, Delivery { outcomes: vec![true; 5], timestamp: 77, written: true });
    assert_eq!(
        sink.into_inner(),
        vec![
            string_record(1, "io"),
            string_record(2, "read"),
            Record::ThreadIntern { thread_id: 1, process_koid: 8, thread_koid: 1 },
            string_record(3, "ftf"),
            string_record(4, "category"),
            Record::Event(Event {
                kind: EventKind::Instant,
                timestamp: 77,
                thread: ThreadRef::Ref(1),
                category: StringRef::Ref(1),
                name: StringRef::Ref(2),
                arguments: vec![
                    Argument::Boolean(StringRef::Ref(3), true),
                    Argument::Str(StringRef::Ref(4), StringRef::Ref(1)),
                ],
            }),
        ]
    );
}

#[test]
fn delivery_carries_inline_what_could_not_be_introduced() {
    let sink = RefCell::new(Vec::new());
    let calls = Cell::new(0);
    let delivery = sample_emission().deliver(
        |record| {
            let position = calls.get();
            calls.set(position + 1);
            let fits = position % 2 == 1 || matches!(record, Record::Event(_));
            if fits {
                sink.borrow_mut().push(record.clone());
            }
            fits
        },
        || 78,
    );
    assert_eq!(
        delivery,
        Delivery { outcomes: vec![false, true, false, true, false], timestamp: 78, written: true }
    );
    assert_eq!(
        sink.into_inner(),
        vec![
            string_record(2, "read"),
            string_record(3, "ftf"),
            Record::Event(Event {
                kind: EventKind::Instant,
                timestamp: 78,
                thread: ThreadRef::Inline { process_koid: 8, thread_koid: 1 },
                category: StringRef::Inline("io".to_string()),
                name: StringRef::Ref(2),
                arguments: vec![
                    Argument::Boolean(StringRef::Ref(3), true),
                    Argument::Str(
                        StringRef::Inline("category".to_string()),
                        StringRef::Inline("io".to_string()),
                    ),
                ],
            }),
        ]
    );
}

#[test]
fn delivery_reports_an_event_record_that_was_not_written() {
    let tried = Cell::new(0);
    let delivery = sample_emission().deliver(
        |_record| {
            tried.set(tried.get() + 1);
            false
        },
        || 79,
    );
    assert_eq!(tried.get(), 6);
    assert_eq!(delivery, Delivery { outcomes: vec![false; 5], timestamp: 79, written: false });
}

#[test]
fn delivery_reads_the_time_after_the_interns_were_tried() {
    let tried = Cell::new(0u64);
    let delivery = sample_emission().deliver(
        |_record| {
            tried.set(tried.get() + 1);
            true
        },
        || tried.get(),
    );
    assert_eq!(delivery.timestamp, 5);
}
