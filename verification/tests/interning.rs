use ftfrs_tracing::{Record, StringCache, ThreadCache, ThreadRegistry};

#[test]
fn string_ids_start_at_one_and_count_up() {
    let mut cache = StringCache::new();
    let a = cache.get_or_create("alpha");
    let b = cache.get_or_create("beta");
    let c = cache.get_or_create("gamma");
    assert_eq!(a.id, 1);
    assert_eq!(b.id, 2);
    assert_eq!(c.id, 3);
}

#[test]
fn new_string_comes_with_its_record() {
    let mut cache = StringCache::new();
    let first = cache.get_or_create("alpha");
    assert_eq!(
        first.record,
        Some(Record::StringIntern { string_id: 1, value: "alpha".to_string() })
    );
    let second = cache.get_or_create("beta");
    assert_eq!(
        second.record,
        Some(Record::StringIntern { string_id: 2, value: "beta".to_string() })
    );
}

#[test]
fn string_requested_twice_keeps_its_id() {
    let mut cache = StringCache::new();
    let first = cache.get_or_create("alpha");
    cache.mark_landed("alpha");
    let other = cache.get_or_create("beta");
    let again = cache.get_or_create("alpha");
    assert_eq!(first.id, 1);
    assert_eq!(other.id, 2);
    assert_eq!(again.id, 1);
    assert!(first.record.is_some());
    assert_eq!(again.record, None);
}

#[test]
fn string_whose_record_has_not_landed_gets_it_again() {
    let mut cache = StringCache::new();
    let first = cache.get_or_create("alpha");
    let again = cache.get_or_create("alpha");
    let expected = Some(Record::StringIntern { string_id: 1, value: "alpha".to_string() });
    assert_eq!(first.record, expected);
    assert_eq!(again.id, 1);
    assert_eq!(again.record, expected);
    cache.mark_landed("alpha");
    let settled = cache.get_or_create("alpha");
    assert_eq!(settled.id, 1);
    assert_eq!(settled.record, None);
    assert_eq!(cache.get_or_create("alpha").record, None);
}

#[test]
fn marking_an_unknown_string_changes_nothing() {
    let mut cache = StringCache::new();
    cache.mark_landed("ghost");
    let first = cache.get_or_create("ghost");
    assert_eq!(first.id, 1);
    assert_eq!(
        first.record,
        Some(Record::StringIntern { string_id: 1, value: "ghost".to_string() })
    );
}

#[test]
fn repeated_string_does_not_use_up_an_id() {
    let mut cache = StringCache::new();
    cache.get_or_create("alpha");
    cache.get_or_create("alpha");
    cache.get_or_create("alpha");
    assert_eq!(cache.get_or_create("beta").id, 2);
}

#[test]
fn empty_string_is_interned_like_any_other() {
    let mut cache = StringCache::new();
    let empty = cache.get_or_create("");
    assert_eq!(empty.id, 1);
    assert_eq!(empty.record, Some(Record::StringIntern { string_id: 1, value: String::new() }));
    assert_eq!(cache.get_or_create("").id, 1);
}

#[test]
fn strings_that_differ_in_one_character_are_distinct() {
    let mut cache = StringCache::new();
    assert_eq!(cache.get_or_create("ftf").id, 1);
    assert_eq!(cache.get_or_create("ftg").id, 2);
    assert_eq!(cache.get_or_create("ft").id, 3);
    assert_eq!(cache.get_or_create("ftf").id, 1);
}

#[test]
fn string_ids_wrap_to_one_and_skip_zero() {
    let mut cache = StringCache::new();
    let mut last = 0;
    for n in 0..65535u32 {
        let interned = cache.get_or_create(&format!("s{}", n));
        assert_ne!(interned.id, 0);
        last = interned.id;
    }
    assert_eq!(last, 65535);
    let wrapped = cache.get_or_create("one more");
    assert_eq!(wrapped.id, 1);
    assert_eq!(
        wrapped.record,
        Some(Record::StringIntern { string_id: 1, value: "one more".to_string() })
    );
    assert_eq!(cache.get_or_create("and another").id, 2);
    assert_eq!(cache.get_or_create("s0").id, 1);
    assert_eq!(cache.get_or_create("s65534").id, 65535);
}

#[test]
fn thread_ids_start_at_one_and_count_up() {
    let mut cache = ThreadCache::new();
    assert_eq!(cache.get_or_create(10, 1).id, 1);
    assert_eq!(cache.get_or_create(10, 2).id, 2);
    assert_eq!(cache.get_or_create(11, 1).id, 3);
}

#[test]
fn new_thread_comes_with_its_record() {
    let mut cache = ThreadCache::new();
    let first = cache.get_or_create(10, 20);
    assert_eq!(
        first.record,
        Some(Record::ThreadIntern { thread_id: 1, process_koid: 10, thread_koid: 20 })
    );
}

#[test]
fn thread_requested_twice_keeps_its_id() {
    let mut cache = ThreadCache::new();
    let first = cache.get_or_create(10, 20);
    cache.mark_landed(10, 20);
    cache.get_or_create(10, 21);
    let again = cache.get_or_create(10, 20);
    assert_eq!(first.id, 1);
    assert_eq!(again.id, 1);
    assert_eq!(again.record, None);
}

#[test]
fn thread_whose_record_has_not_landed_gets_it_again() {
    let mut cache = ThreadCache::new();
    let expected = Some(Record::ThreadIntern { thread_id: 1, process_koid: 10, thread_koid: 20 });
    assert_eq!(cache.get_or_create(10, 20).record, expected);
    assert_eq!(cache.get_or_create(10, 20).record, expected);
    cache.mark_landed(20, 10);
    assert_eq!(cache.get_or_create(10, 20).record, expected);
    cache.mark_landed(10, 20);
    let settled = cache.get_or_create(10, 20);
    assert_eq!(settled.id, 1);
    assert_eq!(settled.record, None);
}

#[test]
fn process_and_thread_are_not_mixed_up() {
    let mut cache = ThreadCache::new();
    assert_eq!(cache.get_or_create(1, 2).id, 1);
    assert_eq!(cache.get_or_create(2, 1).id, 2);
    assert_eq!(cache.get_or_create(0, u64::MAX).id, 3);
    assert_eq!(cache.get_or_create(u64::MAX, 0).id, 4);
    assert_eq!(cache.get_or_create(1, 0).id, 5);
    assert_eq!(cache.get_or_create(0, 1).id, 6);
    assert_eq!(cache.get_or_create(u64::MAX, u64::MAX).id, 7);
    assert_eq!(cache.get_or_create(1, 2).id, 1);
    assert_eq!(cache.get_or_create(0, u64::MAX).id, 3);
}

#[test]
fn thread_ids_wrap_to_one_and_skip_zero() {
    let mut cache = ThreadCache::new();
    let mut last = 0;
    for thread in 0..255u64 {
        let interned = cache.get_or_create(1, thread);
        assert_ne!(interned.id, 0);
        last = interned.id;
    }
    assert_eq!(last, 255);
    let wrapped = cache.get_or_create(1, 255);
    assert_eq!(wrapped.id, 1);
    assert_eq!(cache.get_or_create(1, 256).id, 2);
    assert_eq!(cache.get_or_create(1, 0).id, 1);
    assert_eq!(cache.get_or_create(1, 254).id, 255);
}

#[test]
fn threads_are_numbered_in_order_of_first_observation() {
    let mut registry = ThreadRegistry::new();
    assert_eq!(registry.observe(9000), 1);
    assert_eq!(registry.observe(17), 2);
    assert_eq!(registry.observe(9000), 1);
    assert_eq!(registry.observe(0), 3);
    assert_eq!(registry.observe(17), 2);
}
