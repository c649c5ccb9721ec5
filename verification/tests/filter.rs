use ftfrs_tracing::{Field, FieldValue, FtfFilter, SpanMetadata};

fn field(name: &str, value: FieldValue) -> Field {
    Field { name: name.to_string(), value }
}

fn text(value: &str) -> FieldValue {
    FieldValue::Str(value.to_string())
}

#[test]
fn new_filter_captures_nothing() {
    let filter = FtfFilter::new();
    assert!(!filter.should_record);
    assert_eq!(filter.category, None);
}

#[test]
fn capture_flag_set_is_recognised() {
    let mut filter = FtfFilter::new();
    filter.record_bool("ftf", true);
    assert!(filter.should_record);
    assert_eq!(filter.category, None);
}

#[test]
fn capture_flag_unset_captures_nothing() {
    let mut filter = FtfFilter::new();
    filter.record_bool("ftf", false);
    assert!(!filter.should_record);
}

#[test]
fn capture_flag_unset_does_not_take_back_a_set_one() {
    let mut filter = FtfFilter::new();
    filter.record_bool("ftf", true);
    filter.record_bool("ftf", false);
    assert!(filter.should_record);
}

#[test]
fn other_boolean_fields_are_passed_over() {
    let mut filter = FtfFilter::new();
    filter.record_bool("sorted", true);
    filter.record_bool("FTF", true);
    filter.record_bool("ftf ", true);
    filter.record_bool("", true);
    assert!(!filter.should_record);
}

#[test]
fn category_label_is_recognised() {
    let mut filter = FtfFilter::new();
    filter.record_str("category", "rendering");
    assert_eq!(filter.category, Some("rendering".to_string()));
    assert!(!filter.should_record);
}

#[test]
fn other_string_fields_are_passed_over() {
    let mut filter = FtfFilter::new();
    filter.record_str("message", "hello");
    filter.record_str("Category", "io");
    filter.record_str("ftf", "true");
    assert_eq!(filter.category, None);
    assert!(!filter.should_record);
}

#[test]
fn last_category_label_wins() {
    let mut filter = FtfFilter::new();
    filter.record_str("category", "first");
    filter.record_str("category", "second");
    assert_eq!(filter.category, Some("second".to_string()));
}

#[test]
fn scan_reads_flag_and_label_among_other_fields() {
    let fields = vec![
        field("id", FieldValue::U64(123)),
        field("ftf", FieldValue::Bool(true)),
        field("name", text("test span")),
        field("category", text("database")),
        field("ratio", FieldValue::Float(0x4045_4000_0000_0000)),
    ];
    let filter = FtfFilter::scan(&fields);
    assert!(filter.should_record);
    assert_eq!(filter.category, Some("database".to_string()));
}

#[test]
fn scan_of_no_fields_captures_nothing() {
    let filter = FtfFilter::scan(&Vec::new());
    assert_eq!(filter, FtfFilter { should_record: false, category: None });
}

#[test]
fn scan_takes_flag_and_label_only_by_their_types() {
    let fields = vec![
        field("ftf", text("true")),
        field("ftf", FieldValue::U64(1)),
        field("ftf", FieldValue::Debug("true".to_string())),
        field("category", FieldValue::Debug("\"io\"".to_string())),
        field("category", FieldValue::Bool(true)),
        field("category", FieldValue::I64(-4)),
    ];
    let filter = FtfFilter::scan(&fields);
    assert!(!filter.should_record);
    assert_eq!(filter.category, None);
}

#[test]
fn scan_keeps_the_last_label_and_any_set_flag() {
    let fields = vec![
        field("category", text("a")),
        field("ftf", FieldValue::Bool(true)),
        field("category", text("b")),
        field("ftf", FieldValue::Bool(false)),
        field("category", FieldValue::U64(3)),
    ];
    let filter = FtfFilter::scan(&fields);
    assert!(filter.should_record);
    assert_eq!(filter.category, Some("b".to_string()));
}

#[test]
fn metadata_holds_what_the_filter_found() {
    let fields = vec![field("ftf", FieldValue::Bool(true)), field("category", text("x"))];
    let metadata = FtfFilter::scan(&fields).into_metadata();
    assert_eq!(metadata, SpanMetadata { captured: true, category: Some("x".to_string()) });
}

#[test]
fn span_category_defaults_to_trace() {
    let plain = FtfFilter { should_record: true, category: None };
    assert_eq!(plain.span_category(), "trace");
    let named = FtfFilter { should_record: true, category: Some("io".to_string()) };
    assert_eq!(named.span_category(), "io");
    let stored = SpanMetadata { captured: true, category: None };
    assert_eq!(stored.span_category(), "trace");
    let labelled = SpanMetadata { captured: false, category: Some("net".to_string()) };
    assert_eq!(labelled.span_category(), "net");
}

#[test]
fn event_is_captured_by_its_own_flag_or_by_its_span() {
    let flagged = FtfFilter { should_record: true, category: None };
    let plain = FtfFilter { should_record: false, category: None };
    let captured = SpanMetadata { captured: true, category: None };
    let skipped = SpanMetadata { captured: false, category: Some("x".to_string()) };
    assert!(flagged.event_captured(None));
    assert!(flagged.event_captured(Some(&skipped)));
    assert!(flagged.event_captured(Some(&captured)));
    assert!(plain.event_captured(Some(&captured)));
    assert!(!plain.event_captured(Some(&skipped)));
    assert!(!plain.event_captured(None));
}

#[test]
fn event_category_is_own_then_span_then_default() {
    let own = FtfFilter { should_record: true, category: Some("y".to_string()) };
    let none = FtfFilter { should_record: true, category: None };
    let span_x = SpanMetadata { captured: true, category: Some("x".to_string()) };
    let span_plain = SpanMetadata { captured: true, category: None };
    assert_eq!(own.event_category(Some(&span_x)), "y");
    assert_eq!(own.event_category(None), "y");
    assert_eq!(none.event_category(Some(&span_x)), "x");
    assert_eq!(none.event_category(Some(&span_plain)), "trace");
    assert_eq!(none.event_category(None), "trace");
}

#[test]
fn uncaptured_span_label_is_not_inherited() {
    let own = FtfFilter { should_record: true, category: Some("y".to_string()) };
    let none = FtfFilter { should_record: true, category: None };
    let quiet = SpanMetadata { captured: false, category: Some("z".to_string()) };
    let bare = SpanMetadata { captured: false, category: None };
    assert_eq!(none.event_category(Some(&quiet)), "trace");
    assert_eq!(none.event_category(Some(&bare)), "trace");
    assert_eq!(own.event_category(Some(&quiet)), "y");
}
