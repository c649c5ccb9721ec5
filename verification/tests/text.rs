use ftfrs_tracing::text::{
    str_eq, CAPTURE_FIELD, CATEGORY_FIELD, DEFAULT_CATEGORY, DEFAULT_PROVIDER_ID,
    DEFAULT_PROVIDER_NAME,
};

#[test]
fn fixed_names_are_as_documented() {
    assert_eq!(CAPTURE_FIELD, "ftf");
    assert_eq!(CATEGORY_FIELD, "category");
    assert_eq!(DEFAULT_CATEGORY, "trace");
    assert_eq!(DEFAULT_PROVIDER_NAME, "trace");
    assert_eq!(DEFAULT_PROVIDER_ID, 1);
}

#[test]
fn equal_strings_compare_equal() {
    assert!(str_eq("", ""));
    assert!(str_eq("ftf", "ftf"));
    assert!(str_eq("cat\u{e9}gorie \u{1f600}", "cat\u{e9}gorie \u{1f600}"));
}

#[test]
fn different_strings_compare_unequal() {
    assert!(!str_eq("ftf", "ftg"));
    assert!(!str_eq("ftf", "ft"));
    assert!(!str_eq("ft", "ftf"));
    assert!(!str_eq("", "a"));
    assert!(!str_eq("gtf", "ftf"));
    assert!(!str_eq("caf\u{e9}", "cafe"));
    assert!(!str_eq("\u{e9}", "\u{e8}"));
}
