use shyaml_rs::error::PathError;
use shyaml_rs::path::{resolve_index, split_path};
use shyaml_rs::text::{decimal_string, parse_i64};

#[test]
fn test_split_path_simple() {
    assert_eq!(split_path("a.b.c"), vec!["a", "b", "c"]);
}

#[test]
fn test_split_path_single_element() {
    assert_eq!(split_path("foo"), vec!["foo"]);
}

#[test]
fn test_split_path_escaped_dot() {
    assert_eq!(split_path(r"a\.b.c"), vec!["a.b", "c"]);
}

#[test]
fn test_split_path_escaped_backslash() {
    assert_eq!(split_path(r"a\\b.c"), vec!["a\\b", "c"]);
}

#[test]
fn test_split_path_escaped_backslash_then_dot() {
    assert_eq!(split_path(r"a\\.b"), vec!["a\\", "b"]);
}

#[test]
fn test_split_path_escaped_backslash_and_escaped_dot() {
    assert_eq!(split_path(r"a\\\.b.c"), vec!["a\\.b", "c"]);
}

#[test]
fn test_split_path_empty_string() {
    assert_eq!(split_path(""), vec![""]);
}

#[test]
fn test_split_path_empty_key_middle() {
    assert_eq!(split_path("a..b"), vec!["a", "", "b"]);
}

#[test]
fn test_split_path_empty_key_start() {
    assert_eq!(split_path(".a"), vec!["", "a"]);
}

#[test]
fn test_split_path_empty_key_end() {
    assert_eq!(split_path("a."), vec!["a", ""]);
}

#[test]
fn test_split_path_only_dots() {
    assert_eq!(split_path(".."), vec!["", "", ""]);
}

#[test]
fn test_split_path_trailing_backslash() {
    assert_eq!(split_path(r"a\"), vec!["a"]);
}

#[test]
fn split_path_escaped_dot_in_middle_segment() {
    assert_eq!(split_path(r"a.b\.c.d"), vec!["a", "b.c", "d"]);
}

#[test]
fn test_resolve_index_positive() {
    assert_eq!(resolve_index("0", 3, "test").unwrap(), 0);
    assert_eq!(resolve_index("1", 3, "test").unwrap(), 1);
    assert_eq!(resolve_index("2", 3, "test").unwrap(), 2);
}

#[test]
fn test_resolve_index_negative() {
    assert_eq!(resolve_index("-1", 3, "test").unwrap(), 2);
    assert_eq!(resolve_index("-2", 3, "test").unwrap(), 1);
    assert_eq!(resolve_index("-3", 3, "test").unwrap(), 0);
}

fn path_message(err: PathError) -> String {
    match err {
        e @ (PathError::IndexOutOfRange { .. } | PathError::NonIntegerIndex { .. }) => e.to_string(),
        _ => panic!("Expected Error::Path"),
    }
}

#[test]
fn test_resolve_index_positive_out_of_range() {
    let msg = path_message(resolve_index("3", 3, "items.3").unwrap_err());
    assert!(msg.contains("index 3 is out of range"));
    assert!(msg.contains("3 elements"));
}

#[test]
fn test_resolve_index_negative_out_of_range() {
    let msg = path_message(resolve_index("-4", 3, "items.-4").unwrap_err());
    assert!(msg.contains("index -4 is out of range"));
    assert!(msg.contains("3 elements"));
}

#[test]
fn test_resolve_index_non_integer() {
    let msg = path_message(resolve_index("foo", 3, "items.foo").unwrap_err());
    assert!(msg.contains("non-integer index 'foo'"));
}

#[test]
fn test_resolve_index_empty_string() {
    let msg = path_message(resolve_index("", 3, "items.").unwrap_err());
    assert!(msg.contains("non-integer index ''"));
}

#[test]
fn test_resolve_index_empty_sequence() {
    let msg = path_message(resolve_index("0", 0, "empty.0").unwrap_err());
    assert!(msg.contains("index 0 is out of range"));
    assert!(msg.contains("0 elements"));
}

#[test]
fn test_resolve_index_negative_on_empty_sequence() {
    let msg = path_message(resolve_index("-1", 0, "empty.-1").unwrap_err());
    assert!(msg.contains("index -1 is out of range"));
}

#[test]
fn test_resolve_index_boundary_negative() {
    assert_eq!(resolve_index("-5", 5, "test").unwrap(), 0);
    let msg = path_message(resolve_index("-6", 5, "test.-6").unwrap_err());
    assert!(msg.contains("index -6 is out of range"));
}

#[test]
fn test_resolve_index_path_in_error_message() {
    let msg = path_message(resolve_index("99", 3, "deeply.nested.path.99").unwrap_err());
    assert!(msg.contains("deeply.nested.path.99"));
}

#[test]
fn resolve_index_accepts_plus_sign_and_rejects_overflow() {
    assert_eq!(resolve_index("+1", 3, "p").unwrap(), 1);
    assert!(matches!(
        resolve_index("99999999999999999999", 3, "p"),
        Err(PathError::NonIntegerIndex { .. })
    ));
    assert!(matches!(resolve_index("-", 3, "p"), Err(PathError::NonIntegerIndex { .. })));
}

#[test]
fn resolve_index_error_text_is_exact() {
    let err = resolve_index("-4", 3, "items.-4").unwrap_err();
    assert_eq!(
        err.to_string(),
        "invalid path 'items.-4', index -4 is out of range (3 elements in sequence)."
    );
}

#[test]
fn integer_text_round_trips_at_the_limits() {
    assert_eq!(parse_i64("-9223372036854775808"), Some(i64::MIN));
    assert_eq!(parse_i64("+9223372036854775807"), Some(i64::MAX));
    assert_eq!(parse_i64("9223372036854775808"), None);
    assert_eq!(parse_i64("0007"), Some(7));
    assert_eq!(parse_i64("1a"), None);
    assert_eq!(parse_i64(""), None);
    assert_eq!(parse_i64("+"), None);
    assert_eq!(decimal_string(i128::MIN), i128::MIN.to_string());
    assert_eq!(decimal_string(0), "0");
    assert_eq!(decimal_string(-42), "-42");
    assert_eq!(decimal_string(1234567890), "1234567890");
}
