use shyaml_rs::tag::{parse_tag, MergeOp, TagError};

#[test]
fn test_parse_merge_replace() {
    let result = parse_tag("!merge:replace").unwrap();
    assert_eq!(result.merge_op, Some(MergeOp::Replace));
    assert_eq!(result.remaining, None);
}

#[test]
fn test_parse_merge_append() {
    let result = parse_tag("!merge:append").unwrap();
    assert_eq!(result.merge_op, Some(MergeOp::Append));
    assert_eq!(result.remaining, None);
}

#[test]
fn test_parse_merge_prepend() {
    let result = parse_tag("!merge:prepend").unwrap();
    assert_eq!(result.merge_op, Some(MergeOp::Prepend));
    assert_eq!(result.remaining, None);
}

#[test]
fn test_parse_simple_tag() {
    let result = parse_tag("!custom").unwrap();
    assert_eq!(result.merge_op, None);
    assert_eq!(result.remaining, Some("!custom".to_string()));
}

#[test]
fn test_parse_namespaced_tag() {
    let result = parse_tag("!type:string").unwrap();
    assert_eq!(result.merge_op, None);
    assert_eq!(result.remaining, Some("!type:string".to_string()));
}

#[test]
fn test_parse_compound_merge_last() {
    let result = parse_tag("!literal;merge:replace").unwrap();
    assert_eq!(result.merge_op, Some(MergeOp::Replace));
    assert_eq!(result.remaining, Some("!literal".to_string()));
}

#[test]
fn test_parse_compound_merge_first() {
    let result = parse_tag("!merge:append;literal").unwrap();
    assert_eq!(result.merge_op, Some(MergeOp::Append));
    assert_eq!(result.remaining, Some("!literal".to_string()));
}

#[test]
fn test_parse_compound_merge_middle() {
    let result = parse_tag("!a;merge:prepend;b").unwrap();
    assert_eq!(result.merge_op, Some(MergeOp::Prepend));
    assert_eq!(result.remaining, Some("!a;b".to_string()));
}

#[test]
fn test_parse_compound_multiple_tags_no_merge() {
    let result = parse_tag("!a;b;c").unwrap();
    assert_eq!(result.merge_op, None);
    assert_eq!(result.remaining, Some("!a;b;c".to_string()));
}

#[test]
fn test_parse_compound_with_namespaced() {
    let result = parse_tag("!custom;type:int;merge:replace").unwrap();
    assert_eq!(result.merge_op, Some(MergeOp::Replace));
    assert_eq!(result.remaining, Some("!custom;type:int".to_string()));
}

#[test]
fn test_parse_tag_with_args_no_merge() {
    let result = parse_tag("!custom(arg1;arg2)").unwrap();
    assert_eq!(result.merge_op, None);
    assert_eq!(result.remaining, Some("!custom(arg1;arg2)".to_string()));
}

#[test]
fn test_parse_compound_with_args_and_merge() {
    let result = parse_tag("!custom(arg);merge:replace").unwrap();
    assert_eq!(result.merge_op, Some(MergeOp::Replace));
    assert_eq!(result.remaining, Some("!custom(arg)".to_string()));
}

#[test]
fn test_parse_semicolon_in_args_not_split() {
    let result = parse_tag("!custom(a;b;c);merge:append").unwrap();
    assert_eq!(result.merge_op, Some(MergeOp::Append));
    assert_eq!(result.remaining, Some("!custom(a;b;c)".to_string()));
}

#[test]
fn test_error_unknown_operation() {
    let result = parse_tag("!merge:unknown");
    assert!(matches!(result, Err(TagError::UnknownOperation(op)) if op == "unknown"));
}

#[test]
fn test_error_multiple_merge_directives() {
    let result = parse_tag("!merge:replace;merge:append");
    assert!(matches!(result, Err(TagError::MultipleMergeDirectives)));
}

#[test]
fn test_error_unexpected_arguments() {
    let result = parse_tag("!merge:replace(foo)");
    assert!(matches!(result, Err(TagError::UnexpectedArguments(op)) if op == "replace"));
}

#[test]
fn test_error_empty_tag() {
    let result = parse_tag("");
    assert!(matches!(result, Err(TagError::EmptyTag)));

    let result = parse_tag("!");
    assert!(matches!(result, Err(TagError::EmptyTag)));
}

#[test]
fn test_tag_without_leading_bang() {
    let result = parse_tag("merge:replace").unwrap();
    assert_eq!(result.merge_op, Some(MergeOp::Replace));
    assert_eq!(result.remaining, None);
}

#[test]
fn test_whitespace_trimmed() {
    let result = parse_tag("  !merge:replace  ").unwrap();
    assert_eq!(result.merge_op, Some(MergeOp::Replace));
    assert_eq!(result.remaining, None);
}

#[test]
fn test_merge_op_display() {
    assert_eq!(MergeOp::Replace.to_string(), "replace");
    assert_eq!(MergeOp::Append.to_string(), "append");
    assert_eq!(MergeOp::Prepend.to_string(), "prepend");
}

#[test]
fn test_tag_error_display() {
    let err = TagError::UnknownOperation("foo".to_string());
    assert!(err.to_string().contains("foo"));
    assert!(err.to_string().contains("unknown"));

    let err = TagError::MultipleMergeDirectives;
    assert!(err.to_string().contains("multiple"));

    let err = TagError::UnexpectedArguments("replace".to_string());
    assert!(err.to_string().contains("replace"));
    assert!(err.to_string().contains("arguments"));
}

#[test]
fn tag_empty_parts_are_dropped() {
    let result = parse_tag("!a;;b;").unwrap();
    assert_eq!(result.merge_op, None);
    assert_eq!(result.remaining, Some("!a;b".to_string()));
}

#[test]
fn tag_unknown_operation_is_case_sensitive() {
    let result = parse_tag("!merge:Replace");
    assert!(matches!(result, Err(TagError::UnknownOperation(op)) if op == "Replace"));
}

#[test]
fn tag_content_without_trimming() {
    let result = shyaml_rs::tag::parse_tag_content("!x;merge:append").unwrap();
    assert_eq!(result.merge_op, Some(MergeOp::Append));
    assert_eq!(result.remaining, Some("!x".to_string()));
    assert!(matches!(shyaml_rs::tag::parse_tag_content(""), Err(TagError::EmptyTag)));
}

#[test]
fn tag_error_texts_are_exact() {
    assert_eq!(
        TagError::UnknownOperation("foo".to_string()).to_string(),
        "unknown merge operation 'foo': expected replace, append, or prepend"
    );
    assert_eq!(TagError::EmptyTag.to_string(), "empty tag");
}

#[test]
fn tag_trims_unicode_white_space() {
    let result = parse_tag("\t\u{3000}!merge:append\n").unwrap();
    assert_eq!(result.merge_op, Some(MergeOp::Append));
    assert_eq!(result.remaining, None);
}
