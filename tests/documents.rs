use shyaml_rs::error::{Error, PathError};
use shyaml_rs::merge::{apply_overlays, merge_values};
use shyaml_rs::mutation::{del, set_value};
use shyaml_rs::policy::{parse_merge_policies, PolicyTable};
use shyaml_rs::value::{Number, TaggedValue, Value};

fn s(t: &str) -> Value {
    Value::String(t.to_string())
}

fn n(i: i64) -> Value {
    Value::Number(Number::Int(i))
}

fn list(items: Vec<Value>) -> Value {
    Value::Sequence(items)
}

fn map(entries: Vec<(&str, Value)>) -> Value {
    Value::Mapping(entries.into_iter().map(|(k, v)| (s(k), v)).collect())
}

fn tagged(tag: &str, v: Value) -> Value {
    Value::Tagged(Box::new(TaggedValue { tag: tag.to_string(), value: v }))
}

fn no_policies() -> PolicyTable {
    PolicyTable::new()
}

fn policies(specs: &[&str]) -> PolicyTable {
    let v: Vec<String> = specs.iter().map(|x| x.to_string()).collect();
    parse_merge_policies(Some(&v)).unwrap()
}

fn apply_one(base: Value, overlay: Value, t: &PolicyTable) -> Result<Value, Error> {
    apply_overlays(base, vec![overlay], t)
}

fn error_text(r: Result<Value, Error>) -> String {
    match r {
        Ok(v) => panic!("expected an error, got {:?}", v),
        Err(e) => e.to_string(),
    }
}

// set-value

#[test]
fn test_set_value_simple() {
    let r = set_value("name", s("new"), map(vec![("name", s("old"))])).unwrap();
    assert_eq!(r, map(vec![("name", s("new"))]));
}

#[test]
fn test_set_value_nested_path() {
    let r = set_value("config.host", s("localhost"), map(vec![("config", map(vec![]))])).unwrap();
    assert_eq!(r, map(vec![("config", map(vec![("host", s("localhost"))]))]));
}

#[test]
fn test_set_value_creates_intermediate_mappings() {
    let r = set_value("a.b.c", s("deep"), Value::Null).unwrap();
    assert_eq!(r, map(vec![("a", map(vec![("b", map(vec![("c", s("deep"))]))]))]));
}

#[test]
fn test_set_value_yaml_flag() {
    let parsed = list(vec![n(1), n(2), n(3)]);
    let r = set_value("data.items", parsed, map(vec![("data", map(vec![]))])).unwrap();
    assert_eq!(r, map(vec![("data", map(vec![("items", list(vec![n(1), n(2), n(3)]))]))]));
}

#[test]
fn test_set_value_yaml_flag_complex_structure() {
    let parsed = map(vec![("host", s("localhost")), ("port", n(5432))]);
    let r = set_value("config.db", parsed, map(vec![("config", map(vec![]))])).unwrap();
    assert_eq!(
        r,
        map(vec![("config", map(vec![("db", map(vec![("host", s("localhost")), ("port", n(5432))]))]))])
    );
}

#[test]
fn test_set_value_without_yaml_flag_literal() {
    let r = set_value("config.data", s("{host: localhost}"), map(vec![("config", map(vec![]))])).unwrap();
    assert_eq!(r, map(vec![("config", map(vec![("data", s("{host: localhost}"))]))]));
}

fn abc() -> Value {
    map(vec![("items", list(vec![s("a"), s("b"), s("c")]))])
}

#[test]
fn test_set_value_sequence_index() {
    let r = set_value("items.1", s("changed"), abc()).unwrap();
    assert_eq!(r, map(vec![("items", list(vec![s("a"), s("changed"), s("c")]))]));
}

#[test]
fn test_set_value_negative_index() {
    let r = set_value("items.-1", s("last"), abc()).unwrap();
    assert_eq!(r, map(vec![("items", list(vec![s("a"), s("b"), s("last")]))]));
}

#[test]
fn test_set_value_negative_index_first() {
    let r = set_value("items.-3", s("first"), abc()).unwrap();
    assert_eq!(r, map(vec![("items", list(vec![s("first"), s("b"), s("c")]))]));
}

#[test]
fn test_set_value_index_out_of_range() {
    let msg = error_text(set_value("items.5", s("x"), abc()));
    assert!(msg.contains("out of range"));
    assert!(msg.contains("3 elements"));
}

#[test]
fn test_set_value_negative_index_out_of_range() {
    let msg = error_text(set_value("items.-10", s("x"), abc()));
    assert!(msg.contains("out of range"));
}

#[test]
fn test_set_value_non_integer_index_on_sequence() {
    let msg = error_text(set_value("items.foo", s("x"), abc()));
    assert!(msg.contains("non-integer index"));
}

#[test]
fn test_set_value_cannot_set_on_scalar() {
    let r = set_value("name.sub", s("x"), map(vec![("name", s("scalar"))]));
    assert!(matches!(r, Err(Error::Path(PathError::CannotSetOnScalar { .. }))));
    assert!(error_text(r).contains("cannot"));
}

#[test]
fn test_set_value_escaped_dot_in_key() {
    let r = set_value(r"config\.key", s("value"), map(vec![("config", map(vec![]))])).unwrap();
    assert_eq!(r, map(vec![("config", map(vec![])), ("config.key", s("value"))]));
}

#[test]
fn test_set_value_empty_input() {
    let r = set_value("key", s("value"), Value::Null).unwrap();
    assert_eq!(r, map(vec![("key", s("value"))]));
}

#[test]
fn test_set_value_overwrite_existing() {
    let base = map(vec![("config", map(vec![("host", s("localhost")), ("port", n(5432))]))]);
    let r = set_value("config.port", s("3306"), base).unwrap();
    assert_eq!(r, map(vec![("config", map(vec![("host", s("localhost")), ("port", s("3306"))]))]));
}

#[test]
fn test_set_value_traverse_sequence_then_set() {
    let base = map(vec![("users", list(vec![map(vec![("name", s("bob")), ("age", n(30))])]))]);
    let r = set_value("users.0.name", s("alice"), base).unwrap();
    assert_eq!(r, map(vec![("users", list(vec![map(vec![("name", s("alice")), ("age", n(30))])]))]));
}

#[test]
fn set_value_through_scalar_cannot_traverse() {
    let r = set_value("name.sub.deeper", s("x"), map(vec![("name", s("scalar"))]));
    assert!(matches!(r, Err(Error::Path(PathError::CannotTraverseScalar { .. }))));
}

// del

#[test]
fn test_del_simple_key() {
    let r = del("b", map(vec![("a", n(1)), ("b", n(2)), ("c", n(3))])).unwrap();
    assert_eq!(r, map(vec![("a", n(1)), ("c", n(3))]));
}

#[test]
fn test_del_nested_key() {
    let base = map(vec![("config", map(vec![("db", map(vec![("host", s("localhost")), ("port", n(5432))]))]))]);
    let r = del("config.db.port", base).unwrap();
    assert_eq!(r, map(vec![("config", map(vec![("db", map(vec![("host", s("localhost"))]))]))]));
}

#[test]
fn test_del_sequence_element() {
    let r = del("items.1", abc()).unwrap();
    assert_eq!(r, map(vec![("items", list(vec![s("a"), s("c")]))]));
}

#[test]
fn test_del_sequence_negative_index() {
    let r = del("items.-1", abc()).unwrap();
    assert_eq!(r, map(vec![("items", list(vec![s("a"), s("b")]))]));
}

#[test]
fn test_del_missing_key_error() {
    let msg = error_text(del("nonexistent", map(vec![("a", n(1))])));
    assert!(msg.contains("missing key 'nonexistent'"));
}

#[test]
fn test_del_empty_path_error() {
    let msg = error_text(del("", map(vec![("a", n(1))])));
    assert!(msg.contains("Empty path"));
}

fn ab() -> Value {
    map(vec![("items", list(vec![s("a"), s("b")]))])
}

#[test]
fn test_del_index_out_of_range_error() {
    assert!(error_text(del("items.5", ab())).contains("out of range"));
}

#[test]
fn test_del_non_integer_index_error() {
    assert!(error_text(del("items.foo", ab())).contains("non-integer index"));
}

#[test]
fn test_del_negative_index_out_of_range_error() {
    let msg = error_text(del("items.-5", ab()));
    assert!(msg.contains("out of range"));
    assert!(msg.contains("-5"));
}

#[test]
fn test_del_preserves_order() {
    let r = del("a", map(vec![("z", n(1)), ("a", n(2)), ("m", n(3)), ("b", n(4))])).unwrap();
    assert_eq!(r, map(vec![("z", n(1)), ("m", n(3)), ("b", n(4))]));
}

#[test]
fn test_del_from_root_sequence() {
    let r = del("1", list(vec![s("first"), s("second"), s("third")])).unwrap();
    assert_eq!(r, list(vec![s("first"), s("third")]));
}

#[test]
fn del_from_empty_document_fails() {
    let r = del("a", Value::Null);
    assert!(matches!(r, Err(Error::Path(PathError::EmptyDocument))));
}

#[test]
fn del_from_scalar_fails() {
    let r = del("a.b", map(vec![("a", s("x"))]));
    assert!(matches!(r, Err(Error::Path(PathError::CannotDeleteFromScalar { .. }))));
}

// compound command chains

#[test]
fn test_compound_set_value_twice() {
    let v = set_value("b", s("2"), map(vec![("a", n(1))])).unwrap();
    let v = set_value("c", s("3"), v).unwrap();
    assert_eq!(v, map(vec![("a", n(1)), ("b", s("2")), ("c", s("3"))]));
}

#[test]
fn test_compound_set_then_del() {
    let v = set_value("c", s("3"), map(vec![("a", n(1)), ("b", n(2))])).unwrap();
    let v = del("a", v).unwrap();
    assert_eq!(v, map(vec![("b", n(2)), ("c", s("3"))]));
}

#[test]
fn test_compound_del_then_set() {
    let v = del("a", map(vec![("a", n(1)), ("b", n(2))])).unwrap();
    let v = set_value("c", s("3"), v).unwrap();
    assert_eq!(v, map(vec![("b", n(2)), ("c", s("3"))]));
}

#[test]
fn test_compound_three_operations() {
    let v = set_value("a", s("10"), map(vec![("x", n(1))])).unwrap();
    let v = set_value("b", s("20"), v).unwrap();
    let v = set_value("c", s("30"), v).unwrap();
    assert_eq!(v, map(vec![("x", n(1)), ("a", s("10")), ("b", s("20")), ("c", s("30"))]));
}

#[test]
fn test_compound_modify_existing_key() {
    let v = set_value("a", s("100"), map(vec![("a", n(1)), ("b", n(2))])).unwrap();
    let v = set_value("b", s("200"), v).unwrap();
    assert_eq!(v, map(vec![("a", s("100")), ("b", s("200"))]));
}

#[test]
fn test_compound_nested_path() {
    let base = map(vec![("config", map(vec![("server", map(vec![("host", s("localhost"))]))]))]);
    let v = set_value("config.server.port", s("8080"), base).unwrap();
    let v = set_value("config.debug", Value::Bool(true), v).unwrap();
    assert_eq!(
        v,
        map(vec![(
            "config",
            map(vec![
                ("server", map(vec![("host", s("localhost")), ("port", s("8080"))])),
                ("debug", Value::Bool(true)),
            ])
        )])
    );
}

#[test]
fn test_compound_del_multiple() {
    let v = del("a", map(vec![("a", n(1)), ("b", n(2)), ("c", n(3)), ("d", n(4))])).unwrap();
    let v = del("c", v).unwrap();
    assert_eq!(v, map(vec![("b", n(2)), ("d", n(4))]));
}

#[test]
fn test_compound_no_intermediate_output() {
    let v = set_value("value", s("first"), map(vec![("value", s("original"))])).unwrap();
    let v = set_value("value", s("second"), v).unwrap();
    let v = set_value("value", s("final"), v).unwrap();
    assert_eq!(v, map(vec![("value", s("final"))]));
}

#[test]
fn test_compound_with_yaml_value() {
    let v = set_value("items", list(vec![s("a"), s("b"), s("c")]), map(vec![("items", list(vec![]))])).unwrap();
    let v = set_value("count", s("3"), v).unwrap();
    assert_eq!(v, map(vec![("items", list(vec![s("a"), s("b"), s("c")])), ("count", s("3"))]));
}

#[test]
fn test_single_command_still_works() {
    let v = set_value("b", s("2"), map(vec![("a", n(1))])).unwrap();
    assert_eq!(v, map(vec![("a", n(1)), ("b", s("2"))]));
}

// apply

#[test]
fn test_apply_scalar_replacement() {
    let r = apply_one(map(vec![("name", s("alice")), ("count", n(10))]), map(vec![("name", s("bob"))]), &no_policies());
    assert_eq!(r.unwrap(), map(vec![("name", s("bob")), ("count", n(10))]));
}

#[test]
fn test_apply_deep_mapping_merge() {
    let base = map(vec![(
        "database",
        map(vec![("host", s("localhost")), ("port", n(5432)), ("options", map(vec![("timeout", n(30))]))]),
    )]);
    let overlay = map(vec![("database", map(vec![("port", n(3306)), ("options", map(vec![("charset", s("utf8"))]))]))]);
    let r = apply_one(base, overlay, &no_policies()).unwrap();
    assert_eq!(
        r,
        map(vec![(
            "database",
            map(vec![
                ("host", s("localhost")),
                ("port", n(3306)),
                ("options", map(vec![("timeout", n(30)), ("charset", s("utf8"))])),
            ])
        )])
    );
}

#[test]
fn test_apply_sequence_append() {
    let base = map(vec![("paths", list(vec![s("/var/log"), s("/var/cache")]))]);
    let overlay = map(vec![("paths", list(vec![s("/var/data")]))]);
    let r = apply_one(base, overlay, &no_policies()).unwrap();
    assert_eq!(r, map(vec![("paths", list(vec![s("/var/log"), s("/var/cache"), s("/var/data")]))]));
}

#[test]
fn test_apply_multiple_overlays() {
    let base = map(vec![("name", s("base")), ("level", n(1))]);
    let o1 = map(vec![("name", s("first")), ("extra", s("added"))]);
    let o2 = map(vec![("name", s("second")), ("level", n(2))]);
    let r = apply_overlays(base, vec![o1, o2], &no_policies()).unwrap();
    assert_eq!(r, map(vec![("name", s("second")), ("level", n(2)), ("extra", s("added"))]));
}

#[test]
fn test_apply_type_mismatch_error() {
    let base = map(vec![("config", s("simple-value"))]);
    let overlay = map(vec![("config", map(vec![("key", s("value"))]))]);
    let msg = error_text(apply_one(base, overlay, &no_policies()));
    assert!(msg.contains("type") || msg.contains("mismatch") || msg.contains("config"));
}

#[test]
fn test_apply_sequence_deduplication() {
    let base = map(vec![("items", list(vec![s("a"), s("b"), s("c")]))]);
    let overlay = map(vec![("items", list(vec![s("b"), s("d")]))]);
    let r = apply_one(base, overlay, &no_policies()).unwrap();
    assert_eq!(r, map(vec![("items", list(vec![s("a"), s("c"), s("b"), s("d")]))]));
}

#[test]
fn test_apply_sequence_duplicate_in_child() {
    let base = map(vec![("items", list(vec![s("a"), s("b")]))]);
    let overlay = map(vec![("items", list(vec![s("c"), s("b"), s("c")]))]);
    let r = apply_one(base, overlay, &no_policies()).unwrap();
    assert_eq!(r, map(vec![("items", list(vec![s("a"), s("b"), s("c")]))]));
}

#[test]
fn test_apply_null_deletes_key() {
    let base = map(vec![("keep", n(1)), ("remove", n(2)), ("nested", map(vec![("a", n(1)), ("b", n(2))]))]);
    let overlay = map(vec![("remove", Value::Null), ("nested", map(vec![("b", Value::Null)]))]);
    let r = apply_one(base, overlay, &no_policies()).unwrap();
    assert_eq!(r, map(vec![("keep", n(1)), ("nested", map(vec![("a", n(1))]))]));
}

#[test]
fn test_apply_empty_overlay() {
    let r = apply_one(map(vec![("existing", s("value"))]), Value::Null, &no_policies()).unwrap();
    assert_eq!(r, map(vec![("existing", s("value"))]));
}

#[test]
fn test_apply_policy_replace() {
    let base = map(vec![("config", map(vec![("a", n(1)), ("b", n(2))]))]);
    let overlay = map(vec![("config", map(vec![("b", n(3)), ("c", n(4))]))]);
    let r = apply_one(base, overlay, &policies(&["config=replace"])).unwrap();
    assert_eq!(r, map(vec![("config", map(vec![("b", n(3)), ("c", n(4))]))]));
}

#[test]
fn test_apply_policy_prepend() {
    let base = map(vec![("items", list(vec![s("a"), s("b")]))]);
    let overlay = map(vec![("items", list(vec![s("c"), s("d")]))]);
    let r = apply_one(base, overlay, &policies(&["items=prepend"])).unwrap();
    assert_eq!(r, map(vec![("items", list(vec![s("c"), s("d"), s("a"), s("b")]))]));
}

fn config_and_items() -> (Value, Value) {
    (
        map(vec![("config", map(vec![("a", n(1))])), ("items", list(vec![s("x")]))]),
        map(vec![("config", map(vec![("b", n(2))])), ("items", list(vec![s("y")]))]),
    )
}

#[test]
fn test_apply_policy_multiple_comma_separated() {
    let (base, overlay) = config_and_items();
    let r = apply_one(base, overlay, &policies(&["config=replace", "items=prepend"])).unwrap();
    assert_eq!(r, map(vec![("config", map(vec![("b", n(2))])), ("items", list(vec![s("y"), s("x")]))]));
}

#[test]
fn test_apply_policy_multiple_flags() {
    let (base, overlay) = config_and_items();
    let r = apply_one(base, overlay, &policies(&["config=replace", "items=prepend"])).unwrap();
    assert_eq!(r, map(vec![("config", map(vec![("b", n(2))])), ("items", list(vec![s("y"), s("x")]))]));
}

#[test]
fn test_apply_policy_nested_path() {
    let base = map(vec![("database", map(vec![("config", map(vec![("host", s("localhost")), ("port", n(5432))]))]))]);
    let overlay = map(vec![("database", map(vec![("config", map(vec![("port", n(3306)), ("user", s("admin"))]))]))]);
    let r = apply_one(base, overlay, &policies(&["database.config=replace"])).unwrap();
    assert_eq!(
        r,
        map(vec![("database", map(vec![("config", map(vec![("port", n(3306)), ("user", s("admin"))]))]))])
    );
}

// merge tags

#[test]
fn test_merge_replace_on_mapping() {
    let base = map(vec![("config", map(vec![("host", s("localhost")), ("port", n(5432))]))]);
    let overlay = map(vec![("config", tagged("!merge:replace", map(vec![("port", n(3306))])))]);
    let r = apply_one(base, overlay, &no_policies()).unwrap();
    assert_eq!(r, map(vec![("config", map(vec![("port", n(3306))]))]));
}

#[test]
fn test_merge_replace_on_sequence() {
    let base = abc();
    let overlay = map(vec![("items", tagged("!merge:replace", list(vec![s("x"), s("y")])))]);
    let r = apply_one(base, overlay, &no_policies()).unwrap();
    assert_eq!(r, map(vec![("items", list(vec![s("x"), s("y")]))]));
}

#[test]
fn test_merge_replace_on_scalar() {
    let r = apply_one(map(vec![("name", s("alice"))]), map(vec![("name", tagged("!merge:replace", s("bob")))]), &no_policies());
    assert_eq!(r.unwrap(), map(vec![("name", s("bob"))]));
}

#[test]
fn test_merge_prepend_on_sequence() {
    let overlay = map(vec![("items", tagged("!merge:prepend", list(vec![s("x"), s("y")])))]);
    let r = apply_one(ab(), overlay, &no_policies()).unwrap();
    assert_eq!(r, map(vec![("items", list(vec![s("x"), s("y"), s("a"), s("b")]))]));
}

#[test]
fn test_merge_append_explicit() {
    let overlay = map(vec![("items", tagged("!merge:append", list(vec![s("c"), s("d")])))]);
    let r = apply_one(ab(), overlay, &no_policies()).unwrap();
    assert_eq!(r, map(vec![("items", list(vec![s("a"), s("b"), s("c"), s("d")]))]));
}

#[test]
fn test_compound_tag_merge_replace() {
    let overlay = map(vec![("data", tagged("!custom;merge:replace", s("new")))]);
    let r = apply_one(map(vec![("data", s("old"))]), overlay, &no_policies()).unwrap();
    assert_eq!(r, map(vec![("data", tagged("!custom", s("new")))]));
}

#[test]
fn test_compound_tag_merge_prepend() {
    let overlay = map(vec![("items", tagged("!mylist;merge:prepend", list(vec![s("b")])))]);
    let r = apply_one(map(vec![("items", list(vec![s("a")]))]), overlay, &no_policies()).unwrap();
    assert_eq!(r, map(vec![("items", tagged("!mylist", list(vec![s("b"), s("a")])))]));
}

#[test]
fn test_merge_tag_stripped_from_output() {
    let overlay = map(vec![("value", tagged("!merge:replace", s("new")))]);
    let r = apply_one(map(vec![("value", s("old"))]), overlay, &no_policies()).unwrap();
    assert_eq!(r, map(vec![("value", s("new"))]));
}

#[test]
fn test_parent_tags_preserved() {
    let base = map(vec![("secret", tagged("!encrypted", s("abc123"))), ("plain", s("value"))]);
    let r = apply_one(base, map(vec![("plain", s("updated"))]), &no_policies()).unwrap();
    assert_eq!(r, map(vec![("secret", tagged("!encrypted", s("abc123"))), ("plain", s("updated"))]));
}

#[test]
fn test_cli_policy_overrides_inline_tag() {
    let overlay = map(vec![("items", tagged("!merge:prepend", list(vec![s("x")])))]);
    let r = apply_one(ab(), overlay, &policies(&["items=replace"])).unwrap();
    assert_eq!(r, map(vec![("items", list(vec![s("x")]))]));
}

#[test]
fn test_new_key_with_merge_tag() {
    let overlay = map(vec![("new_key", tagged("!merge:append", list(vec![s("item")])))]);
    let r = apply_one(map(vec![("existing", s("value"))]), overlay, &no_policies()).unwrap();
    assert_eq!(r, map(vec![("existing", s("value")), ("new_key", list(vec![s("item")]))]));
}

#[test]
fn test_new_key_with_compound_tag() {
    let overlay = map(vec![("new_key", tagged("!custom;merge:prepend", list(vec![s("item")])))]);
    let r = apply_one(map(vec![("existing", s("value"))]), overlay, &no_policies()).unwrap();
    assert_eq!(r, map(vec![("existing", s("value")), ("new_key", tagged("!custom", list(vec![s("item")])))]));
}

#[test]
fn test_error_append_on_mapping() {
    let base = map(vec![("config", map(vec![("host", s("localhost"))]))]);
    let overlay = map(vec![("config", tagged("!merge:append", map(vec![("port", n(3306))])))]);
    let msg = error_text(apply_one(base, overlay, &no_policies()));
    assert!(msg.contains("!merge:append can only be used on sequences"));
    assert!(msg.contains("at 'config'"));
}

#[test]
fn test_error_prepend_on_scalar() {
    let overlay = map(vec![("name", tagged("!merge:prepend", s("bob")))]);
    let msg = error_text(apply_one(map(vec![("name", s("alice"))]), overlay, &no_policies()));
    assert!(msg.contains("!merge:prepend can only be used on sequences"));
    assert!(msg.contains("got string"));
}

#[test]
fn test_error_append_at_root() {
    let overlay = tagged("!merge:append", map(vec![("other", s("value"))]));
    let msg = error_text(apply_one(map(vec![("key", s("value"))]), overlay, &no_policies()));
    assert!(msg.contains("!merge:append can only be used on sequences"));
    assert!(msg.contains("at root"));
}

#[test]
fn test_error_prepend_on_nested_mapping() {
    let base = map(vec![("outer", map(vec![("inner", map(vec![("value", n(1))]))]))]);
    let overlay = map(vec![("outer", map(vec![("inner", tagged("!merge:prepend", map(vec![("value", n(2))])))]))]);
    let msg = error_text(apply_one(base, overlay, &no_policies()));
    assert!(msg.contains("!merge:prepend can only be used on sequences"));
    assert!(msg.contains("at 'outer.inner'"));
}

#[test]
fn test_cli_policy_bypasses_type_validation() {
    let base = map(vec![("config", map(vec![("host", s("localhost"))]))]);
    let overlay = map(vec![("config", map(vec![("port", n(3306))]))]);
    let r = apply_one(base, overlay, &policies(&["config=prepend"])).unwrap();
    assert_eq!(r, map(vec![("config", map(vec![("port", n(3306))]))]));
}

// further cases

#[test]
fn merge_error_in_second_overlay_stops_fold() {
    let base = map(vec![("a", n(1))]);
    let o1 = map(vec![("b", n(2))]);
    let o2 = map(vec![("a", list(vec![n(1)]))]);
    let r = apply_overlays(base, vec![o1, o2], &no_policies());
    assert_eq!(error_text(r), "Type mismatch at 'a': cannot merge number with sequence");
}

#[test]
fn merge_bad_tag_is_reported() {
    let overlay = map(vec![("x", tagged("!merge:sideways", n(1)))]);
    let r = merge_values(map(vec![("x", n(0))]), overlay, "", &no_policies());
    assert!(matches!(r, Err(Error::Tag(_))));
}

#[test]
fn merge_scalars_of_different_types_replace() {
    let r = merge_values(s("a"), Value::Bool(true), "", &no_policies()).unwrap();
    assert_eq!(r, Value::Bool(true));
    let r = merge_values(n(3), Value::Number(Number::Float(0x4000000000000000)), "", &no_policies()).unwrap();
    assert_eq!(r, Value::Number(Number::Float(0x4000000000000000)));
}

#[test]
fn merge_null_base_takes_overlay() {
    let r = merge_values(Value::Null, list(vec![n(1)]), "", &no_policies()).unwrap();
    assert_eq!(r, list(vec![n(1)]));
}

#[test]
fn policy_words_are_case_insensitive_and_last_wins() {
    let t = policies(&[" a = REPLACE ", "a=Prepend"]);
    assert_eq!(t.get("a"), Some(shyaml_rs::policy::MergePolicy::Prepend));
    assert_eq!(t.get("b"), None);
}

#[test]
fn policy_errors_name_the_entry() {
    let v = vec!["novalue".to_string()];
    let e = parse_merge_policies(Some(&v)).unwrap_err();
    assert_eq!(e, "Invalid merge policy 'novalue': expected format PATH=POLICY");
    let v = vec!["a=merge".to_string(), "b=sideways".to_string()];
    let e = parse_merge_policies(Some(&v)).unwrap_err();
    assert_eq!(e, "Invalid merge policy 'sideways': expected merge, replace, or prepend");
    assert!(parse_merge_policies(None).unwrap().entries.is_empty());
}

#[test]
fn integer_keys_stand_in_paths_in_debug_form() {
    let base = Value::Mapping(vec![(n(7), map(vec![("a", n(1))]))]);
    let overlay = Value::Mapping(vec![(n(7), list(vec![n(1)]))]);
    let msg = error_text(merge_values(base, overlay, "", &no_policies()));
    assert!(msg.contains("at 'Number(UInt(7))'"));
    let t = policies(&["Number(UInt(7))=replace"]);
    let base = Value::Mapping(vec![(n(7), map(vec![("a", n(1))]))]);
    let overlay = Value::Mapping(vec![(n(7), list(vec![n(1)]))]);
    let r = merge_values(base, overlay, "", &t).unwrap();
    assert_eq!(r, Value::Mapping(vec![(n(7), list(vec![n(1)]))]));
}

#[test]
fn set_value_descends_through_tagged_mapping() {
    let base = map(vec![("cfg", tagged("!t", map(vec![("a", n(1))])))]);
    let r = set_value("cfg.b", s("v"), base).unwrap();
    assert_eq!(r, map(vec![("cfg", tagged("!t", map(vec![("a", n(1)), ("b", s("v"))])))]));
}

#[test]
fn set_value_through_tagged_sequence_keeps_tag() {
    let base = map(vec![("xs", tagged("!list", list(vec![s("a"), s("b")])))]);
    let r = set_value("xs.-1", s("z"), base).unwrap();
    assert_eq!(r, map(vec![("xs", tagged("!list", list(vec![s("a"), s("z")])))]));
}

#[test]
fn set_value_on_tagged_scalar_fails() {
    let r = set_value("cfg.b", s("v"), map(vec![("cfg", tagged("!t", n(5)))]));
    assert!(matches!(r, Err(Error::Path(PathError::CannotSetOnScalar { .. }))));
}

#[test]
fn del_descends_through_tagged_mapping() {
    let base = map(vec![("cfg", tagged("!t", map(vec![("a", n(1)), ("b", n(2))])))]);
    let r = del("cfg.a", base).unwrap();
    assert_eq!(r, map(vec![("cfg", tagged("!t", map(vec![("b", n(2))])))]));
}

#[test]
fn del_from_tagged_scalar_fails() {
    let r = del("cfg.a", map(vec![("cfg", tagged("!t", s("x")))]));
    assert!(matches!(r, Err(Error::Path(PathError::CannotDeleteFromScalar { .. }))));
}

#[test]
fn prepend_keeps_repeated_base_items() {
    let base = map(vec![("items", list(vec![s("a"), s("a")]))]);
    let overlay = map(vec![("items", list(vec![s("x")]))]);
    let r = apply_one(base, overlay, &policies(&["items=prepend"])).unwrap();
    assert_eq!(r, map(vec![("items", list(vec![s("x"), s("a"), s("a")]))]));
    let base = map(vec![("items", list(vec![s("a"), s("x"), s("b"), s("a")]))]);
    let overlay = map(vec![("items", list(vec![s("x")]))]);
    let r = apply_one(base, overlay, &policies(&["items=prepend"])).unwrap();
    assert_eq!(r, map(vec![("items", list(vec![s("x"), s("a"), s("b"), s("a")]))]));
}

#[test]
fn table_merge_policy_keeps_other_tag() {
    let base = map(vec![("d", map(vec![("j", n(0))]))]);
    let overlay = map(vec![("d", tagged("!custom;merge:replace", map(vec![("k", n(1))])))]);
    let r = apply_one(base, overlay, &policies(&["d=merge"])).unwrap();
    assert_eq!(r, map(vec![("d", tagged("!custom", map(vec![("j", n(0)), ("k", n(1))])))]));
    let base = map(vec![("d", list(vec![s("a")]))]);
    let overlay = map(vec![("d", tagged("!custom;merge:replace", list(vec![s("b")])))]);
    let r = apply_one(base, overlay, &policies(&["d=merge"])).unwrap();
    assert_eq!(r, map(vec![("d", tagged("!custom", list(vec![s("a"), s("b")])))]));
}

#[test]
fn table_policy_ignores_inline_shape_check() {
    let base = map(vec![("c", map(vec![("a", n(1))]))]);
    let overlay = map(vec![("c", tagged("!merge:append", map(vec![("b", n(2))])))]);
    let r = apply_one(base, overlay, &policies(&["c=merge"])).unwrap();
    assert_eq!(r, map(vec![("c", map(vec![("a", n(1)), ("b", n(2))]))]));
}
