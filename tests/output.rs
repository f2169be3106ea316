use shyaml_rs::cli::{
    is_line_buffered, is_readonly_action, is_yaml_output, normalize_iter_action,
    split_compound_args, Actions, Args, IterKind, OutputPolicy, Separator,
};

#[test]
fn test_separator_as_str() {
    assert_eq!(Separator::Newline.as_str(), "\n");
    assert_eq!(Separator::Nul.as_str(), "\0");
}

#[test]
fn test_output_policy_constructors() {
    let policy = OutputPolicy::newline(true);
    assert_eq!(policy.separator, Separator::Newline);
    assert!(policy.yaml_mode);

    let policy = OutputPolicy::nul(false);
    assert_eq!(policy.separator, Separator::Nul);
    assert!(!policy.yaml_mode);
}

fn args_with(action: Option<Actions>, yaml: bool) -> Args {
    Args {
        color: false,
        no_color: false,
        version: false,
        log_time: false,
        verbose: 0,
        log: None,
        quiet: false,
        yaml,
        action,
    }
}

#[test]
fn iter_action_of_nul_variant() {
    let action = Actions::Keys0 { path: Some("a.b".to_string()), yaml: false };
    let it = normalize_iter_action(&action, true).unwrap();
    assert_eq!(it.kind, IterKind::Keys);
    assert_eq!(it.path, Some("a.b".to_string()));
    assert_eq!(it.policy, OutputPolicy::nul(true));
    let action = Actions::GetValues { path: None, yaml: true };
    let it = normalize_iter_action(&action, false).unwrap();
    assert_eq!(it.kind, IterKind::GetValues);
    assert_eq!(it.policy, OutputPolicy::newline(true));
    assert!(normalize_iter_action(&Actions::Del { key: "a".to_string() }, false).is_none());
}

#[test]
fn readonly_and_output_modes() {
    assert!(is_readonly_action(&Some(Actions::GetType { path: None })));
    assert!(is_readonly_action(&Some(Actions::Values0 { path: None, yaml: false })));
    assert!(!is_readonly_action(&Some(Actions::Del { key: "a".to_string() })));
    assert!(!is_readonly_action(&None));
    let get = Actions::GetValue { path: None, default: None, yaml: true, line_buffer: true };
    let cli = args_with(Some(get), false);
    assert!(is_line_buffered(&cli));
    assert!(is_yaml_output(&cli));
    let cli = args_with(Some(Actions::GetLength { path: None }), false);
    assert!(!is_line_buffered(&cli));
    assert!(!is_yaml_output(&cli));
    assert!(is_yaml_output(&args_with(None, true)));
}

fn strs(v: &[&str]) -> Vec<String> {
    v.iter().map(|s| s.to_string()).collect()
}

#[test]
fn compound_args_split_on_semicolons() {
    let groups = split_compound_args(strs(&["shyaml", "set-value", "b", "2", ";", "del", "a"]));
    assert_eq!(groups, vec![strs(&["shyaml", "set-value", "b", "2"]), strs(&["shyaml", "del", "a"])]);
    let groups = split_compound_args(strs(&["shyaml", ";", ";", "keys", ";"]));
    assert_eq!(groups, vec![strs(&["shyaml", "keys"])]);
    assert!(split_compound_args(Vec::new()).is_empty());
}

#[test]
fn test_backslash_semicolon_is_not_separator() {
    let groups = split_compound_args(strs(&["shyaml", "set-value", "b", "2", r"\;", "set-value", "c", "3"]));
    assert_eq!(groups.len(), 1);
    assert_eq!(groups[0].len(), 8);
}
