use xenv::{parse_line, Error, EnvMap, SubstTable};

#[test]
fn simple_assignment() {
    let env = EnvMap::new();
    let mut tbl = SubstTable::new();
    let r = parse_line("FOO=bar", &env, &mut tbl).unwrap();
    assert_eq!(r, Some(("FOO".to_string(), "bar".to_string())));
}

#[test]
fn export_prefix_with_spaces() {
    let env = EnvMap::new();
    let mut tbl = SubstTable::new();
    let r = parse_line("export BAR = baz", &env, &mut tbl).unwrap();
    assert_eq!(r, Some(("BAR".to_string(), "baz".to_string())));
}

#[test]
fn export_itself_is_assignable() {
    let env = EnvMap::new();
    let mut tbl = SubstTable::new();
    let r = parse_line("export=value", &env, &mut tbl).unwrap();
    assert_eq!(r, Some(("export".to_string(), "value".to_string())));
}

#[test]
fn blank_line_yields_nothing() {
    let env = EnvMap::new();
    let mut tbl = SubstTable::new();
    assert_eq!(parse_line("", &env, &mut tbl).unwrap(), None);
    assert_eq!(parse_line("   \t  ", &env, &mut tbl).unwrap(), None);
}

#[test]
fn comment_line_yields_nothing() {
    let env = EnvMap::new();
    let mut tbl = SubstTable::new();
    assert_eq!(parse_line("# just a comment", &env, &mut tbl).unwrap(), None);
    assert_eq!(parse_line("   # indented comment", &env, &mut tbl).unwrap(), None);
}

#[test]
fn whitespace_around_key_and_equals() {
    let env = EnvMap::new();
    let mut tbl = SubstTable::new();
    let r = parse_line("  KEY = v", &env, &mut tbl).unwrap();
    assert_eq!(r, Some(("KEY".to_string(), "v".to_string())));
}

#[test]
fn empty_value_assignment() {
    let env = EnvMap::new();
    let mut tbl = SubstTable::new();
    let r = parse_line("K=", &env, &mut tbl).unwrap();
    assert_eq!(r, Some(("K".to_string(), "".to_string())));
}

#[test]
fn comment_only_value_is_empty() {
    let env = EnvMap::new();
    let mut tbl = SubstTable::new();
    let r = parse_line("K= # note", &env, &mut tbl).unwrap();
    assert_eq!(r, Some(("K".to_string(), "".to_string())));
}

#[test]
fn assignment_records_into_table() {
    let env = EnvMap::new();
    let mut tbl = SubstTable::new();
    parse_line("A=1", &env, &mut tbl).unwrap();
    assert_eq!(tbl.get("A"), Some(Some("1".to_string())));
    parse_line("B=", &env, &mut tbl).unwrap();
    assert_eq!(tbl.get("B"), Some(None));
    assert_eq!(tbl.get("C"), None);
}

#[test]
fn trailing_comment_after_value() {
    let env = EnvMap::new();
    let mut tbl = SubstTable::new();
    let r = parse_line("KEY=value # comment", &env, &mut tbl).unwrap();
    assert_eq!(r, Some(("KEY".to_string(), "value".to_string())));
}

#[test]
fn trailing_text_without_hash_fails() {
    let env = EnvMap::new();
    let mut tbl = SubstTable::new();
    match parse_line("KEY=value extra", &env, &mut tbl) {
        Err(Error::LineParse(line, idx)) => {
            assert_eq!(line, "value extra");
            assert_eq!(idx, 6);
        },
        _ => panic!("expected a parse error"),
    }
}

#[test]
fn invalid_key_start_fails_at_position() {
    let env = EnvMap::new();
    let mut tbl = SubstTable::new();
    match parse_line("1KEY=x", &env, &mut tbl) {
        Err(Error::LineParse(line, idx)) => {
            assert_eq!(line, "1KEY=x");
            assert_eq!(idx, 0);
        },
        _ => panic!("expected a parse error"),
    }
}

#[test]
fn missing_equals_fails() {
    let env = EnvMap::new();
    let mut tbl = SubstTable::new();
    match parse_line("KEY", &env, &mut tbl) {
        Err(Error::LineParse(line, idx)) => {
            assert_eq!(line, "KEY");
            assert_eq!(idx, 3);
        },
        _ => panic!("expected a parse error"),
    }
}

#[test]
fn export_without_assignment_fails() {
    let env = EnvMap::new();
    let mut tbl = SubstTable::new();
    match parse_line("export", &env, &mut tbl) {
        Err(Error::LineParse(line, idx)) => {
            assert_eq!(line, "export");
            assert_eq!(idx, 6);
        },
        _ => panic!("expected a parse error"),
    }
}

#[test]
fn failed_line_leaves_table_alone() {
    let env = EnvMap::new();
    let mut tbl = SubstTable::new();
    assert!(parse_line("KEY='open", &env, &mut tbl).is_err());
    assert_eq!(tbl.get("KEY"), None);
}

#[test]
fn trailing_unicode_whitespace_is_trimmed() {
    let env = EnvMap::new();
    let mut tbl = SubstTable::new();
    let r = parse_line("K=v\u{00A0}", &env, &mut tbl).unwrap();
    assert_eq!(r, Some(("K".to_string(), "v".to_string())));
}

#[test]
fn unicode_whitespace_after_equals_is_skipped() {
    let env = EnvMap::new();
    let mut tbl = SubstTable::new();
    let r = parse_line("K=\u{3000}x", &env, &mut tbl).unwrap();
    assert_eq!(r, Some(("K".to_string(), "x".to_string())));
}

#[test]
fn key_may_hold_dots_and_underscores() {
    let env = EnvMap::new();
    let mut tbl = SubstTable::new();
    let r = parse_line("_a.b_1=x", &env, &mut tbl).unwrap();
    assert_eq!(r, Some(("_a.b_1".to_string(), "x".to_string())));
}
