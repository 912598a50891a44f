use xenv::{parse_value, Error, EnvMap, SubstTable};

#[test]
fn plain_value_copied() {
    let env = EnvMap::new();
    let tbl = SubstTable::new();
    assert_eq!(parse_value("bar", &env, &tbl).unwrap(), "bar");
}

#[test]
fn single_quoted_is_literal() {
    let env = EnvMap::new();
    let tbl = SubstTable::new();
    assert_eq!(parse_value("'a\\n$X'", &env, &tbl).unwrap(), "a\\n$X");
}

#[test]
fn unquoted_backslash_n_is_newline() {
    let env = EnvMap::new();
    let tbl = SubstTable::new();
    assert_eq!(parse_value("a\\nb", &env, &tbl).unwrap(), "a\nb");
}

#[test]
fn escaped_dollar_is_literal() {
    let env = EnvMap::new();
    let tbl = SubstTable::new();
    assert_eq!(parse_value("\\$HOME", &env, &tbl).unwrap(), "$HOME");
}

#[test]
fn weak_quote_keeps_spaces() {
    let env = EnvMap::new();
    let tbl = SubstTable::new();
    assert_eq!(parse_value("\"a b\"", &env, &tbl).unwrap(), "a b");
}

#[test]
fn weak_quote_escaped_quote() {
    let env = EnvMap::new();
    let tbl = SubstTable::new();
    assert_eq!(parse_value("\"a\\\"b\"", &env, &tbl).unwrap(), "a\"b");
}

#[test]
fn adjacent_quoted_spans_concatenate() {
    let env = EnvMap::new();
    let tbl = SubstTable::new();
    assert_eq!(parse_value("'a'b\"c\"", &env, &tbl).unwrap(), "abc");
}

#[test]
fn braced_substitution_from_table() {
    let env = EnvMap::new();
    let mut tbl = SubstTable::new();
    tbl.insert("NAME".to_string(), Some("val".to_string()));
    assert_eq!(parse_value("${NAME}", &env, &tbl).unwrap(), "val");
}

#[test]
fn bare_substitution_mid_value() {
    let env = EnvMap::new();
    let mut tbl = SubstTable::new();
    tbl.insert("A".to_string(), Some("1".to_string()));
    assert_eq!(parse_value("$A-x", &env, &tbl).unwrap(), "1-x");
}

#[test]
fn dollar_at_end_flushes_empty_name() {
    let env = EnvMap::new();
    let tbl = SubstTable::new();
    assert_eq!(parse_value("a$", &env, &tbl).unwrap(), "a");
}

#[test]
fn undefined_name_is_empty() {
    let env = EnvMap::new();
    let tbl = SubstTable::new();
    assert_eq!(parse_value("${UNDEFINED_NAME}", &env, &tbl).unwrap(), "");
}

#[test]
fn environment_beats_table() {
    let mut env = EnvMap::new();
    env.insert("X".to_string(), "envval".to_string());
    let mut tbl = SubstTable::new();
    tbl.insert("X".to_string(), Some("fileval".to_string()));
    assert_eq!(parse_value("$X", &env, &tbl).unwrap(), "envval");
}

#[test]
fn empty_environment_value_still_wins() {
    let mut env = EnvMap::new();
    env.insert("X".to_string(), "".to_string());
    let mut tbl = SubstTable::new();
    tbl.insert("X".to_string(), Some("fileval".to_string()));
    assert_eq!(parse_value("$X", &env, &tbl).unwrap(), "");
}

#[test]
fn none_entry_resolves_empty() {
    let env = EnvMap::new();
    let mut tbl = SubstTable::new();
    tbl.insert("A".to_string(), None);
    assert_eq!(parse_value("x${A}y", &env, &tbl).unwrap(), "xy");
}

#[test]
fn braced_name_may_hold_punctuation() {
    let env = EnvMap::new();
    let mut tbl = SubstTable::new();
    tbl.insert("A.B".to_string(), Some("1".to_string()));
    assert_eq!(parse_value("${A.B}", &env, &tbl).unwrap(), "1");
}

#[test]
fn nonascii_alphanumerics_extend_a_bare_name() {
    let env = EnvMap::new();
    let mut tbl = SubstTable::new();
    tbl.insert("a".to_string(), Some("seen".to_string()));
    // 'é' is alphanumeric, so the name is "aé", not "a" then a literal 'é'.
    assert_eq!(parse_value("$aé", &env, &tbl).unwrap(), "");
}

#[test]
fn value_ends_at_whitespace_then_comment() {
    let env = EnvMap::new();
    let tbl = SubstTable::new();
    assert_eq!(parse_value("v \t# trailing", &env, &tbl).unwrap(), "v");
}

#[test]
fn hash_without_space_stays_in_value() {
    let env = EnvMap::new();
    let tbl = SubstTable::new();
    assert_eq!(parse_value("v#comment", &env, &tbl).unwrap(), "v#comment");
}

#[test]
fn trailing_garbage_is_an_error() {
    let env = EnvMap::new();
    let tbl = SubstTable::new();
    match parse_value("value extra", &env, &tbl) {
        Err(Error::LineParse(line, idx)) => {
            assert_eq!(line, "value extra");
            assert_eq!(idx, 6);
        },
        _ => panic!("expected a parse error"),
    }
}

#[test]
fn invalid_escape_is_an_error() {
    let env = EnvMap::new();
    let tbl = SubstTable::new();
    match parse_value("\\x", &env, &tbl) {
        Err(Error::LineParse(line, idx)) => {
            assert_eq!(line, "\\x");
            assert_eq!(idx, 1);
        },
        _ => panic!("expected a parse error"),
    }
}

#[test]
fn unterminated_single_quote_is_an_error() {
    let env = EnvMap::new();
    let tbl = SubstTable::new();
    match parse_value("'abc", &env, &tbl) {
        Err(Error::LineParse(line, idx)) => {
            assert_eq!(line, "'abc");
            assert_eq!(idx, 3);
        },
        _ => panic!("expected a parse error"),
    }
}

#[test]
fn unterminated_double_quote_is_an_error() {
    let env = EnvMap::new();
    let tbl = SubstTable::new();
    assert!(matches!(parse_value("\"abc", &env, &tbl), Err(Error::LineParse(_, 3))));
}

#[test]
fn unterminated_braced_block_is_an_error() {
    let env = EnvMap::new();
    let tbl = SubstTable::new();
    assert!(matches!(parse_value("${A", &env, &tbl), Err(Error::LineParse(_, 2))));
}
