use xenv::{parse_lines, Error, EnvMap};

#[test]
fn single_line_file() {
    let env = EnvMap::new();
    let lines = vec!["FOO=bar".to_string()];
    let map = parse_lines(&lines, &env).unwrap();
    assert_eq!(map.get("FOO"), Some("bar".to_string()));
    assert_eq!(map.get("BAR"), None);
}

#[test]
fn blank_and_comment_lines_add_nothing() {
    let env = EnvMap::new();
    let lines = vec![
        "".to_string(),
        "# just a comment".to_string(),
        "A=1".to_string(),
        "   ".to_string(),
    ];
    let map = parse_lines(&lines, &env).unwrap();
    assert_eq!(map.entries().len(), 1);
    assert_eq!(map.get("A"), Some("1".to_string()));
}

#[test]
fn later_assignment_wins() {
    let env = EnvMap::new();
    let lines = vec!["K=1".to_string(), "K=2".to_string()];
    let map = parse_lines(&lines, &env).unwrap();
    assert_eq!(map.get("K"), Some("2".to_string()));
}

#[test]
fn backward_reference_resolves() {
    let env = EnvMap::new();
    let lines = vec!["A=1".to_string(), "B=$A".to_string()];
    let map = parse_lines(&lines, &env).unwrap();
    assert_eq!(map.get("B"), Some("1".to_string()));
}

#[test]
fn forward_reference_is_empty() {
    let env = EnvMap::new();
    let lines = vec!["C=$D".to_string(), "D=later".to_string()];
    let map = parse_lines(&lines, &env).unwrap();
    assert_eq!(map.get("C"), Some("".to_string()));
    assert_eq!(map.get("D"), Some("later".to_string()));
}

#[test]
fn environment_wins_over_earlier_line() {
    let mut env = EnvMap::new();
    env.insert("X".to_string(), "envval".to_string());
    let lines = vec!["X=fileval".to_string(), "Y=$X".to_string()];
    let map = parse_lines(&lines, &env).unwrap();
    assert_eq!(map.get("X"), Some("fileval".to_string()));
    assert_eq!(map.get("Y"), Some("envval".to_string()));
}

#[test]
fn single_quoted_reference_stays_literal() {
    let env = EnvMap::new();
    let lines = vec!["A='$B'".to_string(), "C=$A".to_string()];
    let map = parse_lines(&lines, &env).unwrap();
    assert_eq!(map.get("A"), Some("$B".to_string()));
    // C substitutes A's resolved value: the literal text "$B".
    assert_eq!(map.get("C"), Some("$B".to_string()));
}

#[test]
fn bare_reference_ended_by_closing_quote_fails() {
    let env = EnvMap::new();
    // Inside "..." a bare $A swallows the closing quote as its
    // terminator, so the quote never closes: a parse error.
    let lines = vec!["A='$B'".to_string(), "C=\"$A\"".to_string()];
    match parse_lines(&lines, &env) {
        Err(Error::LineParse(line, idx)) => {
            assert_eq!(line, "\"$A\"");
            assert_eq!(idx, 3);
        },
        _ => panic!("expected a parse error"),
    }
}

#[test]
fn braced_reference_inside_quotes_resolves() {
    let env = EnvMap::new();
    let lines = vec!["A='$B'".to_string(), "C=\"${A}\"".to_string()];
    let map = parse_lines(&lines, &env).unwrap();
    assert_eq!(map.get("C"), Some("$B".to_string()));
}

#[test]
fn undefined_braced_name_is_empty() {
    let env = EnvMap::new();
    let lines = vec!["D=${UNDEFINED_NAME}".to_string()];
    let map = parse_lines(&lines, &env).unwrap();
    assert_eq!(map.get("D"), Some("".to_string()));
}

#[test]
fn literal_backslash_n_becomes_newline() {
    let env = EnvMap::new();
    let lines = vec!["E=a\\nb".to_string()];
    let map = parse_lines(&lines, &env).unwrap();
    assert_eq!(map.get("E"), Some("a\nb".to_string()));
}

#[test]
fn first_error_aborts_whole_parse() {
    let env = EnvMap::new();
    let lines = vec!["A=1".to_string(), "2BAD=x".to_string(), "B=2".to_string()];
    assert!(matches!(parse_lines(&lines, &env), Err(Error::LineParse(_, 0))));
}

#[test]
fn entries_keep_file_order() {
    let env = EnvMap::new();
    let lines = vec!["B=2".to_string(), "A=1".to_string()];
    let map = parse_lines(&lines, &env).unwrap();
    let entries = map.entries();
    assert_eq!(entries[0], ("B".to_string(), "2".to_string()));
    assert_eq!(entries[1], ("A".to_string(), "1".to_string()));
}

#[test]
fn chained_references_accumulate() {
    let env = EnvMap::new();
    let lines = vec![
        "A=a".to_string(),
        "B=${A}b".to_string(),
        "C=$B$A".to_string(),
    ];
    let map = parse_lines(&lines, &env).unwrap();
    assert_eq!(map.get("C"), Some("aba".to_string()));
}
