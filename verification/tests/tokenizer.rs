use boj_shell::tokenize::{quote_argument, CommandParseError, RawCommand};

#[test]
fn parses_verb_and_positional_args() {
    let rc = RawCommand::parse("prob 1000").unwrap();
    assert!(!rc.shell);
    assert_eq!(rc.main_cmd, "prob");
    assert_eq!(rc.args, vec!["1000".to_string()]);
    assert!(rc.kwargs.is_empty());
}

#[test]
fn collapses_spaces_and_trims() {
    let rc = RawCommand::parse("   set    lang   Rust   ").unwrap();
    assert_eq!(rc.main_cmd, "set");
    assert_eq!(rc.args, vec!["lang".to_string(), "Rust".to_string()]);
}

#[test]
fn parses_keyword_arguments() {
    let rc = RawCommand::parse("submit l=Rust f=main.rs").unwrap();
    assert_eq!(rc.main_cmd, "submit");
    assert!(rc.args.is_empty());
    assert_eq!(
        rc.kwargs,
        vec![
            ("l".to_string(), "Rust".to_string()),
            ("f".to_string(), "main.rs".to_string())
        ]
    );
}

#[test]
fn parses_quoted_arguments_with_escapes() {
    let rc = RawCommand::parse(r#"set cmd 'a\\b \'c d'"#).unwrap();
    assert_eq!(rc.args[1], r#"a\b 'c d"#);
    let rc = RawCommand::parse(r#"set cmd "say \"hi\"""#).unwrap();
    assert_eq!(rc.args[1], r#"say "hi""#);
}

#[test]
fn quoted_keyword_value() {
    let rc = RawCommand::parse("run c='cargo run --release'").unwrap();
    assert_eq!(
        rc.kwargs,
        vec![("c".to_string(), "cargo run --release".to_string())]
    );
}

#[test]
fn quote_argument_round_trips_through_the_tokenizer() {
    // Escaping then tokenizing gives back the content, for both
    // quote characters and for content full of quotes/backslashes.
    let nasty = r#"a\b'c"d \\ e"#;
    for q in ['\'', '"'] {
        let quoted = quote_argument(nasty, q);
        let line = format!("set cmd {}", quoted);
        let rc = RawCommand::parse(&line).unwrap();
        assert_eq!(rc.args[1], nasty);
    }
}

#[test]
fn empty_input_is_a_parse_error() {
    assert!(matches!(
        RawCommand::parse(""),
        Err(CommandParseError::EmptyInput)
    ));
    assert!(matches!(
        RawCommand::parse("     "),
        Err(CommandParseError::EmptyInput)
    ));
    let e = RawCommand::parse("").unwrap_err();
    assert_eq!(e.message(), "Input is empty");
}

#[test]
fn shell_escape_takes_the_rest_of_the_line() {
    let rc = RawCommand::parse("$ ls  -la").unwrap();
    assert!(rc.shell);
    assert_eq!(rc.main_cmd, "ls  -la");
    assert!(rc.args.is_empty());
}

#[test]
fn shell_marker_needs_a_space() {
    let e = RawCommand::parse("$ls").unwrap_err();
    assert!(matches!(e, CommandParseError::ShellMarkerNoSpace));
    assert_eq!(e.message(), "There must be a space after the shell marker $");
    assert!(matches!(
        RawCommand::parse("$"),
        Err(CommandParseError::ShellMarkerNoSpace)
    ));
}

#[test]
fn verb_must_be_lowercase_letters() {
    let e = RawCommand::parse("run2").unwrap_err();
    match e {
        CommandParseError::CharAfterVerb { c, ref verb } => {
            assert_eq!(c, '2');
            assert_eq!(verb, "run");
        }
        _ => panic!("wrong error"),
    }
    assert_eq!(
        e.message(),
        "Unexpected non-whitespace character `2` after command name `run`"
    );
}

#[test]
fn unterminated_quote_is_a_parse_error() {
    let e = RawCommand::parse("run c='abc").unwrap_err();
    assert!(matches!(e, CommandParseError::UnterminatedQuote));
    assert_eq!(e.message(), "Unterminated quoted argument");
}

#[test]
fn bad_escape_is_a_parse_error() {
    let e = RawCommand::parse(r"run c='a\x'").unwrap_err();
    match e {
        CommandParseError::BadEscape { c } => assert_eq!(c, 'x'),
        _ => panic!("wrong error"),
    }
}

#[test]
fn quote_in_the_middle_of_a_token_is_an_error() {
    let e = RawCommand::parse("run a'b").unwrap_err();
    match e {
        CommandParseError::QuoteInUnquoted { c } => assert_eq!(c, '\''),
        _ => panic!("wrong error"),
    }
}

#[test]
fn text_right_after_a_quoted_argument_is_an_error() {
    let e = RawCommand::parse("set cmd 'ab'x").unwrap_err();
    match e {
        CommandParseError::CharAfterQuotedArg { c } => assert_eq!(c, 'x'),
        _ => panic!("wrong error"),
    }
}

#[test]
fn positional_after_keyword_is_rejected() {
    let e = RawCommand::parse("build c=1 stray").unwrap_err();
    assert!(matches!(e, CommandParseError::PositionalAfterKeyword));
}

#[test]
fn empty_keyword_value_is_allowed() {
    let rc = RawCommand::parse("run c=").unwrap();
    assert_eq!(rc.kwargs, vec![("c".to_string(), String::new())]);
}
