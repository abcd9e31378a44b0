use pieces::args::{Arg, ArgSettings, Output};
use pieces::commands::{Command, LookupError};
use pieces::parser::Parser;
use pieces::tokens::classify;
use pieces::FancyArgs;

fn toks(words: &[&str]) -> FancyArgs {
    FancyArgs::new(words.iter().map(|w| String::from(*w)).collect())
}

#[test]
fn classify_double_dash() {
    assert_eq!(classify(&String::from("--name")), (true, Some(String::from("name"))));
}

#[test]
fn classify_single_dash() {
    assert_eq!(classify(&String::from("-x")), (true, Some(String::from("x"))));
}

#[test]
fn classify_bare_value() {
    assert_eq!(classify(&String::from("plain")), (false, None));
}

#[test]
fn classify_lone_dash() {
    assert_eq!(classify(&String::from("-")), (true, Some(String::from(""))));
}

#[test]
fn classify_triple_dash_strips_two() {
    assert_eq!(classify(&String::from("---x")), (true, Some(String::from("-x"))));
}

#[test]
fn command_pass_records_span_and_positional() {
    let commands = vec![Command::new(String::from("set")).arg(Arg::new(String::from("home")))];
    let mut parser = Parser::build(toks(&["set", "home", "/tmp"]), None, Some(commands));
    let results = parser.parse_cmds();

    assert!(results.is_present(&String::from("set")));
    let outcome = results.value_of(&String::from("set")).unwrap();
    assert_eq!(outcome.range_start, 0);
    assert_eq!(outcome.range_end, 3);
    assert_eq!(
        outcome.present_args.get(&String::from("home")),
        Some(&Output { arg: String::from("home"), value: Some(String::from("/tmp")) })
    );
}

#[test]
fn command_lookup_error_when_absent() {
    let commands = vec![Command::new(String::from("set"))];
    let mut parser = Parser::build(toks(&["other"]), None, Some(commands));
    let results = parser.parse_cmds();
    assert!(!results.is_present(&String::from("set")));
    assert_eq!(results.value_of(&String::from("set")).err(), Some(LookupError::NotFound));
}

#[test]
fn command_without_captures_spans_one_token() {
    let commands = vec![Command::new(String::from("set"))];
    let mut parser = Parser::build(toks(&["set", "junk"]), None, Some(commands));
    let results = parser.parse_cmds();
    let outcome = results.value_of(&String::from("set")).unwrap();
    assert_eq!(outcome.range_start, 0);
    assert_eq!(outcome.range_end, 1);
}

#[test]
fn command_flag_capture_extends_span() {
    let commands = vec![
        Command::new(String::from("set")).arg(
            Arg::new(String::from("verbose")).long(String::from("verbose")),
        ),
    ];
    let mut parser = Parser::build(toks(&["set", "--verbose"]), None, Some(commands));
    let results = parser.parse_cmds();
    let outcome = results.value_of(&String::from("set")).unwrap();
    assert_eq!(outcome.range_start, 0);
    assert_eq!(outcome.range_end, 2);
    assert_eq!(
        outcome.present_flags.get_vec("verbose"),
        Some(&vec![Output { arg: String::from("verbose"), value: None }])
    );
}

#[test]
fn command_span_ends_at_next_command() {
    let commands =
        vec![Command::new(String::from("set")), Command::new(String::from("get"))];
    let mut parser = Parser::build(toks(&["set", "get"]), None, Some(commands));
    let results = parser.parse_cmds();
    let set_outcome = results.value_of(&String::from("set")).unwrap();
    assert_eq!(set_outcome.range_start, 0);
    assert_eq!(set_outcome.range_end, 1);
    let get_outcome = results.value_of(&String::from("get")).unwrap();
    assert_eq!(get_outcome.range_start, 1);
    assert_eq!(get_outcome.range_end, 2);
}

#[test]
fn repeated_command_keeps_later_span() {
    let commands = vec![Command::new(String::from("set"))];
    let mut parser = Parser::build(toks(&["set", "set"]), None, Some(commands));
    let results = parser.parse_cmds();
    let outcome = results.value_of(&String::from("set")).unwrap();
    assert_eq!(outcome.range_start, 1);
    assert_eq!(outcome.range_end, 2);
}

#[test]
fn flag_pass_plain_and_valued() {
    let args = vec![
        Arg::new(String::from("verbose")).long(String::from("verbose")),
        Arg::new(String::from("output")).short(String::from("o")).setting(
            ArgSettings::has_value(),
        ),
    ];
    let mut parser = Parser::build(toks(&["--verbose", "-o", "out.txt"]), Some(args), None);
    let flags = parser.parse_flags(None);

    assert_eq!(
        flags.get_vec("verbose"),
        Some(&vec![Output { arg: String::from("verbose"), value: None }])
    );
    assert_eq!(
        flags.get_vec("output"),
        Some(&vec![Output { arg: String::from("output"), value: Some(String::from("out.txt")) }])
    );
}

#[test]
fn flag_pass_multiple_accumulates_in_order() {
    let args = vec![
        Arg::new(String::from("tag"))
            .long(String::from("tag"))
            .setting(ArgSettings::multiple())
            .setting(ArgSettings::has_value()),
    ];
    let mut parser = Parser::build(toks(&["--tag", "a", "--tag", "b"]), Some(args), None);
    let flags = parser.parse_flags(None);

    assert_eq!(
        flags.get_vec("tag"),
        Some(&vec![
            Output { arg: String::from("tag"), value: Some(String::from("a")) },
            Output { arg: String::from("tag"), value: Some(String::from("b")) },
        ])
    );
}

#[test]
fn flag_pass_without_multiple_keeps_first() {
    let args = vec![
        Arg::new(String::from("output")).short(String::from("o")).setting(
            ArgSettings::has_value(),
        ),
    ];
    let mut parser = Parser::build(toks(&["-o", "a", "-o", "b"]), Some(args), None);
    let flags = parser.parse_flags(None);

    assert_eq!(
        flags.get_vec("output"),
        Some(&vec![Output { arg: String::from("output"), value: Some(String::from("a")) }])
    );
}

#[test]
fn flag_pass_ignores_unknown_flags() {
    let args = vec![Arg::new(String::from("verbose")).long(String::from("verbose"))];
    let mut parser = Parser::build(toks(&["--mystery"]), Some(args), None);
    let flags = parser.parse_flags(None);
    assert!(flags.is_empty());
}

#[test]
fn flag_pass_valued_flag_at_stream_end() {
    let args = vec![
        Arg::new(String::from("output")).short(String::from("o")).setting(
            ArgSettings::has_value(),
        ),
    ];
    let mut parser = Parser::build(toks(&["-o"]), Some(args), None);
    let flags = parser.parse_flags(None);
    assert_eq!(
        flags.get_vec("output"),
        Some(&vec![Output { arg: String::from("output"), value: None }])
    );
}

#[test]
fn value_pass_takes_next_token() {
    let args = vec![Arg::new(String::from("your-name"))];
    let mut parser = Parser::build(toks(&["Alice"]), Some(args), None);
    let given = parser.parse_args(None);
    assert_eq!(
        given.get(&String::from("your-name")),
        Some(&Output { arg: String::from("your-name"), value: Some(String::from("Alice")) })
    );
}

#[test]
fn value_pass_name_echo_takes_following_token() {
    let args = vec![Arg::new(String::from("home"))];
    let mut parser = Parser::build(toks(&["home", "/tmp"]), Some(args), None);
    let given = parser.parse_args(None);
    assert_eq!(
        given.get(&String::from("home")),
        Some(&Output { arg: String::from("home"), value: Some(String::from("/tmp")) })
    );
}

#[test]
fn value_pass_skips_exhausted_descriptors() {
    let args = vec![Arg::new(String::from("first")), Arg::new(String::from("second"))];
    let mut parser = Parser::build(toks(&["only"]), Some(args), None);
    let given = parser.parse_args(None);
    assert_eq!(
        given.get(&String::from("first")),
        Some(&Output { arg: String::from("first"), value: Some(String::from("only")) })
    );
    assert_eq!(given.get(&String::from("second")), None);
}

#[test]
fn value_pass_ignores_flagged_descriptors() {
    let args = vec![
        Arg::new(String::from("verbose")).long(String::from("verbose")),
        Arg::new(String::from("file")),
    ];
    let mut parser = Parser::build(toks(&["notes.txt"]), Some(args), None);
    let given = parser.parse_args(None);
    assert_eq!(given.get(&String::from("verbose")), None);
    assert_eq!(
        given.get(&String::from("file")),
        Some(&Output { arg: String::from("file"), value: Some(String::from("notes.txt")) })
    );
}

#[test]
fn build2_skips_program_name() {
    let args = vec![Arg::new(String::from("your-name"))];
    let mut parser = Parser::build2(toks(&["prog", "Alice"]), Some(args), None);
    let given = parser.parse_args(None);
    assert_eq!(
        given.get(&String::from("your-name")),
        Some(&Output { arg: String::from("your-name"), value: Some(String::from("Alice")) })
    );
}

#[test]
fn passes_share_one_cursor() {
    let args = vec![
        Arg::new(String::from("file")),
        Arg::new(String::from("verbose")).long(String::from("verbose")),
    ];
    let mut parser =
        Parser::build(toks(&["notes.txt", "--verbose"]), Some(args.clone()), None);
    let given = parser.parse_args(Some(&args));
    assert_eq!(
        given.get(&String::from("file")),
        Some(&Output { arg: String::from("file"), value: Some(String::from("notes.txt")) })
    );
    let flags = parser.parse_flags(Some(&args));
    assert_eq!(
        flags.get_vec("verbose"),
        Some(&vec![Output { arg: String::from("verbose"), value: None }])
    );
}

#[test]
fn joined_value_syntax_is_not_recognized() {
    let args = vec![
        Arg::new(String::from("output")).long(String::from("output")).setting(
            ArgSettings::has_value(),
        ),
    ];
    let mut parser = Parser::build(toks(&["--output=a.txt"]), Some(args), None);
    let flags = parser.parse_flags(None);
    assert_eq!(flags.get_vec("output"), None);
}
