use pieces::args::{Arg, ArgSettings};
use pieces::commands::Command;
use pieces::parser::{Parser, ParserSettings};
use pieces::FancyArgs;

#[test]
fn basic_parser() {
    let correct_out = Parser {
        raw_args: FancyArgs::new(vec![]),
        args: vec![],
        commands: vec![],
        settings: ParserSettings::empty(),
    };

    assert_eq!(Parser::build(FancyArgs::new(vec![]), None, None), correct_out);
}

#[test]
fn parser_command_name_comparison() {
    let commands = vec![Command::new(String::from("set")), Command::new(String::from("set"))];

    let parser = Parser::build(FancyArgs::new(vec![]), None, Some(commands));
    assert_eq!(
        parser.check_command_names(),
        (
            true,
            Some(&Command { name: String::from("set"), args: vec![], help: None }),
            Some(&Command { name: String::from("set"), args: vec![], help: None })
        )
    );
}

#[test]
fn parser_command_uniqueness() {
    let commands = vec![Command::new(String::from("set")), Command::new(String::from("set"))];

    let parser = Parser::build(FancyArgs::new(vec![]), None, Some(commands));
    assert_eq!(
        parser.check_uniqueness(&parser.commands),
        (true, Some(&Command { name: String::from("set"), args: vec![], help: None }))
    );
}

#[test]
fn parser_command_uniqueness_1() {
    let commands = vec![Command::new(String::from("set")), Command::new(String::from("set_home"))];

    let parser = Parser::build(FancyArgs::new(vec![]), None, Some(commands));
    assert_eq!(parser.check_uniqueness(&parser.commands), (false, None));
}

#[test]
fn parser_arg_uniqueness() {
    let args = vec![
        Arg::new(String::from("Foo")).long(String::from("Bar")).short(String::from("F")),
        Arg::new(String::from("Foo")).long(String::from("Bar")).short(String::from("F")),
    ];

    let parser = Parser::build(FancyArgs::new(vec![]), Some(args), None);
    assert_eq!(
        parser.check_uniqueness(&parser.args),
        (
            true,
            Some(&Arg {
                name: String::from("Foo"),
                short: Some(String::from("F")),
                long: Some(String::from("Bar")),
                settings: ArgSettings::empty(),
                help: None
            })
        )
    );
}

#[test]
fn parser_arg_uniqueness_1() {
    let args = vec![
        Arg::new(String::from("Foo")).long(String::from("Bar")).short(String::from("F")),
        Arg::new(String::from("Bar")).long(String::from("Foo")).short(String::from("B")),
    ];

    let parser = Parser::build(FancyArgs::new(vec![]), Some(args), None);
    assert_eq!(parser.check_uniqueness(&parser.args), (false, None));
}

#[test]
fn arg_names_collision_is_reported() {
    let args = vec![
        Arg::new(String::from("verbose")).long(String::from("loud")),
        Arg::new(String::from("volume")).long(String::from("loud")),
    ];
    let parser = Parser::build(FancyArgs::new(vec![]), Some(args), None);
    let (hit, first, second) = parser.check_arg_names();
    assert!(hit);
    assert_eq!(first.unwrap().name, String::from("verbose"));
    assert_eq!(second.unwrap().name, String::from("volume"));
}

#[test]
fn arg_names_multiple_suppresses_collision() {
    let args = vec![
        Arg::new(String::from("verbose")).long(String::from("loud")).set(ArgSettings::multiple()),
        Arg::new(String::from("volume")).long(String::from("loud")).set(ArgSettings::multiple()),
    ];
    let parser = Parser::build(FancyArgs::new(vec![]), Some(args), None);
    assert_eq!(parser.check_arg_names(), (false, None, None));
}

#[test]
fn arg_names_distinct_args_pass() {
    let args = vec![
        Arg::new(String::from("verbose")).long(String::from("verbose")).short(String::from("v")),
        Arg::new(String::from("output")).long(String::from("output")).short(String::from("o")),
    ];
    let parser = Parser::build(FancyArgs::new(vec![]), Some(args), None);
    assert_eq!(parser.check_arg_names(), (false, None, None));
}

#[test]
fn required_bare_token_satisfies() {
    let args = vec![Arg::new(String::from("force")).set(ArgSettings::required())];
    let parser =
        Parser::build(FancyArgs::new(vec![String::from("force")]), Some(args), None);
    assert_eq!(parser.check_required_args(None), (false, None));
}

#[test]
fn required_dashed_token_satisfies() {
    let args = vec![Arg::new(String::from("force")).set(ArgSettings::required())];
    let parser =
        Parser::build(FancyArgs::new(vec![String::from("--force")]), Some(args), None);
    assert_eq!(parser.check_required_args(None), (false, None));
}

#[test]
fn required_short_alias_satisfies() {
    let args =
        vec![Arg::new(String::from("force")).short(String::from("f")).set(ArgSettings::required())];
    let parser = Parser::build(FancyArgs::new(vec![String::from("-f")]), Some(args), None);
    assert_eq!(parser.check_required_args(None), (false, None));
}

#[test]
fn required_missing_is_reported() {
    let args = vec![Arg::new(String::from("force")).set(ArgSettings::required())];
    let parser =
        Parser::build(FancyArgs::new(vec![String::from("other")]), Some(args), None);
    let (missing, first) = parser.check_required_args(None);
    assert!(missing);
    assert_eq!(first.unwrap().name, String::from("force"));
}
