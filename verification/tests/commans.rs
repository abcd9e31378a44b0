use pieces::args::{Arg, ArgSettings};
use pieces::commands::Command;

#[test]
fn basic_command() {
    let correct_out = Command { name: String::from("set"), help: None, args: vec![] };

    assert_eq!(Command::new(String::from("set")), correct_out);
}

#[test]
fn command_with_args() {
    let correct_out = Command {
        name: String::from("set"),
        help: None,
        args: vec![
            Arg::new(String::from("home"))
                .long(String::from("home"))
                .short(String::from("h"))
                .help(String::from("Sets your home!"))
                .setting(ArgSettings::required()),
        ],
    };

    assert_eq!(
        Command::new(String::from("set")).arg(
            Arg::new(String::from("home"))
                .long(String::from("home"))
                .short(String::from("h"))
                .help(String::from("Sets your home!"))
                .setting(ArgSettings::required())
        ),
        correct_out
    );
}

#[test]
fn command_help_is_kept() {
    let c = Command::new(String::from("set")).help(String::from("Sets things."));
    assert_eq!(c.help, Some(String::from("Sets things.")));
    assert_eq!(c.name, String::from("set"));
    assert_eq!(c.args, vec![]);
}

#[test]
fn command_args_replaces_the_set() {
    let c = Command::new(String::from("set"))
        .arg(Arg::new(String::from("old")))
        .args(vec![Arg::new(String::from("a")), Arg::new(String::from("b"))]);
    assert_eq!(c.args, vec![Arg::new(String::from("a")), Arg::new(String::from("b"))]);
}
