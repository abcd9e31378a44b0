use pieces::args::{Arg, ArgSettings};

#[test]
fn basic_arg() {
    let correct_out = Arg {
        name: String::from("Foo"),
        help: Some(String::from("Bar")),
        long: None,
        short: None,
        settings: ArgSettings::empty(),
    };
    assert_eq!(Arg::new(String::from("Foo")).help(String::from("Bar")), correct_out);
}

#[test]
fn long_arg() {
    let correct_out = Arg {
        name: String::from("Foo"),
        help: Some(String::from("Bar")),
        long: Some(String::from("Snack")),
        short: None,
        settings: ArgSettings::empty(),
    };
    assert_eq!(
        Arg::new(String::from("Foo")).help(String::from("Bar")).long(String::from("Snack")),
        correct_out
    );
}

#[test]
fn short_arg() {
    let correct_out = Arg {
        name: String::from("Foo"),
        help: Some(String::from("Bar")),
        long: Some(String::from("Snack")),
        short: Some(String::from("Bar")),
        settings: ArgSettings::empty(),
    };
    assert_eq!(
        Arg::new(String::from("Foo"))
            .help(String::from("Bar"))
            .long(String::from("Snack"))
            .short(String::from("Bar")),
        correct_out
    );
}

#[test]
fn builder_reads_back_every_field() {
    let a = Arg::new(String::from("name"))
        .long(String::from("the-long"))
        .short(String::from("n"))
        .help(String::from("the help"));
    assert_eq!(a.name, String::from("name"));
    assert_eq!(a.long, Some(String::from("the-long")));
    assert_eq!(a.short, Some(String::from("n")));
    assert_eq!(a.help, Some(String::from("the help")));
    assert_eq!(a.settings, ArgSettings::empty());
}

#[test]
fn settings_accumulate() {
    let a = Arg::new(String::from("tag")).set(ArgSettings::multiple()).set(
        ArgSettings::has_value(),
    );
    assert!(a.settings.contains(ArgSettings::multiple()));
    assert!(a.settings.contains(ArgSettings::has_value()));
    assert!(!a.settings.contains(ArgSettings::required()));
}

#[test]
fn builder_overwrites_on_repeat() {
    let a = Arg::new(String::from("name")).short(String::from("a")).short(String::from("b"));
    assert_eq!(a.short, Some(String::from("b")));
}
