use sw::command::Command;

#[test]
fn command_names() {
    assert_eq!(Command::Help.as_str(), "h");
    assert_eq!(Command::Display.as_str(), "");
    assert_eq!(Command::Toggle.as_str(), "s");
    assert_eq!(Command::Quit.as_str(), "q");
}

#[test]
fn command_lookup() {
    assert_eq!(Command::from_name("s"), Some(Command::Toggle));
    assert_eq!(Command::from_name(""), Some(Command::Display));
    assert_eq!(Command::from_name("q"), Some(Command::Quit));
    assert_eq!(Command::from_name("x"), None);
    assert_eq!(Command::from_name("help"), None);
    assert_eq!(Command::all().len(), 10);
}
