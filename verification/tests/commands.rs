use mosaic::command::{parse_command, Command};

#[test]
fn quitting() {
    assert_eq!(parse_command("q"), Command::Quit);
    assert_eq!(parse_command("q now"), Command::Quit);
    assert_eq!(parse_command("q!"), Command::ForceQuit);
    assert_eq!(parse_command("q! x"), Command::ForceQuit);
    assert_eq!(parse_command("qq"), Command::Unknown);
    assert_eq!(parse_command(" q"), Command::Unknown);
}

#[test]
fn writing() {
    assert_eq!(parse_command("w"), Command::Write(None));
    assert_eq!(parse_command("w notes.txt"), Command::Write(Some("notes.txt".to_string())));
    assert_eq!(parse_command("w a b"), Command::Write(Some("a".to_string())));
    assert_eq!(parse_command("w "), Command::Write(Some("".to_string())));
    assert_eq!(parse_command("w  x"), Command::Write(Some("".to_string())));
    assert_eq!(parse_command("wq"), Command::Unknown);
}

#[test]
fn finding() {
    assert_eq!(parse_command("f"), Command::Find);
    assert_eq!(parse_command("f word"), Command::Find);
}

#[test]
fn running_in_the_shell() {
    assert_eq!(parse_command("1ls -la"), Command::Shell("ls -la".to_string()));
    assert_eq!(parse_command("1"), Command::Shell("".to_string()));
    assert_eq!(parse_command("1 echo hi"), Command::Shell(" echo hi".to_string()));
    assert_eq!(parse_command("1é"), Command::Shell("é".to_string()));
}

#[test]
fn running_a_local_program() {
    assert_eq!(parse_command("3build"), Command::Local("build".to_string()));
    assert_eq!(parse_command("333run now"), Command::Local("run".to_string()));
    assert_eq!(parse_command("3"), Command::Local("".to_string()));
    assert_eq!(parse_command("3a3"), Command::Local("a3".to_string()));
}

#[test]
fn anything_else_is_unknown() {
    assert_eq!(parse_command(""), Command::Unknown);
    assert_eq!(parse_command("x"), Command::Unknown);
    assert_eq!(parse_command("2x"), Command::Unknown);
    assert_eq!(parse_command("Q"), Command::Unknown);
}
