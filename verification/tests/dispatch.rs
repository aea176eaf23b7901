use mosaic::config::Config;
use mosaic::cursor::CursorMove;
use mosaic::dispatch::{action_for, Action};
use mosaic::mode::Mode;

fn keys(names: &[&str]) -> Vec<String> {
    names.iter().map(|k| k.to_string()).collect()
}

#[test]
fn escape_enters_normal_mode_from_every_mode() {
    let config = Config::default();
    for mode in [Mode::Normal, Mode::Insert, Mode::Command] {
        assert_eq!(action_for(&config, mode, &keys(&["esc"])), Action::EnterNormalMode);
    }
}

#[test]
fn bindings_of_normal_mode() {
    let config = Config::default();
    let normal = Mode::Normal;
    assert_eq!(action_for(&config, normal, &keys(&["i"])), Action::EnterInsertMode);
    assert_eq!(action_for(&config, normal, &keys(&["q"])), Action::EnterCommandMode);
    assert_eq!(action_for(&config, normal, &keys(&["j"])), Action::Move(CursorMove::Back));
    assert_eq!(action_for(&config, normal, &keys(&["left"])), Action::Move(CursorMove::Back));
    assert_eq!(action_for(&config, normal, &keys(&["ø"])), Action::Move(CursorMove::Forward));
    assert_eq!(action_for(&config, normal, &keys(&["k"])), Action::Move(CursorMove::Up));
    assert_eq!(action_for(&config, normal, &keys(&["l"])), Action::Move(CursorMove::Down));
    assert_eq!(action_for(&config, normal, &keys(&["x"])), Action::Unbound);
    assert_eq!(action_for(&config, normal, &keys(&["ctrl", "left"])), Action::Unbound);
    assert_eq!(action_for(&config, normal, &keys(&[])), Action::Unbound);
}

#[test]
fn bindings_of_insert_mode() {
    let config = Config::default();
    let insert = Mode::Insert;
    assert_eq!(action_for(&config, insert, &keys(&["left"])), Action::Move(CursorMove::Back));
    assert_eq!(action_for(&config, insert, &keys(&["right"])), Action::Move(CursorMove::Forward));
    assert_eq!(action_for(&config, insert, &keys(&["up"])), Action::Move(CursorMove::Up));
    assert_eq!(action_for(&config, insert, &keys(&["down"])), Action::Move(CursorMove::Down));
    assert_eq!(
        action_for(&config, insert, &keys(&["left", "ctrl"])),
        Action::Move(CursorMove::WordBack)
    );
    assert_eq!(
        action_for(&config, insert, &keys(&["ctrl", "ø"])),
        Action::Move(CursorMove::WordForward)
    );
    assert_eq!(action_for(&config, insert, &keys(&["ctrl", "k"])), Action::ScrollUp);
    assert_eq!(action_for(&config, insert, &keys(&["ctrl", "up"])), Action::ScrollUp);
    assert_eq!(action_for(&config, insert, &keys(&["scroll_up"])), Action::ScrollUp);
    assert_eq!(action_for(&config, insert, &keys(&["ctrl", "l"])), Action::ScrollDown);
    assert_eq!(action_for(&config, insert, &keys(&["ctrl", "down"])), Action::ScrollDown);
    assert_eq!(action_for(&config, insert, &keys(&["alt", "up"])), Action::AddCursorAbove);
    assert_eq!(action_for(&config, insert, &keys(&["down", "alt"])), Action::AddCursorBelow);
    assert_eq!(action_for(&config, insert, &keys(&["j"])), Action::Unbound);
    assert_eq!(action_for(&config, insert, &keys(&["i"])), Action::Unbound);
}

#[test]
fn command_mode_types_everything_but_escape() {
    let config = Config::default();
    assert_eq!(action_for(&config, Mode::Command, &keys(&["left"])), Action::Unbound);
    assert_eq!(action_for(&config, Mode::Command, &keys(&["q"])), Action::Unbound);
}

#[test]
fn bindings_follow_the_settings() {
    let mut config = Config::default();
    config.editor.normal_mode.shortcuts.move_left = "h | ctrl+b".to_string();
    config.editor.shortcuts.enter_normal_mode = "ctrl+c".to_string();
    assert_eq!(action_for(&config, Mode::Normal, &keys(&["h"])), Action::Move(CursorMove::Back));
    assert_eq!(
        action_for(&config, Mode::Normal, &keys(&["b", "ctrl"])),
        Action::Move(CursorMove::Back)
    );
    assert_eq!(action_for(&config, Mode::Normal, &keys(&["j"])), Action::Unbound);
    assert_eq!(action_for(&config, Mode::Insert, &keys(&["ctrl", "c"])), Action::EnterNormalMode);
    assert_eq!(action_for(&config, Mode::Insert, &keys(&["esc"])), Action::Unbound);
}
