//! From keys to actions: what the keys that are pressed ask the editor to
//! do, in the mode it is in and under the key bindings in force.

use crate::config::Config;
use crate::cursor::CursorMove;
use crate::keys::{binding_matches, binding_met, key_views};
use crate::mode::Mode;
use vstd::prelude::*;

verus! {

/// What keys can ask for through a binding.
#[derive(Clone, Copy, Debug, PartialEq, Eq, Structural)]
pub enum Action {
    EnterNormalMode,
    EnterInsertMode,
    EnterCommandMode,
    Move(CursorMove),
    ScrollUp,
    ScrollDown,
    AddCursorAbove,
    AddCursorBelow,
    /// The keys meet no binding of the mode. In insert mode and in command
    /// mode they are then typed.
    Unbound,
}

/// The action that the keys `pressed` ask for in normal mode.
pub open spec fn normal_action(config: Config, pressed: Seq<Seq<char>>) -> Action {
    let keys = config.editor.normal_mode.shortcuts;
    if binding_met(keys.enter_insert_mode@, pressed) {
        Action::EnterInsertMode
    } else if binding_met(keys.enter_command_mode@, pressed) {
        Action::EnterCommandMode
    } else if binding_met(keys.move_left@, pressed) {
        Action::Move(CursorMove::Back)
    } else if binding_met(keys.move_right@, pressed) {
        Action::Move(CursorMove::Forward)
    } else if binding_met(keys.move_up@, pressed) {
        Action::Move(CursorMove::Up)
    } else if binding_met(keys.move_down@, pressed) {
        Action::Move(CursorMove::Down)
    } else {
        Action::Unbound
    }
}

/// The action that the keys `pressed` ask for in insert mode. The keys
/// that skip a paragraph scroll by a line.
pub open spec fn insert_action(config: Config, pressed: Seq<Seq<char>>) -> Action {
    let keys = config.editor.insert_mode.shortcuts;
    if binding_met(keys.move_left@, pressed) {
        Action::Move(CursorMove::Back)
    } else if binding_met(keys.move_right@, pressed) {
        Action::Move(CursorMove::Forward)
    } else if binding_met(keys.move_up@, pressed) {
        Action::Move(CursorMove::Up)
    } else if binding_met(keys.move_down@, pressed) {
        Action::Move(CursorMove::Down)
    } else if binding_met(keys.skip_word_left@, pressed) {
        Action::Move(CursorMove::WordBack)
    } else if binding_met(keys.skip_word_right@, pressed) {
        Action::Move(CursorMove::WordForward)
    } else if binding_met(keys.scroll_up@, pressed) || binding_met(
        keys.skip_paragraph_up@,
        pressed,
    ) {
        Action::ScrollUp
    } else if binding_met(keys.scroll_down@, pressed) || binding_met(
        keys.skip_paragraph_down@,
        pressed,
    ) {
        Action::ScrollDown
    } else if binding_met("alt+up"@, pressed) {
        Action::AddCursorAbove
    } else if binding_met("alt+down"@, pressed) {
        Action::AddCursorBelow
    } else {
        Action::Unbound
    }
}

/// The action that the keys `pressed` ask for. The binding that enters
/// normal mode holds in every mode and comes first; then the bindings of
/// the mode are tried in their order. Command mode has no bindings of its
/// own that act on the editor.
pub open spec fn action_of(config: Config, mode: Mode, pressed: Seq<Seq<char>>) -> Action {
    if binding_met(config.editor.shortcuts.enter_normal_mode@, pressed) {
        Action::EnterNormalMode
    } else {
        match mode {
            Mode::Normal => normal_action(config, pressed),
            Mode::Insert => insert_action(config, pressed),
            Mode::Command => Action::Unbound,
        }
    }
}

fn action_in_normal_mode(config: &Config, pressed: &Vec<String>) -> (action: Action)
    ensures
        action == normal_action(*config, key_views(pressed@)),
{
    let keys = &config.editor.normal_mode.shortcuts;
    if binding_matches(keys.enter_insert_mode.as_str(), pressed) {
        Action::EnterInsertMode
    } else if binding_matches(keys.enter_command_mode.as_str(), pressed) {
        Action::EnterCommandMode
    } else if binding_matches(keys.move_left.as_str(), pressed) {
        Action::Move(CursorMove::Back)
    } else if binding_matches(keys.move_right.as_str(), pressed) {
        Action::Move(CursorMove::Forward)
    } else if binding_matches(keys.move_up.as_str(), pressed) {
        Action::Move(CursorMove::Up)
    } else if binding_matches(keys.move_down.as_str(), pressed) {
        Action::Move(CursorMove::Down)
    } else {
        Action::Unbound
    }
}

fn action_in_insert_mode(config: &Config, pressed: &Vec<String>) -> (action: Action)
    ensures
        action == insert_action(*config, key_views(pressed@)),
{
    let keys = &config.editor.insert_mode.shortcuts;
    if binding_matches(keys.move_left.as_str(), pressed) {
        Action::Move(CursorMove::Back)
    } else if binding_matches(keys.move_right.as_str(), pressed) {
        Action::Move(CursorMove::Forward)
    } else if binding_matches(keys.move_up.as_str(), pressed) {
        Action::Move(CursorMove::Up)
    } else if binding_matches(keys.move_down.as_str(), pressed) {
        Action::Move(CursorMove::Down)
    } else if binding_matches(keys.skip_word_left.as_str(), pressed) {
        Action::Move(CursorMove::WordBack)
    } else if binding_matches(keys.skip_word_right.as_str(), pressed) {
        Action::Move(CursorMove::WordForward)
    } else if binding_matches(keys.scroll_up.as_str(), pressed) || binding_matches(
        keys.skip_paragraph_up.as_str(),
        pressed,
    ) {
        Action::ScrollUp
    } else if binding_matches(keys.scroll_down.as_str(), pressed) || binding_matches(
        keys.skip_paragraph_down.as_str(),
        pressed,
    ) {
        Action::ScrollDown
    } else if binding_matches("alt+up", pressed) {
        Action::AddCursorAbove
    } else if binding_matches("alt+down", pressed) {
        Action::AddCursorBelow
    } else {
        Action::Unbound
    }
}

/// The action that the keys `pressed` ask for in mode `mode`.
pub fn action_for(config: &Config, mode: Mode, pressed: &Vec<String>) -> (action: Action)
    ensures
        action == action_of(*config, mode, key_views(pressed@)),
{
    if binding_matches(config.editor.shortcuts.enter_normal_mode.as_str(), pressed) {
        Action::EnterNormalMode
    } else {
        match mode {
            Mode::Normal => action_in_normal_mode(config, pressed),
            Mode::Insert => action_in_insert_mode(config, pressed),
            Mode::Command => Action::Unbound,
        }
    }
}

} // verus!
