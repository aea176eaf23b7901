use mosaic::keys::{binding_matches, chord_keys, key_names, press};

fn names(keys: &[&str]) -> Vec<String> {
    keys.iter().map(|k| k.to_string()).collect()
}

fn chars(keys: &[&str]) -> Vec<Vec<char>> {
    keys.iter().map(|k| k.chars().collect()).collect()
}

#[test]
fn chord_keys_are_cut_at_plus_and_lose_their_spaces() {
    assert_eq!(chord_keys("ctrl+left"), chars(&["ctrl", "left"]));
    assert_eq!(chord_keys(" ctrl + shift+ k "), chars(&["ctrl", "shift", "k"]));
    assert_eq!(chord_keys("esc"), chars(&["esc"]));
    assert_eq!(chord_keys(""), chars(&[""]));
    assert_eq!(chord_keys("a+"), chars(&["a", ""]));
    assert_eq!(chord_keys("+"), chars(&["", ""]));
}

#[test]
fn a_binding_is_met_by_the_keys_of_one_of_its_chords() {
    let binding = "ctrl+left | ctrl+j";
    assert!(binding_matches(binding, &names(&["ctrl", "left"])));
    assert!(binding_matches(binding, &names(&["left", "ctrl"])));
    assert!(binding_matches(binding, &names(&["ctrl", "j"])));
    assert!(!binding_matches(binding, &names(&["ctrl"])));
    assert!(!binding_matches(binding, &names(&["left"])));
    assert!(!binding_matches(binding, &names(&["ctrl", "left", "j"])));
    assert!(!binding_matches(binding, &names(&["ctrl", "right"])));
    assert!(!binding_matches(binding, &names(&[])));
}

#[test]
fn a_binding_of_one_key() {
    assert!(binding_matches("i", &names(&["i"])));
    assert!(!binding_matches("i", &names(&["I"])));
    assert!(!binding_matches("i", &names(&["i", "shift"])));
    assert!(binding_matches("right | ø", &names(&["ø"])));
    assert!(binding_matches("right | ø", &names(&["right"])));
}

#[test]
fn a_chord_that_names_a_key_twice_is_not_met_by_that_key_once() {
    assert!(!binding_matches("a+a", &names(&["a"])));
    assert!(binding_matches("a+a", &names(&["a", "a"])));
}

#[test]
fn an_empty_binding_is_met_by_one_key_without_a_name() {
    assert!(binding_matches("", &names(&[""])));
    assert!(!binding_matches("", &names(&[])));
    assert!(!binding_matches("", &names(&["a"])));
}

#[test]
fn a_key_press_brings_the_names_of_the_key_and_of_its_modifiers() {
    assert_eq!(key_names("Left", "Control"), names(&["left", "ctrl"]));
    assert_eq!(key_names("Page Up", "Shift+Alt"), names(&["pageup", "shift", "alt"]));
    assert_eq!(key_names("Back Tab", "Shift"), names(&["tab", "shift"]));
    assert_eq!(key_names("x", ""), names(&["x"]));
    assert_eq!(key_names("X", ""), names(&["x"]));
    assert_eq!(key_names("Ø", ""), names(&["ø"]));
    assert_eq!(key_names("", "Control"), names(&["ctrl"]));
    assert_eq!(key_names("", ""), names(&[]));
    assert_eq!(key_names("F5", "Super + Hyper"), names(&["f5", "super", "hyper"]));
}

#[test]
fn a_key_is_pressed_once() {
    let mut pressed = names(&[]);
    press(&mut pressed, "ctrl".to_string());
    press(&mut pressed, "left".to_string());
    press(&mut pressed, "ctrl".to_string());
    assert_eq!(pressed, names(&["ctrl", "left"]));
    assert!(binding_matches("ctrl+left | ctrl+j", &pressed));
}

#[test]
fn key_presses_meet_bindings() {
    let mut pressed = names(&[]);
    for name in key_names("Right", "Control") {
        press(&mut pressed, name);
    }
    assert!(binding_matches("ctrl+right | ctrl+ø", &pressed));
    assert!(!binding_matches("right", &pressed));
}
