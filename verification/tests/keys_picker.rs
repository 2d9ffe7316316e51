use rote::chord::canonicalize_chord;
use rote::keys::{key_command, key_name, named_key_name, KeyCommand, KeyInput, NamedKey};
use rote::picker::{contains_chars, Picker, PickerAction, MAX_PICKER_ROWS};

fn ch(s: &str) -> KeyInput {
    KeyInput::Character(s.to_string())
}

fn items(v: &[&str]) -> Vec<String> {
    v.iter().map(|s| s.to_string()).collect()
}

#[test]
fn key_names_for_chords() {
    assert_eq!(key_name(&ch("P")), Some("p".to_string()));
    assert_eq!(key_name(&KeyInput::Named(NamedKey::ArrowUp)), Some("up".to_string()));
    assert_eq!(key_name(&KeyInput::Named(NamedKey::F12)), Some("f12".to_string()));
    assert_eq!(key_name(&KeyInput::Named(NamedKey::Other)), None);
    assert_eq!(key_name(&KeyInput::Unidentified), None);
    assert_eq!(named_key_name(NamedKey::PageDown), Some("pagedown"));
}

#[test]
fn key_commands_for_editing_and_motion() {
    assert_eq!(key_command(&ch("s"), true, false, false, false), KeyCommand::Save);
    assert_eq!(key_command(&ch("a"), true, false, false, false), KeyCommand::SelectAll);
    assert_eq!(key_command(&ch("x"), false, true, false, false), KeyCommand::Insert("x".to_string()));
    assert_eq!(key_command(&KeyInput::Named(NamedKey::Enter), false, false, false, false), KeyCommand::Insert("\n".to_string()));
    assert_eq!(key_command(&KeyInput::Named(NamedKey::Space), true, false, false, false), KeyCommand::Insert(" ".to_string()));
    assert_eq!(key_command(&KeyInput::Named(NamedKey::Backspace), false, false, false, false), KeyCommand::Backspace);
    assert_eq!(key_command(&KeyInput::Named(NamedKey::Delete), false, false, false, false), KeyCommand::DeleteForward);
    assert_eq!(key_command(&KeyInput::Named(NamedKey::ArrowLeft), true, true, false, false), KeyCommand::MoveWordLeft(true));
    assert_eq!(key_command(&KeyInput::Named(NamedKey::ArrowRight), false, false, false, false), KeyCommand::MoveRight(false));
    assert_eq!(key_command(&KeyInput::Named(NamedKey::ArrowUp), false, true, false, false), KeyCommand::MoveUp(true));
    assert_eq!(key_command(&KeyInput::Named(NamedKey::Home), true, false, false, false), KeyCommand::MoveBufferStart(false));
    assert_eq!(key_command(&KeyInput::Named(NamedKey::End), false, true, false, false), KeyCommand::MoveLineEnd(true));
}

#[test]
fn other_keys_go_to_the_keymap() {
    assert_eq!(key_command(&ch("P"), true, true, false, false), KeyCommand::Keymap("ctrl+shift+p".to_string()));
    assert_eq!(key_command(&ch("S"), true, false, false, false), KeyCommand::Keymap("ctrl+s".to_string()));
    assert_eq!(key_command(&KeyInput::Named(NamedKey::F2), false, false, true, true), KeyCommand::Keymap("alt+super+f2".to_string()));
    assert_eq!(key_command(&KeyInput::Named(NamedKey::Tab), false, false, false, false), KeyCommand::Keymap("tab".to_string()));
    assert_eq!(key_command(&KeyInput::Named(NamedKey::Escape), false, false, false, false), KeyCommand::Keymap("escape".to_string()));
    assert_eq!(key_command(&KeyInput::Named(NamedKey::Other), true, false, false, false), KeyCommand::Ignore);
    assert_eq!(key_command(&KeyInput::Unidentified, false, false, false, false), KeyCommand::Ignore);
}

#[test]
fn substring_search() {
    let c = |s: &str| s.chars().collect::<Vec<char>>();
    assert!(contains_chars(&c("hello"), &c("ell")));
    assert!(contains_chars(&c("hello"), &c("")));
    assert!(contains_chars(&c(""), &c("")));
    assert!(!contains_chars(&c("hel"), &c("hello")));
    assert!(!contains_chars(&c("hello"), &c("Ell")));
}

#[test]
fn picker_filters_case_insensitively_in_order() {
    let mut p = Picker::new(items(&["src/Main.rs", "README.md", "src/lib.rs"]));
    assert_eq!(p.filtered(), vec!["src/Main.rs", "README.md", "src/lib.rs"]);
    p.query = "MAIN".to_string();
    assert_eq!(p.filtered(), vec!["src/Main.rs"]);
    p.query = "src".to_string();
    assert_eq!(p.filtered(), vec!["src/Main.rs", "src/lib.rs"]);
    p.query = "zzz".to_string();
    assert!(p.filtered().is_empty());
}

#[test]
fn picker_keys_edit_query_and_selection() {
    let mut p = Picker::new(items(&["alpha", "beta", "gamma"]));
    assert_eq!(p.handle_key(&KeyInput::Named(NamedKey::ArrowDown)), PickerAction::Redraw);
    assert_eq!(p.handle_key(&KeyInput::Named(NamedKey::ArrowDown)), PickerAction::Redraw);
    assert_eq!(p.handle_key(&KeyInput::Named(NamedKey::ArrowDown)), PickerAction::Redraw);
    assert_eq!(p.selected, 2);
    assert_eq!(p.handle_key(&KeyInput::Named(NamedKey::ArrowUp)), PickerAction::Redraw);
    assert_eq!(p.selected, 1);
    assert_eq!(p.handle_key(&KeyInput::Named(NamedKey::Enter)), PickerAction::Confirm(Some("beta".to_string())));
    assert_eq!(p.handle_key(&ch("m")), PickerAction::Redraw);
    assert_eq!(p.selected, 0);
    assert_eq!(p.query, "m");
    assert_eq!(p.handle_key(&KeyInput::Named(NamedKey::Space)), PickerAction::Redraw);
    assert_eq!(p.query, "m ");
    assert_eq!(p.handle_key(&KeyInput::Named(NamedKey::Backspace)), PickerAction::Redraw);
    assert_eq!(p.query, "m");
    assert_eq!(p.handle_key(&KeyInput::Named(NamedKey::Enter)), PickerAction::Confirm(Some("gamma".to_string())));
    assert_eq!(p.handle_key(&ch("q")), PickerAction::Redraw);
    assert_eq!(p.handle_key(&KeyInput::Named(NamedKey::Enter)), PickerAction::Confirm(None));
    assert_eq!(p.handle_key(&KeyInput::Named(NamedKey::Tab)), PickerAction::Ignore);
    assert_eq!(p.handle_key(&KeyInput::Named(NamedKey::Escape)), PickerAction::Cancel);
}

#[test]
fn clamp_selection_after_the_list_shrinks() {
    let mut p = Picker::new(items(&["aa", "ab", "b"]));
    p.selected = 2;
    p.query = "a".to_string();
    p.clamp_selection();
    assert_eq!(p.selected, 1);
    p.query = "x".to_string();
    p.clamp_selection();
    assert_eq!(p.selected, 0);
}

#[test]
fn picker_display_text() {
    let mut p = Picker::new(items(&["one", "two"]));
    p.selected = 1;
    assert_eq!(p.display_text(), "Open file: _\n\n  one\n> two");
    p.query = "x".to_string();
    assert_eq!(p.display_text(), "Open file: x_\n\n  (no matches)");
}

#[test]
fn picker_shows_at_most_max_rows() {
    let many: Vec<String> = (0..30).map(|i| format!("file{}", i)).collect();
    let p = Picker::new(many);
    let text = p.display_text();
    assert_eq!(text.lines().count(), 2 + MAX_PICKER_ROWS);
    assert!(text.lines().nth(2).unwrap().starts_with("> file0"));
}

#[test]
fn keymap_chords_are_found_by_canonical_bindings() {
    let presses = [
        (ch("P"), true, true, false, false),
        (KeyInput::Named(NamedKey::F2), false, false, true, true),
        (KeyInput::Named(NamedKey::Tab), false, true, false, false),
        (ch("é"), true, false, true, false),
    ];
    for (key, ctrl, shift, alt, sup) in presses {
        match key_command(&key, ctrl, shift, alt, sup) {
            KeyCommand::Keymap(chord) => assert_eq!(canonicalize_chord(&chord), Some(chord.clone())),
            other => panic!("expected a keymap chord, got {:?}", other),
        }
    }
    assert_eq!(canonicalize_chord("Shift+Ctrl+P"), Some("ctrl+shift+p".to_string()));
}
