//! Key events as plain values: the names plugins bind chords to, and what a
//! key press in the editor body does.

use vstd::prelude::*;
use crate::chord::{build_chord, is_modifier_name, law_build_chord_is_canonical, spec_build_chord, spec_canonicalize_chord};
use crate::strings::{ascii_lower, chars_eq_str, chars_to_string, spec_ascii_lower, str_to_chars, trim};

verus! {

/// The named (non-character) keys the editor tells apart.
#[derive(Debug, Clone, Copy, PartialEq, Eq, Structural)]
pub enum NamedKey {
    Enter,
    Tab,
    Space,
    Backspace,
    Delete,
    Escape,
    ArrowUp,
    ArrowDown,
    ArrowLeft,
    ArrowRight,
    Home,
    End,
    PageUp,
    PageDown,
    Insert,
    F1,
    F2,
    F3,
    F4,
    F5,
    F6,
    F7,
    F8,
    F9,
    F10,
    F11,
    F12,
    /// Any other named key (modifiers, media keys, ...).
    Other,
}

/// The logical key of a key press.
#[derive(Debug, Clone, PartialEq, Eq)]
pub enum KeyInput {
    /// A key that produces text, with that text.
    Character(String),
    Named(NamedKey),
    /// Anything else (dead keys, IME composition, ...).
    Unidentified,
}

/// The chord name of a named key, if it has one.
pub open spec fn spec_named_key_name(k: NamedKey) -> Option<Seq<char>> {
    match k {
        NamedKey::Enter => Some("enter"@),
        NamedKey::Tab => Some("tab"@),
        NamedKey::Space => Some("space"@),
        NamedKey::Backspace => Some("backspace"@),
        NamedKey::Delete => Some("delete"@),
        NamedKey::Escape => Some("escape"@),
        NamedKey::ArrowUp => Some("up"@),
        NamedKey::ArrowDown => Some("down"@),
        NamedKey::ArrowLeft => Some("left"@),
        NamedKey::ArrowRight => Some("right"@),
        NamedKey::Home => Some("home"@),
        NamedKey::End => Some("end"@),
        NamedKey::PageUp => Some("pageup"@),
        NamedKey::PageDown => Some("pagedown"@),
        NamedKey::Insert => Some("insert"@),
        NamedKey::F1 => Some("f1"@),
        NamedKey::F2 => Some("f2"@),
        NamedKey::F3 => Some("f3"@),
        NamedKey::F4 => Some("f4"@),
        NamedKey::F5 => Some("f5"@),
        NamedKey::F6 => Some("f6"@),
        NamedKey::F7 => Some("f7"@),
        NamedKey::F8 => Some("f8"@),
        NamedKey::F9 => Some("f9"@),
        NamedKey::F10 => Some("f10"@),
        NamedKey::F11 => Some("f11"@),
        NamedKey::F12 => Some("f12"@),
        NamedKey::Other => None,
    }
}

/// The chord name of a named key, if it has one.
pub fn named_key_name(named: NamedKey) -> (r: Option<&'static str>)
    ensures
        r matches Some(s) ==> spec_named_key_name(named) == Some(s@),
        r is None ==> spec_named_key_name(named) is None,
{
    match named {
        NamedKey::Enter => Some("enter"),
        NamedKey::Tab => Some("tab"),
        NamedKey::Space => Some("space"),
        NamedKey::Backspace => Some("backspace"),
        NamedKey::Delete => Some("delete"),
        NamedKey::Escape => Some("escape"),
        NamedKey::ArrowUp => Some("up"),
        NamedKey::ArrowDown => Some("down"),
        NamedKey::ArrowLeft => Some("left"),
        NamedKey::ArrowRight => Some("right"),
        NamedKey::Home => Some("home"),
        NamedKey::End => Some("end"),
        NamedKey::PageUp => Some("pageup"),
        NamedKey::PageDown => Some("pagedown"),
        NamedKey::Insert => Some("insert"),
        NamedKey::F1 => Some("f1"),
        NamedKey::F2 => Some("f2"),
        NamedKey::F3 => Some("f3"),
        NamedKey::F4 => Some("f4"),
        NamedKey::F5 => Some("f5"),
        NamedKey::F6 => Some("f6"),
        NamedKey::F7 => Some("f7"),
        NamedKey::F8 => Some("f8"),
        NamedKey::F9 => Some("f9"),
        NamedKey::F10 => Some("f10"),
        NamedKey::F11 => Some("f11"),
        NamedKey::F12 => Some("f12"),
        NamedKey::Other => None,
    }
}

/// The key-name half of a chord for a key press: the lowercased text of a
/// character key, or a named key's chord name; `None` for keys with no
/// sensible chord name.
pub open spec fn spec_key_name(key: KeyInput) -> Option<Seq<char>> {
    match key {
        KeyInput::Character(s) => Some(spec_ascii_lower(s@)),
        KeyInput::Named(n) => spec_named_key_name(n),
        KeyInput::Unidentified => None,
    }
}

pub fn key_name(key: &KeyInput) -> (r: Option<String>)
    ensures
        r matches Some(s) ==> spec_key_name(*key) == Some(s@),
        r is None ==> spec_key_name(*key) is None,
{
    match key {
        KeyInput::Character(s) => {
            let chars = str_to_chars(s.as_str());
            let lower = ascii_lower(chars.as_slice());
            Some(chars_to_string(lower.as_slice()))
        },
        KeyInput::Named(n) => match named_key_name(*n) {
            Some(name) => {
                let chars = str_to_chars(name);
                Some(chars_to_string(chars.as_slice()))
            },
            None => None,
        },
        KeyInput::Unidentified => None,
    }
}

/// What a key press in the editor body asks for.
#[derive(Debug, Clone, PartialEq, Eq)]
pub enum KeyCommand {
    /// Save the active buffer, if it has a path.
    Save,
    SelectAll,
    /// Insert this text at the cursor.
    Insert(String),
    Backspace,
    DeleteForward,
    /// The cursor motions, each with whether it extends the selection.
    MoveWordLeft(bool),
    MoveLeft(bool),
    MoveWordRight(bool),
    MoveRight(bool),
    MoveUp(bool),
    MoveDown(bool),
    MoveBufferStart(bool),
    MoveLineStart(bool),
    MoveBufferEnd(bool),
    MoveLineEnd(bool),
    /// Run whatever a plugin bound to this canonical chord.
    Keymap(String),
    /// Nothing to do.
    Ignore,
}

/// A key command as plain values.
pub enum KeyCommandModel {
    Save,
    SelectAll,
    Insert(Seq<char>),
    Backspace,
    DeleteForward,
    MoveWordLeft(bool),
    MoveLeft(bool),
    MoveWordRight(bool),
    MoveRight(bool),
    MoveUp(bool),
    MoveDown(bool),
    MoveBufferStart(bool),
    MoveLineStart(bool),
    MoveBufferEnd(bool),
    MoveLineEnd(bool),
    Keymap(Seq<char>),
    Ignore,
}

pub open spec fn key_command_model(c: KeyCommand) -> KeyCommandModel {
    match c {
        KeyCommand::Save => KeyCommandModel::Save,
        KeyCommand::SelectAll => KeyCommandModel::SelectAll,
        KeyCommand::Insert(s) => KeyCommandModel::Insert(s@),
        KeyCommand::Backspace => KeyCommandModel::Backspace,
        KeyCommand::DeleteForward => KeyCommandModel::DeleteForward,
        KeyCommand::MoveWordLeft(e) => KeyCommandModel::MoveWordLeft(e),
        KeyCommand::MoveLeft(e) => KeyCommandModel::MoveLeft(e),
        KeyCommand::MoveWordRight(e) => KeyCommandModel::MoveWordRight(e),
        KeyCommand::MoveRight(e) => KeyCommandModel::MoveRight(e),
        KeyCommand::MoveUp(e) => KeyCommandModel::MoveUp(e),
        KeyCommand::MoveDown(e) => KeyCommandModel::MoveDown(e),
        KeyCommand::MoveBufferStart(e) => KeyCommandModel::MoveBufferStart(e),
        KeyCommand::MoveLineStart(e) => KeyCommandModel::MoveLineStart(e),
        KeyCommand::MoveBufferEnd(e) => KeyCommandModel::MoveBufferEnd(e),
        KeyCommand::MoveLineEnd(e) => KeyCommandModel::MoveLineEnd(e),
        KeyCommand::Keymap(s) => KeyCommandModel::Keymap(s@),
        KeyCommand::Ignore => KeyCommandModel::Ignore,
    }
}

/// What a key press does, given the held modifiers. Ctrl+S saves, Ctrl+A
/// selects all, other text keys without Ctrl insert their text; Enter and
/// Space insert a newline or space; Backspace and Delete delete; the arrow,
/// Home and End keys move (Ctrl making left/right word-wise and Home/End
/// buffer-wise, Shift extending the selection). Any other key with a chord
/// name goes to the plugin keymap under its canonical chord.
pub open spec fn spec_key_command(key: KeyInput, ctrl: bool, shift: bool, alt: bool, sup: bool) -> KeyCommandModel {
    match key {
        KeyInput::Character(s) if ctrl && s@ == "s"@ => KeyCommandModel::Save,
        KeyInput::Character(s) if ctrl && s@ == "a"@ => KeyCommandModel::SelectAll,
        KeyInput::Character(s) if !ctrl => KeyCommandModel::Insert(s@),
        KeyInput::Named(NamedKey::Enter) => KeyCommandModel::Insert("\n"@),
        KeyInput::Named(NamedKey::Space) => KeyCommandModel::Insert(" "@),
        KeyInput::Named(NamedKey::Backspace) => KeyCommandModel::Backspace,
        KeyInput::Named(NamedKey::Delete) => KeyCommandModel::DeleteForward,
        KeyInput::Named(NamedKey::ArrowLeft) => if ctrl {
            KeyCommandModel::MoveWordLeft(shift)
        } else {
            KeyCommandModel::MoveLeft(shift)
        },
        KeyInput::Named(NamedKey::ArrowRight) => if ctrl {
            KeyCommandModel::MoveWordRight(shift)
        } else {
            KeyCommandModel::MoveRight(shift)
        },
        KeyInput::Named(NamedKey::ArrowUp) => KeyCommandModel::MoveUp(shift),
        KeyInput::Named(NamedKey::ArrowDown) => KeyCommandModel::MoveDown(shift),
        KeyInput::Named(NamedKey::Home) => if ctrl {
            KeyCommandModel::MoveBufferStart(shift)
        } else {
            KeyCommandModel::MoveLineStart(shift)
        },
        KeyInput::Named(NamedKey::End) => if ctrl {
            KeyCommandModel::MoveBufferEnd(shift)
        } else {
            KeyCommandModel::MoveLineEnd(shift)
        },
        _ => match spec_key_name(key) {
            Some(name) => KeyCommandModel::Keymap(spec_build_chord(ctrl, alt, shift, sup, name)),
            None => KeyCommandModel::Ignore,
        },
    }
}

pub fn key_command(key: &KeyInput, ctrl: bool, shift: bool, alt: bool, sup: bool) -> (c: KeyCommand)
    ensures
        key_command_model(c) == spec_key_command(*key, ctrl, shift, alt, sup),
{
    match key {
        KeyInput::Character(s) => {
            let chars = str_to_chars(s.as_str());
            if ctrl && chars_eq_str(chars.as_slice(), "s") {
                return KeyCommand::Save;
            }
            if ctrl && chars_eq_str(chars.as_slice(), "a") {
                return KeyCommand::SelectAll;
            }
            if !ctrl {
                return KeyCommand::Insert(s.clone());
            }
        },
        KeyInput::Named(NamedKey::Enter) => {
            return KeyCommand::Insert(chars_to_string(str_to_chars("\n").as_slice()));
        },
        KeyInput::Named(NamedKey::Space) => {
            return KeyCommand::Insert(chars_to_string(str_to_chars(" ").as_slice()));
        },
        KeyInput::Named(NamedKey::Backspace) => {
            return KeyCommand::Backspace;
        },
        KeyInput::Named(NamedKey::Delete) => {
            return KeyCommand::DeleteForward;
        },
        KeyInput::Named(NamedKey::ArrowLeft) => {
            return if ctrl { KeyCommand::MoveWordLeft(shift) } else { KeyCommand::MoveLeft(shift) };
        },
        KeyInput::Named(NamedKey::ArrowRight) => {
            return if ctrl { KeyCommand::MoveWordRight(shift) } else { KeyCommand::MoveRight(shift) };
        },
        KeyInput::Named(NamedKey::ArrowUp) => {
            return KeyCommand::MoveUp(shift);
        },
        KeyInput::Named(NamedKey::ArrowDown) => {
            return KeyCommand::MoveDown(shift);
        },
        KeyInput::Named(NamedKey::Home) => {
            return if ctrl { KeyCommand::MoveBufferStart(shift) } else { KeyCommand::MoveLineStart(shift) };
        },
        KeyInput::Named(NamedKey::End) => {
            return if ctrl { KeyCommand::MoveBufferEnd(shift) } else { KeyCommand::MoveLineEnd(shift) };
        },
        _ => {},
    }
    match key_name(key) {
        Some(name) => KeyCommand::Keymap(build_chord(ctrl, alt, shift, sup, name.as_str())),
        None => KeyCommand::Ignore,
    }
}

/// A chord that a key press hands to the plugin keymap is already in the
/// canonical form that bindings are stored under, so a binding made for it
/// is found: this holds whenever the key's name is not empty, has no `+`
/// and no surrounding whitespace, and does not name a modifier.
pub proof fn law_keymap_chord_is_canonical(key: KeyInput, ctrl: bool, shift: bool, alt: bool, sup: bool)
    requires
        spec_key_name(key) matches Some(name) && name.len() > 0 && !name.contains('+') && trim(name) == name
            && !is_modifier_name(spec_ascii_lower(name)),
    ensures
        spec_key_command(key, ctrl, shift, alt, sup) matches KeyCommandModel::Keymap(c) ==> spec_canonicalize_chord(c)
            == Some(c),
{
    let name = spec_key_name(key)->0;
    law_build_chord_is_canonical(ctrl, alt, shift, sup, name);
}

} // verus!

verus! {

/// What the editing keys mean, whatever the other modifiers: Home and End
/// go to the line's start and end, and with Ctrl to the buffer's; Left and
/// Right move by a char, and with Ctrl by a word; Up and Down move by a
/// line; Shift extends the selection in every one of these.
pub proof fn law_navigation_keys(ctrl: bool, shift: bool, alt: bool, sup: bool)
    ensures
        spec_key_command(KeyInput::Named(NamedKey::End), true, shift, alt, sup) == KeyCommandModel::MoveBufferEnd(shift),
        spec_key_command(KeyInput::Named(NamedKey::Home), true, shift, alt, sup) == KeyCommandModel::MoveBufferStart(shift),
        spec_key_command(KeyInput::Named(NamedKey::End), false, shift, alt, sup) == KeyCommandModel::MoveLineEnd(shift),
        spec_key_command(KeyInput::Named(NamedKey::Home), false, shift, alt, sup) == KeyCommandModel::MoveLineStart(shift),
        spec_key_command(KeyInput::Named(NamedKey::ArrowLeft), true, shift, alt, sup) == KeyCommandModel::MoveWordLeft(shift),
        spec_key_command(KeyInput::Named(NamedKey::ArrowRight), true, shift, alt, sup) == KeyCommandModel::MoveWordRight(shift),
        spec_key_command(KeyInput::Named(NamedKey::ArrowLeft), false, shift, alt, sup) == KeyCommandModel::MoveLeft(shift),
        spec_key_command(KeyInput::Named(NamedKey::ArrowRight), false, shift, alt, sup) == KeyCommandModel::MoveRight(shift),
        spec_key_command(KeyInput::Named(NamedKey::ArrowUp), ctrl, shift, alt, sup) == KeyCommandModel::MoveUp(shift),
        spec_key_command(KeyInput::Named(NamedKey::ArrowDown), ctrl, shift, alt, sup) == KeyCommandModel::MoveDown(shift),
{
}

/// What the editing keys do to the text, whatever the other modifiers:
/// Ctrl+S saves and Ctrl+A selects all; a text key without Ctrl inserts its
/// text; Enter and Space insert a newline and a space; Backspace and Delete
/// delete backward and forward.
pub proof fn law_editing_keys(text: String, ctrl: bool, shift: bool, alt: bool, sup: bool)
    ensures
        text@ == "s"@ ==> spec_key_command(KeyInput::Character(text), true, shift, alt, sup) == KeyCommandModel::Save,
        text@ == "a"@ ==> spec_key_command(KeyInput::Character(text), true, shift, alt, sup) == KeyCommandModel::SelectAll,
        spec_key_command(KeyInput::Character(text), false, shift, alt, sup) == KeyCommandModel::Insert(text@),
        spec_key_command(KeyInput::Named(NamedKey::Enter), ctrl, shift, alt, sup) == KeyCommandModel::Insert("\n"@),
        spec_key_command(KeyInput::Named(NamedKey::Space), ctrl, shift, alt, sup) == KeyCommandModel::Insert(" "@),
        spec_key_command(KeyInput::Named(NamedKey::Backspace), ctrl, shift, alt, sup) == KeyCommandModel::Backspace,
        spec_key_command(KeyInput::Named(NamedKey::Delete), ctrl, shift, alt, sup) == KeyCommandModel::DeleteForward,
{
    reveal_strlit("a");
    reveal_strlit("s");
    if text@ == "a"@ {
        assert(text@[0] == 'a');
        assert("s"@[0] == 's');
        assert(text@ != "s"@);
    }
}

} // verus!
