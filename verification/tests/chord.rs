use rote::chord::{build_chord, canonicalize_chord};

#[test]
fn canonicalize_is_order_and_case_insensitive() {
    assert_eq!(canonicalize_chord("Ctrl+Shift+P"), Some("ctrl+shift+p".to_string()));
    assert_eq!(canonicalize_chord("shift+ctrl+p"), Some("ctrl+shift+p".to_string()));
    assert_eq!(canonicalize_chord("P"), Some("p".to_string()));
    assert_eq!(canonicalize_chord("F2"), Some("f2".to_string()));
    assert_eq!(canonicalize_chord("ctrl+shift"), None);
}

#[test]
fn build_chord_matches_canonicalize() {
    assert_eq!(build_chord(true, false, true, false, "p"), "ctrl+shift+p");
    assert_eq!(canonicalize_chord("Shift+Ctrl+P"), Some(build_chord(true, false, true, false, "p")));
}

#[test]
fn canonicalize_skips_blanks_and_keeps_last_key() {
    assert_eq!(canonicalize_chord(" Ctrl + x "), Some("ctrl+x".to_string()));
    assert_eq!(canonicalize_chord("a+b"), Some("b".to_string()));
    assert_eq!(canonicalize_chord("cmd+Option+Control+Shift+K"), Some("ctrl+alt+shift+super+k".to_string()));
    assert_eq!(canonicalize_chord("win+meta+command+q"), Some("super+q".to_string()));
    assert_eq!(canonicalize_chord("++ctrl++"), None);
    assert_eq!(canonicalize_chord(""), None);
}

#[test]
fn modifier_order_and_case_do_not_matter() {
    let forms = ["alt+ctrl+Tab", "CTRL+ALT+tab", "tab+ctrl+alt", "Ctrl+Tab+Alt"];
    for f in forms {
        assert_eq!(canonicalize_chord(f), Some("ctrl+alt+tab".to_string()), "form {:?}", f);
    }
}

#[test]
fn built_chords_are_canonical() {
    for (c, a, s, u) in [(false, false, false, false), (true, true, true, true), (false, true, false, true)] {
        for key in ["p", "F5", "Enter", "é"] {
            let built = build_chord(c, a, s, u, key);
            assert_eq!(canonicalize_chord(&built), Some(built.clone()));
        }
    }
    assert_eq!(build_chord(false, true, false, true, "X"), "alt+super+x");
}

#[test]
fn any_order_of_parts_gives_one_chord() {
    let orders = [
        "Shift+Alt+Ctrl+Super+x",
        "x+super+ctrl+alt+shift",
        "cmd + X + option + control + SHIFT",
        "alt+meta+X+ctrl+shift+ctrl",
    ];
    for raw in orders {
        let c = canonicalize_chord(raw);
        assert_eq!(c, Some("ctrl+alt+shift+super+x".to_string()), "raw {:?}", raw);
        let c = c.unwrap();
        assert_eq!(canonicalize_chord(&c), Some(c.clone()));
    }
}
