use sashiki::input::{
    key_from_char, key_from_name, key_input, key_to_terminal_bytes, needs_encoding, unshifted_codepoint, Key,
    KeyMods, Keystroke, NamedKey, VtKey, VtMods,
};

fn no_mods() -> KeyMods {
    KeyMods { control: false, alt: false, shift: false, platform: false, function: false }
}

fn keystroke(key: &str, modifiers: KeyMods, key_char: Option<&str>) -> Keystroke {
    Keystroke { modifiers, key: key.to_string(), key_char: key_char.map(|s| s.to_string()) }
}

#[test]
fn test_arrow_keys() {
    assert_eq!(key_to_terminal_bytes(&Key::Named(NamedKey::ArrowUp), false), b"\x1b[A");
    assert_eq!(key_to_terminal_bytes(&Key::Named(NamedKey::ArrowDown), false), b"\x1b[B");
}

#[test]
fn test_enter_key() {
    assert_eq!(key_to_terminal_bytes(&Key::Named(NamedKey::Enter), false), b"\r");
}

#[test]
fn test_ctrl_c() {
    let result = key_to_terminal_bytes(&Key::Character("c".into()), true);
    assert_eq!(result, vec![3]);
}

#[test]
fn test_regular_char() {
    assert_eq!(key_to_terminal_bytes(&Key::Character("a".into()), false), b"a");
}

#[test]
fn plain_encoding_other_keys() {
    assert_eq!(key_to_terminal_bytes(&Key::Named(NamedKey::PageDown), false), b"\x1b[6~");
    assert_eq!(key_to_terminal_bytes(&Key::Named(NamedKey::Other), false), b"");
    assert_eq!(key_to_terminal_bytes(&Key::Unidentified, true), b"");
    assert_eq!(key_to_terminal_bytes(&Key::Character("C".into()), true), b"C");
    assert_eq!(key_to_terminal_bytes(&Key::Character("é".into()), false), "é".as_bytes());
}

#[test]
fn encodes_named_keys() {
    let input = key_input(&keystroke("enter", no_mods(), None), false).expect("enter is encoded");
    assert_eq!(input.key, VtKey::Enter);
    assert_eq!(input.mods, VtMods { ctrl: false, alt: false, shift: false, super_key: false });
}

#[test]
fn encodes_modified_keys() {
    let ctrl = KeyMods { control: true, ..no_mods() };
    let input = key_input(&keystroke("a", ctrl, None), false).expect("ctrl-a is encoded");
    assert_eq!(input.key, VtKey::A);
    assert_eq!(input.mods, VtMods { ctrl: true, alt: false, shift: false, super_key: false });
    assert_eq!(input.unshifted, Some('a'));
}

#[test]
fn leaves_printable_keys_to_the_text_input_path() {
    assert!(key_input(&keystroke("a", no_mods(), Some("a")), false).is_none());
    assert!(key_input(&keystroke("space", no_mods(), Some(" ")), false).is_none());
    let shift = KeyMods { shift: true, ..no_mods() };
    assert!(key_input(&keystroke("1", shift, Some("!")), false).is_none());
}

#[test]
fn ignores_platform_shortcuts() {
    let cmd = KeyMods { platform: true, ..no_mods() };
    assert!(key_input(&keystroke("c", cmd, None), false).is_none());
}

#[test]
fn key_names() {
    assert_eq!(key_from_name("Q"), Some(VtKey::Q));
    assert_eq!(key_from_name("f12"), Some(VtKey::F12));
    assert_eq!(key_from_name("pagedown"), Some(VtKey::PageDown));
    assert_eq!(key_from_name("menu"), None);
    assert_eq!(key_from_char('/'), Some(VtKey::Slash));
    assert_eq!(key_from_char('é'), None);
    assert_eq!(unshifted_codepoint("B"), Some('b'));
    assert_eq!(unshifted_codepoint("space"), Some(' '));
    assert_eq!(unshifted_codepoint("up"), None);
    assert!(needs_encoding("up", &no_mods()));
    assert!(!needs_encoding("x", &no_mods()));
    let alt = KeyMods { alt: true, ..no_mods() };
    assert!(needs_encoding("x", &alt));
    let composed = key_input(&keystroke("escape", no_mods(), None), true).unwrap();
    assert!(composed.composing);
    assert_eq!(composed.unshifted, None);
}

#[test]
fn utf16_ranges_map_to_characters() {
    let t = "aé😀b";
    assert_eq!(sashiki::utf16::slice_utf16(t, 0..1), "a");
    assert_eq!(sashiki::utf16::slice_utf16(t, 1..2), "é");
    assert_eq!(sashiki::utf16::slice_utf16(t, 2..4), "😀");
    assert_eq!(sashiki::utf16::slice_utf16(t, 3..4), "😀");
    assert_eq!(sashiki::utf16::slice_utf16(t, 2..3), "😀");
    assert_eq!(sashiki::utf16::slice_utf16(t, 4..10), "b");
    assert_eq!(sashiki::utf16::slice_utf16(t, 0..5), t);
    assert_eq!(sashiki::utf16::slice_utf16(t, 5..9), "");
    assert_eq!(sashiki::utf16::slice_utf16(t, 2..2), "");
    assert_eq!(sashiki::utf16::slice_utf16("", 0..3), "");
}
