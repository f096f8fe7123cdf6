//! Keyboard input for terminals: which keystrokes go to the terminal's key
//! encoder (and as which key), and the bytes a key sends in the plain
//! encoding.

use vstd::prelude::*;
use vstd::utf8::encode_utf8;
use vstd::string::StrSliceExecFns;

verus! {

/// Modifier keys held with a keystroke.
#[derive(Debug, Clone, Copy, PartialEq, Eq, Structural)]
pub struct KeyMods {
    pub control: bool,
    pub alt: bool,
    pub shift: bool,
    /// Command on macOS, the Windows key elsewhere.
    pub platform: bool,
    pub function: bool,
}

/// A keystroke: its modifiers, the key's name (a single character for
/// character keys, else a name such as `enter` or `f5`), and the text it
/// types, if any.
#[derive(Debug, Clone)]
pub struct Keystroke {
    pub modifiers: KeyMods,
    pub key: String,
    pub key_char: Option<String>,
}

/// The keys of the terminal's key encoder.
#[derive(Debug, Clone, Copy, PartialEq, Eq, Structural)]
pub enum VtKey {
    A, B, C, D, E, F, G, H, I, J, K, L, M, N, O, P, Q, R, S, T, U, V, W, X, Y, Z,
    Digit0, Digit1, Digit2, Digit3, Digit4, Digit5, Digit6, Digit7, Digit8, Digit9,
    Backquote, Backslash, BracketLeft, BracketRight, Comma, Equal, Minus, Period, Quote,
    Semicolon, Slash, Space,
    Enter, Escape, Backspace, Tab, ArrowUp, ArrowDown, ArrowLeft, ArrowRight, Home, End,
    PageUp, PageDown, Insert, Delete,
    F1, F2, F3, F4, F5, F6, F7, F8, F9, F10, F11, F12, F13, F14, F15, F16, F17, F18, F19,
}

/// Modifiers as the key encoder takes them.
#[derive(Debug, Clone, Copy, PartialEq, Eq, Structural)]
pub struct VtMods {
    pub ctrl: bool,
    pub alt: bool,
    pub shift: bool,
    pub super_key: bool,
}

/// A key event for the terminal's key encoder.
#[derive(Debug, Clone)]
pub struct KeyInput {
    pub key: VtKey,
    pub mods: VtMods,
    /// The text the key types, if any.
    pub text: Option<String>,
    /// What the key types with no modifier, if it types anything.
    pub unshifted: Option<char>,
    /// Whether an input method is composing.
    pub composing: bool,
}

/// The key of a character key, either case of a letter.
pub open spec fn key_for_char(c: char) -> Option<VtKey> {
    match c {
        'a' | 'A' => Some(VtKey::A), 'b' | 'B' => Some(VtKey::B), 'c' | 'C' => Some(VtKey::C),
        'd' | 'D' => Some(VtKey::D), 'e' | 'E' => Some(VtKey::E), 'f' | 'F' => Some(VtKey::F),
        'g' | 'G' => Some(VtKey::G), 'h' | 'H' => Some(VtKey::H), 'i' | 'I' => Some(VtKey::I),
        'j' | 'J' => Some(VtKey::J), 'k' | 'K' => Some(VtKey::K), 'l' | 'L' => Some(VtKey::L),
        'm' | 'M' => Some(VtKey::M), 'n' | 'N' => Some(VtKey::N), 'o' | 'O' => Some(VtKey::O),
        'p' | 'P' => Some(VtKey::P), 'q' | 'Q' => Some(VtKey::Q), 'r' | 'R' => Some(VtKey::R),
        's' | 'S' => Some(VtKey::S), 't' | 'T' => Some(VtKey::T), 'u' | 'U' => Some(VtKey::U),
        'v' | 'V' => Some(VtKey::V), 'w' | 'W' => Some(VtKey::W), 'x' | 'X' => Some(VtKey::X),
        'y' | 'Y' => Some(VtKey::Y), 'z' | 'Z' => Some(VtKey::Z),
        '0' => Some(VtKey::Digit0), '1' => Some(VtKey::Digit1), '2' => Some(VtKey::Digit2),
        '3' => Some(VtKey::Digit3), '4' => Some(VtKey::Digit4), '5' => Some(VtKey::Digit5),
        '6' => Some(VtKey::Digit6), '7' => Some(VtKey::Digit7), '8' => Some(VtKey::Digit8),
        '9' => Some(VtKey::Digit9),
        '`' => Some(VtKey::Backquote), '\\' => Some(VtKey::Backslash),
        '[' => Some(VtKey::BracketLeft), ']' => Some(VtKey::BracketRight), ',' => Some(VtKey::Comma),
        '=' => Some(VtKey::Equal), '-' => Some(VtKey::Minus), '.' => Some(VtKey::Period),
        '\'' => Some(VtKey::Quote), ';' => Some(VtKey::Semicolon), '/' => Some(VtKey::Slash),
        ' ' => Some(VtKey::Space),
        _ => None,
    }
}

/// The key of a character key.
pub fn key_from_char(c: char) -> (k: Option<VtKey>)
    ensures
        k == key_for_char(c),
{
    match c {
        'a' | 'A' => Some(VtKey::A), 'b' | 'B' => Some(VtKey::B), 'c' | 'C' => Some(VtKey::C),
        'd' | 'D' => Some(VtKey::D), 'e' | 'E' => Some(VtKey::E), 'f' | 'F' => Some(VtKey::F),
        'g' | 'G' => Some(VtKey::G), 'h' | 'H' => Some(VtKey::H), 'i' | 'I' => Some(VtKey::I),
        'j' | 'J' => Some(VtKey::J), 'k' | 'K' => Some(VtKey::K), 'l' | 'L' => Some(VtKey::L),
        'm' | 'M' => Some(VtKey::M), 'n' | 'N' => Some(VtKey::N), 'o' | 'O' => Some(VtKey::O),
        'p' | 'P' => Some(VtKey::P), 'q' | 'Q' => Some(VtKey::Q), 'r' | 'R' => Some(VtKey::R),
        's' | 'S' => Some(VtKey::S), 't' | 'T' => Some(VtKey::T), 'u' | 'U' => Some(VtKey::U),
        'v' | 'V' => Some(VtKey::V), 'w' | 'W' => Some(VtKey::W), 'x' | 'X' => Some(VtKey::X),
        'y' | 'Y' => Some(VtKey::Y), 'z' | 'Z' => Some(VtKey::Z),
        '0' => Some(VtKey::Digit0), '1' => Some(VtKey::Digit1), '2' => Some(VtKey::Digit2),
        '3' => Some(VtKey::Digit3), '4' => Some(VtKey::Digit4), '5' => Some(VtKey::Digit5),
        '6' => Some(VtKey::Digit6), '7' => Some(VtKey::Digit7), '8' => Some(VtKey::Digit8),
        '9' => Some(VtKey::Digit9),
        '`' => Some(VtKey::Backquote), '\\' => Some(VtKey::Backslash),
        '[' => Some(VtKey::BracketLeft), ']' => Some(VtKey::BracketRight), ',' => Some(VtKey::Comma),
        '=' => Some(VtKey::Equal), '-' => Some(VtKey::Minus), '.' => Some(VtKey::Period),
        '\'' => Some(VtKey::Quote), ';' => Some(VtKey::Semicolon), '/' => Some(VtKey::Slash),
        ' ' => Some(VtKey::Space),
        _ => None,
    }
}

/// The named keys, by name.
pub open spec fn named_keys() -> Seq<(Seq<char>, VtKey)> {
    seq![
        ("enter"@, VtKey::Enter), ("escape"@, VtKey::Escape), ("backspace"@, VtKey::Backspace),
        ("tab"@, VtKey::Tab), ("space"@, VtKey::Space), ("up"@, VtKey::ArrowUp),
        ("down"@, VtKey::ArrowDown), ("left"@, VtKey::ArrowLeft), ("right"@, VtKey::ArrowRight),
        ("home"@, VtKey::Home), ("end"@, VtKey::End), ("pageup"@, VtKey::PageUp),
        ("pagedown"@, VtKey::PageDown), ("insert"@, VtKey::Insert), ("delete"@, VtKey::Delete),
        ("f1"@, VtKey::F1), ("f2"@, VtKey::F2), ("f3"@, VtKey::F3), ("f4"@, VtKey::F4),
        ("f5"@, VtKey::F5), ("f6"@, VtKey::F6), ("f7"@, VtKey::F7), ("f8"@, VtKey::F8),
        ("f9"@, VtKey::F9), ("f10"@, VtKey::F10), ("f11"@, VtKey::F11), ("f12"@, VtKey::F12),
        ("f13"@, VtKey::F13), ("f14"@, VtKey::F14), ("f15"@, VtKey::F15), ("f16"@, VtKey::F16),
        ("f17"@, VtKey::F17), ("f18"@, VtKey::F18), ("f19"@, VtKey::F19),
    ]
}

/// The key of the first entry of `table` with the name `name`.
pub open spec fn lookup_name(table: Seq<(Seq<char>, VtKey)>, name: Seq<char>) -> Option<VtKey>
    decreases table.len(),
{
    if table.len() == 0 {
        None
    } else if table[0].0 == name {
        Some(table[0].1)
    } else {
        lookup_name(table.drop_first(), name)
    }
}

/// The name a keystroke gives each named key: `enter`, `escape`, the arrows
/// `up`, `down`, `left` and `right`, `home`, `end`, `pageup`, `pagedown`,
/// `insert`, `delete`, and the function keys `f1` to `f19`.
pub open spec fn named_key_name(k: VtKey) -> Option<Seq<char>> {
    match k {
        VtKey::Enter => Some("enter"@),
        VtKey::Escape => Some("escape"@),
        VtKey::Backspace => Some("backspace"@),
        VtKey::Tab => Some("tab"@),
        VtKey::Space => Some("space"@),
        VtKey::ArrowUp => Some("up"@),
        VtKey::ArrowDown => Some("down"@),
        VtKey::ArrowLeft => Some("left"@),
        VtKey::ArrowRight => Some("right"@),
        VtKey::Home => Some("home"@),
        VtKey::End => Some("end"@),
        VtKey::PageUp => Some("pageup"@),
        VtKey::PageDown => Some("pagedown"@),
        VtKey::Insert => Some("insert"@),
        VtKey::Delete => Some("delete"@),
        VtKey::F1 => Some("f1"@),
        VtKey::F2 => Some("f2"@),
        VtKey::F3 => Some("f3"@),
        VtKey::F4 => Some("f4"@),
        VtKey::F5 => Some("f5"@),
        VtKey::F6 => Some("f6"@),
        VtKey::F7 => Some("f7"@),
        VtKey::F8 => Some("f8"@),
        VtKey::F9 => Some("f9"@),
        VtKey::F10 => Some("f10"@),
        VtKey::F11 => Some("f11"@),
        VtKey::F12 => Some("f12"@),
        VtKey::F13 => Some("f13"@),
        VtKey::F14 => Some("f14"@),
        VtKey::F15 => Some("f15"@),
        VtKey::F16 => Some("f16"@),
        VtKey::F17 => Some("f17"@),
        VtKey::F18 => Some("f18"@),
        VtKey::F19 => Some("f19"@),
        _ => None,
    }
}

/// Each entry of the table of named keys pairs a name with the key of that
/// name.
proof fn lemma_table_names(i: int)
    requires
        0 <= i < named_keys().len(),
    ensures
        named_key_name(named_keys()[i].1) == Some(named_keys()[i].0),
{
    if i == 0 {
        assert(named_keys()[0] == ("enter"@, VtKey::Enter));
    } else if i == 1 {
        assert(named_keys()[1] == ("escape"@, VtKey::Escape));
    } else if i == 2 {
        assert(named_keys()[2] == ("backspace"@, VtKey::Backspace));
    } else if i == 3 {
        assert(named_keys()[3] == ("tab"@, VtKey::Tab));
    } else if i == 4 {
        assert(named_keys()[4] == ("space"@, VtKey::Space));
    } else if i == 5 {
        assert(named_keys()[5] == ("up"@, VtKey::ArrowUp));
    } else if i == 6 {
        assert(named_keys()[6] == ("down"@, VtKey::ArrowDown));
    } else if i == 7 {
        assert(named_keys()[7] == ("left"@, VtKey::ArrowLeft));
    } else if i == 8 {
        assert(named_keys()[8] == ("right"@, VtKey::ArrowRight));
    } else if i == 9 {
        assert(named_keys()[9] == ("home"@, VtKey::Home));
    } else if i == 10 {
        assert(named_keys()[10] == ("end"@, VtKey::End));
    } else if i == 11 {
        assert(named_keys()[11] == ("pageup"@, VtKey::PageUp));
    } else if i == 12 {
        assert(named_keys()[12] == ("pagedown"@, VtKey::PageDown));
    } else if i == 13 {
        assert(named_keys()[13] == ("insert"@, VtKey::Insert));
    } else if i == 14 {
        assert(named_keys()[14] == ("delete"@, VtKey::Delete));
    } else if i == 15 {
        assert(named_keys()[15] == ("f1"@, VtKey::F1));
    } else if i == 16 {
        assert(named_keys()[16] == ("f2"@, VtKey::F2));
    } else if i == 17 {
        assert(named_keys()[17] == ("f3"@, VtKey::F3));
    } else if i == 18 {
        assert(named_keys()[18] == ("f4"@, VtKey::F4));
    } else if i == 19 {
        assert(named_keys()[19] == ("f5"@, VtKey::F5));
    } else if i == 20 {
        assert(named_keys()[20] == ("f6"@, VtKey::F6));
    } else if i == 21 {
        assert(named_keys()[21] == ("f7"@, VtKey::F7));
    } else if i == 22 {
        assert(named_keys()[22] == ("f8"@, VtKey::F8));
    } else if i == 23 {
        assert(named_keys()[23] == ("f9"@, VtKey::F9));
    } else if i == 24 {
        assert(named_keys()[24] == ("f10"@, VtKey::F10));
    } else if i == 25 {
        assert(named_keys()[25] == ("f11"@, VtKey::F11));
    } else if i == 26 {
        assert(named_keys()[26] == ("f12"@, VtKey::F12));
    } else if i == 27 {
        assert(named_keys()[27] == ("f13"@, VtKey::F13));
    } else if i == 28 {
        assert(named_keys()[28] == ("f14"@, VtKey::F14));
    } else if i == 29 {
        assert(named_keys()[29] == ("f15"@, VtKey::F15));
    } else if i == 30 {
        assert(named_keys()[30] == ("f16"@, VtKey::F16));
    } else if i == 31 {
        assert(named_keys()[31] == ("f17"@, VtKey::F17));
    } else if i == 32 {
        assert(named_keys()[32] == ("f18"@, VtKey::F18));
    } else if i == 33 {
        assert(named_keys()[33] == ("f19"@, VtKey::F19));
    }
}

/// A name found in a table is the name of the entry it was found at.
proof fn lemma_lookup_found(table: Seq<(Seq<char>, VtKey)>, name: Seq<char>)
    ensures
        lookup_name(table, name) matches Some(k) ==> exists|i: int| 0 <= i < table.len() && #[trigger] table[i] == (name, k),
    decreases table.len(),
{
    if table.len() > 0 && table[0].0 != name {
        lemma_lookup_found(table.drop_first(), name);
        if lookup_name(table, name) is Some {
            let k = lookup_name(table, name)->0;
            let i = choose|i: int| 0 <= i < table.drop_first().len() && #[trigger] table.drop_first()[i] == (name, k);
            assert(table[i + 1] == (name, k));
        }
    } else if table.len() > 0 {
        assert(table[0] == (name, table[0].1));
    }
}

/// A key name that is not a single character key stands for the named key
/// of that name: `left` for the left arrow, `right` for the right arrow,
/// `f5` for the fifth function key, and so on; no name stands for a key
/// of another name.
pub proof fn lemma_key_names(name: Seq<char>)
    ensures
        !(name.len() == 1 && key_for_char(name[0]) is Some) && key_for_name(name) is Some
            ==> named_key_name(key_for_name(name)->0) == Some(name),
{
    lemma_lookup_found(named_keys(), name);
    if !(name.len() == 1 && key_for_char(name[0]) is Some) && key_for_name(name) is Some {
        let k = key_for_name(name)->0;
        let i = choose|i: int| 0 <= i < named_keys().len() && #[trigger] named_keys()[i] == (name, k);
        lemma_table_names(i);
    }
}

/// The key for a key name: a single character that is a character key, else
/// a named key.
pub open spec fn key_for_name(name: Seq<char>) -> Option<VtKey> {
    if name.len() == 1 && key_for_char(name[0]) is Some {
        key_for_char(name[0])
    } else {
        lookup_name(named_keys(), name)
    }
}

/// The named keys as a table.
fn named_key_table() -> (t: Vec<(&'static str, VtKey)>)
    ensures
        t@.len() == named_keys().len(),
        forall|i: int| 0 <= i < t@.len() ==> (#[trigger] t@[i]).0@ == named_keys()[i].0
            && t@[i].1 == named_keys()[i].1,
{
    vec![
        ("enter", VtKey::Enter), ("escape", VtKey::Escape), ("backspace", VtKey::Backspace),
        ("tab", VtKey::Tab), ("space", VtKey::Space), ("up", VtKey::ArrowUp),
        ("down", VtKey::ArrowDown), ("left", VtKey::ArrowLeft), ("right", VtKey::ArrowRight),
        ("home", VtKey::Home), ("end", VtKey::End), ("pageup", VtKey::PageUp),
        ("pagedown", VtKey::PageDown), ("insert", VtKey::Insert), ("delete", VtKey::Delete),
        ("f1", VtKey::F1), ("f2", VtKey::F2), ("f3", VtKey::F3), ("f4", VtKey::F4),
        ("f5", VtKey::F5), ("f6", VtKey::F6), ("f7", VtKey::F7), ("f8", VtKey::F8),
        ("f9", VtKey::F9), ("f10", VtKey::F10), ("f11", VtKey::F11), ("f12", VtKey::F12),
        ("f13", VtKey::F13), ("f14", VtKey::F14), ("f15", VtKey::F15), ("f16", VtKey::F16),
        ("f17", VtKey::F17), ("f18", VtKey::F18), ("f19", VtKey::F19),
    ]
}

/// The key for a key name.
pub fn key_from_name(name: &str) -> (k: Option<VtKey>)
    ensures
        k == key_for_name(name@),
{
    let n = crate::text::chars_of(name);
    if n.len() == 1 {
        match key_from_char(n[0]) {
            Some(k) => {
                return Some(k);
            },
            None => {},
        }
    }
    let table = named_key_table();
    let mut i: usize = 0;
    assert(named_keys().skip(0) =~= named_keys());
    while i < table.len()
        invariant
            n@ == name@,
            !(name@.len() == 1 && key_for_char(name@[0]) is Some),
            i <= table@.len(),
            table@.len() == named_keys().len(),
            forall|j: int| 0 <= j < table@.len() ==> (#[trigger] table@[j]).0@ == named_keys()[j].0
                && table@[j].1 == named_keys()[j].1,
            lookup_name(named_keys(), name@) == lookup_name(named_keys().skip(i as int), name@),
        decreases table@.len() - i,
    {
        assert(named_keys().skip(i as int).drop_first() =~= named_keys().skip(i + 1));
        let entry = table[i];
        if crate::text::chars_eq(&crate::text::chars_of(entry.0), &n) {
            return Some(entry.1);
        }
        i += 1;
    }
    None
}

/// The ASCII lower case of a character.
pub open spec fn ascii_lowercase(c: char) -> char {
    if 'A' <= c && c <= 'Z' {
        (((c as u8) + 32) as u8) as char
    } else {
        c
    }
}

/// What a key types with no modifier: a space for `space`, the lower case of
/// a single ASCII character, else nothing.
pub open spec fn unshifted_of(name: Seq<char>) -> Option<char> {
    if name == "space"@ {
        Some(' ')
    } else if name.len() == 1 && name[0] <= '\u{7f}' {
        Some(ascii_lowercase(name[0]))
    } else {
        None
    }
}

/// What a key types with no modifier.
pub fn unshifted_codepoint(name: &str) -> (c: Option<char>)
    ensures
        c == unshifted_of(name@),
{
    let n = crate::text::chars_of(name);
    if crate::text::chars_eq(&n, &crate::text::chars_of("space")) {
        return Some(' ');
    }
    if n.len() == 1 && n[0] <= '\u{7f}' {
        let c = n[0];
        if 'A' <= c && c <= 'Z' {
            Some(((c as u8) + 32) as char)
        } else {
            Some(c)
        }
    } else {
        None
    }
}

/// The encoder's modifiers for a keystroke's modifiers.
pub fn mods_from_keystroke(modifiers: &KeyMods) -> (m: VtMods)
    ensures
        m == (VtMods {
            ctrl: modifiers.control,
            alt: modifiers.alt,
            shift: modifiers.shift,
            super_key: modifiers.platform,
        }),
{
    VtMods { ctrl: modifiers.control, alt: modifiers.alt, shift: modifiers.shift, super_key: modifiers.platform }
}

/// Whether a key is sent to the terminal as an escape sequence rather than
/// as typed text: with Control or Alt held, or when it types nothing.
/// Printable keys otherwise arrive through the text input path (which also
/// drives input methods), so encoding them too would send them twice.
pub open spec fn needs_encoding_of(name: Seq<char>, m: KeyMods) -> bool {
    m.control || m.alt || unshifted_of(name) is None
}

/// Whether a key is sent to the terminal as an escape sequence.
pub fn needs_encoding(name: &str, modifiers: &KeyMods) -> (r: bool)
    ensures
        r == needs_encoding_of(name@, *modifiers),
{
    modifiers.control || modifiers.alt || unshifted_codepoint(name).is_none()
}

/// The view of an optional text.
pub open spec fn opt_text(o: Option<String>) -> Option<Seq<char>> {
    match o {
        Some(s) => Some(s@),
        None => None,
    }
}

/// The key event for a keystroke, or nothing when the terminal does not
/// get it: platform shortcuts belong to the application, printable keys
/// arrive as text, and unknown keys are dropped.
pub fn key_input(keystroke: &Keystroke, composing: bool) -> (r: Option<KeyInput>)
    ensures
        keystroke.modifiers.platform || !needs_encoding_of(keystroke.key@, keystroke.modifiers)
            || key_for_name(keystroke.key@) is None ==> r is None,
        !keystroke.modifiers.platform && needs_encoding_of(keystroke.key@, keystroke.modifiers)
            && key_for_name(keystroke.key@) is Some ==> (r matches Some(i) && i.key == key_for_name(keystroke.key@)->0
                && i.mods == (VtMods {
                    ctrl: keystroke.modifiers.control,
                    alt: keystroke.modifiers.alt,
                    shift: keystroke.modifiers.shift,
                    super_key: keystroke.modifiers.platform,
                })
                && opt_text(i.text) == opt_text(keystroke.key_char)
                && i.unshifted == unshifted_of(keystroke.key@)
                && i.composing == composing),
{
    if keystroke.modifiers.platform {
        return None;
    }
    if !needs_encoding(keystroke.key.as_str(), &keystroke.modifiers) {
        return None;
    }
    let key = match key_from_name(keystroke.key.as_str()) {
        Some(k) => k,
        None => {
            return None;
        },
    };
    let text = match &keystroke.key_char {
        Some(t) => Some(t.clone()),
        None => None,
    };
    Some(KeyInput {
        key,
        mods: mods_from_keystroke(&keystroke.modifiers),
        text,
        unshifted: unshifted_codepoint(keystroke.key.as_str()),
        composing,
    })
}

// ---------------------------------------------------------------------------
// Plain encoding
// ---------------------------------------------------------------------------

/// The named keys of the plain encoding.
#[derive(Debug, Clone, Copy, PartialEq, Eq, Structural)]
pub enum NamedKey {
    Enter,
    Tab,
    Backspace,
    ArrowUp,
    ArrowDown,
    ArrowRight,
    ArrowLeft,
    Home,
    End,
    PageUp,
    PageDown,
    Delete,
    Insert,
    Space,
    /// A named key with no encoding.
    Other,
}

/// A key of the plain encoding.
#[derive(Debug, Clone)]
pub enum Key {
    /// A key that types text.
    Character(String),
    Named(NamedKey),
    /// A key that could not be identified.
    Unidentified,
}

/// The bytes of a named key.
pub open spec fn named_key_bytes(k: NamedKey) -> Seq<u8> {
    match k {
        NamedKey::Enter => seq![13u8],
        NamedKey::Tab => seq![9u8],
        NamedKey::Backspace => seq![127u8],
        NamedKey::ArrowUp => seq![27u8, 91u8, 65u8],
        NamedKey::ArrowDown => seq![27u8, 91u8, 66u8],
        NamedKey::ArrowRight => seq![27u8, 91u8, 67u8],
        NamedKey::ArrowLeft => seq![27u8, 91u8, 68u8],
        NamedKey::Home => seq![27u8, 91u8, 72u8],
        NamedKey::End => seq![27u8, 91u8, 70u8],
        NamedKey::PageUp => seq![27u8, 91u8, 53u8, 126u8],
        NamedKey::PageDown => seq![27u8, 91u8, 54u8, 126u8],
        NamedKey::Delete => seq![27u8, 91u8, 51u8, 126u8],
        NamedKey::Insert => seq![27u8, 91u8, 50u8, 126u8],
        NamedKey::Space => seq![32u8],
        NamedKey::Other => Seq::empty(),
    }
}

/// The bytes a key sends: Control with a lower-case letter sends its control
/// code; a character key sends its text (UTF-8); a named key its escape
/// sequence; anything else nothing.
pub open spec fn key_bytes(key: Key, control: bool) -> Seq<u8> {
    match key {
        Key::Character(s) => if control && s@.len() > 0 && 'a' <= s@[0] && s@[0] <= 'z' {
            seq![((s@[0] as u32) - 96) as u8]
        } else {
            encode_utf8(s@)
        },
        Key::Named(k) => named_key_bytes(k),
        Key::Unidentified => Seq::empty(),
    }
}

/// The bytes a key sends to the terminal.
pub fn key_to_terminal_bytes(key: &Key, control: bool) -> (b: Vec<u8>)
    ensures
        b@ == key_bytes(*key, control),
{
    match key {
        Key::Character(s) => {
            if control {
                let cs = crate::text::chars_of(s.as_str());
                if cs.len() > 0 && 'a' <= cs[0] && cs[0] <= 'z' {
                    let code = ((cs[0] as u32) - 96) as u8;
                    let mut v = Vec::new();
                    v.push(code);
                    assert(v@ =~= seq![code]);
                    return v;
                }
            }
            s.as_str().as_bytes_vec()
        },
        Key::Named(k) => {
            let v: Vec<u8> = match k {
                NamedKey::Enter => vec![13u8],
                NamedKey::Tab => vec![9u8],
                NamedKey::Backspace => vec![127u8],
                NamedKey::ArrowUp => vec![27u8, 91u8, 65u8],
                NamedKey::ArrowDown => vec![27u8, 91u8, 66u8],
                NamedKey::ArrowRight => vec![27u8, 91u8, 67u8],
                NamedKey::ArrowLeft => vec![27u8, 91u8, 68u8],
                NamedKey::Home => vec![27u8, 91u8, 72u8],
                NamedKey::End => vec![27u8, 91u8, 70u8],
                NamedKey::PageUp => vec![27u8, 91u8, 53u8, 126u8],
                NamedKey::PageDown => vec![27u8, 91u8, 54u8, 126u8],
                NamedKey::Delete => vec![27u8, 91u8, 51u8, 126u8],
                NamedKey::Insert => vec![27u8, 91u8, 50u8, 126u8],
                NamedKey::Space => vec![32u8],
                NamedKey::Other => Vec::new(),
            };
            assert(v@ =~= named_key_bytes(*k));
            v
        },
        Key::Unidentified => Vec::new(),
    }
}

} // verus!
