//! What a script's key press asks of the terminal's key encoder: the
//! logical key, the modifiers, and the text that goes with it.

use vstd::prelude::*;
use crate::script::ast::{KeyAction, KeySpec, NamedKey};
use crate::script::ast::ModSet;
use crate::text::ascii_lower;

verus! {

/// The encoder's logical key codes that script keys map to: a letter key
/// (`0` for A up to `25` for Z), a digit key, and the named keys.
#[derive(Debug, Clone, Copy, PartialEq, Eq, Structural)]
pub enum LogicalKey {
    Letter(u8),
    Digit(u8),
    Minus,
    Equal,
    BracketLeft,
    BracketRight,
    Backslash,
    Semicolon,
    Quote,
    Comma,
    Period,
    Slash,
    Backquote,
    Space,
    Unidentified,
    Enter,
    Escape,
    Tab,
    Backspace,
    Delete,
    Insert,
    ArrowUp,
    ArrowDown,
    ArrowLeft,
    ArrowRight,
    PageUp,
    PageDown,
    Home,
    End,
    ShiftLeft,
    ControlLeft,
    AltLeft,
    MetaLeft,
}

/// The digit key that a shifted digit symbol is typed with (`)` is on 0,
/// `!` on 1, up to `(` on 9).
pub open spec fn shifted_digit(c: char) -> Option<u8> {
    if c == ')' {
        Some(0u8)
    } else if c == '!' {
        Some(1u8)
    } else if c == '@' {
        Some(2u8)
    } else if c == '#' {
        Some(3u8)
    } else if c == '$' {
        Some(4u8)
    } else if c == '%' {
        Some(5u8)
    } else if c == '^' {
        Some(6u8)
    } else if c == '&' {
        Some(7u8)
    } else if c == '*' {
        Some(8u8)
    } else if c == '(' {
        Some(9u8)
    } else {
        None
    }
}

/// The key a character is typed with on a US layout, upper- and lower-case
/// letters alike; characters off the ASCII keys are unidentified.
pub open spec fn spec_char_to_key(c: char) -> LogicalKey {
    let l = ascii_lower(c);
    if 'a' <= l <= 'z' {
        LogicalKey::Letter((l as u32 - 'a' as u32) as u8)
    } else if '0' <= l <= '9' {
        LogicalKey::Digit((l as u32 - '0' as u32) as u8)
    } else if shifted_digit(l) is Some {
        LogicalKey::Digit(shifted_digit(l)->0)
    } else if l == '-' || l == '_' {
        LogicalKey::Minus
    } else if l == '=' || l == '+' {
        LogicalKey::Equal
    } else if l == '[' || l == '{' {
        LogicalKey::BracketLeft
    } else if l == ']' || l == '}' {
        LogicalKey::BracketRight
    } else if l == '\\' || l == '|' {
        LogicalKey::Backslash
    } else if l == ';' || l == ':' {
        LogicalKey::Semicolon
    } else if l == '\'' || l == '"' {
        LogicalKey::Quote
    } else if l == ',' || l == '<' {
        LogicalKey::Comma
    } else if l == '.' || l == '>' {
        LogicalKey::Period
    } else if l == '/' || l == '?' {
        LogicalKey::Slash
    } else if l == '`' || l == '~' {
        LogicalKey::Backquote
    } else if l == ' ' {
        LogicalKey::Space
    } else {
        LogicalKey::Unidentified
    }
}

fn shifted_digit_exec(c: char) -> (r: Option<u8>)
    ensures
        r == shifted_digit(c),
{
    if c == ')' {
        Some(0)
    } else if c == '!' {
        Some(1)
    } else if c == '@' {
        Some(2)
    } else if c == '#' {
        Some(3)
    } else if c == '$' {
        Some(4)
    } else if c == '%' {
        Some(5)
    } else if c == '^' {
        Some(6)
    } else if c == '&' {
        Some(7)
    } else if c == '*' {
        Some(8)
    } else if c == '(' {
        Some(9)
    } else {
        None
    }
}

/// Maps a character to the key it is typed with.
pub fn char_to_key(c: char) -> (r: LogicalKey)
    ensures
        r == spec_char_to_key(c),
{
    let l = crate::text::ascii_lower_exec(c);
    if 'a' <= l && l <= 'z' {
        LogicalKey::Letter(((l as u32) - ('a' as u32)) as u8)
    } else if '0' <= l && l <= '9' {
        LogicalKey::Digit(((l as u32) - ('0' as u32)) as u8)
    } else if let Some(d) = shifted_digit_exec(l) {
        LogicalKey::Digit(d)
    } else if l == '-' || l == '_' {
        LogicalKey::Minus
    } else if l == '=' || l == '+' {
        LogicalKey::Equal
    } else if l == '[' || l == '{' {
        LogicalKey::BracketLeft
    } else if l == ']' || l == '}' {
        LogicalKey::BracketRight
    } else if l == '\\' || l == '|' {
        LogicalKey::Backslash
    } else if l == ';' || l == ':' {
        LogicalKey::Semicolon
    } else if l == '\'' || l == '"' {
        LogicalKey::Quote
    } else if l == ',' || l == '<' {
        LogicalKey::Comma
    } else if l == '.' || l == '>' {
        LogicalKey::Period
    } else if l == '/' || l == '?' {
        LogicalKey::Slash
    } else if l == '`' || l == '~' {
        LogicalKey::Backquote
    } else if l == ' ' {
        LogicalKey::Space
    } else {
        LogicalKey::Unidentified
    }
}

/// The logical key of a script key; modifier keys press their left-hand
/// key, Super the Meta key, and the scroll keys page up and down.
pub open spec fn spec_logical_key(k: NamedKey) -> LogicalKey {
    match k {
        NamedKey::Enter => LogicalKey::Enter,
        NamedKey::Escape => LogicalKey::Escape,
        NamedKey::Tab => LogicalKey::Tab,
        NamedKey::Backspace => LogicalKey::Backspace,
        NamedKey::Delete => LogicalKey::Delete,
        NamedKey::Insert => LogicalKey::Insert,
        NamedKey::Space => LogicalKey::Space,
        NamedKey::Up => LogicalKey::ArrowUp,
        NamedKey::Down => LogicalKey::ArrowDown,
        NamedKey::Left => LogicalKey::ArrowLeft,
        NamedKey::Right => LogicalKey::ArrowRight,
        NamedKey::PageUp => LogicalKey::PageUp,
        NamedKey::PageDown => LogicalKey::PageDown,
        NamedKey::Home => LogicalKey::Home,
        NamedKey::End => LogicalKey::End,
        NamedKey::Shift => LogicalKey::ShiftLeft,
        NamedKey::Control => LogicalKey::ControlLeft,
        NamedKey::Alt => LogicalKey::AltLeft,
        NamedKey::Super => LogicalKey::MetaLeft,
        NamedKey::ScrollUp => LogicalKey::PageUp,
        NamedKey::ScrollDown => LogicalKey::PageDown,
        NamedKey::Char(c) => spec_char_to_key(c),
    }
}

/// The logical key of a script key, and the text a named key types (only
/// Space types any).
pub fn lookup_key(k: NamedKey) -> (r: (LogicalKey, Option<&'static str>))
    ensures
        r.0 == spec_logical_key(k),
        match r.1 {
            Some(t) => k == NamedKey::Space && t@ == " "@,
            None => k != NamedKey::Space,
        },
{
    match k {
        NamedKey::Enter => (LogicalKey::Enter, None),
        NamedKey::Escape => (LogicalKey::Escape, None),
        NamedKey::Tab => (LogicalKey::Tab, None),
        NamedKey::Backspace => (LogicalKey::Backspace, None),
        NamedKey::Delete => (LogicalKey::Delete, None),
        NamedKey::Insert => (LogicalKey::Insert, None),
        NamedKey::Space => (LogicalKey::Space, Some(" ")),
        NamedKey::Up => (LogicalKey::ArrowUp, None),
        NamedKey::Down => (LogicalKey::ArrowDown, None),
        NamedKey::Left => (LogicalKey::ArrowLeft, None),
        NamedKey::Right => (LogicalKey::ArrowRight, None),
        NamedKey::PageUp => (LogicalKey::PageUp, None),
        NamedKey::PageDown => (LogicalKey::PageDown, None),
        NamedKey::Home => (LogicalKey::Home, None),
        NamedKey::End => (LogicalKey::End, None),
        NamedKey::Shift => (LogicalKey::ShiftLeft, None),
        NamedKey::Control => (LogicalKey::ControlLeft, None),
        NamedKey::Alt => (LogicalKey::AltLeft, None),
        NamedKey::Super => (LogicalKey::MetaLeft, None),
        NamedKey::ScrollUp => (LogicalKey::PageUp, None),
        NamedKey::ScrollDown => (LogicalKey::PageDown, None),
        NamedKey::Char(c) => (char_to_key(c), None),
    }
}

/// One key event as the encoder takes it: the logical key, whether it goes
/// down or up, the held modifiers, the text it types, and for a character
/// key the character without Shift.
#[derive(Debug)]
pub struct KeyEventPlan {
    pub key: LogicalKey,
    pub action: KeyAction,
    pub mods: ModSet,
    pub text: Option<String>,
    pub unshifted: Option<char>,
}

/// The text a key press hands the encoder: Space's blank or a character
/// key's character, and nothing while Ctrl is held, so that the encoder
/// sends the control byte (Ctrl+C is 0x03) rather than the character.
pub open spec fn spec_key_text(spec: KeySpec) -> Option<Seq<char>> {
    if spec.mods.ctrl {
        None
    } else {
        match spec.key {
            NamedKey::Space => Some(" "@),
            NamedKey::Char(c) => Some(seq![c]),
            _ => None,
        }
    }
}

/// Plans the encoder event of a script key press or release.
pub fn plan_key_event(spec: KeySpec, action: KeyAction) -> (r: KeyEventPlan)
    ensures
        r.key == spec_logical_key(spec.key),
        r.action == action,
        r.mods == spec.mods,
        match r.text {
            Some(t) => spec_key_text(spec) == Some(t@),
            None => spec_key_text(spec) is None,
        },
        r.unshifted == (match spec.key {
            NamedKey::Char(c) => Some(ascii_lower(c)),
            _ => None::<char>,
        }),
{
    let (key, named_text) = lookup_key(spec.key);
    let text = if spec.mods.ctrl {
        None
    } else {
        match named_text {
            Some(t) => Some(t.to_string()),
            None => match spec.key {
                NamedKey::Char(c) => {
                    let one: Vec<char> = vec![c];
                    assert(one@ =~= seq![c]);
                    Some(crate::text::string_from_chars(one.as_slice()))
                },
                _ => None,
            },
        }
    };
    let unshifted = match spec.key {
        NamedKey::Char(c) => Some(crate::text::ascii_lower_exec(c)),
        _ => None,
    };
    KeyEventPlan { key, action, mods: spec.mods, text, unshifted }
}

/// The two characters printed on a key of a US keyboard: the one it types
/// alone and the one it types with Shift (the space bar types a space
/// either way). Keys that type no character show two NULs.
pub open spec fn keycap(k: LogicalKey) -> (char, char) {
    match k {
        LogicalKey::Letter(i) => ((('a' as u32) + i) as char, (('A' as u32) + i) as char),
        LogicalKey::Digit(d) => (
            (('0' as u32) + d) as char,
            if d == 0 { ')' } else if d == 1 { '!' } else if d == 2 { '@' } else if d == 3 { '#' }
            else if d == 4 { '$' } else if d == 5 { '%' } else if d == 6 { '^' } else if d == 7 { '&' }
            else if d == 8 { '*' } else { '(' },
        ),
        LogicalKey::Minus => ('-', '_'),
        LogicalKey::Equal => ('=', '+'),
        LogicalKey::BracketLeft => ('[', '{'),
        LogicalKey::BracketRight => (']', '}'),
        LogicalKey::Backslash => ('\\', '|'),
        LogicalKey::Semicolon => (';', ':'),
        LogicalKey::Quote => ('\'', '"'),
        LogicalKey::Comma => (',', '<'),
        LogicalKey::Period => ('.', '>'),
        LogicalKey::Slash => ('/', '?'),
        LogicalKey::Backquote => ('`', '~'),
        LogicalKey::Space => (' ', ' '),
        _ => ('\0', '\0'),
    }
}

/// Every printable ASCII character is typed with the key whose cap shows
/// it, alone or with Shift (`.` and `>` with Period, `,` and `<` with
/// Comma, `A` and `a` with the same letter); any other character has no
/// key. Letter and digit keys are numbered within their rows.
pub proof fn lemma_char_key_shows_char(c: char)
    ensures
        ' ' <= c <= '~' ==> ({
            let k = spec_char_to_key(c);
            &&& keycap(k).0 == c || keycap(k).1 == c
            &&& k matches LogicalKey::Letter(i) ==> i < 26
            &&& k matches LogicalKey::Digit(d) ==> d < 10
        }),
        !(' ' <= c <= '~') ==> spec_char_to_key(c) is Unidentified,
{
    let l = crate::text::ascii_lower(c);
    if 'A' <= c <= 'Z' {
        assert(l == ((c as u32) + 32) as char);
    }
}

} // verus!
