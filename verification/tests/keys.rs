use evp::keys::{char_to_key, lookup_key, plan_key_event, LogicalKey};
use evp::script::ast::{KeyAction, KeySpec, ModSet, NamedKey};

fn mods(ctrl: bool, shift: bool) -> ModSet {
    ModSet { ctrl, alt: false, shift, super_key: false }
}

#[test]
fn characters_map_to_the_keys_they_are_typed_with() {
    assert_eq!(char_to_key('a'), LogicalKey::Letter(0));
    assert_eq!(char_to_key('Z'), LogicalKey::Letter(25));
    assert_eq!(char_to_key('5'), LogicalKey::Digit(5));
    assert_eq!(char_to_key(')'), LogicalKey::Digit(0));
    assert_eq!(char_to_key('@'), LogicalKey::Digit(2));
    assert_eq!(char_to_key('('), LogicalKey::Digit(9));
    assert_eq!(char_to_key('_'), LogicalKey::Minus);
    assert_eq!(char_to_key('+'), LogicalKey::Equal);
    assert_eq!(char_to_key('{'), LogicalKey::BracketLeft);
    assert_eq!(char_to_key('|'), LogicalKey::Backslash);
    assert_eq!(char_to_key('"'), LogicalKey::Quote);
    assert_eq!(char_to_key('?'), LogicalKey::Slash);
    assert_eq!(char_to_key('~'), LogicalKey::Backquote);
    assert_eq!(char_to_key(' '), LogicalKey::Space);
    assert_eq!(char_to_key('é'), LogicalKey::Unidentified);
}

#[test]
fn named_keys_map_to_logical_keys() {
    assert_eq!(lookup_key(NamedKey::Space), (LogicalKey::Space, Some(" ")));
    assert_eq!(lookup_key(NamedKey::Enter), (LogicalKey::Enter, None));
    assert_eq!(lookup_key(NamedKey::Up), (LogicalKey::ArrowUp, None));
    assert_eq!(lookup_key(NamedKey::ScrollUp), (LogicalKey::PageUp, None));
    assert_eq!(lookup_key(NamedKey::ScrollDown), (LogicalKey::PageDown, None));
    assert_eq!(lookup_key(NamedKey::Super), (LogicalKey::MetaLeft, None));
    assert_eq!(lookup_key(NamedKey::Char('q')), (LogicalKey::Letter(16), None));
}

#[test]
fn ctrl_drops_the_typed_text() {
    let p = plan_key_event(KeySpec { key: NamedKey::Char('c'), mods: mods(true, false) }, KeyAction::Press);
    assert_eq!(p.key, LogicalKey::Letter(2));
    assert_eq!(p.text, None);
    assert_eq!(p.unshifted, Some('c'));
    assert_eq!(p.mods, mods(true, false));
    let p = plan_key_event(KeySpec { key: NamedKey::Char('C'), mods: mods(false, true) }, KeyAction::Release);
    assert_eq!(p.text, Some("C".to_string()));
    assert_eq!(p.unshifted, Some('c'));
    assert_eq!(p.action, KeyAction::Release);
    let p = plan_key_event(KeySpec { key: NamedKey::Space, mods: mods(false, false) }, KeyAction::Press);
    assert_eq!(p.text, Some(" ".to_string()));
    assert_eq!(p.unshifted, None);
    let p = plan_key_event(KeySpec { key: NamedKey::Space, mods: mods(true, false) }, KeyAction::Press);
    assert_eq!(p.text, None);
    let p = plan_key_event(KeySpec { key: NamedKey::Enter, mods: mods(false, false) }, KeyAction::Press);
    assert_eq!(p.key, LogicalKey::Enter);
    assert_eq!(p.text, None);
    assert_eq!(p.unshifted, None);
}
