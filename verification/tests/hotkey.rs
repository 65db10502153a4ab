//! Hotkey notation.

use aetheris::hotkey::{
    parse_hotkey, parse_key, MOD_ALT, MOD_CONTROL, MOD_SHIFT, MOD_WIN, VK_F1,
};

#[test]
fn ctrl_alt_o_maps_to_mod_control_alt_and_uppercase_vk() {
    let (m, vk) = parse_hotkey("ctrl+alt+o").unwrap();
    assert_eq!(m, MOD_CONTROL | MOD_ALT);
    assert_eq!(vk, b'O' as u32);
}

#[test]
fn f9_maps_to_vk_f9_with_no_modifiers() {
    let (m, vk) = parse_hotkey("f9").unwrap();
    assert_eq!(m, 0);
    assert_eq!(vk, 0x78);
}

#[test]
fn all_modifiers_and_f24() {
    let (m, vk) = parse_hotkey("ctrl+alt+shift+win+f24").unwrap();
    assert_eq!(m, MOD_CONTROL | MOD_ALT | MOD_SHIFT | MOD_WIN);
    assert_eq!(vk, 135u32);
}

#[test]
fn garbage_returns_none() {
    assert!(parse_hotkey("").is_none());
    assert!(parse_hotkey("++").is_none());
    assert!(parse_hotkey("ctrl+").is_none());
    assert!(parse_hotkey("ctrl+bogus").is_none());
    assert!(parse_hotkey("f25").is_none());
    assert!(parse_hotkey("ctrl+alt+f25").is_none());
    assert!(parse_hotkey("shift+ctrl+o+alt").is_none());
}

#[test]
fn case_and_blanks_do_not_matter() {
    assert_eq!(parse_hotkey(" CTRL + Shift + F1 "), Some((MOD_CONTROL | MOD_SHIFT, VK_F1)));
    assert_eq!(parse_hotkey("Win+é"), Some((MOD_WIN, 0xe9)));
    assert_eq!(parse_hotkey("alt+alt+1"), Some((MOD_ALT, b'1' as u32)));
}

#[test]
fn keys() {
    assert_eq!(parse_key("f"), Some(b'F' as u32));
    assert_eq!(parse_key("F05"), Some(VK_F1 + 4));
    assert_eq!(parse_key("f0"), None);
    assert_eq!(parse_key("foo"), None);
    assert_eq!(parse_key("ab"), None);
    assert_eq!(parse_key(""), None);
}
