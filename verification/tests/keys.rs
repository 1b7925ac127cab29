//! Key names.

use kloak::keys::{lookup, KEY_COUNT, KEY_TABLE};

#[test]
fn every_name_is_found_under_its_code() {
    assert_eq!(KEY_TABLE.len(), KEY_COUNT);
    for (name, code) in KEY_TABLE {
        assert_eq!(lookup(name), Some(code), "{name}");
    }
}

#[test]
fn well_known_codes() {
    assert_eq!(lookup("KEY_ESC"), Some(1));
    assert_eq!(lookup("KEY_A"), Some(30));
    assert_eq!(lookup("KEY_RIGHTSHIFT"), Some(54));
    assert_eq!(lookup("KEY_MICMUTE"), Some(248));
}

#[test]
fn other_names_are_not_found() {
    assert_eq!(lookup("KEY_DOES_NOT_EXIST"), None);
    assert_eq!(lookup("key_a"), None);
    assert_eq!(lookup(""), None);
}
