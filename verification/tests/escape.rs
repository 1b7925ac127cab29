//! Exit combos.

use kloak::escape::{EscCombo, ParseError, DEFAULT_COMBO};

#[test]
fn default_parses() {
    let c = EscCombo::parse(DEFAULT_COMBO).unwrap();
    assert_eq!(c.slot_count(), 2);
    assert_eq!(c.slot(0), &[54]); // KEY_RIGHTSHIFT
    assert_eq!(c.slot(1), &[1]); // KEY_ESC
}

#[test]
fn alias_parses() {
    let c = EscCombo::parse("KEY_LEFTCTRL|KEY_RIGHTCTRL,KEY_ESC").unwrap();
    assert_eq!(c.slot_count(), 2);
    assert_eq!(c.slot(0), &[29, 97]);
    assert_eq!(c.slot(1), &[1]);
}

#[test]
fn empty_slot_rejected() {
    assert_eq!(
        EscCombo::parse("KEY_A,,KEY_B").unwrap_err(),
        ParseError::EmptySlot
    );
}

#[test]
fn empty_alias_rejected() {
    assert_eq!(
        EscCombo::parse("KEY_A|,KEY_B").unwrap_err(),
        ParseError::EmptyAlias
    );
}

#[test]
fn trailing_comma_rejected() {
    assert_eq!(
        EscCombo::parse("KEY_A,").unwrap_err(),
        ParseError::EmptySlot
    );
}

#[test]
fn unknown_key_rejected() {
    match EscCombo::parse("KEY_A,KEY_DOES_NOT_EXIST").unwrap_err() {
        ParseError::UnknownKey(n) => assert_eq!(n, "KEY_DOES_NOT_EXIST"),
        e => panic!("wrong err: {e:?}"),
    }
}

#[test]
fn empty_input_rejected() {
    assert_eq!(EscCombo::parse("").unwrap_err(), ParseError::EmptyInput);
}

#[test]
fn observe_triggers_only_when_all_slots_active() {
    let mut c = EscCombo::parse(DEFAULT_COMBO).unwrap();
    assert!(!c.observe(54, true), "only rightshift held");
    assert!(c.observe(1, true), "both held -> trigger");
    assert!(!c.observe(54, false), "release rightshift -> no trigger");
}

#[test]
fn observe_ignores_unrelated_keys() {
    let mut c = EscCombo::parse(DEFAULT_COMBO).unwrap();
    assert!(!c.observe(30, true), "KEY_A is not in the combo");
}

#[test]
fn observe_respects_aliases() {
    let mut c = EscCombo::parse("KEY_LEFTCTRL|KEY_RIGHTCTRL,KEY_ESC").unwrap();
    assert!(!c.observe(29, true), "ctrl down, esc up");
    assert!(c.observe(1, true), "ctrl + esc -> trigger");
    c.observe(1, false);
    assert!(!c.observe(97, true), "rightctrl (alias) up, esc released");
    assert!(c.observe(1, true), "rightctrl + esc -> trigger");
}

#[test]
fn errors_in_words() {
    assert_eq!(
        ParseError::EmptySlot.message(),
        "empty key name in escape key list"
    );
    assert_eq!(
        ParseError::EmptyAlias.message(),
        "empty key name in escape key list"
    );
    assert_eq!(
        ParseError::UnknownKey(String::from("KEY_X1")).message(),
        "unrecognized key name 'KEY_X1'"
    );
    assert_eq!(ParseError::EmptyInput.message(), "escape key list is empty");
}

#[test]
fn any_held_alias_holds_its_slot() {
    let mut c = EscCombo::parse("KEY_LEFTCTRL|KEY_RIGHTCTRL,KEY_ESC").unwrap();
    c.observe(29, true);
    c.observe(97, true);
    c.observe(29, false);
    // The right control key is still down.
    assert!(c.observe(1, true));
    assert!(!c.observe(97, false), "no control key is down any more");
    assert!(c.observe(29, true));
}

#[test]
fn key_listed_twice_counts_for_both_slots() {
    let mut c = EscCombo::parse("KEY_ESC,KEY_ESC").unwrap();
    assert!(c.observe(1, true));
    assert!(!c.observe(1, false));

    let mut c = EscCombo::parse("KEY_A|KEY_B,KEY_B|KEY_C").unwrap();
    assert!(c.observe(48, true), "KEY_B holds both slots");
    assert!(!c.observe(48, false));
    assert!(!c.observe(30, true));
    assert!(c.observe(46, true), "KEY_A and KEY_C hold one each");
}

#[test]
fn pressing_twice_is_released_once() {
    let mut c = EscCombo::parse("KEY_ESC").unwrap();
    assert!(c.observe(1, true));
    assert!(c.observe(1, true));
    assert!(c.observe(30, true), "other keys do not matter");
    assert!(!c.observe(1, false));
    assert!(!c.observe(30, false));
}
