//! The command line.

use kloak::config::{parse_args, try_parse_args, CliError, Config, ParseOutcome, USAGE};

fn parse(args: &[&str]) -> ParseOutcome {
    parse_args(args.iter().copied().map(String::from).collect())
}

fn ok(args: &[&str]) -> Config {
    match parse(args) {
        ParseOutcome::Parsed(c) => c,
        other => panic!("expected settings, got {other:?}"),
    }
}

fn err(args: &[&str]) -> String {
    match parse(args) {
        ParseOutcome::Error(m) => m,
        other => panic!("expected Error, got {other:?}"),
    }
}

#[test]
fn defaults() {
    let c = ok(&[]);
    assert_eq!(c.max_delay_ms, 100);
    assert_eq!(c.startup_delay_ms, 500);
    assert!(!c.natural_scrolling);
    assert_eq!(c.esc_combo.slot_count(), 2);
}

#[test]
fn help_flag_short() {
    assert!(matches!(parse(&["-h"]), ParseOutcome::Help));
}

#[test]
fn help_flag_long() {
    assert!(matches!(parse(&["--help"]), ParseOutcome::Help));
}

#[test]
fn delay_short_separated() {
    assert_eq!(ok(&["-d", "250"]).max_delay_ms, 250);
}

#[test]
fn delay_short_concatenated() {
    assert_eq!(ok(&["-d250"]).max_delay_ms, 250);
}

#[test]
fn delay_long_equals() {
    assert_eq!(ok(&["--delay=250"]).max_delay_ms, 250);
}

#[test]
fn delay_long_separated() {
    assert_eq!(ok(&["--delay", "250"]).max_delay_ms, 250);
}

#[test]
fn start_delay_parses() {
    assert_eq!(ok(&["-s", "1000"]).startup_delay_ms, 1000);
}

#[test]
fn delay_zero_is_valid() {
    assert_eq!(ok(&["-d", "0"]).max_delay_ms, 0);
}

#[test]
fn delay_at_i32_max() {
    assert_eq!(ok(&["-d", "2147483647"]).max_delay_ms, i32::MAX);
}

#[test]
fn delay_over_i32_max_rejected() {
    let m = err(&["-d", "2147483648"]);
    assert!(m.contains("invalid value"), "msg was: {m}");
}

#[test]
fn delay_negative_rejected() {
    let m = err(&["-d", "-1"]);
    assert!(m.contains("invalid value"), "msg was: {m}");
}

#[test]
fn delay_non_numeric_rejected() {
    let m = err(&["-d", "abc"]);
    assert!(m.contains("invalid value"), "msg was: {m}");
}

#[test]
fn delay_hex_rejected() {
    // Only decimal is read: no 0x prefix.
    let m = err(&["-d", "0x10"]);
    assert!(m.contains("invalid value"), "msg was: {m}");
}

#[test]
fn natural_scrolling_true() {
    assert!(ok(&["-n", "true"]).natural_scrolling);
}

#[test]
fn natural_scrolling_false() {
    assert!(!ok(&["-n", "false"]).natural_scrolling);
}

#[test]
fn natural_scrolling_nonsense_is_false() {
    // Anything but "true" is false.
    assert!(!ok(&["-n", "maybe"]).natural_scrolling);
}

#[test]
fn esc_combo_parses() {
    let c = ok(&["-k", "KEY_LEFTCTRL|KEY_RIGHTCTRL,KEY_ESC"]);
    assert_eq!(c.esc_combo.slot_count(), 2);
    assert_eq!(c.esc_combo.slot(0), &[29, 97]);
}

#[test]
fn esc_combo_unknown_rejected() {
    let m = err(&["-k", "KEY_NOT_REAL"]);
    assert!(m.contains("invalid esc-key-combo"), "msg was: {m}");
}

#[test]
fn unknown_flag_rejected() {
    assert!(matches!(parse(&["--frobnicate"]), ParseOutcome::Error(_)));
    assert!(matches!(parse(&["-Z"]), ParseOutcome::Error(_)));
}

#[test]
fn missing_value_rejected() {
    assert!(matches!(parse(&["-d"]), ParseOutcome::Error(_)));
    assert!(matches!(parse(&["--delay"]), ParseOutcome::Error(_)));
}

#[test]
fn multiple_flags() {
    let c = ok(&[
        "-d",
        "20",
        "-s",
        "50",
        "-n",
        "true",
        "-k",
        "KEY_LEFTSHIFT,KEY_ESC",
    ]);
    assert_eq!(c.max_delay_ms, 20);
    assert_eq!(c.startup_delay_ms, 50);
    assert!(c.natural_scrolling);
    assert_eq!(c.esc_combo.slot(0), &[42]);
}

#[test]
fn later_wins_on_repeated_flag() {
    // The last occurrence wins.
    assert_eq!(ok(&["-d", "10", "-d", "20"]).max_delay_ms, 20);
}

#[test]
fn forms_of_an_option_agree() {
    for args in [
        &["-s", "1000"][..],
        &["-s1000"],
        &["--start-delay", "1000"],
        &["--start-delay=1000"],
    ] {
        assert_eq!(ok(args).startup_delay_ms, 1000, "{args:?}");
    }
    for args in [
        &["-n", "true"][..],
        &["-ntrue"],
        &["--natural-scrolling", "true"],
        &["--natural-scrolling=true"],
    ] {
        assert!(ok(args).natural_scrolling, "{args:?}");
    }
    for args in [
        &["-k", "KEY_A"][..],
        &["-kKEY_A"],
        &["--esc-key-combo", "KEY_A"],
        &["--esc-key-combo=KEY_A"],
    ] {
        assert_eq!(ok(args).esc_combo.slot(0), &[30], "{args:?}");
    }
}

#[test]
fn messages_name_what_is_wrong() {
    assert_eq!(
        err(&["--frobnicate=3"]),
        "FATAL ERROR: unknown flag: --frobnicate=3"
    );
    assert_eq!(err(&["-Zabc"]), "FATAL ERROR: unknown flag: -Z");
    assert_eq!(err(&["-"]), "FATAL ERROR: unknown flag: -");
    assert_eq!(err(&["--"]), "FATAL ERROR: unknown flag: --");
    assert_eq!(err(&["word"]), "FATAL ERROR: unknown flag: word");
    assert_eq!(err(&[""]), "FATAL ERROR: unknown flag: ");
    assert_eq!(err(&["--help=1"]), "FATAL ERROR: unknown flag: --help=1");
    assert_eq!(
        err(&["-d"]),
        "FATAL ERROR: option '-d' requires an argument"
    );
    assert_eq!(
        err(&["--delay"]),
        "FATAL ERROR: option '--delay' requires an argument"
    );
    assert_eq!(
        err(&["-s", "12x"]),
        "FATAL ERROR: invalid value '12x' passed to 'start-delay'!"
    );
    assert_eq!(
        err(&["--delay="]),
        "FATAL ERROR: invalid value '' passed to 'delay'!"
    );
    assert_eq!(
        err(&["-d", "99999999999999999999999999"]),
        "FATAL ERROR: invalid value '99999999999999999999999999' passed to 'delay'!"
    );
    assert_eq!(
        err(&["-k", "KEY_A,"]),
        "FATAL ERROR: invalid esc-key-combo 'KEY_A,': empty key name in escape key list"
    );
    assert_eq!(
        err(&["-k", "KEY_A|"]),
        "FATAL ERROR: invalid esc-key-combo 'KEY_A|': empty key name in escape key list"
    );
    assert_eq!(
        err(&["-k", "KEY_X1"]),
        "FATAL ERROR: invalid esc-key-combo 'KEY_X1': unrecognized key name 'KEY_X1'"
    );
    assert_eq!(
        err(&["-k", ""]),
        "FATAL ERROR: invalid esc-key-combo '': escape key list is empty"
    );
}

#[test]
fn first_argument_that_decides_wins() {
    assert!(matches!(parse(&["-h", "--bogus"]), ParseOutcome::Help));
    assert!(matches!(parse(&["--bogus", "-h"]), ParseOutcome::Error(_)));
    assert!(matches!(parse(&["-hd"]), ParseOutcome::Help));
    // The argument after an option is its value, whatever it looks like.
    assert!(!ok(&["-n", "-h"]).natural_scrolling);
}

#[test]
fn values_may_hold_an_equals_sign() {
    assert_eq!(
        err(&["--delay=1=2"]),
        "FATAL ERROR: invalid value '1=2' passed to 'delay'!"
    );
}

#[test]
fn digits_of_other_scripts_are_refused() {
    assert!(matches!(parse(&["-d", "\u{661}"]), ParseOutcome::Error(_)));
    assert_eq!(ok(&["-d", "00042"]).max_delay_ms, 42);
}

#[test]
fn usage_names_every_option() {
    for flag in [
        "-h, --help",
        "-d, --delay",
        "-s, --start-delay",
        "-n, --natural-scrolling",
        "-k, --esc-key-combo",
    ] {
        assert!(USAGE.contains(flag), "{flag}");
    }
    assert!(USAGE.starts_with("Usage: kloak [options]\n"));
}

#[test]
fn leftmost_error_is_reported() {
    assert_eq!(
        err(&["-d", "x", "--bogus", "-h"]),
        "FATAL ERROR: invalid value 'x' passed to 'delay'!"
    );
    assert_eq!(
        err(&["--bogus", "-d", "x"]),
        "FATAL ERROR: unknown flag: --bogus"
    );
    // A missing value is supplied by what follows.
    assert_eq!(err(&["-d"]), "FATAL ERROR: option '-d' requires an argument");
    assert_eq!(ok(&["-d", "7"]).max_delay_ms, 7);
}

#[test]
fn help_ends_the_command_line() {
    assert!(matches!(parse(&["-d", "5", "--help", "-d", "x"]), ParseOutcome::Help));
    assert!(matches!(parse(&["-hello"]), ParseOutcome::Help));
    assert!(matches!(parse(&["-d", "--help"]), ParseOutcome::Error(_)));
    assert!(matches!(parse(&["--helpme"]), ParseOutcome::Error(_)));
}

#[test]
fn two_lists_combine_setting_by_setting() {
    let c = ok(&["-d", "1", "-s", "2", "-k", "KEY_A", "-d3", "--natural-scrolling=true"]);
    assert_eq!(c.max_delay_ms, 3);
    assert_eq!(c.startup_delay_ms, 2);
    assert!(c.natural_scrolling);
    assert_eq!(c.esc_combo.slot(0), &[30]);
}

#[test]
fn errors_are_told_apart() {
    let result = |args: &[&str]| {
        let args: Vec<String> = args.iter().copied().map(String::from).collect();
        try_parse_args(&args)
    };
    assert!(matches!(result(&["-d", "7"]), Ok(Some(c)) if c.max_delay_ms == 7));
    assert!(matches!(result(&["-h"]), Ok(None)));
    assert!(matches!(result(&["-Z"]), Err(CliError::UnknownFlag(f)) if f == "-Z"));
    assert!(matches!(result(&["--delay"]), Err(CliError::MissingValue(f)) if f == "--delay"));
    assert!(matches!(
        result(&["-s", "x"]),
        Err(CliError::InvalidInt { flag, value }) if flag == "start-delay" && value == "x"
    ));
    assert!(matches!(
        result(&["-k", ","]),
        Err(CliError::InvalidEscCombo { value, .. }) if value == ","
    ));
}
