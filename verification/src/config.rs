//! Runtime configuration and the command line.
//!
//! - `-d`/`--delay` and `-s`/`--start-delay` take a decimal number of
//!   milliseconds up to `i32::MAX`.
//! - `-n`/`--natural-scrolling` takes any text; exactly `true` switches natural
//!   scrolling on, everything else switches it off.
//! - `-k`/`--esc-key-combo` takes an exit combo.
//! - `-h`/`--help` asks for the usage text.
//!
//! A value can stand in the argument after the option, or in the same one:
//! `-d 100`, `-d100`, `--delay 100`, `--delay=100`. Short options cannot be
//! chained.

use vstd::prelude::*;

use crate::escape::{
    combo_error_text, combo_slots, combo_wf, lemma_default_combo, lemma_slots_proper, ComboError,
    ComboState, EscCombo, ParseError, DEFAULT_COMBO,
};
use crate::text::{
    all_digits, chars_of, copy_range, decimal, decimal_up_to, decimal_value,
    law_decimal_round_trip, lemma_position, lemma_position_unique, position, read_decimal,
    same_text, starts_with, texts,
};

verus! {

pub const DEFAULT_MAX_DELAY_MS: i32 = 100;

pub const DEFAULT_STARTUP_DELAY_MS: i32 = 500;

pub const USAGE: &'static str = "\
Usage: kloak [options]
Anonymizes keyboard and mouse input timing by randomly delaying events.
Works on any Linux graphical stack: GNOME, KDE, wlroots, Xorg, tty.

Options:
  -h, --help                      Print help.
  -d, --delay=milliseconds        Max delay of released events. Default 100.
  -s, --start-delay=milliseconds  Time to wait before startup. Default 500.
  -n, --natural-scrolling=(true|false)
                                  Natural scrolling. Default false.
  -k, --esc-key-combo=KEY_1[,KEY_2|KEY_3...]
                                  Exit-combo. Default KEY_RIGHTSHIFT,KEY_ESC.
";

/// An option that takes a value.
#[derive(Debug, Clone, Copy, PartialEq, Eq, Structural)]
pub enum CliOption {
    Delay,
    StartDelay,
    NaturalScrolling,
    EscKeyCombo,
}

/// The long name of an option, without the dashes.
pub open spec fn long_name(option: CliOption) -> Seq<char> {
    match option {
        CliOption::Delay => "delay"@,
        CliOption::StartDelay => "start-delay"@,
        CliOption::NaturalScrolling => "natural-scrolling"@,
        CliOption::EscKeyCombo => "esc-key-combo"@,
    }
}

/// The letter of an option.
pub open spec fn letter(option: CliOption) -> char {
    match option {
        CliOption::Delay => 'd',
        CliOption::StartDelay => 's',
        CliOption::NaturalScrolling => 'n',
        CliOption::EscKeyCombo => 'k',
    }
}

/// The option with the given long name.
pub open spec fn option_named(name: Seq<char>) -> Option<CliOption> {
    if name == "delay"@ {
        Some(CliOption::Delay)
    } else if name == "start-delay"@ {
        Some(CliOption::StartDelay)
    } else if name == "natural-scrolling"@ {
        Some(CliOption::NaturalScrolling)
    } else if name == "esc-key-combo"@ {
        Some(CliOption::EscKeyCombo)
    } else {
        None
    }
}

/// The option with the given letter.
pub open spec fn option_lettered(c: char) -> Option<CliOption> {
    if c == 'd' {
        Some(CliOption::Delay)
    } else if c == 's' {
        Some(CliOption::StartDelay)
    } else if c == 'n' {
        Some(CliOption::NaturalScrolling)
    } else if c == 'k' {
        Some(CliOption::EscKeyCombo)
    } else {
        None
    }
}

/// What one argument of the command line says.
pub enum Meaning {
    Help,
    /// The option's value is the next argument; `flag` is what it was called.
    Needs { option: CliOption, flag: Seq<char> },
    /// The argument holds the option's value.
    Carries { option: CliOption, value: Seq<char> },
    /// Nothing known; what to complain about.
    Unknown(Seq<char>),
}

/// The meaning of `--` followed by `long`.
pub open spec fn long_meaning(arg: Seq<char>, long: Seq<char>) -> Meaning {
    let i = position(long, '=') as int;
    if long == "help"@ {
        Meaning::Help
    } else {
        match option_named(long.take(i)) {
            None => Meaning::Unknown(arg),
            Some(option) => if i < long.len() {
                Meaning::Carries { option, value: long.skip(i + 1) }
            } else {
                Meaning::Needs { option, flag: arg }
            },
        }
    }
}

/// The meaning of a single dash followed by `rest`.
pub open spec fn short_meaning(arg: Seq<char>, rest: Seq<char>) -> Meaning {
    if rest.len() == 0 {
        Meaning::Unknown(arg)
    } else if rest[0] == 'h' {
        Meaning::Help
    } else {
        match option_lettered(rest[0]) {
            None => Meaning::Unknown(arg.take(2)),
            Some(option) => if rest.len() > 1 {
                Meaning::Carries { option, value: rest.skip(1) }
            } else {
                Meaning::Needs { option, flag: arg }
            },
        }
    }
}

/// What the argument `arg` says.
pub open spec fn meaning(arg: Seq<char>) -> Meaning {
    if starts_with(arg, seq!['-', '-']) {
        long_meaning(arg, arg.skip(2))
    } else if starts_with(arg, seq!['-']) {
        short_meaning(arg, arg.skip(1))
    } else {
        Meaning::Unknown(arg)
    }
}

/// What a [`Config`] holds.
#[verifier::ext_equal]
pub struct Settings {
    pub max_delay_ms: i32,
    pub startup_delay_ms: i32,
    pub natural_scrolling: bool,
    pub esc_combo: ComboState,
}

/// A [`CliError`] with its texts as characters.
pub enum CliFault {
    UnknownFlag(Seq<char>),
    MissingValue(Seq<char>),
    InvalidInt { flag: Seq<char>, value: Seq<char> },
    InvalidEscCombo { value: Seq<char>, source: ComboError },
}

/// The combo with the given slots, no key of which is down.
pub open spec fn released_combo(slots: Seq<Seq<u32>>) -> ComboState {
    ComboState { slots, held: Set::empty() }
}

pub open spec fn default_settings() -> Settings {
    Settings {
        max_delay_ms: DEFAULT_MAX_DELAY_MS,
        startup_delay_ms: DEFAULT_STARTUP_DELAY_MS,
        natural_scrolling: false,
        esc_combo: released_combo(seq![seq![54u32], seq![1u32]]),
    }
}

/// The delays are not negative and the exit combo is a proper one.
pub open spec fn settings_wf(s: Settings) -> bool {
    &&& s.max_delay_ms >= 0
    &&& s.startup_delay_ms >= 0
    &&& combo_wf(s.esc_combo)
}

/// The number that `value` writes, if it is a decimal number up to `i32::MAX`.
pub open spec fn uint31(value: Seq<char>) -> Option<i32> {
    match decimal_up_to(value, i32::MAX as nat) {
        Some(n) => Some(n as i32),
        None => None,
    }
}

/// The settings with one option set.
pub open spec fn applied(s: Settings, option: CliOption, value: Seq<char>) -> Result<
    Settings,
    CliFault,
> {
    match option {
        CliOption::Delay => match uint31(value) {
            Some(max_delay_ms) => Ok(Settings { max_delay_ms, ..s }),
            None => Err(CliFault::InvalidInt { flag: long_name(option), value }),
        },
        CliOption::StartDelay => match uint31(value) {
            Some(startup_delay_ms) => Ok(Settings { startup_delay_ms, ..s }),
            None => Err(CliFault::InvalidInt { flag: long_name(option), value }),
        },
        CliOption::NaturalScrolling => Ok(
            Settings { natural_scrolling: value == "true"@, ..s },
        ),
        CliOption::EscKeyCombo => match combo_slots(value) {
            Ok(slots) => Ok(Settings { esc_combo: released_combo(slots), ..s }),
            Err(source) => Err(CliFault::InvalidEscCombo { value, source }),
        },
    }
}

/// What the arguments make of the settings `s`: new settings, or `None` when
/// help is asked for. They are taken in order, and the first that asks for help
/// or is wrong decides.
pub open spec fn run(s: Settings, args: Seq<Seq<char>>) -> Result<Option<Settings>, CliFault>
    decreases args.len(),
{
    if args.len() == 0 {
        Ok(Some(s))
    } else {
        match meaning(args[0]) {
            Meaning::Help => Ok(None),
            Meaning::Unknown(what) => Err(CliFault::UnknownFlag(what)),
            Meaning::Carries { option, value } => match applied(s, option, value) {
                Ok(next) => run(next, args.skip(1)),
                Err(fault) => Err(fault),
            },
            Meaning::Needs { option, flag } => if args.len() < 2 {
                Err(CliFault::MissingValue(flag))
            } else {
                match applied(s, option, args[1]) {
                    Ok(next) => run(next, args.skip(2)),
                    Err(fault) => Err(fault),
                }
            },
        }
    }
}

/// What [`CliError::message`] says.
pub open spec fn fault_text(fault: CliFault) -> Seq<char> {
    match fault {
        CliFault::UnknownFlag(flag) => "unknown flag: "@ + flag,
        CliFault::MissingValue(flag) => "option '"@ + flag + "' requires an argument"@,
        CliFault::InvalidInt { flag, value } => "invalid value '"@ + value + "' passed to '"@ + flag
            + "'!"@,
        CliFault::InvalidEscCombo { value, source } => "invalid esc-key-combo '"@ + value + "': "@
            + combo_error_text(source),
    }
}

/// Runtime configuration.
#[derive(Debug, Clone)]
pub struct Config {
    pub max_delay_ms: i32,
    pub startup_delay_ms: i32,
    pub natural_scrolling: bool,
    pub esc_combo: EscCombo,
}

impl View for Config {
    type V = Settings;

    open spec fn view(&self) -> Settings {
        Settings {
            max_delay_ms: self.max_delay_ms,
            startup_delay_ms: self.startup_delay_ms,
            natural_scrolling: self.natural_scrolling,
            esc_combo: self.esc_combo@,
        }
    }
}

impl Default for Config {
    fn default() -> (r: Self)
        ensures
            r@ == default_settings(),
            settings_wf(r@),
    {
        proof {
            lemma_default_combo();
        }
        let esc_combo = EscCombo::parse(DEFAULT_COMBO).unwrap();
        assert(esc_combo@ =~= released_combo(esc_combo@.slots));
        Config {
            max_delay_ms: DEFAULT_MAX_DELAY_MS,
            startup_delay_ms: DEFAULT_STARTUP_DELAY_MS,
            natural_scrolling: false,
            esc_combo,
        }
    }
}

/// What the command line comes to.
#[derive(Debug)]
pub enum ParseOutcome {
    Parsed(Config),
    /// Print the usage text and exit with 0.
    Help,
    /// Print the message and the usage text, and exit with 1.
    Error(String),
}

/// What is wrong with the command line.
#[derive(Debug)]
pub enum CliError {
    UnknownFlag(String),
    MissingValue(String),
    InvalidInt { flag: String, value: String },
    InvalidEscCombo { value: String, source: ParseError },
}

impl View for CliError {
    type V = CliFault;

    open spec fn view(&self) -> CliFault {
        match self {
            CliError::UnknownFlag(flag) => CliFault::UnknownFlag(flag@),
            CliError::MissingValue(flag) => CliFault::MissingValue(flag@),
            CliError::InvalidInt { flag, value } => CliFault::InvalidInt {
                flag: flag@,
                value: value@,
            },
            CliError::InvalidEscCombo { value, source } => CliFault::InvalidEscCombo {
                value: value@,
                source: source@,
            },
        }
    }
}

impl CliError {
    /// The error in words.
    pub fn message(&self) -> (r: String)
        ensures
            r@ == fault_text(self@),
    {
        let mut out = String::new();
        match self {
            CliError::UnknownFlag(flag) => {
                out.append("unknown flag: ");
                out.append(flag.as_str());
            },
            CliError::MissingValue(flag) => {
                out.append("option '");
                out.append(flag.as_str());
                out.append("' requires an argument");
            },
            CliError::InvalidInt { flag, value } => {
                out.append("invalid value '");
                out.append(value.as_str());
                out.append("' passed to '");
                out.append(flag.as_str());
                out.append("'!");
            },
            CliError::InvalidEscCombo { value, source } => {
                out.append("invalid esc-key-combo '");
                out.append(value.as_str());
                out.append("': ");
                out.append(source.message().as_str());
            },
        }
        assert(out@ =~= fault_text(self@));
        out
    }
}

/// The value of the delay option `flag`.
fn parse_uint31(flag: &str, value: &str) -> (r: Result<i32, CliError>)
    ensures
        match r {
            Ok(n) => uint31(value@) == Some(n),
            Err(e) => uint31(value@) is None && e@ == (CliFault::InvalidInt {
                flag: flag@,
                value: value@,
            }),
        },
{
    match read_decimal(value, i32::MAX as u64) {
        Some(n) => Ok(n as i32),
        None => Err(CliError::InvalidInt { flag: flag.to_owned(), value: value.to_owned() }),
    }
}

/// Set one option.
fn apply(option: CliOption, value: &str, cfg: &mut Config) -> (r: Result<(), CliError>)
    requires
        settings_wf(old(cfg)@),
    ensures
        settings_wf(final(cfg)@),
        match r {
            Ok(()) => applied(old(cfg)@, option, value@) == Ok::<Settings, CliFault>(final(cfg)@),
            Err(e) => applied(old(cfg)@, option, value@) == Err::<Settings, CliFault>(e@)
                && *final(cfg) == *old(cfg),
        },
{
    match option {
        CliOption::Delay => match parse_uint31("delay", value) {
            Ok(n) => {
                cfg.max_delay_ms = n;
                Ok(())
            },
            Err(e) => Err(e),
        },
        CliOption::StartDelay => match parse_uint31("start-delay", value) {
            Ok(n) => {
                cfg.startup_delay_ms = n;
                Ok(())
            },
            Err(e) => Err(e),
        },
        CliOption::NaturalScrolling => {
            cfg.natural_scrolling = same_text(value, "true");
            Ok(())
        },
        CliOption::EscKeyCombo => match EscCombo::parse(value) {
            Ok(combo) => {
                assert(combo@ =~= released_combo(combo@.slots));
                cfg.esc_combo = combo;
                Ok(())
            },
            Err(source) => Err(CliError::InvalidEscCombo { value: value.to_owned(), source }),
        },
    }
}

/// What one argument of the command line says.
enum Argument {
    Help,
    Needs { option: CliOption, flag: String },
    Carries { option: CliOption, value: String },
    Unknown(String),
}

impl View for Argument {
    type V = Meaning;

    closed spec fn view(&self) -> Meaning {
        match self {
            Argument::Help => Meaning::Help,
            Argument::Needs { option, flag } => Meaning::Needs { option: *option, flag: flag@ },
            Argument::Carries { option, value } => Meaning::Carries {
                option: *option,
                value: value@,
            },
            Argument::Unknown(what) => Meaning::Unknown(what@),
        }
    }
}

fn find_long(name: &str) -> (r: Option<CliOption>)
    ensures
        r == option_named(name@),
{
    if same_text(name, "delay") {
        Some(CliOption::Delay)
    } else if same_text(name, "start-delay") {
        Some(CliOption::StartDelay)
    } else if same_text(name, "natural-scrolling") {
        Some(CliOption::NaturalScrolling)
    } else if same_text(name, "esc-key-combo") {
        Some(CliOption::EscKeyCombo)
    } else {
        None
    }
}

fn find_short(c: char) -> (r: Option<CliOption>)
    ensures
        r == option_lettered(c),
{
    if c == 'd' {
        Some(CliOption::Delay)
    } else if c == 's' {
        Some(CliOption::StartDelay)
    } else if c == 'n' {
        Some(CliOption::NaturalScrolling)
    } else if c == 'k' {
        Some(CliOption::EscKeyCombo)
    } else {
        None
    }
}

/// Position of the first `=` in `chars[from..]`, counted from the start of
/// `chars`; its length when there is none.
fn find_equals(chars: &Vec<char>, from: usize) -> (r: usize)
    requires
        from <= chars@.len(),
    ensures
        from <= r <= chars@.len(),
        r - from == position(chars@.skip(from as int), '='),
{
    let mut i: usize = from;
    let ghost tail = chars@.skip(from as int);
    while i < chars.len() && chars[i] != '='
        invariant
            from <= i <= chars.len(),
            tail == chars@.skip(from as int),
            forall|j: int| 0 <= j < i - from ==> tail[j] != '=',
        decreases chars.len() - i,
    {
        assert(tail[i - from] == chars@[i as int]);
        i = i + 1;
    }
    proof {
        if i < chars.len() {
            assert(tail[i - from] == chars@[i as int]);
        }
        lemma_position_unique(tail, '=', i - from);
    }
    i
}

/// Read an argument that starts with two dashes.
fn read_long(arg: &str, chars: &Vec<char>) -> (r: Argument)
    requires
        chars@ == arg@,
        arg@.len() >= 2,
    ensures
        r@ == long_meaning(arg@, arg@.skip(2)),
{
    let len = chars.len();
    let long = copy_range(arg, 2, len);
    assert(long@ =~= arg@.skip(2));
    if same_text(long.as_str(), "help") {
        return Argument::Help;
    }
    let eq = find_equals(chars, 2);
    let name = copy_range(arg, 2, eq);
    assert(name@ =~= arg@.skip(2).take(eq - 2));
    match find_long(name.as_str()) {
        None => Argument::Unknown(arg.to_owned()),
        Some(option) => {
            if eq < len {
                let value = copy_range(arg, eq + 1, len);
                assert(value@ =~= arg@.skip(2).skip(eq - 2 + 1));
                Argument::Carries { option, value }
            } else {
                Argument::Needs { option, flag: arg.to_owned() }
            }
        },
    }
}

/// Read an argument that starts with one dash only.
fn read_short(arg: &str, chars: &Vec<char>) -> (r: Argument)
    requires
        chars@ == arg@,
        arg@.len() >= 1,
    ensures
        r@ == short_meaning(arg@, arg@.skip(1)),
{
    let len = chars.len();
    if len == 1 {
        return Argument::Unknown(arg.to_owned());
    }
    let c = chars[1];
    assert(arg@.skip(1)[0] == c);
    if c == 'h' {
        return Argument::Help;
    }
    match find_short(c) {
        None => {
            let what = copy_range(arg, 0, 2);
            assert(what@ =~= arg@.take(2));
            Argument::Unknown(what)
        },
        Some(option) => {
            if len > 2 {
                let value = copy_range(arg, 2, len);
                assert(value@ =~= arg@.skip(1).skip(1));
                Argument::Carries { option, value }
            } else {
                Argument::Needs { option, flag: arg.to_owned() }
            }
        },
    }
}

/// Read one argument.
fn read_argument(arg: &str) -> (r: Argument)
    ensures
        r@ == meaning(arg@),
{
    let chars = chars_of(arg);
    if chars.len() >= 1 && chars[0] == '-' {
        if chars.len() >= 2 && chars[1] == '-' {
            assert(arg@.take(2) =~= seq!['-', '-']);
            read_long(arg, &chars)
        } else {
            assert(arg@.take(1) =~= seq!['-']);
            proof {
                if starts_with(arg@, seq!['-', '-']) {
                    assert(arg@.take(2)[1] == arg@[1]);
                    assert(seq!['-', '-'][1] == '-');
                }
            }
            read_short(arg, &chars)
        }
    } else {
        proof {
            if starts_with(arg@, seq!['-', '-']) {
                assert(arg@.take(2)[0] == arg@[0]);
                assert(seq!['-', '-'][0] == '-');
            }
            if starts_with(arg@, seq!['-']) {
                assert(arg@.take(1)[0] == arg@[0]);
                assert(seq!['-'][0] == '-');
            }
        }
        Argument::Unknown(arg.to_owned())
    }
}

/// Parse the command line; `None` when help is asked for. `args` does not hold
/// the program name.
pub fn try_parse_args(args: &Vec<String>) -> (r: Result<Option<Config>, CliError>)
    ensures
        match r {
            Ok(Some(cfg)) => settings_wf(cfg@) && run(default_settings(), texts(args@)) == Ok::<
                Option<Settings>,
                CliFault,
            >(Some(cfg@)),
            Ok(None) => run(default_settings(), texts(args@)) == Ok::<Option<Settings>, CliFault>(
                None,
            ),
            Err(e) => run(default_settings(), texts(args@)) == Err::<Option<Settings>, CliFault>(
                e@,
            ),
        },
{
    let mut cfg = Config::default();
    let ghost all = texts(args@);
    let mut i: usize = 0;
    assert(all.skip(0) =~= all);
    while i < args.len()
        invariant
            i <= args.len(),
            all == texts(args@),
            settings_wf(cfg@),
            run(default_settings(), all) == run(cfg@, all.skip(i as int)),
        decreases args.len() - i,
    {
        let ghost left = all.skip(i as int);
        let arg = args[i].as_str();
        assert(left[0] == arg@);
        assert(left.skip(1) =~= all.skip(i + 1));
        match read_argument(arg) {
            Argument::Help => {
                return Ok(None);
            },
            Argument::Unknown(what) => {
                return Err(CliError::UnknownFlag(what));
            },
            Argument::Carries { option, value } => {
                match apply(option, value.as_str(), &mut cfg) {
                    Ok(()) => {},
                    Err(e) => {
                        return Err(e);
                    },
                }
                i = i + 1;
            },
            Argument::Needs { option, flag } => {
                if i + 1 >= args.len() {
                    return Err(CliError::MissingValue(flag));
                }
                let value = args[i + 1].as_str();
                assert(left[1] == value@);
                assert(left.skip(2) =~= all.skip(i + 2));
                match apply(option, value, &mut cfg) {
                    Ok(()) => {},
                    Err(e) => {
                        return Err(e);
                    },
                }
                i = i + 2;
            },
        }
    }
    Ok(Some(cfg))
}

/// Parse the command line. `args` does not hold the program name.
pub fn parse_args(args: Vec<String>) -> (r: ParseOutcome)
    ensures
        match r {
            ParseOutcome::Parsed(cfg) => settings_wf(cfg@) && run(default_settings(), texts(args@))
                == Ok::<Option<Settings>, CliFault>(Some(cfg@)),
            ParseOutcome::Help => run(default_settings(), texts(args@)) == Ok::<
                Option<Settings>,
                CliFault,
            >(None),
            ParseOutcome::Error(message) => run(default_settings(), texts(args@)) matches Err(fault)
                && message@ == "FATAL ERROR: "@ + fault_text(fault),
        },
{
    match try_parse_args(&args) {
        Ok(Some(cfg)) => ParseOutcome::Parsed(cfg),
        Ok(None) => ParseOutcome::Help,
        Err(e) => {
            let mut message = String::new();
            message.append("FATAL ERROR: ");
            message.append(e.message().as_str());
            assert(message@ =~= "FATAL ERROR: "@ + fault_text(e@));
            ParseOutcome::Error(message)
        },
    }
}

/// The arguments are taken one after the other: what `first` makes of the
/// settings is what `second` starts from.
pub proof fn law_arguments_in_order(s: Settings, first: Seq<Seq<char>>, second: Seq<Seq<char>>)
    requires
        run(s, first) matches Ok(Some(_)),
    ensures
        run(s, first + second) == run(run(s, first)->Ok_0->0, second),
    decreases first.len(),
{
    let both = first + second;
    if first.len() == 0 {
        assert(both =~= second);
    } else {
        assert(both[0] == first[0]);
        match meaning(first[0]) {
            Meaning::Carries { option, value } => {
                assert(both.skip(1) =~= first.skip(1) + second);
                law_arguments_in_order(applied(s, option, value)->Ok_0, first.skip(1), second);
            },
            Meaning::Needs { option, flag } => {
                assert(both[1] == first[1]);
                assert(both.skip(2) =~= first.skip(2) + second);
                law_arguments_in_order(applied(s, option, first[1])->Ok_0, first.skip(2), second);
            },
            _ => {},
        }
    }
}

/// Once help is asked for, nothing after it is looked at.
pub proof fn law_help_decides(s: Settings, first: Seq<Seq<char>>, second: Seq<Seq<char>>)
    requires
        run(s, first) == Ok::<Option<Settings>, CliFault>(None),
    ensures
        run(s, first + second) == Ok::<Option<Settings>, CliFault>(None),
{
    lemma_decided(s, first, second);
}

/// The leftmost error is the one that is reported, whatever follows it; only a
/// missing value can be supplied by what follows.
pub proof fn law_leftmost_error_decides(
    s: Settings,
    first: Seq<Seq<char>>,
    second: Seq<Seq<char>>,
)
    requires
        run(s, first) is Err,
        !(run(s, first)->Err_0 is MissingValue),
    ensures
        run(s, first + second) == run(s, first),
{
    lemma_decided(s, first, second);
}

/// What was decided within `first` stays decided.
proof fn lemma_decided(s: Settings, first: Seq<Seq<char>>, second: Seq<Seq<char>>)
    requires
        match run(s, first) {
            Ok(outcome) => outcome is None,
            Err(fault) => !(fault is MissingValue),
        },
    ensures
        run(s, first + second) == run(s, first),
    decreases first.len(),
{
    let both = first + second;
    if first.len() > 0 {
        assert(both[0] == first[0]);
        match meaning(first[0]) {
            Meaning::Carries { option, value } => {
                if let Ok(next) = applied(s, option, value) {
                    assert(both.skip(1) =~= first.skip(1) + second);
                    lemma_decided(next, first.skip(1), second);
                }
            },
            Meaning::Needs { option, flag } => {
                assert(both[1] == first[1]);
                if let Ok(next) = applied(s, option, first[1]) {
                    assert(both.skip(2) =~= first.skip(2) + second);
                    lemma_decided(next, first.skip(2), second);
                }
            },
            _ => {},
        }
    }
}

/// Argument `k` is reached: the arguments before it are complete and right.
pub open spec fn reached(s: Settings, args: Seq<Seq<char>>, k: int) -> bool {
    0 <= k < args.len() && (run(s, args.take(k)) matches Ok(Some(_)))
}

/// Help is asked for exactly if an argument that asks for it is reached, that
/// is, stands neither to the right of an error nor in the place of a value.
pub proof fn law_when_help_is_given(s: Settings, args: Seq<Seq<char>>)
    ensures
        run(s, args) == Ok::<Option<Settings>, CliFault>(None) <==> exists|k: int| #[trigger]
            reached(s, args, k) && meaning(args[k]) is Help,
{
    if run(s, args) == Ok::<Option<Settings>, CliFault>(None) {
        let k = lemma_help_reached(s, args);
        assert(reached(s, args, k));
    }
    assert forall|k: int| #[trigger] reached(s, args, k) && meaning(args[k]) is Help implies run(
        s,
        args,
    ) == Ok::<Option<Settings>, CliFault>(None) by {
        law_arguments_in_order(s, args.take(k), args.skip(k));
        assert(args.take(k) + args.skip(k) =~= args);
        assert(args.skip(k)[0] == args[k]);
    }
}

/// Where help is asked for.
proof fn lemma_help_reached(s: Settings, args: Seq<Seq<char>>) -> (k: int)
    requires
        run(s, args) == Ok::<Option<Settings>, CliFault>(None),
    ensures
        reached(s, args, k),
        meaning(args[k]) is Help,
    decreases args.len(),
{
    assert(args.take(0) =~= Seq::empty());
    match meaning(args[0]) {
        Meaning::Carries { option, value } => {
            let next = applied(s, option, value)->Ok_0;
            let k = lemma_help_reached(next, args.skip(1));
            assert(args.take(k + 1)[0] == args[0]);
            assert(args.take(k + 1).skip(1) =~= args.skip(1).take(k));
            k + 1
        },
        Meaning::Needs { option, flag } => {
            let next = applied(s, option, args[1])->Ok_0;
            let k = lemma_help_reached(next, args.skip(2));
            assert(args.take(k + 2)[0] == args[0]);
            assert(args.take(k + 2)[1] == args[1]);
            assert(args.take(k + 2).skip(2) =~= args.skip(2).take(k));
            k + 2
        },
        _ => 0,
    }
}

/// The arguments that ask for help: `--help`, and whatever starts with `-h`.
pub proof fn law_help_forms(arg: Seq<char>)
    ensures
        meaning(arg) is Help <==> arg == "--help"@ || starts_with(arg, seq!['-', 'h']),
{
    reveal_strlit("--help");
    reveal_strlit("help");
    let dashes = seq!['-', '-'];
    let dash = seq!['-'];
    let short = seq!['-', 'h'];
    assert(dashes[0] == '-' && dashes[1] == '-' && dash[0] == '-');
    assert(short[0] == '-' && short[1] == 'h');
    if starts_with(arg, dashes) {
        assert(arg.take(2)[0] == arg[0] && arg.take(2)[1] == arg[1]);
        if arg.skip(2) == "help"@ {
            assert(arg =~= dashes + arg.skip(2));
            assert("--help"@ =~= dashes + "help"@);
        }
        if arg == "--help"@ {
            assert(arg.skip(2) =~= "help"@);
        }
    } else if starts_with(arg, dash) {
        assert(arg.take(1)[0] == arg[0]);
        if arg.len() >= 2 {
            assert(arg.skip(1)[0] == arg[1]);
            if arg[1] == 'h' {
                assert(arg.take(2) =~= short);
            }
            if starts_with(arg, short) {
                assert(arg.take(2)[1] == arg[1]);
            }
        }
        if arg == "--help"@ {
            assert(arg.take(2) =~= dashes);
        }
    } else {
        if arg == "--help"@ {
            assert(arg.take(2) =~= dashes);
        }
        if starts_with(arg, short) {
            assert(arg.take(2)[0] == arg[0]);
            assert(arg.take(1) =~= dash);
        }
    }
}

/// Do the arguments set the option?
pub open spec fn sets(args: Seq<Seq<char>>, wanted: CliOption) -> bool
    decreases args.len(),
{
    if args.len() == 0 {
        false
    } else {
        match meaning(args[0]) {
            Meaning::Carries { option, value } => option == wanted || sets(args.skip(1), wanted),
            Meaning::Needs { option, flag } => option == wanted || (args.len() >= 2 && sets(
                args.skip(2),
                wanted,
            )),
            _ => false,
        }
    }
}

/// Do two settings agree on what an option sets?
pub open spec fn agree_on(s: Settings, t: Settings, option: CliOption) -> bool {
    match option {
        CliOption::Delay => s.max_delay_ms == t.max_delay_ms,
        CliOption::StartDelay => s.startup_delay_ms == t.startup_delay_ms,
        CliOption::NaturalScrolling => s.natural_scrolling == t.natural_scrolling,
        CliOption::EscKeyCombo => s.esc_combo == t.esc_combo,
    }
}

/// Two argument lists that are right are right together, and each setting comes
/// from the second if that sets it, else from the first. So the last value of an
/// option counts, and options for different settings do not disturb each other.
pub proof fn law_lists_combine(
    s: Settings,
    first: Seq<Seq<char>>,
    second: Seq<Seq<char>>,
    option: CliOption,
)
    requires
        run(s, first) matches Ok(Some(_)),
        run(s, second) matches Ok(Some(_)),
    ensures
        run(s, first + second) matches Ok(Some(both)) && if sets(second, option) {
            agree_on(both, run(s, second)->Ok_0->0, option)
        } else {
            agree_on(both, run(s, first)->Ok_0->0, option)
        },
{
    law_arguments_in_order(s, first, second);
    lemma_sets(s, run(s, first)->Ok_0->0, second, option);
}

/// What arguments do does not depend on the settings they start from: the
/// options they set come out the same, the others stay.
proof fn lemma_sets(s: Settings, t: Settings, args: Seq<Seq<char>>, option: CliOption)
    requires
        run(s, args) matches Ok(Some(_)),
    ensures
        run(t, args) matches Ok(Some(_)),
        sets(args, option) ==> agree_on(run(s, args)->Ok_0->0, run(t, args)->Ok_0->0, option),
        !sets(args, option) ==> agree_on(run(t, args)->Ok_0->0, t, option),
        agree_on(s, t, option) ==> agree_on(
            run(s, args)->Ok_0->0,
            run(t, args)->Ok_0->0,
            option,
        ),
    decreases args.len(),
{
    if args.len() > 0 {
        match meaning(args[0]) {
            Meaning::Carries { option: set, value } => {
                lemma_sets(
                    applied(s, set, value)->Ok_0,
                    applied(t, set, value)->Ok_0,
                    args.skip(1),
                    option,
                );
            },
            Meaning::Needs { option: set, flag } => {
                lemma_sets(
                    applied(s, set, args[1])->Ok_0,
                    applied(t, set, args[1])->Ok_0,
                    args.skip(2),
                    option,
                );
            },
            _ => {},
        }
    }
}

/// Whatever the command line, the settings that come out of it are valid.
pub proof fn law_settings_stay_valid(s: Settings, args: Seq<Seq<char>>)
    requires
        settings_wf(s),
    ensures
        run(s, args) matches Ok(Some(next)) ==> settings_wf(next),
    decreases args.len(),
{
    if args.len() > 0 {
        match meaning(args[0]) {
            Meaning::Carries { option, value } => {
                lemma_applied_valid(s, option, value);
                if let Ok(next) = applied(s, option, value) {
                    law_settings_stay_valid(next, args.skip(1));
                }
            },
            Meaning::Needs { option, flag } => {
                if args.len() >= 2 {
                    lemma_applied_valid(s, option, args[1]);
                    if let Ok(next) = applied(s, option, args[1]) {
                        law_settings_stay_valid(next, args.skip(2));
                    }
                }
            },
            _ => {},
        }
    }
}

/// Setting an option keeps the settings valid.
proof fn lemma_applied_valid(s: Settings, option: CliOption, value: Seq<char>)
    requires
        settings_wf(s),
    ensures
        applied(s, option, value) matches Ok(next) ==> settings_wf(next),
{
    if option == CliOption::EscKeyCombo {
        if let Ok(slots) = combo_slots(value) {
            lemma_slots_proper(value, slots);
        }
    }
}

/// When an option is given twice, the last value counts.
pub proof fn law_last_value_wins(
    s: Settings,
    option: CliOption,
    earlier: Seq<char>,
    later: Seq<char>,
)
    requires
        applied(s, option, earlier) is Ok,
    ensures
        applied(applied(s, option, earlier)->Ok_0, option, later) == applied(s, option, later),
{
}

/// The order of different options does not matter.
pub proof fn law_options_are_independent(
    s: Settings,
    one: CliOption,
    one_value: Seq<char>,
    other: CliOption,
    other_value: Seq<char>,
)
    requires
        one != other,
        applied(s, one, one_value) is Ok,
        applied(s, other, other_value) is Ok,
    ensures
        applied(applied(s, one, one_value)->Ok_0, other, other_value) == applied(
            applied(s, other, other_value)->Ok_0,
            one,
            one_value,
        ),
{
}

/// The long names are what [`option_named`] knows, and none of them holds `=`.
proof fn lemma_long_names(option: CliOption)
    ensures
        option_named(long_name(option)) == Some(option),
        position(long_name(option), '=') == long_name(option).len(),
        long_name(option) != "help"@,
        long_name(option).len() > 4,
{
    reveal_strlit("delay");
    reveal_strlit("start-delay");
    reveal_strlit("natural-scrolling");
    reveal_strlit("esc-key-combo");
    reveal_strlit("help");
    assert("delay"@.len() == 5 && "start-delay"@.len() == 11 && "natural-scrolling"@.len() == 17
        && "esc-key-combo"@.len() == 13);
    lemma_position_unique(long_name(option), '=', long_name(option).len() as int);
}

/// The short form of an option.
pub open spec fn short_flag(option: CliOption) -> Seq<char> {
    seq!['-', letter(option)]
}

/// The long form of an option.
pub open spec fn long_flag(option: CliOption) -> Seq<char> {
    seq!['-', '-'] + long_name(option)
}

/// What the four ways of writing an option mean.
proof fn lemma_forms(option: CliOption, value: Seq<char>)
    ensures
        meaning(short_flag(option)) == (Meaning::Needs { option, flag: short_flag(option) }),
        meaning(long_flag(option)) == (Meaning::Needs { option, flag: long_flag(option) }),
        meaning(long_flag(option) + seq!['='] + value) == (Meaning::Carries { option, value }),
        value.len() > 0 ==> meaning(short_flag(option) + value) == (Meaning::Carries {
            option,
            value,
        }),
{
    let name = long_name(option);
    lemma_long_names(option);
    let short = short_flag(option);
    assert(short.skip(1)[0] == letter(option));
    assert(short.take(1) =~= seq!['-']);
    assert(!starts_with(short, seq!['-', '-'])) by {
        assert(short.take(2)[1] == letter(option));
        assert(seq!['-', '-'][1] == '-');
    }
    let long = long_flag(option);
    assert(long.take(2) =~= seq!['-', '-']);
    assert(long.skip(2) =~= name);
    assert(name.take(name.len() as int) =~= name);
    let joined = long + seq!['='] + value;
    let tail = joined.skip(2);
    assert(joined.take(2) =~= seq!['-', '-']);
    assert(tail =~= name + seq!['='] + value);
    lemma_position(name, '=');
    lemma_position_unique(tail, '=', name.len() as int);
    assert(tail.take(name.len() as int) =~= name);
    assert(tail.skip(name.len() as int + 1) =~= value);
    assert(tail != "help"@) by {
        reveal_strlit("help");
    }
    if value.len() > 0 {
        let glued = short + value;
        assert(glued.take(1) =~= seq!['-']);
        assert(!starts_with(glued, seq!['-', '-'])) by {
            assert(glued.take(2)[1] == letter(option));
            assert(seq!['-', '-'][1] == '-');
        }
        assert(glued.skip(1)[0] == letter(option));
        assert(glued.skip(1).skip(1) =~= value);
    }
}

/// `-d V`, `--delay V` and `--delay=V` say the same, and so does `-dV` unless
/// `V` is empty; likewise for the other options.
pub proof fn law_option_forms_agree(
    s: Settings,
    option: CliOption,
    value: Seq<char>,
    rest: Seq<Seq<char>>,
)
    ensures
        ({
            let set = match applied(s, option, value) {
                Ok(next) => run(next, rest),
                Err(fault) => Err(fault),
            };
            &&& run(s, seq![short_flag(option), value] + rest) == set
            &&& run(s, seq![long_flag(option), value] + rest) == set
            &&& run(s, seq![long_flag(option) + seq!['='] + value] + rest) == set
            &&& value.len() > 0 ==> run(s, seq![short_flag(option) + value] + rest) == set
        }),
{
    lemma_forms(option, value);
    let short = seq![short_flag(option), value] + rest;
    assert(short[0] == short_flag(option) && short[1] == value);
    assert(short.skip(2) =~= rest);
    let long = seq![long_flag(option), value] + rest;
    assert(long[0] == long_flag(option) && long[1] == value);
    assert(long.skip(2) =~= rest);
    let joined = seq![long_flag(option) + seq!['='] + value] + rest;
    assert(joined[0] == long_flag(option) + seq!['='] + value);
    assert(joined.skip(1) =~= rest);
    let glued = seq![short_flag(option) + value] + rest;
    assert(glued[0] == short_flag(option) + value);
    assert(glued.skip(1) =~= rest);
}

/// Nothing on the command line leaves everything at its default: delays of at most
/// 100 milliseconds, half a second before the start, scrolling as the wheel turns,
/// and right shift with escape to exit.
pub proof fn law_defaults()
    ensures
        run(default_settings(), Seq::empty()) == Ok::<Option<Settings>, CliFault>(
            Some(default_settings()),
        ),
        default_settings().max_delay_ms == 100,
        default_settings().startup_delay_ms == 500,
        !default_settings().natural_scrolling,
        combo_slots("KEY_RIGHTSHIFT,KEY_ESC"@) == Ok::<Seq<Seq<u32>>, ComboError>(
            default_settings().esc_combo.slots,
        ),
        default_settings().esc_combo.held == Set::<u32>::empty(),
{
    lemma_default_combo();
}

/// The names of the options are what the usage text says.
proof fn lemma_option_names()
    ensures
        "-d"@ == short_flag(CliOption::Delay),
        "-s"@ == short_flag(CliOption::StartDelay),
        "-n"@ == short_flag(CliOption::NaturalScrolling),
        "-k"@ == short_flag(CliOption::EscKeyCombo),
        "--delay"@ == long_flag(CliOption::Delay),
        "--start-delay"@ == long_flag(CliOption::StartDelay),
        "--natural-scrolling"@ == long_flag(CliOption::NaturalScrolling),
        "--esc-key-combo"@ == long_flag(CliOption::EscKeyCombo),
{
    reveal_strlit("-d");
    reveal_strlit("-s");
    reveal_strlit("-n");
    reveal_strlit("-k");
    reveal_strlit("delay");
    reveal_strlit("--delay");
    reveal_strlit("start-delay");
    reveal_strlit("--start-delay");
    reveal_strlit("natural-scrolling");
    reveal_strlit("--natural-scrolling");
    reveal_strlit("esc-key-combo");
    reveal_strlit("--esc-key-combo");
    assert("-d"@ =~= short_flag(CliOption::Delay));
    assert("-s"@ =~= short_flag(CliOption::StartDelay));
    assert("-n"@ =~= short_flag(CliOption::NaturalScrolling));
    assert("-k"@ =~= short_flag(CliOption::EscKeyCombo));
    assert("--delay"@ =~= long_flag(CliOption::Delay));
    assert("--start-delay"@ =~= long_flag(CliOption::StartDelay));
    assert("--natural-scrolling"@ =~= long_flag(CliOption::NaturalScrolling));
    assert("--esc-key-combo"@ =~= long_flag(CliOption::EscKeyCombo));
}

/// What one option with its value makes of the settings, in both spellings.
proof fn lemma_one_option(s: Settings, option: CliOption, value: Seq<char>)
    ensures
        ({
            let set = match applied(s, option, value) {
                Ok(next) => Ok(Some(next)),
                Err(fault) => Err(fault),
            };
            &&& run(s, seq![short_flag(option), value]) == set
            &&& run(s, seq![long_flag(option), value]) == set
        }),
{
    let none = Seq::<Seq<char>>::empty();
    law_option_forms_agree(s, option, value, none);
    assert(seq![short_flag(option), value] + none =~= seq![short_flag(option), value]);
    assert(seq![long_flag(option), value] + none =~= seq![long_flag(option), value]);
}

/// A delay is taken as it is written, up to the largest that there is, and changes
/// nothing else.
pub proof fn law_delays_taken_as_written(s: Settings, n: nat)
    requires
        n <= i32::MAX,
    ensures
        ({
            let longest = Ok::<Option<Settings>, CliFault>(
                Some(Settings { max_delay_ms: n as i32, ..s }),
            );
            let first = Ok::<Option<Settings>, CliFault>(
                Some(Settings { startup_delay_ms: n as i32, ..s }),
            );
            &&& run(s, seq!["-d"@, decimal(n)]) == longest
            &&& run(s, seq!["--delay"@, decimal(n)]) == longest
            &&& run(s, seq!["-s"@, decimal(n)]) == first
            &&& run(s, seq!["--start-delay"@, decimal(n)]) == first
        }),
{
    lemma_option_names();
    law_decimal_round_trip(n);
    lemma_one_option(s, CliOption::Delay, decimal(n));
    lemma_one_option(s, CliOption::StartDelay, decimal(n));
}

/// A delay is refused exactly if it is empty, holds anything but digits, or is too
/// large; the error names the option and the value.
pub proof fn law_delays_refused(s: Settings, value: Seq<char>)
    ensures
        ({
            let proper = value.len() > 0 && (forall|i: int|
                0 <= i < value.len() ==> '0' <= #[trigger] value[i] <= '9') && decimal_value(value)
                <= 2147483647;
            &&& run(s, seq!["--delay"@, value]) is Ok <==> proper
            &&& run(s, seq!["--start-delay"@, value]) is Ok <==> proper
            &&& run(s, seq!["--delay"@, value]) matches Err(fault) ==> fault == (
            CliFault::InvalidInt { flag: "delay"@, value })
            &&& run(s, seq!["--start-delay"@, value]) matches Err(fault) ==> fault == (
            CliFault::InvalidInt { flag: "start-delay"@, value })
        }),
{
    lemma_option_names();
    lemma_one_option(s, CliOption::Delay, value);
    lemma_one_option(s, CliOption::StartDelay, value);
    assert(all_digits(value) <==> forall|i: int|
        0 <= i < value.len() ==> '0' <= #[trigger] value[i] <= '9');
}

/// `true` switches natural scrolling on, everything else switches it off.
pub proof fn law_natural_scrolling_switch(s: Settings, value: Seq<char>)
    ensures
        ({
            let set = Ok::<Option<Settings>, CliFault>(
                Some(Settings { natural_scrolling: value == "true"@, ..s }),
            );
            &&& run(s, seq!["-n"@, value]) == set
            &&& run(s, seq!["--natural-scrolling"@, value]) == set
        }),
{
    lemma_option_names();
    lemma_one_option(s, CliOption::NaturalScrolling, value);
}

/// The exit combo is the one that its text declares, with no key down; a text that
/// declares none is refused, and the error says why.
pub proof fn law_combo_option(s: Settings, value: Seq<char>)
    ensures
        ({
            let set = match combo_slots(value) {
                Ok(slots) => Ok::<Option<Settings>, CliFault>(
                    Some(
                        Settings { esc_combo: ComboState { slots, held: Set::empty() }, ..s },
                    ),
                ),
                Err(source) => Err(CliFault::InvalidEscCombo { value, source }),
            };
            &&& run(s, seq!["-k"@, value]) == set
            &&& run(s, seq!["--esc-key-combo"@, value]) == set
        }),
{
    lemma_option_names();
    lemma_one_option(s, CliOption::EscKeyCombo, value);
}

/// An option at the very end lacks its value.
pub proof fn law_value_missing(s: Settings, option: CliOption)
    ensures
        run(s, seq![short_flag(option)]) == Err::<Option<Settings>, CliFault>(
            CliFault::MissingValue(short_flag(option)),
        ),
        run(s, seq![long_flag(option)]) == Err::<Option<Settings>, CliFault>(
            CliFault::MissingValue(long_flag(option)),
        ),
{
    lemma_forms(option, Seq::empty());
}

/// An argument that does not start with a dash is not known.
pub proof fn law_stray_argument(s: Settings, arg: Seq<char>, rest: Seq<Seq<char>>)
    requires
        arg.len() == 0 || arg[0] != '-',
    ensures
        run(s, seq![arg] + rest) == Err::<Option<Settings>, CliFault>(CliFault::UnknownFlag(arg)),
{
    let all = seq![arg] + rest;
    assert(all[0] == arg);
    if starts_with(arg, seq!['-', '-']) {
        assert(arg.take(2)[0] == arg[0]);
        assert(seq!['-', '-'][0] == '-');
    }
    if starts_with(arg, seq!['-']) {
        assert(arg.take(1)[0] == arg[0]);
        assert(seq!['-'][0] == '-');
    }
}

/// An option that there is not is reported: by its dash and letter, or in full if
/// it starts with two dashes. A single dash is none either.
pub proof fn law_unknown_options(s: Settings, arg: Seq<char>, rest: Seq<Seq<char>>)
    requires
        arg.len() > 0,
        arg[0] == '-',
    ensures
        arg.len() == 1 ==> run(s, seq![arg] + rest) == Err::<Option<Settings>, CliFault>(
            CliFault::UnknownFlag(arg),
        ),
        arg.len() > 1 && arg[1] != '-' && arg[1] != 'h' && arg[1] != 'd' && arg[1] != 's' && arg[1]
            != 'n' && arg[1] != 'k' ==> run(s, seq![arg] + rest) == Err::<
            Option<Settings>,
            CliFault,
        >(CliFault::UnknownFlag(seq!['-', arg[1]])),
        arg.len() > 1 && arg[1] == '-' && arg != "--help"@ && (forall|option: CliOption|
            arg.skip(2) != #[trigger] long_name(option) && !starts_with(
                arg.skip(2),
                long_name(option) + seq!['='],
            )) ==> run(s, seq![arg] + rest) == Err::<Option<Settings>, CliFault>(
            CliFault::UnknownFlag(arg),
        ),
{
    let all = seq![arg] + rest;
    assert(all[0] == arg);
    assert(arg.take(1) =~= seq!['-']);
    if arg.len() == 1 || arg[1] != '-' {
        if starts_with(arg, seq!['-', '-']) {
            assert(arg.take(2)[1] == arg[1]);
            assert(seq!['-', '-'][1] == '-');
        }
        if arg.len() > 1 {
            assert(arg.skip(1)[0] == arg[1]);
            assert(arg.take(2) =~= seq!['-', arg[1]]);
        }
    } else {
        assert(arg.take(2) =~= seq!['-', '-']);
        let long = arg.skip(2);
        let i = position(long, '=') as int;
        law_help_forms(arg);
        lemma_position(long, '=');
        if let Some(option) = option_named(long.take(i)) {
            lemma_long_names(option);
            let name = long_name(option);
            assert(long.take(i) == name);
            if i < long.len() {
                assert(long.take(i + 1) =~= name + seq!['=']);
                assert(starts_with(long, name + seq!['=']));
            } else {
                assert(long.take(i) =~= long);
            }
        }
    }
}

/// Every message says what it complains about, word for word.
pub proof fn law_messages_quote(fault: CliFault)
    ensures
        match fault {
            CliFault::UnknownFlag(flag) => quotes(fault_text(fault), flag),
            CliFault::MissingValue(flag) => quotes(fault_text(fault), flag),
            CliFault::InvalidInt { flag, value } => quotes(fault_text(fault), flag) && quotes(
                fault_text(fault),
                value,
            ),
            CliFault::InvalidEscCombo { value, source } => quotes(fault_text(fault), value)
                && quotes(fault_text(fault), combo_error_text(source)) && (
            source matches ComboError::UnknownKey(name) ==> quotes(fault_text(fault), name)),
        },
{
    let text = fault_text(fault);
    let none = Seq::<char>::empty();
    match fault {
        CliFault::UnknownFlag(flag) => {
            lemma_quotes(text, "unknown flag: "@, flag, none);
        },
        CliFault::MissingValue(flag) => {
            lemma_quotes(text, "option '"@, flag, "' requires an argument"@);
        },
        CliFault::InvalidInt { flag, value } => {
            let head = "invalid value '"@ + value + "' passed to '"@;
            lemma_quotes(text, head, flag, "'!"@);
            lemma_quotes(text, "invalid value '"@, value, "' passed to '"@ + flag + "'!"@);
        },
        CliFault::InvalidEscCombo { value, source } => {
            let why = combo_error_text(source);
            let head = "invalid esc-key-combo '"@ + value + "': "@;
            lemma_quotes(text, "invalid esc-key-combo '"@, value, "': "@ + why);
            lemma_quotes(text, head, why, none);
            if let ComboError::UnknownKey(name) = source {
                lemma_quotes(text, head + "unrecognized key name '"@, name, "'"@);
            }
        },
    }
}

/// Does the text hold `part`?
pub open spec fn quotes(text: Seq<char>, part: Seq<char>) -> bool {
    exists|i: int|
        0 <= i && i + part.len() <= text.len() && #[trigger] text.subrange(i, i + part.len())
            == part
}

proof fn lemma_quotes(text: Seq<char>, before: Seq<char>, part: Seq<char>, after: Seq<char>)
    requires
        text =~= before + part + after,
    ensures
        quotes(text, part),
{
    let i = before.len() as int;
    assert(text.subrange(i, i + part.len()) =~= part);
}

} // verus!
