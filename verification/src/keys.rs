//! Names of keyboard keys.
//!
//! The `KEY_*` names below `BTN_MISC` of `<linux/input-event-codes.h>`, with
//! their codes. The keys that exit combos are usually made of come first, the
//! others follow in code order.

use vstd::prelude::*;

use crate::text::same_text;

verus! {

pub const KEY_COUNT: usize = 248;

pub const KEY_TABLE: [(&'static str, u32); 248] = [
    ("KEY_ESC", 1),
    ("KEY_LEFTCTRL", 29),
    ("KEY_LEFTSHIFT", 42),
    ("KEY_RIGHTSHIFT", 54),
    ("KEY_LEFTALT", 56),
    ("KEY_RIGHTCTRL", 97),
    ("KEY_RIGHTALT", 100),
    ("KEY_LEFTMETA", 125),
    ("KEY_RIGHTMETA", 126),
    ("KEY_1", 2),
    ("KEY_2", 3),
    ("KEY_3", 4),
    ("KEY_4", 5),
    ("KEY_5", 6),
    ("KEY_6", 7),
    ("KEY_7", 8),
    ("KEY_8", 9),
    ("KEY_9", 10),
    ("KEY_0", 11),
    ("KEY_MINUS", 12),
    ("KEY_EQUAL", 13),
    ("KEY_BACKSPACE", 14),
    ("KEY_TAB", 15),
    ("KEY_Q", 16),
    ("KEY_W", 17),
    ("KEY_E", 18),
    ("KEY_R", 19),
    ("KEY_T", 20),
    ("KEY_Y", 21),
    ("KEY_U", 22),
    ("KEY_I", 23),
    ("KEY_O", 24),
    ("KEY_P", 25),
    ("KEY_LEFTBRACE", 26),
    ("KEY_RIGHTBRACE", 27),
    ("KEY_ENTER", 28),
    ("KEY_A", 30),
    ("KEY_S", 31),
    ("KEY_D", 32),
    ("KEY_F", 33),
    ("KEY_G", 34),
    ("KEY_H", 35),
    ("KEY_J", 36),
    ("KEY_K", 37),
    ("KEY_L", 38),
    ("KEY_SEMICOLON", 39),
    ("KEY_APOSTROPHE", 40),
    ("KEY_GRAVE", 41),
    ("KEY_BACKSLASH", 43),
    ("KEY_Z", 44),
    ("KEY_X", 45),
    ("KEY_C", 46),
    ("KEY_V", 47),
    ("KEY_B", 48),
    ("KEY_N", 49),
    ("KEY_M", 50),
    ("KEY_COMMA", 51),
    ("KEY_DOT", 52),
    ("KEY_SLASH", 53),
    ("KEY_KPASTERISK", 55),
    ("KEY_SPACE", 57),
    ("KEY_CAPSLOCK", 58),
    ("KEY_F1", 59),
    ("KEY_F2", 60),
    ("KEY_F3", 61),
    ("KEY_F4", 62),
    ("KEY_F5", 63),
    ("KEY_F6", 64),
    ("KEY_F7", 65),
    ("KEY_F8", 66),
    ("KEY_F9", 67),
    ("KEY_F10", 68),
    ("KEY_NUMLOCK", 69),
    ("KEY_SCROLLLOCK", 70),
    ("KEY_KP7", 71),
    ("KEY_KP8", 72),
    ("KEY_KP9", 73),
    ("KEY_KPMINUS", 74),
    ("KEY_KP4", 75),
    ("KEY_KP5", 76),
    ("KEY_KP6", 77),
    ("KEY_KPPLUS", 78),
    ("KEY_KP1", 79),
    ("KEY_KP2", 80),
    ("KEY_KP3", 81),
    ("KEY_KP0", 82),
    ("KEY_KPDOT", 83),
    ("KEY_ZENKAKUHANKAKU", 85),
    ("KEY_102ND", 86),
    ("KEY_F11", 87),
    ("KEY_F12", 88),
    ("KEY_RO", 89),
    ("KEY_KATAKANA", 90),
    ("KEY_HIRAGANA", 91),
    ("KEY_HENKAN", 92),
    ("KEY_KATAKANAHIRAGANA", 93),
    ("KEY_MUHENKAN", 94),
    ("KEY_KPJPCOMMA", 95),
    ("KEY_KPENTER", 96),
    ("KEY_KPSLASH", 98),
    ("KEY_SYSRQ", 99),
    ("KEY_LINEFEED", 101),
    ("KEY_HOME", 102),
    ("KEY_UP", 103),
    ("KEY_PAGEUP", 104),
    ("KEY_LEFT", 105),
    ("KEY_RIGHT", 106),
    ("KEY_END", 107),
    ("KEY_DOWN", 108),
    ("KEY_PAGEDOWN", 109),
    ("KEY_INSERT", 110),
    ("KEY_DELETE", 111),
    ("KEY_MACRO", 112),
    ("KEY_MUTE", 113),
    ("KEY_VOLUMEDOWN", 114),
    ("KEY_VOLUMEUP", 115),
    ("KEY_POWER", 116),
    ("KEY_KPEQUAL", 117),
    ("KEY_KPPLUSMINUS", 118),
    ("KEY_PAUSE", 119),
    ("KEY_SCALE", 120),
    ("KEY_KPCOMMA", 121),
    ("KEY_HANGEUL", 122),
    ("KEY_HANGUEL", 122),
    ("KEY_HANJA", 123),
    ("KEY_YEN", 124),
    ("KEY_COMPOSE", 127),
    ("KEY_STOP", 128),
    ("KEY_AGAIN", 129),
    ("KEY_PROPS", 130),
    ("KEY_UNDO", 131),
    ("KEY_FRONT", 132),
    ("KEY_COPY", 133),
    ("KEY_OPEN", 134),
    ("KEY_PASTE", 135),
    ("KEY_FIND", 136),
    ("KEY_CUT", 137),
    ("KEY_HELP", 138),
    ("KEY_MENU", 139),
    ("KEY_CALC", 140),
    ("KEY_SETUP", 141),
    ("KEY_SLEEP", 142),
    ("KEY_WAKEUP", 143),
    ("KEY_FILE", 144),
    ("KEY_SENDFILE", 145),
    ("KEY_DELETEFILE", 146),
    ("KEY_XFER", 147),
    ("KEY_PROG1", 148),
    ("KEY_PROG2", 149),
    ("KEY_WWW", 150),
    ("KEY_MSDOS", 151),
    ("KEY_COFFEE", 152),
    ("KEY_SCREENLOCK", 152),
    ("KEY_ROTATE_DISPLAY", 153),
    ("KEY_DIRECTION", 153),
    ("KEY_CYCLEWINDOWS", 154),
    ("KEY_MAIL", 155),
    ("KEY_BOOKMARKS", 156),
    ("KEY_COMPUTER", 157),
    ("KEY_BACK", 158),
    ("KEY_FORWARD", 159),
    ("KEY_CLOSECD", 160),
    ("KEY_EJECTCD", 161),
    ("KEY_EJECTCLOSECD", 162),
    ("KEY_NEXTSONG", 163),
    ("KEY_PLAYPAUSE", 164),
    ("KEY_PREVIOUSSONG", 165),
    ("KEY_STOPCD", 166),
    ("KEY_RECORD", 167),
    ("KEY_REWIND", 168),
    ("KEY_PHONE", 169),
    ("KEY_ISO", 170),
    ("KEY_CONFIG", 171),
    ("KEY_HOMEPAGE", 172),
    ("KEY_REFRESH", 173),
    ("KEY_EXIT", 174),
    ("KEY_MOVE", 175),
    ("KEY_EDIT", 176),
    ("KEY_SCROLLUP", 177),
    ("KEY_SCROLLDOWN", 178),
    ("KEY_KPLEFTPAREN", 179),
    ("KEY_KPRIGHTPAREN", 180),
    ("KEY_NEW", 181),
    ("KEY_REDO", 182),
    ("KEY_F13", 183),
    ("KEY_F14", 184),
    ("KEY_F15", 185),
    ("KEY_F16", 186),
    ("KEY_F17", 187),
    ("KEY_F18", 188),
    ("KEY_F19", 189),
    ("KEY_F20", 190),
    ("KEY_F21", 191),
    ("KEY_F22", 192),
    ("KEY_F23", 193),
    ("KEY_F24", 194),
    ("KEY_PLAYCD", 200),
    ("KEY_PAUSECD", 201),
    ("KEY_PROG3", 202),
    ("KEY_PROG4", 203),
    ("KEY_ALL_APPLICATIONS", 204),
    ("KEY_DASHBOARD", 204),
    ("KEY_SUSPEND", 205),
    ("KEY_CLOSE", 206),
    ("KEY_PLAY", 207),
    ("KEY_FASTFORWARD", 208),
    ("KEY_BASSBOOST", 209),
    ("KEY_PRINT", 210),
    ("KEY_HP", 211),
    ("KEY_CAMERA", 212),
    ("KEY_SOUND", 213),
    ("KEY_QUESTION", 214),
    ("KEY_EMAIL", 215),
    ("KEY_CHAT", 216),
    ("KEY_SEARCH", 217),
    ("KEY_CONNECT", 218),
    ("KEY_FINANCE", 219),
    ("KEY_SPORT", 220),
    ("KEY_SHOP", 221),
    ("KEY_ALTERASE", 222),
    ("KEY_CANCEL", 223),
    ("KEY_BRIGHTNESSDOWN", 224),
    ("KEY_BRIGHTNESSUP", 225),
    ("KEY_MEDIA", 226),
    ("KEY_SWITCHVIDEOMODE", 227),
    ("KEY_KBDILLUMTOGGLE", 228),
    ("KEY_KBDILLUMDOWN", 229),
    ("KEY_KBDILLUMUP", 230),
    ("KEY_SEND", 231),
    ("KEY_REPLY", 232),
    ("KEY_FORWARDMAIL", 233),
    ("KEY_SAVE", 234),
    ("KEY_DOCUMENTS", 235),
    ("KEY_BATTERY", 236),
    ("KEY_BLUETOOTH", 237),
    ("KEY_WLAN", 238),
    ("KEY_UWB", 239),
    ("KEY_UNKNOWN", 240),
    ("KEY_VIDEO_NEXT", 241),
    ("KEY_VIDEO_PREV", 242),
    ("KEY_BRIGHTNESS_CYCLE", 243),
    ("KEY_BRIGHTNESS_AUTO", 244),
    ("KEY_BRIGHTNESS_ZERO", 244),
    ("KEY_DISPLAY_OFF", 245),
    ("KEY_WWAN", 246),
    ("KEY_WIMAX", 246),
    ("KEY_RFKILL", 247),
    ("KEY_MICMUTE", 248),
];

/// Entry `i` of the table is the first that bears `name`.
pub open spec fn is_entry_of(name: Seq<char>, i: int) -> bool {
    &&& 0 <= i < KEY_COUNT
    &&& KEY_TABLE@[i].0@ == name
    &&& forall|j: int| 0 <= j < i ==> (#[trigger] KEY_TABLE@[j]).0@ != name
}

/// The code of the key called `name`, if there is one.
pub open spec fn key_code(name: Seq<char>) -> Option<u32> {
    if exists|i: int| is_entry_of(name, i) {
        Some(KEY_TABLE@[choose|i: int| is_entry_of(name, i)].1)
    } else {
        None
    }
}

/// The entry that decides `name` decides its code.
pub proof fn lemma_entry_code(name: Seq<char>, i: int)
    requires
        is_entry_of(name, i),
    ensures
        key_code(name) == Some(KEY_TABLE@[i].1),
{
    let k = choose|k: int| is_entry_of(name, k);
    if k < i {
        assert(KEY_TABLE@[k].0@ != name);
    } else if i < k {
        assert(KEY_TABLE@[i].0@ != name);
    }
}

/// The code of the key called `name`, such as `1` for `KEY_ESC`.
pub fn lookup(name: &str) -> (code: Option<u32>)
    ensures
        code == key_code(name@),
{
    let mut i: usize = 0;
    while i < KEY_COUNT
        invariant
            i <= KEY_COUNT,
            forall|j: int| 0 <= j < i ==> (#[trigger] KEY_TABLE@[j]).0@ != name@,
        decreases KEY_COUNT - i,
    {
        let entry = KEY_TABLE[i];
        if same_text(entry.0, name) {
            proof {
                lemma_entry_code(name@, i as int);
            }
            return Some(entry.1);
        }
        i = i + 1;
    }
    None
}

/// The keys of the default combo have the codes that the kernel gives them.
pub proof fn lemma_default_keys()
    ensures
        key_code("KEY_ESC"@) == Some(1u32),
        key_code("KEY_RIGHTSHIFT"@) == Some(54u32),
{
    reveal_strlit("KEY_ESC");
    reveal_strlit("KEY_LEFTCTRL");
    reveal_strlit("KEY_LEFTSHIFT");
    reveal_strlit("KEY_RIGHTSHIFT");
    lemma_entry_code("KEY_ESC"@, 0);
    let name = "KEY_RIGHTSHIFT"@;
    assert forall|j: int| 0 <= j < 3 implies (#[trigger] KEY_TABLE@[j]).0@ != name by {
        assert(KEY_TABLE@[0].0@.len() != name.len());
        assert(KEY_TABLE@[1].0@.len() != name.len());
        assert(KEY_TABLE@[2].0@.len() != name.len());
    }
    lemma_entry_code(name, 3);
}

/// A name is known exactly if it stands in the table, and its code is the one that
/// stands beside it, in the first place if there are several.
pub proof fn law_names_stand_in_the_table(name: Seq<char>)
    ensures
        key_code(name) is Some <==> exists|i: int|
            0 <= i < KEY_COUNT && (#[trigger] KEY_TABLE@[i]).0@ == name,
        key_code(name) matches Some(code) ==> exists|i: int|
            {
                &&& 0 <= i < KEY_COUNT
                &&& (#[trigger] KEY_TABLE@[i]).0@ == name
                &&& KEY_TABLE@[i].1 == code
                &&& forall|j: int| 0 <= j < i ==> (#[trigger] KEY_TABLE@[j]).0@ != name
            },
{
    if exists|i: int| 0 <= i < KEY_COUNT && (#[trigger] KEY_TABLE@[i]).0@ == name {
        let i = choose|i: int| 0 <= i < KEY_COUNT && (#[trigger] KEY_TABLE@[i]).0@ == name;
        let k = lemma_first_entry(name, i);
        assert(is_entry_of(name, k));
    }
    if key_code(name) is Some {
        let k = choose|k: int| is_entry_of(name, k);
        assert(is_entry_of(name, k));
        lemma_entry_code(name, k);
        assert(KEY_TABLE@[k].0@ == name);
    }
}

/// The first entry that bears a name that stands at `i`.
proof fn lemma_first_entry(name: Seq<char>, i: int) -> (k: int)
    requires
        0 <= i < KEY_COUNT,
        KEY_TABLE@[i].0@ == name,
    ensures
        is_entry_of(name, k),
        k <= i,
    decreases i,
{
    if exists|j: int| 0 <= j < i && (#[trigger] KEY_TABLE@[j]).0@ == name {
        let j = choose|j: int| 0 <= j < i && (#[trigger] KEY_TABLE@[j]).0@ == name;
        lemma_first_entry(name, j)
    } else {
        i
    }
}

/// Every code in the table is that of a keyboard key.
pub proof fn law_codes_are_of_keys(i: int)
    requires
        0 <= i < KEY_COUNT,
    ensures
        0 < KEY_TABLE@[i].1 <= 248,
        KEY_TABLE@[i].1 != 84,
        !(195 <= KEY_TABLE@[i].1 <= 199),
{
}

/// From the tenth entry on the codes never decrease.
pub proof fn law_code_order(i: int, j: int)
    requires
        9 <= i <= j < KEY_COUNT,
    ensures
        KEY_TABLE@[i].1 <= KEY_TABLE@[j].1,
{
}

/// Every code has a name but 84 and 195 to 199, which the kernel does not use.
pub proof fn law_codes_have_names(code: u32)
    requires
        1 <= code <= 248,
        code != 84,
        !(195 <= code <= 199),
    ensures
        exists|i: int| 0 <= i < KEY_COUNT && (#[trigger] KEY_TABLE@[i]).1 == code,
{
}

} // verus!
