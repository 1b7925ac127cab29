//! Device nodes: which of them are attached, in which order, and which are our
//! own.

use vstd::prelude::*;

use crate::text::{
    chars_of, copy_range, decimal, decimal_up_to, is_digit, law_decimal_round_trip, read_decimal,
    same_text, starts_with, texts,
};
use crate::uinput::{label, SinkKind};

verus! {

/// Does the character count as white space in Unicode?
pub open spec fn is_white_space(c: char) -> bool {
    let n = c as int;
    ||| 9 <= n <= 13
    ||| n == 0x20
    ||| n == 0x85
    ||| n == 0xa0
    ||| n == 0x1680
    ||| 0x2000 <= n <= 0x200a
    ||| n == 0x2028
    ||| n == 0x2029
    ||| n == 0x202f
    ||| n == 0x205f
    ||| n == 0x3000
}

/// `s` without white space at the start.
pub open spec fn trimmed_start(s: Seq<char>) -> Seq<char>
    decreases s.len(),
{
    if s.len() > 0 && is_white_space(s[0]) {
        trimmed_start(s.skip(1))
    } else {
        s
    }
}

/// `s` without white space at the end.
pub open spec fn trimmed_end(s: Seq<char>) -> Seq<char>
    decreases s.len(),
{
    if s.len() > 0 && is_white_space(s.last()) {
        trimmed_end(s.drop_last())
    } else {
        s
    }
}

/// `s` without white space at either end.
pub open spec fn trimmed(s: Seq<char>) -> Seq<char> {
    trimmed_end(trimmed_start(s))
}

fn white_space(c: char) -> (r: bool)
    ensures
        r == is_white_space(c),
{
    let n: u32 = c as u32;
    (9 <= n && n <= 13) || n == 0x20 || n == 0x85 || n == 0xa0 || n == 0x1680 || (0x2000 <= n && n
        <= 0x200a) || n == 0x2028 || n == 0x2029 || n == 0x202f || n == 0x205f || n == 0x3000
}

/// `s` without white space at either end.
pub fn trim(s: &str) -> (r: String)
    ensures
        r@ == trimmed(s@),
{
    let chars = chars_of(s);
    let len = chars.len();
    let mut start: usize = 0;
    assert(s@.skip(0) =~= s@);
    while start < len && white_space(chars[start])
        invariant
            chars@ == s@,
            len == s@.len(),
            start <= len,
            trimmed_start(s@) == trimmed_start(s@.skip(start as int)),
        decreases len - start,
    {
        assert(s@.skip(start as int)[0] == s@[start as int]);
        assert(s@.skip(start as int).skip(1) =~= s@.skip(start + 1));
        start = start + 1;
    }
    let ghost body = s@.skip(start as int);
    proof {
        if start < len {
            assert(body[0] == s@[start as int]);
        }
    }
    let mut end: usize = len;
    assert(s@.subrange(start as int, len as int) =~= body);
    while end > start && white_space(chars[end - 1])
        invariant
            chars@ == s@,
            len == s@.len(),
            start <= end <= len,
            trimmed_end(body) == trimmed_end(s@.subrange(start as int, end as int)),
        decreases end,
    {
        let ghost rest = s@.subrange(start as int, end as int);
        assert(rest.last() == s@[end - 1]);
        assert(rest.drop_last() =~= s@.subrange(start as int, end - 1));
        end = end - 1;
    }
    proof {
        let rest = s@.subrange(start as int, end as int);
        if end > start {
            assert(rest.last() == s@[end - 1]);
        }
    }
    copy_range(s, start, end)
}

/// Trimming takes only white space away, and leaves none at either end.
pub proof fn law_trim(s: Seq<char>)
    ensures
        exists|i: int, j: int|
            #![trigger s.subrange(i, j)]
            {
                &&& 0 <= i <= j <= s.len()
                &&& trimmed(s) == s.subrange(i, j)
                &&& forall|k: int| 0 <= k < i ==> is_white_space(s[k])
                &&& forall|k: int| j <= k < s.len() ==> is_white_space(s[k])
            },
        trimmed(s).len() > 0 ==> !is_white_space(trimmed(s)[0]) && !is_white_space(
            trimmed(s).last(),
        ),
        trimmed(trimmed(s)) == trimmed(s),
{
    let i = lemma_trimmed_start(s);
    let body = trimmed_start(s);
    let n = lemma_trimmed_end(body);
    let j = i + n;
    assert(trimmed(s) =~= s.subrange(i, j));
    assert forall|k: int| j <= k < s.len() implies is_white_space(s[k]) by {
        assert(body[k - i] == s[k]);
    }
}

/// How much white space there is at the start.
proof fn lemma_trimmed_start(s: Seq<char>) -> (i: int)
    ensures
        0 <= i <= s.len(),
        trimmed_start(s) == s.skip(i),
        forall|k: int| 0 <= k < i ==> is_white_space(s[k]),
        trimmed_start(s).len() > 0 ==> !is_white_space(trimmed_start(s)[0]),
    decreases s.len(),
{
    if s.len() > 0 && is_white_space(s[0]) {
        let i = lemma_trimmed_start(s.skip(1));
        assert(s.skip(1).skip(i) =~= s.skip(i + 1));
        assert forall|k: int| 0 <= k < i + 1 implies is_white_space(s[k]) by {
            if k > 0 {
                assert(s.skip(1)[k - 1] == s[k]);
            }
        }
        i + 1
    } else {
        assert(s.skip(0) =~= s);
        0
    }
}

/// How much is left once the white space at the end is taken away.
proof fn lemma_trimmed_end(s: Seq<char>) -> (n: int)
    ensures
        0 <= n <= s.len(),
        trimmed_end(s) == s.take(n),
        forall|k: int| n <= k < s.len() ==> is_white_space(s[k]),
        n > 0 ==> !is_white_space(s[n - 1]),
    decreases s.len(),
{
    if s.len() > 0 && is_white_space(s.last()) {
        let n = lemma_trimmed_end(s.drop_last());
        assert(s.drop_last().take(n) =~= s.take(n));
        assert forall|k: int| n <= k < s.len() implies is_white_space(s[k]) by {
            if k < s.len() - 1 {
                assert(s.drop_last()[k] == s[k]);
            }
        }
        n
    } else {
        assert(s.take(s.len() as int) =~= s);
        s.len() as int
    }
}

/// Is this the name of one of our own virtual devices?
pub open spec fn is_own_name(name: Seq<char>) -> bool {
    name == "kloak"@ || name == "kloak-kbd"@ || name == "kloak-pointer"@
}

/// Is a device one of our own? `device_name` is the text of its name attribute,
/// where that could be read.
pub fn is_self_uinput(device_name: Option<&str>) -> (r: bool)
    ensures
        r == (device_name matches Some(text) && is_own_name(trimmed(text@))),
{
    match device_name {
        Some(text) => {
            let name = trim(text);
            same_text(name.as_str(), "kloak") || same_text(name.as_str(), "kloak-kbd")
                || same_text(name.as_str(), "kloak-pointer")
        },
        None => false,
    }
}

/// Every virtual device is known by the name that it was given, with or without
/// the line break that the name attribute ends with. So no device is ever read
/// that events are written to.
pub proof fn law_own_devices_known(kind: SinkKind)
    ensures
        ({
            let name = Seq::new(label(kind).len(), |i: int| label(kind)[i] as char);
            is_own_name(trimmed(name)) && is_own_name(trimmed(name.push('\n')))
        }),
{
    reveal_strlit("kloak");
    reveal_strlit("kloak-kbd");
    reveal_strlit("kloak-pointer");
    let name = Seq::new(label(kind).len(), |i: int| label(kind)[i] as char);
    match kind {
        SinkKind::Combined => assert(name =~= "kloak"@),
        SinkKind::Kbd => assert(name =~= "kloak-kbd"@),
        SinkKind::Pointer => assert(name =~= "kloak-pointer"@),
    }
    assert(!is_white_space(name[0]) && !is_white_space(name.last()));
    let line = name.push('\n');
    assert(line[0] == name[0]);
    assert(line.drop_last() =~= name);
    assert(trimmed_end(line) == trimmed_end(name));
}

/// An entry of the device directory.
#[derive(Debug)]
pub struct DirectoryEntry {
    pub name: String,
    pub char_device: bool,
}

/// What a [`DirectoryEntry`] holds.
pub type Entry = (Seq<char>, bool);

impl View for DirectoryEntry {
    type V = Entry;

    open spec fn view(&self) -> Entry {
        (self.name@, self.char_device)
    }
}

/// The views of a list of entries.
pub open spec fn entry_views(entries: Seq<DirectoryEntry>) -> Seq<Entry> {
    Seq::new(entries.len(), |i: int| entries[i]@)
}

/// `event`
pub open spec fn event_prefix() -> Seq<char> {
    seq!['e', 'v', 'e', 'n', 't']
}

/// Is an entry the node of an event device?
pub open spec fn is_event_node(entry: Entry) -> bool {
    starts_with(entry.0, event_prefix()) && entry.1
}

/// `name` without `event` at the start, however often it stands there.
pub open spec fn without_prefix(name: Seq<char>) -> Seq<char>
    decreases name.len(),
{
    if starts_with(name, event_prefix()) {
        without_prefix(name.skip(5))
    } else {
        name
    }
}

/// The number that `s` writes in decimal, with a plus sign or without.
pub open spec fn unsigned_value(s: Seq<char>) -> Option<nat> {
    if s.len() > 0 && s[0] == '+' {
        decimal_up_to(s.skip(1), u32::MAX as nat)
    } else {
        decimal_up_to(s, u32::MAX as nat)
    }
}

/// The number in a node's name; names without one come last.
pub open spec fn node_number(name: Seq<char>) -> nat {
    match unsigned_value(without_prefix(name)) {
        Some(n) => n,
        None => u32::MAX as nat,
    }
}

/// Entry `i` is attached before entry `j`: it has the smaller number, or stands
/// first among equal ones.
pub open spec fn goes_before(entries: Seq<Entry>, i: int, j: int) -> bool {
    let a = node_number(entries[i].0);
    let b = node_number(entries[j].0);
    a < b || (a == b && i < j)
}

/// `order` lists the event nodes among the entries, in the order in which they
/// are attached.
pub open spec fn is_attach_order(entries: Seq<Entry>, order: Seq<int>) -> bool {
    &&& forall|k: int|
        0 <= k < order.len() ==> 0 <= #[trigger] order[k] < entries.len() && is_event_node(
            entries[order[k]],
        )
    &&& forall|i: int|
        0 <= i < entries.len() && is_event_node(#[trigger] entries[i]) ==> order.contains(i)
    &&& forall|a: int, b: int|
        0 <= a < b < order.len() ==> goes_before(entries, #[trigger] order[a], #[trigger] order[b])
}

/// The names of the entries in `order`.
pub open spec fn names_in(entries: Seq<Entry>, order: Seq<int>) -> Seq<Seq<char>> {
    Seq::new(order.len(), |k: int| entries[order[k]].0)
}

/// There is only one such order.
pub proof fn law_attach_order_unique(entries: Seq<Entry>, one: Seq<int>, other: Seq<int>)
    requires
        is_attach_order(entries, one),
        is_attach_order(entries, other),
    ensures
        one == other,
{
    lemma_common_start(entries, one, other, one.len() as int);
    lemma_common_start(entries, other, one, other.len() as int);
    assert(one =~= other);
}

/// Two attach orders agree on their first `n` places.
proof fn lemma_common_start(entries: Seq<Entry>, one: Seq<int>, other: Seq<int>, n: int)
    requires
        is_attach_order(entries, one),
        is_attach_order(entries, other),
        0 <= n <= one.len(),
    ensures
        n <= other.len(),
        forall|k: int| 0 <= k < n ==> #[trigger] one[k] == other[k],
    decreases n,
{
    if n > 0 {
        let last = n - 1;
        lemma_common_start(entries, one, other, last);
        let x = one[last];
        assert(is_event_node(entries[x]));
        assert(other.contains(x));
        let m = choose|m: int| 0 <= m < other.len() && other[m] == x;
        if m < last {
            assert(one[m] == other[m]);
            assert(goes_before(entries, one[m], one[last]));
        }
        assert(m >= last);
        let y = other[last];
        assert(is_event_node(entries[y]));
        assert(one.contains(y));
        let k = choose|k: int| 0 <= k < one.len() && one[k] == y;
        if k < last {
            assert(one[k] == other[k]);
            assert(goes_before(entries, other[k], other[last]));
        }
        assert(k >= last);
        if m > last {
            assert(goes_before(entries, other[last], other[m]));
            if k > last {
                assert(goes_before(entries, one[last], one[k]));
            }
        }
        assert(x == y);
    }
}

/// Does `chars` hold `event` at `at`?
fn prefix_at(chars: &Vec<char>, at: usize) -> (r: bool)
    requires
        at <= chars@.len(),
    ensures
        r == starts_with(chars@.skip(at as int), event_prefix()),
{
    let ghost tail = chars@.skip(at as int);
    if chars.len() - at < 5 {
        return false;
    }
    let r = chars[at] == 'e' && chars[at + 1] == 'v' && chars[at + 2] == 'e' && chars[at + 3] == 'n'
        && chars[at + 4] == 't';
    proof {
        let head = tail.take(5);
        let prefix = event_prefix();
        assert(head[0] == chars@[at as int] && head[1] == chars@[at + 1] && head[2] == chars@[at
            + 2] && head[3] == chars@[at + 3] && head[4] == chars@[at + 4]);
        if r {
            assert(head =~= prefix);
        } else if head == prefix {
            assert(prefix[0] == 'e' && prefix[1] == 'v' && prefix[2] == 'e' && prefix[3] == 'n'
                && prefix[4] == 't');
        }
    }
    r
}

/// The number in a node's name; `u32::MAX` where there is none.
pub fn event_number(name: &str) -> (r: u32)
    ensures
        r == node_number(name@),
{
    let chars = chars_of(name);
    let len = chars.len();
    let mut at: usize = 0;
    assert(name@.skip(0) =~= name@);
    while prefix_at(&chars, at)
        invariant
            chars@ == name@,
            len == name@.len(),
            at <= len,
            without_prefix(name@) == without_prefix(name@.skip(at as int)),
        decreases len - at,
    {
        assert(name@.skip(at as int).skip(5) =~= name@.skip(at + 5));
        at = at + 5;
    }
    let ghost rest = name@.skip(at as int);
    assert(rest == without_prefix(name@));
    if at < len && chars[at] == '+' {
        at = at + 1;
    }
    let digits = copy_range(name, at, len);
    proof {
        if rest.len() > 0 {
            assert(rest[0] == chars@[len - rest.len()]);
        }
        if rest.len() > 0 && rest[0] == '+' {
            assert(digits@ =~= rest.skip(1));
        } else {
            assert(digits@ =~= rest);
        }
    }
    match read_decimal(digits.as_str(), u32::MAX as u64) {
        Some(n) => n as u32,
        None => u32::MAX,
    }
}

/// Is an entry the node of an event device?
fn event_node(entry: &DirectoryEntry) -> (r: bool)
    ensures
        r == is_event_node(entry@),
{
    let chars = chars_of(entry.name.as_str());
    assert(chars@.skip(0) =~= chars@);
    prefix_at(&chars, 0) && entry.char_device
}

/// `order` lists the event nodes among the first `n` entries.
spec fn ordered_up_to(entries: Seq<Entry>, order: Seq<usize>, n: int) -> bool {
    &&& forall|k: int|
        0 <= k < order.len() ==> 0 <= #[trigger] order[k] < n && is_event_node(
            entries[order[k] as int],
        )
    &&& forall|i: int|
        0 <= i < n && is_event_node(#[trigger] entries[i]) ==> exists|k: int|
            0 <= k < order.len() && #[trigger] order[k] == i
    &&& forall|a: int, b: int|
        0 <= a < b < order.len() ==> goes_before(
            entries,
            #[trigger] order[a] as int,
            #[trigger] order[b] as int,
        )
}

/// Where the next entry, with number `number`, goes among those in `order`.
fn place_for(order: &Vec<usize>, numbers: &Vec<u32>, number: u32) -> (p: usize)
    requires
        forall|k: int| 0 <= k < order@.len() ==> #[trigger] order@[k] < numbers@.len(),
        forall|a: int, b: int|
            0 <= a < b < order@.len() ==> numbers@[#[trigger] order@[a] as int]
                <= numbers@[#[trigger] order@[b] as int],
    ensures
        p <= order@.len(),
        forall|k: int| 0 <= k < p ==> numbers@[#[trigger] order@[k] as int] <= number,
        forall|k: int| p <= k < order@.len() ==> numbers@[#[trigger] order@[k] as int] > number,
{
    let mut p: usize = 0;
    while p < order.len() && numbers[order[p]] <= number
        invariant
            p <= order.len(),
            forall|k: int| 0 <= k < order@.len() ==> #[trigger] order@[k] < numbers@.len(),
            forall|k: int| 0 <= k < p ==> numbers@[#[trigger] order@[k] as int] <= number,
        decreases order.len() - p,
    {
        p = p + 1;
    }
    p
}

/// Inserting entry `n` at its place keeps the order.
proof fn lemma_inserted(
    entries: Seq<Entry>,
    order: Seq<usize>,
    n: usize,
    p: int,
)
    requires
        n < entries.len(),
        ordered_up_to(entries, order, n as int),
        is_event_node(entries[n as int]),
        0 <= p <= order.len(),
        forall|k: int|
            0 <= k < p ==> node_number(entries[#[trigger] order[k] as int].0) <= node_number(
                entries[n as int].0,
            ),
        forall|k: int|
            p <= k < order.len() ==> node_number(entries[#[trigger] order[k] as int].0)
                > node_number(entries[n as int].0),
    ensures
        ordered_up_to(entries, order.insert(p, n), n + 1),
{
    let next = order.insert(p, n);
    assert forall|i: int| 0 <= i < n + 1 && is_event_node(#[trigger] entries[i]) implies exists|
        k: int,
    | 0 <= k < next.len() && #[trigger] next[k] == i by {
        if i < n {
            let k = choose|k: int| 0 <= k < order.len() && #[trigger] order[k] == i;
            let to = if k < p { k } else { k + 1 };
            assert(next[to] == order[k]);
        } else {
            assert(next[p] == n);
        }
    }
    assert forall|a: int, b: int| 0 <= a < b < next.len() implies goes_before(
        entries,
        #[trigger] next[a] as int,
        #[trigger] next[b] as int,
    ) by {
        let from_a = if a < p { a } else { a - 1 };
        let from_b = if b < p { b } else { b - 1 };
        if a != p && b != p {
            assert(next[a] == order[from_a] && next[b] == order[from_b]);
        } else if a == p {
            assert(next[b] == order[from_b]);
        } else {
            assert(next[a] == order[from_a]);
        }
    }
    assert forall|k: int| 0 <= k < next.len() implies 0 <= #[trigger] next[k] < n + 1
        && is_event_node(entries[next[k] as int]) by {
        if k < p {
            assert(next[k] == order[k]);
        } else if k > p {
            assert(next[k] == order[k - 1]);
        }
    }
}

/// The names of the event nodes among the entries of the device directory, in
/// the order of their numbers.
pub fn attach_order(entries: &Vec<DirectoryEntry>) -> (out: Vec<String>)
    ensures
        exists|order: Seq<int>| #[trigger]
            is_attach_order(entry_views(entries@), order) && texts(out@) == names_in(
                entry_views(entries@),
                order,
            ),
{
    let ghost all = entry_views(entries@);
    let mut order: Vec<usize> = Vec::new();
    let mut numbers: Vec<u32> = Vec::new();
    let mut i: usize = 0;
    while i < entries.len()
        invariant
            i <= entries.len(),
            all == entry_views(entries@),
            numbers@.len() == i,
            forall|k: int| 0 <= k < i ==> #[trigger] numbers@[k] == node_number(all[k].0),
            ordered_up_to(all, order@, i as int),
        decreases entries.len() - i,
    {
        let number = event_number(entries[i].name.as_str());
        assert(all[i as int] == entries@[i as int]@);
        if event_node(&entries[i]) {
            assert forall|a: int, b: int| 0 <= a < b < order@.len() implies numbers@[
                #[trigger] order@[a] as int
            ] <= numbers@[#[trigger] order@[b] as int] by {
                assert(goes_before(all, order@[a] as int, order@[b] as int));
            }
            let p = place_for(&order, &numbers, number);
            proof {
                lemma_inserted(all, order@, i, p as int);
            }
            order.insert(p, i);
        }
        numbers.push(number);
        i = i + 1;
    }
    let ghost wanted = order@.map_values(|k: usize| k as int);
    let mut out: Vec<String> = Vec::new();
    let mut k: usize = 0;
    while k < order.len()
        invariant
            k <= order.len(),
            all == entry_views(entries@),
            ordered_up_to(all, order@, all.len() as int),
            wanted == order@.map_values(|k: usize| k as int),
            texts(out@) == names_in(all, wanted).take(k as int),
        decreases order.len() - k,
    {
        let ghost before = texts(out@);
        assert(order@[k as int] < all.len());
        out.push(entries[order[k]].name.as_str().to_owned());
        proof {
            let names = names_in(all, wanted);
            assert(names[k as int] == entries@[order@[k as int] as int].name@);
            assert(texts(out@) =~= before.push(names[k as int]));
            assert(names.take(k + 1) =~= names.take(k as int).push(names[k as int]));
        }
        k = k + 1;
    }
    proof {
        let names = names_in(all, wanted);
        assert(names.take(k as int) =~= names);
        assert forall|i: int| 0 <= i < all.len() && is_event_node(
            #[trigger] all[i],
        ) implies wanted.contains(i) by {
            let k = choose|k: int| 0 <= k < order@.len() && #[trigger] order@[k] == i;
            assert(wanted[k] == i);
        }
        assert forall|a: int, b: int| 0 <= a < b < wanted.len() implies goes_before(
            all,
            #[trigger] wanted[a],
            #[trigger] wanted[b],
        ) by {
            assert(goes_before(all, order@[a] as int, order@[b] as int));
        }
        assert forall|k: int| 0 <= k < wanted.len() implies 0 <= #[trigger] wanted[k] < all.len()
            && is_event_node(all[wanted[k]]) by {
            assert(order@[k] < all.len());
        }
        assert(is_attach_order(all, wanted));
    }
    out
}

/// The nodes that are attached are the character devices whose names start with
/// `event`.
pub proof fn law_event_nodes(entry: Entry)
    ensures
        is_event_node(entry) <==> {
            &&& entry.1
            &&& entry.0.len() >= 5
            &&& entry.0[0] == 'e'
            &&& entry.0[1] == 'v'
            &&& entry.0[2] == 'e'
            &&& entry.0[3] == 'n'
            &&& entry.0[4] == 't'
        },
{
    let prefix = event_prefix();
    if entry.0.len() >= 5 {
        let head = entry.0.take(5);
        assert(head[0] == entry.0[0] && head[1] == entry.0[1] && head[2] == entry.0[2] && head[3]
            == entry.0[3] && head[4] == entry.0[4]);
        if is_event_node(entry) {
            assert(prefix[0] == 'e' && prefix[1] == 'v' && prefix[2] == 'e' && prefix[3] == 'n'
                && prefix[4] == 't');
        }
        if entry.0[0] == 'e' && entry.0[1] == 'v' && entry.0[2] == 'e' && entry.0[3] == 'n'
            && entry.0[4] == 't' {
            assert(head =~= prefix);
        }
    }
}

/// The node `event` with a number behind it counts as that number.
pub proof fn law_node_number(n: u32)
    ensures
        node_number("event"@ + decimal(n as nat)) == n,
        node_number("event+"@ + decimal(n as nat)) == n,
{
    let digits = decimal(n as nat);
    let name = "event"@ + digits;
    reveal_strlit("event");
    law_decimal_round_trip(n as nat);
    assert(name.take(5) =~= event_prefix());
    assert(name.skip(5) =~= digits);
    assert(is_digit(digits[0]));
    assert(!starts_with(digits, event_prefix())) by {
        if starts_with(digits, event_prefix()) {
            assert(digits.take(5)[0] == digits[0]);
            assert(event_prefix()[0] == 'e');
        }
    }
    assert(without_prefix(digits) == digits);
    assert(without_prefix(name) == digits);
    let signed = seq!['+'] + digits;
    let signed_name = "event+"@ + digits;
    reveal_strlit("event+");
    assert(signed_name.take(5) =~= event_prefix());
    assert(signed_name.skip(5) =~= signed);
    assert(!starts_with(signed, event_prefix())) by {
        if starts_with(signed, event_prefix()) {
            assert(signed.take(5)[0] == signed[0]);
            assert(event_prefix()[0] == 'e');
        }
    }
    assert(without_prefix(signed) == signed);
    assert(without_prefix(signed_name) == signed);
    assert(signed.skip(1) =~= digits);
}

/// Devices are attached in the order of their numbers, each event node once and
/// nothing else.
pub proof fn law_attached_by_number(
    entries: Seq<Entry>,
    order: Seq<int>,
    a: int,
    b: int,
    m: u32,
    n: u32,
)
    requires
        is_attach_order(entries, order),
        0 <= a < b < order.len(),
        entries[order[a]].0 == "event"@ + decimal(m as nat),
        entries[order[b]].0 == "event"@ + decimal(n as nat),
    ensures
        m <= n,
        m == n ==> order[a] < order[b],
        order[a] != order[b],
        forall|i: int|
            0 <= i < entries.len() ==> (order.contains(i) <==> is_event_node(
                #[trigger] entries[i],
            )),
{
    law_node_number(m);
    law_node_number(n);
    assert(goes_before(entries, order[a], order[b]));
    assert forall|i: int| 0 <= i < entries.len() implies (order.contains(i) <==> is_event_node(
        #[trigger] entries[i],
    )) by {
        if order.contains(i) {
            let k = choose|k: int| 0 <= k < order.len() && order[k] == i;
            assert(is_event_node(entries[order[k]]));
        }
    }
}

/// Only the names that virtual devices are given count as our own.
pub proof fn law_only_own_names(name: Seq<char>)
    ensures
        is_own_name(name) <==> exists|kind: SinkKind|
            name == Seq::new((#[trigger] label(kind)).len(), |i: int| label(kind)[i] as char),
{
    reveal_strlit("kloak");
    reveal_strlit("kloak-kbd");
    reveal_strlit("kloak-pointer");
    let one = label(SinkKind::Combined);
    let two = label(SinkKind::Kbd);
    let three = label(SinkKind::Pointer);
    assert(Seq::new(one.len(), |i: int| one[i] as char) =~= "kloak"@);
    assert(Seq::new(two.len(), |i: int| two[i] as char) =~= "kloak-kbd"@);
    assert(Seq::new(three.len(), |i: int| three[i] as char) =~= "kloak-pointer"@);
    assert forall|kind: SinkKind|
        name == Seq::new(
            (#[trigger] label(kind)).len(),
            |i: int| label(kind)[i] as char,
        ) implies is_own_name(name) by {
        match kind {
            SinkKind::Combined => assert(name =~= "kloak"@),
            SinkKind::Kbd => assert(name =~= "kloak-kbd"@),
            SinkKind::Pointer => assert(name =~= "kloak-pointer"@),
        }
    }
    if name == "kloak"@ {
        assert(name =~= Seq::new(one.len(), |i: int| label(SinkKind::Combined)[i] as char));
    } else if name == "kloak-kbd"@ {
        assert(name =~= Seq::new(two.len(), |i: int| label(SinkKind::Kbd)[i] as char));
    } else if name == "kloak-pointer"@ {
        assert(name =~= Seq::new(three.len(), |i: int| label(SinkKind::Pointer)[i] as char));
    }
}

/// A node without a number behind `event` counts as the largest number there is.
pub proof fn law_unnumbered_nodes_last(rest: Seq<char>)
    requires
        rest.len() == 0 || (!is_digit(rest[0]) && rest[0] != '+' && rest[0] != 'e'),
    ensures
        node_number("event"@ + rest) == u32::MAX,
{
    let name = "event"@ + rest;
    reveal_strlit("event");
    assert(name.take(5) =~= event_prefix());
    assert(name.skip(5) =~= rest);
    if starts_with(rest, event_prefix()) {
        assert(rest.take(5)[0] == rest[0]);
        assert(event_prefix()[0] == 'e');
    }
    assert(without_prefix(rest) == rest);
    assert(without_prefix(name) == rest);
}

/// However often `event` stands at the start of a name, the number stays the same,
/// and a number that is too large counts as the largest there is.
pub proof fn law_prefix_does_not_count(name: Seq<char>, n: nat)
    ensures
        node_number("event"@ + name) == node_number(name),
        n > u32::MAX ==> node_number(decimal(n)) == u32::MAX,
{
    let longer = "event"@ + name;
    let digits = decimal(n);
    reveal_strlit("event");
    assert(longer.take(5) =~= event_prefix());
    assert(longer.skip(5) =~= name);
    law_decimal_round_trip(n);
    assert(is_digit(digits[0]));
    if starts_with(digits, event_prefix()) {
        assert(digits.take(5)[0] == digits[0]);
        assert(event_prefix()[0] == 'e');
    }
    assert(without_prefix(digits) == digits);
}

} // verus!
