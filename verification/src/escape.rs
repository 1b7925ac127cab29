//! Exit-combo parsing and matching.
//!
//! Grammar:
//!
//! ```text
//! combo   = slot ("," slot)*
//! slot    = key ("|" key)*
//! key     = "KEY_<NAME>"
//! ```
//!
//! All slots must be held at the same time to trigger an exit. Within a slot,
//! any one of the aliased keys counts as the slot being held.

use vstd::prelude::*;

use crate::keys::{key_code, lemma_default_keys, lookup};
use crate::text::{lemma_position_unique, split, split_text, texts};

verus! {

pub const DEFAULT_COMBO: &'static str = "KEY_RIGHTSHIFT,KEY_ESC";

/// Why a combo was refused.
#[derive(Debug, Clone, PartialEq, Eq)]
pub enum ParseError {
    EmptySlot,
    EmptyAlias,
    UnknownKey(String),
    EmptyInput,
}

/// A [`ParseError`] with the name as characters.
pub enum ComboError {
    EmptySlot,
    EmptyAlias,
    UnknownKey(Seq<char>),
    EmptyInput,
}

impl View for ParseError {
    type V = ComboError;

    open spec fn view(&self) -> ComboError {
        match self {
            ParseError::EmptySlot => ComboError::EmptySlot,
            ParseError::EmptyAlias => ComboError::EmptyAlias,
            ParseError::UnknownKey(name) => ComboError::UnknownKey(name@),
            ParseError::EmptyInput => ComboError::EmptyInput,
        }
    }
}

/// What [`ParseError::message`] says.
pub open spec fn combo_error_text(e: ComboError) -> Seq<char> {
    match e {
        ComboError::EmptySlot => "empty key name in escape key list"@,
        ComboError::EmptyAlias => "empty key name in escape key list"@,
        ComboError::UnknownKey(name) => "unrecognized key name '"@ + name + "'"@,
        ComboError::EmptyInput => "escape key list is empty"@,
    }
}

impl ParseError {
    /// The error in words.
    pub fn message(&self) -> (r: String)
        ensures
            r@ == combo_error_text(self@),
    {
        let mut out = String::new();
        match self {
            ParseError::EmptySlot => out.append("empty key name in escape key list"),
            ParseError::EmptyAlias => out.append("empty key name in escape key list"),
            ParseError::UnknownKey(name) => {
                out.append("unrecognized key name '");
                out.append(name.as_str());
                out.append("'");
            },
            ParseError::EmptyInput => out.append("escape key list is empty"),
        }
        assert(out@ =~= combo_error_text(self@));
        out
    }
}

/// The code of one alias.
pub open spec fn alias_code(token: Seq<char>) -> Result<u32, ComboError> {
    if token.len() == 0 {
        Err(ComboError::EmptyAlias)
    } else {
        match key_code(token) {
            Some(code) => Ok(code),
            None => Err(ComboError::UnknownKey(token)),
        }
    }
}

/// The codes of a list of aliases; the first bad alias decides the error.
pub open spec fn alias_codes(tokens: Seq<Seq<char>>) -> Result<Seq<u32>, ComboError>
    decreases tokens.len(),
{
    if tokens.len() == 0 {
        Ok(Seq::empty())
    } else {
        match alias_codes(tokens.drop_last()) {
            Err(e) => Err(e),
            Ok(codes) => match alias_code(tokens.last()) {
                Err(e) => Err(e),
                Ok(code) => Ok(codes.push(code)),
            },
        }
    }
}

/// The codes of one slot.
pub open spec fn slot_codes(token: Seq<char>) -> Result<Seq<u32>, ComboError> {
    if token.len() == 0 {
        Err(ComboError::EmptySlot)
    } else {
        alias_codes(split(token, '|'))
    }
}

/// The codes of a list of slots; the first bad slot decides the error.
pub open spec fn all_slot_codes(tokens: Seq<Seq<char>>) -> Result<Seq<Seq<u32>>, ComboError>
    decreases tokens.len(),
{
    if tokens.len() == 0 {
        Ok(Seq::empty())
    } else {
        match all_slot_codes(tokens.drop_last()) {
            Err(e) => Err(e),
            Ok(slots) => match slot_codes(tokens.last()) {
                Err(e) => Err(e),
                Ok(codes) => Ok(slots.push(codes)),
            },
        }
    }
}

/// The slots that a combo string declares.
pub open spec fn combo_slots(spec_text: Seq<char>) -> Result<Seq<Seq<u32>>, ComboError> {
    if spec_text.len() == 0 {
        Err(ComboError::EmptyInput)
    } else {
        all_slot_codes(split(spec_text, ','))
    }
}

/// The codes of a list of slots, as sequences.
pub open spec fn slot_seqs(slots: Seq<Vec<u32>>) -> Seq<Seq<u32>> {
    Seq::new(slots.len(), |i: int| slots[i]@)
}

/// What an [`EscCombo`] holds: the codes of each slot, and which of the listed
/// keys are down.
#[verifier::ext_equal]
pub struct ComboState {
    pub slots: Seq<Seq<u32>>,
    pub held: Set<u32>,
}

/// Does any slot list `key`?
pub open spec fn is_listed(slots: Seq<Seq<u32>>, key: u32) -> bool {
    exists|i: int| 0 <= i < slots.len() && (#[trigger] slots[i]).contains(key)
}

/// The combo after a keyboard event: a listed key is down from its press to its
/// release, other keys do not matter.
pub open spec fn observed(c: ComboState, key: u32, pressed: bool) -> ComboState {
    if !is_listed(c.slots, key) {
        c
    } else if pressed {
        ComboState { held: c.held.insert(key), ..c }
    } else {
        ComboState { held: c.held.remove(key), ..c }
    }
}

/// Is any key of the slot down?
pub open spec fn slot_held(slot: Seq<u32>, held: Set<u32>) -> bool {
    exists|j: int| 0 <= j < slot.len() && held.contains(#[trigger] slot[j])
}

/// Is every slot held?
pub open spec fn triggered(c: ComboState) -> bool {
    forall|i: int| 0 <= i < c.slots.len() ==> slot_held(#[trigger] c.slots[i], c.held)
}

/// The combo after a series of keyboard events `(key, pressed)`.
pub open spec fn observed_all(c: ComboState, events: Seq<(u32, bool)>) -> ComboState
    decreases events.len(),
{
    if events.len() == 0 {
        c
    } else {
        let before = observed_all(c, events.drop_last());
        observed(before, events.last().0, events.last().1)
    }
}

/// Was the latest event of `key` a press? `None` if it has no event.
pub open spec fn latest_event(events: Seq<(u32, bool)>, key: u32) -> Option<bool>
    decreases events.len(),
{
    if events.len() == 0 {
        None
    } else if events.last().0 == key {
        Some(events.last().1)
    } else {
        latest_event(events.drop_last(), key)
    }
}

/// An exit combo and which of its keys are down.
#[derive(Debug, Clone)]
pub struct EscCombo {
    slots: Vec<Vec<u32>>,
    held: Vec<u32>,
}

impl View for EscCombo {
    type V = ComboState;

    closed spec fn view(&self) -> ComboState {
        ComboState { slots: slot_seqs(self.slots@), held: self.held@.to_set() }
    }
}

/// There is at least one slot, no slot is empty, and only listed keys are noted
/// as down.
pub open spec fn combo_wf(c: ComboState) -> bool {
    &&& c.slots.len() > 0
    &&& forall|i: int| 0 <= i < c.slots.len() ==> (#[trigger] c.slots[i]).len() > 0
    &&& forall|key: u32| #[trigger] c.held.contains(key) ==> is_listed(c.slots, key)
}

/// Does `codes` list `key`?
fn lists(codes: &Vec<u32>, key: u32) -> (r: bool)
    ensures
        r == codes@.contains(key),
{
    let mut i: usize = 0;
    while i < codes.len()
        invariant
            i <= codes.len(),
            forall|j: int| 0 <= j < i ==> codes@[j] != key,
        decreases codes.len() - i,
    {
        if codes[i] == key {
            assert(codes@[i as int] == key);
            return true;
        }
        i = i + 1;
    }
    false
}

/// Is any of `codes` in `held`?
fn any_held(codes: &Vec<u32>, held: &Vec<u32>) -> (r: bool)
    ensures
        r == slot_held(codes@, held@.to_set()),
{
    let mut i: usize = 0;
    while i < codes.len()
        invariant
            i <= codes.len(),
            forall|j: int| 0 <= j < i ==> !held@.to_set().contains(#[trigger] codes@[j]),
        decreases codes.len() - i,
    {
        if lists(held, codes[i]) {
            assert(held@.to_set().contains(codes@[i as int]));
            return true;
        }
        i = i + 1;
    }
    false
}

/// `keys` without `key`.
fn without(keys: &Vec<u32>, key: u32) -> (out: Vec<u32>)
    ensures
        out@.to_set() == keys@.to_set().remove(key),
{
    let mut out: Vec<u32> = Vec::new();
    let mut i: usize = 0;
    while i < keys.len()
        invariant
            i <= keys.len(),
            forall|k: u32| #[trigger]
                out@.contains(k) <==> keys@.take(i as int).contains(k) && k != key,
        decreases keys.len() - i,
    {
        let ghost seen = keys@.take(i as int);
        let ghost before = out@;
        let code = keys[i];
        if code != key {
            out.push(code);
        }
        proof {
            assert(keys@.take(i + 1) =~= seen.push(code));
            assert forall|k: u32| #[trigger]
                out@.contains(k) <==> seen.push(code).contains(k) && k != key by {
                lemma_push_contains(seen, code, k);
                lemma_push_contains(before, code, k);
                assert(before.contains(k) <==> seen.contains(k) && k != key);
            }
        }
        i = i + 1;
    }
    assert(keys@.take(i as int) =~= keys@);
    assert(out@.to_set() =~= keys@.to_set().remove(key));
    out
}

/// What a sequence holds once an element was added.
proof fn lemma_push_contains(s: Seq<u32>, added: u32, k: u32)
    ensures
        s.push(added).contains(k) <==> s.contains(k) || k == added,
{
    let longer = s.push(added);
    if s.contains(k) {
        let i = choose|i: int| 0 <= i < s.len() && s[i] == k;
        assert(longer[i] == k);
    }
    if k == added {
        assert(longer[s.len() as int] == k);
    }
    if longer.contains(k) && k != added {
        let i = choose|i: int| 0 <= i < longer.len() && longer[i] == k;
        assert(s[i] == k);
    }
}

/// An alias list that fails early fails altogether, with the same error.
proof fn lemma_alias_error(tokens: Seq<Seq<char>>, n: int)
    requires
        0 <= n <= tokens.len(),
        alias_codes(tokens.take(n)) is Err,
    ensures
        alias_codes(tokens) == alias_codes(tokens.take(n)),
    decreases tokens.len(),
{
    if n < tokens.len() {
        assert(tokens.drop_last().take(n) =~= tokens.take(n));
        lemma_alias_error(tokens.drop_last(), n);
    } else {
        assert(tokens.take(n) =~= tokens);
    }
}

/// The same for a list of slots.
proof fn lemma_slot_error(tokens: Seq<Seq<char>>, n: int)
    requires
        0 <= n <= tokens.len(),
        all_slot_codes(tokens.take(n)) is Err,
    ensures
        all_slot_codes(tokens) == all_slot_codes(tokens.take(n)),
    decreases tokens.len(),
{
    if n < tokens.len() {
        assert(tokens.drop_last().take(n) =~= tokens.take(n));
        lemma_slot_error(tokens.drop_last(), n);
    } else {
        assert(tokens.take(n) =~= tokens);
    }
}

/// The codes of one slot.
fn parse_slot(token: &str) -> (r: Result<Vec<u32>, ParseError>)
    requires
        token@.len() > 0,
    ensures
        match r {
            Ok(codes) => slot_codes(token@) == Ok::<Seq<u32>, ComboError>(codes@),
            Err(e) => slot_codes(token@) == Err::<Seq<u32>, ComboError>(e@),
        },
{
    let keys = split_text(token, '|');
    let ghost tokens = texts(keys@);
    let mut aliases: Vec<u32> = Vec::new();
    let mut i: usize = 0;
    assert(tokens.take(0) =~= Seq::empty());
    while i < keys.len()
        invariant
            i <= keys.len(),
            tokens == texts(keys@),
            tokens == split(token@, '|'),
            token@.len() > 0,
            alias_codes(tokens.take(i as int)) == Ok::<Seq<u32>, ComboError>(aliases@),
        decreases keys.len() - i,
    {
        proof {
            assert(tokens.take(i + 1).drop_last() =~= tokens.take(i as int));
            assert(tokens.take(i + 1).last() == keys@[i as int]@);
        }
        let key = keys[i].as_str();
        if key.is_empty() {
            proof {
                lemma_alias_error(tokens, i + 1);
            }
            return Err(ParseError::EmptyAlias);
        }
        match lookup(key) {
            Some(code) => aliases.push(code),
            None => {
                proof {
                    lemma_alias_error(tokens, i + 1);
                }
                return Err(ParseError::UnknownKey(key.to_owned()));
            },
        }
        i = i + 1;
    }
    assert(tokens.take(i as int) =~= tokens);
    Ok(aliases)
}

impl EscCombo {
    pub open spec fn wf(&self) -> bool {
        combo_wf(self@)
    }

    /// Parse a combo such as `KEY_LEFTCTRL|KEY_RIGHTCTRL,KEY_ESC`. No key is
    /// down at first.
    pub fn parse(spec_text: &str) -> (r: Result<Self, ParseError>)
        ensures
            match r {
                Ok(combo) => {
                    &&& combo.wf()
                    &&& combo_slots(spec_text@) == Ok::<Seq<Seq<u32>>, ComboError>(combo@.slots)
                    &&& combo@.held == Set::<u32>::empty()
                },
                Err(e) => combo_slots(spec_text@) == Err::<Seq<Seq<u32>>, ComboError>(e@),
            },
    {
        if spec_text.is_empty() {
            return Err(ParseError::EmptyInput);
        }
        let pieces = split_text(spec_text, ',');
        let ghost tokens = texts(pieces@);
        let mut slots: Vec<Vec<u32>> = Vec::new();
        let mut i: usize = 0;
        assert(tokens.take(0) =~= Seq::empty());
        assert(slot_seqs(slots@) =~= Seq::empty());
        while i < pieces.len()
            invariant
                i <= pieces.len(),
                tokens == texts(pieces@),
                tokens == split(spec_text@, ','),
                spec_text@.len() > 0,
                slots@.len() == i,
                all_slot_codes(tokens.take(i as int)) == Ok::<Seq<Seq<u32>>, ComboError>(
                    slot_seqs(slots@),
                ),
                forall|j: int| 0 <= j < i ==> (#[trigger] slot_seqs(slots@)[j]).len() > 0,
            decreases pieces.len() - i,
        {
            proof {
                assert(tokens.take(i + 1).drop_last() =~= tokens.take(i as int));
                assert(tokens.take(i + 1).last() == pieces@[i as int]@);
            }
            let piece = pieces[i].as_str();
            if piece.is_empty() {
                proof {
                    lemma_slot_error(tokens, i + 1);
                }
                return Err(ParseError::EmptySlot);
            }
            match parse_slot(piece) {
                Ok(codes) => {
                    let ghost before = slot_seqs(slots@);
                    proof {
                        lemma_slot_not_empty(piece@, codes@);
                    }
                    slots.push(codes);
                    assert(slot_seqs(slots@) =~= before.push(codes@));
                },
                Err(e) => {
                    proof {
                        lemma_slot_error(tokens, i + 1);
                    }
                    return Err(e);
                },
            }
            i = i + 1;
        }
        proof {
            assert(tokens.take(i as int) =~= tokens);
            crate::text::law_split_join(spec_text@, ',');
        }
        let held: Vec<u32> = Vec::new();
        assert(held@.to_set() =~= Set::empty());
        Ok(EscCombo { slots, held })
    }

    /// Number of slots in the combo.
    pub fn slot_count(&self) -> (r: usize)
        ensures
            r == self@.slots.len(),
    {
        self.slots.len()
    }

    /// Codes declared for slot `i`.
    pub fn slot(&self, i: usize) -> (r: &[u32])
        requires
            i < self@.slots.len(),
        ensures
            r@ == self@.slots[i as int],
    {
        self.slots[i].as_slice()
    }

    /// Does any slot list `key`?
    fn is_listed(&self, key: u32) -> (r: bool)
        ensures
            r == is_listed(self@.slots, key),
    {
        let mut i: usize = 0;
        while i < self.slots.len()
            invariant
                i <= self.slots.len(),
                forall|j: int| 0 <= j < i ==> !(#[trigger] self@.slots[j]).contains(key),
            decreases self.slots.len() - i,
        {
            if lists(&self.slots[i], key) {
                assert(self@.slots[i as int].contains(key));
                return true;
            }
            i = i + 1;
        }
        false
    }

    /// Is every slot held?
    fn is_triggered(&self) -> (r: bool)
        ensures
            r == triggered(self@),
    {
        let mut i: usize = 0;
        while i < self.slots.len()
            invariant
                i <= self.slots.len(),
                forall|j: int| 0 <= j < i ==> slot_held(#[trigger] self@.slots[j], self@.held),
            decreases self.slots.len() - i,
        {
            if !any_held(&self.slots[i], &self.held) {
                assert(!slot_held(self@.slots[i as int], self@.held));
                return false;
            }
            i = i + 1;
        }
        true
    }

    /// Take note of one keyboard event. `true` if every slot is now held, that
    /// is, if at least one key of each is down.
    pub fn observe(&mut self, key: u32, pressed: bool) -> (r: bool)
        requires
            old(self).wf(),
        ensures
            final(self).wf(),
            final(self)@ == observed(old(self)@, key, pressed),
            r == triggered(final(self)@),
    {
        if self.is_listed(key) {
            let ghost before = self.held@;
            if !pressed {
                self.held = without(&self.held, key);
            } else if !lists(&self.held, key) {
                self.held.push(key);
                assert(self.held@.to_set() =~= before.to_set().insert(key)) by {
                    assert forall|k: u32| #[trigger]
                        self.held@.contains(k) <==> before.contains(k) || k == key by {
                        lemma_push_contains(before, key, k);
                    }
                }
            } else {
                assert(before.to_set().insert(key) =~= before.to_set());
            }
            assert(self@ =~= observed(old(self)@, key, pressed));
        }
        self.is_triggered()
    }
}

/// A slot that parses lists at least one key.
proof fn lemma_slot_not_empty(token: Seq<char>, codes: Seq<u32>)
    requires
        slot_codes(token) == Ok::<Seq<u32>, ComboError>(codes),
    ensures
        codes.len() > 0,
{
    crate::text::law_split_join(token, '|');
}

/// The slots of a combo that parses: at least one, and none of them empty.
pub proof fn lemma_slots_proper(spec_text: Seq<char>, slots: Seq<Seq<u32>>)
    requires
        combo_slots(spec_text) == Ok::<Seq<Seq<u32>>, ComboError>(slots),
    ensures
        slots.len() > 0,
        forall|i: int| 0 <= i < slots.len() ==> (#[trigger] slots[i]).len() > 0,
{
    crate::text::law_split_join(spec_text, ',');
    lemma_slots_not_empty(split(spec_text, ','), slots);
}

proof fn lemma_slots_not_empty(tokens: Seq<Seq<char>>, slots: Seq<Seq<u32>>)
    requires
        all_slot_codes(tokens) == Ok::<Seq<Seq<u32>>, ComboError>(slots),
    ensures
        slots.len() == tokens.len(),
        forall|i: int| 0 <= i < slots.len() ==> (#[trigger] slots[i]).len() > 0,
    decreases tokens.len(),
{
    if tokens.len() > 0 {
        let before = all_slot_codes(tokens.drop_last())->Ok_0;
        let codes = slot_codes(tokens.last())->Ok_0;
        lemma_slots_not_empty(tokens.drop_last(), before);
        lemma_slot_not_empty(tokens.last(), codes);
        assert(slots == before.push(codes));
    }
}

/// The default combo splits into its two key names.
proof fn lemma_default_split()
    ensures
        DEFAULT_COMBO@.len() > 0,
        split(DEFAULT_COMBO@, ',') == seq!["KEY_RIGHTSHIFT"@, "KEY_ESC"@],
{
    let text = DEFAULT_COMBO@;
    let shift = "KEY_RIGHTSHIFT"@;
    let esc = "KEY_ESC"@;
    reveal_strlit("KEY_RIGHTSHIFT,KEY_ESC");
    reveal_strlit("KEY_RIGHTSHIFT");
    reveal_strlit("KEY_ESC");
    lemma_position_unique(text, ',', 14);
    assert(text.take(14) =~= shift);
    assert(text.skip(15) =~= esc);
    lemma_position_unique(esc, ',', 7);
    assert(split(esc, ',') =~= seq![esc]);
    assert(split(text, ',') == seq![shift] + split(esc, ','));
    assert(seq![shift] + seq![esc] =~= seq![shift, esc]);
}

/// The default combo asks for right shift and escape.
pub proof fn lemma_default_combo()
    ensures
        combo_slots(DEFAULT_COMBO@) == Ok::<Seq<Seq<u32>>, ComboError>(
            seq![seq![54u32], seq![1u32]],
        ),
{
    let shift = "KEY_RIGHTSHIFT"@;
    let esc = "KEY_ESC"@;
    lemma_default_split();
    assert(slot_codes(shift) == Ok::<Seq<u32>, ComboError>(seq![54u32]) && slot_codes(esc) == Ok::<
        Seq<u32>,
        ComboError,
    >(seq![1u32])) by {
        reveal_strlit("KEY_RIGHTSHIFT");
        reveal_strlit("KEY_ESC");
        lemma_default_keys();
        lemma_position_unique(shift, '|', 14);
        lemma_position_unique(esc, '|', 7);
        lemma_single_alias(shift, 54);
        lemma_single_alias(esc, 1);
    }
    let none = Seq::<Seq<char>>::empty();
    let one = seq![shift];
    let both = seq![shift, esc];
    assert(both.drop_last() =~= one);
    assert(one.drop_last() =~= none);
    let no_slots = Seq::<Seq<u32>>::empty();
    assert(all_slot_codes(none) == Ok::<Seq<Seq<u32>>, ComboError>(no_slots));
    assert(all_slot_codes(one) == Ok::<Seq<Seq<u32>>, ComboError>(no_slots.push(seq![54u32])));
    assert(no_slots.push(seq![54u32]).push(seq![1u32]) =~= seq![seq![54u32], seq![1u32]]);
}

/// A slot that is the name of one key lists that key.
proof fn lemma_single_alias(token: Seq<char>, code: u32)
    requires
        token.len() > 0,
        crate::text::position(token, '|') == token.len(),
        key_code(token) == Some(code),
    ensures
        slot_codes(token) == Ok::<Seq<u32>, ComboError>(seq![code]),
{
    let aliases = split(token, '|');
    assert(aliases =~= seq![token]);
    assert(aliases.drop_last() =~= Seq::empty());
    assert(alias_codes(Seq::empty()) == Ok::<Seq<u32>, ComboError>(Seq::empty()));
    assert(Seq::empty().push(code) =~= seq![code]);
}

/// Events do not change which keys a combo lists.
proof fn lemma_combo_kept(c: ComboState, events: Seq<(u32, bool)>)
    requires
        combo_wf(c),
    ensures
        observed_all(c, events).slots == c.slots,
        combo_wf(observed_all(c, events)),
    decreases events.len(),
{
    if events.len() > 0 {
        lemma_combo_kept(c, events.drop_last());
    }
}

/// Is `key` down after the events, if `down` tells whether it was before them?
pub open spec fn down_after(events: Seq<(u32, bool)>, key: u32, down: bool) -> bool {
    match latest_event(events, key) {
        Some(pressed) => pressed,
        None => down,
    }
}

/// A listed key is down exactly if its own latest event was a press; events of
/// other keys do not matter.
pub proof fn law_latest_event_decides(c: ComboState, events: Seq<(u32, bool)>, key: u32)
    requires
        combo_wf(c),
        is_listed(c.slots, key),
    ensures
        observed_all(c, events).held.contains(key) <==> down_after(
            events,
            key,
            c.held.contains(key),
        ),
    decreases events.len(),
{
    if events.len() > 0 {
        let prefix = events.drop_last();
        lemma_combo_kept(c, prefix);
        law_latest_event_decides(c, prefix, key);
    }
}

/// Was the latest event of some key of the slot a press? A key without an event
/// counts as it did before.
pub open spec fn some_key_down(slot: Seq<u32>, events: Seq<(u32, bool)>, held: Set<u32>) -> bool {
    exists|j: int|
        0 <= j < slot.len() && down_after(events, #[trigger] slot[j], held.contains(slot[j]))
}

/// A slot is held exactly if the latest event of some key that it lists was a
/// press: any one of its keys holds it, whatever the others do.
pub proof fn law_any_key_holds_its_slot(c: ComboState, events: Seq<(u32, bool)>, i: int)
    requires
        combo_wf(c),
        0 <= i < c.slots.len(),
    ensures
        observed_all(c, events).slots == c.slots,
        combo_wf(observed_all(c, events)),
        slot_held(c.slots[i], observed_all(c, events).held) <==> some_key_down(
            c.slots[i],
            events,
            c.held,
        ),
{
    let slot = c.slots[i];
    let after = observed_all(c, events);
    lemma_combo_kept(c, events);
    assert forall|j: int| 0 <= j < slot.len() implies (after.held.contains(#[trigger] slot[j])
        <==> down_after(events, slot[j], c.held.contains(slot[j]))) by {
        assert(c.slots[i].contains(slot[j]));
        law_latest_event_decides(c, events, slot[j]);
    }
}

/// After any series of events the combo triggers exactly if every slot is held,
/// also where slots share keys.
pub proof fn law_combo_triggers(c: ComboState, events: Seq<(u32, bool)>)
    requires
        combo_wf(c),
    ensures
        triggered(observed_all(c, events)) <==> forall|i: int|
            0 <= i < c.slots.len() ==> some_key_down(#[trigger] c.slots[i], events, c.held),
{
    lemma_combo_kept(c, events);
    assert forall|i: int| 0 <= i < c.slots.len() implies (slot_held(
        #[trigger] c.slots[i],
        observed_all(c, events).held,
    ) <==> some_key_down(c.slots[i], events, c.held)) by {
        law_any_key_holds_its_slot(c, events, i);
    }
}

/// Is the text the name of a key?
pub open spec fn names_key(text: Seq<char>) -> bool {
    text.len() > 0 && key_code(text) is Some
}

/// Is the text one or more names of keys, with `|` between them?
pub open spec fn names_slot(text: Seq<char>) -> bool {
    &&& text.len() > 0
    &&& forall|j: int|
        0 <= j < split(text, '|').len() ==> names_key(#[trigger] split(text, '|')[j])
}

/// What is wrong with a text that is not the name of a key.
pub open spec fn key_fault(text: Seq<char>) -> ComboError {
    if text.len() == 0 {
        ComboError::EmptyAlias
    } else {
        ComboError::UnknownKey(text)
    }
}

/// Is `e` what is wrong with a slot? The first alias that names no key decides.
pub open spec fn is_slot_fault(text: Seq<char>, e: ComboError) -> bool {
    if text.len() == 0 {
        e == ComboError::EmptySlot
    } else {
        exists|j: int|
            {
                &&& 0 <= j < split(text, '|').len()
                &&& !names_key(#[trigger] split(text, '|')[j])
                &&& forall|k: int| 0 <= k < j ==> names_key(#[trigger] split(text, '|')[k])
                &&& e == key_fault(split(text, '|')[j])
            }
    }
}

proof fn lemma_alias_list(tokens: Seq<Seq<char>>)
    ensures
        match alias_codes(tokens) {
            Ok(codes) => {
                &&& codes.len() == tokens.len()
                &&& forall|j: int|
                    0 <= j < tokens.len() ==> names_key(#[trigger] tokens[j]) && Some(codes[j])
                        == key_code(tokens[j])
            },
            Err(e) => exists|j: int|
                {
                    &&& 0 <= j < tokens.len()
                    &&& !names_key(#[trigger] tokens[j])
                    &&& forall|k: int| 0 <= k < j ==> names_key(#[trigger] tokens[k])
                    &&& e == key_fault(tokens[j])
                },
        },
    decreases tokens.len(),
{
    if tokens.len() > 0 {
        let before = tokens.drop_last();
        let n = before.len() as int;
        lemma_alias_list(before);
        assert(forall|k: int| 0 <= k < n ==> #[trigger] tokens[k] == before[k]);
        match alias_codes(before) {
            Ok(codes) => {
                assert forall|k: int| 0 <= k < n implies names_key(#[trigger] tokens[k]) && Some(
                    codes[k],
                ) == key_code(tokens[k]) by {
                    assert(names_key(before[k]));
                }
                assert(tokens.last() == tokens[n]);
            },
            Err(e) => {
                let j = choose|j: int|
                    {
                        &&& 0 <= j < before.len()
                        &&& !names_key(#[trigger] before[j])
                        &&& forall|k: int| 0 <= k < j ==> names_key(#[trigger] before[k])
                        &&& e == key_fault(before[j])
                    };
                assert(tokens[j] == before[j]);
                assert forall|k: int| 0 <= k < j implies names_key(#[trigger] tokens[k]) by {
                    assert(names_key(before[k]));
                }
            },
        }
    }
}

/// What a slot lists, or what is wrong with it.
proof fn lemma_slot_list(text: Seq<char>)
    ensures
        match slot_codes(text) {
            Ok(codes) => {
                &&& names_slot(text)
                &&& codes.len() == split(text, '|').len()
                &&& forall|j: int|
                    0 <= j < codes.len() ==> Some(#[trigger] codes[j]) == key_code(
                        split(text, '|')[j],
                    )
            },
            Err(e) => !names_slot(text) && is_slot_fault(text, e),
        },
{
    if text.len() > 0 {
        let tokens = split(text, '|');
        lemma_alias_list(tokens);
        if let Ok(codes) = alias_codes(tokens) {
            assert forall|j: int| 0 <= j < codes.len() implies Some(#[trigger] codes[j])
                == key_code(tokens[j]) by {
                assert(names_key(tokens[j]));
            }
        }
    }
}

proof fn lemma_combo_list(tokens: Seq<Seq<char>>)
    ensures
        match all_slot_codes(tokens) {
            Ok(slots) => {
                &&& slots.len() == tokens.len()
                &&& forall|i: int|
                    0 <= i < tokens.len() ==> names_slot(#[trigger] tokens[i]) && Ok::<
                        Seq<u32>,
                        ComboError,
                    >(slots[i]) == slot_codes(tokens[i])
            },
            Err(e) => exists|i: int|
                {
                    &&& 0 <= i < tokens.len()
                    &&& !names_slot(#[trigger] tokens[i])
                    &&& forall|k: int| 0 <= k < i ==> names_slot(#[trigger] tokens[k])
                    &&& is_slot_fault(tokens[i], e)
                },
        },
    decreases tokens.len(),
{
    if tokens.len() > 0 {
        let before = tokens.drop_last();
        let n = before.len() as int;
        lemma_combo_list(before);
        lemma_slot_list(tokens.last());
        assert(forall|k: int| 0 <= k < n ==> #[trigger] tokens[k] == before[k]);
        assert(tokens.last() == tokens[n]);
        match all_slot_codes(before) {
            Ok(slots) => {
                assert forall|k: int| 0 <= k < n implies names_slot(#[trigger] tokens[k]) && Ok::<
                    Seq<u32>,
                    ComboError,
                >(slots[k]) == slot_codes(tokens[k]) by {
                    assert(names_slot(before[k]));
                }
            },
            Err(e) => {
                let i = choose|i: int|
                    {
                        &&& 0 <= i < before.len()
                        &&& !names_slot(#[trigger] before[i])
                        &&& forall|k: int| 0 <= k < i ==> names_slot(#[trigger] before[k])
                        &&& is_slot_fault(before[i], e)
                    };
                assert(tokens[i] == before[i]);
                assert forall|k: int| 0 <= k < i implies names_slot(#[trigger] tokens[k]) by {
                    assert(names_slot(before[k]));
                }
            },
        }
    }
}

/// What a combo means: it is slots with `,` between them, each of which is names of
/// keys with `|` between them, and it lists the codes of just these keys, slot by
/// slot and in order.
pub proof fn law_combo_lists_its_keys(text: Seq<char>)
    ensures
        combo_slots(text) is Ok <==> text.len() > 0 && forall|i: int|
            0 <= i < split(text, ',').len() ==> names_slot(#[trigger] split(text, ',')[i]),
        combo_slots(text) matches Ok(slots) ==> {
            &&& slots.len() == split(text, ',').len()
            &&& forall|i: int|
                0 <= i < slots.len() ==> (#[trigger] slots[i]).len() == split(
                    split(text, ',')[i],
                    '|',
                ).len()
            &&& forall|i: int, j: int|
                0 <= i < slots.len() && 0 <= j < slots[i].len() ==> Some(#[trigger] slots[i][j])
                    == key_code(split(split(text, ',')[i], '|')[j])
        },
{
    let pieces = split(text, ',');
    if text.len() > 0 {
        lemma_combo_list(pieces);
        if let Ok(slots) = all_slot_codes(pieces) {
            assert forall|i: int| 0 <= i < slots.len() implies (#[trigger] slots[i]).len() == split(
                pieces[i],
                '|',
            ).len() by {
                assert(names_slot(pieces[i]));
                lemma_slot_list(pieces[i]);
            }
            assert forall|i: int, j: int|
                0 <= i < slots.len() && 0 <= j < slots[i].len() implies Some(
                #[trigger] slots[i][j],
            ) == key_code(split(pieces[i], '|')[j]) by {
                assert(names_slot(pieces[i]));
                lemma_slot_list(pieces[i]);
            }
        }
    }
}

/// What is wrong with a combo that does not parse: it is empty, or the first slot
/// that is wrong decides, and in it the first alias.
pub proof fn law_first_fault_decides(text: Seq<char>)
    ensures
        combo_slots(text) matches Err(e) ==> if text.len() == 0 {
            e == ComboError::EmptyInput
        } else {
            exists|i: int|
                {
                    &&& 0 <= i < split(text, ',').len()
                    &&& !names_slot(#[trigger] split(text, ',')[i])
                    &&& forall|k: int| 0 <= k < i ==> names_slot(#[trigger] split(text, ',')[k])
                    &&& is_slot_fault(split(text, ',')[i], e)
                }
        },
{
    lemma_combo_list(split(text, ','));
}

} // verus!
