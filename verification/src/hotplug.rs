//! Devices that come and go.
//!
//! The kernel reports what is created and deleted in the device directory. Only
//! names that start with `event` matter.

use vstd::prelude::*;
use vstd::utf8::{decode_first_scalar, decode_utf8, pop_first_scalar, valid_utf8};

use nix::sys::inotify::AddWatchFlags;

verus! {

/// Did a device come or go?
#[derive(Debug, Clone, Copy, PartialEq, Eq, Structural)]
pub enum HotplugKind {
    Added,
    Removed,
}

/// A device that came or went.
#[derive(Debug, Clone)]
pub struct HotplugEvent {
    pub kind: HotplugKind,
    /// Short device name, such as `event3`.
    pub name: String,
}

/// What the kernel reports of one file.
#[derive(Debug)]
pub struct DirectoryChange {
    /// What happened, as a set of bits.
    pub mask: u32,
    /// The name of the file, where there is one.
    pub name: Option<Vec<u8>>,
}

/// What a [`HotplugEvent`] holds.
pub type Plug = (HotplugKind, Seq<char>);

/// What a [`DirectoryChange`] holds.
pub type Change = (u32, Option<Seq<u8>>);

impl View for HotplugEvent {
    type V = Plug;

    open spec fn view(&self) -> Plug {
        (self.kind, self.name@)
    }
}

impl View for DirectoryChange {
    type V = Change;

    open spec fn view(&self) -> Change {
        (
            self.mask,
            match self.name {
                Some(name) => Some(name@),
                None => None,
            },
        )
    }
}

/// The text that `String::from_utf8_lossy` makes of bytes.
pub uninterp spec fn lossy_text(bytes: Seq<u8>) -> Seq<char>;

/// The text that the bytes stand for: `String::from_utf8_lossy`, which replaces
/// what is not valid UTF-8 and returns valid UTF-8 as it is.
#[verifier::external_body]
fn to_text(bytes: &[u8]) -> (r: String)
    ensures
        r@ == lossy_text(bytes@),
        valid_utf8(bytes@) ==> r@ == decode_utf8(bytes@),
{
    String::from_utf8_lossy(bytes).into_owned()
}

/// The bit that says that a file was created.
pub open spec fn says_created(mask: u32) -> bool {
    mask & 0x100 == 0x100
}

/// Is `IN_CREATE`, bit 0x100, among the bits? `nix`'s
/// `AddWatchFlags::from_bits_retain` keeps all bits of the mask, and `contains`
/// tells whether every bit of its argument is among them.
#[verifier::external_body]
fn is_created(mask: u32) -> (r: bool)
    ensures
        r == says_created(mask),
{
    AddWatchFlags::from_bits_retain(mask).contains(AddWatchFlags::IN_CREATE)
}

/// Does a file name start with `event`?
pub open spec fn is_event_name(name: Seq<u8>) -> bool {
    name.len() >= 5 && name.take(5) == seq![101u8, 118u8, 101u8, 110u8, 116u8]
}

/// Does a change concern a device?
pub open spec fn concerns_device(change: Change) -> bool {
    change.1 is Some && is_event_name(change.1->0)
}

/// What a mask says of a device called `name`.
pub open spec fn plug(mask: u32, name: Seq<char>) -> Plug {
    (
        if says_created(mask) {
            HotplugKind::Added
        } else {
            HotplugKind::Removed
        },
        name,
    )
}

/// The changes that concern devices, in order.
pub open spec fn device_changes(changes: Seq<Change>) -> Seq<Plug>
    decreases changes.len(),
{
    if changes.len() == 0 {
        Seq::empty()
    } else {
        let earlier = device_changes(changes.drop_last());
        let last = changes.last();
        if concerns_device(last) {
            earlier.push(plug(last.0, lossy_text(last.1->0)))
        } else {
            earlier
        }
    }
}

/// The views of a list of changes.
pub open spec fn change_views(changes: Seq<DirectoryChange>) -> Seq<Change> {
    Seq::new(changes.len(), |i: int| changes[i]@)
}

/// The views of a list of events.
pub open spec fn plug_views(events: Seq<HotplugEvent>) -> Seq<Plug> {
    Seq::new(events.len(), |i: int| events[i]@)
}

/// Does a file name start with `event`?
pub fn has_event_name(name: &[u8]) -> (r: bool)
    ensures
        r == is_event_name(name@),
{
    let r = name.len() >= 5 && name[0] == 101 && name[1] == 118 && name[2] == 101 && name[3] == 110
        && name[4] == 116;
    proof {
        let start = seq![101u8, 118u8, 101u8, 110u8, 116u8];
        if r {
            assert(name@.take(5) =~= start);
        } else if is_event_name(name@) {
            let head = name@.take(5);
            assert(head[0] == start[0] && head[1] == start[1] && head[2] == start[2] && head[3]
                == start[3] && head[4] == start[4]);
        }
    }
    r
}

/// What a mask says of a device called `name`.
pub fn hotplug_event(mask: u32, name: String) -> (r: HotplugEvent)
    ensures
        r@ == plug(mask, name@),
{
    let kind = if is_created(mask) {
        HotplugKind::Added
    } else {
        HotplugKind::Removed
    };
    HotplugEvent { kind, name }
}

/// The changes that concern devices, in order. A name that is valid UTF-8, as
/// `event3` is, arrives as it is.
pub fn filter_changes(changes: &Vec<DirectoryChange>) -> (out: Vec<HotplugEvent>)
    ensures
        plug_views(out@) == device_changes(change_views(changes@)),
        forall|i: int|
            0 <= i < changes@.len() && concerns_device(changes@[i]@) && valid_utf8(
                changes@[i]@.1->0,
            ) ==> lossy_text((#[trigger] changes@[i])@.1->0) == decode_utf8(changes@[i]@.1->0),
{
    let mut out: Vec<HotplugEvent> = Vec::new();
    let ghost all = change_views(changes@);
    let mut i: usize = 0;
    assert(all.take(0) =~= Seq::empty());
    assert(plug_views(out@) =~= Seq::empty());
    while i < changes.len()
        invariant
            i <= changes.len(),
            all == change_views(changes@),
            plug_views(out@) == device_changes(all.take(i as int)),
            forall|j: int|
                0 <= j < i && concerns_device(changes@[j]@) && valid_utf8(changes@[j]@.1->0)
                    ==> lossy_text((#[trigger] changes@[j])@.1->0) == decode_utf8(
                    changes@[j]@.1->0,
                ),
        decreases changes.len() - i,
    {
        proof {
            assert(all.take(i + 1).drop_last() =~= all.take(i as int));
            assert(all.take(i + 1).last() == changes@[i as int]@);
        }
        if let Some(name) = &changes[i].name {
            if has_event_name(name.as_slice()) {
                let ghost before = plug_views(out@);
                let event = hotplug_event(changes[i].mask, to_text(name.as_slice()));
                out.push(event);
                assert(plug_views(out@) =~= before.push(event@));
            }
        }
        i = i + 1;
    }
    assert(all.take(i as int) =~= all);
    out
}

/// A name in ASCII, as device names are, is valid UTF-8 and stands for its own
/// characters.
pub proof fn law_ascii_name_kept(name: Seq<u8>)
    requires
        forall|i: int| 0 <= i < name.len() ==> #[trigger] name[i] < 128,
    ensures
        valid_utf8(name),
        decode_utf8(name) == Seq::new(name.len(), |i: int| name[i] as char),
    decreases name.len(),
{
    let chars = Seq::new(name.len(), |i: int| name[i] as char);
    if name.len() == 0 {
        assert(decode_utf8(name) =~= chars);
    } else {
        let rest = pop_first_scalar(name);
        let b = name[0];
        assert(rest =~= name.skip(1));
        assert(b < 128 ==> (b & 0x7f) == b) by (bit_vector);
        law_ascii_name_kept(rest);
        assert(decode_first_scalar(name) == b as u32);
        assert(decode_utf8(name) =~= chars);
    }
}

/// Only devices are reported, each as often as it changed and in the same
/// order: the changes of two reads are reported one after the other.
pub proof fn law_reads_add_up(first: Seq<Change>, second: Seq<Change>)
    ensures
        device_changes(first + second) == device_changes(first) + device_changes(second),
    decreases second.len(),
{
    let both = first + second;
    if second.len() == 0 {
        assert(both =~= first);
        assert(device_changes(first) + device_changes(second) =~= device_changes(first));
    } else {
        law_reads_add_up(first, second.drop_last());
        assert(both.drop_last() =~= first + second.drop_last());
        assert(both.last() == second.last());
        assert(device_changes(both) =~= device_changes(first) + device_changes(second));
    }
}

/// Does a file name start with the bytes of `event`?
pub open spec fn names_event(name: Seq<u8>) -> bool {
    &&& name.len() >= 5
    &&& name[0] == 'e' as u8
    &&& name[1] == 'v' as u8
    &&& name[2] == 'e' as u8
    &&& name[3] == 'n' as u8
    &&& name[4] == 't' as u8
}

/// What becomes of one change: a file whose name starts with `event` is a device
/// that came if bit 8 of the mask is set, and went if not; anything else is left
/// out.
pub proof fn law_one_change(mask: u32, name: Seq<u8>)
    ensures
        device_changes(seq![(mask, Some(name))]) == (if names_event(name) {
            seq![
                (
                    if (mask / 0x100) % 2 == 1 {
                        HotplugKind::Added
                    } else {
                        HotplugKind::Removed
                    },
                    lossy_text(name),
                ),
            ]
        } else {
            Seq::empty()
        }),
        device_changes(seq![(mask, None::<Seq<u8>>)]) == Seq::<Plug>::empty(),
{
    let start = seq![101u8, 118u8, 101u8, 110u8, 116u8];
    let named = seq![(mask, Some(name))];
    let unnamed = seq![(mask, None::<Seq<u8>>)];
    assert(named.drop_last() =~= Seq::empty());
    assert(unnamed.drop_last() =~= Seq::empty());
    assert(device_changes(Seq::empty()) == Seq::<Plug>::empty());
    assert((mask & 0x100 == 0x100) <==> (mask / 0x100) % 2 == 1) by (bit_vector);
    if names_event(name) {
        assert(name.take(5) =~= start);
    } else if is_event_name(name) {
        let head = name.take(5);
        assert(head[0] == start[0] && head[1] == start[1] && head[2] == start[2] && head[3]
            == start[3] && head[4] == start[4]);
    }
    assert(device_changes(named) =~= (if names_event(name) {
        seq![plug(mask, lossy_text(name))]
    } else {
        Seq::empty()
    }));
}

} // verus!
