//! Numbers of the ioctl requests that are made.
//!
//! A request number packs the direction of the transfer, the size of its
//! argument, the letter of the driver and the number of the request in it. The
//! packing is the same on every architecture that is supported.

use vstd::prelude::*;

verus! {

pub const IOC_NONE: u32 = 0;

pub const IOC_WRITE: u32 = 1;

pub const IOC_READ: u32 = 2;

/// The letter of the evdev driver, `E`.
pub const EVDEV_IOCTL_BASE: u8 = 0x45;

/// The letter of the uinput driver, `U`.
pub const UINPUT_IOCTL_BASE: u8 = 0x55;

/// Take the device away from every other reader.
pub const EVIOCGRAB: u64 = 0x4004_4590;

pub const UI_DEV_CREATE: u32 = 0x5501;

pub const UI_DEV_DESTROY: u32 = 0x5502;

/// Name the device; the argument is 92 bytes long.
pub const UI_DEV_SETUP: u32 = 0x405c_5503;

/// Give the range of an absolute axis; the argument is 28 bytes long.
pub const UI_ABS_SETUP: u32 = 0x401c_5504;

pub const UI_SET_EVBIT: u32 = 0x4004_5564;

pub const UI_SET_KEYBIT: u32 = 0x4004_5565;

pub const UI_SET_RELBIT: u32 = 0x4004_5566;

pub const UI_SET_ABSBIT: u32 = 0x4004_5567;

pub const UI_SET_MSCBIT: u32 = 0x4004_5568;

pub const UI_SET_PROPBIT: u32 = 0x4004_556e;

/// The number of a request: direction, size, letter and number side by side.
pub open spec fn request_number(dir: u32, ty: u8, nr: u16, size: u32) -> u32 {
    (dir << 30u32) | ((ty as u32) << 8u32) | (nr as u32) | (size << 16u32)
}

/// The fields stay within their bits.
pub open spec fn fields_fit(dir: u32, nr: u16, size: u32) -> bool {
    dir < 4 && nr < 0x100 && size < 0x4000
}

/// Fields that fit do not touch each other: the number is their weighted sum,
/// from which each can be read back.
pub proof fn law_fields_side_by_side(dir: u32, ty: u8, nr: u16, size: u32)
    requires
        fields_fit(dir, nr, size),
    ensures
        request_number(dir, ty, nr, size) == dir * 0x4000_0000 + size * 0x1_0000 + ty * 0x100 + nr,
{
    assert(dir < 4 && nr < 0x100 && size < 0x4000 ==> (dir << 30u32) | ((ty as u32) << 8u32) | (
    nr as u32) | (size << 16u32) == dir * 0x4000_0000 + size * 0x1_0000 + ty * 0x100 + nr)
        by (bit_vector);
}

/// The constants are the numbers of the requests they are named after.
pub proof fn law_constants_are_request_numbers()
    ensures
        EVIOCGRAB == request_number(IOC_WRITE, EVDEV_IOCTL_BASE, 0x90, 4),
        UI_DEV_CREATE == request_number(IOC_NONE, UINPUT_IOCTL_BASE, 1, 0),
        UI_DEV_DESTROY == request_number(IOC_NONE, UINPUT_IOCTL_BASE, 2, 0),
        UI_DEV_SETUP == request_number(IOC_WRITE, UINPUT_IOCTL_BASE, 3, 92),
        UI_ABS_SETUP == request_number(IOC_WRITE, UINPUT_IOCTL_BASE, 4, 28),
        UI_SET_EVBIT == request_number(IOC_WRITE, UINPUT_IOCTL_BASE, 100, 4),
        UI_SET_KEYBIT == request_number(IOC_WRITE, UINPUT_IOCTL_BASE, 101, 4),
        UI_SET_RELBIT == request_number(IOC_WRITE, UINPUT_IOCTL_BASE, 102, 4),
        UI_SET_ABSBIT == request_number(IOC_WRITE, UINPUT_IOCTL_BASE, 103, 4),
        UI_SET_MSCBIT == request_number(IOC_WRITE, UINPUT_IOCTL_BASE, 104, 4),
        UI_SET_PROPBIT == request_number(IOC_WRITE, UINPUT_IOCTL_BASE, 110, 4),
{
    law_fields_side_by_side(IOC_WRITE, EVDEV_IOCTL_BASE, 0x90, 4);
    law_fields_side_by_side(IOC_NONE, UINPUT_IOCTL_BASE, 1, 0);
    law_fields_side_by_side(IOC_NONE, UINPUT_IOCTL_BASE, 2, 0);
    law_fields_side_by_side(IOC_WRITE, UINPUT_IOCTL_BASE, 3, 92);
    law_fields_side_by_side(IOC_WRITE, UINPUT_IOCTL_BASE, 4, 28);
    law_fields_side_by_side(IOC_WRITE, UINPUT_IOCTL_BASE, 100, 4);
    law_fields_side_by_side(IOC_WRITE, UINPUT_IOCTL_BASE, 101, 4);
    law_fields_side_by_side(IOC_WRITE, UINPUT_IOCTL_BASE, 102, 4);
    law_fields_side_by_side(IOC_WRITE, UINPUT_IOCTL_BASE, 103, 4);
    law_fields_side_by_side(IOC_WRITE, UINPUT_IOCTL_BASE, 104, 4);
    law_fields_side_by_side(IOC_WRITE, UINPUT_IOCTL_BASE, 110, 4);
}

/// The number of a request.
pub fn ioc(dir: u32, ty: u8, nr: u16, size: u32) -> (r: u32)
    ensures
        r == request_number(dir, ty, nr, size),
        fields_fit(dir, nr, size) ==> r == dir * 0x4000_0000 + size * 0x1_0000 + ty * 0x100 + nr,
{
    proof {
        if fields_fit(dir, nr, size) {
            law_fields_side_by_side(dir, ty, nr, size);
        }
    }
    (dir << 30u32) | ((ty as u32) << 8u32) | (nr as u32) | (size << 16u32)
}

/// The number of a request without an argument.
pub fn io_none(ty: u8, nr: u8) -> (r: u32)
    ensures
        r == request_number(IOC_NONE, ty, nr as u16, 0),
        r == ty * 0x100 + nr,
{
    ioc(IOC_NONE, ty, nr as u16, 0)
}

/// The number of a request whose argument the driver reads.
pub fn iow(ty: u8, nr: u8, size: u32) -> (r: u32)
    ensures
        r == request_number(IOC_WRITE, ty, nr as u16, size),
        size < 0x4000 ==> r == 0x4000_0000 + size * 0x1_0000 + ty * 0x100 + nr,
{
    ioc(IOC_WRITE, ty, nr as u16, size)
}

/// Ask for the codes of event type `ev` that a device can send, as a bitmap of
/// at most `len` bytes. Type 0 asks for the event types themselves.
pub fn eviocgbit(ev: u8, len: u32) -> (r: u64)
    ensures
        r == request_number(IOC_READ, EVDEV_IOCTL_BASE, (0x20 + ev) as u16, len),
        ev < 0xe0 && len < 0x4000 ==> r == 0x8000_4520 + len * 0x1_0000 + ev,
{
    ioc(IOC_READ, EVDEV_IOCTL_BASE, 0x20 + ev as u16, len) as u64
}

/// Ask for the range of absolute axis `abs`; the answer is 24 bytes long.
pub fn eviocgabs(abs: u8) -> (r: u64)
    ensures
        r == request_number(IOC_READ, EVDEV_IOCTL_BASE, (0x40 + abs) as u16, 24),
        abs < 0xc0 ==> r == 0x8018_4540 + abs,
{
    ioc(IOC_READ, EVDEV_IOCTL_BASE, 0x40 + abs as u16, 24) as u64
}

} // verus!
