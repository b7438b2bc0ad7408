//! Register numbers. The SET variant of a register is `GET | 0x80`.

use vstd::prelude::*;

verus! {

pub const SERIAL: u8 = 0x00;

pub const FIRMWARE: u8 = 0x02;

pub const USB_PID: u8 = 0x03;

pub const EQ_PRESET: u8 = 0x13;

pub const EQ_BANDS: u8 = 0x15;

pub const SIDETONE: u8 = 0x18;

pub const SIDETONE_LEVEL: u8 = 0x19;

pub const ENHANCEMENT: u8 = 0x1D;

pub const EQ_ENABLE: u8 = 0x1E;

pub const LINK_STATUS: u8 = 0x20;

pub const BATTERY: u8 = 0x21;

pub const BT_DND: u8 = 0x27;

pub const CHARGING: u8 = 0x2A;

pub const SLEEP_TIMER: u8 = 0x2C;

pub const MIC_MUTE: u8 = 0x55;

pub const DONGLE_LED: u8 = 0x66;

pub const SET: u8 = 0x80;

/// The SET command of a register.
pub open spec fn set_command(get: u8) -> u8 {
    if get < SET {
        (get + SET) as u8
    } else {
        get
    }
}

pub fn set(get: u8) -> (r: u8)
    ensures
        r == set_command(get),
{
    assert(get | 0x80 == if get < 0x80 { get + 0x80 } else { get as int }) by (bit_vector);
    get | SET
}

pub fn is_set(cmd: u8) -> (r: bool)
    ensures
        r == (cmd >= SET),
{
    assert((cmd & 0x80 != 0) == (cmd >= 0x80)) by (bit_vector);
    cmd & SET != 0
}

/// The register that a command, GET or SET, is about.
pub open spec fn register(cmd: u8) -> u8 {
    cmd % SET
}

pub fn get_of(cmd: u8) -> (r: u8)
    ensures
        r == register(cmd),
{
    assert(cmd & !0x80u8 == cmd % 0x80) by (bit_vector);
    cmd & !SET
}

/// SET commands are told apart from GET commands, and both name their
/// register.
pub proof fn set_commands(get: u8)
    requires
        get < SET,
    ensures
        set_command(get) >= SET,
        register(set_command(get)) == get,
        register(get) == get,
{
}

} // verus!
