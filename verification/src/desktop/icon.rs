//! Colors of the icons, and their pixels as the tray takes them.

use vstd::prelude::*;

verus! {

/// RGBA color, 0..=255 per channel.
pub type Rgba = [u8; 4];

pub const GREEN: Rgba = [0x44, 0xD6, 0x2C, 0xFF];

pub const AMBER: Rgba = [0xFF, 0xB4, 0x30, 0xFF];

pub const RED: Rgba = [0xFF, 0x5A, 0x5A, 0xFF];

pub const GREY: Rgba = [0x9A, 0x9E, 0xA5, 0xFF];

pub const BACKGROUND: Rgba = [0x16, 0x18, 0x1B, 0xFF];

pub const TRACK: Rgba = [0x55, 0x5A, 0x62, 0xFF];

/// Color of a battery level.
pub open spec fn level_color(level: u8) -> Rgba {
    if level <= 15 {
        RED
    } else if level <= 35 {
        AMBER
    } else {
        GREEN
    }
}

/// A battery is red up to 15 percent, amber up to 35 and green above.
pub proof fn colors_tell_the_level(level: u8)
    ensures
        level <= 15 ==> level_color(level)@ == seq![0xFFu8, 0x5A, 0x5A, 0xFF],
        15 < level <= 35 ==> level_color(level)@ == seq![0xFFu8, 0xB4, 0x30, 0xFF],
        level > 35 ==> level_color(level)@ == seq![0x44u8, 0xD6, 0x2C, 0xFF],
{
    assert(RED@ =~= seq![0xFFu8, 0x5A, 0x5A, 0xFF]);
    assert(AMBER@ =~= seq![0xFFu8, 0xB4, 0x30, 0xFF]);
    assert(GREEN@ =~= seq![0x44u8, 0xD6, 0x2C, 0xFF]);
}

pub fn battery_color(level: u8) -> (r: Rgba)
    ensures
        r == level_color(level),
{
    if level <= 15 {
        RED
    } else if level <= 35 {
        AMBER
    } else {
        GREEN
    }
}

/// Color of the tray icon: grey while offline, else by the battery.
pub fn tray_color(online: bool, battery: Option<u8>) -> (r: Rgba)
    ensures
        r == if !online {
            GREY
        } else {
            match battery {
                Some(level) => level_color(level),
                None => GREEN,
            }
        },
        !online ==> r@ == GREY@,
        online && battery is None ==> r@ == GREEN@,
        online && (battery matches Some(level) && level <= 15) ==> r@ == RED@,
        online && (battery matches Some(level) && level > 35) ==> r@ == GREEN@,
{
    if !online {
        return GREY;
    }
    match battery {
        Some(level) => battery_color(level),
        None => GREEN,
    }
}

/// How far the battery bar of the tray icon is filled (percent). There is
/// none while offline or while the level is unknown.
pub fn tray_bar(online: bool, battery: Option<u8>) -> (r: Option<u8>)
    ensures
        r == match battery {
            Some(level) if online => Some(
                if level < 100 {
                    level
                } else {
                    100u8
                },
            ),
            _ => None,
        },
        r is Some <==> online && battery is Some,
        r matches Some(filled) ==> filled <= 100 && filled <= battery->0 && (filled < 100 ==> filled == battery->0),
{
    match battery {
        Some(level) => {
            if !online {
                None
            } else if level < 100 {
                Some(level)
            } else {
                Some(100)
            }
        },
        None => None,
    }
}

/// One byte of the ARGB image: the alpha channel moves to the front of its
/// pixel.
pub open spec fn argb_byte(rgba: Seq<u8>, i: int) -> u8 {
    if i % 4 == 0 {
        rgba[i + 3]
    } else {
        rgba[i - 1]
    }
}

/// In every pixel the alpha channel comes first, then red, green and blue.
pub proof fn pixels_are_turned(rgba: Seq<u8>, k: int)
    requires
        0 <= k,
        4 * k + 3 < rgba.len(),
    ensures
        argb_byte(rgba, 4 * k) == rgba[4 * k + 3],
        argb_byte(rgba, 4 * k + 1) == rgba[4 * k],
        argb_byte(rgba, 4 * k + 2) == rgba[4 * k + 1],
        argb_byte(rgba, 4 * k + 3) == rgba[4 * k + 2],
{
}

/// RGBA -> ARGB32 in network byte order (StatusNotifierItem pixmaps). Bytes
/// that make no whole pixel are dropped.
pub fn rgba_to_argb(rgba: &[u8]) -> (r: Vec<u8>)
    ensures
        r@ == Seq::new((rgba@.len() / 4 * 4) as nat, |i: int| argb_byte(rgba@, i)),
{
    let mut out: Vec<u8> = Vec::new();
    let mut i: usize = 0;
    while rgba.len() - i >= 4
        invariant
            i <= rgba@.len(),
            i % 4 == 0,
            out@ == Seq::new(i as nat, |j: int| argb_byte(rgba@, j)),
        decreases rgba@.len() - i,
    {
        out.push(rgba[i + 3]);
        out.push(rgba[i]);
        out.push(rgba[i + 1]);
        out.push(rgba[i + 2]);
        i += 4;
        assert(out@ =~= Seq::new(i as nat, |j: int| argb_byte(rgba@, j)));
    }
    assert(i as int == rgba@.len() / 4 * 4);
    out
}

} // verus!
