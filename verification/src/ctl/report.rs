//! What the command line prints.

use super::commands::EqReport;
use super::parse::{switch_value, switch_words_are_opposites};

use crate::config::{Config, PresetView};
use crate::devices::blackshark_v2_hs::exchange::{Incoming, IncomingView};
use crate::devices::blackshark_v2_hs::state::{HeadsetState, StateView};
use crate::devices::{Connection, FoundDevice, FoundView};
use crate::eq::{
    band_label, builtin, builtin_curves, label, Bands, HardwarePreset, BAND_COUNT, BUILTIN_COUNT,
};
use crate::text::{
    dec, decimal, decimals_read_back, digits_value, hex2, join, joined, push_hex2, push_upper_hex2, upper_hex2, views,
};
use crate::views::some_view;
use vstd::prelude::*;
use vstd::string::*;

verus! {

pub open spec fn on_off_text(on: bool) -> Seq<char> {
    if on {
        "on"@
    } else {
        "off"@
    }
}

pub fn on_off(on: bool) -> (r: &'static str)
    ensures
        r@ == on_off_text(on),
{
    if on {
        "on"
    } else {
        "off"
    }
}

pub open spec fn minutes_words(minutes: u8) -> Seq<char> {
    if minutes == 0 {
        "never"@
    } else {
        dec(minutes as nat) + " min"@
    }
}

pub fn minutes_text(minutes: u8) -> (r: String)
    ensures
        r@ == minutes_words(minutes),
{
    if minutes == 0 {
        "never".to_owned()
    } else {
        let mut out = decimal(minutes as u64);
        out.append(" min");
        out
    }
}

pub open spec fn connection_words(connection: Connection) -> Seq<char> {
    match connection {
        Connection::Dongle => "2.4 GHz dongle"@,
        Connection::Wired => "USB cable"@,
    }
}

pub fn connection_text(connection: Connection) -> (r: &'static str)
    ensures
        r@ == connection_words(connection),
{
    match connection {
        Connection::Dongle => "2.4 GHz dongle",
        Connection::Wired => "USB cable",
    }
}

pub open spec fn preset_words(preset: HardwarePreset) -> Seq<char> {
    match preset {
        HardwarePreset::Custom => "custom"@,
        HardwarePreset::Unknown(raw) => "unknown (0x"@ + upper_hex2(raw) + ")"@,
        rom => rom.key_of() + " (factory)"@,
    }
}

pub fn preset_text(preset: HardwarePreset) -> (r: String)
    ensures
        r@ == preset_words(preset),
{
    match preset {
        HardwarePreset::Custom => "custom".to_owned(),
        HardwarePreset::Unknown(raw) => {
            let mut out = "unknown (0x".to_owned();
            push_upper_hex2(&mut out, raw);
            out.append(")");
            out
        },
        rom => {
            let mut out = rom.key();
            out.append(" (factory)");
            out
        },
    }
}

/// A gain with its sign.
pub open spec fn signed_gain(db: i8) -> Seq<char> {
    if db < 0 {
        seq!['-'] + dec((-db) as nat)
    } else {
        seq!['+'] + dec(db as nat)
    }
}

fn gain_text(db: i8) -> (r: String)
    ensures
        r@ == signed_gain(db),
{
    let mut out = String::new();
    if db < 0 {
        out.push('-');
        out.append(decimal((-(db as i64)) as u64).as_str());
    } else {
        out.push('+');
        out.append(decimal(db as u64).as_str());
    }
    assert(out@ =~= signed_gain(db));
    out
}

/// A curve as it is printed.
pub open spec fn bands_words(bands: Bands) -> Seq<char> {
    "["@ + joined(Seq::new(BAND_COUNT as nat, |i: int| signed_gain(bands@[i])), " "@) + "] dB"@
}

pub fn bands_text(bands: &Bands) -> (r: String)
    ensures
        r@ == bands_words(*bands),
{
    let mut gains: Vec<String> = Vec::new();
    let mut i: usize = 0;
    while i < BAND_COUNT
        invariant
            i <= BAND_COUNT,
            views(gains@) == Seq::new(i as nat, |j: int| signed_gain(bands@[j])),
        decreases BAND_COUNT - i,
    {
        let ghost before = views(gains@);
        let gain = gain_text(bands[i]);
        let ghost text = gain@;
        gains.push(gain);
        i += 1;
        assert(views(gains@) =~= before.push(text));
        assert(before.push(text) =~= Seq::new(i as nat, |j: int| signed_gain(bands@[j])));
    }
    let mut out = "[".to_owned();
    out.append(join(&gains, " ").as_str());
    out.append("] dB");
    out
}

/// Bytes as pairs of hexadecimal digits, separated by blanks.
pub open spec fn hex_words(bytes: Seq<u8>) -> Seq<char> {
    joined(Seq::new(bytes.len(), |i: int| hex2(bytes[i])), " "@)
}

pub fn hex(bytes: &[u8]) -> (r: String)
    ensures
        r@ == hex_words(bytes@),
{
    let mut pairs: Vec<String> = Vec::new();
    let mut i: usize = 0;
    while i < bytes.len()
        invariant
            i <= bytes@.len(),
            views(pairs@) == Seq::new(i as nat, |j: int| hex2(bytes@[j])),
        decreases bytes@.len() - i,
    {
        let ghost before = views(pairs@);
        let mut pair = String::new();
        push_hex2(&mut pair, bytes[i]);
        let ghost text = pair@;
        assert(text =~= hex2(bytes@[i as int]));
        pairs.push(pair);
        i += 1;
        assert(views(pairs@) =~= before.push(text));
        assert(before.push(text) =~= Seq::new(i as nat, |j: int| hex2(bytes@[j])));
    }
    join(&pairs, " ")
}

/// `data` up to its last byte that is not zero.
pub open spec fn without_zeros(data: Seq<u8>) -> Seq<u8>
    decreases data.len(),
{
    if data.len() > 0 && data.last() == 0 {
        without_zeros(data.drop_last())
    } else {
        data
    }
}

fn trim_zeros(data: &Vec<u8>) -> (r: Vec<u8>)
    ensures
        r@ == without_zeros(data@),
{
    let mut end: usize = data.len();
    assert(data@.take(end as int) =~= data@);
    while end > 0 && data[end - 1] == 0
        invariant
            end <= data@.len(),
            without_zeros(data@) == without_zeros(data@.take(end as int)),
        decreases end,
    {
        assert(data@.take(end as int).drop_last() =~= data@.take(end - 1));
        end -= 1;
    }
    let mut out: Vec<u8> = Vec::new();
    let mut i: usize = 0;
    assert(out@ =~= data@.take(0));
    while i < end
        invariant
            i <= end <= data@.len(),
            out@ == data@.take(i as int),
        decreases end - i,
    {
        out.push(data[i]);
        i += 1;
        assert(out@ =~= data@.take(i as int));
    }
    out
}

/// What `monitor` prints of an event, behind the time.
pub open spec fn event_words(event: IncomingView) -> Seq<char> {
    match event {
        IncomingView::Frame(r) => "frame: domain 0x"@ + upper_hex2(r.domain) + " cmd 0x"@ + upper_hex2(r.cmd)
            + " status 0x"@ + upper_hex2(r.status) + " seq 0x"@ + upper_hex2(r.seq) + " payload ["@ + hex_words(
            r.payload,
        ) + "]"@,
        IncomingView::Other { report_id, data } => "report 0x"@ + upper_hex2(report_id) + ": ["@ + hex_words(
            without_zeros(data),
        ) + "]"@,
    }
}

pub fn event_text(event: &Incoming) -> (r: String)
    ensures
        r@ == event_words(event@),
{
    match event {
        Incoming::Frame(r) => {
            let mut out = "frame: domain 0x".to_owned();
            push_upper_hex2(&mut out, r.domain);
            out.append(" cmd 0x");
            push_upper_hex2(&mut out, r.cmd);
            out.append(" status 0x");
            push_upper_hex2(&mut out, r.status);
            out.append(" seq 0x");
            push_upper_hex2(&mut out, r.seq);
            out.append(" payload [");
            out.append(hex(r.payload.as_slice()).as_str());
            out.append("]");
            out
        },
        Incoming::Other { report_id, data } => {
            let mut out = "report 0x".to_owned();
            push_upper_hex2(&mut out, *report_id);
            out.append(": [");
            let rest = trim_zeros(data);
            out.append(hex(rest.as_slice()).as_str());
            out.append("]");
            out
        },
    }
}

/// What `monitor` prints of a poll, behind the time.
pub open spec fn poll_words(up: bool, battery: Option<u8>) -> Seq<char> {
    "poll: link "@ + (if up {
        "up"@
    } else {
        "down"@
    }) + ", battery "@ + (match battery {
        Some(level) => dec(level as nat) + "%"@,
        None => "-"@,
    })
}

/// What `monitor` prints of a poll: the link, and the battery where it is
/// known.
pub proof fn polls_are_printed(level: u8)
    ensures
        poll_words(true, Some(level)) == "poll: link "@ + "up"@ + ", battery "@ + (dec(level as nat) + "%"@),
        poll_words(false, Some(level)) == "poll: link "@ + "down"@ + ", battery "@ + (dec(level as nat) + "%"@),
        poll_words(true, None) == "poll: link "@ + "up"@ + ", battery "@ + "-"@,
        poll_words(false, None) == "poll: link "@ + "down"@ + ", battery "@ + "-"@,
{
}

pub fn poll_text(up: bool, battery: Option<u8>) -> (r: String)
    ensures
        r@ == poll_words(up, battery),
{
    let mut out = "poll: link ".to_owned();
    out.append(
        if up {
            "up"
        } else {
            "down"
        },
    );
    out.append(", battery ");
    match battery {
        Some(level) => {
            let mut text = decimal(level as u64);
            text.append("%");
            out.append(text.as_str());
        },
        None => out.append("-"),
    }
    out
}

/// What `battery` prints.
pub fn battery_text(level: u8, charging: bool) -> (r: String)
    ensures
        r@ == dec(level as nat) + "%"@ + (if charging {
            " (charging)"@
        } else {
            ""@
        }),
        charging ==> r@ == dec(level as nat) + "%"@ + " (charging)"@,
        !charging ==> r@ == dec(level as nat) + "%"@ + ""@,
{
    let mut out = decimal(level as u64);
    out.append("%");
    out.append(
        if charging {
            " (charging)"
        } else {
            ""
        },
    );
    out
}

/// What `sidetone` prints.
pub fn sidetone_text(on: bool, level: u8) -> (r: String)
    ensures
        r@ == "sidetone "@ + on_off_text(on) + " (level "@ + dec(level as nat) + "/15)"@,
{
    let mut out = "sidetone ".to_owned();
    out.append(on_off(on));
    out.append(" (level ");
    out.append(decimal(level as u64).as_str());
    out.append("/15)");
    out
}

/// What is printed of a device that may not be opened.
pub fn permission_help(path: &str) -> (r: String)
    ensures
        r@ == "no permission to open "@ + path@
            + ".\nInstall the udev rule once (needs sudo), then re-plug the dongle or run the trigger:\n\n  synapsectl udev-rule | sudo tee /etc/udev/rules.d/70-synapse-linux.rules >/dev/null\n  sudo udevadm control --reload-rules && sudo udevadm trigger --subsystem-match=hidraw"@,
{
    let mut out = "no permission to open ".to_owned();
    out.append(path);
    out.append(
        ".\nInstall the udev rule once (needs sudo), then re-plug the dongle or run the trigger:\n\n  synapsectl udev-rule | sudo tee /etc/udev/rules.d/70-synapse-linux.rules >/dev/null\n  sudo udevadm control --reload-rules && sudo udevadm trigger --subsystem-match=hidraw",
    );
    out
}

/// A number of 16 bits as four hexadecimal digits.
pub open spec fn hex4(n: u16) -> Seq<char> {
    hex2((n / 256) as u8) + hex2((n % 256) as u8)
}

/// What `list` prints of a device.
pub open spec fn listing(i: nat, f: FoundView, accessible: bool) -> Seq<char> {
    "#"@ + dec(i) + "  "@ + f.model.name@ + " ["@ + hex4(f.model.vid) + ":"@ + hex4(f.model.pid) + "] "@
        + connection_words(f.model.connection) + "  "@ + f.path() + (if accessible {
        ""@
    } else {
        "  (no permission, run `synapsectl udev-rule`)"@
    }) + (if f.model.experimental {
        "  (experimental)"@
    } else {
        ""@
    })
}

fn push_hex4(out: &mut String, n: u16)
    ensures
        final(out)@ == old(out)@ + hex4(n),
{
    push_hex2(out, (n / 256) as u8);
    push_hex2(out, (n % 256) as u8);
    assert(out@ =~= old(out)@ + hex4(n));
}

pub fn device_line(i: usize, found: &FoundDevice, accessible: bool) -> (r: String)
    ensures
        r@ == listing(i as nat, found@, accessible),
{
    let mut out = "#".to_owned();
    out.append(decimal(i as u64).as_str());
    out.append("  ");
    out.append(found.model.name);
    out.append(" [");
    push_hex4(&mut out, found.model.vid);
    out.append(":");
    push_hex4(&mut out, found.model.pid);
    out.append("] ");
    out.append(connection_text(found.model.connection));
    out.append("  ");
    out.append(found.path_display().as_str());
    out.append(
        if accessible {
            ""
        } else {
            "  (no permission, run `synapsectl udev-rule`)"
        },
    );
    out.append(
        if found.model.experimental {
            "  (experimental)"
        } else {
            ""
        },
    );
    out
}

pub open spec fn switch_words(on: Option<bool>) -> Seq<char> {
    match on {
        Some(on) => on_off_text(on),
        None => "?"@,
    }
}

fn switch_text(on: Option<bool>) -> (r: &'static str)
    ensures
        r@ == switch_words(on),
{
    match on {
        Some(on) => on_off(on),
        None => "?",
    }
}

/// What is known of the headset and the dongle: those of the two that are.
pub open spec fn pair_words(headset: Option<Seq<char>>, dongle: Option<Seq<char>>) -> Seq<char> {
    match (headset, dongle) {
        (Some(h), Some(d)) => "headset "@ + h + ", dongle "@ + d,
        (Some(h), None) => "headset "@ + h,
        (None, Some(d)) => "dongle "@ + d,
        (None, None) => ""@,
    }
}

fn pair_text(headset: &Option<String>, dongle: &Option<String>) -> (r: String)
    ensures
        r@ == pair_words(some_view(*headset), some_view(*dongle)),
{
    match (headset, dongle) {
        (Some(h), Some(d)) => {
            let mut out = "headset ".to_owned();
            out.append(h.as_str());
            out.append(", dongle ");
            out.append(d.as_str());
            out
        },
        (Some(h), None) => {
            let mut out = "headset ".to_owned();
            out.append(h.as_str());
            out
        },
        (None, Some(d)) => {
            let mut out = "dongle ".to_owned();
            out.append(d.as_str());
            out
        },
        (None, None) => "".to_owned(),
    }
}

/// What is printed of a switch reads back as the switch.
pub proof fn switches_read_back(on: bool)
    ensures
        switch_value(on_off_text(on)) == Some(on),
        switch_words(Some(on)) == on_off_text(on),
        switch_words(None) == "?"@,
{
    switch_words_are_opposites();
}

/// The sleep time is printed in minutes; none is never.
pub proof fn minutes_are_printed(minutes: u8)
    ensures
        minutes == 0 ==> minutes_words(minutes) == "never"@,
        minutes > 0 ==> minutes_words(minutes) == dec(minutes as nat) + " min"@,
{
}

/// A gain is printed with its sign, and the number behind it is the gain.
pub proof fn gains_are_printed(db: i8)
    ensures
        signed_gain(db).len() > 1,
        db >= 0 ==> signed_gain(db)[0] == '+' && digits_value(signed_gain(db).skip(1), 10) == Some(db as nat),
        db < 0 ==> signed_gain(db)[0] == '-' && digits_value(signed_gain(db).skip(1), 10) == Some((-db) as nat),
{
    if db < 0 {
        decimals_read_back((-db) as nat);
        assert(signed_gain(db).skip(1) =~= dec((-db) as nat));
    } else {
        decimals_read_back(db as nat);
        assert(signed_gain(db).skip(1) =~= dec(db as nat));
    }
}

/// Bytes are printed one by one in hexadecimal, with blanks between them.
pub proof fn bytes_are_printed_in_order(bytes: Seq<u8>, b: u8)
    ensures
        bytes.len() == 0 ==> hex_words(bytes.push(b)) == hex2(b),
        bytes.len() > 0 ==> hex_words(bytes.push(b)) == hex_words(bytes) + " "@ + hex2(b),
        hex_words(seq![]).len() == 0,
{
    let all = Seq::new(bytes.push(b).len(), |i: int| hex2(bytes.push(b)[i]));
    let before = Seq::new(bytes.len(), |i: int| hex2(bytes[i]));
    assert(all.drop_last() =~= before);
    assert(all.last() == hex2(b));
}

/// Only zeros at the end are left out, and all of them.
pub proof fn zeros_at_the_end_are_left_out(data: Seq<u8>)
    ensures
        without_zeros(data).len() <= data.len(),
        without_zeros(data) == data.take(without_zeros(data).len() as int),
        without_zeros(data).len() > 0 ==> without_zeros(data).last() != 0,
        forall|i: int| without_zeros(data).len() <= i < data.len() ==> #[trigger] data[i] == 0,
    decreases data.len(),
{
    if data.len() > 0 && data.last() == 0 {
        let rest = data.drop_last();
        zeros_at_the_end_are_left_out(rest);
        assert(rest.take(without_zeros(rest).len() as int) =~= data.take(without_zeros(rest).len() as int));
        assert forall|i: int| without_zeros(data).len() <= i < data.len() implies #[trigger] data[i] == 0 by {
            if i < rest.len() {
                assert(rest[i] == data[i]);
            }
        }
    } else {
        assert(data.take(data.len() as int) =~= data);
    }
}

/// A number of 16 bits is printed with its high byte first.
pub proof fn numbers_are_printed_high_byte_first(high: u8, low: u8)
    ensures
        hex4((256 * high + low) as u16) == hex2(high) + hex2(low),
{
}

/// Padding adds blanks behind the text until the column is full, and cuts
/// nothing off.
pub proof fn columns_are_filled(text: Seq<char>, width: nat)
    ensures
        padded(text, width).len() == if text.len() < width {
            width
        } else {
            text.len()
        },
        padded(text, width).take(text.len() as int) == text,
        forall|i: int| text.len() <= i < padded(text, width).len() ==> #[trigger] padded(text, width)[i] == ' ',
    decreases width - text.len(),
{
    if text.len() < width {
        columns_are_filled(text.push(' '), width);
        let all = padded(text, width);
        assert(all.take(text.len() as int) =~= all.take(text.len() + 1int).drop_last());
        assert(text.push(' ').drop_last() =~= text);
        assert(all[text.len() as int] == all.take(text.len() + 1int).last());
    } else {
        assert(text.take(text.len() as int) =~= text);
    }
}

/// The headset and the dongle are both named where both are known, and only
/// what is known is.
pub proof fn known_parts_are_printed(h: Seq<char>, d: Seq<char>)
    ensures
        pair_words(Some(h), Some(d)) == pair_words(Some(h), None) + ", "@ + pair_words(None, Some(d)),
        pair_words(Some(h), None) == "headset "@ + h,
        pair_words(None, Some(d)) == "dongle "@ + d,
        pair_words(None, None) == ""@,
{
    reveal_strlit(", dongle ");
    reveal_strlit(", ");
    reveal_strlit("dongle ");
    assert(", dongle "@ =~= ", "@ + "dongle "@);
    assert(pair_words(Some(h), Some(d)) =~= pair_words(Some(h), None) + ", "@ + pair_words(None, Some(d)));
}

/// What `status` prints: the headset's lines exactly if it is linked, the LED
/// exactly of a dongle, and firmware and serials last.
pub proof fn status_prints_what_is_there(f: FoundView, s: StateView)
    ensures
        ({
            let lines = status_words(f, s);
            let n = lines.len();
            let linked: int = if s.link_up == Some(true) {
                8
            } else {
                1
            };
            let led: int = if f.model.connection is Dongle {
                1
            } else {
                0
            };
            &&& n == 1 + linked + led + 2
            &&& s.link_up == Some(true) ==> lines.subrange(1, 9) == headset_lines(s)
            &&& s.link_up != Some(true) ==> lines[1]
                == "  Headset         not connected (powered off or out of range)"@
            &&& f.model.connection is Dongle ==> (s.led_mode matches Some(mode) ==> lines[n - 3]
                == "  Dongle LED      "@ + mode.key_of())
            &&& lines[n - 2] == "  Firmware        "@ + pair_words(s.headset_firmware, s.dongle_firmware)
            &&& lines[n - 1] == "  Serial          "@ + pair_words(s.headset_serial, s.dongle_serial)
        }),
{
    let lines = status_words(f, s);
    if s.link_up == Some(true) {
        assert(lines.subrange(1, 9) =~= headset_lines(s));
    }
}

/// What `status` prints of a headset: each value under its own name.
pub proof fn headset_values_are_printed(s: StateView, n: u8, on: bool, preset: HardwarePreset, bands: Bands)
    ensures
        ({
            let lines = headset_lines(s);
            &&& s.battery == Some(n) && s.charging == Some(true) ==> lines[0] == "  Battery         "@ + (dec(n as nat)
                + "%"@) + " (charging)"@
            &&& s.battery == Some(n) && s.charging == Some(false) ==> lines[0] == "  Battery         "@ + (dec(
                n as nat,
            ) + "%"@) + " (on battery)"@
            &&& s.mic_muted == Some(true) ==> lines[1] == "  Microphone      "@ + "muted"@
            &&& s.mic_muted == Some(false) ==> lines[1] == "  Microphone      "@ + "on"@
            &&& s.sidetone_enabled == Some(on) && s.sidetone_level == Some(n) ==> lines[2] == "  Sidetone        "@
                + on_off_text(on) + " (level "@ + dec(n as nat) + "/15)"@
            &&& s.eq_preset == Some(preset) ==> lines[3] == "  EQ preset       "@ + preset_words(preset)
            &&& s.custom_eq == Some(bands) ==> lines[4] == "  Custom EQ slot  "@ + bands_words(bands)
            &&& s.eq_enabled == Some(on) ==> lines[5] == "  EQ stage        "@ + on_off_text(on) + ", enhancement "@
                + switch_words(s.enhancement)
            &&& s.sleep_minutes == Some(n) ==> lines[6] == "  Auto power-off  "@ + minutes_words(n)
            &&& s.bt_dnd == Some(on) ==> lines[7] == "  Block BT calls  "@ + on_off_text(on)
        }),
{
}

/// The lines that `status` prints of a headset that is there.
pub open spec fn headset_lines(s: StateView) -> Seq<Seq<char>> {
    seq![
        "  Battery         "@ + (match s.battery {
            Some(level) => dec(level as nat) + "%"@,
            None => "?"@,
        }) + (match s.charging {
            Some(true) => " (charging)"@,
            Some(false) => " (on battery)"@,
            None => ""@,
        }),
        "  Microphone      "@ + (match s.mic_muted {
            Some(true) => "muted"@,
            Some(false) => "on"@,
            None => "?"@,
        }),
        "  Sidetone        "@ + switch_words(s.sidetone_enabled) + " (level "@ + (match s.sidetone_level {
            Some(level) => dec(level as nat),
            None => "?"@,
        }) + "/15)"@,
        "  EQ preset       "@ + (match s.eq_preset {
            Some(preset) => preset_words(preset),
            None => "?"@,
        }),
        "  Custom EQ slot  "@ + (match s.custom_eq {
            Some(bands) => bands_words(bands),
            None => "?"@,
        }),
        "  EQ stage        "@ + switch_words(s.eq_enabled) + ", enhancement "@ + switch_words(s.enhancement),
        "  Auto power-off  "@ + (match s.sleep_minutes {
            Some(minutes) => minutes_words(minutes),
            None => "?"@,
        }),
        "  Block BT calls  "@ + switch_words(s.bt_dnd),
    ]
}

/// The lines that `status` prints.
pub open spec fn status_words(f: FoundView, s: StateView) -> Seq<Seq<char>> {
    let title = seq![
        f.model.name@ + "  ("@ + connection_words(f.model.connection) + ", "@ + f.path() + ")"@,
    ];
    let headset = if s.link_up == Some(true) {
        headset_lines(s)
    } else {
        seq!["  Headset         not connected (powered off or out of range)"@]
    };
    let led = if f.model.connection == Connection::Dongle {
        seq![
            "  Dongle LED      "@ + (match s.led_mode {
                Some(mode) => mode.key_of(),
                None => "?"@,
            }),
        ]
    } else {
        seq![]
    };
    title + headset + led + seq![
        "  Firmware        "@ + pair_words(s.headset_firmware, s.dongle_firmware),
        "  Serial          "@ + pair_words(s.headset_serial, s.dongle_serial),
    ]
}

fn after(head: &str, text: &str) -> (r: String)
    ensures
        r@ == head@ + text@,
{
    let mut out = head.to_owned();
    out.append(text);
    out
}

/// Add a line.
fn push_line(out: &mut Vec<String>, line: String)
    ensures
        views(final(out)@) == views(old(out)@).push(line@),
{
    let ghost text = line@;
    out.push(line);
    assert(views(out@) =~= views(old(out)@).push(text));
}

fn headset_text(s: &HeadsetState) -> (r: Vec<String>)
    ensures
        views(r@) == headset_lines(s@),
{
    let mut out: Vec<String> = Vec::new();
    let mut line = "  Battery         ".to_owned();
    match s.battery {
        Some(level) => line.append(after(decimal(level as u64).as_str(), "%").as_str()),
        None => line.append("?"),
    }
    line.append(
        match s.charging {
            Some(true) => " (charging)",
            Some(false) => " (on battery)",
            None => "",
        },
    );
    push_line(&mut out, line);
    push_line(
        &mut out,
        after(
            "  Microphone      ",
            match s.mic_muted {
                Some(true) => "muted",
                Some(false) => "on",
                None => "?",
            },
        ),
    );
    let mut line = after("  Sidetone        ", switch_text(s.sidetone_enabled));
    line.append(" (level ");
    match s.sidetone_level {
        Some(level) => line.append(decimal(level as u64).as_str()),
        None => line.append("?"),
    }
    line.append("/15)");
    push_line(&mut out, line);
    let preset = match s.eq_preset {
        Some(preset) => preset_text(preset),
        None => "?".to_owned(),
    };
    push_line(&mut out, after("  EQ preset       ", preset.as_str()));
    let custom = match &s.custom_eq {
        Some(bands) => bands_text(bands),
        None => "?".to_owned(),
    };
    push_line(&mut out, after("  Custom EQ slot  ", custom.as_str()));
    let mut line = after("  EQ stage        ", switch_text(s.eq_enabled));
    line.append(", enhancement ");
    line.append(switch_text(s.enhancement));
    push_line(&mut out, line);
    let minutes = match s.sleep_minutes {
        Some(minutes) => minutes_text(minutes),
        None => "?".to_owned(),
    };
    push_line(&mut out, after("  Auto power-off  ", minutes.as_str()));
    push_line(&mut out, after("  Block BT calls  ", switch_text(s.bt_dnd)));
    assert(views(out@) =~= headset_lines(s@));
    out
}

/// Add several lines.
fn push_lines(out: &mut Vec<String>, lines: Vec<String>)
    ensures
        views(final(out)@) == views(old(out)@) + views(lines@),
{
    let ghost before = views(out@);
    let mut i: usize = 0;
    assert(before + views(lines@).take(0) =~= before);
    while i < lines.len()
        invariant
            i <= lines@.len(),
            views(out@) == before + views(lines@).take(i as int),
        decreases lines@.len() - i,
    {
        let line = lines[i].clone();
        push_line(out, line);
        i += 1;
        assert(views(out@) =~= before + views(lines@).take(i as int));
    }
    assert(views(lines@).take(i as int) =~= views(lines@));
}

/// The lines that `status` prints.
pub fn status_lines(found: &FoundDevice, s: &HeadsetState) -> (r: Vec<String>)
    ensures
        views(r@) == status_words(found@, s@),
{
    let mut out: Vec<String> = Vec::new();
    let mut line = found.model.name.to_owned();
    line.append("  (");
    line.append(connection_text(found.model.connection));
    line.append(", ");
    line.append(found.path_display().as_str());
    line.append(")");
    push_line(&mut out, line);
    if s.link_up == Some(true) {
        push_lines(&mut out, headset_text(s));
    } else {
        push_line(
            &mut out,
            "  Headset         not connected (powered off or out of range)".to_owned(),
        );
    }
    if found.model.connection == Connection::Dongle {
        let mode = match s.led_mode {
            Some(mode) => mode.key(),
            None => "?".to_owned(),
        };
        push_line(&mut out, after("  Dongle LED      ", mode.as_str()));
    }
    push_line(
        &mut out,
        after("  Firmware        ", pair_text(&s.headset_firmware, &s.dongle_firmware).as_str()),
    );
    push_line(
        &mut out,
        after("  Serial          ", pair_text(&s.headset_serial, &s.dongle_serial).as_str()),
    );
    assert(views(out@) =~= status_words(found@, s@));
    out
}

/// The lines that `eq` prints.
pub open spec fn eq_words(r: EqReport) -> Seq<Seq<char>> {
    seq!["preset       "@ + preset_words(r.preset)] + (match r.preset.curve() {
        Some(curve) => seq!["factory      "@ + bands_words(curve) + "  (approximation)"@],
        None => seq![],
    }) + seq![
        "custom slot  "@ + bands_words(r.custom),
        "EQ stage     "@ + on_off_text(r.enabled),
        "enhancement  "@ + on_off_text(r.enhancement),
    ]
}

pub fn eq_lines(report: &EqReport) -> (r: Vec<String>)
    ensures
        views(r@) == eq_words(*report),
{
    let mut out: Vec<String> = Vec::new();
    push_line(&mut out, after("preset       ", preset_text(report.preset).as_str()));
    if let Some(curve) = report.preset.reference_curve() {
        let mut line = after("factory      ", bands_text(&curve).as_str());
        line.append("  (approximation)");
        push_line(&mut out, line);
    }
    push_line(&mut out, after("custom slot  ", bands_text(&report.custom).as_str()));
    push_line(&mut out, after("EQ stage     ", on_off(report.enabled)));
    push_line(&mut out, after("enhancement  ", on_off(report.enhancement)));
    assert(views(out@) =~= eq_words(*report));
    out
}

/// `text` filled up with blanks to `width` characters.
pub open spec fn padded(text: Seq<char>, width: nat) -> Seq<char>
    decreases width - text.len(),
{
    if text.len() >= width {
        text
    } else {
        padded(text.push(' '), width)
    }
}

fn pad(text: &str, width: usize) -> (r: String)
    ensures
        r@ == padded(text@, width as nat),
{
    let mut out = text.to_owned();
    let mut len: usize = text.unicode_len();
    while len < width
        invariant
            len == out@.len(),
            padded(text@, width as nat) == padded(out@, width as nat),
        decreases width - len,
    {
        out.push(' ');
        len += 1;
    }
    out
}

/// The lines for the hardware presets.
pub open spec fn preset_listing(preset: HardwarePreset) -> Seq<char> {
    "  "@ + padded(preset.key_of(), 8) + " "@ + (match preset.curve() {
        Some(curve) => bands_words(curve),
        None => "(your curve)"@,
    })
}

pub open spec fn builtin_listing(i: int) -> Seq<char> {
    "  "@ + padded(builtin(i).key@, 10) + " "@ + bands_words(builtin(i).bands) + "  "@ + builtin(i).name_en@
}

pub open spec fn saved_listing(p: PresetView) -> Seq<char> {
    "  "@ + padded(p.name, 16) + " "@ + bands_words(p.bands)
}

/// The lines that `eq list` prints.
pub open spec fn eq_listing(presets: Seq<PresetView>) -> Seq<Seq<char>> {
    seq!["Hardware presets (eq preset NAME):"@] + Seq::new(
        5,
        |i: int| preset_listing(HardwarePreset::SELECTABLE@[i]),
    ) + seq![""@, "Built-in curves (eq curve NAME):"@] + Seq::new(
        BUILTIN_COUNT as nat,
        |i: int| builtin_listing(i),
    ) + (if presets.len() == 0 {
        seq![]
    } else {
        seq![""@, "Saved curves (eq curve \"NAME\"):"@] + presets.map_values(|p: PresetView| saved_listing(p))
    }) + seq![
        ""@,
        "Bands: "@ + joined(Seq::new(BAND_COUNT as nat, |i: int| label(i) + "Hz"@), " "@),
    ]
}

fn hertz() -> (r: String)
    ensures
        r@ == joined(Seq::new(BAND_COUNT as nat, |i: int| label(i) + "Hz"@), " "@),
{
    let mut names: Vec<String> = Vec::new();
    let mut i: usize = 0;
    while i < BAND_COUNT
        invariant
            i <= BAND_COUNT,
            views(names@) == Seq::new(i as nat, |j: int| label(j) + "Hz"@),
        decreases BAND_COUNT - i,
    {
        let ghost before = views(names@);
        let name = after(band_label(i).as_str(), "Hz");
        let ghost text = name@;
        push_line(&mut names, name);
        i += 1;
        assert(before.push(text) =~= Seq::new(i as nat, |j: int| label(j) + "Hz"@));
    }
    join(&names, " ")
}

fn preset_lines() -> (r: Vec<String>)
    ensures
        views(r@) == Seq::new(5, |i: int| preset_listing(HardwarePreset::SELECTABLE@[i])),
{
    let presets = HardwarePreset::SELECTABLE;
    let mut out: Vec<String> = Vec::new();
    let mut i: usize = 0;
    while i < 5
        invariant
            i <= 5,
            presets == HardwarePreset::SELECTABLE,
            views(out@) == Seq::new(i as nat, |j: int| preset_listing(HardwarePreset::SELECTABLE@[j])),
        decreases 5 - i,
    {
        let ghost before = views(out@);
        let preset = presets[i];
        let mut line = after("  ", pad(preset.key().as_str(), 8).as_str());
        line.append(" ");
        match preset.reference_curve() {
            Some(curve) => line.append(bands_text(&curve).as_str()),
            None => line.append("(your curve)"),
        }
        let ghost text = line@;
        push_line(&mut out, line);
        i += 1;
        assert(before.push(text) =~= Seq::new(
            i as nat,
            |j: int| preset_listing(HardwarePreset::SELECTABLE@[j]),
        ));
    }
    out
}

fn builtin_lines() -> (r: Vec<String>)
    ensures
        views(r@) == Seq::new(BUILTIN_COUNT as nat, |i: int| builtin_listing(i)),
{
    let curves = builtin_curves();
    let mut out: Vec<String> = Vec::new();
    let mut i: usize = 0;
    while i < BUILTIN_COUNT
        invariant
            i <= BUILTIN_COUNT,
            forall|j: int| 0 <= j < BUILTIN_COUNT ==> #[trigger] curves@[j] == builtin(j),
            views(out@) == Seq::new(i as nat, |j: int| builtin_listing(j)),
        decreases BUILTIN_COUNT - i,
    {
        let ghost before = views(out@);
        let curve = curves[i];
        assert(curve == builtin(i as int));
        let mut line = after("  ", pad(curve.key, 10).as_str());
        line.append(" ");
        line.append(bands_text(&curve.bands).as_str());
        line.append("  ");
        line.append(curve.name_en);
        let ghost text = line@;
        push_line(&mut out, line);
        i += 1;
        assert(before.push(text) =~= Seq::new(i as nat, |j: int| builtin_listing(j)));
    }
    out
}

fn saved_lines(config: &Config) -> (r: Vec<String>)
    ensures
        views(r@) == config@.user_presets.map_values(|p: PresetView| saved_listing(p)),
{
    let mut out: Vec<String> = Vec::new();
    let mut i: usize = 0;
    let ghost all = config@.user_presets.map_values(|p: PresetView| saved_listing(p));
    while i < config.user_presets.len()
        invariant
            i <= config.user_presets@.len(),
            all == config@.user_presets.map_values(|p: PresetView| saved_listing(p)),
            views(out@) == all.take(i as int),
        decreases config.user_presets@.len() - i,
    {
        let ghost before = views(out@);
        let p = &config.user_presets[i];
        let mut line = after("  ", pad(p.name.as_str(), 16).as_str());
        line.append(" ");
        line.append(bands_text(&p.bands).as_str());
        let ghost text = line@;
        push_line(&mut out, line);
        assert(config@.user_presets[i as int] == p@);
        i += 1;
        assert(before.push(text) =~= all.take(i as int));
    }
    assert(all.take(i as int) =~= all);
    out
}

/// The lines that `eq list` prints.
pub fn eq_list_lines(config: &Config) -> (r: Vec<String>)
    ensures
        views(r@) == eq_listing(config@.user_presets),
{
    let mut out: Vec<String> = Vec::new();
    push_line(&mut out, "Hardware presets (eq preset NAME):".to_owned());
    push_lines(&mut out, preset_lines());
    push_line(&mut out, "".to_owned());
    push_line(&mut out, "Built-in curves (eq curve NAME):".to_owned());
    push_lines(&mut out, builtin_lines());
    if config.user_presets.len() > 0 {
        push_line(&mut out, "".to_owned());
        push_line(&mut out, "Saved curves (eq curve \"NAME\"):".to_owned());
        push_lines(&mut out, saved_lines(config));
    }
    push_line(&mut out, "".to_owned());
    push_line(&mut out, after("Bands: ", hertz().as_str()));
    assert(views(out@) =~= eq_listing(config@.user_presets));
    out
}

/// State of the software noise suppression.
#[derive(Debug, PartialEq, Eq)]
pub struct MicCleanStatus {
    /// The plugin that does the work is installed.
    pub plugin_available: bool,
    pub active: bool,
    /// Starts with the login.
    pub enabled: bool,
    pub is_default: bool,
    /// The microphone it works on.
    pub target: Option<String>,
}

/// The lines that `mic-clean` prints.
pub open spec fn mic_words(s: MicCleanStatus) -> Seq<Seq<char>> {
    (if s.plugin_available {
        seq![]
    } else {
        seq!["PipeWire WebRTC plugin: not installed (noise suppression unavailable)"@]
    }) + seq![
        "clean microphone  "@ + (if s.active {
            "running"@
        } else {
            "off"@
        }),
        "start with login  "@ + on_off_text(s.enabled),
    ] + (match s.target {
        Some(target) => seq!["source            "@ + target@],
        None => seq![],
    }) + (if s.active {
        seq![
            "default input     "@ + (if s.is_default {
                "yes"@
            } else {
                "no (run: synapsectl mic-clean default)"@
            }),
        ]
    } else {
        seq![]
    })
}

/// What `mic-clean` prints: that the plugin is missing exactly if it is, the
/// source exactly if one is known, and the default input only while the clean
/// microphone runs.
pub proof fn mic_status_is_printed(s: MicCleanStatus)
    ensures
        ({
            let lines = mic_words(s);
            let missing: int = if s.plugin_available {
                0
            } else {
                1
            };
            let source: int = if s.target is Some {
                1
            } else {
                0
            };
            let running: int = if s.active {
                1
            } else {
                0
            };
            &&& lines.len() == missing + 2 + source + running
            &&& s.active ==> lines[missing] == "clean microphone  "@ + "running"@
            &&& !s.active ==> lines[missing] == "clean microphone  "@ + "off"@
            &&& lines[missing + 1] == "start with login  "@ + on_off_text(s.enabled)
            &&& s.active && s.is_default ==> lines.last() == "default input     "@ + "yes"@
            &&& s.active && !s.is_default ==> lines.last() == "default input     "@
                + "no (run: synapsectl mic-clean default)"@
        }),
{
}

pub fn mic_lines(s: &MicCleanStatus) -> (r: Vec<String>)
    ensures
        views(r@) == mic_words(*s),
{
    let mut out: Vec<String> = Vec::new();
    if !s.plugin_available {
        push_line(
            &mut out,
            "PipeWire WebRTC plugin: not installed (noise suppression unavailable)".to_owned(),
        );
    }
    push_line(
        &mut out,
        after(
            "clean microphone  ",
            if s.active {
                "running"
            } else {
                "off"
            },
        ),
    );
    push_line(&mut out, after("start with login  ", on_off(s.enabled)));
    if let Some(target) = &s.target {
        push_line(&mut out, after("source            ", target.as_str()));
    }
    if s.active {
        push_line(
            &mut out,
            after(
                "default input     ",
                if s.is_default {
                    "yes"
                } else {
                    "no (run: synapsectl mic-clean default)"
                },
            ),
        );
    }
    assert(views(out@) =~= mic_words(*s));
    out
}

} // verus!
