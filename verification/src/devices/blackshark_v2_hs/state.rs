//! What is known about the headset, and what its replies say about it.

use super::protocol::reg;
use super::protocol::{
    curve_of, eq_from_payload, firmware_text, format_firmware, format_serial, serial_text, Response,
    ResponseView, DOMAIN_LOCAL, SIDETONE_MAX,
};
use crate::devices::Connection;
use crate::eq::{Bands, HardwarePreset, BAND_COUNT};
use crate::text::{dec, decimal, lowered, same, to_lower, trim, trimmed};
use crate::views::some_view;
use vstd::prelude::*;
use vstd::string::*;

verus! {

/// Dongle status LED behaviour (register 0x66 / 0xE6).
#[derive(Debug, Clone, Copy, PartialEq, Eq, Structural, Hash)]
pub enum LedMode {
    Off,
    /// White while the headset is linked.
    Link,
    /// Green / yellow / red by headset battery level.
    Battery,
    /// Only blink when the battery is low.
    Warning,
    Unknown(u8),
}

impl LedMode {
    pub const ALL: [LedMode; 4] = [LedMode::Link, LedMode::Battery, LedMode::Warning, LedMode::Off];

    /// The mode that register 0x66 reports as `raw`.
    pub open spec fn of_raw(raw: u8) -> LedMode {
        if raw == 0 {
            LedMode::Off
        } else if raw == 1 {
            LedMode::Link
        } else if raw == 2 {
            LedMode::Battery
        } else if raw == 3 {
            LedMode::Warning
        } else {
            LedMode::Unknown(raw)
        }
    }

    pub fn from_raw(raw: u8) -> (r: Self)
        ensures
            r == Self::of_raw(raw),
    {
        match raw {
            0 => Self::Off,
            1 => Self::Link,
            2 => Self::Battery,
            3 => Self::Warning,
            other => Self::Unknown(other),
        }
    }

    pub open spec fn raw_of(self) -> u8 {
        match self {
            LedMode::Off => 0,
            LedMode::Link => 1,
            LedMode::Battery => 2,
            LedMode::Warning => 3,
            LedMode::Unknown(raw) => raw,
        }
    }

    pub fn raw(self) -> (r: u8)
        ensures
            r == self.raw_of(),
    {
        match self {
            Self::Off => 0,
            Self::Link => 1,
            Self::Battery => 2,
            Self::Warning => 3,
            Self::Unknown(raw) => raw,
        }
    }

    pub open spec fn key_of(self) -> Seq<char> {
        match self {
            LedMode::Off => "off"@,
            LedMode::Link => "link"@,
            LedMode::Battery => "battery"@,
            LedMode::Warning => "warning"@,
            LedMode::Unknown(raw) => dec(raw as nat),
        }
    }

    pub fn key(self) -> (r: String)
        ensures
            r@ == self.key_of(),
    {
        match self {
            Self::Off => "off".to_owned(),
            Self::Link => "link".to_owned(),
            Self::Battery => "battery".to_owned(),
            Self::Warning => "warning".to_owned(),
            Self::Unknown(raw) => decimal(raw as u64),
        }
    }

    /// The mode that `key` names, by word or by number; blanks around it and
    /// the case of its letters do not matter.
    pub open spec fn of_key(key: Seq<char>) -> Option<LedMode> {
        let k = lowered(trimmed(key));
        if k == "off"@ || k == "0"@ {
            Some(LedMode::Off)
        } else if k == "link"@ || k == "1"@ {
            Some(LedMode::Link)
        } else if k == "battery"@ || k == "2"@ {
            Some(LedMode::Battery)
        } else if k == "warning"@ || k == "3"@ {
            Some(LedMode::Warning)
        } else {
            None
        }
    }

    pub fn from_key(key: &str) -> (r: Option<Self>)
        ensures
            r == Self::of_key(key@),
    {
        let trimmed = trim(key);
        let lowered = to_lower(trimmed.as_str());
        let k = lowered.as_str();
        if same(k, "off") || same(k, "0") {
            Some(Self::Off)
        } else if same(k, "link") || same(k, "1") {
            Some(Self::Link)
        } else if same(k, "battery") || same(k, "2") {
            Some(Self::Battery)
        } else if same(k, "warning") || same(k, "3") {
            Some(Self::Warning)
        } else {
            None
        }
    }
}

/// Register values survive the round trip, known or not; a mode does too
/// unless it is an `Unknown` that holds the number of a known mode.
pub proof fn led_raw_roundtrip(raw: u8, mode: LedMode)
    ensures
        LedMode::of_raw(raw).raw_of() == raw,
        !(mode is Unknown) ==> LedMode::of_raw(mode.raw_of()) == mode,
{
}

/// The modes of register 0x66: 0 is off, 1 shows the link, 2 the battery, 3
/// only warns; any other number is kept as it is.
pub proof fn modes_are_numbered(raw: u8)
    ensures
        LedMode::of_raw(raw) is Off <==> raw == 0,
        LedMode::of_raw(raw) is Link <==> raw == 1,
        LedMode::of_raw(raw) is Battery <==> raw == 2,
        LedMode::of_raw(raw) is Warning <==> raw == 3,
        LedMode::of_raw(raw) matches LedMode::Unknown(kept) ==> kept == raw,
{
}

/// A mode is named by its word or its number, whatever the case of the letters
/// and the blanks around it.
pub proof fn words_name_modes(key: Seq<char>)
    ensures
        ({
            let k = lowered(trimmed(key));
            &&& (k == "off"@ || k == "0"@) <==> LedMode::of_key(key) == Some(LedMode::Off)
            &&& (k == "link"@ || k == "1"@) <==> LedMode::of_key(key) == Some(LedMode::Link)
            &&& (k == "battery"@ || k == "2"@) <==> LedMode::of_key(key) == Some(LedMode::Battery)
            &&& (k == "warning"@ || k == "3"@) <==> LedMode::of_key(key) == Some(LedMode::Warning)
            &&& LedMode::of_key(key) matches Some(mode) ==> !(mode is Unknown)
        }),
{
    reveal_strlit("off");
    reveal_strlit("link");
    reveal_strlit("battery");
    reveal_strlit("warning");
    reveal_strlit("0");
    reveal_strlit("1");
    reveal_strlit("2");
    reveal_strlit("3");
    assert("battery"@[0] == 'b' && "warning"@[0] == 'w');
    assert("0"@ =~= seq!['0'] && "1"@ =~= seq!['1'] && "2"@ =~= seq!['2'] && "3"@ =~= seq!['3']);
    assert(seq!['0'][0] == '0' && seq!['1'][0] == '1' && seq!['2'][0] == '2' && seq!['3'][0] == '3');
    assert("off"@.len() == 3 && "link"@.len() == 4 && "battery"@.len() == 7 && "warning"@.len() == 7);
}

/// The key of a known mode names it.
pub proof fn led_key_roundtrip(mode: LedMode)
    ensures
        !(mode is Unknown) ==> LedMode::of_key(mode.key_of()) == Some(mode),
{
    reveal_strlit("off");
    reveal_strlit("link");
    reveal_strlit("battery");
    reveal_strlit("warning");
    reveal_strlit("0");
    reveal_strlit("1");
    reveal_strlit("2");
    reveal_strlit("3");
    let k = mode.key_of();
    if !(mode is Unknown) {
        assert(trimmed(k) == k);
        assert(lowered(k) =~= k);
        assert("battery"@[0] != "warning"@[0]);
    }
}

/// Everything known about the headset. `None` = not read (yet).
#[derive(Debug, PartialEq)]
pub struct HeadsetState {
    /// Headset reachable (always true for a wired connection).
    pub link_up: Option<bool>,
    pub battery: Option<u8>,
    pub charging: Option<bool>,
    pub headset_serial: Option<String>,
    pub headset_firmware: Option<String>,
    pub dongle_serial: Option<String>,
    pub dongle_firmware: Option<String>,
    pub sidetone_enabled: Option<bool>,
    pub sidetone_level: Option<u8>,
    pub sleep_minutes: Option<u8>,
    pub bt_dnd: Option<bool>,
    pub mic_muted: Option<bool>,
    pub led_mode: Option<LedMode>,
    pub eq_preset: Option<HardwarePreset>,
    /// Curve stored in the Custom slot. Register 0x15 always returns this,
    /// whichever preset is active (verified on hardware).
    pub custom_eq: Option<Bands>,
    pub eq_enabled: Option<bool>,
    pub enhancement: Option<bool>,
}

#[verifier::ext_equal]
pub struct StateView {
    pub link_up: Option<bool>,
    pub battery: Option<u8>,
    pub charging: Option<bool>,
    pub headset_serial: Option<Seq<char>>,
    pub headset_firmware: Option<Seq<char>>,
    pub dongle_serial: Option<Seq<char>>,
    pub dongle_firmware: Option<Seq<char>>,
    pub sidetone_enabled: Option<bool>,
    pub sidetone_level: Option<u8>,
    pub sleep_minutes: Option<u8>,
    pub bt_dnd: Option<bool>,
    pub mic_muted: Option<bool>,
    pub led_mode: Option<LedMode>,
    pub eq_preset: Option<HardwarePreset>,
    pub custom_eq: Option<Bands>,
    pub eq_enabled: Option<bool>,
    pub enhancement: Option<bool>,
}

impl View for HeadsetState {
    type V = StateView;

    open spec fn view(&self) -> StateView {
        StateView {
            link_up: self.link_up,
            battery: self.battery,
            charging: self.charging,
            headset_serial: some_view(self.headset_serial),
            headset_firmware: some_view(self.headset_firmware),
            dongle_serial: some_view(self.dongle_serial),
            dongle_firmware: some_view(self.dongle_firmware),
            sidetone_enabled: self.sidetone_enabled,
            sidetone_level: self.sidetone_level,
            sleep_minutes: self.sleep_minutes,
            bt_dnd: self.bt_dnd,
            mic_muted: self.mic_muted,
            led_mode: self.led_mode,
            eq_preset: self.eq_preset,
            custom_eq: self.custom_eq,
            eq_enabled: self.eq_enabled,
            enhancement: self.enhancement,
        }
    }
}

impl StateView {
    /// Nothing is known.
    pub open spec fn unknown() -> StateView {
        StateView {
            link_up: None,
            battery: None,
            charging: None,
            headset_serial: None,
            headset_firmware: None,
            dongle_serial: None,
            dongle_firmware: None,
            sidetone_enabled: None,
            sidetone_level: None,
            sleep_minutes: None,
            bt_dnd: None,
            mic_muted: None,
            led_mode: None,
            eq_preset: None,
            custom_eq: None,
            eq_enabled: None,
            enhancement: None,
        }
    }

    /// Only what belongs to the dongle.
    pub open spec fn without_headset(self) -> StateView {
        StateView {
            link_up: self.link_up,
            dongle_serial: self.dongle_serial,
            dongle_firmware: self.dongle_firmware,
            led_mode: self.led_mode,
            ..StateView::unknown()
        }
    }

    /// Is nothing known of the headset itself?
    pub open spec fn knows_no_headset(self) -> bool {
        &&& self.battery is None && self.charging is None && self.mic_muted is None
        &&& self.headset_serial is None && self.headset_firmware is None
        &&& self.sidetone_enabled is None && self.sidetone_level is None
        &&& self.sleep_minutes is None && self.bt_dnd is None
        &&& self.eq_preset is None && self.custom_eq is None
        &&& self.eq_enabled is None && self.enhancement is None
    }

    /// The state after a GET reply, if the reply carries something that is
    /// kept. On a dongle connection the local domain speaks for the
    /// dongle alone.
    pub open spec fn told(self, resp: ResponseView, connection: Connection) -> Option<StateView> {
        let local = resp.domain == DOMAIN_LOCAL && connection == Connection::Dongle;
        let wired = connection == Connection::Wired;
        let some = resp.payload.len() > 0;
        let v = resp.payload[0];
        if resp.cmd >= reg::SET {
            None
        } else if resp.cmd == reg::LINK_STATUS && some && (local || wired) {
            Some(StateView { link_up: Some(v != 0 || wired), ..self })
        } else if resp.cmd == reg::DONGLE_LED && some {
            Some(StateView { led_mode: Some(LedMode::of_raw(v)), ..self })
        } else if local {
            if resp.cmd == reg::SERIAL {
                Some(StateView { dongle_serial: serial_text(resp.payload), ..self })
            } else if resp.cmd == reg::FIRMWARE {
                Some(StateView { dongle_firmware: firmware_text(resp.payload), ..self })
            } else {
                None
            }
        } else if resp.cmd == reg::SERIAL {
            Some(StateView { headset_serial: serial_text(resp.payload), ..self })
        } else if resp.cmd == reg::FIRMWARE {
            Some(StateView { headset_firmware: firmware_text(resp.payload), ..self })
        } else if resp.cmd == reg::EQ_BANDS {
            match curve_of(resp.payload) {
                Some(bands) => Some(StateView { custom_eq: Some(bands), ..self }),
                None => None,
            }
        } else if !some {
            None
        } else if resp.cmd == reg::BATTERY {
            if v <= 100 {
                Some(StateView { battery: Some(v), ..self })
            } else {
                None
            }
        } else if resp.cmd == reg::CHARGING {
            Some(StateView { charging: Some(v != 0), ..self })
        } else if resp.cmd == reg::SIDETONE {
            Some(StateView { sidetone_enabled: Some(v != 0), ..self })
        } else if resp.cmd == reg::SIDETONE_LEVEL {
            Some(
                StateView {
                    sidetone_level: Some(
                        if v < SIDETONE_MAX {
                            v
                        } else {
                            SIDETONE_MAX
                        },
                    ),
                    ..self
                },
            )
        } else if resp.cmd == reg::SLEEP_TIMER {
            Some(StateView { sleep_minutes: Some(v), ..self })
        } else if resp.cmd == reg::BT_DND {
            Some(StateView { bt_dnd: Some(v != 0), ..self })
        } else if resp.cmd == reg::MIC_MUTE {
            Some(StateView { mic_muted: Some(v != 0), ..self })
        } else if resp.cmd == reg::EQ_PRESET {
            Some(StateView { eq_preset: Some(HardwarePreset::of_raw(v)), ..self })
        } else if resp.cmd == reg::EQ_ENABLE {
            Some(StateView { eq_enabled: Some(v != 0), ..self })
        } else if resp.cmd == reg::ENHANCEMENT {
            Some(StateView { enhancement: Some(v != 0), ..self })
        } else {
            None
        }
    }
}

impl Default for HeadsetState {
    fn default() -> (r: Self)
        ensures
            r@ == StateView::unknown(),
    {
        HeadsetState {
            link_up: None,
            battery: None,
            charging: None,
            headset_serial: None,
            headset_firmware: None,
            dongle_serial: None,
            dongle_firmware: None,
            sidetone_enabled: None,
            sidetone_level: None,
            sleep_minutes: None,
            bt_dnd: None,
            mic_muted: None,
            led_mode: None,
            eq_preset: None,
            custom_eq: None,
            eq_enabled: None,
            enhancement: None,
        }
    }
}

impl Clone for HeadsetState {
    fn clone(&self) -> (r: Self)
        ensures
            r@ == self@,
    {
        HeadsetState {
            link_up: self.link_up,
            battery: self.battery,
            charging: self.charging,
            headset_serial: self.headset_serial.clone(),
            headset_firmware: self.headset_firmware.clone(),
            dongle_serial: self.dongle_serial.clone(),
            dongle_firmware: self.dongle_firmware.clone(),
            sidetone_enabled: self.sidetone_enabled,
            sidetone_level: self.sidetone_level,
            sleep_minutes: self.sleep_minutes,
            bt_dnd: self.bt_dnd,
            mic_muted: self.mic_muted,
            led_mode: self.led_mode,
            eq_preset: self.eq_preset,
            custom_eq: self.custom_eq,
            eq_enabled: self.eq_enabled,
            enhancement: self.enhancement,
        }
    }
}

impl HeadsetState {
    /// Forget everything that belongs to the headset (keeps dongle info).
    pub fn clear_headset(&mut self)
        ensures
            final(self)@ == old(self)@.without_headset(),
    {
        let mut fresh = HeadsetState::default();
        fresh.link_up = self.link_up;
        fresh.dongle_serial = self.dongle_serial.take();
        fresh.dongle_firmware = self.dongle_firmware.take();
        fresh.led_mode = self.led_mode;
        *self = fresh;
    }

    /// Is the same known of both?
    pub fn same_as(&self, other: &HeadsetState) -> (r: bool)
        ensures
            r == (self@ == other@),
    {
        let r = self.link_up == other.link_up && self.battery == other.battery && self.charging == other.charging
            && same_text(&self.headset_serial, &other.headset_serial) && same_text(
            &self.headset_firmware,
            &other.headset_firmware,
        ) && same_text(&self.dongle_serial, &other.dongle_serial) && same_text(
            &self.dongle_firmware,
            &other.dongle_firmware,
        ) && self.sidetone_enabled == other.sidetone_enabled && self.sidetone_level == other.sidetone_level
            && self.sleep_minutes == other.sleep_minutes && self.bt_dnd == other.bt_dnd && self.mic_muted
            == other.mic_muted && same_led(&self.led_mode, &other.led_mode) && same_preset(
            &self.eq_preset,
            &other.eq_preset,
        ) && same_curve(&self.custom_eq, &other.custom_eq) && self.eq_enabled == other.eq_enabled
            && self.enhancement == other.enhancement;
        r
    }

    /// Apply a GET reply (solicited or not) to the state.
    /// Returns false when the frame carries nothing we track.
    pub fn apply_reply(&mut self, resp: &Response, connection: Connection) -> (known: bool)
        ensures
            match old(self)@.told(resp@, connection) {
                Some(state) => known && final(self)@ == state,
                None => !known && final(self)@ == old(self)@,
            },
    {
        if reg::is_set(resp.cmd) {
            return false;
        }
        let wired = connection == Connection::Wired;
        let local = resp.domain == DOMAIN_LOCAL && connection == Connection::Dongle;
        let cmd: u8 = resp.cmd;
        let some = resp.payload.len() > 0;
        let v: u8 = if some {
            resp.payload[0]
        } else {
            0
        };
        if cmd == reg::LINK_STATUS && some && (local || wired) {
            self.link_up = Some(v != 0 || wired);
        } else if cmd == reg::DONGLE_LED && some {
            self.led_mode = Some(LedMode::from_raw(v));
        } else if cmd == reg::SERIAL && local {
            self.dongle_serial = format_serial(resp.payload.as_slice());
        } else if cmd == reg::FIRMWARE && local {
            self.dongle_firmware = format_firmware(resp.payload.as_slice());
        } else if local {
            // Everything below belongs to the headset; ignore dongle-local copies.
            return false;
        } else if cmd == reg::SERIAL {
            self.headset_serial = format_serial(resp.payload.as_slice());
        } else if cmd == reg::FIRMWARE {
            self.headset_firmware = format_firmware(resp.payload.as_slice());
        } else if cmd == reg::EQ_BANDS {
            match eq_from_payload(resp.payload.as_slice()) {
                Some(bands) => self.custom_eq = Some(bands),
                None => return false,
            }
        } else if !some {
            return false;
        } else if cmd == reg::BATTERY {
            if v > 100 {
                return false;
            }
            self.battery = Some(v);
        } else if cmd == reg::CHARGING {
            self.charging = Some(v != 0);
        } else if cmd == reg::SIDETONE {
            self.sidetone_enabled = Some(v != 0);
        } else if cmd == reg::SIDETONE_LEVEL {
            self.sidetone_level = Some(
                if v < SIDETONE_MAX {
                    v
                } else {
                    SIDETONE_MAX
                },
            );
        } else if cmd == reg::SLEEP_TIMER {
            self.sleep_minutes = Some(v);
        } else if cmd == reg::BT_DND {
            self.bt_dnd = Some(v != 0);
        } else if cmd == reg::MIC_MUTE {
            self.mic_muted = Some(v != 0);
        } else if cmd == reg::EQ_PRESET {
            self.eq_preset = Some(HardwarePreset::from_raw(v));
        } else if cmd == reg::EQ_ENABLE {
            self.eq_enabled = Some(v != 0);
        } else if cmd == reg::ENHANCEMENT {
            self.enhancement = Some(v != 0);
        } else {
            return false;
        }
        true
    }
}

fn same_text(a: &Option<String>, b: &Option<String>) -> (r: bool)
    ensures
        r == (some_view(*a) == some_view(*b)),
{
    match (a, b) {
        (Some(a), Some(b)) => same(a.as_str(), b.as_str()),
        (None, None) => true,
        _ => false,
    }
}

fn same_led(a: &Option<LedMode>, b: &Option<LedMode>) -> (r: bool)
    ensures
        r == (*a == *b),
{
    match (a, b) {
        (Some(a), Some(b)) => *a == *b,
        (None, None) => true,
        _ => false,
    }
}

fn same_preset(a: &Option<HardwarePreset>, b: &Option<HardwarePreset>) -> (r: bool)
    ensures
        r == (*a == *b),
{
    match (a, b) {
        (Some(a), Some(b)) => *a == *b,
        (None, None) => true,
        _ => false,
    }
}

/// Are two curves the same?
pub fn same_bands(a: &Bands, b: &Bands) -> (r: bool)
    ensures
        r == (*a == *b),
{
    let mut i: usize = 0;
    while i < BAND_COUNT
        invariant
            i <= BAND_COUNT,
            forall|j: int| 0 <= j < i ==> #[trigger] a@[j] == b@[j],
        decreases BAND_COUNT - i,
    {
        if a[i] != b[i] {
            assert(a@[i as int] != b@[i as int]);
            return false;
        }
        i += 1;
    }
    assert(*a =~= *b);
    true
}

/// Are two curves, where they are known, the same?
pub fn same_curve(a: &Option<Bands>, b: &Option<Bands>) -> (r: bool)
    ensures
        r == (*a == *b),
{
    match (a, b) {
        (Some(a), Some(b)) => same_bands(a, b),
        (None, None) => true,
        _ => false,
    }
}

/// SET echoes carry nothing, and on a dongle connection a reply from the
/// dongle itself never changes what is known of the headset.
pub proof fn replies_stay_in_their_domain(s: StateView, resp: ResponseView, connection: Connection)
    ensures
        resp.cmd >= reg::SET ==> s.told(resp, connection) is None,
        connection == Connection::Dongle && resp.domain == DOMAIN_LOCAL ==> match s.told(resp, connection) {
            Some(after) => after == (StateView {
                link_up: after.link_up,
                dongle_serial: after.dongle_serial,
                dongle_firmware: after.dongle_firmware,
                led_mode: after.led_mode,
                ..s
            }),
            None => true,
        },
        match s.told(resp, connection) {
            Some(after) => after.battery matches Some(level) ==> level <= 100 || s.battery == Some(level),
            None => true,
        },
{
}

/// Forgetting the headset keeps the dongle, and can be done again.
pub proof fn forgetting_keeps_the_dongle(s: StateView)
    ensures
        s.without_headset().link_up == s.link_up,
        s.without_headset().dongle_serial == s.dongle_serial,
        s.without_headset().dongle_firmware == s.dongle_firmware,
        s.without_headset().led_mode == s.led_mode,
        s.without_headset().without_headset() == s.without_headset(),
        s.without_headset().knows_no_headset(),
{
}

} // verus!
