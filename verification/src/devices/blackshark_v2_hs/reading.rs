//! What the driver's operations ask of the device and make of its answers,
//! read off the driver's log.

use super::driver::domain_of;
use super::exchange::{continues, Entry, Outcome, Query};
use super::protocol::reg;
use super::protocol::{curve_of, firmware_text, serial_text, wire_bytes, ResponseView, DOMAIN_LOCAL, SIDETONE_MAX};
use super::state::{LedMode, StateView};
use crate::devices::Connection;
use crate::eq::{preset_raw_roundtrip, Bands, HardwarePreset, BAND_COUNT};
use crate::error::ErrorView;
use crate::text::dec;
use vstd::prelude::*;

verus! {

/// How a driver reaches the headset, and how long it waits for replies.
pub struct Setting {
    pub connection: Connection,
    pub timeout_ms: u64,
}

/// Does the log show this command at `at`?
pub open spec fn shows(c: Setting, log: Seq<Entry>, at: int, domain: u8, cmd: u8, params: Seq<u8>) -> bool {
    log[at] matches Entry::Asked { query, timeout_ms, .. } && query == (Query { domain, cmd, params })
        && timeout_ms == c.timeout_ms
}

/// What came of the command at `at`.
pub open spec fn outcome_at(log: Seq<Entry>, at: int) -> Outcome {
    match log[at] {
        Entry::Asked { outcome, .. } => outcome,
        _ => Err(ErrorView::Disconnected),
    }
}

/// One value that the headset or the dongle reports.
#[derive(Clone, Copy)]
pub enum Field {
    HeadsetSerial,
    HeadsetFirmware,
    Battery,
    Charging,
    MicMuted,
    SleepMinutes,
    BtDnd,
    SidetoneEnabled,
    SidetoneLevel,
    EqEnabled,
    Enhancement,
    EqPreset,
    CustomEq,
    DongleSerial,
    DongleFirmware,
    LedMode,
}

impl Field {
    pub open spec fn register(self) -> u8 {
        match self {
            Field::HeadsetSerial | Field::DongleSerial => reg::SERIAL,
            Field::HeadsetFirmware | Field::DongleFirmware => reg::FIRMWARE,
            Field::Battery => reg::BATTERY,
            Field::Charging => reg::CHARGING,
            Field::MicMuted => reg::MIC_MUTE,
            Field::SleepMinutes => reg::SLEEP_TIMER,
            Field::BtDnd => reg::BT_DND,
            Field::SidetoneEnabled => reg::SIDETONE,
            Field::SidetoneLevel => reg::SIDETONE_LEVEL,
            Field::EqEnabled => reg::EQ_ENABLE,
            Field::Enhancement => reg::ENHANCEMENT,
            Field::EqPreset => reg::EQ_PRESET,
            Field::CustomEq => reg::EQ_BANDS,
            Field::LedMode => reg::DONGLE_LED,
        }
    }

    /// Does the dongle report it?
    pub open spec fn of_dongle(self) -> bool {
        self is DongleSerial || self is DongleFirmware || self is LedMode
    }

    pub open spec fn domain(self, connection: Connection) -> u8 {
        if self.of_dongle() {
            DOMAIN_LOCAL
        } else {
            domain_of(connection)
        }
    }

    /// The payload in the answer, if it is one that makes sense.
    pub open spec fn read(self, outcome: Outcome) -> Result<Seq<u8>, ErrorView> {
        match got(outcome, self.register()) {
            Err(e) => Err(e),
            Ok(payload) => if self is Battery && payload[0] > 100 {
                Err(ErrorView::Protocol("battery level out of range: "@ + dec(payload[0] as nat)))
            } else if self is CustomEq && payload.len() < BAND_COUNT {
                Err(ErrorView::Protocol("EQ reply has "@ + dec(payload.len()) + " bytes"@))
            } else {
                Ok(payload)
            },
        }
    }

    /// The state with this value as `payload` gives it; unknown if nothing
    /// was read.
    pub open spec fn stored(self, s: StateView, payload: Option<Seq<u8>>) -> StateView {
        match self {
            Field::HeadsetSerial => StateView {
                headset_serial: match payload {
                    Some(p) => serial_text(p),
                    None => None,
                },
                ..s
            },
            Field::HeadsetFirmware => StateView {
                headset_firmware: match payload {
                    Some(p) => firmware_text(p),
                    None => None,
                },
                ..s
            },
            Field::DongleSerial => StateView {
                dongle_serial: match payload {
                    Some(p) => serial_text(p),
                    None => None,
                },
                ..s
            },
            Field::DongleFirmware => StateView {
                dongle_firmware: match payload {
                    Some(p) => firmware_text(p),
                    None => None,
                },
                ..s
            },
            Field::Battery => StateView { battery: byte_of(payload), ..s },
            Field::Charging => StateView { charging: flag_of(payload), ..s },
            Field::MicMuted => StateView { mic_muted: flag_of(payload), ..s },
            Field::SleepMinutes => StateView { sleep_minutes: byte_of(payload), ..s },
            Field::BtDnd => StateView { bt_dnd: flag_of(payload), ..s },
            Field::SidetoneEnabled => StateView { sidetone_enabled: flag_of(payload), ..s },
            Field::SidetoneLevel => StateView {
                sidetone_level: match byte_of(payload) {
                    Some(v) => Some(capped_level(v)),
                    None => None,
                },
                ..s
            },
            Field::EqEnabled => StateView { eq_enabled: flag_of(payload), ..s },
            Field::Enhancement => StateView { enhancement: flag_of(payload), ..s },
            Field::EqPreset => StateView {
                eq_preset: match byte_of(payload) {
                    Some(v) => Some(HardwarePreset::of_raw(v)),
                    None => None,
                },
                ..s
            },
            Field::CustomEq => StateView {
                custom_eq: match payload {
                    Some(p) => curve_of(p),
                    None => None,
                },
                ..s
            },
            Field::LedMode => StateView {
                led_mode: match byte_of(payload) {
                    Some(v) => Some(LedMode::of_raw(v)),
                    None => None,
                },
                ..s
            },
        }
    }
}

pub open spec fn byte_of(payload: Option<Seq<u8>>) -> Option<u8> {
    match payload {
        Some(p) => Some(p[0]),
        None => None,
    }
}

pub open spec fn flag_of(payload: Option<Seq<u8>>) -> Option<bool> {
    match payload {
        Some(p) => Some(p[0] != 0),
        None => None,
    }
}

/// A sidetone level as far as the headset goes.
pub open spec fn capped_level(v: u8) -> u8 {
    if v < SIDETONE_MAX {
        v
    } else {
        SIDETONE_MAX
    }
}

/// The payload of an answer; an empty one counts as no answer.
pub open spec fn got(outcome: Outcome, cmd: u8) -> Result<Seq<u8>, ErrorView> {
    match outcome {
        Ok(resp) => if resp.payload.len() == 0 {
            Err(ErrorView::EmptyResponse { cmd })
        } else {
            Ok(resp.payload)
        },
        Err(e) => Err(e),
    }
}

/// The first byte of an answer.
pub open spec fn got_byte(outcome: Outcome, cmd: u8) -> Result<u8, ErrorView> {
    match got(outcome, cmd) {
        Ok(payload) => Ok(payload[0]),
        Err(e) => Err(e),
    }
}

/// An answer that is on or off.
pub open spec fn got_flag(outcome: Outcome, cmd: u8) -> Result<bool, ErrorView> {
    match got(outcome, cmd) {
        Ok(payload) => Ok(payload[0] != 0),
        Err(e) => Err(e),
    }
}

/// Was the command answered at all?
pub open spec fn done(outcome: Outcome) -> Result<(), ErrorView> {
    match outcome {
        Ok(_) => Ok(()),
        Err(e) => Err(e),
    }
}

/// What the log shows from some point up to `end`. It is `ok` if exactly
/// the commands that belong there were sent.
pub struct Step<V> {
    pub ok: bool,
    pub end: int,
    pub value: V,
}

/// Is the headset reachable? Always true for a wired connection. A dongle
/// that does not answer for itself is asked for the headset's battery.
pub open spec fn link_step(c: Setting, log: Seq<Entry>, at: int) -> Step<Result<bool, ErrorView>> {
    if c.connection == Connection::Wired {
        Step { ok: true, end: at, value: Ok(true) }
    } else {
        let ok = shows(c, log, at, DOMAIN_LOCAL, reg::LINK_STATUS, seq![]);
        match got_flag(outcome_at(log, at), reg::LINK_STATUS) {
            Ok(up) => Step { ok, end: at + 1, value: Ok(up) },
            Err(e) => if e.is_timeout() {
                Step {
                    ok: ok && shows(c, log, at + 1, domain_of(c.connection), reg::BATTERY, seq![]),
                    end: at + 2,
                    value: match Field::Battery.read(outcome_at(log, at + 1)) {
                        Ok(_) => Ok(true),
                        Err(e) => if e.is_timeout() {
                            Ok(false)
                        } else {
                            Err(e)
                        },
                    },
                }
            } else {
                Step { ok, end: at + 1, value: Err(e) }
            },
        }
    }
}

/// What one headset read comes to. An odd value counts as not read. An
/// unanswered register does too as long as the headset is still linked;
/// otherwise the headset is offline.
pub open spec fn settled<V>(c: Setting, log: Seq<Entry>, at: int, read: Result<V, ErrorView>) -> Step<
    Result<Option<V>, ErrorView>,
> {
    match read {
        Ok(v) => Step { ok: true, end: at, value: Ok(Some(v)) },
        Err(e) => if e is Protocol {
            Step { ok: true, end: at, value: Ok(None) }
        } else if e.is_timeout() {
            let link = link_step(c, log, at);
            Step {
                ok: link.ok,
                end: link.end,
                value: match link.value {
                    Ok(up) => if up {
                        Ok(None)
                    } else {
                        Err(ErrorView::HeadsetOffline)
                    },
                    Err(e) => Err(e),
                },
            }
        } else {
            Step { ok: true, end: at, value: Err(e) }
        },
    }
}

/// A register that is not answered does not make the headset offline as long
/// as it is linked, and one odd value does not end a refresh.
pub proof fn unsupported_registers_are_skipped<V>(c: Setting, log: Seq<Entry>, at: int, e: ErrorView)
    ensures
        e is Protocol ==> settled(c, log, at, Err::<V, ErrorView>(e)) == (Step {
            ok: true,
            end: at,
            value: Ok::<Option<V>, ErrorView>(None),
        }),
        e.is_timeout() && link_step(c, log, at).value == Ok::<bool, ErrorView>(true) ==> settled(
            c,
            log,
            at,
            Err::<V, ErrorView>(e),
        ).value == Ok::<Option<V>, ErrorView>(None),
        e.is_timeout() && link_step(c, log, at).value == Ok::<bool, ErrorView>(false) ==> settled(
            c,
            log,
            at,
            Err::<V, ErrorView>(e),
        ).value == Err::<Option<V>, ErrorView>(ErrorView::HeadsetOffline),
{
}

/// "No answer" counts as not read; other failures stay.
pub open spec fn optional_value<V>(read: Result<V, ErrorView>) -> Result<Option<V>, ErrorView> {
    match read {
        Ok(v) => Ok(Some(v)),
        Err(e) => if e.is_timeout() {
            Ok(None)
        } else {
            Err(e)
        },
    }
}

/// What a refresh knows so far, and whether it failed.
pub struct Refresh {
    pub state: StateView,
    pub result: Result<(), ErrorView>,
}

/// One more value, unless the refresh failed before.
pub open spec fn field_step(c: Setting, log: Seq<Entry>, before: Step<Refresh>, field: Field) -> Step<Refresh> {
    if before.value.result is Err {
        before
    } else {
        let asked = shows(c, log, before.end, field.domain(c.connection), field.register(), seq![]);
        let read = field.read(outcome_at(log, before.end));
        let t: Step<Result<Option<Seq<u8>>, ErrorView>> = if field.of_dongle() {
            Step { ok: true, end: before.end + 1, value: optional_value(read) }
        } else {
            settled(c, log, before.end + 1, read)
        };
        Step {
            ok: before.ok && asked && t.ok,
            end: t.end,
            value: match t.value {
                Ok(payload) => Refresh { state: field.stored(before.value.state, payload), result: Ok(()) },
                Err(e) => Refresh { state: before.value.state, result: Err(e) },
            },
        }
    }
}

pub open spec fn begin(at: int, state: StateView) -> Step<Refresh> {
    Step { ok: true, end: at, value: Refresh { state, result: Ok(()) } }
}

/// One value after the other, up to the first failure.
pub open spec fn fields_step(c: Setting, log: Seq<Entry>, before: Step<Refresh>, fields: Seq<Field>) -> Step<
    Refresh,
>
    decreases fields.len(),
{
    if fields.len() == 0 {
        before
    } else {
        field_step(c, log, fields_step(c, log, before, fields.drop_last()), fields.last())
    }
}

/// The values that change on their own: battery, charging, mute button.
pub open spec fn status_fields() -> Seq<Field> {
    seq![Field::Battery, Field::Charging, Field::MicMuted]
}

/// Active preset and the Custom slot curve.
pub open spec fn eq_fields() -> Seq<Field> {
    seq![Field::EqPreset, Field::CustomEq]
}

/// Every headset register.
pub open spec fn headset_fields() -> Seq<Field> {
    seq![
        Field::HeadsetSerial,
        Field::HeadsetFirmware,
        Field::Battery,
        Field::Charging,
        Field::MicMuted,
        Field::SleepMinutes,
        Field::BtDnd,
        Field::SidetoneEnabled,
        Field::SidetoneLevel,
        Field::EqEnabled,
        Field::Enhancement,
        Field::EqPreset,
        Field::CustomEq,
    ]
}

/// Dongle identity and LED; nothing when wired.
pub open spec fn dongle_fields(connection: Connection) -> Seq<Field> {
    if connection == Connection::Wired {
        seq![]
    } else {
        seq![Field::DongleSerial, Field::DongleFirmware, Field::LedMode]
    }
}

/// Everything the device reports. A headset that stops answering mid-way is
/// reported as not linked.
pub open spec fn state_step(c: Setting, log: Seq<Entry>, at: int) -> Step<Result<StateView, ErrorView>> {
    let dongle = fields_step(c, log, begin(at, StateView::unknown()), dongle_fields(c.connection));
    match dongle.value.result {
        Err(e) => Step { ok: dongle.ok, end: dongle.end, value: Err(e) },
        Ok(_) => {
            let link = link_step(c, log, dongle.end);
            match link.value {
                Err(e) => Step { ok: dongle.ok && link.ok, end: link.end, value: Err(e) },
                Ok(up) => {
                    let known = StateView { link_up: Some(up), ..dongle.value.state };
                    if !up {
                        Step { ok: dongle.ok && link.ok, end: link.end, value: Ok(known) }
                    } else {
                        let rest = fields_step(c, log, begin(link.end, known), headset_fields());
                        Step {
                            ok: dongle.ok && link.ok && rest.ok,
                            end: rest.end,
                            value: match rest.value.result {
                                Ok(_) => Ok(rest.value.state),
                                Err(e) => if e is HeadsetOffline {
                                    Ok(
                                        StateView {
                                            link_up: Some(false),
                                            ..rest.value.state.without_headset()
                                        },
                                    )
                                } else {
                                    Err(e)
                                },
                            },
                        }
                    }
                },
            }
        },
    }
}

/// Was the command at `i` answered with a payload?
pub open spec fn answered_at(log: Seq<Entry>, i: int) -> bool {
    outcome_at(log, i) matches Ok(resp) && resp.payload.len() > 0
}

/// The payload of the answer at `i`.
pub open spec fn answer_at(log: Seq<Entry>, i: int) -> Seq<u8> {
    outcome_at(log, i)->Ok_0.payload
}

/// Does the log show at `i` that `register` was asked for in `domain`?
pub open spec fn reads_at(log: Seq<Entry>, i: int, domain: u8, register: u8) -> bool {
    match log[i] {
        Entry::Asked { query, .. } => query.domain == domain && query.cmd == register && query.params.len() == 0,
        _ => false,
    }
}

/// Does the log show from `i` on that every value of the headset was asked
/// for in `domain`, and that `s` holds what was answered? A switch is on if
/// its byte is not zero.
pub open spec fn headset_read_at(log: Seq<Entry>, i: int, domain: u8, s: StateView) -> bool {
    &&& reads_at(log, i, domain, 0x00) && s.headset_serial == serial_text(answer_at(log, i))
    &&& reads_at(log, i + 1, domain, 0x02) && s.headset_firmware == firmware_text(answer_at(log, i + 1))
    &&& reads_at(log, i + 2, domain, 0x21) && s.battery == Some(answer_at(log, i + 2)[0])
    &&& reads_at(log, i + 3, domain, 0x2A) && s.charging == Some(answer_at(log, i + 3)[0] != 0)
    &&& reads_at(log, i + 4, domain, 0x55) && s.mic_muted == Some(answer_at(log, i + 4)[0] != 0)
    &&& reads_at(log, i + 5, domain, 0x2C) && s.sleep_minutes == Some(answer_at(log, i + 5)[0])
    &&& reads_at(log, i + 6, domain, 0x27) && s.bt_dnd == Some(answer_at(log, i + 6)[0] != 0)
    &&& reads_at(log, i + 7, domain, 0x18) && s.sidetone_enabled == Some(answer_at(log, i + 7)[0] != 0)
    &&& reads_at(log, i + 8, domain, 0x19) && (s.sidetone_level matches Some(level) && level <= 15 && level
        <= answer_at(log, i + 8)[0] && (level == 15 || level == answer_at(log, i + 8)[0]))
    &&& reads_at(log, i + 9, domain, 0x1E) && s.eq_enabled == Some(answer_at(log, i + 9)[0] != 0)
    &&& reads_at(log, i + 10, domain, 0x1D) && s.enhancement == Some(answer_at(log, i + 10)[0] != 0)
    &&& reads_at(log, i + 11, domain, 0x13) && (s.eq_preset matches Some(preset) && preset.raw_of() == answer_at(
        log,
        i + 11,
    )[0] && preset == HardwarePreset::of_raw(preset.raw_of()))
    &&& reads_at(log, i + 12, domain, 0x15) && s.custom_eq == curve_of(answer_at(log, i + 12)) && s.custom_eq is Some
}

/// Does the log show from `i` on that the dongle was asked about itself, and
/// that `s` holds what it answered?
pub open spec fn dongle_read_at(log: Seq<Entry>, i: int, s: StateView) -> bool {
    &&& reads_at(log, i, 0x00, 0x00) && s.dongle_serial == serial_text(answer_at(log, i))
    &&& reads_at(log, i + 1, 0x00, 0x02) && s.dongle_firmware == firmware_text(answer_at(log, i + 1))
    &&& reads_at(log, i + 2, 0x00, 0x66) && (s.led_mode matches Some(mode) && mode.raw_of() == answer_at(
        log,
        i + 2,
    )[0] && mode == LedMode::of_raw(mode.raw_of()))
}

/// One more field whose register was answered.
proof fn field_answered(c: Setting, log: Seq<Entry>, before: Step<Refresh>, fields: Seq<Field>, n: int)
    requires
        0 <= n < fields.len(),
        fields_step(c, log, before, fields.take(n)).value.result is Ok,
        answered_at(log, fields_step(c, log, before, fields.take(n)).end),
        fields[n] is Battery ==> answer_at(log, fields_step(c, log, before, fields.take(n)).end)[0] <= 100,
        fields[n] is CustomEq ==> answer_at(log, fields_step(c, log, before, fields.take(n)).end).len()
            >= BAND_COUNT,
    ensures
        ({
            let s = fields_step(c, log, before, fields.take(n));
            let t = fields_step(c, log, before, fields.take(n + 1));
            &&& t.end == s.end + 1
            &&& t.value.result is Ok
            &&& t.value.state == fields[n].stored(s.value.state, Some(answer_at(log, s.end)))
            &&& t.ok ==> s.ok && reads_at(log, s.end, fields[n].domain(c.connection), fields[n].register())
        }),
{
    assert(fields.take(n + 1).drop_last() =~= fields.take(n));
    assert(fields.take(n + 1).last() == fields[n]);
}

/// The next value of the headset, if it was answered.
proof fn next_answered(
    c: Setting,
    log: Seq<Entry>,
    first: Step<Refresh>,
    n: int,
    s: StateView,
    field: Field,
    t: StateView,
)
    requires
        0 <= n < headset_fields().len(),
        headset_fields()[n] == field,
        first.value.result is Ok,
        fields_step(c, log, first, headset_fields().take(n)).value == (Refresh { state: s, result: Ok(()) }),
        fields_step(c, log, first, headset_fields().take(n)).end == first.end + n,
        answered_at(log, first.end + n),
        field is Battery ==> answer_at(log, first.end + n)[0] <= 100,
        field is CustomEq ==> answer_at(log, first.end + n).len() >= BAND_COUNT,
        field.stored(s, Some(answer_at(log, first.end + n))) == t,
    ensures
        fields_step(c, log, first, headset_fields().take(n + 1)).value == (Refresh { state: t, result: Ok(()) }),
        fields_step(c, log, first, headset_fields().take(n + 1)).end == first.end + n + 1,
        fields_step(c, log, first, headset_fields().take(n + 1)).ok ==> fields_step(
            c,
            log,
            first,
            headset_fields().take(n),
        ).ok && reads_at(log, first.end + n, field.domain(c.connection), field.register()),
{
    field_answered(c, log, first, headset_fields(), n);
}

/// Reading every value of a headset that answers all of it: each value shown
/// is the one that was answered, and nothing else changes.
#[verifier::rlimit(60)]
proof fn headset_fields_answered(c: Setting, log: Seq<Entry>, at: int, s: StateView)
    requires
        forall|i: int| at <= i < at + 13 ==> #[trigger] answered_at(log, i),
        answer_at(log, at + 2)[0] <= 100,
        answer_at(log, at + 12).len() >= BAND_COUNT,
    ensures
        ({
            let t = fields_step(c, log, begin(at, s), headset_fields());
            &&& t.end == at + 13
            &&& t.value.result is Ok
            &&& t.ok ==> headset_read_at(
                log,
                at,
                if c.connection is Dongle {
                    0x80
                } else {
                    0x00
                },
                t.value.state,
            )
            &&& t.value.state.link_up == s.link_up
            &&& t.value.state.dongle_serial == s.dongle_serial
            &&& t.value.state.dongle_firmware == s.dongle_firmware
            &&& t.value.state.led_mode == s.led_mode
        }),
{
    let fields = headset_fields();
    let first = begin(at, s);
    assert(fields.take(0) =~= seq![]);
    assert(fields_step(c, log, first, fields.take(0)) == first);
    let s1 = StateView { headset_serial: serial_text(answer_at(log, at)), ..s };
    next_answered(c, log, first, 0, s, Field::HeadsetSerial, s1);
    let s2 = StateView { headset_firmware: firmware_text(answer_at(log, at + 1)), ..s1 };
    next_answered(c, log, first, 1, s1, Field::HeadsetFirmware, s2);
    let s3 = StateView { battery: Some(answer_at(log, at + 2)[0]), ..s2 };
    next_answered(c, log, first, 2, s2, Field::Battery, s3);
    let s4 = StateView { charging: Some(answer_at(log, at + 3)[0] != 0), ..s3 };
    next_answered(c, log, first, 3, s3, Field::Charging, s4);
    let s5 = StateView { mic_muted: Some(answer_at(log, at + 4)[0] != 0), ..s4 };
    next_answered(c, log, first, 4, s4, Field::MicMuted, s5);
    let s6 = StateView { sleep_minutes: Some(answer_at(log, at + 5)[0]), ..s5 };
    next_answered(c, log, first, 5, s5, Field::SleepMinutes, s6);
    let s7 = StateView { bt_dnd: Some(answer_at(log, at + 6)[0] != 0), ..s6 };
    next_answered(c, log, first, 6, s6, Field::BtDnd, s7);
    let s8 = StateView { sidetone_enabled: Some(answer_at(log, at + 7)[0] != 0), ..s7 };
    next_answered(c, log, first, 7, s7, Field::SidetoneEnabled, s8);
    let s9 = StateView { sidetone_level: Some(capped_level(answer_at(log, at + 8)[0])), ..s8 };
    next_answered(c, log, first, 8, s8, Field::SidetoneLevel, s9);
    let s10 = StateView { eq_enabled: Some(answer_at(log, at + 9)[0] != 0), ..s9 };
    next_answered(c, log, first, 9, s9, Field::EqEnabled, s10);
    let s11 = StateView { enhancement: Some(answer_at(log, at + 10)[0] != 0), ..s10 };
    next_answered(c, log, first, 10, s10, Field::Enhancement, s11);
    let s12 = StateView { eq_preset: Some(HardwarePreset::of_raw(answer_at(log, at + 11)[0])), ..s11 };
    next_answered(c, log, first, 11, s11, Field::EqPreset, s12);
    let s13 = StateView { custom_eq: curve_of(answer_at(log, at + 12)), ..s12 };
    next_answered(c, log, first, 12, s12, Field::CustomEq, s13);
    assert(fields.take(13) =~= fields);
    preset_raw_roundtrip(answer_at(log, at + 11)[0], HardwarePreset::Flat);
}

/// A dongle that answers for itself, and a linked headset that answers for
/// everything: what is read is exactly what they answered, register by
/// register.
pub proof fn states_show_the_answers(c: Setting, log: Seq<Entry>, at: int)
    requires
        c.connection is Dongle,
        forall|i: int| at <= i < at + 17 ==> #[trigger] answered_at(log, i),
        answer_at(log, at + 3)[0] != 0,
        answer_at(log, at + 6)[0] <= 100,
        answer_at(log, at + 16).len() >= 10,
        state_step(c, log, at).ok,
    ensures
        state_step(c, log, at).end == at + 17,
        reads_at(log, at + 3, 0x00, 0x20),
        state_step(c, log, at).value matches Ok(s) && {
            &&& s.link_up == Some(true)
            &&& dongle_read_at(log, at, s)
            &&& headset_read_at(log, at + 4, 0x80, s)
        },
{
    let fields = dongle_fields(c.connection);
    let before = begin(at, StateView::unknown());
    assert(fields.take(0) =~= seq![]);
    assert(answered_at(log, at) && answered_at(log, at + 1) && answered_at(log, at + 2) && answered_at(log, at + 3));
    field_answered(c, log, before, fields, 0);
    field_answered(c, log, before, fields, 1);
    field_answered(c, log, before, fields, 2);
    assert(fields.take(3) =~= fields);
    let dongle = fields_step(c, log, before, fields);
    let known = StateView { link_up: Some(true), ..dongle.value.state };
    headset_fields_answered(c, log, at + 4, known);
}

/// A headset on a cable that answers for everything: what is read is exactly
/// what it answered, and nothing of a dongle is made up.
pub proof fn wired_states_show_the_answers(c: Setting, log: Seq<Entry>, at: int)
    requires
        c.connection is Wired,
        forall|i: int| at <= i < at + 13 ==> #[trigger] answered_at(log, i),
        answer_at(log, at + 2)[0] <= 100,
        answer_at(log, at + 12).len() >= 10,
        state_step(c, log, at).ok,
    ensures
        state_step(c, log, at).end == at + 13,
        state_step(c, log, at).value matches Ok(s) && {
            &&& s.link_up == Some(true)
            &&& s.dongle_serial is None && s.dongle_firmware is None && s.led_mode is None
            &&& headset_read_at(log, at, 0x00, s)
        },
{
    headset_fields_answered(c, log, at, StateView { link_up: Some(true), ..StateView::unknown() });
}

/// A dongle whose headset is not there: nothing of the headset is known, and
/// nothing of it is asked for.
pub proof fn unlinked_states_know_the_dongle(c: Setting, log: Seq<Entry>, at: int)
    requires
        c.connection is Dongle,
        forall|i: int| at <= i < at + 4 ==> #[trigger] answered_at(log, i),
        answer_at(log, at + 3)[0] == 0,
        state_step(c, log, at).ok,
    ensures
        state_step(c, log, at).end == at + 4,
        reads_at(log, at + 3, 0x00, 0x20),
        state_step(c, log, at).value matches Ok(s) && {
            &&& s.link_up == Some(false)
            &&& dongle_read_at(log, at, s)
            &&& s.knows_no_headset()
        },
{
    let fields = dongle_fields(c.connection);
    let before = begin(at, StateView::unknown());
    assert(fields.take(0) =~= seq![]);
    assert(answered_at(log, at) && answered_at(log, at + 1) && answered_at(log, at + 2) && answered_at(log, at + 3));
    field_answered(c, log, before, fields, 0);
    field_answered(c, log, before, fields, 1);
    field_answered(c, log, before, fields, 2);
    assert(fields.take(3) =~= fields);
}

/// A headset that stops answering while it is read is not linked: nothing is
/// shown of it, whatever was read before.
pub proof fn lost_headsets_are_forgotten(c: Setting, log: Seq<Entry>, at: int)
    ensures
        state_step(c, log, at).value matches Ok(s) ==> s.link_up is Some && (s.link_up == Some(false)
            ==> s.knows_no_headset()),
{
    let dongle = fields_step(c, log, begin(at, StateView::unknown()), dongle_fields(c.connection));
    dongle_fields_stay_there(c, log, at);
    let link = link_step(c, log, dongle.end);
    let known = StateView { link_up: Some(true), ..dongle.value.state };
    fields_keep_the_link(c, log, begin(link.end, known), headset_fields());
}

proof fn dongle_fields_stay_there(c: Setting, log: Seq<Entry>, at: int)
    ensures
        fields_step(
            c,
            log,
            begin(at, StateView::unknown()),
            dongle_fields(c.connection),
        ).value.state.knows_no_headset(),
{
    let fields = dongle_fields(c.connection);
    let before = begin(at, StateView::unknown());
    if c.connection is Dongle {
        assert(fields.take(0) =~= seq![]);
        assert(fields.take(1).drop_last() =~= fields.take(0));
        assert(fields.take(2).drop_last() =~= fields.take(1));
        assert(fields.take(3).drop_last() =~= fields.take(2));
        assert(fields.take(3) =~= fields);
        assert(fields_step(c, log, before, fields.take(0)) == before);
        assert(fields_step(c, log, before, fields.take(1)).value.state.knows_no_headset());
        assert(fields_step(c, log, before, fields.take(2)).value.state.knows_no_headset());
    }
}

proof fn fields_keep_the_link(c: Setting, log: Seq<Entry>, before: Step<Refresh>, fields: Seq<Field>)
    ensures
        fields_step(c, log, before, fields).value.state.link_up == before.value.state.link_up,
    decreases fields.len(),
{
    if fields.len() > 0 {
        fields_keep_the_link(c, log, before, fields.drop_last());
    }
}

/// Every value has its own register, and the dongle's three are asked of the
/// dongle.
pub proof fn values_have_their_registers(a: Field, b: Field, connection: Connection)
    requires
        connection is Dongle,
        a != b,
    ensures
        (a.domain(connection), a.register()) != (b.domain(connection), b.register()),
        a.of_dongle() <==> a.domain(connection) == 0x00,
        !a.of_dongle() <==> a.domain(connection) == 0x80,
        a.domain(Connection::Wired) == 0x00,
        a.register() < 0x80,
{
}

/// Do the two states agree on everything but the value `field`?
pub open spec fn differ_in(field: Field, s: StateView, t: StateView) -> bool {
    &&& t.link_up == s.link_up
    &&& field is HeadsetSerial || t.headset_serial == s.headset_serial
    &&& field is HeadsetFirmware || t.headset_firmware == s.headset_firmware
    &&& field is DongleSerial || t.dongle_serial == s.dongle_serial
    &&& field is DongleFirmware || t.dongle_firmware == s.dongle_firmware
    &&& field is Battery || t.battery == s.battery
    &&& field is Charging || t.charging == s.charging
    &&& field is MicMuted || t.mic_muted == s.mic_muted
    &&& field is SleepMinutes || t.sleep_minutes == s.sleep_minutes
    &&& field is BtDnd || t.bt_dnd == s.bt_dnd
    &&& field is SidetoneEnabled || t.sidetone_enabled == s.sidetone_enabled
    &&& field is SidetoneLevel || t.sidetone_level == s.sidetone_level
    &&& field is EqEnabled || t.eq_enabled == s.eq_enabled
    &&& field is Enhancement || t.enhancement == s.enhancement
    &&& field is EqPreset || t.eq_preset == s.eq_preset
    &&& field is CustomEq || t.custom_eq == s.custom_eq
    &&& field is LedMode || t.led_mode == s.led_mode
}

/// Storing one value leaves every other as it is. What is stored does not
/// depend on what was known before, and storing nothing forgets the value.
pub proof fn values_are_stored_apart(field: Field, s: StateView, p: Option<Seq<u8>>, q: Option<Seq<u8>>)
    ensures
        differ_in(field, s, field.stored(s, p)),
        field.stored(field.stored(s, p), q) == field.stored(s, q),
        field.stored(StateView::unknown(), None) == StateView::unknown(),
{
}

/// A full read agrees with the single reads: for the same answer, what is
/// stored is what the getter of that register returns.
pub proof fn reads_agree_with_getters(s: StateView, answer: Outcome)
    requires
        answer matches Ok(resp) && resp.payload.len() > 0,
    ensures
        ({
            let p = Some(answer->Ok_0.payload);
            &&& Field::Battery.read(answer) is Ok ==> Field::Battery.stored(s, p).battery == Some(
                got_byte(answer, 0x21)->Ok_0,
            )
            &&& Field::Charging.stored(s, p).charging == Some(got_flag(answer, 0x2A)->Ok_0)
            &&& Field::MicMuted.stored(s, p).mic_muted == Some(got_flag(answer, 0x55)->Ok_0)
            &&& Field::SleepMinutes.stored(s, p).sleep_minutes == Some(got_byte(answer, 0x2C)->Ok_0)
            &&& Field::BtDnd.stored(s, p).bt_dnd == Some(got_flag(answer, 0x27)->Ok_0)
            &&& Field::SidetoneEnabled.stored(s, p).sidetone_enabled == Some(got_flag(answer, 0x18)->Ok_0)
            &&& Field::EqEnabled.stored(s, p).eq_enabled == Some(got_flag(answer, 0x1E)->Ok_0)
            &&& Field::Enhancement.stored(s, p).enhancement == Some(got_flag(answer, 0x1D)->Ok_0)
            &&& got_flag(answer, 0x2A)->Ok_0 <==> got_byte(answer, 0x2A)->Ok_0 != 0
            &&& got_byte(answer, 0x2A)->Ok_0 == answer->Ok_0.payload[0]
        }),
{
}

/// What makes no sense is not taken: an answer without a payload, a battery
/// above 100 percent, a curve of fewer than ten gains. Everything else is
/// taken as it is.
pub proof fn odd_answers_are_refused(field: Field, answer: Outcome)
    ensures
        answer matches Ok(resp) ==> (field.read(answer) is Ok <==> {
            &&& resp.payload.len() > 0
            &&& field is Battery ==> resp.payload[0] <= 100
            &&& field is CustomEq ==> resp.payload.len() >= 10
        }),
        answer is Err ==> field.read(answer) is Err && field.read(answer)->Err_0 == answer->Err_0,
        field.read(answer) matches Ok(payload) ==> payload == answer->Ok_0.payload,
{
}

/// A reply that is picked up tells the same as a full read that gets the same
/// payload: the value it is about changes in the same way, and nothing else
/// does.
pub proof fn replies_tell_what_reads_store(s: StateView, resp: ResponseView, connection: Connection, field: Field)
    requires
        resp.cmd == field.register(),
        resp.domain == field.domain(connection),
        field.of_dongle() ==> connection is Dongle,
        field.read(Ok::<ResponseView, ErrorView>(resp)) is Ok,
    ensures
        s.told(resp, connection) == Some(field.stored(s, Some(resp.payload))),
{
}

/// A reply that is picked up is taken for what it says: a switch is on if its
/// byte is not zero, a number is the byte itself.
pub proof fn replies_are_taken_literally(s: StateView, resp: ResponseView, connection: Connection)
    requires
        resp.payload.len() > 0,
        resp.domain == (if connection is Dongle {
            0x80u8
        } else {
            0x00u8
        }),
    ensures
        ({
            let v = resp.payload[0];
            let told = s.told(resp, connection);
            &&& resp.cmd == 0x21 ==> told == if v <= 100 {
                Some(StateView { battery: Some(v), ..s })
            } else {
                None
            }
            &&& resp.cmd == 0x2A ==> told == Some(StateView { charging: Some(v != 0), ..s })
            &&& resp.cmd == 0x55 ==> told == Some(StateView { mic_muted: Some(v != 0), ..s })
            &&& resp.cmd == 0x2C ==> told == Some(StateView { sleep_minutes: Some(v), ..s })
            &&& resp.cmd == 0x27 ==> told == Some(StateView { bt_dnd: Some(v != 0), ..s })
            &&& resp.cmd == 0x18 ==> told == Some(StateView { sidetone_enabled: Some(v != 0), ..s })
            &&& resp.cmd == 0x1E ==> told == Some(StateView { eq_enabled: Some(v != 0), ..s })
            &&& resp.cmd == 0x1D ==> told == Some(StateView { enhancement: Some(v != 0), ..s })
            &&& resp.cmd == 0x19 && v <= 15 ==> told == Some(StateView { sidetone_level: Some(v), ..s })
            &&& resp.cmd == 0x19 && v > 15 ==> told == Some(StateView { sidetone_level: Some(15), ..s })
        }),
{
}

/// What a reply says of the link: the dongle knows it, a headset on a cable is
/// always there, and over the radio nothing is said of it.
pub proof fn replies_on_the_link(s: StateView, resp: ResponseView, connection: Connection)
    requires
        resp.cmd == 0x20,
        resp.payload.len() > 0,
    ensures
        connection is Wired ==> s.told(resp, connection) == Some(StateView { link_up: Some(true), ..s }),
        connection is Dongle && resp.domain == 0x00 ==> s.told(resp, connection) == Some(
            StateView { link_up: Some(resp.payload[0] != 0), ..s },
        ),
        connection is Dongle && resp.domain == 0x80 ==> s.told(resp, connection) is None,
{
}

/// A reply about a register that holds nothing of interest changes nothing.
pub proof fn other_replies_tell_nothing(s: StateView, resp: ResponseView, connection: Connection)
    requires
        resp.cmd != 0x20,
        forall|field: Field| resp.cmd != #[trigger] field.register(),
    ensures
        s.told(resp, connection) is None,
{
    assert(resp.cmd != Field::HeadsetSerial.register());
    assert(resp.cmd != Field::HeadsetFirmware.register());
    assert(resp.cmd != Field::Battery.register());
    assert(resp.cmd != Field::Charging.register());
    assert(resp.cmd != Field::MicMuted.register());
    assert(resp.cmd != Field::SleepMinutes.register());
    assert(resp.cmd != Field::BtDnd.register());
    assert(resp.cmd != Field::SidetoneEnabled.register());
    assert(resp.cmd != Field::SidetoneLevel.register());
    assert(resp.cmd != Field::EqEnabled.register());
    assert(resp.cmd != Field::Enhancement.register());
    assert(resp.cmd != Field::EqPreset.register());
    assert(resp.cmd != Field::CustomEq.register());
    assert(resp.cmd != Field::LedMode.register());
}

/// Whether the headset is there: a cable always counts, a dongle is asked and
/// its word counts; one that stays silent is passed over, and a headset that
/// then reports its battery is there.
pub proof fn link_is_what_the_dongle_says(c: Setting, log: Seq<Entry>, at: int)
    ensures
        c.connection is Wired ==> link_step(c, log, at) == (Step { ok: true, end: at, value: Ok::<
            bool,
            ErrorView,
        >(true) }),
        c.connection is Dongle && link_step(c, log, at).ok ==> reads_at(log, at, 0x00, 0x20),
        c.connection is Dongle && answered_at(log, at) ==> link_step(c, log, at).end == at + 1 && link_step(
            c,
            log,
            at,
        ).value == Ok::<bool, ErrorView>(answer_at(log, at)[0] != 0),
        c.connection is Dongle && (outcome_at(log, at) matches Err(ErrorView::Timeout { .. })) && answered_at(
            log,
            at + 1,
        ) && answer_at(log, at + 1)[0] <= 100 ==> link_step(c, log, at).value == Ok::<bool, ErrorView>(true),
        c.connection is Dongle && (outcome_at(log, at) matches Err(ErrorView::Timeout { .. })) && (outcome_at(
            log,
            at + 1,
        ) matches Err(ErrorView::Timeout { .. })) ==> link_step(c, log, at).value == Ok::<bool, ErrorView>(false),
        c.connection is Dongle && (outcome_at(log, at) matches Err(ErrorView::Timeout { .. })) && link_step(
            c,
            log,
            at,
        ).ok ==> reads_at(log, at + 1, 0x80, 0x21),
        c.connection is Dongle && (outcome_at(log, at) matches Err(ErrorView::Disconnected)) ==> link_step(
            c,
            log,
            at,
        ).value == Err::<bool, ErrorView>(ErrorView::Disconnected),
{
}

/// One more write to the headset, unless one failed before.
pub open spec fn write_step(
    c: Setting,
    log: Seq<Entry>,
    before: Step<Result<(), ErrorView>>,
    register: u8,
    params: Seq<u8>,
) -> Step<Result<(), ErrorView>> {
    if before.value is Err {
        before
    } else {
        Step {
            ok: before.ok && shows(
                c,
                log,
                before.end,
                domain_of(c.connection),
                reg::set_command(register),
                params,
            ),
            end: before.end + 1,
            value: done(outcome_at(log, before.end)),
        }
    }
}

/// A pause, unless a write failed before.
pub open spec fn pause_step(log: Seq<Entry>, before: Step<Result<(), ErrorView>>, ms: u64) -> Step<
    Result<(), ErrorView>,
> {
    if before.value is Err {
        before
    } else {
        Step { ok: before.ok && log[before.end] == (Entry::Paused { ms }), end: before.end + 1, ..before }
    }
}

pub open spec fn begin_writes(at: int) -> Step<Result<(), ErrorView>> {
    Step { ok: true, end: at, value: Ok(()) }
}

/// Selecting a preset slot: the slot, then the EQ stage is enabled.
pub open spec fn preset_step(c: Setting, log: Seq<Entry>, at: int, preset: HardwarePreset) -> Step<
    Result<(), ErrorView>,
> {
    let s = write_step(c, log, begin_writes(at), reg::EQ_PRESET, seq![preset.raw_of()]);
    write_step(c, log, s, reg::EQ_ENABLE, seq![1u8])
}

/// How long the DSP gets to take up a written curve (milliseconds).
pub const CURVE_PAUSE_MS: u64 = 40;

/// Writing a curve: the EQ stage is enabled, the Custom slot selected, the
/// curve written and, after a pause, the slot selected again.
pub open spec fn curve_step(c: Setting, log: Seq<Entry>, at: int, bands: Bands) -> Step<Result<(), ErrorView>> {
    let s = write_step(c, log, begin_writes(at), reg::EQ_ENABLE, seq![1u8]);
    let s = write_step(c, log, s, reg::EQ_PRESET, seq![0xFFu8]);
    let s = write_step(c, log, s, reg::EQ_BANDS, wire_bytes(bands));
    let s = pause_step(log, s, CURVE_PAUSE_MS);
    write_step(c, log, s, reg::EQ_PRESET, seq![0xFFu8])
}

pub proof fn link_step_is_local(c: Setting, log: Seq<Entry>, later: Seq<Entry>, at: int)
    requires
        continues(later, log),
        0 <= at,
        link_step(c, log, at).end <= log.len(),
    ensures
        link_step(c, later, at) == link_step(c, log, at),
        at <= link_step(c, log, at).end <= at + 2,
{
    if c.connection != Connection::Wired {
        assert(later[at] == log[at]);
        if link_step(c, log, at).end == at + 2 {
            assert(later[at + 1] == log[at + 1]);
        }
    }
}

pub proof fn settled_is_local<V>(
    c: Setting,
    log: Seq<Entry>,
    later: Seq<Entry>,
    at: int,
    read: Result<V, ErrorView>,
)
    requires
        continues(later, log),
        0 <= at,
        settled(c, log, at, read).end <= log.len(),
    ensures
        settled(c, later, at, read) == settled(c, log, at, read),
        at <= settled(c, log, at, read).end,
{
    match read {
        Err(e) => if !(e is Protocol) && e.is_timeout() {
            link_step_is_local(c, log, later, at);
        },
        Ok(_) => {},
    }
}

pub proof fn field_step_is_local(
    c: Setting,
    log: Seq<Entry>,
    later: Seq<Entry>,
    before: Step<Refresh>,
    field: Field,
)
    requires
        continues(later, log),
        0 <= before.end,
        field_step(c, log, before, field).end <= log.len(),
    ensures
        field_step(c, later, before, field) == field_step(c, log, before, field),
        before.end <= field_step(c, log, before, field).end,
{
    if before.value.result is Ok {
        let read = field.read(outcome_at(log, before.end));
        if !field.of_dongle() {
            assert(before.end + 1 <= settled(c, log, before.end + 1, read).end);
            settled_is_local(c, log, later, before.end + 1, read);
        }
        assert(later[before.end] == log[before.end]);
    }
}

pub proof fn fields_step_advances(c: Setting, log: Seq<Entry>, before: Step<Refresh>, fields: Seq<Field>)
    ensures
        before.end <= fields_step(c, log, before, fields).end,
    decreases fields.len(),
{
    if fields.len() > 0 {
        fields_step_advances(c, log, before, fields.drop_last());
    }
}

pub proof fn fields_step_is_local(
    c: Setting,
    log: Seq<Entry>,
    later: Seq<Entry>,
    before: Step<Refresh>,
    fields: Seq<Field>,
)
    requires
        continues(later, log),
        0 <= before.end,
        fields_step(c, log, before, fields).end <= log.len(),
    ensures
        fields_step(c, later, before, fields) == fields_step(c, log, before, fields),
    decreases fields.len(),
{
    if fields.len() > 0 {
        let rest = fields.drop_last();
        let s = fields_step(c, log, before, rest);
        fields_step_advances(c, log, before, rest);
        assert(s.end <= field_step(c, log, s, fields.last()).end);
        fields_step_is_local(c, log, later, before, rest);
        field_step_is_local(c, log, later, s, fields.last());
    }
}

/// After a failure nothing more is asked.
pub proof fn fields_after_failure(c: Setting, log: Seq<Entry>, before: Step<Refresh>, fields: Seq<Field>, n: int)
    requires
        0 <= n <= fields.len(),
        fields_step(c, log, before, fields.take(n)).value.result is Err,
    ensures
        fields_step(c, log, before, fields) == fields_step(c, log, before, fields.take(n)),
    decreases fields.len() - n,
{
    if n == fields.len() {
        assert(fields.take(n) =~= fields);
    } else {
        let more = fields.take(n + 1);
        assert(more.drop_last() =~= fields.take(n));
        fields_after_failure(c, log, before, fields, n + 1);
    }
}

} // verus!
