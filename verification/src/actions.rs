//! What a request does on the device.

use crate::devices::blackshark_v2_hs::driver::BlackSharkV2Hs;
use crate::devices::blackshark_v2_hs::exchange::{continues, continues_on, Entry};
use crate::devices::blackshark_v2_hs::protocol::reg;
use crate::devices::blackshark_v2_hs::protocol::{curve_of, wire_bytes, ResponseView, DOMAIN_LOCAL, SIDETONE_MAX};
use crate::devices::blackshark_v2_hs::reading::{
    answer_at, answered_at, begin, begin_writes, capped_level, curve_step, done, eq_fields, fields_step, outcome_at,
    preset_step, reads_at, shows, write_step, Field, Refresh, Setting, Step,
};
use crate::devices::blackshark_v2_hs::state::{HeadsetState, LedMode, StateView};
use crate::devices::Connection;
use crate::eq::{Bands, HardwarePreset};
use crate::error::{Error, ErrorView};
use crate::hid::transport::Transport;
use crate::manager::Request;
use crate::views::err_view;
use vstd::prelude::*;

verus! {

/// Reading a value back, unless a write failed before.
pub open spec fn read_step(
    c: Setting,
    log: Seq<Entry>,
    before: Step<Result<(), ErrorView>>,
    s: StateView,
    field: Field,
) -> Step<Refresh> {
    match before.value {
        Err(e) => Step { ok: before.ok, end: before.end, value: Refresh { state: s, result: Err(e) } },
        Ok(_) => Step {
            ok: before.ok && shows(c, log, before.end, field.domain(c.connection), field.register(), seq![]),
            end: before.end + 1,
            value: match field.read(outcome_at(log, before.end)) {
                Ok(payload) => Refresh { state: field.stored(s, Some(payload)), result: Ok(()) },
                Err(e) => Refresh { state: s, result: Err(e) },
            },
        },
    }
}

/// Reading the equalizer back, unless a write failed before. The EQ stage
/// was enabled by the writes.
pub open spec fn eq_read_step(c: Setting, log: Seq<Entry>, before: Step<Result<(), ErrorView>>, s: StateView) -> Step<
    Refresh,
> {
    match before.value {
        Err(e) => Step { ok: before.ok, end: before.end, value: Refresh { state: s, result: Err(e) } },
        Ok(_) => fields_step(
            c,
            log,
            Step {
                ok: before.ok,
                end: before.end,
                value: Refresh {
                    state: StateView { eq_enabled: Some(true), ..s },
                    result: Ok(()),
                },
            },
            eq_fields(),
        ),
    }
}

/// Writing the sidetone level, which has a limit.
pub open spec fn level_step(c: Setting, log: Seq<Entry>, before: Step<Result<(), ErrorView>>, level: u8) -> Step<
    Result<(), ErrorView>,
> {
    if before.value is Ok && level > SIDETONE_MAX {
        Step { value: Err(ErrorView::InvalidArgument("sidetone level must be 0..=15"@)), ..before }
    } else {
        write_step(c, log, before, reg::SIDETONE_LEVEL, seq![level])
    }
}

/// Writing the LED mode, which only a dongle has.
pub open spec fn led_step(c: Setting, log: Seq<Entry>, at: int, mode: LedMode) -> Step<Result<(), ErrorView>> {
    if c.connection == Connection::Wired {
        Step {
            ok: true,
            end: at,
            value: Err(ErrorView::InvalidArgument("the dongle LED can only be set through the dongle"@)),
        }
    } else {
        Step {
            ok: shows(c, log, at, DOMAIN_LOCAL, reg::set_command(reg::DONGLE_LED), seq![mode.raw_of()]),
            end: at + 1,
            value: done(outcome_at(log, at)),
        }
    }
}

pub open spec fn switch(on: bool) -> Seq<u8> {
    seq![if on { 1u8 } else { 0u8 }]
}

/// Performing a request: the setting is written and read back.
pub open spec fn request_step(c: Setting, log: Seq<Entry>, at: int, s: StateView, req: Request) -> Step<Refresh> {
    let start = begin_writes(at);
    match req {
        Request::Refresh => begin(at, s),
        Request::SetSidetone(on) => {
            let w = write_step(c, log, start, reg::SIDETONE, switch(on));
            // The DSP may come back from "off" at a default: the level goes again.
            let w = match s.sidetone_level {
                Some(level) => if on {
                    level_step(c, log, w, level)
                } else {
                    w
                },
                None => w,
            };
            read_step(c, log, w, s, Field::SidetoneEnabled)
        },
        Request::SetSidetoneLevel(level) => read_step(
            c,
            log,
            level_step(c, log, start, capped_level(level)),
            s,
            Field::SidetoneLevel,
        ),
        Request::SetSleepMinutes(minutes) => read_step(
            c,
            log,
            write_step(c, log, start, reg::SLEEP_TIMER, seq![minutes]),
            s,
            Field::SleepMinutes,
        ),
        Request::SetBtDnd(on) => read_step(
            c,
            log,
            write_step(c, log, start, reg::BT_DND, switch(on)),
            s,
            Field::BtDnd,
        ),
        Request::SetLedMode(mode) => read_step(c, log, led_step(c, log, at, mode), s, Field::LedMode),
        Request::SelectPreset(preset) => eq_read_step(c, log, preset_step(c, log, at, preset), s),
        Request::ApplyCustomEq(bands) => eq_read_step(c, log, curve_step(c, log, at, bands), s),
        Request::SetEnhancement(on) => read_step(
            c,
            log,
            write_step(c, log, start, reg::ENHANCEMENT, switch(on)),
            s,
            Field::Enhancement,
        ),
        Request::SetEqEnabled(on) => read_step(
            c,
            log,
            write_step(c, log, start, reg::EQ_ENABLE, switch(on)),
            s,
            Field::EqEnabled,
        ),
    }
}

/// Does the log show at `i` that exactly `params` was written to `register` in
/// `domain`?
pub open spec fn sends_at(log: Seq<Entry>, i: int, domain: u8, register: u8, params: Seq<u8>) -> bool {
    match log[i] {
        Entry::Asked { query, .. } => query.domain == domain && query.cmd == 0x80 + register && query.params
            == params,
        _ => false,
    }
}

/// Does the log show at `i` that a switch was set to `on`?
pub open spec fn switches_at(log: Seq<Entry>, i: int, domain: u8, register: u8, on: bool) -> bool {
    match log[i] {
        Entry::Asked { query, .. } => query.domain == domain && query.cmd == 0x80 + register && query.params.len()
            == 1 && (on ==> query.params[0] == 1) && (!on ==> query.params[0] == 0),
        _ => false,
    }
}

/// The domain of the headset.
pub open spec fn headset_at(c: Setting) -> u8 {
    if c.connection is Dongle {
        0x80
    } else {
        0x00
    }
}

/// A request for a switch sends 1 to switch it on and 0 to switch it off, to
/// the register of that switch. If that is answered the register is read
/// back, and what is shown is what it then holds.
pub proof fn switch_requests_send_the_switch(c: Setting, log: Seq<Entry>, at: int, s: StateView, on: bool)
    ensures
        request_step(c, log, at, s, Request::SetBtDnd(on)).ok ==> switches_at(log, at, headset_at(c), 0x27, on),
        request_step(c, log, at, s, Request::SetEnhancement(on)).ok ==> switches_at(
            log,
            at,
            headset_at(c),
            0x1D,
            on,
        ),
        request_step(c, log, at, s, Request::SetEqEnabled(on)).ok ==> switches_at(log, at, headset_at(c), 0x1E, on),
        request_step(c, log, at, s, Request::SetSidetone(on)).ok ==> switches_at(log, at, headset_at(c), 0x18, on),
        ({
            let step = request_step(c, log, at, s, Request::SetBtDnd(on));
            step.ok && step.value.result is Ok ==> step.end == at + 2 && reads_at(log, at + 1, headset_at(c), 0x27)
                && step.value.state == (StateView { bt_dnd: Some(answer_at(log, at + 1)[0] != 0), ..s })
        }),
        ({
            let step = request_step(c, log, at, s, Request::SetEnhancement(on));
            step.ok && step.value.result is Ok ==> step.end == at + 2 && reads_at(log, at + 1, headset_at(c), 0x1D)
                && step.value.state == (StateView { enhancement: Some(answer_at(log, at + 1)[0] != 0), ..s })
        }),
        ({
            let step = request_step(c, log, at, s, Request::SetEqEnabled(on));
            step.ok && step.value.result is Ok ==> step.end == at + 2 && reads_at(log, at + 1, headset_at(c), 0x1E)
                && step.value.state == (StateView { eq_enabled: Some(answer_at(log, at + 1)[0] != 0), ..s })
        }),
        ({
            let step = request_step(c, log, at, s, Request::SetSidetone(on));
            step.ok && step.value.result is Ok ==> step.end >= at + 2 && reads_at(
                log,
                step.end - 1,
                headset_at(c),
                0x18,
            ) && step.value.state == (StateView {
                sidetone_enabled: Some(answer_at(log, step.end - 1)[0] != 0),
                ..s
            })
        }),
{
}

/// Switching the sidetone on sends its level again where it is known; nothing
/// else is written.
pub proof fn sidetone_comes_back_at_its_level(c: Setting, log: Seq<Entry>, at: int, s: StateView)
    requires
        outcome_at(log, at) is Ok,
    ensures
        ({
            let step = request_step(c, log, at, s, Request::SetSidetone(true));
            &&& s.sidetone_level is None && step.value.result is Ok ==> step.end == at + 2
            &&& step.ok && (s.sidetone_level matches Some(level) && level <= 15) ==> sends_at(
                log,
                at + 1,
                headset_at(c),
                0x19,
                seq![s.sidetone_level->0],
            ) && (step.value.result is Ok ==> step.end == at + 3)
        }),
        ({
            let step = request_step(c, log, at, s, Request::SetSidetone(false));
            step.value.result is Ok ==> step.end == at + 2
        }),
{
}

/// A request for a number sends that number to its register, and what is shown
/// is what the register then holds. A sidetone level above 15 is sent as 15.
pub proof fn number_requests_send_the_number(c: Setting, log: Seq<Entry>, at: int, s: StateView, n: u8)
    ensures
        request_step(c, log, at, s, Request::SetSleepMinutes(n)).ok ==> sends_at(
            log,
            at,
            headset_at(c),
            0x2C,
            seq![n],
        ),
        request_step(c, log, at, s, Request::SetSidetoneLevel(n)).ok ==> sends_at(
            log,
            at,
            headset_at(c),
            0x19,
            seq![
                if n <= 15 {
                    n
                } else {
                    15
                },
            ],
        ),
        ({
            let step = request_step(c, log, at, s, Request::SetSleepMinutes(n));
            step.ok && step.value.result is Ok ==> step.end == at + 2 && reads_at(log, at + 1, headset_at(c), 0x2C)
                && step.value.state == (StateView { sleep_minutes: Some(answer_at(log, at + 1)[0]), ..s })
        }),
        ({
            let step = request_step(c, log, at, s, Request::SetSidetoneLevel(n));
            step.ok && step.value.result is Ok ==> step.end == at + 2 && reads_at(log, at + 1, headset_at(c), 0x19)
                && (answer_at(log, at + 1)[0] <= 15 ==> step.value.state == (StateView {
                sidetone_level: Some(answer_at(log, at + 1)[0]),
                ..s
            }))
        }),
{
}

/// A request for the dongle's LED goes to the dongle; a headset on a cable has
/// none, so nothing is sent and the request is refused.
pub proof fn led_requests_go_to_the_dongle(c: Setting, log: Seq<Entry>, at: int, s: StateView, mode: LedMode)
    ensures
        ({
            let step = request_step(c, log, at, s, Request::SetLedMode(mode));
            &&& c.connection is Dongle && step.ok ==> sends_at(log, at, 0x00, 0x66, seq![mode.raw_of()])
            &&& c.connection is Dongle && step.ok && step.value.result is Ok ==> step.end == at + 2 && reads_at(
                log,
                at + 1,
                0x00,
                0x66,
            ) && step.value.state == (StateView {
                led_mode: Some(LedMode::of_raw(answer_at(log, at + 1)[0])),
                ..s
            })
            &&& c.connection is Wired ==> step.end == at && step.value.state == s && (step.value.result matches Err(
                ErrorView::InvalidArgument(_),
            ))
        }),
{
}

/// Selecting a preset writes its slot and switches the equalizer on; writing a
/// curve switches the equalizer on, selects the user's slot, writes the curve,
/// pauses and selects the slot once more. Both read preset and curve back.
pub proof fn eq_requests_write_in_order(
    c: Setting,
    log: Seq<Entry>,
    at: int,
    s: StateView,
    preset: HardwarePreset,
    bands: Bands,
)
    ensures
        ({
            let step = request_step(c, log, at, s, Request::SelectPreset(preset));
            step.ok && step.value.result is Ok ==> {
                &&& sends_at(log, at, headset_at(c), 0x13, seq![preset.raw_of()])
                &&& sends_at(log, at + 1, headset_at(c), 0x1E, seq![1u8])
                &&& step.value.state.eq_enabled == Some(true)
                &&& reads_at(log, at + 2, headset_at(c), 0x13)
                &&& answered_at(log, at + 2) ==> step.value.state.eq_preset == Some(
                    HardwarePreset::of_raw(answer_at(log, at + 2)[0]),
                )
            }
        }),
        ({
            let step = request_step(c, log, at, s, Request::ApplyCustomEq(bands));
            step.ok && step.value.result is Ok ==> {
                &&& sends_at(log, at, headset_at(c), 0x1E, seq![1u8])
                &&& sends_at(log, at + 1, headset_at(c), 0x13, seq![0xFFu8])
                &&& sends_at(log, at + 2, headset_at(c), 0x15, wire_bytes(bands))
                &&& log[at + 3] == (Entry::Paused { ms: 40 })
                &&& sends_at(log, at + 4, headset_at(c), 0x13, seq![0xFFu8])
                &&& step.value.state.eq_enabled == Some(true)
                &&& reads_at(log, at + 5, headset_at(c), 0x13)
                &&& answered_at(log, at + 5) ==> step.value.state.eq_preset == Some(
                    HardwarePreset::of_raw(answer_at(log, at + 5)[0]),
                )
                &&& answered_at(log, at + 5) && answered_at(log, at + 6) && answer_at(log, at + 6).len() >= 10
                    ==> reads_at(log, at + 6, headset_at(c), 0x15) && step.value.state.custom_eq == curve_of(
                    answer_at(log, at + 6),
                )
            }
        }),
{
    let one = eq_fields().drop_last();
    assert(one =~= seq![Field::EqPreset]);
    assert(one.drop_last() =~= seq![]);
    assert(eq_fields().last() == Field::CustomEq);
    reveal_with_fuel(fields_step, 3);
}

/// A write that is not answered ends the request with that failure, and what
/// is shown stays as it was.
pub proof fn failed_writes_end_the_request(c: Setting, log: Seq<Entry>, at: int, s: StateView, req: Request, e: ErrorView)
    requires
        !(req is Refresh),
        req is SetLedMode ==> c.connection is Dongle,
        outcome_at(log, at) == Err::<ResponseView, ErrorView>(e),
    ensures
        request_step(c, log, at, s, req).value == (Refresh { state: s, result: Err(e) }),
        request_step(c, log, at, s, req).end == at + 1,
{
}

proof fn preset_step_is_local(
    c: Setting,
    log: Seq<Entry>,
    later: Seq<Entry>,
    at: int,
    preset: HardwarePreset,
)
    requires
        continues(later, log),
        0 <= at,
        preset_step(c, log, at, preset).end <= log.len(),
    ensures
        preset_step(c, later, at, preset) == preset_step(c, log, at, preset),
{
    assert(later[at] == log[at]);
    if preset_step(c, log, at, preset).end == at + 2 {
        assert(later[at + 1] == log[at + 1]);
    }
}

proof fn curve_step_is_local(c: Setting, log: Seq<Entry>, later: Seq<Entry>, at: int, bands: Bands)
    requires
        continues(later, log),
        0 <= at,
        curve_step(c, log, at, bands).value is Ok,
        curve_step(c, log, at, bands).end <= log.len(),
    ensures
        curve_step(c, later, at, bands) == curve_step(c, log, at, bands),
{
    assert(curve_step(c, log, at, bands).end == at + 5);
    assert(later[at] == log[at]);
    assert(later[at + 1] == log[at + 1]);
    assert(later[at + 2] == log[at + 2]);
    assert(later[at + 3] == log[at + 3]);
    assert(later[at + 4] == log[at + 4]);
}

/// Does the log show a write to `register` at `i`?
pub open spec fn writes_to(log: Seq<Entry>, i: int, register: u8) -> bool {
    log[i] matches Entry::Asked { query, .. } && query.cmd == reg::set_command(register)
}

/// Selecting a preset and writing a curve never touch the enhancement.
pub proof fn curves_leave_the_enhancement(
    c: Setting,
    log: Seq<Entry>,
    at: int,
    preset: HardwarePreset,
    bands: Bands,
)
    ensures
        preset_step(c, log, at, preset).ok ==> forall|i: int|
            at <= i < preset_step(c, log, at, preset).end ==> !writes_to(log, i, reg::ENHANCEMENT),
        curve_step(c, log, at, bands).ok ==> forall|i: int|
            at <= i < curve_step(c, log, at, bands).end ==> !writes_to(log, i, reg::ENHANCEMENT),
{
}

/// Perform one request and update `state` with what the device reports back.
pub fn apply_request<T: Transport>(dev: &mut BlackSharkV2Hs<T>, state: &mut HeadsetState, req: &Request) -> (r:
    Result<(), Error>)
    requires
        old(dev).wf(),
    ensures
        ({
            let step = request_step(
                old(dev).setting(),
                final(dev).log(),
                old(dev).log().len() as int,
                old(state)@,
                *req,
            );
            &&& old(dev).performed(*final(dev), step)
            &&& step.value == (Refresh { state: final(state)@, result: err_view(r) })
        }),
{
    let ghost at = dev.log().len() as int;
    match *req {
        Request::Refresh => Ok(()),
        Request::SetSidetone(on) => {
            dev.set_sidetone_enabled(on)?;
            let ghost first = *dev;
            if on {
                // Re-send the level: the DSP may come back from "off" at a default.
                if let Some(level) = state.sidetone_level {
                    let sent = dev.set_sidetone_level(level);
                    proof {
                        if level <= SIDETONE_MAX {
                            old(dev).used_on(first, *dev);
                            assert(dev.log()[at] == first.log()[at]);
                        }
                    }
                    sent?;
                }
            }
            let ghost second = *dev;
            let r = dev.read_field(Field::SidetoneEnabled, state);
            proof {
                old(dev).used_on(second, *dev);
                assert(dev.log()[at] == second.log()[at]);
                if second.log().len() == at + 2 {
                    assert(dev.log()[at + 1] == second.log()[at + 1]);
                }
            }
            r
        },
        Request::SetSidetoneLevel(level) => {
            let level: u8 = if level < SIDETONE_MAX {
                level
            } else {
                SIDETONE_MAX
            };
            dev.set_sidetone_level(level)?;
            let ghost mid = *dev;
            let r = dev.read_field(Field::SidetoneLevel, state);
            proof {
                old(dev).used_on(mid, *dev);
                assert(dev.log()[at] == mid.log()[at]);
            }
            r
        },
        Request::SetSleepMinutes(minutes) => {
            dev.set_sleep_minutes(minutes)?;
            let ghost mid = *dev;
            let r = dev.read_field(Field::SleepMinutes, state);
            proof {
                old(dev).used_on(mid, *dev);
                assert(dev.log()[at] == mid.log()[at]);
            }
            r
        },
        Request::SetBtDnd(on) => {
            dev.set_bt_dnd(on)?;
            let ghost mid = *dev;
            let r = dev.read_field(Field::BtDnd, state);
            proof {
                old(dev).used_on(mid, *dev);
                assert(dev.log()[at] == mid.log()[at]);
            }
            r
        },
        Request::SetLedMode(mode) => {
            dev.set_led_mode(mode)?;
            let ghost mid = *dev;
            let r = dev.read_field(Field::LedMode, state);
            proof {
                old(dev).used_on(mid, *dev);
                assert(dev.log()[at] == mid.log()[at]);
            }
            r
        },
        Request::SelectPreset(preset) => {
            dev.select_preset(preset)?;
            let ghost mid = *dev;
            state.eq_enabled = Some(true);
            let r = dev.refresh_eq(state);
            proof {
                old(dev).used_on(mid, *dev);
                continues_on(dev.log(), mid.log(), old(dev).log());
                preset_step_is_local(old(dev).setting(), mid.log(), dev.log(), at, preset);
            }
            r
        },
        Request::ApplyCustomEq(bands) => {
            dev.apply_custom_eq(&bands)?;
            let ghost mid = *dev;
            state.eq_enabled = Some(true);
            let r = dev.refresh_eq(state);
            proof {
                old(dev).used_on(mid, *dev);
                continues_on(dev.log(), mid.log(), old(dev).log());
                curve_step_is_local(old(dev).setting(), mid.log(), dev.log(), at, bands);
            }
            r
        },
        Request::SetEnhancement(on) => {
            dev.set_enhancement(on)?;
            let ghost mid = *dev;
            let r = dev.read_field(Field::Enhancement, state);
            proof {
                old(dev).used_on(mid, *dev);
                assert(dev.log()[at] == mid.log()[at]);
            }
            r
        },
        Request::SetEqEnabled(on) => {
            dev.set_eq_enabled(on)?;
            let ghost mid = *dev;
            let r = dev.read_field(Field::EqEnabled, state);
            proof {
                old(dev).used_on(mid, *dev);
                assert(dev.log()[at] == mid.log()[at]);
            }
            r
        },
    }
}

} // verus!
