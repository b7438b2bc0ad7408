//! What the commands of the command line do with the headset.

use super::parse::Sidetone;
use crate::actions::{headset_at, led_step, level_step, sends_at, switch, switches_at};
use crate::devices::blackshark_v2_hs::driver::{domain_of, BlackSharkV2Hs};
use crate::devices::blackshark_v2_hs::exchange::{continues, continues_on, Entry};
use crate::devices::blackshark_v2_hs::protocol::reg;
use crate::devices::blackshark_v2_hs::protocol::curve_of;
use crate::devices::blackshark_v2_hs::reading::{
    answer_at, answered_at, begin_writes, capped_level, link_step, link_step_is_local, outcome_at, reads_at, shows, write_step, Field, Setting, Step,
};
use crate::devices::blackshark_v2_hs::state::LedMode;

use crate::eq::{Bands, HardwarePreset};
use crate::error::{Error, ErrorView};
use crate::hid::transport::Transport;
use crate::views::{both_view, err_view};
use crate::worker::sum;
use vstd::prelude::*;
use vstd::string::*;

verus! {

/// One more value that is read, unless something failed before.
pub open spec fn value_step<A>(c: Setting, log: Seq<Entry>, before: Step<Result<A, ErrorView>>, field: Field) -> Step<
    Result<(A, Seq<u8>), ErrorView>,
> {
    match before.value {
        Err(e) => Step { ok: before.ok, end: before.end, value: Err(e) },
        Ok(a) => Step {
            ok: before.ok && shows(c, log, before.end, field.domain(c.connection), field.register(), seq![]),
            end: before.end + 1,
            value: match field.read(outcome_at(log, before.end)) {
                Ok(payload) => Ok((a, payload)),
                Err(e) => Err(e),
            },
        },
    }
}

/// Is the headset there? If not, that is the error.
pub open spec fn online_step(c: Setting, log: Seq<Entry>, at: int) -> Step<Result<(), ErrorView>> {
    let link = link_step(c, log, at);
    Step {
        ok: link.ok,
        end: link.end,
        value: match link.value {
            Ok(up) => if up {
                Ok(())
            } else {
                Err(ErrorView::HeadsetOffline)
            },
            Err(e) => Err(e),
        },
    }
}

pub fn ensure_online<T: Transport>(dev: &mut BlackSharkV2Hs<T>) -> (r: Result<(), Error>)
    requires
        old(dev).wf(),
    ensures
        ({
            let step = online_step(old(dev).setting(), final(dev).log(), old(dev).log().len() as int);
            &&& old(dev).performed(*final(dev), step)
            &&& err_view(r) == step.value
        }),
{
    if dev.link_up()? {
        Ok(())
    } else {
        Err(Error::HeadsetOffline)
    }
}

/// `battery`: level and whether it is charging.
pub open spec fn battery_step(c: Setting, log: Seq<Entry>, at: int) -> Step<Result<(u8, bool), ErrorView>> {
    let s = value_step(c, log, value_step(c, log, begin_writes(at), Field::Battery), Field::Charging);
    Step {
        ok: s.ok,
        end: s.end,
        value: match s.value {
            Ok(((_, level), charging)) => Ok((level[0], charging[0] != 0)),
            Err(e) => Err(e),
        },
    }
}

pub fn battery<T: Transport>(dev: &mut BlackSharkV2Hs<T>) -> (r: Result<(u8, bool), Error>)
    requires
        old(dev).wf(),
    ensures
        ({
            let step = battery_step(old(dev).setting(), final(dev).log(), old(dev).log().len() as int);
            &&& old(dev).performed(*final(dev), step)
            &&& err_view(r) == step.value
        }),
{
    let ghost at = dev.log().len() as int;
    let level: u8 = dev.battery()?;
    let ghost mid = *dev;
    let charging = dev.charging();
    proof {
        old(dev).used_on(mid, *dev);
        assert(dev.log()[at] == mid.log()[at]);
    }
    Ok((level, charging?))
}

/// `sidetone`: the level or the switch is written, and both are read back. A
/// level above zero switches the sidetone on.
pub open spec fn sidetone_step(c: Setting, log: Seq<Entry>, at: int, wanted: Sidetone) -> Step<
    Result<(bool, u8), ErrorView>,
> {
    let w = match wanted {
        Sidetone::Level(level) => {
            let w = level_step(c, log, begin_writes(at), level);
            if level > 0 {
                write_step(c, log, w, reg::SIDETONE, switch(true))
            } else {
                w
            }
        },
        Sidetone::Switch(on) => write_step(c, log, begin_writes(at), reg::SIDETONE, switch(on)),
    };
    let s = value_step(c, log, value_step(c, log, w, Field::SidetoneEnabled), Field::SidetoneLevel);
    Step {
        ok: s.ok,
        end: s.end,
        value: match s.value {
            Ok(((_, on), level)) => Ok((on[0] != 0, capped_level(level[0]))),
            Err(e) => Err(e),
        },
    }
}

pub fn sidetone<T: Transport>(dev: &mut BlackSharkV2Hs<T>, wanted: Sidetone) -> (r: Result<(bool, u8), Error>)
    requires
        old(dev).wf(),
    ensures
        ({
            let step = sidetone_step(
                old(dev).setting(),
                final(dev).log(),
                old(dev).log().len() as int,
                wanted,
            );
            &&& old(dev).performed(*final(dev), step)
            &&& err_view(r) == step.value
        }),
{
    let ghost at = dev.log().len() as int;
    match wanted {
        Sidetone::Level(level) => {
            dev.set_sidetone_level(level)?;
            if level > 0 {
                let ghost first = *dev;
                let sent = dev.set_sidetone_enabled(true);
                proof {
                    old(dev).used_on(first, *dev);
                    assert(dev.log()[at] == first.log()[at]);
                }
                sent?;
            }
        },
        Sidetone::Switch(on) => {
            dev.set_sidetone_enabled(on)?;
        },
    }
    let ghost written = *dev;
    let on = dev.sidetone_enabled();
    let ghost read = *dev;
    proof {
        old(dev).used_on(written, read);
        assert(read.log()[at] == written.log()[at]);
        if written.log().len() == at + 2 {
            assert(read.log()[at + 1] == written.log()[at + 1]);
        }
    }
    let on = on?;
    let level = dev.sidetone_level();
    proof {
        old(dev).used_on(read, *dev);
        assert(dev.log()[at] == read.log()[at]);
        assert(dev.log()[at + 1] == read.log()[at + 1]);
        if written.log().len() == at + 2 {
            assert(dev.log()[at + 2] == read.log()[at + 2]);
        }
    }
    Ok((on, level?))
}

/// `sleep`: the minutes are written and read back.
pub open spec fn sleep_step(c: Setting, log: Seq<Entry>, at: int, minutes: u8) -> Step<Result<u8, ErrorView>> {
    let s = value_step(
        c,
        log,
        write_step(c, log, begin_writes(at), reg::SLEEP_TIMER, seq![minutes]),
        Field::SleepMinutes,
    );
    Step {
        ok: s.ok,
        end: s.end,
        value: match s.value {
            Ok((_, now)) => Ok(now[0]),
            Err(e) => Err(e),
        },
    }
}

pub fn sleep<T: Transport>(dev: &mut BlackSharkV2Hs<T>, minutes: u8) -> (r: Result<u8, Error>)
    requires
        old(dev).wf(),
    ensures
        ({
            let step = sleep_step(
                old(dev).setting(),
                final(dev).log(),
                old(dev).log().len() as int,
                minutes,
            );
            &&& old(dev).performed(*final(dev), step)
            &&& err_view(r) == step.value
        }),
{
    let ghost at = dev.log().len() as int;
    dev.set_sleep_minutes(minutes)?;
    let ghost mid = *dev;
    let r = dev.sleep_minutes();
    proof {
        old(dev).used_on(mid, *dev);
        assert(dev.log()[at] == mid.log()[at]);
    }
    r
}

/// `dnd`: the switch is written and read back.
pub open spec fn dnd_step(c: Setting, log: Seq<Entry>, at: int, on: bool) -> Step<Result<bool, ErrorView>> {
    let s = value_step(c, log, write_step(c, log, begin_writes(at), reg::BT_DND, switch(on)), Field::BtDnd);
    Step {
        ok: s.ok,
        end: s.end,
        value: match s.value {
            Ok((_, now)) => Ok(now[0] != 0),
            Err(e) => Err(e),
        },
    }
}

pub fn dnd<T: Transport>(dev: &mut BlackSharkV2Hs<T>, on: bool) -> (r: Result<bool, Error>)
    requires
        old(dev).wf(),
    ensures
        ({
            let step = dnd_step(old(dev).setting(), final(dev).log(), old(dev).log().len() as int, on);
            &&& old(dev).performed(*final(dev), step)
            &&& err_view(r) == step.value
        }),
{
    let ghost at = dev.log().len() as int;
    dev.set_bt_dnd(on)?;
    let ghost mid = *dev;
    let r = dev.bt_dnd();
    proof {
        old(dev).used_on(mid, *dev);
        assert(dev.log()[at] == mid.log()[at]);
    }
    r
}

/// `led`: the mode is written, and its key read back.
pub open spec fn led_command_step(c: Setting, log: Seq<Entry>, at: int, mode: LedMode) -> Step<
    Result<Seq<char>, ErrorView>,
> {
    let s = value_step(c, log, led_step(c, log, at, mode), Field::LedMode);
    Step {
        ok: s.ok,
        end: s.end,
        value: match s.value {
            Ok((_, now)) => Ok(LedMode::of_raw(now[0]).key_of()),
            Err(e) => Err(e),
        },
    }
}

pub fn led<T: Transport>(dev: &mut BlackSharkV2Hs<T>, mode: LedMode) -> (r: Result<String, Error>)
    requires
        old(dev).wf(),
    ensures
        ({
            let step = led_command_step(
                old(dev).setting(),
                final(dev).log(),
                old(dev).log().len() as int,
                mode,
            );
            &&& old(dev).performed(*final(dev), step)
            &&& both_view(r) == step.value
        }),
{
    let ghost at = dev.log().len() as int;
    dev.set_led_mode(mode)?;
    let ghost mid = *dev;
    let now = dev.led_mode();
    proof {
        old(dev).used_on(mid, *dev);
        assert(dev.log()[at] == mid.log()[at]);
    }
    Ok(
        match now? {
            Some(mode) => mode.key(),
            None => String::new(),
        },
    )
}

/// What `eq` shows.
#[derive(Debug, Clone, Copy, PartialEq, Eq)]
pub struct EqReport {
    pub preset: HardwarePreset,
    pub custom: Bands,
    pub enabled: bool,
    pub enhancement: bool,
}

/// `eq`: preset, Custom slot, EQ stage and enhancement are read.
pub open spec fn eq_report_step(c: Setting, log: Seq<Entry>, at: int) -> Step<Result<EqReport, ErrorView>> {
    let s = value_step(c, log, begin_writes(at), Field::EqPreset);
    let s = value_step(c, log, s, Field::CustomEq);
    let s = value_step(c, log, s, Field::EqEnabled);
    let s = value_step(c, log, s, Field::Enhancement);
    Step {
        ok: s.ok,
        end: s.end,
        value: match s.value {
            Ok(((((_, preset), custom), enabled), enhancement)) => Ok(
                EqReport {
                    preset: HardwarePreset::of_raw(preset[0]),
                    custom: curve_of(custom)->0,
                    enabled: enabled[0] != 0,
                    enhancement: enhancement[0] != 0,
                },
            ),
            Err(e) => Err(e),
        },
    }
}

pub fn eq_report<T: Transport>(dev: &mut BlackSharkV2Hs<T>) -> (r: Result<EqReport, Error>)
    requires
        old(dev).wf(),
    ensures
        ({
            let step = eq_report_step(old(dev).setting(), final(dev).log(), old(dev).log().len() as int);
            &&& old(dev).performed(*final(dev), step)
            &&& err_view(r) == step.value
        }),
{
    let ghost at = dev.log().len() as int;
    let preset = dev.eq_preset()?;
    let ghost one = *dev;
    let custom = dev.custom_eq();
    let ghost two = *dev;
    proof {
        old(dev).used_on(one, two);
        assert(two.log()[at] == one.log()[at]);
    }
    let custom = custom?;
    let enabled = dev.eq_enabled();
    let ghost three = *dev;
    proof {
        old(dev).used_on(two, three);
        assert(three.log()[at] == two.log()[at]);
        assert(three.log()[at + 1] == two.log()[at + 1]);
    }
    let enabled = enabled?;
    let enhancement = dev.enhancement();
    proof {
        old(dev).used_on(three, *dev);
        assert(dev.log()[at] == three.log()[at]);
        assert(dev.log()[at + 1] == three.log()[at + 1]);
        assert(dev.log()[at + 2] == three.log()[at + 2]);
    }
    Ok(EqReport { preset, custom, enabled, enhancement: enhancement? })
}

/// One round of `monitor`: the link, and the battery of a headset that is
/// there. A battery that cannot be read is left out.
pub open spec fn monitor_step(c: Setting, log: Seq<Entry>, at: int) -> Step<Result<(bool, Option<u8>), ErrorView>> {
    let link = link_step(c, log, at);
    match link.value {
        Err(e) => Step { ok: link.ok, end: link.end, value: Err(e) },
        Ok(up) => if !up {
            Step { ok: link.ok, end: link.end, value: Ok((false, None)) }
        } else {
            Step {
                ok: link.ok && shows(c, log, link.end, domain_of(c.connection), reg::BATTERY, seq![]),
                end: link.end + 1,
                value: Ok(
                    (
                        true,
                        match Field::Battery.read(outcome_at(log, link.end)) {
                            Ok(payload) => Some(payload[0]),
                            Err(_) => None,
                        },
                    ),
                ),
            }
        },
    }
}

/// `battery` asks for level and charging, and tells what was answered.
pub proof fn battery_tells_the_answers(c: Setting, log: Seq<Entry>, at: int)
    ensures
        ({
            let step = battery_step(c, log, at);
            &&& step.ok ==> reads_at(log, at, headset_at(c), 0x21)
            &&& step.value matches Ok((level, charging)) ==> {
                &&& step.ok ==> reads_at(log, at + 1, headset_at(c), 0x2A)
                &&& step.end == at + 2
                &&& level == answer_at(log, at)[0] && level <= 100
                &&& charging <==> answer_at(log, at + 1)[0] != 0
            }
            &&& answered_at(log, at) && answer_at(log, at)[0] <= 100 && answered_at(log, at + 1) ==> step.value is Ok
        }),
{
}

/// `sleep` and `dnd` write what they are given, and tell what the headset then
/// has.
pub proof fn settings_are_written_and_told(c: Setting, log: Seq<Entry>, at: int, minutes: u8, on: bool)
    ensures
        ({
            let step = sleep_step(c, log, at, minutes);
            &&& step.ok ==> sends_at(log, at, headset_at(c), 0x2C, seq![minutes])
            &&& step.value matches Ok(now) ==> step.end == at + 2 && now == answer_at(log, at + 1)[0] && (step.ok
                ==> reads_at(log, at + 1, headset_at(c), 0x2C))
            &&& outcome_at(log, at) is Ok && answered_at(log, at + 1) ==> step.value is Ok
        }),
        ({
            let step = dnd_step(c, log, at, on);
            &&& step.ok ==> switches_at(log, at, headset_at(c), 0x27, on)
            &&& step.value matches Ok(now) ==> step.end == at + 2 && (now <==> answer_at(log, at + 1)[0] != 0) && (
            step.ok ==> reads_at(log, at + 1, headset_at(c), 0x27))
            &&& outcome_at(log, at) is Ok && answered_at(log, at + 1) ==> step.value is Ok
        }),
{
}

/// `sidetone` with a level writes it, and switches the sidetone on unless the
/// level is zero; with a word it only switches. What it tells is what the
/// headset then has.
pub proof fn sidetone_is_written_and_told(c: Setting, log: Seq<Entry>, at: int, level: u8, on: bool)
    requires
        level <= 15,
    ensures
        ({
            let step = sidetone_step(c, log, at, Sidetone::Level(level));
            &&& step.ok ==> sends_at(log, at, headset_at(c), 0x19, seq![level])
            &&& step.ok && level > 0 && outcome_at(log, at) is Ok ==> switches_at(
                log,
                at + 1,
                headset_at(c),
                0x18,
                true,
            )
            &&& step.value matches Ok((now, volume)) ==> {
                &&& step.end == at + (if level > 0 {
                    4int
                } else {
                    3int
                })
                &&& step.ok ==> reads_at(log, step.end - 2, headset_at(c), 0x18) && reads_at(
                    log,
                    step.end - 1,
                    headset_at(c),
                    0x19,
                )
                &&& now <==> answer_at(log, step.end - 2)[0] != 0
                &&& answer_at(log, step.end - 1)[0] <= 15 ==> volume == answer_at(log, step.end - 1)[0]
            }
        }),
        ({
            let step = sidetone_step(c, log, at, Sidetone::Switch(on));
            &&& step.ok ==> switches_at(log, at, headset_at(c), 0x18, on)
            &&& step.value matches Ok((now, volume)) ==> {
                &&& step.end == at + 3
                &&& step.ok ==> reads_at(log, at + 1, headset_at(c), 0x18) && reads_at(
                    log,
                    at + 2,
                    headset_at(c),
                    0x19,
                )
                &&& now <==> answer_at(log, at + 1)[0] != 0
                &&& answer_at(log, at + 2)[0] <= 15 ==> volume == answer_at(log, at + 2)[0]
            }
        }),
{
}

/// `led` writes the mode to the dongle and tells the mode that it then has.
pub proof fn led_is_written_and_told(c: Setting, log: Seq<Entry>, at: int, mode: LedMode)
    requires
        c.connection is Dongle,
    ensures
        ({
            let step = led_command_step(c, log, at, mode);
            &&& step.ok ==> sends_at(log, at, 0x00, 0x66, seq![mode.raw_of()])
            &&& step.value matches Ok(key) ==> step.end == at + 2 && key == LedMode::of_raw(
                answer_at(log, at + 1)[0],
            ).key_of() && (step.ok ==> reads_at(log, at + 1, 0x00, 0x66))
            &&& outcome_at(log, at) is Ok && answered_at(log, at + 1) ==> step.value is Ok
        }),
{
}

/// `eq` tells preset, curve, equalizer and enhancement as they were answered.
pub proof fn eq_tells_the_answers(c: Setting, log: Seq<Entry>, at: int)
    ensures
        ({
            let step = eq_report_step(c, log, at);
            step.value matches Ok(report) ==> {
                &&& step.end == at + 4
                &&& step.ok ==> reads_at(log, at, headset_at(c), 0x13) && reads_at(log, at + 1, headset_at(c), 0x15)
                    && reads_at(log, at + 2, headset_at(c), 0x1E) && reads_at(log, at + 3, headset_at(c), 0x1D)
                &&& report.preset == HardwarePreset::of_raw(answer_at(log, at)[0])
                &&& curve_of(answer_at(log, at + 1)) == Some(report.custom)
                &&& report.enabled <==> answer_at(log, at + 2)[0] != 0
                &&& report.enhancement <==> answer_at(log, at + 3)[0] != 0
            }
        }),
        answered_at(log, at) && answered_at(log, at + 1) && answer_at(log, at + 1).len() >= 10 && answered_at(
            log,
            at + 2,
        ) && answered_at(log, at + 3) ==> eq_report_step(c, log, at).value is Ok,
{
}

/// One round of `monitor` through a dongle tells what the dongle says of the
/// link, and the battery of a headset that is there.
pub proof fn monitor_tells_the_answers(c: Setting, log: Seq<Entry>, at: int)
    requires
        c.connection is Dongle,
        answered_at(log, at),
    ensures
        ({
            let step = monitor_step(c, log, at);
            &&& step.ok ==> reads_at(log, at, 0x00, 0x20)
            &&& step.value matches Ok((up, battery)) && (up <==> answer_at(log, at)[0] != 0) && (!up ==> battery is None
                && step.end == at + 1) && (up ==> step.end == at + 2)
            &&& answer_at(log, at)[0] != 0 && step.ok ==> reads_at(log, at + 1, 0x80, 0x21)
            &&& answer_at(log, at)[0] != 0 && answered_at(log, at + 1) && answer_at(log, at + 1)[0] <= 100
                ==> step.value->Ok_0.1 == Some(answer_at(log, at + 1)[0])
        }),
{
}

/// A command that needs the headset goes on exactly if it is there.
pub proof fn offline_headsets_are_reported(c: Setting, log: Seq<Entry>, at: int)
    ensures
        c.connection is Wired ==> online_step(c, log, at).value is Ok && online_step(c, log, at).end == at,
        c.connection is Dongle && answered_at(log, at) ==> ({
            let step = online_step(c, log, at);
            &&& step.value is Ok <==> answer_at(log, at)[0] != 0
            &&& answer_at(log, at)[0] == 0 ==> step.value == Err::<(), ErrorView>(ErrorView::HeadsetOffline)
        }),
{
}

/// Is the next poll of the monitor due? If so, when the one after it is.
pub fn monitor_due(next_ms: u64, now_ms: u64, interval_ms: u64) -> (r: Option<u64>)
    ensures
        r == if now_ms >= next_ms {
            Some(sum(now_ms, interval_ms))
        } else {
            None
        },
        r is Some <==> next_ms <= now_ms,
        r matches Some(next) ==> next == u64::MAX || next - now_ms == interval_ms,
{
    if now_ms >= next_ms {
        Some(now_ms.saturating_add(interval_ms))
    } else {
        None
    }
}

pub fn monitor_poll<T: Transport>(dev: &mut BlackSharkV2Hs<T>) -> (r: Result<(bool, Option<u8>), Error>)
    requires
        old(dev).wf(),
    ensures
        ({
            let step = monitor_step(old(dev).setting(), final(dev).log(), old(dev).log().len() as int);
            &&& old(dev).performed(*final(dev), step)
            &&& err_view(r) == step.value
        }),
{
    let ghost at = dev.log().len() as int;
    if !dev.link_up()? {
        return Ok((false, None));
    }
    let ghost mid = *dev;
    let battery = dev.battery();
    proof {
        old(dev).used_on(mid, *dev);
        assert(continues(dev.log(), mid.log()));
        continues_on(dev.log(), mid.log(), old(dev).log());
        link_step_is_local(old(dev).setting(), mid.log(), dev.log(), at);
    }
    Ok(
        (
            true,
            match battery {
                Ok(level) => Some(level),
                Err(_) => None,
            },
        ),
    )
}

} // verus!
