//! The driver's operations: reading and writing the headset's settings.

use super::driver::{domain_of, BlackSharkV2Hs};
use super::exchange::{continues, continues_on};
use super::protocol::reg;
use super::protocol::{
    curve_of, eq_from_payload, eq_to_wire, firmware_text, format_firmware, format_serial, serial_text, Response,
    DOMAIN_LOCAL, SIDETONE_MAX,
};
use super::reading::{
    answer_at, capped_level, curve_step, done, got, got_byte, got_flag, link_step, optional_value, preset_step, reads_at, settled,
    Field, Step, CURVE_PAUSE_MS,
};
use super::state::LedMode;
use crate::devices::Connection;
use crate::eq::{Bands, HardwarePreset};
use crate::error::{Error, ErrorView};
use crate::hid::transport::Transport;
use crate::text::decimal;
use crate::views::{err_view, some_view};
use vstd::prelude::*;
use vstd::string::*;

verus! {

/// The view of a value that may be missing in a result.
pub open spec fn text_result(r: Result<Option<String>, Error>) -> Result<Option<Seq<char>>, ErrorView> {
    match r {
        Ok(text) => Ok(some_view(text)),
        Err(e) => Err(e@),
    }
}

/// Map "no answer" to `None`, keep real failures.
pub fn optional<V>(result: Result<V, Error>) -> (r: Result<Option<V>, Error>)
    ensures
        err_view(r) == optional_value(err_view(result)),
{
    match result {
        Ok(value) => Ok(Some(value)),
        Err(err) => {
            if err.is_timeout() {
                Ok(None)
            } else {
                Err(err)
            }
        },
    }
}

pub open spec fn serial_result(payload: Result<Seq<u8>, ErrorView>) -> Result<Option<Seq<char>>, ErrorView> {
    match payload {
        Ok(p) => Ok(serial_text(p)),
        Err(e) => Err(e),
    }
}

pub open spec fn firmware_result(payload: Result<Seq<u8>, ErrorView>) -> Result<Option<Seq<char>>, ErrorView> {
    match payload {
        Ok(p) => Ok(firmware_text(p)),
        Err(e) => Err(e),
    }
}

impl<T: Transport> BlackSharkV2Hs<T> {
    /// Is `next` this driver after the commands that `step` speaks of?
    pub open spec fn performed<V>(&self, next: Self, step: Step<V>) -> bool {
        &&& self.used(next)
        &&& continues(next.log(), self.log())
        &&& step.ok
        &&& step.end == next.log().len()
    }

    /// Is `next` this driver after it asked the headset for `register`, and for
    /// nothing else?
    pub open spec fn asks_headset(&self, next: Self, register: u8) -> bool {
        &&& next.log().len() == self.log().len() + 1
        &&& reads_at(
            next.log(),
            self.log().len() as int,
            if self.link() is Dongle {
                0x80
            } else {
                0x00
            },
            register,
        )
    }

    /// The first byte that was answered to the first command after this.
    pub open spec fn first_byte(&self, next: Self) -> u8 {
        answer_at(next.log(), self.log().len() as int)[0]
    }

    /// Ask for a register. An empty answer counts as none.
    pub fn get(&mut self, domain: u8, cmd: u8) -> (r: Result<Response, Error>)
        requires
            old(self).wf(),
        ensures
            old(self).asks(*final(self), domain, cmd, seq![]),
            match r {
                Ok(resp) => final(self).last_outcome() == Ok::<_, ErrorView>(resp@) && resp@.payload.len() > 0,
                Err(e) => got(final(self).last_outcome(), cmd) == Err::<Seq<u8>, ErrorView>(e@),
            },
    {
        let none: [u8; 0] = [];
        assert(none@ =~= seq![]);
        let resp = self.transact(domain, cmd, &none)?;
        if resp.payload.is_empty() {
            return Err(Error::EmptyResponse { cmd });
        }
        Ok(resp)
    }

    /// Ask for a register of one byte.
    pub fn get_u8(&mut self, domain: u8, cmd: u8) -> (r: Result<u8, Error>)
        requires
            old(self).wf(),
        ensures
            old(self).asks(*final(self), domain, cmd, seq![]),
            err_view(r) == got_byte(final(self).last_outcome(), cmd),
    {
        let resp = self.get(domain, cmd)?;
        Ok(resp.payload[0])
    }

    fn set_u8(&mut self, domain: u8, get_cmd: u8, value: u8) -> (r: Result<(), Error>)
        requires
            old(self).wf(),
        ensures
            old(self).asks(*final(self), domain, reg::set_command(get_cmd), seq![value]),
            err_view(r) == done(final(self).last_outcome()),
    {
        let params: [u8; 1] = [value];
        assert(params@ =~= seq![value]);
        let _ = self.transact(domain, reg::set(get_cmd), &params)?;
        Ok(())
    }

    fn headset_get_u8(&mut self, cmd: u8) -> (r: Result<u8, Error>)
        requires
            old(self).wf(),
        ensures
            old(self).asks(*final(self), domain_of(old(self).link()), cmd, seq![]),
            err_view(r) == got_byte(final(self).last_outcome(), cmd),
    {
        let domain: u8 = self.headset_domain();
        self.get_u8(domain, cmd)
    }

    fn headset_set_u8(&mut self, cmd: u8, value: u8) -> (r: Result<(), Error>)
        requires
            old(self).wf(),
        ensures
            old(self).asks(*final(self), domain_of(old(self).link()), reg::set_command(cmd), seq![value]),
            err_view(r) == done(final(self).last_outcome()),
    {
        let domain: u8 = self.headset_domain();
        self.set_u8(domain, cmd, value)
    }

    // ----- identity -------------------------------------------------------

    /// Is the headset reachable? Always true for a wired connection.
    pub fn link_up(&mut self) -> (r: Result<bool, Error>)
        requires
            old(self).wf(),
        ensures
            old(self).performed(
                *final(self),
                link_step(old(self).setting(), final(self).log(), old(self).log().len() as int),
            ),
            err_view(r) == link_step(old(self).setting(), final(self).log(), old(self).log().len() as int).value,
    {
        if self.connection() == Connection::Wired {
            return Ok(true);
        }
        let first = self.get_u8(DOMAIN_LOCAL, reg::LINK_STATUS);
        let ghost mid = *self;
        match first {
            Ok(v) => Ok(v != 0),
            Err(err) => {
                if !err.is_timeout() {
                    return Err(err);
                }
                // A dongle that does not answer this locally: ask the headset instead.
                let second = self.battery();
                proof {
                    assert(self.log()[old(self).log().len() as int] == mid.log().last());
                    continues_on(
                        self.channel().history(),
                        mid.channel().history(),
                        old(self).channel().history(),
                    );
                }
                match second {
                    Ok(_) => Ok(true),
                    Err(err) => {
                        if err.is_timeout() {
                            Ok(false)
                        } else {
                            Err(err)
                        }
                    },
                }
            },
        }
    }

    pub fn headset_serial(&mut self) -> (r: Result<Option<String>, Error>)
        requires
            old(self).wf(),
        ensures
            old(self).asks(*final(self), domain_of(old(self).link()), reg::SERIAL, seq![]),
            text_result(r) == serial_result(got(final(self).last_outcome(), reg::SERIAL)),
            old(self).asks_headset(*final(self), 0x00),
            r matches Ok(text) ==> some_view(text) == serial_text(answer_at(final(self).log(), old(self).log().len() as int)),
    {
        let domain: u8 = self.headset_domain();
        let resp = self.get(domain, reg::SERIAL)?;
        Ok(format_serial(resp.payload.as_slice()))
    }

    pub fn headset_firmware(&mut self) -> (r: Result<Option<String>, Error>)
        requires
            old(self).wf(),
        ensures
            old(self).asks(*final(self), domain_of(old(self).link()), reg::FIRMWARE, seq![]),
            text_result(r) == firmware_result(got(final(self).last_outcome(), reg::FIRMWARE)),
            old(self).asks_headset(*final(self), 0x02),
            r matches Ok(text) ==> some_view(text) == firmware_text(answer_at(final(self).log(), old(self).log().len() as int)),
    {
        let domain: u8 = self.headset_domain();
        let resp = self.get(domain, reg::FIRMWARE)?;
        Ok(format_firmware(resp.payload.as_slice()))
    }

    /// Serial of the dongle itself (`None` when wired).
    pub fn dongle_serial(&mut self) -> (r: Result<Option<String>, Error>)
        requires
            old(self).wf(),
        ensures
            old(self).link() == Connection::Wired ==> *final(self) == *old(self) && r == Ok::<Option<String>, Error>(None),
            old(self).link() == Connection::Dongle ==> {
                &&& old(self).asks(*final(self), DOMAIN_LOCAL, reg::SERIAL, seq![])
                &&& text_result(r) == serial_result(got(final(self).last_outcome(), reg::SERIAL))
                &&& reads_at(final(self).log(), old(self).log().len() as int, 0x00, 0x00)
                &&& r matches Ok(text) ==> some_view(text) == serial_text(
                    answer_at(final(self).log(), old(self).log().len() as int),
                )
            },
    {
        if self.connection() == Connection::Wired {
            return Ok(None);
        }
        let resp = self.get(DOMAIN_LOCAL, reg::SERIAL)?;
        Ok(format_serial(resp.payload.as_slice()))
    }

    /// Firmware of the dongle itself (`None` when wired).
    pub fn dongle_firmware(&mut self) -> (r: Result<Option<String>, Error>)
        requires
            old(self).wf(),
        ensures
            old(self).link() == Connection::Wired ==> *final(self) == *old(self) && r == Ok::<Option<String>, Error>(None),
            old(self).link() == Connection::Dongle ==> {
                &&& old(self).asks(*final(self), DOMAIN_LOCAL, reg::FIRMWARE, seq![])
                &&& text_result(r) == firmware_result(got(final(self).last_outcome(), reg::FIRMWARE))
                &&& reads_at(final(self).log(), old(self).log().len() as int, 0x00, 0x02)
                &&& r matches Ok(text) ==> some_view(text) == firmware_text(
                    answer_at(final(self).log(), old(self).log().len() as int),
                )
            },
    {
        if self.connection() == Connection::Wired {
            return Ok(None);
        }
        let resp = self.get(DOMAIN_LOCAL, reg::FIRMWARE)?;
        Ok(format_firmware(resp.payload.as_slice()))
    }

    // ----- power ----------------------------------------------------------

    pub fn battery(&mut self) -> (r: Result<u8, Error>)
        requires
            old(self).wf(),
        ensures
            old(self).asks(*final(self), domain_of(old(self).link()), reg::BATTERY, seq![]),
            err_view(r) == (match Field::Battery.read(final(self).last_outcome()) {
                Ok(payload) => Ok::<u8, ErrorView>(payload[0]),
                Err(e) => Err(e),
            }),
            old(self).asks_headset(*final(self), 0x21),
            r matches Ok(level) ==> level <= 100 && level == old(self).first_byte(*final(self)),
    {
        let level: u8 = self.headset_get_u8(reg::BATTERY)?;
        if level > 100 {
            let mut text = "battery level out of range: ".to_owned();
            text.append(decimal(level as u64).as_str());
            return Err(Error::Protocol(text));
        }
        Ok(level)
    }

    pub fn charging(&mut self) -> (r: Result<bool, Error>)
        requires
            old(self).wf(),
        ensures
            old(self).asks(*final(self), domain_of(old(self).link()), reg::CHARGING, seq![]),
            err_view(r) == got_flag(final(self).last_outcome(), reg::CHARGING),
            old(self).asks_headset(*final(self), 0x2A),
            r matches Ok(on) ==> (on <==> old(self).first_byte(*final(self)) != 0),
    {
        Ok(self.headset_get_u8(reg::CHARGING)? != 0)
    }

    /// Auto power-off after this many minutes of silence, 0 = never.
    pub fn sleep_minutes(&mut self) -> (r: Result<u8, Error>)
        requires
            old(self).wf(),
        ensures
            old(self).asks(*final(self), domain_of(old(self).link()), reg::SLEEP_TIMER, seq![]),
            err_view(r) == got_byte(final(self).last_outcome(), reg::SLEEP_TIMER),
            old(self).asks_headset(*final(self), 0x2C),
            r matches Ok(minutes) ==> minutes == old(self).first_byte(*final(self)),
    {
        self.headset_get_u8(reg::SLEEP_TIMER)
    }

    pub fn set_sleep_minutes(&mut self, minutes: u8) -> (r: Result<(), Error>)
        requires
            old(self).wf(),
        ensures
            old(self).asks(
                *final(self),
                domain_of(old(self).link()),
                reg::set_command(reg::SLEEP_TIMER),
                seq![minutes],
            ),
            err_view(r) == done(final(self).last_outcome()),
    {
        self.headset_set_u8(reg::SLEEP_TIMER, minutes)
    }

    // ----- microphone -----------------------------------------------------

    pub fn mic_muted(&mut self) -> (r: Result<bool, Error>)
        requires
            old(self).wf(),
        ensures
            old(self).asks(*final(self), domain_of(old(self).link()), reg::MIC_MUTE, seq![]),
            err_view(r) == got_flag(final(self).last_outcome(), reg::MIC_MUTE),
            old(self).asks_headset(*final(self), 0x55),
            r matches Ok(on) ==> (on <==> old(self).first_byte(*final(self)) != 0),
    {
        Ok(self.headset_get_u8(reg::MIC_MUTE)? != 0)
    }

    pub fn sidetone_enabled(&mut self) -> (r: Result<bool, Error>)
        requires
            old(self).wf(),
        ensures
            old(self).asks(*final(self), domain_of(old(self).link()), reg::SIDETONE, seq![]),
            err_view(r) == got_flag(final(self).last_outcome(), reg::SIDETONE),
            old(self).asks_headset(*final(self), 0x18),
            r matches Ok(on) ==> (on <==> old(self).first_byte(*final(self)) != 0),
    {
        Ok(self.headset_get_u8(reg::SIDETONE)? != 0)
    }

    pub fn set_sidetone_enabled(&mut self, on: bool) -> (r: Result<(), Error>)
        requires
            old(self).wf(),
        ensures
            old(self).asks(
                *final(self),
                domain_of(old(self).link()),
                reg::set_command(reg::SIDETONE),
                seq![if on { 1u8 } else { 0u8 }],
            ),
            err_view(r) == done(final(self).last_outcome()),
    {
        self.headset_set_u8(
            reg::SIDETONE,
            if on {
                1
            } else {
                0
            },
        )
    }

    /// Sidetone volume 0..=15.
    pub fn sidetone_level(&mut self) -> (r: Result<u8, Error>)
        requires
            old(self).wf(),
        ensures
            old(self).asks(*final(self), domain_of(old(self).link()), reg::SIDETONE_LEVEL, seq![]),
            err_view(r) == (match got_byte(final(self).last_outcome(), reg::SIDETONE_LEVEL) {
                Ok(level) => Ok::<u8, ErrorView>(capped_level(level)),
                Err(e) => Err(e),
            }),
            old(self).asks_headset(*final(self), 0x19),
            r matches Ok(level) ==> level <= 15 && level <= old(self).first_byte(*final(self)) && (level < 15 ==> level
                == old(self).first_byte(*final(self))),
    {
        let level: u8 = self.headset_get_u8(reg::SIDETONE_LEVEL)?;
        Ok(
            if level < SIDETONE_MAX {
                level
            } else {
                SIDETONE_MAX
            },
        )
    }

    pub fn set_sidetone_level(&mut self, level: u8) -> (r: Result<(), Error>)
        requires
            old(self).wf(),
        ensures
            level > SIDETONE_MAX ==> *final(self) == *old(self) && err_view(r) == Err::<(), ErrorView>(
                ErrorView::InvalidArgument("sidetone level must be 0..=15"@),
            ),
            level <= SIDETONE_MAX ==> {
                &&& old(self).asks(
                    *final(self),
                    domain_of(old(self).link()),
                    reg::set_command(reg::SIDETONE_LEVEL),
                    seq![level],
                )
                &&& err_view(r) == done(final(self).last_outcome())
            },
    {
        if level > SIDETONE_MAX {
            return Err(Error::InvalidArgument("sidetone level must be 0..=15".to_owned()));
        }
        self.headset_set_u8(reg::SIDETONE_LEVEL, level)
    }

    // ----- misc -----------------------------------------------------------

    /// Block Bluetooth calls while the 2.4 GHz link is active.
    pub fn bt_dnd(&mut self) -> (r: Result<bool, Error>)
        requires
            old(self).wf(),
        ensures
            old(self).asks(*final(self), domain_of(old(self).link()), reg::BT_DND, seq![]),
            err_view(r) == got_flag(final(self).last_outcome(), reg::BT_DND),
            old(self).asks_headset(*final(self), 0x27),
            r matches Ok(on) ==> (on <==> old(self).first_byte(*final(self)) != 0),
    {
        Ok(self.headset_get_u8(reg::BT_DND)? != 0)
    }

    pub fn set_bt_dnd(&mut self, on: bool) -> (r: Result<(), Error>)
        requires
            old(self).wf(),
        ensures
            old(self).asks(
                *final(self),
                domain_of(old(self).link()),
                reg::set_command(reg::BT_DND),
                seq![if on { 1u8 } else { 0u8 }],
            ),
            err_view(r) == done(final(self).last_outcome()),
    {
        self.headset_set_u8(
            reg::BT_DND,
            if on {
                1
            } else {
                0
            },
        )
    }

    /// Mode of the dongle LED (`None` when wired).
    pub fn led_mode(&mut self) -> (r: Result<Option<LedMode>, Error>)
        requires
            old(self).wf(),
        ensures
            old(self).link() == Connection::Wired ==> *final(self) == *old(self) && r == Ok::<Option<LedMode>, Error>(None),
            old(self).link() == Connection::Dongle ==> {
                &&& old(self).asks(*final(self), DOMAIN_LOCAL, reg::DONGLE_LED, seq![])
                &&& err_view(r) == (match got_byte(final(self).last_outcome(), reg::DONGLE_LED) {
                    Ok(raw) => Ok::<_, ErrorView>(Some(LedMode::of_raw(raw))),
                    Err(e) => Err(e),
                })
            },
    {
        if self.connection() == Connection::Wired {
            return Ok(None);
        }
        let raw: u8 = self.get_u8(DOMAIN_LOCAL, reg::DONGLE_LED)?;
        Ok(Some(LedMode::from_raw(raw)))
    }

    pub fn set_led_mode(&mut self, mode: LedMode) -> (r: Result<(), Error>)
        requires
            old(self).wf(),
        ensures
            old(self).link() == Connection::Wired ==> *final(self) == *old(self) && err_view(r) == Err::<
                (),
                ErrorView,
            >(ErrorView::InvalidArgument("the dongle LED can only be set through the dongle"@)),
            old(self).link() == Connection::Dongle ==> {
                &&& old(self).asks(
                    *final(self),
                    DOMAIN_LOCAL,
                    reg::set_command(reg::DONGLE_LED),
                    seq![mode.raw_of()],
                )
                &&& err_view(r) == done(final(self).last_outcome())
            },
    {
        if self.connection() == Connection::Wired {
            return Err(
                Error::InvalidArgument("the dongle LED can only be set through the dongle".to_owned()),
            );
        }
        self.set_u8(DOMAIN_LOCAL, reg::DONGLE_LED, mode.raw())
    }

    // ----- equalizer ------------------------------------------------------

    pub fn eq_preset(&mut self) -> (r: Result<HardwarePreset, Error>)
        requires
            old(self).wf(),
        ensures
            old(self).asks(*final(self), domain_of(old(self).link()), reg::EQ_PRESET, seq![]),
            err_view(r) == (match got_byte(final(self).last_outcome(), reg::EQ_PRESET) {
                Ok(raw) => Ok::<HardwarePreset, ErrorView>(HardwarePreset::of_raw(raw)),
                Err(e) => Err(e),
            }),
            old(self).asks_headset(*final(self), 0x13),
            r matches Ok(preset) ==> preset == HardwarePreset::of_raw(old(self).first_byte(*final(self))),
    {
        let raw: u8 = self.headset_get_u8(reg::EQ_PRESET)?;
        Ok(HardwarePreset::from_raw(raw))
    }

    /// Curve stored in the Custom slot, in dB (independent of the active preset).
    pub fn custom_eq(&mut self) -> (r: Result<Bands, Error>)
        requires
            old(self).wf(),
        ensures
            old(self).asks(*final(self), domain_of(old(self).link()), reg::EQ_BANDS, seq![]),
            err_view(r) == (match Field::CustomEq.read(final(self).last_outcome()) {
                Ok(payload) => Ok::<Bands, ErrorView>(curve_of(payload)->0),
                Err(e) => Err(e),
            }),
            old(self).asks_headset(*final(self), 0x15),
    {
        let domain: u8 = self.headset_domain();
        let resp = self.get(domain, reg::EQ_BANDS)?;
        match eq_from_payload(resp.payload.as_slice()) {
            Some(bands) => Ok(bands),
            None => {
                let mut text = "EQ reply has ".to_owned();
                text.append(decimal(resp.payload.len() as u64).as_str());
                text.append(" bytes");
                Err(Error::Protocol(text))
            },
        }
    }

    pub fn eq_enabled(&mut self) -> (r: Result<bool, Error>)
        requires
            old(self).wf(),
        ensures
            old(self).asks(*final(self), domain_of(old(self).link()), reg::EQ_ENABLE, seq![]),
            err_view(r) == got_flag(final(self).last_outcome(), reg::EQ_ENABLE),
            old(self).asks_headset(*final(self), 0x1E),
            r matches Ok(on) ==> (on <==> old(self).first_byte(*final(self)) != 0),
    {
        Ok(self.headset_get_u8(reg::EQ_ENABLE)? != 0)
    }

    pub fn set_eq_enabled(&mut self, on: bool) -> (r: Result<(), Error>)
        requires
            old(self).wf(),
        ensures
            old(self).asks(
                *final(self),
                domain_of(old(self).link()),
                reg::set_command(reg::EQ_ENABLE),
                seq![if on { 1u8 } else { 0u8 }],
            ),
            err_view(r) == done(final(self).last_outcome()),
    {
        self.headset_set_u8(
            reg::EQ_ENABLE,
            if on {
                1
            } else {
                0
            },
        )
    }

    /// "Audio enhancement" (a bass/spatial expander in the DSP).
    pub fn enhancement(&mut self) -> (r: Result<bool, Error>)
        requires
            old(self).wf(),
        ensures
            old(self).asks(*final(self), domain_of(old(self).link()), reg::ENHANCEMENT, seq![]),
            err_view(r) == got_flag(final(self).last_outcome(), reg::ENHANCEMENT),
            old(self).asks_headset(*final(self), 0x1D),
            r matches Ok(on) ==> (on <==> old(self).first_byte(*final(self)) != 0),
    {
        Ok(self.headset_get_u8(reg::ENHANCEMENT)? != 0)
    }

    pub fn set_enhancement(&mut self, on: bool) -> (r: Result<(), Error>)
        requires
            old(self).wf(),
        ensures
            old(self).asks(
                *final(self),
                domain_of(old(self).link()),
                reg::set_command(reg::ENHANCEMENT),
                seq![if on { 1u8 } else { 0u8 }],
            ),
            err_view(r) == done(final(self).last_outcome()),
    {
        self.headset_set_u8(
            reg::ENHANCEMENT,
            if on {
                1
            } else {
                0
            },
        )
    }

    /// Select a preset slot and make sure the EQ stage is enabled.
    /// The enhancement flag is left as it is (selecting a preset does not
    /// change it; verified on hardware).
    pub fn select_preset(&mut self, preset: HardwarePreset) -> (r: Result<(), Error>)
        requires
            old(self).wf(),
        ensures
            old(self).performed(
                *final(self),
                preset_step(old(self).setting(), final(self).log(), old(self).log().len() as int, preset),
            ),
            err_view(r) == preset_step(
                old(self).setting(),
                final(self).log(),
                old(self).log().len() as int,
                preset,
            ).value,
    {
        self.headset_set_u8(reg::EQ_PRESET, preset.raw())?;
        let ghost mid = *self;
        let r = self.set_eq_enabled(true);
        proof {
            old(self).used_on(mid, *self);
            assert(self.log()[old(self).log().len() as int] == mid.log().last());
        }
        r
    }

    /// Write `bands` (dB) into the custom slot and make it the live curve.
    ///
    /// The order matters: the EQ stage must be enabled, the slot selected,
    /// the curve written and the slot re-selected so the DSP picks up the
    /// freshly written values.
    pub fn apply_custom_eq(&mut self, bands: &Bands) -> (r: Result<(), Error>)
        requires
            old(self).wf(),
        ensures
            old(self).performed(
                *final(self),
                curve_step(old(self).setting(), final(self).log(), old(self).log().len() as int, *bands),
            ),
            err_view(r) == curve_step(
                old(self).setting(),
                final(self).log(),
                old(self).log().len() as int,
                *bands,
            ).value,
    {
        let ghost at = self.log().len() as int;
        let wire = eq_to_wire(bands);
        self.set_eq_enabled(true)?;
        let ghost enabled = *self;
        let selected = self.headset_set_u8(reg::EQ_PRESET, HardwarePreset::Custom.raw());
        let ghost first = *self;
        proof {
            old(self).used_on(enabled, first);
            assert(first.log()[at] == enabled.log()[at]);
        }
        selected?;
        let domain: u8 = self.headset_domain();
        let written = self.transact(domain, reg::set(reg::EQ_BANDS), &wire);
        let ghost second = *self;
        proof {
            old(self).used_on(first, second);
            assert(second.log()[at] == first.log()[at]);
            assert(second.log()[at + 1] == first.log()[at + 1]);
        }
        if let Err(e) = written {
            return Err(e);
        }
        self.pause(CURVE_PAUSE_MS);
        let ghost third = *self;
        let r = self.headset_set_u8(reg::EQ_PRESET, HardwarePreset::Custom.raw());
        proof {
            old(self).used_on(second, third);
            old(self).used_on(third, *self);
            assert(third.log()[at] == second.log()[at]);
            assert(third.log()[at + 1] == second.log()[at + 1]);
            assert(third.log()[at + 2] == second.log()[at + 2]);
            assert(self.log()[at] == third.log()[at]);
            assert(self.log()[at + 1] == third.log()[at + 1]);
            assert(self.log()[at + 2] == third.log()[at + 2]);
            assert(self.log()[at + 3] == third.log()[at + 3]);
        }
        r
    }

    // ----- bulk -----------------------------------------------------------

    /// Settle one headset read. An unanswered register is `None` as long as
    /// the headset is still linked; otherwise the headset is reported offline.
    pub fn try_read<V>(&mut self, read: Result<V, Error>) -> (r: Result<Option<V>, Error>)
        requires
            old(self).wf(),
        ensures
            old(self).performed(
                *final(self),
                settled(old(self).setting(), final(self).log(), old(self).log().len() as int, err_view(read)),
            ),
            err_view(r) == settled(
                old(self).setting(),
                final(self).log(),
                old(self).log().len() as int,
                err_view(read),
            ).value,
    {
        match read {
            Ok(value) => Ok(Some(value)),
            // One odd value (e.g. battery 0xFF while booting) must not abort the whole refresh.
            Err(Error::Protocol(_)) => Ok(None),
            Err(err) => {
                if err.is_timeout() {
                    if self.link_up()? {
                        Ok(None)
                    } else {
                        Err(Error::HeadsetOffline)
                    }
                } else {
                    Err(err)
                }
            },
        }
    }
}

} // verus!
