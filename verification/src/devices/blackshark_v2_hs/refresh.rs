//! Bulk reads: bringing a [`HeadsetState`] up to date.

use super::driver::BlackSharkV2Hs;
use super::exchange::{continues_on, Entry};
use super::headset::optional;
use super::protocol::reg;
use super::protocol::{
    eq_from_payload, firmware_text, format_firmware, format_serial, serial_text, DOMAIN_LOCAL, SIDETONE_MAX,
};
use super::reading::{
    begin, byte_of, dongle_fields, eq_fields, field_step, fields_after_failure, fields_step,
    fields_step_is_local, flag_of, headset_fields, link_step_is_local, settled, state_step, status_fields,
    Field, Refresh, Setting,
};
use super::state::{HeadsetState, LedMode, StateView};
use crate::devices::Connection;
use crate::eq::{HardwarePreset, BAND_COUNT};
use crate::error::{Error, ErrorView};
use crate::hid::transport::Transport;
use crate::text::decimal;
use crate::views::{both_view, err_view, some_view};
use vstd::prelude::*;
use vstd::string::*;

verus! {

impl Field {
    fn number(self) -> (r: u8)
        ensures
            r == self.register(),
    {
        match self {
            Field::HeadsetSerial | Field::DongleSerial => reg::SERIAL,
            Field::HeadsetFirmware | Field::DongleFirmware => reg::FIRMWARE,
            Field::Battery => reg::BATTERY,
            Field::Charging => reg::CHARGING,
            Field::MicMuted => reg::MIC_MUTE,
            Field::SleepMinutes => reg::SLEEP_TIMER,
            Field::BtDnd => reg::BT_DND,
            Field::SidetoneEnabled => reg::SIDETONE,
            Field::SidetoneLevel => reg::SIDETONE_LEVEL,
            Field::EqEnabled => reg::EQ_ENABLE,
            Field::Enhancement => reg::ENHANCEMENT,
            Field::EqPreset => reg::EQ_PRESET,
            Field::CustomEq => reg::EQ_BANDS,
            Field::LedMode => reg::DONGLE_LED,
        }
    }

    fn on_dongle(self) -> (r: bool)
        ensures
            r == self.of_dongle(),
    {
        matches!(self, Field::DongleSerial | Field::DongleFirmware | Field::LedMode)
    }
}

fn first_byte(payload: &Option<Vec<u8>>) -> (r: Option<u8>)
    requires
        payload matches Some(p) ==> p@.len() > 0,
    ensures
        r == byte_of(some_view(*payload)),
{
    match payload {
        Some(p) => Some(p[0]),
        None => None,
    }
}

fn first_flag(payload: &Option<Vec<u8>>) -> (r: Option<bool>)
    requires
        payload matches Some(p) ==> p@.len() > 0,
    ensures
        r == flag_of(some_view(*payload)),
{
    match payload {
        Some(p) => Some(p[0] != 0),
        None => None,
    }
}

fn as_serial(payload: &Option<Vec<u8>>) -> (r: Option<String>)
    ensures
        some_view(r) == (match some_view(*payload) {
            Some(p) => serial_text(p),
            None => None,
        }),
{
    match payload {
        Some(p) => format_serial(p.as_slice()),
        None => None,
    }
}

fn as_firmware(payload: &Option<Vec<u8>>) -> (r: Option<String>)
    ensures
        some_view(r) == (match some_view(*payload) {
            Some(p) => firmware_text(p),
            None => None,
        }),
{
    match payload {
        Some(p) => format_firmware(p.as_slice()),
        None => None,
    }
}

/// Store a value that was read, or forget it if it was not.
fn store(state: &mut HeadsetState, field: Field, payload: Option<Vec<u8>>)
    requires
        payload matches Some(p) ==> p@.len() > 0,
    ensures
        final(state)@ == field.stored(old(state)@, some_view(payload)),
{
    match field {
        Field::HeadsetSerial => state.headset_serial = as_serial(&payload),
        Field::HeadsetFirmware => state.headset_firmware = as_firmware(&payload),
        Field::DongleSerial => state.dongle_serial = as_serial(&payload),
        Field::DongleFirmware => state.dongle_firmware = as_firmware(&payload),
        Field::Battery => state.battery = first_byte(&payload),
        Field::Charging => state.charging = first_flag(&payload),
        Field::MicMuted => state.mic_muted = first_flag(&payload),
        Field::SleepMinutes => state.sleep_minutes = first_byte(&payload),
        Field::BtDnd => state.bt_dnd = first_flag(&payload),
        Field::SidetoneEnabled => state.sidetone_enabled = first_flag(&payload),
        Field::SidetoneLevel => {
            state.sidetone_level = match first_byte(&payload) {
                Some(v) => Some(
                    if v < SIDETONE_MAX {
                        v
                    } else {
                        SIDETONE_MAX
                    },
                ),
                None => None,
            };
        },
        Field::EqEnabled => state.eq_enabled = first_flag(&payload),
        Field::Enhancement => state.enhancement = first_flag(&payload),
        Field::EqPreset => {
            state.eq_preset = match first_byte(&payload) {
                Some(v) => Some(HardwarePreset::from_raw(v)),
                None => None,
            };
        },
        Field::CustomEq => {
            state.custom_eq = match &payload {
                Some(p) => eq_from_payload(p.as_slice()),
                None => None,
            };
        },
        Field::LedMode => {
            state.led_mode = match first_byte(&payload) {
                Some(v) => Some(LedMode::from_raw(v)),
                None => None,
            };
        },
    }
}

/// What a read comes to does not depend on how its value is written down.
proof fn settled_alike<V, W>(
    c: Setting,
    log: Seq<Entry>,
    at: int,
    a: Result<V, ErrorView>,
    b: Result<W, ErrorView>,
)
    requires
        a is Ok <==> b is Ok,
        a is Err ==> a->Err_0 == b->Err_0,
    ensures
        settled(c, log, at, a).ok == settled(c, log, at, b).ok,
        settled(c, log, at, a).end == settled(c, log, at, b).end,
        match (settled(c, log, at, a).value, settled(c, log, at, b).value) {
            (Ok(Some(v)), Ok(Some(w))) => a == Ok::<V, ErrorView>(v) && b == Ok::<W, ErrorView>(w),
            (Ok(None), Ok(None)) => true,
            (Err(e), Err(f)) => e == f,
            _ => false,
        },
{
}

impl<T: Transport> BlackSharkV2Hs<T> {
    /// Ask for one value; one that makes no sense is a protocol error.
    fn read_value(&mut self, field: Field) -> (r: Result<Vec<u8>, Error>)
        requires
            old(self).wf(),
        ensures
            old(self).asks(*final(self), field.domain(old(self).link()), field.register(), seq![]),
            both_view(r) == field.read(final(self).last_outcome()),
            r matches Ok(p) ==> p@.len() > 0,
    {
        let domain: u8 = if field.on_dongle() {
            DOMAIN_LOCAL
        } else {
            self.headset_domain()
        };
        let resp = self.get(domain, field.number())?;
        let payload = resp.payload;
        if matches!(field, Field::Battery) && payload[0] > 100 {
            let mut text = "battery level out of range: ".to_owned();
            text.append(decimal(payload[0] as u64).as_str());
            return Err(Error::Protocol(text));
        }
        if matches!(field, Field::CustomEq) && payload.len() < BAND_COUNT {
            let mut text = "EQ reply has ".to_owned();
            text.append(decimal(payload.len() as u64).as_str());
            text.append(" bytes");
            return Err(Error::Protocol(text));
        }
        Ok(payload)
    }

    /// Bring one value of `state` up to date.
    fn refresh_field(&mut self, field: Field, state: &mut HeadsetState) -> (r: Result<(), Error>)
        requires
            old(self).wf(),
        ensures
            ({
                let step = field_step(
                    old(self).setting(),
                    final(self).log(),
                    begin(old(self).log().len() as int, old(state)@),
                    field,
                );
                &&& old(self).performed(*final(self), step)
                &&& step.value == (Refresh { state: final(state)@, result: err_view(r) })
            }),
    {
        let ghost at = self.log().len() as int;
        let read = self.read_value(field);
        let ghost asked = *self;
        let ghost seen = both_view(read);
        let ghost seen_err = err_view(read);
        let settled = if field.on_dongle() {
            optional(read)
        } else {
            let t = self.try_read(read);
            proof {
                settled_alike(self.setting(), self.log(), at + 1, seen, seen_err);
                assert(self.log()[at] == asked.log()[at]);
                old(self).used_on(asked, *self);
                continues_on(self.log(), asked.log(), old(self).log());
            }
            t
        };
        match settled {
            Ok(payload) => {
                store(state, field, payload);
                Ok(())
            },
            Err(e) => Err(e),
        }
    }

    /// Read one value into `state`; it stays as it is if that fails.
    pub fn read_field(&mut self, field: Field, state: &mut HeadsetState) -> (r: Result<(), Error>)
        requires
            old(self).wf(),
        ensures
            old(self).asks(*final(self), field.domain(old(self).link()), field.register(), seq![]),
            match field.read(final(self).last_outcome()) {
                Ok(payload) => r is Ok && final(state)@ == field.stored(old(state)@, Some(payload)),
                Err(e) => err_view(r) == Err::<(), ErrorView>(e) && final(state)@ == old(state)@,
            },
    {
        let payload = self.read_value(field)?;
        store(state, field, Some(payload));
        Ok(())
    }

    /// Bring several values of `state` up to date.
    fn refresh_fields(&mut self, fields: &[Field], state: &mut HeadsetState) -> (r: Result<(), Error>)
        requires
            old(self).wf(),
        ensures
            ({
                let step = fields_step(
                    old(self).setting(),
                    final(self).log(),
                    begin(old(self).log().len() as int, old(state)@),
                    fields@,
                );
                &&& old(self).performed(*final(self), step)
                &&& step.value == (Refresh { state: final(state)@, result: err_view(r) })
            }),
    {
        let ghost c = self.setting();
        let ghost first = begin(self.log().len() as int, state@);
        let mut i: usize = 0;
        while i < fields.len()
            invariant
                i <= fields@.len(),
                c == old(self).setting(),
                first == begin(old(self).log().len() as int, old(state)@),
                old(self).performed(*self, fields_step(c, self.log(), first, fields@.take(i as int))),
                fields_step(c, self.log(), first, fields@.take(i as int)).value == (Refresh {
                    state: state@,
                    result: Ok(()),
                }),
            decreases fields@.len() - i,
        {
            let ghost mid = *self;
            let ghost done = fields_step(c, self.log(), first, fields@.take(i as int));
            assert(done == begin(self.log().len() as int, state@));
            let r = self.refresh_field(fields[i], state);
            proof {
                old(self).used_on(mid, *self);
                continues_on(self.log(), mid.log(), old(self).log());
                fields_step_is_local(c, mid.log(), self.log(), first, fields@.take(i as int));
                let more = fields@.take(i + 1);
                assert(more.drop_last() =~= fields@.take(i as int));
                if r is Err {
                    fields_after_failure(c, self.log(), first, fields@, i + 1);
                }
            }
            if let Err(e) = r {
                return Err(e);
            }
            i += 1;
        }
        assert(fields@.take(i as int) =~= fields@);
        Ok(())
    }

    /// Dongle identity and LED. Unanswered registers are left as `None`.
    pub fn refresh_dongle(&mut self, state: &mut HeadsetState) -> (r: Result<(), Error>)
        requires
            old(self).wf(),
        ensures
            ({
                let step = fields_step(
                    old(self).setting(),
                    final(self).log(),
                    begin(old(self).log().len() as int, old(state)@),
                    dongle_fields(old(self).link()),
                );
                &&& old(self).performed(*final(self), step)
                &&& step.value == (Refresh { state: final(state)@, result: err_view(r) })
            }),
    {
        if self.connection() == Connection::Wired {
            return Ok(());
        }
        let fields: [Field; 3] = [Field::DongleSerial, Field::DongleFirmware, Field::LedMode];
        assert(fields@ =~= dongle_fields(self.link()));
        self.refresh_fields(&fields, state)
    }

    /// Every headset register. Fails with [`Error::HeadsetOffline`] when the
    /// headset stops answering altogether (powered off mid-way).
    pub fn refresh_headset(&mut self, state: &mut HeadsetState) -> (r: Result<(), Error>)
        requires
            old(self).wf(),
        ensures
            ({
                let step = fields_step(
                    old(self).setting(),
                    final(self).log(),
                    begin(old(self).log().len() as int, old(state)@),
                    headset_fields(),
                );
                &&& old(self).performed(*final(self), step)
                &&& step.value == (Refresh { state: final(state)@, result: err_view(r) })
            }),
    {
        let fields: [Field; 13] = [
            Field::HeadsetSerial,
            Field::HeadsetFirmware,
            Field::Battery,
            Field::Charging,
            Field::MicMuted,
            Field::SleepMinutes,
            Field::BtDnd,
            Field::SidetoneEnabled,
            Field::SidetoneLevel,
            Field::EqEnabled,
            Field::Enhancement,
            Field::EqPreset,
            Field::CustomEq,
        ];
        assert(fields@ =~= headset_fields());
        self.refresh_fields(&fields, state)
    }

    /// Active preset and the Custom slot curve.
    pub fn refresh_eq(&mut self, state: &mut HeadsetState) -> (r: Result<(), Error>)
        requires
            old(self).wf(),
        ensures
            ({
                let step = fields_step(
                    old(self).setting(),
                    final(self).log(),
                    begin(old(self).log().len() as int, old(state)@),
                    eq_fields(),
                );
                &&& old(self).performed(*final(self), step)
                &&& step.value == (Refresh { state: final(state)@, result: err_view(r) })
            }),
    {
        let fields: [Field; 2] = [Field::EqPreset, Field::CustomEq];
        assert(fields@ =~= eq_fields());
        self.refresh_fields(&fields, state)
    }

    /// The values that change on their own: battery, charging, mute button.
    pub fn refresh_status(&mut self, state: &mut HeadsetState) -> (r: Result<(), Error>)
        requires
            old(self).wf(),
        ensures
            ({
                let step = fields_step(
                    old(self).setting(),
                    final(self).log(),
                    begin(old(self).log().len() as int, old(state)@),
                    status_fields(),
                );
                &&& old(self).performed(*final(self), step)
                &&& step.value == (Refresh { state: final(state)@, result: err_view(r) })
            }),
    {
        let fields: [Field; 3] = [Field::Battery, Field::Charging, Field::MicMuted];
        assert(fields@ =~= status_fields());
        self.refresh_fields(&fields, state)
    }

    /// Read everything the device reports.
    pub fn read_state(&mut self) -> (r: Result<HeadsetState, Error>)
        requires
            old(self).wf(),
        ensures
            old(self).performed(
                *final(self),
                state_step(old(self).setting(), final(self).log(), old(self).log().len() as int),
            ),
            both_view(r) == state_step(
                old(self).setting(),
                final(self).log(),
                old(self).log().len() as int,
            ).value,
    {
        let ghost c = self.setting();
        let ghost first = begin(self.log().len() as int, StateView::unknown());
        let mut state = HeadsetState::default();
        self.refresh_dongle(&mut state)?;
        let ghost dongle = *self;
        let ghost told = state@;
        let up = self.link_up();
        let ghost linked = *self;
        proof {
            old(self).used_on(dongle, linked);
            continues_on(linked.log(), dongle.log(), old(self).log());
            fields_step_is_local(c, dongle.log(), linked.log(), first, dongle_fields(c.connection));
        }
        let up = up?;
        state.link_up = Some(up);
        if up {
            let r = self.refresh_headset(&mut state);
            proof {
                old(self).used_on(linked, *self);
                continues_on(self.log(), linked.log(), old(self).log());
                continues_on(self.log(), linked.log(), dongle.log());
                fields_step_is_local(c, dongle.log(), self.log(), first, dongle_fields(c.connection));
                link_step_is_local(c, linked.log(), self.log(), dongle.log().len() as int);
            }
            match r {
                Ok(_) => {},
                Err(Error::HeadsetOffline) => {
                    state.clear_headset();
                    state.link_up = Some(false);
                },
                Err(err) => return Err(err),
            }
        }
        Ok(state)
    }
}

} // verus!
