//! In-memory BlackShark V2 HyperSpeed used for tests and for trying the
//! applications without hardware (`SYNAPSE_LINUX_SIMULATE=1`).
//!
//! It answers like the real device does: replies echo the sequence byte and
//! command, EQ gains are stored with the -5 dB write offset, register 0x15
//! returns the Custom slot whatever preset is active, and nothing answers on
//! the RF domain while the headset link is down.

use super::protocol::reg;
use super::protocol::{
    decode_request, decoded_request, encode_response, response_frame, signed_byte, Request, RequestView,
    DOMAIN_HEADSET_RF, DOMAIN_LOCAL, EQ_WIRE_OFFSET, SIDETONE_MAX,
};
use crate::devices::Connection;
use crate::eq::{bands_from, bands_from_is, clamp_gain, clamped_gain, Bands, HardwarePreset, BAND_COUNT, FLAT};
use crate::error::{Error, ErrorView};
use crate::hid::transport::{read_outcome, Event, Transport};
use crate::text::{parse_unsigned, unsigned};
use crate::views::{err_view, some_view};
use std::collections::VecDeque;
use vstd::prelude::*;
use vstd::string::*;

verus! {

#[derive(Debug, Clone, Copy)]
pub struct Registers {
    pub headset_serial: &'static str,
    pub dongle_serial: &'static str,
    pub headset_fw: [u8; 4],
    pub dongle_fw: [u8; 4],
    pub battery: u8,
    pub charging: u8,
    pub sleep: u8,
    pub dnd: u8,
    pub mic_mute: u8,
    pub led: u8,
    pub sidetone: u8,
    pub sidetone_level: u8,
    pub preset: u8,
    pub custom: Bands,
    pub eq_enable: u8,
    pub enhancement: u8,
}

/// Curve in the Custom slot of a fresh simulator.
pub const INITIAL_CURVE: Bands = [2, 1, 0, 0, 0, 0, 0, 1, 2, 1];

pub const HEADSET_FIRMWARE: [u8; 4] = [1, 2, 0, 3];

pub const DONGLE_FIRMWARE: [u8; 4] = [1, 0, 4, 0];

impl Registers {
    pub open spec fn initial() -> Registers {
        Registers {
            headset_serial: "SIMHEADSET00001",
            dongle_serial: "SIMDONGLE000001",
            headset_fw: HEADSET_FIRMWARE,
            dongle_fw: DONGLE_FIRMWARE,
            battery: 76,
            charging: 0,
            sleep: 15,
            dnd: 0,
            mic_mute: 0,
            led: 1,
            sidetone: 0,
            sidetone_level: 5,
            preset: 0x08,
            custom: INITIAL_CURVE,
            eq_enable: 1,
            enhancement: 0,
        }
    }
}

impl Default for Registers {
    fn default() -> (r: Self)
        ensures
            r == Registers::initial(),
    {
        Registers {
            headset_serial: "SIMHEADSET00001",
            dongle_serial: "SIMDONGLE000001",
            headset_fw: HEADSET_FIRMWARE,
            dongle_fw: DONGLE_FIRMWARE,
            battery: 76,
            charging: 0,
            sleep: 15,
            dnd: 0,
            mic_mute: 0,
            led: 1,
            sidetone: 0,
            sidetone_level: 5,
            preset: HardwarePreset::Music.raw(),
            custom: INITIAL_CURVE,
            eq_enable: 1,
            enhancement: 0,
        }
    }
}

/// 1 for anything but 0.
pub open spec fn flag(v: u8) -> u8 {
    if v == 0 {
        0
    } else {
        1
    }
}

pub open spec fn at_most(v: u8, max: u8) -> u8 {
    if v < max {
        v
    } else {
        max
    }
}

/// A gain as the byte that register 0x15 reports.
pub open spec fn gain_byte(db: i8) -> u8 {
    if db < 0 {
        (db + 256) as u8
    } else {
        db as u8
    }
}

/// The curve that the DSP stores for ten written bytes.
pub open spec fn stored_curve(wire: Seq<u8>) -> Bands {
    bands_from(|i: int| clamped_gain(signed_byte(wire[i]) - EQ_WIRE_OFFSET))
}

/// What the dongle reports in one of its own registers.
pub open spec fn dongle_value(r: Registers, link_up: bool, register: u8) -> Option<Seq<u8>> {
    if register == reg::SERIAL {
        Some(r.dongle_serial.spec_bytes())
    } else if register == reg::FIRMWARE {
        Some(r.dongle_fw@)
    } else if register == reg::USB_PID {
        Some(seq![0x05u8, 0x65u8])
    } else if register == reg::LINK_STATUS {
        Some(seq![if link_up { 1u8 } else { 0u8 }])
    } else if register == reg::DONGLE_LED {
        Some(seq![r.led])
    } else {
        None
    }
}

/// What the headset reports in a register.
pub open spec fn headset_value(r: Registers, register: u8) -> Option<Seq<u8>> {
    if register == reg::SERIAL {
        Some(r.headset_serial.spec_bytes())
    } else if register == reg::FIRMWARE {
        Some(r.headset_fw@)
    } else if register == reg::USB_PID {
        Some(seq![0x05u8, 0x6Eu8])
    } else if register == reg::LINK_STATUS {
        Some(seq![1u8])
    } else if register == reg::BATTERY {
        Some(seq![r.battery])
    } else if register == reg::CHARGING {
        Some(seq![r.charging])
    } else if register == reg::SLEEP_TIMER {
        Some(seq![r.sleep])
    } else if register == reg::BT_DND {
        Some(seq![r.dnd])
    } else if register == reg::MIC_MUTE {
        Some(seq![r.mic_mute])
    } else if register == reg::SIDETONE {
        Some(seq![r.sidetone])
    } else if register == reg::SIDETONE_LEVEL {
        Some(seq![r.sidetone_level])
    } else if register == reg::EQ_PRESET {
        Some(seq![r.preset])
    } else if register == reg::EQ_ENABLE {
        Some(seq![r.eq_enable])
    } else if register == reg::ENHANCEMENT {
        Some(seq![r.enhancement])
    } else if register == reg::EQ_BANDS {
        Some(Seq::new(BAND_COUNT as nat, |i: int| gain_byte(r.custom@[i])))
    } else {
        None
    }
}

/// The dongle's registers after a write, if it accepts it.
pub open spec fn dongle_written(r: Registers, register: u8, params: Seq<u8>) -> Option<Registers> {
    if register == reg::DONGLE_LED && params.len() > 0 {
        Some(Registers { led: at_most(params[0], 3), ..r })
    } else {
        None
    }
}

/// The headset's registers after a write, if it accepts it. A preset slot it
/// does not know is accepted and ignored.
pub open spec fn headset_written(r: Registers, register: u8, params: Seq<u8>) -> Option<Registers> {
    if register == reg::EQ_BANDS {
        if params.len() < BAND_COUNT {
            None
        } else {
            Some(Registers { custom: stored_curve(params), ..r })
        }
    } else if params.len() == 0 {
        None
    } else if register == reg::SLEEP_TIMER {
        Some(Registers { sleep: params[0], ..r })
    } else if register == reg::BT_DND {
        Some(Registers { dnd: flag(params[0]), ..r })
    } else if register == reg::SIDETONE {
        Some(Registers { sidetone: flag(params[0]), ..r })
    } else if register == reg::SIDETONE_LEVEL {
        Some(Registers { sidetone_level: at_most(params[0], SIDETONE_MAX), ..r })
    } else if register == reg::EQ_ENABLE {
        Some(Registers { eq_enable: flag(params[0]), ..r })
    } else if register == reg::ENHANCEMENT {
        Some(Registers { enhancement: flag(params[0]), ..r })
    } else if register == reg::EQ_PRESET {
        if HardwarePreset::of_raw(params[0]) is Unknown {
            Some(r)
        } else {
            Some(Registers { preset: params[0], ..r })
        }
    } else {
        None
    }
}

/// Does a request in `domain` reach the headset?
pub open spec fn reaches_headset(connection: Connection, link_up: bool, domain: u8) -> bool {
    match connection {
        Connection::Wired => domain == DOMAIN_LOCAL,
        Connection::Dongle => domain == DOMAIN_HEADSET_RF && link_up,
    }
}

/// The registers after a request, and the payload of the reply; `None` when
/// the device stays silent. A write that is accepted is answered with one zero
/// byte.
pub open spec fn handled(connection: Connection, link_up: bool, r: Registers, q: RequestView) -> (
    Registers,
    Option<Seq<u8>>,
) {
    let register = reg::register(q.cmd);
    let dongle = connection == Connection::Dongle && q.domain == DOMAIN_LOCAL;
    if !dongle && !reaches_headset(connection, link_up, q.domain) {
        (r, None)
    } else if q.cmd < reg::SET {
        (
            r,
            if dongle {
                dongle_value(r, link_up, register)
            } else {
                headset_value(r, register)
            },
        )
    } else {
        let written = if dongle {
            dongle_written(r, register, q.params)
        } else {
            headset_written(r, register, q.params)
        };
        match written {
            Some(after) => (after, Some(seq![0u8])),
            None => (r, None),
        }
    }
}

/// What a linked headset holds in its registers is what it reports, and what
/// the dongle holds the dongle.
pub proof fn registers_are_reported(r: Registers, register: u8, connection: Connection)
    ensures
        ({
            let domain: u8 = if connection is Dongle {
                0x80
            } else {
                0x00
            };
            let q = RequestView { seq: 0, domain, cmd: register, params: seq![] };
            let told = handled(connection, true, r, q).1;
            &&& register == 0x21 ==> told == Some(seq![r.battery])
            &&& register == 0x2A ==> told == Some(seq![r.charging])
            &&& register == 0x55 ==> told == Some(seq![r.mic_mute])
            &&& register == 0x2C ==> told == Some(seq![r.sleep])
            &&& register == 0x27 ==> told == Some(seq![r.dnd])
            &&& register == 0x18 ==> told == Some(seq![r.sidetone])
            &&& register == 0x19 ==> told == Some(seq![r.sidetone_level])
            &&& register == 0x13 ==> told == Some(seq![r.preset])
            &&& register == 0x1E ==> told == Some(seq![r.eq_enable])
            &&& register == 0x1D ==> told == Some(seq![r.enhancement])
            &&& register == 0x00 ==> told == Some(r.headset_serial.spec_bytes())
            &&& register == 0x02 ==> told == Some(r.headset_fw@)
            &&& register == 0x15 ==> told is Some && told->0.len() == 10
            &&& register < 0x80 ==> handled(connection, true, r, q).0 == r
        }),
        ({
            let q = RequestView { seq: 0, domain: 0x00, cmd: register, params: seq![] };
            let told = |up: bool| handled(Connection::Dongle, up, r, q).1;
            &&& register == 0x00 ==> told(true) == Some(r.dongle_serial.spec_bytes()) && told(false) == told(true)
            &&& register == 0x02 ==> told(true) == Some(r.dongle_fw@) && told(false) == told(true)
            &&& register == 0x66 ==> told(true) == Some(seq![r.led]) && told(false) == told(true)
            &&& register == 0x20 ==> told(true) == Some(seq![1u8]) && told(false) == Some(seq![0u8])
        }),
{
}

/// What is written is held: switches as 0 or 1, numbers as they are up to the
/// register's limit. A write to anything else is not answered.
pub proof fn writes_are_held(r: Registers, register: u8, v: u8)
    ensures
        ({
            let after = headset_written(r, register, seq![v]);
            let switched: u8 = if v == 0 {
                0
            } else {
                1
            };
            &&& register == 0x2C ==> after == Some(Registers { sleep: v, ..r })
            &&& register == 0x27 ==> after == Some(Registers { dnd: switched, ..r })
            &&& register == 0x18 ==> after == Some(Registers { sidetone: switched, ..r })
            &&& register == 0x1E ==> after == Some(Registers { eq_enable: switched, ..r })
            &&& register == 0x1D ==> after == Some(Registers { enhancement: switched, ..r })
            &&& register == 0x19 && v <= 15 ==> after == Some(Registers { sidetone_level: v, ..r })
            &&& register == 0x19 && v > 15 ==> after == Some(Registers { sidetone_level: 15, ..r })
            &&& register == 0x21 || register == 0x2A || register == 0x55 || register == 0x00 || register == 0x02
                || register == 0x20 || register == 0x66 ==> after is None
            &&& register == 0x15 ==> after is None
        }),
        v <= 3 ==> dongle_written(r, 0x66, seq![v]) == Some(Registers { led: v, ..r }),
        v > 3 ==> dongle_written(r, 0x66, seq![v]) == Some(Registers { led: 3, ..r }),
        register != 0x66 ==> dongle_written(r, register, seq![v]) is None,
        headset_written(r, register, seq![]) is None,
{
}

/// A fresh device: charged to 76 percent and not charging, asleep after 15
/// minutes, on its own music preset, with everything else switched off but the
/// EQ stage.
pub proof fn fresh_devices()
    ensures
        ({
            let r = Registers::initial();
            &&& r.battery == 76 && r.charging == 0 && r.sleep == 15
            &&& r.dnd == 0 && r.mic_mute == 0 && r.sidetone == 0 && r.enhancement == 0
            &&& r.sidetone_level == 5 && r.led == 1 && r.eq_enable == 1
            &&& HardwarePreset::of_raw(r.preset) is Music
        }),
{
}

/// Longest time that a read which finds nothing waits (microseconds).
pub const LONGEST_WAIT_US: u64 = 50_000;

/// State of the simulated device.
#[verifier::ext_equal]
pub struct SimView {
    pub connection: Connection,
    pub regs: Registers,
    pub link_up: bool,
    /// Reports that were not read yet, oldest first.
    pub replies: Seq<Seq<u8>>,
    /// Every request received so far.
    pub requests: Seq<RequestView>,
    pub now_us: u64,
}

pub open spec fn later(now_us: u64, by: int) -> u64 {
    if now_us + by > u64::MAX {
        u64::MAX
    } else {
        (now_us + by) as u64
    }
}

/// At most the first `room` bytes of a report.
pub open spec fn fitting(report: Seq<u8>, room: nat) -> Seq<u8> {
    if report.len() > room {
        report.take(room as int)
    } else {
        report
    }
}

/// Why the simulator refuses a report that is no request.
pub open spec fn refusal(report: Seq<u8>) -> ErrorView {
    ErrorView::Protocol("simulator: "@ + decoded_request(report)->Err_0.text())
}

impl SimView {
    /// The device after it received `q`.
    pub open spec fn received(self, q: RequestView) -> SimView {
        let (regs, payload) = handled(self.connection, self.link_up, self.regs, q);
        SimView {
            regs,
            requests: self.requests.push(q),
            replies: match payload {
                Some(p) => self.replies.push(response_frame(q.seq, q.domain, q.cmd, 0x01, p)),
                None => self.replies,
            },
            ..self
        }
    }

    /// What a read from the device brings.
    pub open spec fn next_report(self, room: nat) -> Option<Seq<u8>> {
        if self.replies.len() > 0 {
            Some(fitting(self.replies[0], room))
        } else {
            None
        }
    }

    /// The device after a read that was ready to wait `timeout_us`.
    pub open spec fn after_read(self, timeout_us: u64) -> SimView {
        if self.replies.len() > 0 {
            SimView { replies: self.replies.skip(1), ..self }
        } else {
            SimView {
                now_us: later(
                    self.now_us,
                    if timeout_us < LONGEST_WAIT_US {
                        timeout_us as int
                    } else {
                        LONGEST_WAIT_US as int
                    },
                ),
                ..self
            }
        }
    }

    /// The device after `event`; `None` if the event cannot happen with it.
    pub open spec fn after(self, event: Event) -> Option<SimView> {
        match event {
            Event::Wrote { report, outcome } => match decoded_request(report) {
                Ok(q) => if outcome is Ok {
                    Some(self.received(q))
                } else {
                    None
                },
                Err(_) => if outcome == Err::<(), ErrorView>(refusal(report)) {
                    Some(self)
                } else {
                    None
                },
            },
            Event::Read { room, timeout_us, outcome } => if outcome == Ok::<Option<Seq<u8>>, ErrorView>(
                self.next_report(room),
            ) {
                Some(self.after_read(timeout_us))
            } else {
                None
            },
            Event::Clock { now_us } => if now_us == self.now_us {
                Some(self)
            } else {
                None
            },
            Event::Paused { ms } => Some(SimView { now_us: later(self.now_us, ms * 1000), ..self }),
            Event::Acquired { outcome } => if outcome is Ok {
                Some(self)
            } else {
                None
            },
            Event::Released => Some(self),
        }
    }

    /// The device after `events`; `None` if they cannot happen with it.
    pub open spec fn after_all(self, events: Seq<Event>) -> Option<SimView>
        decreases events.len(),
    {
        if events.len() == 0 {
            Some(self)
        } else {
            match self.after_all(events.drop_last()) {
                Some(s) => s.after(events.last()),
                None => None,
            }
        }
    }
}

/// A request that is understood is noted and answered under its own sequence
/// number, domain and command, with a status of one; silence adds no report.
pub proof fn requests_are_answered_once(s: SimView, q: RequestView)
    ensures
        s.received(q).requests == s.requests.push(q),
        handled(s.connection, s.link_up, s.regs, q).1 matches Some(p) ==> s.received(q).replies == s.replies.push(
            response_frame(q.seq, q.domain, q.cmd, 0x01, p),
        ),
        handled(s.connection, s.link_up, s.regs, q).1 is None ==> s.received(q).replies == s.replies,
        s.received(q).regs == handled(s.connection, s.link_up, s.regs, q).0,
        s.received(q).now_us == s.now_us && s.received(q).link_up == s.link_up,
{
}

/// What is waiting comes out first in, first out, and does not take time; only
/// a read that finds nothing lets time pass, and no more than it may wait.
pub proof fn reports_come_in_order(s: SimView, room: nat, timeout_us: u64)
    ensures
        s.replies.len() > 0 ==> {
            &&& s.next_report(room) is Some
            &&& s.replies[0].len() <= room ==> s.next_report(room) == Some(s.replies[0])
            &&& s.after_read(timeout_us).replies == s.replies.drop_first()
            &&& s.after_read(timeout_us).now_us == s.now_us
        },
        s.replies.len() == 0 ==> {
            &&& s.next_report(room) is None
            &&& s.after_read(timeout_us).replies.len() == 0
            &&& s.now_us <= s.after_read(timeout_us).now_us <= s.now_us + timeout_us
            &&& s.after_read(timeout_us).now_us <= s.now_us + 50_000
            &&& timeout_us <= 50_000 && s.now_us + timeout_us <= u64::MAX ==> s.after_read(timeout_us).now_us
                == s.now_us + timeout_us
        },
        s.after_read(timeout_us).regs == s.regs && s.after_read(timeout_us).link_up == s.link_up,
{
    assert(s.replies.len() > 0 ==> s.replies.skip(1) =~= s.replies.drop_first());
}

pub struct SimTransport {
    connection: Connection,
    regs: Registers,
    link_up: bool,
    replies: VecDeque<Vec<u8>>,
    requests: Vec<Request>,
    lock_key: Option<String>,
    now_us: u64,
    history: Ghost<Seq<Event>>,
    /// State when the device was last changed from outside, and the length
    /// of the history then.
    origin: Ghost<SimView>,
    origin_at: Ghost<nat>,
}

fn copy_request(req: &Request) -> (r: Request)
    ensures
        r@ == req@,
{
    Request { seq: req.seq, domain: req.domain, cmd: req.cmd, params: req.params.clone() }
}

impl SimTransport {
    /// The simulated device.
    pub closed spec fn state(&self) -> SimView {
        SimView {
            connection: self.connection,
            regs: self.regs,
            link_up: self.link_up,
            replies: self.replies@.map_values(|r: Vec<u8>| r@),
            requests: self.requests@.map_values(|q: Request| q@),
            now_us: self.now_us,
        }
    }

    /// The device at the last change from outside.
    pub closed spec fn origin(&self) -> SimView {
        self.origin@
    }

    pub closed spec fn origin_at(&self) -> nat {
        self.origin_at@
    }

    pub closed spec fn key(&self) -> Option<Seq<char>> {
        some_view(self.lock_key)
    }

    fn with_registers(connection: Connection, regs: Registers, link_up: bool, lock_key: Option<String>) -> (r:
        Self)
        ensures
            r.wf(),
            r.history() == Seq::<Event>::empty(),
            r.key() == some_view(lock_key),
            r.state() == (SimView {
                connection,
                regs,
                link_up,
                replies: seq![],
                requests: seq![],
                now_us: 0,
            }),
    {
        let ghost state = SimView {
            connection,
            regs,
            link_up,
            replies: seq![],
            requests: seq![],
            now_us: 0,
        };
        let s = SimTransport {
            connection,
            regs,
            link_up,
            replies: VecDeque::new(),
            requests: Vec::new(),
            lock_key,
            now_us: 0,
            history: Ghost(Seq::empty()),
            origin: Ghost(state),
            origin_at: Ghost(0),
        };
        assert(s.state() =~= state);
        assert(s.history@.skip(0) =~= Seq::empty());
        s
    }

    /// A fresh device: linked, 76 % battery.
    pub fn new(connection: Connection) -> (r: Self)
        ensures
            r.wf(),
            r.history() == Seq::<Event>::empty(),
            r.key() is None,
            r.state() == (SimView {
                connection,
                regs: Registers::initial(),
                link_up: true,
                replies: seq![],
                requests: seq![],
                now_us: 0,
            }),
    {
        Self::with_registers(connection, Registers::default(), true, None)
    }

    /// A fresh device with the settings of the environment: a battery level
    /// that is a number replaces the usual one, 100 at most, and `offline`
    /// powers the headset off.
    pub fn configured(connection: Connection, battery: Option<&str>, offline: bool) -> (r: Self)
        ensures
            r.wf(),
            r.history() == Seq::<Event>::empty(),
            r.key() is None,
            r.state() == (SimView {
                connection,
                regs: Registers {
                    battery: match battery {
                        Some(text) => match unsigned(text@, 10, 255) {
                            Some(level) => at_most(level as u8, 100),
                            None => 76,
                        },
                        None => 76,
                    },
                    ..Registers::initial()
                },
                link_up: !offline,
                replies: seq![],
                requests: seq![],
                now_us: 0,
            }),
    {
        let mut regs = Registers::default();
        if let Some(text) = battery {
            if let Some(level) = parse_unsigned(text, 10, 255) {
                regs.battery = if level < 100 {
                    level as u8
                } else {
                    100
                };
            }
        }
        Self::with_registers(connection, regs, !offline, None)
    }

    /// A fresh device to which access is serialized under `key`.
    pub fn with_lock_key(connection: Connection, key: &str) -> (r: Self)
        ensures
            r.wf(),
            r.history() == Seq::<Event>::empty(),
            r.key() == Some(key@),
            r.state() == (SimView {
                connection,
                regs: Registers::initial(),
                link_up: true,
                replies: seq![],
                requests: seq![],
                now_us: 0,
            }),
    {
        Self::with_registers(connection, Registers::default(), true, Some(key.to_owned()))
    }

    /// Power the simulated headset on/off (dongle only).
    pub fn set_link(&mut self, up: bool)
        requires
            old(self).wf(),
        ensures
            final(self).wf(),
            final(self).history() == old(self).history(),
            final(self).key() == old(self).key(),
            final(self).state() == (SimView { link_up: up, ..old(self).state() }),
    {
        self.link_up = up;
        self.origin = Ghost(self.state());
        self.origin_at = Ghost(self.history@.len());
        assert(self.history@.skip(self.history@.len() as int) =~= Seq::empty());
        assert(self.state() =~= SimView { link_up: up, ..old(self).state() });
    }

    /// Queue a raw report as if the device had sent it.
    pub fn inject(&mut self, report: Vec<u8>)
        requires
            old(self).wf(),
        ensures
            final(self).wf(),
            final(self).history() == old(self).history(),
            final(self).key() == old(self).key(),
            final(self).state() == (SimView {
                replies: old(self).state().replies.push(report@),
                ..old(self).state()
            }),
    {
        self.replies.push_back(report);
        self.origin = Ghost(self.state());
        self.origin_at = Ghost(self.history@.len());
        assert(self.history@.skip(self.history@.len() as int) =~= Seq::empty());
        assert(self.state() =~= SimView {
            replies: old(self).state().replies.push(report@),
            ..old(self).state()
        });
    }

    /// Every request received so far.
    pub fn request_log(&self) -> (r: Vec<Request>)
        ensures
            r@.map_values(|q: Request| q@) == self.state().requests,
    {
        let mut out: Vec<Request> = Vec::new();
        let mut i: usize = 0;
        while i < self.requests.len()
            invariant
                i <= self.requests.len(),
                out@.len() == i,
                forall|j: int| 0 <= j < i ==> (#[trigger] out@[j])@ == self.requests@[j]@,
            decreases self.requests.len() - i,
        {
            out.push(copy_request(&self.requests[i]));
            i += 1;
        }
        assert(out@.map_values(|q: Request| q@) =~= self.state().requests);
        out
    }

    /// Returns the reply payload, or `None` when the device stays silent.
    fn handle(&mut self, req: &Request) -> (r: Option<Vec<u8>>)
        ensures
            *final(self) == (SimTransport {
                regs: handled(old(self).connection, old(self).link_up, old(self).regs, req@).0,
                ..*old(self)
            }),
            some_view(r) == handled(old(self).connection, old(self).link_up, old(self).regs, req@).1,
    {
        self.regs.handle(self.connection, self.link_up, req)
    }
}

fn headset_reachable(connection: Connection, link_up: bool, domain: u8) -> (r: bool)
    ensures
        r == reaches_headset(connection, link_up, domain),
{
    match connection {
        Connection::Wired => domain == DOMAIN_LOCAL,
        Connection::Dongle => domain == DOMAIN_HEADSET_RF && link_up,
    }
}

impl Registers {
    /// A register that the dongle answers itself.
    fn dongle_read(&self, link_up: bool, register: u8) -> (r: Option<Vec<u8>>)
        ensures
            some_view(r) == dongle_value(*self, link_up, register),
    {
        if register == reg::SERIAL {
            Some(self.dongle_serial.as_bytes_vec())
        } else if register == reg::FIRMWARE {
            Some(vec4(&self.dongle_fw))
        } else if register == reg::USB_PID {
            Some(vec2(0x05, 0x65))
        } else if register == reg::LINK_STATUS {
            Some(
                vec1(
                    if link_up {
                        1
                    } else {
                        0
                    },
                ),
            )
        } else if register == reg::DONGLE_LED {
            Some(vec1(self.led))
        } else {
            None
        }
    }

    fn headset_read(&self, register: u8) -> (r: Option<Vec<u8>>)
        ensures
            some_view(r) == headset_value(*self, register),
    {
        if register == reg::SERIAL {
            Some(self.headset_serial.as_bytes_vec())
        } else if register == reg::FIRMWARE {
            Some(vec4(&self.headset_fw))
        } else if register == reg::USB_PID {
            Some(vec2(0x05, 0x6E))
        } else if register == reg::LINK_STATUS {
            Some(vec1(1))
        } else if register == reg::BATTERY {
            Some(vec1(self.battery))
        } else if register == reg::CHARGING {
            Some(vec1(self.charging))
        } else if register == reg::SLEEP_TIMER {
            Some(vec1(self.sleep))
        } else if register == reg::BT_DND {
            Some(vec1(self.dnd))
        } else if register == reg::MIC_MUTE {
            Some(vec1(self.mic_mute))
        } else if register == reg::SIDETONE {
            Some(vec1(self.sidetone))
        } else if register == reg::SIDETONE_LEVEL {
            Some(vec1(self.sidetone_level))
        } else if register == reg::EQ_PRESET {
            Some(vec1(self.preset))
        } else if register == reg::EQ_ENABLE {
            Some(vec1(self.eq_enable))
        } else if register == reg::ENHANCEMENT {
            Some(vec1(self.enhancement))
        } else if register == reg::EQ_BANDS {
            // The real headset returns the Custom slot whatever preset is active.
            let mut out: Vec<u8> = Vec::new();
            let mut i: usize = 0;
            while i < BAND_COUNT
                invariant
                    i <= BAND_COUNT,
                    out@ == Seq::new(i as nat, |j: int| gain_byte(self.custom@[j])),
                decreases BAND_COUNT - i,
            {
                let db: i16 = self.custom[i] as i16;
                out.push(
                    if db < 0 {
                        (db + 256) as u8
                    } else {
                        db as u8
                    },
                );
                i += 1;
                assert(out@ =~= Seq::new(i as nat, |j: int| gain_byte(self.custom@[j])));
            }
            Some(out)
        } else {
            None
        }
    }

    fn dongle_write(&mut self, register: u8, params: &Vec<u8>) -> (r: bool)
        ensures
            match dongle_written(*old(self), register, params@) {
                Some(after) => r && *final(self) == after,
                None => !r && *final(self) == *old(self),
            },
    {
        if register == reg::DONGLE_LED && params.len() > 0 {
            self.led = lesser(params[0], 3);
            true
        } else {
            false
        }
    }

    fn headset_write(&mut self, register: u8, params: &Vec<u8>) -> (r: bool)
        ensures
            match headset_written(*old(self), register, params@) {
                Some(after) => r && *final(self) == after,
                None => !r && *final(self) == *old(self),
            },
    {
        if register == reg::EQ_BANDS {
            if params.len() < BAND_COUNT {
                return false;
            }
            let mut custom: Bands = FLAT;
            let mut i: usize = 0;
            while i < BAND_COUNT
                invariant
                    i <= BAND_COUNT <= params.len(),
                    forall|j: int|
                        0 <= j < i ==> #[trigger] custom@[j] == clamped_gain(
                            signed_byte(params@[j]) - EQ_WIRE_OFFSET,
                        ),
                decreases BAND_COUNT - i,
            {
                let raw: u8 = params[i];
                let wire: i32 = if raw < 128 {
                    raw as i32
                } else {
                    raw as i32 - 256
                };
                custom[i] = clamp_gain(wire - EQ_WIRE_OFFSET as i32);
                i += 1;
            }
            proof {
                bands_from_is(|j: int| clamped_gain(signed_byte(params@[j]) - EQ_WIRE_OFFSET), custom);
            }
            self.custom = custom;
            return true;
        }
        if params.len() == 0 {
            return false;
        }
        let arg: u8 = params[0];
        if register == reg::SLEEP_TIMER {
            self.sleep = arg;
        } else if register == reg::BT_DND {
            self.dnd = lesser(arg, 1);
        } else if register == reg::SIDETONE {
            self.sidetone = lesser(arg, 1);
        } else if register == reg::SIDETONE_LEVEL {
            self.sidetone_level = lesser(arg, SIDETONE_MAX);
        } else if register == reg::EQ_ENABLE {
            self.eq_enable = lesser(arg, 1);
        } else if register == reg::ENHANCEMENT {
            self.enhancement = lesser(arg, 1);
        } else if register == reg::EQ_PRESET {
            let preset = HardwarePreset::from_raw(arg);
            // A slot that the firmware does not know is ignored.
            if !matches!(preset, HardwarePreset::Unknown(_)) {
                self.preset = preset.raw();
            }
        } else {
            return false;
        }
        true
    }

    /// What the device does with a request: returns the reply payload, or
    /// `None` when it stays silent.
    pub fn handle(&mut self, connection: Connection, link_up: bool, req: &Request) -> (r: Option<Vec<u8>>)
        ensures
            *final(self) == handled(connection, link_up, *old(self), req@).0,
            some_view(r) == handled(connection, link_up, *old(self), req@).1,
    {
        let dongle = connection == Connection::Dongle && req.domain == DOMAIN_LOCAL;
        if !dongle && !headset_reachable(connection, link_up, req.domain) {
            return None;
        }
        let register: u8 = reg::get_of(req.cmd);
        if !reg::is_set(req.cmd) {
            if dongle {
                self.dongle_read(link_up, register)
            } else {
                self.headset_read(register)
            }
        } else {
            let accepted = if dongle {
                self.dongle_write(register, &req.params)
            } else {
                self.headset_write(register, &req.params)
            };
            if accepted {
                Some(vec1(0))
            } else {
                None
            }
        }
    }
}

fn lesser(a: u8, b: u8) -> (r: u8)
    ensures
        r == at_most(a, b),
        b == 1 ==> r == flag(a),
{
    if a < b {
        a
    } else {
        b
    }
}

fn vec1(a: u8) -> (r: Vec<u8>)
    ensures
        r@ == seq![a],
{
    let mut v: Vec<u8> = Vec::new();
    v.push(a);
    assert(v@ =~= seq![a]);
    v
}

fn vec2(a: u8, b: u8) -> (r: Vec<u8>)
    ensures
        r@ == seq![a, b],
{
    let mut v = vec1(a);
    v.push(b);
    assert(v@ =~= seq![a, b]);
    v
}

fn vec4(a: &[u8; 4]) -> (r: Vec<u8>)
    ensures
        r@ == a@,
{
    let mut v = vec2(a[0], a[1]);
    v.push(a[2]);
    v.push(a[3]);
    assert(v@ =~= a@);
    v
}

proof fn one_more_event(s: SimView, history: Seq<Event>, at: nat, event: Event)
    requires
        at <= history.len(),
    ensures
        s.after_all(history.push(event).skip(at as int)) == (match s.after_all(history.skip(at as int)) {
            Some(now) => now.after(event),
            None => None,
        }),
{
    let events = history.push(event).skip(at as int);
    assert(events.drop_last() =~= history.skip(at as int));
    assert(events.last() == event);
}

impl Transport for SimTransport {
    closed spec fn history(&self) -> Seq<Event> {
        self.history@
    }

    open spec fn admits(&self, history: Seq<Event>) -> bool {
        &&& self.origin_at() <= history.len()
        &&& self.origin().after_all(history.skip(self.origin_at() as int)) is Some
    }

    open spec fn wf(&self) -> bool {
        &&& self.origin_at() <= self.history().len()
        &&& self.origin().after_all(self.history().skip(self.origin_at() as int)) == Some(self.state())
    }

    fn write_report(&mut self, report: &[u8]) -> (r: Result<(), Error>)
        ensures
            final(self).key() == old(self).key(),
    {
        let r = match decode_request(report) {
            Ok(req) => {
                self.requests.push(copy_request(&req));
                let payload = self.handle(&req);
                if let Some(payload) = payload {
                    let frame = encode_response(req.seq, req.domain, req.cmd, 0x01, payload.as_slice());
                    let mut reply: Vec<u8> = Vec::new();
                    let mut i: usize = 0;
                    while i < 64
                        invariant
                            i <= 64,
                            reply@ == frame@.take(i as int),
                        decreases 64 - i,
                    {
                        reply.push(frame[i]);
                        i += 1;
                        assert(reply@ =~= frame@.take(i as int));
                    }
                    assert(reply@ =~= frame@);
                    self.replies.push_back(reply);
                }
                assert(self.state() =~= old(self).state().received(req@));
                Ok(())
            },
            Err(e) => {
                let mut text = "simulator: ".to_owned();
                text.append(e.message().as_str());
                Err(Error::Protocol(text))
            },
        };
        let ghost event = Event::Wrote { report: report@, outcome: err_view(r) };
        self.history = Ghost(self.history@.push(event));
        proof {
            one_more_event(self.origin(), old(self).history(), self.origin_at(), event);
        }
        r
    }

    fn read_report(&mut self, buf: &mut [u8], timeout_us: u64) -> (r: Result<Option<usize>, Error>)
        ensures
            final(self).key() == old(self).key(),
    {
        let ghost before = self.state();
        let r = match self.replies.pop_front() {
            Some(report) => {
                let n: usize = if report.len() < buf.len() {
                    report.len()
                } else {
                    buf.len()
                };
                let mut i: usize = 0;
                while i < n
                    invariant
                        i <= n <= buf@.len(),
                        n <= report.len(),
                        buf@.len() == old(buf)@.len(),
                        buf@.take(i as int) == report@.take(i as int),
                    decreases n - i,
                {
                    buf[i] = report[i];
                    i += 1;
                    assert(buf@.take(i as int) =~= report@.take(i as int));
                }
                assert(buf@.take(n as int) =~= fitting(report@, buf@.len()));
                Ok(Some(n))
            },
            None => {
                // Nothing will ever arrive on its own: let the time pass that real I/O would take.
                let wait: u64 = if timeout_us < LONGEST_WAIT_US {
                    timeout_us
                } else {
                    LONGEST_WAIT_US
                };
                self.now_us = self.now_us.saturating_add(wait);
                Ok(None)
            },
        };
        assert(self.state() =~= before.after_read(timeout_us));
        let ghost event = Event::Read {
            room: old(buf)@.len(),
            timeout_us,
            outcome: read_outcome(r, buf@),
        };
        self.history = Ghost(self.history@.push(event));
        proof {
            one_more_event(self.origin(), old(self).history(), self.origin_at(), event);
        }
        r
    }

    fn now_us(&mut self) -> (now_us: u64)
        ensures
            final(self).key() == old(self).key(),
    {
        let ghost event = Event::Clock { now_us: self.now_us };
        self.history = Ghost(self.history@.push(event));
        proof {
            one_more_event(self.origin(), old(self).history(), self.origin_at(), event);
        }
        self.now_us
    }

    fn pause(&mut self, ms: u64)
        ensures
            final(self).key() == old(self).key(),
    {
        let us: u64 = if ms > u64::MAX / 1000 {
            u64::MAX
        } else {
            ms * 1000
        };
        self.now_us = self.now_us.saturating_add(us);
        let ghost event = Event::Paused { ms };
        self.history = Ghost(self.history@.push(event));
        proof {
            one_more_event(self.origin(), old(self).history(), self.origin_at(), event);
            assert(self.state() =~= SimView {
                now_us: later(old(self).state().now_us, ms * 1000),
                ..old(self).state()
            });
        }
    }

    fn acquire(&mut self) -> (r: Result<(), Error>)
        ensures
            final(self).key() == old(self).key(),
    {
        let ghost event = Event::Acquired { outcome: Ok(()) };
        self.history = Ghost(self.history@.push(event));
        proof {
            one_more_event(self.origin(), old(self).history(), self.origin_at(), event);
        }
        Ok(())
    }

    fn release(&mut self)
        ensures
            final(self).key() == old(self).key(),
    {
        let ghost event = Event::Released;
        self.history = Ghost(self.history@.push(event));
        proof {
            one_more_event(self.origin(), old(self).history(), self.origin_at(), event);
        }
    }

    fn lock_key(&self) -> (r: Option<String>)
        ensures
            some_view(r) == self.key(),
    {
        self.lock_key.clone()
    }
}

} // verus!
