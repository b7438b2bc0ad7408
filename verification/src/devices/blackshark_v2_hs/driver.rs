//! Driver for the MediaTek based Razer BlackShark V2 HyperSpeed.
//!
//! Everything Synapse configures on this headset lives in the headset itself
//! (EQ, sidetone, sleep timer, ...), so settings made here persist and also
//! apply on consoles and phones.

use super::exchange::{
    absorbed, answered, await_run, claimed_run, claimed_run_is_local, continues, continues_on, deadline,
    enqueued, exchange_answers, exchange_run, heard, ledger, ledger_is_local, newest, next_counter,
    nothing_written, oversized_commands_are_not_sent, polls_hand_out_in_order, pump_run, pump_run_is_local,
    waiting_reports_are_not_answers, writing_point, Awaited, Entry, ExchangeRun, Incoming, IncomingView, Outcome, PumpRun, Query, Standing,
    MAX_QUEUED_EVENTS, MAX_READS,
};
use super::reading::{outcome_at, Setting};
use super::protocol::{
    decode_response, decoded_response, encode_request, sequence_byte, sequence_of, DecodeError, RequestView,
    Response, DOMAIN_HEADSET_RF, DOMAIN_LOCAL, MAX_PARAMS,
};
use crate::devices::{Connection, Model};
use crate::error::{Error, ErrorView};
use crate::hid::transport::{Event, Transport};
use crate::text::{dec, numbers_read_back, parse_unsigned, unsigned};
use crate::views::{both_view, err_view};
use std::collections::VecDeque;
use vstd::prelude::*;

verus! {

pub const DEFAULT_TIMEOUT_MS: u64 = 800;

/// How long to wait for a reply, given the text of the environment's
/// setting.
pub open spec fn configured_timeout(setting: Option<Seq<char>>) -> u64 {
    match setting {
        Some(text) => match unsigned(text, 10, u64::MAX as nat) {
            Some(ms) => ms as u64,
            None => DEFAULT_TIMEOUT_MS,
        },
        None => DEFAULT_TIMEOUT_MS,
    }
}

/// A number in the environment is the timeout; without one it is 800 ms.
pub proof fn timeouts_are_configured(n: u64)
    ensures
        configured_timeout(Some(dec(n as nat))) == n,
        configured_timeout(None) == 800,
{
    numbers_read_back(n as nat, u64::MAX as nat);
}

/// The headset is reached over the radio through a dongle, and directly on a
/// cable.
pub proof fn domains_reach_the_headset(connection: Connection)
    ensures
        connection is Dongle ==> domain_of(connection) == 0x80,
        connection is Wired ==> domain_of(connection) == 0x00,
{
}

/// The reply timeout in milliseconds: the setting where it is a number, the
/// default otherwise.
pub fn timeout_setting(setting: Option<&str>) -> (ms: u64)
    ensures
        ms == configured_timeout(
            match setting {
                Some(text) => Some(text@),
                None => None,
            },
        ),
{
    match setting {
        Some(text) => match parse_unsigned(text, 10, u64::MAX) {
            Some(ms) => ms,
            None => DEFAULT_TIMEOUT_MS,
        },
        None => DEFAULT_TIMEOUT_MS,
    }
}

/// Where the sequence counter starts: a per-process offset, so that
/// concurrent tools rarely share sequence numbers.
pub fn start_counter(pid: u32, nanos: u32) -> (counter: u8)
    ensures
        counter == ((pid % 256) as u8) ^ ((nanos / 1024 % 256) as u8),
{
    assert(pid as u8 == (pid % 256) as u8) by (bit_vector);
    assert((nanos >> 10) as u8 == (nanos / 1024 % 256) as u8) by (bit_vector);
    (pid as u8) ^ (nanos >> 10) as u8
}

pub open spec fn event_views(events: Seq<Incoming>) -> Seq<IncomingView> {
    events.map_values(|e: Incoming| e@)
}

/// The view of what a poll returned.
pub open spec fn poll_outcome(r: Result<Vec<Incoming>, Error>) -> Result<Seq<IncomingView>, ErrorView> {
    match r {
        Ok(events) => Ok(event_views(events@)),
        Err(e) => Err(e@),
    }
}

/// The domain that reaches the headset: relayed over RF on the dongle, local
/// when the headset itself is plugged in.
pub open spec fn domain_of(connection: Connection) -> u8 {
    match connection {
        Connection::Dongle => DOMAIN_HEADSET_RF,
        Connection::Wired => DOMAIN_LOCAL,
    }
}

pub struct BlackSharkV2Hs<T: Transport> {
    transport: T,
    model: Model,
    counter: u8,
    timeout_ms: u64,
    incoming: VecDeque<Incoming>,
    log: Ghost<Seq<Entry>>,
    started: Ghost<Standing>,
}

impl<T: Transport> BlackSharkV2Hs<T> {
    /// The channel to the device.
    pub closed spec fn channel(&self) -> T {
        self.transport
    }

    /// Every command, pause and poll so far.
    pub closed spec fn log(&self) -> Seq<Entry> {
        self.log@
    }

    /// Events that were not handed out yet, oldest first.
    pub closed spec fn queue(&self) -> Seq<IncomingView> {
        event_views(self.incoming@)
    }

    pub closed spec fn sequence_counter(&self) -> u8 {
        self.counter
    }

    pub closed spec fn timeout(&self) -> u64 {
        self.timeout_ms
    }

    pub closed spec fn device_model(&self) -> Model {
        self.model
    }

    pub open spec fn link(&self) -> Connection {
        self.device_model().connection
    }

    /// Where the driver stood when it was made.
    pub closed spec fn started(&self) -> Standing {
        self.started@
    }

    pub open spec fn standing(&self) -> Standing {
        Standing {
            at: self.channel().history().len() as int,
            counter: self.sequence_counter(),
            queue: self.queue(),
        }
    }

    /// The channel is fit for use, few enough events wait, and the log
    /// accounts for everything that was done with the channel since the
    /// driver was made.
    pub open spec fn wf(&self) -> bool {
        &&& self.channel().wf()
        &&& self.queue().len() <= MAX_QUEUED_EVENTS
        &&& self.started().at >= 0
        &&& ledger(self.channel().history(), self.started(), self.log()) == Some(self.standing())
    }

    /// Is `next` this driver after it was used for a while?
    pub open spec fn used(&self, next: Self) -> bool {
        &&& next.wf()
        &&& next.device_model() == self.device_model()
        &&& next.timeout() == self.timeout()
        &&& next.started() == self.started()
        &&& forall|h: Seq<Event>| #[trigger] next.channel().admits(h) == self.channel().admits(h)
        &&& continues(next.channel().history(), self.channel().history())
    }

    pub open spec fn setting(&self) -> Setting {
        Setting { connection: self.link(), timeout_ms: self.timeout() }
    }

    /// The log entry for a command with this outcome.
    pub open spec fn entry(&self, domain: u8, cmd: u8, params: Seq<u8>, outcome: Outcome) -> Entry {
        Entry::Asked { query: Query { domain, cmd, params }, timeout_ms: self.timeout(), outcome }
    }

    /// Is `next` this driver after one command with this outcome?
    pub open spec fn asked(&self, next: Self, domain: u8, cmd: u8, params: Seq<u8>, outcome: Outcome) -> bool {
        &&& self.used(next)
        &&& next.log() == self.log().push(self.entry(domain, cmd, params, outcome))
    }

    /// Is `next` this driver after one command, whatever its outcome?
    pub open spec fn asks(&self, next: Self, domain: u8, cmd: u8, params: Seq<u8>) -> bool {
        self.asked(next, domain, cmd, params, next.last_outcome())
    }

    /// What came of the last command.
    pub open spec fn last_outcome(&self) -> Outcome {
        outcome_at(self.log(), self.log().len() - 1)
    }

    pub proof fn used_on(&self, mid: Self, next: Self)
        requires
            self.used(mid),
            mid.used(next),
        ensures
            self.used(next),
    {
        continues_on(next.channel().history(), mid.channel().history(), self.channel().history());
    }

    /// A driver for the device behind `transport`. `counter` is where the
    /// sequence numbers start (see [`start_counter`]).
    pub fn new(transport: T, model: Model, counter: u8, timeout_ms: u64) -> (r: Self)
        requires
            transport.wf(),
        ensures
            r.wf(),
            r.channel() == transport,
            r.device_model() == model,
            r.sequence_counter() == counter,
            r.timeout() == timeout_ms,
            r.queue() == Seq::<IncomingView>::empty(),
            r.log() == Seq::<Entry>::empty(),
    {
        let ghost at = transport.history().len() as int;
        let r = BlackSharkV2Hs {
            transport,
            model,
            counter,
            timeout_ms,
            incoming: VecDeque::new(),
            log: Ghost(Seq::empty()),
            started: Ghost(Standing { at, counter, queue: Seq::empty() }),
        };
        assert(r.queue() =~= Seq::empty());
        r
    }

    pub fn transport(&self) -> (r: &T)
        ensures
            *r == self.channel(),
    {
        &self.transport
    }

    /// The channel, for changes on the device's side. The driver stays
    /// usable as long as the channel does and its history is left alone.
    pub fn transport_mut(&mut self) -> (r: &mut T)
        requires
            old(self).wf(),
        ensures
            *r == old(self).channel(),
            final(self).channel() == *final(r),
            final(self).device_model() == old(self).device_model(),
            final(self).timeout() == old(self).timeout(),
            final(self).log() == old(self).log(),
            final(self).queue() == old(self).queue(),
            final(self).sequence_counter() == old(self).sequence_counter(),
            final(r).wf() && final(r).history() == old(self).channel().history() ==> final(self).wf(),
    {
        &mut self.transport
    }

    pub fn model(&self) -> (r: Model)
        ensures
            r == self.device_model(),
    {
        self.model
    }

    pub fn connection(&self) -> (r: Connection)
        ensures
            r == self.link(),
    {
        self.model.connection
    }

    pub fn set_timeout(&mut self, timeout_ms: u64)
        requires
            old(self).wf(),
        ensures
            final(self).wf(),
            final(self).timeout() == timeout_ms,
            final(self).channel() == old(self).channel(),
            final(self).device_model() == old(self).device_model(),
            final(self).log() == old(self).log(),
            final(self).queue() == old(self).queue(),
    {
        self.timeout_ms = timeout_ms;
    }

    pub fn headset_domain(&self) -> (r: u8)
        ensures
            r == domain_of(self.link()),
    {
        match self.model.connection {
            Connection::Dongle => DOMAIN_HEADSET_RF,
            Connection::Wired => DOMAIN_LOCAL,
        }
    }

    fn queue_event(&mut self, event: Incoming)
        requires
            old(self).incoming@.len() <= MAX_QUEUED_EVENTS,
        ensures
            final(self).queue() == enqueued(old(self).queue(), event@),
            final(self).incoming@.len() <= MAX_QUEUED_EVENTS,
            *final(self) == (BlackSharkV2Hs { incoming: final(self).incoming, ..*old(self) }),
    {
        if self.incoming.len() >= MAX_QUEUED_EVENTS {
            let _ = self.incoming.pop_front();
        }
        self.incoming.push_back(event);
        assert(self.queue() =~= enqueued(old(self).queue(), event@));
    }

    /// Keep a report that is no answer.
    fn absorb(&mut self, decoded: Result<Response, DecodeError>, report: &[u8], n: usize)
        requires
            old(self).incoming@.len() <= MAX_QUEUED_EVENTS,
            n <= report@.len(),
            crate::views::ok_view(decoded) == decoded_response(report@.take(n as int)),
        ensures
            final(self).queue() == absorbed(old(self).queue(), report@.take(n as int)),
            final(self).incoming@.len() <= MAX_QUEUED_EVENTS,
            *final(self) == (BlackSharkV2Hs { incoming: final(self).incoming, ..*old(self) }),
    {
        match decoded {
            Ok(resp) => self.queue_event(Incoming::Frame(resp)),
            Err(DecodeError::OtherReport(id)) => {
                let mut data: Vec<u8> = Vec::new();
                let mut i: usize = 1;
                while i < n
                    invariant
                        1 <= i,
                        1 <= n ==> i <= n,
                        n <= report@.len(),
                        data@ =~= if n == 0 { Seq::empty() } else { report@.subrange(1, i as int) },
                    decreases n - i,
                {
                    data.push(report[i]);
                    i += 1;
                }
                assert(n > 0);
                assert(data@ =~= report@.take(n as int).skip(1));
                self.queue_event(Incoming::Other { report_id: id, data });
            },
            Err(_) => {},
        }
    }

    /// Read whatever is there; the first read waits up to `wait_us`.
    fn pump(&mut self, wait_us: u64) -> (r: Result<(), Error>)
        requires
            old(self).transport.wf(),
            old(self).incoming@.len() <= MAX_QUEUED_EVENTS,
        ensures
            final(self).transport.wf(),
            final(self).incoming@.len() <= MAX_QUEUED_EVENTS,
            *final(self) == (BlackSharkV2Hs {
                incoming: final(self).incoming,
                transport: final(self).transport,
                ..*old(self)
            }),
            forall|h: Seq<Event>| #[trigger] final(self).transport.admits(h) == old(self).transport.admits(h),
            continues(final(self).transport.history(), old(self).transport.history()),
            pump_run(
                final(self).transport.history(),
                old(self).transport.history().len() as int,
                wait_us,
                MAX_READS as nat,
                old(self).queue(),
            ) == (PumpRun {
                ok: true,
                end: final(self).transport.history().len() as int,
                queue: final(self).queue(),
                result: err_view(r),
            }),
    {
        let mut buf: [u8; 128] = [0; 128];
        let mut timeout_us: u64 = wait_us;
        let mut left: u64 = MAX_READS;
        let ghost start = self.transport.history().len() as int;
        let ghost queue = self.queue();
        while left > 0
            invariant
                self.transport.wf(),
                self.incoming@.len() <= MAX_QUEUED_EVENTS,
                *self == (BlackSharkV2Hs {
                    incoming: self.incoming,
                    transport: self.transport,
                    ..*old(self)
                }),
                forall|h: Seq<Event>| #[trigger] self.transport.admits(h) == old(self).transport.admits(h),
                continues(self.transport.history(), old(self).transport.history()),
                start == old(self).transport.history().len(),
                queue == old(self).queue(),
                forall|later: Seq<Event>|
                    continues(later, self.transport.history()) ==> #[trigger] pump_run(
                        later,
                        start,
                        wait_us,
                        MAX_READS as nat,
                        queue,
                    ) == pump_run(
                        later,
                        self.transport.history().len() as int,
                        timeout_us,
                        left as nat,
                        self.queue(),
                    ),
            decreases left,
        {
            let ghost before = *self;
            let r = self.transport.read_report(&mut buf, timeout_us);
            let ghost at = before.transport.history().len() as int;
            assert(self.transport.history()[at] == self.transport.history().last());
            match r {
                Err(e) => {
                    assert(continues(self.transport.history(), before.transport.history()));
                    return Err(e);
                },
                Ok(None) => {
                    assert(continues(self.transport.history(), before.transport.history()));
                    return Ok(());
                },
                Ok(Some(n)) => {
                    let ghost report = buf@.take(n as int);
                    let (head, _) = buf.split_at(n);
                    assert(head@ =~= report);
                    self.absorb(decode_response(head), &buf, n);
                    proof {
                        assert forall|later: Seq<Event>|
                            continues(later, self.transport.history()) implies #[trigger] pump_run(
                            later,
                            start,
                            wait_us,
                            MAX_READS as nat,
                            queue,
                        ) == pump_run(
                            later,
                            self.transport.history().len() as int,
                            0,
                            (left - 1) as nat,
                            self.queue(),
                        ) by {
                            continues_on(later, self.transport.history(), before.transport.history());
                            assert(later[at] == self.transport.history()[at]);
                        }
                    }
                    timeout_us = 0;
                    left = left - 1;
                },
            }
        }
        assert(continues(self.transport.history(), self.transport.history()));
        Ok(())
    }

    /// Wait for the answer to the command sent last.
    fn await_answer(&mut self, seq: u8, cmd: u8, deadline_us: u64) -> (r: Result<Response, Error>)
        requires
            old(self).transport.wf(),
            old(self).incoming@.len() <= MAX_QUEUED_EVENTS,
        ensures
            final(self).transport.wf(),
            final(self).incoming@.len() <= MAX_QUEUED_EVENTS,
            *final(self) == (BlackSharkV2Hs {
                incoming: final(self).incoming,
                transport: final(self).transport,
                ..*old(self)
            }),
            forall|h: Seq<Event>| #[trigger] final(self).transport.admits(h) == old(self).transport.admits(h),
            continues(final(self).transport.history(), old(self).transport.history()),
            await_run(
                final(self).transport.history(),
                old(self).transport.history().len() as int,
                Awaited {
                    seq,
                    cmd,
                    deadline_us,
                    timeout_ms: old(self).timeout_ms,
                    counter: old(self).counter,
                },
                MAX_READS as nat,
                old(self).queue(),
            ) == (ExchangeRun {
                ok: true,
                end: final(self).transport.history().len() as int,
                counter: old(self).counter,
                queue: final(self).queue(),
                outcome: both_view(r),
            }),
    {
        let mut buf: [u8; 128] = [0; 128];
        let mut left: u64 = MAX_READS;
        let ghost start = self.transport.history().len() as int;
        let ghost queue = self.queue();
        let ghost w = Awaited {
            seq,
            cmd,
            deadline_us,
            timeout_ms: self.timeout_ms,
            counter: self.counter,
        };
        while left > 0
            invariant
                self.transport.wf(),
                self.incoming@.len() <= MAX_QUEUED_EVENTS,
                *self == (BlackSharkV2Hs {
                    incoming: self.incoming,
                    transport: self.transport,
                    ..*old(self)
                }),
                forall|h: Seq<Event>| #[trigger] self.transport.admits(h) == old(self).transport.admits(h),
                continues(self.transport.history(), old(self).transport.history()),
                start == old(self).transport.history().len(),
                queue == old(self).queue(),
                w == (Awaited {
                    seq,
                    cmd,
                    deadline_us,
                    timeout_ms: old(self).timeout_ms,
                    counter: old(self).counter,
                }),
                forall|later: Seq<Event>|
                    continues(later, self.transport.history()) ==> #[trigger] await_run(
                        later,
                        start,
                        w,
                        MAX_READS as nat,
                        queue,
                    ) == await_run(
                        later,
                        self.transport.history().len() as int,
                        w,
                        left as nat,
                        self.queue(),
                    ),
            decreases left,
        {
            let ghost before = *self;
            let ghost at = before.transport.history().len() as int;
            let now_us: u64 = self.transport.now_us();
            let ghost clocked = self.transport.history();
            assert(clocked[at] == (Event::Clock { now_us }));
            if now_us >= deadline_us {
                assert(continues(clocked, before.transport.history()));
                return Err(Error::Timeout { cmd, timeout_ms: self.timeout_ms });
            }
            let r = self.transport.read_report(&mut buf, deadline_us - now_us);
            let ghost read = self.transport.history();
            assert(read[at] == clocked[at]);
            assert(read[at + 1] == read.last());
            assert(continues(read, before.transport.history()));
            match r {
                Err(e) => {
                    return Err(e);
                },
                Ok(None) => {
                    proof {
                        assert forall|later: Seq<Event>|
                            continues(later, read) implies #[trigger] await_run(
                            later,
                            start,
                            w,
                            MAX_READS as nat,
                            queue,
                        ) == await_run(later, at + 2, w, (left - 1) as nat, self.queue()) by {
                            continues_on(later, read, before.transport.history());
                            assert(later[at] == read[at]);
                            assert(later[at + 1] == read[at + 1]);
                        }
                    }
                    left = left - 1;
                },
                Ok(Some(n)) => {
                    let ghost report = buf@.take(n as int);
                    let (head, _) = buf.split_at(n);
                    assert(head@ =~= report);
                    let decoded = decode_response(head);
                    let answered = match &decoded {
                        Ok(resp) => resp.answers(seq, cmd),
                        Err(_) => false,
                    };
                    if answered {
                        if let Ok(resp) = decoded {
                            return Ok(resp);
                        }
                    } else {
                        self.absorb(decoded, &buf, n);
                        proof {
                            assert(w.answer(report) is None);
                            assert forall|later: Seq<Event>|
                                continues(later, read) implies #[trigger] await_run(
                                later,
                                start,
                                w,
                                MAX_READS as nat,
                                queue,
                            ) == await_run(later, at + 2, w, (left - 1) as nat, self.queue()) by {
                                continues_on(later, read, before.transport.history());
                                assert(later[at] == read[at]);
                                assert(later[at + 1] == read[at + 1]);
                            }
                        }
                    }
                    left = left - 1;
                },
            }
        }
        assert(continues(self.transport.history(), self.transport.history()));
        Err(Error::Timeout { cmd, timeout_ms: self.timeout_ms })
    }

    /// Send `params` and wait for the answer, with the channel claimed.
    fn exchange(&mut self, domain: u8, cmd: u8, params: &[u8]) -> (r: Result<Response, Error>)
        requires
            old(self).transport.wf(),
            old(self).incoming@.len() <= MAX_QUEUED_EVENTS,
        ensures
            final(self).transport.wf(),
            final(self).incoming@.len() <= MAX_QUEUED_EVENTS,
            *final(self) == (BlackSharkV2Hs {
                incoming: final(self).incoming,
                transport: final(self).transport,
                counter: final(self).counter,
                ..*old(self)
            }),
            forall|h: Seq<Event>| #[trigger] final(self).transport.admits(h) == old(self).transport.admits(h),
            continues(final(self).transport.history(), old(self).transport.history()),
            claimed_run(
                final(self).transport.history(),
                old(self).transport.history().len() as int,
                Query { domain, cmd, params: params@ },
                old(self).timeout_ms,
                old(self).counter,
                old(self).queue(),
            ) == (ExchangeRun {
                ok: true,
                end: final(self).transport.history().len() as int,
                counter: final(self).counter,
                queue: final(self).queue(),
                outcome: both_view(r),
            }),
    {
        let ghost query = Query { domain, cmd, params: params@ };
        let ghost start = self.transport.history();
        // Keep anything that arrived meanwhile, so stale replies can't be
        // mistaken for ours and unsolicited events are not lost.
        if let Err(e) = self.pump(0) {
            return Err(e);
        }
        let ghost pumped = self.transport.history();
        let ghost queue = self.queue();
        self.counter = self.counter.wrapping_add(1);
        assert(self.counter == next_counter(old(self).counter));
        assert(self.queue() == queue);
        let seq: u8 = sequence_byte(self.counter);
        let frame = match encode_request(seq, domain, cmd, params) {
            Ok(frame) => frame,
            Err(text) => {
                return Err(Error::InvalidArgument(text));
            },
        };
        let written = self.transport.write_report(&frame);
        let ghost wrote = self.transport.history();
        proof {
            assert(wrote[pumped.len() as int] == wrote.last());
            assert(continues(wrote, pumped));
            continues_on(wrote, pumped, start);
            pump_run_is_local(pumped, wrote, start.len() as int, 0, MAX_READS as nat, old(self).queue());
        }
        if let Err(e) = written {
            return Err(e);
        }
        let now_us: u64 = self.transport.now_us();
        let ghost clocked = self.transport.history();
        let timeout_us: u64 = match self.timeout_ms.checked_mul(1000) {
            Some(us) => us,
            None => u64::MAX,
        };
        let deadline_us: u64 = now_us.saturating_add(timeout_us);
        assert(deadline_us == deadline(now_us, self.timeout_ms));
        let r = self.await_answer(seq, cmd, deadline_us);
        proof {
            let h = self.transport.history();
            let at = pumped.len() as int;
            assert(clocked[at] == wrote[at]);
            assert(clocked[at + 1] == clocked.last());
            assert(continues(clocked, wrote));
            continues_on(h, clocked, wrote);
            continues_on(h, wrote, pumped);
            continues_on(h, pumped, start);
            assert(h[at] == clocked[at]);
            assert(h[at + 1] == clocked[at + 1]);
            pump_run_is_local(pumped, h, start.len() as int, 0, MAX_READS as nat, old(self).queue());
        }
        r
    }

    /// Send one command and wait for its reply. Whatever else arrives is kept
    /// for [`Self::poll_incoming`].
    pub fn transact(&mut self, domain: u8, cmd: u8, params: &[u8]) -> (r: Result<Response, Error>)
        requires
            old(self).wf(),
        ensures
            old(self).asked(*final(self), domain, cmd, params@, both_view(r)),
            r matches Ok(resp) ==> resp@.answers(sequence_of(final(self).sequence_counter()), cmd),
            ({
                let h = final(self).channel().history();
                let at = old(self).channel().history().len() as int;
                &&& params@.len() > MAX_PARAMS ==> r is Err && nothing_written(h, at, h.len() as int)
                &&& r matches Ok(resp) ==> answered(
                    h,
                    at,
                    writing_point(h, at, old(self).queue()),
                    h.len() as int,
                    RequestView {
                        seq: sequence_of(final(self).sequence_counter()),
                        domain,
                        cmd,
                        params: params@,
                    },
                    resp@,
                )
                &&& final(self).queue() == newest(
                    old(self).queue() + heard(
                        h,
                        at,
                        if r is Ok {
                            h.len() - 2
                        } else {
                            h.len() as int
                        },
                    ),
                )
            }),
            exchange_run(
                final(self).channel().history(),
                old(self).channel().history().len() as int,
                Query { domain, cmd, params: params@ },
                old(self).timeout(),
                old(self).sequence_counter(),
                old(self).queue(),
            ) == (ExchangeRun {
                ok: true,
                end: final(self).channel().history().len() as int,
                counter: final(self).sequence_counter(),
                queue: final(self).queue(),
                outcome: both_view(r),
            }),
    {
        let ghost start = self.transport.history();
        let claimed = self.transport.acquire();
        let ghost acquired = self.transport.history();
        assert(acquired[start.len() as int] == acquired.last());
        assert(continues(acquired, start));
        let r = match claimed {
            Err(e) => Err(e),
            Ok(_) => {
                let r = self.exchange(domain, cmd, params);
                let ghost done = self.transport.history();
                self.transport.release();
                proof {
                    let h = self.transport.history();
                    let query = Query { domain, cmd, params: params@ };
                    assert(h[done.len() as int] == Event::Released);
                    assert(continues(h, done));
                    continues_on(h, done, acquired);
                    continues_on(h, acquired, start);
                    claimed_run_is_local(
                        done,
                        h,
                        acquired.len() as int,
                        query,
                        self.timeout_ms,
                        old(self).counter,
                        old(self).queue(),
                    );
                    assert(h[start.len() as int] == acquired[start.len() as int]);
                }
                r
            },
        };
        let ghost entry = self.entry(domain, cmd, params@, both_view(r));
        self.log = Ghost(self.log@.push(entry));
        proof {
            let h = self.transport.history();
            let query = Query { domain, cmd, params: params@ };
            ledger_is_local(start, h, self.started(), old(self).log());
            assert(self.log().drop_last() =~= old(self).log());
            let at = start.len() as int;
            exchange_answers(h, at, query, old(self).timeout(), old(self).counter, old(self).queue());
            waiting_reports_are_not_answers(
                h,
                at,
                query,
                old(self).timeout(),
                old(self).counter,
                old(self).queue(),
            );
            if params@.len() > MAX_PARAMS {
                oversized_commands_are_not_sent(
                    h,
                    at,
                    query,
                    old(self).timeout(),
                    old(self).counter,
                    old(self).queue(),
                );
            }
        }
        r
    }

    /// Read whatever the device sent on its own (non-blocking beyond `wait_us`).
    pub fn poll_incoming(&mut self, wait_us: u64) -> (r: Result<Vec<Incoming>, Error>)
        requires
            old(self).wf(),
        ensures
            old(self).used(*final(self)),
            final(self).sequence_counter() == old(self).sequence_counter(),
            final(self).log() == old(self).log().push(
                Entry::Polled { wait_us, outcome: poll_outcome(r) },
            ),
            ({
                let run = pump_run(
                    final(self).channel().history(),
                    old(self).channel().history().len() as int,
                    wait_us,
                    MAX_READS as nat,
                    old(self).queue(),
                );
                &&& run.ok
                &&& run.end == final(self).channel().history().len()
                &&& match r {
                    Ok(events) => {
                        &&& run.result is Ok
                        &&& event_views(events@) == run.queue
                        &&& run.queue == newest(
                            old(self).queue() + heard(
                                final(self).channel().history(),
                                old(self).channel().history().len() as int,
                                run.end,
                            ),
                        )
                        &&& final(self).queue().len() == 0
                    },
                    Err(e) => run.result == Err::<(), ErrorView>(e@) && final(self).queue() == run.queue,
                }
            }),
    {
        let ghost start = self.transport.history();
        let pumped = self.pump(wait_us);
        let ghost kept = self.queue();
        let ghost after = *self;
        let r = match pumped {
            Err(e) => Err(e),
            Ok(_) => {
                let mut events: Vec<Incoming> = Vec::new();
                while self.incoming.len() > 0
                    invariant
                        *self == (BlackSharkV2Hs { incoming: self.incoming, ..after }),
                        event_views(events@) + self.queue() == kept,
                    decreases self.incoming@.len(),
                {
                    let ghost before = event_views(events@);
                    let ghost waiting = self.queue();
                    if let Some(event) = self.incoming.pop_front() {
                        events.push(event);
                        assert(event_views(events@) =~= before.push(event@));
                        assert(waiting =~= seq![event@] + self.queue());
                        assert(before.push(event@) + self.queue() =~= before + waiting);
                    }
                }
                assert(self.queue() =~= Seq::empty());
                assert(event_views(events@) =~= kept);
                Ok(events)
            },
        };
        let ghost entry = Entry::Polled { wait_us, outcome: poll_outcome(r) };
        self.log = Ghost(self.log@.push(entry));
        proof {
            let h = self.transport.history();
            ledger_is_local(start, h, self.started(), old(self).log());
            assert(self.log().drop_last() =~= old(self).log());
            polls_hand_out_in_order(h, start.len() as int, wait_us, old(self).queue());
        }
        r
    }

    /// Give the device `ms` milliseconds.
    pub(crate) fn pause(&mut self, ms: u64)
        requires
            old(self).wf(),
        ensures
            old(self).used(*final(self)),
            final(self).log() == old(self).log().push(Entry::Paused { ms }),
    {
        let ghost start = self.transport.history();
        self.transport.pause(ms);
        self.log = Ghost(self.log@.push(Entry::Paused { ms }));
        proof {
            let h = self.transport.history();
            assert(continues(h, start));
            ledger_is_local(start, h, self.started(), old(self).log());
            assert(self.log().drop_last() =~= old(self).log());
        }
    }
}

} // verus!
