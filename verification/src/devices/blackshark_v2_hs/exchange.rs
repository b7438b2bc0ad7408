//! What one exchange with the device does on the channel: a deterministic
//! reading of the channel's history.

use super::protocol::{
    decoded_response, request_frame, sequence_of, too_many_params, DecodeError, RequestView, Response,
    ResponseView, MAX_PARAMS,
};
use crate::error::ErrorView;
use crate::hid::transport::Event;
use vstd::prelude::*;

verus! {

/// Something the device sent without us asking (or a reply meant for
/// another process sharing the device).
#[derive(Debug, Clone, PartialEq, Eq)]
pub enum Incoming {
    Frame(Response),
    /// Any other report (media keys 0x0C, telephony 0x05, ...).
    Other { report_id: u8, data: Vec<u8> },
}

pub enum IncomingView {
    Frame(ResponseView),
    Other { report_id: u8, data: Seq<u8> },
}

impl View for Incoming {
    type V = IncomingView;

    open spec fn view(&self) -> IncomingView {
        match self {
            Incoming::Frame(resp) => IncomingView::Frame(resp@),
            Incoming::Other { report_id, data } => IncomingView::Other { report_id: *report_id, data: data@ },
        }
    }
}

pub const MAX_QUEUED_EVENTS: usize = 64;

/// Longest report that is read.
pub const READ_ROOM: usize = 128;

/// Reads after which waiting is given up whatever the clock says.
pub const MAX_READS: u64 = 0xFFFF_FFFF_FFFF_FFFF;

/// The events `queue` with one more; of too many the oldest goes.
pub open spec fn enqueued(queue: Seq<IncomingView>, event: IncomingView) -> Seq<IncomingView> {
    if queue.len() >= MAX_QUEUED_EVENTS {
        queue.skip(1).push(event)
    } else {
        queue.push(event)
    }
}

/// The events after a report that nobody waits for. Malformed frames are
/// dropped.
pub open spec fn absorbed(queue: Seq<IncomingView>, report: Seq<u8>) -> Seq<IncomingView> {
    match decoded_response(report) {
        Ok(resp) => enqueued(queue, IncomingView::Frame(resp)),
        Err(DecodeError::OtherReport(report_id)) => enqueued(
            queue,
            IncomingView::Other { report_id, data: report.skip(1) },
        ),
        Err(_) => queue,
    }
}

/// A command to the device.
#[verifier::ext_equal]
pub struct Query {
    pub domain: u8,
    pub cmd: u8,
    pub params: Seq<u8>,
}

/// What came of a command.
pub type Outcome = Result<ResponseView, ErrorView>;

/// What happened on the channel from some point up to `end`. It is `ok` if
/// the history shows exactly the uses that belong there.
pub struct PumpRun {
    pub ok: bool,
    pub end: int,
    pub queue: Seq<IncomingView>,
    pub result: Result<(), ErrorView>,
}

/// Reading everything that is there: the first read may wait, and reading
/// goes on until nothing is left or the channel fails.
pub open spec fn pump_run(
    h: Seq<Event>,
    at: int,
    wait_us: u64,
    rounds: nat,
    queue: Seq<IncomingView>,
) -> PumpRun
    decreases rounds,
{
    if rounds == 0 {
        PumpRun { ok: true, end: at, queue, result: Ok(()) }
    } else {
        match h[at] {
            Event::Read { room, timeout_us, outcome } => {
                let ok = room == READ_ROOM && timeout_us == wait_us;
                match outcome {
                    Err(e) => PumpRun { ok, end: at + 1, queue, result: Err(e) },
                    Ok(None) => PumpRun { ok, end: at + 1, queue, result: Ok(()) },
                    Ok(Some(report)) => {
                        let rest = pump_run(h, at + 1, 0, (rounds - 1) as nat, absorbed(queue, report));
                        PumpRun { ok: ok && rest.ok, ..rest }
                    },
                }
            },
            _ => PumpRun { ok: false, end: at, queue, result: Ok(()) },
        }
    }
}

pub struct ExchangeRun {
    pub ok: bool,
    pub end: int,
    pub counter: u8,
    pub queue: Seq<IncomingView>,
    pub outcome: Outcome,
}

/// The command that is waited for.
pub struct Awaited {
    pub seq: u8,
    pub cmd: u8,
    pub deadline_us: u64,
    pub timeout_ms: u64,
    pub counter: u8,
}

impl Awaited {
    pub open spec fn timed_out(self) -> Outcome {
        Err(ErrorView::Timeout { cmd: self.cmd, timeout_ms: self.timeout_ms })
    }

    /// The answer in `report`, if it is one.
    pub open spec fn answer(self, report: Seq<u8>) -> Option<ResponseView> {
        match decoded_response(report) {
            Ok(resp) if resp.answers(self.seq, self.cmd) => Some(resp),
            _ => None,
        }
    }
}

/// Waiting for an answer: the clock is read, then a report for the time that
/// is left, until the answer is there, the time is up or the channel fails.
/// Other reports are kept as events.
pub open spec fn await_run(
    h: Seq<Event>,
    at: int,
    w: Awaited,
    rounds: nat,
    queue: Seq<IncomingView>,
) -> ExchangeRun
    decreases rounds,
{
    let stop = |ok: bool, end: int, outcome: Outcome|
        ExchangeRun { ok, end, counter: w.counter, queue, outcome };
    if rounds == 0 {
        stop(true, at, w.timed_out())
    } else {
        match h[at] {
            Event::Clock { now_us } => if now_us >= w.deadline_us {
                stop(true, at + 1, w.timed_out())
            } else {
                match h[at + 1] {
                    Event::Read { room, timeout_us, outcome } => {
                        let ok = room == READ_ROOM && timeout_us == w.deadline_us - now_us;
                        match outcome {
                            Err(e) => stop(ok, at + 2, Err(e)),
                            Ok(None) => {
                                let rest = await_run(h, at + 2, w, (rounds - 1) as nat, queue);
                                ExchangeRun { ok: ok && rest.ok, ..rest }
                            },
                            Ok(Some(report)) => match w.answer(report) {
                                Some(resp) => stop(ok, at + 2, Ok(resp)),
                                None => {
                                    let rest = await_run(
                                        h,
                                        at + 2,
                                        w,
                                        (rounds - 1) as nat,
                                        absorbed(queue, report),
                                    );
                                    ExchangeRun { ok: ok && rest.ok, ..rest }
                                },
                            },
                        }
                    },
                    _ => stop(false, at, w.timed_out()),
                }
            },
            _ => stop(false, at, w.timed_out()),
        }
    }
}

/// `ms` milliseconds in microseconds.
pub open spec fn in_us(ms: u64) -> u64 {
    if ms * 1000 > u64::MAX {
        u64::MAX
    } else {
        (ms * 1000) as u64
    }
}

pub open spec fn deadline(now_us: u64, timeout_ms: u64) -> u64 {
    if now_us + in_us(timeout_ms) > u64::MAX {
        u64::MAX
    } else {
        (now_us + in_us(timeout_ms)) as u64
    }
}

pub open spec fn next_counter(counter: u8) -> u8 {
    if counter == 255 {
        0
    } else {
        (counter + 1) as u8
    }
}

/// Sending `query` under `counter` and waiting for its answer.
pub open spec fn sent_run(
    h: Seq<Event>,
    at: int,
    query: Query,
    timeout_ms: u64,
    counter: u8,
    queue: Seq<IncomingView>,
) -> ExchangeRun {
    let stop = |ok: bool, end: int, outcome: Outcome| ExchangeRun { ok, end, counter, queue, outcome };
    let seq = sequence_of(counter);
    if query.params.len() > MAX_PARAMS {
        stop(true, at, Err(ErrorView::InvalidArgument(too_many_params(query.params.len()))))
    } else {
        match h[at] {
            Event::Wrote { report, outcome } => {
                let ok = report == request_frame(
                    RequestView { seq, domain: query.domain, cmd: query.cmd, params: query.params },
                );
                match outcome {
                    Err(e) => stop(ok, at + 1, Err(e)),
                    Ok(_) => match h[at + 1] {
                        Event::Clock { now_us } => {
                            let w = Awaited {
                                seq,
                                cmd: query.cmd,
                                deadline_us: deadline(now_us, timeout_ms),
                                timeout_ms,
                                counter,
                            };
                            let rest = await_run(h, at + 2, w, MAX_READS as nat, queue);
                            ExchangeRun { ok: ok && rest.ok, ..rest }
                        },
                        _ => stop(false, at, Err(ErrorView::Disconnected)),
                    },
                }
            },
            _ => stop(false, at, Err(ErrorView::Disconnected)),
        }
    }
}

/// Everything between claiming the channel and releasing it. What arrived
/// meanwhile is kept first, so that stale replies are not mistaken for the
/// answer.
pub open spec fn claimed_run(
    h: Seq<Event>,
    at: int,
    query: Query,
    timeout_ms: u64,
    counter: u8,
    queue: Seq<IncomingView>,
) -> ExchangeRun {
    let p = pump_run(h, at, 0, MAX_READS as nat, queue);
    match p.result {
        Err(e) => ExchangeRun { ok: p.ok, end: p.end, counter, queue: p.queue, outcome: Err(e) },
        Ok(_) => {
            let rest = sent_run(h, p.end, query, timeout_ms, next_counter(counter), p.queue);
            ExchangeRun { ok: p.ok && rest.ok, ..rest }
        },
    }
}

/// One exchange: the channel is claimed, used and released.
pub open spec fn exchange_run(
    h: Seq<Event>,
    at: int,
    query: Query,
    timeout_ms: u64,
    counter: u8,
    queue: Seq<IncomingView>,
) -> ExchangeRun {
    match h[at] {
        Event::Acquired { outcome: Err(e) } => ExchangeRun {
            ok: true,
            end: at + 1,
            counter,
            queue,
            outcome: Err(e),
        },
        Event::Acquired { outcome: Ok(_) } => {
            let inner = claimed_run(h, at + 1, query, timeout_ms, counter, queue);
            ExchangeRun { ok: inner.ok && h[inner.end] == Event::Released, end: inner.end + 1, ..inner }
        },
        _ => ExchangeRun { ok: false, end: at, counter, queue, outcome: Err(ErrorView::Disconnected) },
    }
}

/// One entry in the log of a driver.
#[allow(inconsistent_fields)]
pub enum Entry {
    Asked { query: Query, timeout_ms: u64, outcome: Outcome },
    Paused { ms: u64 },
    /// Everything that had arrived was handed out.
    Polled { wait_us: u64, outcome: Result<Seq<IncomingView>, ErrorView> },
}

/// Where a driver stands: how far the history goes, its sequence counter
/// and the events that were not handed out yet.
pub struct Standing {
    pub at: int,
    pub counter: u8,
    pub queue: Seq<IncomingView>,
}

/// Where a driver stands after `entry`; `None` if the history does not show
/// the entry.
pub open spec fn accounted(h: Seq<Event>, s: Standing, entry: Entry) -> Option<Standing> {
    match entry {
        Entry::Asked { query, timeout_ms, outcome } => {
            let run = exchange_run(h, s.at, query, timeout_ms, s.counter, s.queue);
            if run.ok && run.end <= h.len() && run.outcome == outcome {
                Some(Standing { at: run.end, counter: run.counter, queue: run.queue })
            } else {
                None
            }
        },
        Entry::Paused { ms } => if s.at < h.len() && h[s.at] == (Event::Paused { ms }) {
            Some(Standing { at: s.at + 1, ..s })
        } else {
            None
        },
        Entry::Polled { wait_us, outcome } => {
            let run = pump_run(h, s.at, wait_us, MAX_READS as nat, s.queue);
            if !run.ok || run.end > h.len() {
                None
            } else {
                match (run.result, outcome) {
                    (Ok(_), Ok(events)) if events == run.queue => Some(
                        Standing { at: run.end, queue: seq![], ..s },
                    ),
                    (Err(e), Err(seen)) if e == seen => Some(
                        Standing { at: run.end, queue: run.queue, ..s },
                    ),
                    _ => None,
                }
            }
        },
    }
}

/// Where a driver that started at `s` stands after `log`; `None` if the
/// history does not show the log.
pub open spec fn ledger(h: Seq<Event>, s: Standing, log: Seq<Entry>) -> Option<Standing>
    decreases log.len(),
{
    if log.len() == 0 {
        Some(s)
    } else {
        match ledger(h, s, log.drop_last()) {
            Some(before) => accounted(h, before, log.last()),
            None => None,
        }
    }
}

/// Does `later` begin with `h`?
pub open spec fn continues<A>(later: Seq<A>, h: Seq<A>) -> bool {
    h.len() <= later.len() && forall|i: int| 0 <= i < h.len() ==> later[i] == #[trigger] h[i]
}

pub proof fn continues_on<A>(latest: Seq<A>, later: Seq<A>, h: Seq<A>)
    requires
        continues(latest, later),
        continues(later, h),
    ensures
        continues(latest, h),
{
    assert forall|i: int| 0 <= i < h.len() implies latest[i] == #[trigger] h[i] by {
        assert(later[i] == h[i]);
    }
}

pub proof fn pump_run_is_local(h: Seq<Event>, later: Seq<Event>, at: int, wait_us: u64, rounds: nat, queue: Seq<
    IncomingView,
>)
    requires
        continues(later, h),
        0 <= at,
        pump_run(h, at, wait_us, rounds, queue).ok,
        pump_run(h, at, wait_us, rounds, queue).end <= h.len(),
    ensures
        pump_run(later, at, wait_us, rounds, queue) == pump_run(h, at, wait_us, rounds, queue),
        at <= pump_run(h, at, wait_us, rounds, queue).end,
    decreases rounds,
{
    pump_run_advances(h, at, wait_us, rounds, queue);
    if rounds > 0 {
        match h[at] {
            Event::Read { room, timeout_us, outcome: Ok(Some(report)) } => {
                pump_run_advances(h, at + 1, 0, (rounds - 1) as nat, absorbed(queue, report));
                pump_run_is_local(h, later, at + 1, 0, (rounds - 1) as nat, absorbed(queue, report));
                assert(later[at] == h[at]);
            },
            _ => {
                assert(later[at] == h[at]);
            },
        }
    }
}

pub proof fn pump_run_advances(h: Seq<Event>, at: int, wait_us: u64, rounds: nat, queue: Seq<IncomingView>)
    ensures
        at <= pump_run(h, at, wait_us, rounds, queue).end,
    decreases rounds,
{
    if rounds > 0 {
        match h[at] {
            Event::Read { room, timeout_us, outcome: Ok(Some(report)) } => {
                pump_run_advances(h, at + 1, 0, (rounds - 1) as nat, absorbed(queue, report));
            },
            _ => {},
        }
    }
}

pub proof fn await_run_advances(h: Seq<Event>, at: int, w: Awaited, rounds: nat, queue: Seq<IncomingView>)
    ensures
        at <= await_run(h, at, w, rounds, queue).end,
    decreases rounds,
{
    if rounds > 0 {
        match (h[at], h[at + 1]) {
            (Event::Clock { now_us }, Event::Read { room, timeout_us, outcome }) => match outcome {
                Ok(None) => await_run_advances(h, at + 2, w, (rounds - 1) as nat, queue),
                Ok(Some(report)) => await_run_advances(
                    h,
                    at + 2,
                    w,
                    (rounds - 1) as nat,
                    absorbed(queue, report),
                ),
                _ => {},
            },
            _ => {},
        }
    }
}

pub proof fn await_run_is_local(h: Seq<Event>, later: Seq<Event>, at: int, w: Awaited, rounds: nat, queue: Seq<
    IncomingView,
>)
    requires
        continues(later, h),
        0 <= at,
        await_run(h, at, w, rounds, queue).ok,
        await_run(h, at, w, rounds, queue).end <= h.len(),
    ensures
        await_run(later, at, w, rounds, queue) == await_run(h, at, w, rounds, queue),
    decreases rounds,
{
    await_run_advances(h, at, w, rounds, queue);
    if rounds > 0 {
        match h[at] {
            Event::Clock { now_us } => if now_us >= w.deadline_us {
                assert(later[at] == h[at]);
            } else {
                match h[at + 1] {
                    Event::Read { room, timeout_us, outcome } => {
                        match outcome {
                            Ok(None) => {
                                await_run_advances(h, at + 2, w, (rounds - 1) as nat, queue);
                                await_run_is_local(h, later, at + 2, w, (rounds - 1) as nat, queue);
                            },
                            Ok(Some(report)) => if w.answer(report) is None {
                                let q = absorbed(queue, report);
                                await_run_advances(h, at + 2, w, (rounds - 1) as nat, q);
                                await_run_is_local(h, later, at + 2, w, (rounds - 1) as nat, q);
                            },
                            _ => {},
                        }
                        assert(later[at] == h[at]);
                        assert(later[at + 1] == h[at + 1]);
                    },
                    _ => {},
                }
            },
            _ => {},
        }
    }
}

pub proof fn sent_run_is_local(
    h: Seq<Event>,
    later: Seq<Event>,
    at: int,
    query: Query,
    timeout_ms: u64,
    counter: u8,
    queue: Seq<IncomingView>,
)
    requires
        continues(later, h),
        0 <= at,
        sent_run(h, at, query, timeout_ms, counter, queue).ok,
        sent_run(h, at, query, timeout_ms, counter, queue).end <= h.len(),
    ensures
        sent_run(later, at, query, timeout_ms, counter, queue) == sent_run(
            h,
            at,
            query,
            timeout_ms,
            counter,
            queue,
        ),
        at <= sent_run(h, at, query, timeout_ms, counter, queue).end,
{
    if query.params.len() <= MAX_PARAMS {
        match h[at] {
            Event::Wrote { report, outcome } => match outcome {
                Err(e) => assert(later[at] == h[at]),
                Ok(_) => match h[at + 1] {
                    Event::Clock { now_us } => {
                        let w = Awaited {
                            seq: sequence_of(counter),
                            cmd: query.cmd,
                            deadline_us: deadline(now_us, timeout_ms),
                            timeout_ms,
                            counter,
                        };
                        await_run_advances(h, at + 2, w, MAX_READS as nat, queue);
                        await_run_is_local(h, later, at + 2, w, MAX_READS as nat, queue);
                        assert(later[at] == h[at]);
                        assert(later[at + 1] == h[at + 1]);
                    },
                    _ => {},
                },
            },
            _ => {},
        }
    }
}

pub proof fn claimed_run_is_local(
    h: Seq<Event>,
    later: Seq<Event>,
    at: int,
    query: Query,
    timeout_ms: u64,
    counter: u8,
    queue: Seq<IncomingView>,
)
    requires
        continues(later, h),
        0 <= at,
        claimed_run(h, at, query, timeout_ms, counter, queue).ok,
        claimed_run(h, at, query, timeout_ms, counter, queue).end <= h.len(),
    ensures
        claimed_run(later, at, query, timeout_ms, counter, queue) == claimed_run(
            h,
            at,
            query,
            timeout_ms,
            counter,
            queue,
        ),
        at <= claimed_run(h, at, query, timeout_ms, counter, queue).end,
{
    let p = pump_run(h, at, 0, MAX_READS as nat, queue);
    pump_run_advances(h, at, 0, MAX_READS as nat, queue);
    if p.result is Ok {
        sent_run_is_local(h, later, p.end, query, timeout_ms, next_counter(counter), p.queue);
    }
    pump_run_is_local(h, later, at, 0, MAX_READS as nat, queue);
}

pub proof fn exchange_run_is_local(
    h: Seq<Event>,
    later: Seq<Event>,
    at: int,
    query: Query,
    timeout_ms: u64,
    counter: u8,
    queue: Seq<IncomingView>,
)
    requires
        continues(later, h),
        0 <= at,
        exchange_run(h, at, query, timeout_ms, counter, queue).ok,
        exchange_run(h, at, query, timeout_ms, counter, queue).end <= h.len(),
    ensures
        exchange_run(later, at, query, timeout_ms, counter, queue) == exchange_run(
            h,
            at,
            query,
            timeout_ms,
            counter,
            queue,
        ),
        at < exchange_run(h, at, query, timeout_ms, counter, queue).end,
{
    match h[at] {
        Event::Acquired { outcome: Ok(_) } => {
            claimed_run_is_local(h, later, at + 1, query, timeout_ms, counter, queue);
            let inner = claimed_run(h, at + 1, query, timeout_ms, counter, queue);
            assert(later[at] == h[at]);
            assert(later[inner.end] == h[inner.end]);
        },
        _ => {
            assert(later[at] == h[at]);
        },
    }
}

proof fn await_answers(h: Seq<Event>, at: int, w: Awaited, rounds: nat, queue: Seq<IncomingView>)
    ensures
        await_run(h, at, w, rounds, queue).counter == w.counter,
        await_run(h, at, w, rounds, queue).outcome matches Ok(resp) ==> resp.answers(w.seq, w.cmd),
    decreases rounds,
{
    if rounds > 0 {
        match (h[at], h[at + 1]) {
            (Event::Clock { now_us }, Event::Read { room, timeout_us, outcome }) => match outcome {
                Ok(None) => await_answers(h, at + 2, w, (rounds - 1) as nat, queue),
                Ok(Some(report)) => await_answers(h, at + 2, w, (rounds - 1) as nat, absorbed(queue, report)),
                _ => {},
            },
            _ => {},
        }
    }
}

/// What an exchange returns as the answer does answer the command: it
/// carries the command and the sequence number that were sent.
pub proof fn exchange_answers(
    h: Seq<Event>,
    at: int,
    query: Query,
    timeout_ms: u64,
    counter: u8,
    queue: Seq<IncomingView>,
)
    ensures
        exchange_run(h, at, query, timeout_ms, counter, queue).outcome matches Ok(resp) ==> {
            &&& resp.answers(
                sequence_of(exchange_run(h, at, query, timeout_ms, counter, queue).counter),
                query.cmd,
            )
            &&& exchange_run(h, at, query, timeout_ms, counter, queue).counter == next_counter(counter)
        },
{
    let p = pump_run(h, at + 1, 0, MAX_READS as nat, queue);
    match h[p.end + 1] {
        Event::Clock { now_us } => {
            let w = Awaited {
                seq: sequence_of(next_counter(counter)),
                cmd: query.cmd,
                deadline_us: deadline(now_us, timeout_ms),
                timeout_ms,
                counter: next_counter(counter),
            };
            await_answers(h, p.end + 2, w, MAX_READS as nat, p.queue);
        },
        _ => {},
    }
}

/// The wait for an answer: an answer that is read in time is what comes of the
/// command, a failure of the channel is passed on, and once the time is up the
/// command has timed out.
pub proof fn waiting_ends(h: Seq<Event>, at: int, w: Awaited, rounds: nat, queue: Seq<IncomingView>, now: u64)
    requires
        rounds > 0,
        h[at] == (Event::Clock { now_us: now }),
    ensures
        w.deadline_us <= now ==> await_run(h, at, w, rounds, queue).outcome == Err::<ResponseView, ErrorView>(
            ErrorView::Timeout { cmd: w.cmd, timeout_ms: w.timeout_ms },
        ),
        now < w.deadline_us ==> match h[at + 1] {
            Event::Read { timeout_us, outcome, .. } => {
                &&& await_run(h, at, w, rounds, queue).ok ==> now + timeout_us == w.deadline_us
                &&& outcome matches Err(e) ==> await_run(h, at, w, rounds, queue).outcome == Err::<
                    ResponseView,
                    ErrorView,
                >(e)
                &&& outcome matches Ok(Some(report)) ==> (decoded_response(report) matches Ok(resp) ==> (resp.answers(
                    w.seq,
                    w.cmd,
                ) ==> await_run(h, at, w, rounds, queue).outcome == Ok::<ResponseView, ErrorView>(resp)))
            },
            _ => !await_run(h, at, w, rounds, queue).ok,
        },
{
}

/// A command may take as long as its timeout says, to the microsecond, unless
/// the clock would run over; sequence counters go up by one and start again.
pub proof fn deadlines_are_kept(now_us: u64, timeout_ms: u64, counter: u8)
    ensures
        now_us + 1000 * timeout_ms <= u64::MAX ==> deadline(now_us, timeout_ms) - now_us == 1000 * timeout_ms,
        now_us <= deadline(now_us, timeout_ms),
        next_counter(counter) == (counter + 1) % 256,
{
}

/// The event in a report that nobody waits for; malformed frames hold none.
pub open spec fn event_in(report: Seq<u8>) -> Seq<IncomingView> {
    match decoded_response(report) {
        Ok(resp) => seq![IncomingView::Frame(resp)],
        Err(DecodeError::OtherReport(report_id)) => seq![
            IncomingView::Other { report_id, data: report.skip(1) },
        ],
        Err(_) => seq![],
    }
}

/// The events in the reports that were read from `from` up to `to`, in the
/// order of reading.
pub open spec fn heard(h: Seq<Event>, from: int, to: int) -> Seq<IncomingView>
    decreases to - from,
{
    if from >= to {
        seq![]
    } else {
        match h[from] {
            Event::Read { room, timeout_us, outcome: Ok(Some(report)) } => event_in(report) + heard(h, from + 1, to),
            _ => heard(h, from + 1, to),
        }
    }
}

/// The last [`MAX_QUEUED_EVENTS`] of `events`, in the same order.
pub open spec fn newest(events: Seq<IncomingView>) -> Seq<IncomingView> {
    if events.len() > MAX_QUEUED_EVENTS {
        events.skip(events.len() - MAX_QUEUED_EVENTS)
    } else {
        events
    }
}

/// Nothing was written from `from` up to `to`.
pub open spec fn nothing_written(h: Seq<Event>, from: int, to: int) -> bool {
    forall|i: int| from <= i < to ==> !(#[trigger] h[i] is Wrote)
}

/// Did the event write `report`?
pub open spec fn writes(event: Event, report: Seq<u8>) -> bool {
    match event {
        Event::Wrote { report: written, outcome: Ok(_) } => written == report,
        _ => false,
    }
}

/// Did the event bring a reply to `cmd` under `seq`?
pub open spec fn brings_answer(event: Event, seq: u8, cmd: u8) -> bool {
    match event {
        Event::Read { room, timeout_us, outcome: Ok(Some(report)) } => match decoded_response(report) {
            Ok(resp) => resp.answers(seq, cmd),
            Err(_) => false,
        },
        _ => false,
    }
}

/// Did the event bring the reply `resp`?
pub open spec fn brings(event: Event, resp: ResponseView) -> bool {
    match event {
        Event::Read { room, timeout_us, outcome: Ok(Some(report)) } => decoded_response(report) == Ok::<
            ResponseView,
            DecodeError,
        >(resp),
        _ => false,
    }
}

/// Where an exchange that begins at `at` writes its command: once everything
/// that was waiting has been read.
pub open spec fn writing_point(h: Seq<Event>, at: int, queue: Seq<IncomingView>) -> int {
    pump_run(h, at + 1, 0, MAX_READS as nat, queue).end
}

/// Between `at` and `end`, `request` was written once, at `sent`, and `resp`
/// is the first answer to it that was read after that.
pub open spec fn answered(
    h: Seq<Event>,
    at: int,
    sent: int,
    end: int,
    request: RequestView,
    resp: ResponseView,
) -> bool {
    &&& at < sent < end - 2
    &&& nothing_written(h, at, sent)
    &&& writes(h[sent], request_frame(request))
    &&& nothing_written(h, sent + 1, end)
    &&& forall|i: int| sent < i < end - 2 ==> !brings_answer(#[trigger] h[i], request.seq, request.cmd)
    &&& brings(h[end - 2], resp)
    &&& resp.answers(request.seq, request.cmd)
}

proof fn absorbing_keeps_the_newest(events: Seq<IncomingView>, report: Seq<u8>)
    ensures
        absorbed(newest(events), report) == newest(events + event_in(report)),
{
    let more = events + event_in(report);
    if event_in(report).len() == 0 {
        assert(more =~= events);
    } else {
        assert(absorbed(newest(events), report) =~= newest(more));
    }
}

proof fn heard_in_parts(h: Seq<Event>, from: int, mid: int, to: int)
    requires
        from <= mid <= to,
    ensures
        heard(h, from, to) == heard(h, from, mid) + heard(h, mid, to),
    decreases mid - from,
{
    if from < mid {
        heard_in_parts(h, from + 1, mid, to);
    }
    assert(heard(h, from, to) =~= heard(h, from, mid) + heard(h, mid, to));
}

proof fn pump_keeps_the_newest(
    h: Seq<Event>,
    at: int,
    wait_us: u64,
    rounds: nat,
    events: Seq<IncomingView>,
)
    ensures
        ({
            let run = pump_run(h, at, wait_us, rounds, newest(events));
            &&& at <= run.end
            &&& nothing_written(h, at, run.end)
            &&& run.queue == newest(events + heard(h, at, run.end))
        }),
    decreases rounds,
{
    let run = pump_run(h, at, wait_us, rounds, newest(events));
    let waiting = rounds > 0 && (h[at] matches Event::Read { room, timeout_us, outcome: Ok(Some(_)) });
    if waiting {
        let report = h[at]->Read_outcome->Ok_0->Some_0;
        absorbing_keeps_the_newest(events, report);
        let more = events + event_in(report);
        pump_keeps_the_newest(h, at + 1, 0, (rounds - 1) as nat, more);
        assert(more + heard(h, at + 1, run.end) =~= events + heard(h, at, run.end));
        assert forall|i: int| at <= i < run.end implies !(#[trigger] h[i] is Wrote) by {
            assert(i == at || at + 1 <= i);
        }
    } else {
        assert(heard(h, at + 1, run.end).len() == 0);
        assert(heard(h, at, run.end).len() == 0);
        assert(events + heard(h, at, run.end) =~= events);
    }
}

/// Everything that the device sent on its own comes out of a poll in the order
/// of arrival, behind what was waiting; of too much the newest.
pub proof fn polls_hand_out_in_order(h: Seq<Event>, at: int, wait_us: u64, queue: Seq<IncomingView>)
    requires
        queue.len() <= MAX_QUEUED_EVENTS,
    ensures
        ({
            let run = pump_run(h, at, wait_us, MAX_READS as nat, queue);
            &&& nothing_written(h, at, run.end)
            &&& run.queue == newest(queue + heard(h, at, run.end))
        }),
{
    pump_keeps_the_newest(h, at, wait_us, MAX_READS as nat, queue);
}

proof fn await_keeps_the_newest(
    h: Seq<Event>,
    at: int,
    w: Awaited,
    rounds: nat,
    events: Seq<IncomingView>,
)
    ensures
        ({
            let run = await_run(h, at, w, rounds, newest(events));
            &&& at <= run.end
            &&& nothing_written(h, at, run.end)
            &&& match run.outcome {
                Ok(resp) => {
                    &&& at < run.end - 1
                    &&& brings(h[run.end - 1], resp)
                    &&& run.queue == newest(events + heard(h, at, run.end - 1))
                    &&& forall|i: int|
                        at <= i < run.end - 1 ==> !brings_answer(#[trigger] h[i], w.seq, w.cmd)
                },
                Err(_) => run.ok ==> run.queue == newest(events + heard(h, at, run.end)),
            }
        }),
    decreases rounds,
{
    let run = await_run(h, at, w, rounds, newest(events));
    let reading = rounds > 0 && (h[at] matches Event::Clock { now_us } && now_us < w.deadline_us) && h[at
        + 1] is Read;
    if !reading {
        assert(heard(h, at + 1, run.end).len() == 0);
        assert(heard(h, at, run.end).len() == 0);
        assert(events + heard(h, at, run.end) =~= events);
    } else {
        let outcome = h[at + 1]->Read_outcome;
        let more = match outcome {
            Ok(Some(report)) => events + event_in(report),
            _ => events,
        };
        let goes_on = match outcome {
            Ok(None) => true,
            Ok(Some(report)) => w.answer(report) is None,
            Err(_) => false,
        };
        if goes_on {
            if let Ok(Some(report)) = outcome {
                absorbing_keeps_the_newest(events, report);
            }
            await_keeps_the_newest(h, at + 2, w, (rounds - 1) as nat, more);
            let last = if run.outcome is Ok {
                run.end - 1
            } else {
                run.end
            };
            assert(heard(h, at, last) == heard(h, at + 1, last));
            assert(more + heard(h, at + 2, last) =~= events + heard(h, at + 1, last));
            assert forall|i: int| at <= i < run.end implies !(#[trigger] h[i] is Wrote) by {
                assert(i == at || i == at + 1 || at + 2 <= i);
            }
            if run.outcome is Ok {
                assert forall|i: int| at <= i < run.end - 1 implies !brings_answer(
                    #[trigger] h[i],
                    w.seq,
                    w.cmd,
                ) by {
                    assert(i == at || i == at + 1 || at + 2 <= i);
                }
            }
        } else {
            assert(run.end == at + 2);
            assert(heard(h, at + 1, at + 1).len() == 0);
            assert(heard(h, at, at + 1).len() == 0);
            if outcome is Err {
                assert(heard(h, at + 2, at + 2).len() == 0);
                assert(heard(h, at + 1, at + 2).len() == 0);
                assert(heard(h, at, at + 2).len() == 0);
            }
            assert(events + heard(h, at, at + 1) =~= events);
        }
    }
}

/// The part of an exchange after everything that was waiting has been read.
proof fn sending_keeps_the_newest(
    h: Seq<Event>,
    at: int,
    query: Query,
    timeout_ms: u64,
    counter: u8,
    events: Seq<IncomingView>,
)
    requires
        sent_run(h, at, query, timeout_ms, counter, newest(events)).ok,
    ensures
        ({
            let run = sent_run(h, at, query, timeout_ms, counter, newest(events));
            let seq = sequence_of(counter);
            let request = RequestView { seq, domain: query.domain, cmd: query.cmd, params: query.params };
            &&& at <= run.end
            &&& run.counter == counter
            &&& nothing_written(h, at + 1, run.end)
            &&& query.params.len() > MAX_PARAMS ==> run.end == at
            &&& match run.outcome {
                Ok(resp) => {
                    &&& at < run.end - 1
                    &&& writes(h[at], request_frame(request))
                    &&& brings(h[run.end - 1], resp)
                    &&& run.queue == newest(events + heard(h, at, run.end - 1))
                    &&& forall|i: int|
                        at < i < run.end - 1 ==> !brings_answer(#[trigger] h[i], seq, query.cmd)
                },
                Err(_) => run.queue == newest(events + heard(h, at, run.end)),
            }
        }),
{
    let run = sent_run(h, at, query, timeout_ms, counter, newest(events));
    let awaiting = query.params.len() <= MAX_PARAMS && (h[at] matches Event::Wrote { report, outcome: Ok(_) })
        && h[at + 1] is Clock;
    if awaiting {
        let w = Awaited {
            seq: sequence_of(counter),
            cmd: query.cmd,
            deadline_us: deadline(h[at + 1]->now_us, timeout_ms),
            timeout_ms,
            counter,
        };
        await_answers(h, at + 2, w, MAX_READS as nat, newest(events));
        await_keeps_the_newest(h, at + 2, w, MAX_READS as nat, events);
        let last = if run.outcome is Ok {
            run.end - 1
        } else {
            run.end
        };
        assert(heard(h, at + 1, last) == heard(h, at + 2, last));
        assert(heard(h, at, last) == heard(h, at + 1, last));
        assert forall|i: int| at + 1 <= i < run.end implies !(#[trigger] h[i] is Wrote) by {
            assert(i == at + 1 || at + 2 <= i);
        }
        if run.outcome is Ok {
            assert forall|i: int| at < i < run.end - 1 implies !brings_answer(
                #[trigger] h[i],
                w.seq,
                w.cmd,
            ) by {
                assert(i == at + 1 || at + 2 <= i);
            }
        }
    } else {
        assert(heard(h, at + 1, run.end).len() == 0);
        assert(heard(h, at, run.end).len() == 0);
        assert(events + heard(h, at, run.end) =~= events);
    }
}

/// The answer to a command is the first reply to it that is read after it was
/// written: reports that were waiting before are never taken for it, whatever
/// sequence number and command they carry. They, and the other reports that
/// are read until then, are kept in the order of arrival; of too many the
/// newest.
pub proof fn waiting_reports_are_not_answers(
    h: Seq<Event>,
    at: int,
    query: Query,
    timeout_ms: u64,
    counter: u8,
    queue: Seq<IncomingView>,
)
    requires
        queue.len() <= MAX_QUEUED_EVENTS,
        exchange_run(h, at, query, timeout_ms, counter, queue).ok,
    ensures
        ({
            let run = exchange_run(h, at, query, timeout_ms, counter, queue);
            match run.outcome {
                Ok(resp) => {
                    let request = RequestView {
                        seq: sequence_of(run.counter),
                        domain: query.domain,
                        cmd: query.cmd,
                        params: query.params,
                    };
                    &&& answered(h, at, writing_point(h, at, queue), run.end, request, resp)
                    &&& run.queue == newest(queue + heard(h, at, run.end - 2))
                },
                Err(_) => run.queue == newest(queue + heard(h, at, run.end)),
            }
        }),
{
    let run = exchange_run(h, at, query, timeout_ms, counter, queue);
    if h[at] matches Event::Acquired { outcome: Ok(_) } {
        let p = pump_run(h, at + 1, 0, MAX_READS as nat, queue);
        pump_keeps_the_newest(h, at + 1, 0, MAX_READS as nat, queue);
        let before = queue + heard(h, at + 1, p.end);
        let inner = claimed_run(h, at + 1, query, timeout_ms, counter, queue);
        if p.result is Ok {
            exchange_answers(h, at, query, timeout_ms, counter, queue);
            sending_keeps_the_newest(h, p.end, query, timeout_ms, next_counter(counter), before);
        } else {
            assert(heard(h, p.end, p.end).len() == 0);
            assert(before + heard(h, p.end, p.end) =~= before);
        }
        let last = if run.outcome is Ok {
            inner.end - 1
        } else {
            inner.end
        };
        heard_in_parts(h, at + 1, p.end, last);
        assert(before + heard(h, p.end, last) =~= queue + heard(h, at + 1, last));
        assert(heard(h, at, last) == heard(h, at + 1, last));
        if run.outcome is Ok {
            assert forall|i: int| at <= i < p.end implies !(#[trigger] h[i] is Wrote) by {
                assert(i == at || at + 1 <= i);
            }
            assert forall|i: int| p.end + 1 <= i < run.end implies !(#[trigger] h[i] is Wrote) by {
                assert(i == inner.end || i < inner.end);
            }
        } else {
            heard_in_parts(h, at, inner.end, run.end);
            assert(heard(h, run.end, run.end).len() == 0);
            assert(heard(h, inner.end, run.end).len() == 0);
            assert(queue + heard(h, at, run.end) =~= queue + heard(h, at, inner.end));
        }
    } else {
        assert(heard(h, at + 1, run.end).len() == 0);
        assert(heard(h, at, run.end).len() == 0);
        assert(queue + heard(h, at, run.end) =~= queue);
    }
}

/// A command with too many parameter bytes is not sent: it is refused as soon
/// as the channel is claimed and what was waiting has been read.
pub proof fn oversized_commands_are_not_sent(
    h: Seq<Event>,
    at: int,
    query: Query,
    timeout_ms: u64,
    counter: u8,
    queue: Seq<IncomingView>,
)
    requires
        query.params.len() > MAX_PARAMS,
        queue.len() <= MAX_QUEUED_EVENTS,
        exchange_run(h, at, query, timeout_ms, counter, queue).ok,
    ensures
        ({
            let run = exchange_run(h, at, query, timeout_ms, counter, queue);
            &&& nothing_written(h, at, run.end)
            &&& run.outcome == Err::<ResponseView, ErrorView>(
                match (h[at], pump_run(h, at + 1, 0, MAX_READS as nat, queue).result) {
                    (Event::Acquired { outcome: Err(e) }, _) => e,
                    (_, Err(e)) => e,
                    _ => ErrorView::InvalidArgument(too_many_params(query.params.len())),
                },
            )
        }),
{
    let run = exchange_run(h, at, query, timeout_ms, counter, queue);
    if h[at] matches Event::Acquired { outcome: Ok(_) } {
        let p = pump_run(h, at + 1, 0, MAX_READS as nat, queue);
        pump_keeps_the_newest(h, at + 1, 0, MAX_READS as nat, queue);
        assert forall|i: int| at <= i < run.end implies !(#[trigger] h[i] is Wrote) by {
            assert(i == at || i == p.end || at + 1 <= i < p.end);
        }
    }
}

/// What a poll after an exchange hands out: the events that were waiting
/// before the exchange, those that were heard during it but for the answer,
/// and those that the poll finds, in the order of arrival; of too many the
/// newest.
pub proof fn polls_hand_out_what_was_not_the_answer(
    h: Seq<Event>,
    at: int,
    query: Query,
    timeout_ms: u64,
    counter: u8,
    queue: Seq<IncomingView>,
    wait_us: u64,
)
    requires
        queue.len() <= MAX_QUEUED_EVENTS,
        exchange_run(h, at, query, timeout_ms, counter, queue).ok,
        exchange_run(h, at, query, timeout_ms, counter, queue).outcome is Ok,
    ensures
        ({
            let run = exchange_run(h, at, query, timeout_ms, counter, queue);
            let poll = pump_run(h, run.end, wait_us, MAX_READS as nat, run.queue);
            poll.queue == newest(queue + heard(h, at, run.end - 2) + heard(h, run.end, poll.end))
        }),
{
    let run = exchange_run(h, at, query, timeout_ms, counter, queue);
    waiting_reports_are_not_answers(h, at, query, timeout_ms, counter, queue);
    pump_keeps_the_newest(
        h,
        run.end,
        wait_us,
        MAX_READS as nat,
        queue + heard(h, at, run.end - 2),
    );
}

/// What a history shows, every continuation of it shows too.
pub proof fn ledger_is_local(h: Seq<Event>, later: Seq<Event>, s: Standing, log: Seq<Entry>)
    requires
        continues(later, h),
        0 <= s.at,
        ledger(h, s, log) is Some,
    ensures
        ledger(later, s, log) == ledger(h, s, log),
        s.at <= ledger(h, s, log)->0.at,
    decreases log.len(),
{
    if log.len() > 0 {
        ledger_is_local(h, later, s, log.drop_last());
        let before = ledger(h, s, log.drop_last())->0;
        match log.last() {
            Entry::Asked { query, timeout_ms, outcome } => {
                exchange_run_is_local(h, later, before.at, query, timeout_ms, before.counter, before.queue);
            },
            Entry::Paused { ms } => {
                assert(later[before.at] == h[before.at]);
            },
            Entry::Polled { wait_us, outcome } => {
                pump_run_is_local(h, later, before.at, wait_us, MAX_READS as nat, before.queue);
            },
        }
    }
}

/// At most [`MAX_QUEUED_EVENTS`] events are kept.
pub proof fn queue_stays_bounded(queue: Seq<IncomingView>, report: Seq<u8>)
    requires
        queue.len() <= MAX_QUEUED_EVENTS,
    ensures
        absorbed(queue, report).len() <= MAX_QUEUED_EVENTS,
{
}

/// What is kept of a report that nobody waits for: a reply as such, another
/// report with its number and the bytes behind it, and nothing of a malformed
/// frame. At most 64 events are kept.
pub proof fn reports_become_events(queue: Seq<IncomingView>, report: Seq<u8>)
    ensures
        decoded_response(report) matches Ok(resp) ==> absorbed(queue, report).last() == IncomingView::Frame(resp),
        decoded_response(report) matches Err(DecodeError::OtherReport(id)) ==> absorbed(queue, report).last() == (
        IncomingView::Other { report_id: id, data: report.skip(1) }),
        decoded_response(report) is Err && !(decoded_response(report)->Err_0 is OtherReport) ==> absorbed(
            queue,
            report,
        ) == queue,
        queue.len() < 64 && absorbed(queue, report) != queue ==> absorbed(queue, report).drop_last() == queue,
        queue.len() <= 64 ==> absorbed(queue, report).len() <= 64,
{
    assert(queue.push(absorbed(queue, report).last()).drop_last() =~= queue);
}

/// An event that is kept goes to the end, behind the newest that were there.
pub proof fn newest_events_stay(queue: Seq<IncomingView>, event: IncomingView)
    requires
        queue.len() <= MAX_QUEUED_EVENTS,
    ensures
        enqueued(queue, event).last() == event,
        queue.len() < MAX_QUEUED_EVENTS ==> enqueued(queue, event).drop_last() == queue,
        queue.len() == MAX_QUEUED_EVENTS ==> enqueued(queue, event).drop_last() == queue.skip(1),
{
    assert(enqueued(queue, event).drop_last() =~= if queue.len() < MAX_QUEUED_EVENTS {
        queue
    } else {
        queue.skip(1)
    });
}

} // verus!
