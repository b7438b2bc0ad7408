//! Laws of the simulated headset: what it is told it remembers, and what the
//! driver reads back is what the driver wrote.

use super::driver::{domain_of, BlackSharkV2Hs};
use super::exchange::{
    absorbed, accounted, await_run, await_run_advances, claimed_run, claimed_run_is_local, continues, continues_on, deadline,
    exchange_run, exchange_run_is_local, in_us, ledger, ledger_is_local, next_counter, pump_run, sent_run,
    sent_run_is_local, Awaited, Entry, ExchangeRun, IncomingView, Outcome, PumpRun, Query, Standing, MAX_READS,
};
use super::protocol::reg;
use super::protocol::{
    curve_of, gain_survives_the_wire, request_frame, request_frame_roundtrip, response_frame,
    response_frame_roundtrip, sequence_of, signed_byte, wire_byte, wire_bytes, RequestView, ResponseView, DIR_REPLY, DOMAIN_HEADSET_RF,
    EQ_WIRE_OFFSET, MAX_PARAMS, SIDETONE_MAX,
};
use super::reading::{curve_step, outcome_at, preset_step, shows, Refresh, CURVE_PAUSE_MS};
use super::state::{led_raw_roundtrip, LedMode, StateView};
use crate::actions::request_step;
use super::sim::{
    at_most, dongle_value, dongle_written, flag, gain_byte, handled, headset_value, headset_written, later,
    reaches_headset, stored_curve, Registers, SimTransport, SimView,
};
use crate::devices::Connection;
use crate::eq::{
    bands_from_at, clamped, clamped_at, clamped_gain, clamping_is_idempotent, in_range, preset_raw_roundtrip, Bands, HardwarePreset, BAND_COUNT,
};
use crate::error::ErrorView;
use crate::hid::transport::{Event, Transport};
use crate::manager::Request as DeviceRequest;
use vstd::prelude::*;

verus! {

/// Nothing answers on the RF domain while the headset link is down, and
/// nothing changes.
pub proof fn silent_without_link(r: Registers, q: RequestView)
    requires
        q.domain == DOMAIN_HEADSET_RF,
    ensures
        handled(Connection::Dongle, false, r, q) == (r, None::<Seq<u8>>),
{
}

/// A request that was lost with the link leaves no trace: once the link is
/// back, everything is answered as if it had never been sent.
pub proof fn lost_requests_leave_no_trace(r: Registers, lost: RequestView, q: RequestView)
    requires
        lost.domain == DOMAIN_HEADSET_RF,
    ensures
        handled(Connection::Dongle, true, handled(Connection::Dongle, false, r, lost).0, q) == handled(
            Connection::Dongle,
            true,
            r,
            q,
        ),
{
}

/// A write is answered with one zero byte, or not at all; one that is not
/// answered changes nothing.
pub proof fn writes_are_confirmed(connection: Connection, link_up: bool, r: Registers, q: RequestView)
    requires
        q.cmd >= reg::SET,
    ensures
        match handled(connection, link_up, r, q) {
            (after, Some(payload)) => payload == seq![0u8],
            (after, None) => after == r,
        },
{
}

/// Asking changes nothing.
pub proof fn reading_changes_nothing(connection: Connection, link_up: bool, r: Registers, q: RequestView)
    requires
        q.cmd < reg::SET,
    ensures
        handled(connection, link_up, r, q).0 == r,
{
}

/// Selecting a preset leaves the Custom slot and the enhancement alone; the
/// slot reads the same whichever preset is active.
pub proof fn presets_leave_the_custom_slot(r: Registers, params: Seq<u8>)
    ensures
        match headset_written(r, reg::EQ_PRESET, params) {
            Some(after) => {
                &&& after.custom == r.custom
                &&& after.enhancement == r.enhancement
                &&& headset_value(after, reg::EQ_BANDS) == headset_value(r, reg::EQ_BANDS)
            },
            None => params.len() == 0,
        },
{
}

/// Writing a setting of the headset changes no other setting.
pub proof fn writes_keep_to_their_register(r: Registers, register: u8, other: u8, params: Seq<u8>)
    requires
        register != other,
    ensures
        match headset_written(r, register, params) {
            Some(after) => headset_value(after, other) == headset_value(r, other),
            None => true,
        },
{
}

/// What the headset reports of a setting after it was written: sleep time as
/// it was given, switches as on or off, the sidetone level up to its limit.
pub proof fn settings_read_back(r: Registers, v: u8)
    ensures
        headset_value(headset_written(r, reg::SLEEP_TIMER, seq![v])->0, reg::SLEEP_TIMER) == Some(seq![v]),
        headset_value(headset_written(r, reg::SIDETONE_LEVEL, seq![v])->0, reg::SIDETONE_LEVEL) == Some(
            seq![at_most(v, SIDETONE_MAX)],
        ),
        headset_value(headset_written(r, reg::SIDETONE, seq![v])->0, reg::SIDETONE) == Some(seq![flag(v)]),
        headset_value(headset_written(r, reg::BT_DND, seq![v])->0, reg::BT_DND) == Some(seq![flag(v)]),
        headset_value(headset_written(r, reg::EQ_ENABLE, seq![v])->0, reg::EQ_ENABLE) == Some(seq![flag(v)]),
        headset_value(headset_written(r, reg::ENHANCEMENT, seq![v])->0, reg::ENHANCEMENT) == Some(
            seq![flag(v)],
        ),
        !(HardwarePreset::of_raw(v) is Unknown) ==> headset_value(
            headset_written(r, reg::EQ_PRESET, seq![v])->0,
            reg::EQ_PRESET,
        ) == Some(seq![v]),
        dongle_value(dongle_written(r, reg::DONGLE_LED, seq![v])->0, true, reg::DONGLE_LED) == Some(
            seq![at_most(v, 3)],
        ),
{
}

/// A curve that was written reads back clamped to the hardware range, and
/// unchanged if it was in range.
pub proof fn curve_reads_back(r: Registers, bands: Bands)
    ensures
        headset_written(r, reg::EQ_BANDS, wire_bytes(bands)) is Some,
        curve_of(
            headset_value(headset_written(r, reg::EQ_BANDS, wire_bytes(bands))->0, reg::EQ_BANDS)->0,
        ) == Some(clamped(bands)),
        in_range(bands) ==> clamped(bands) == bands,
{
    let wire = wire_bytes(bands);
    let stored = stored_curve(wire);
    bands_from_at(|i: int| clamped_gain(signed_byte(wire[i]) - EQ_WIRE_OFFSET));
    let payload = headset_value(headset_written(r, reg::EQ_BANDS, wire)->0, reg::EQ_BANDS)->0;
    let read = curve_of(payload)->0;
    bands_from_at(|i: int| clamped_gain(signed_byte(payload[i])));
    clamped_at(bands);
    clamping_is_idempotent(bands);
    assert forall|i: int| 0 <= i < BAND_COUNT implies #[trigger] read@[i] == clamped(bands)@[i] by {
        gain_survives_the_wire(bands@[i]);
        assert(wire[i] == wire_byte(bands@[i]));
        assert(stored@[i] == clamped_gain(bands@[i] as int));
        assert(payload[i] == gain_byte(stored@[i]));
    }
    assert(read =~= clamped(bands));
}

/// A reachable headset confirms a curve and then answers a request for it with
/// ten signed bytes, the gains clamped to the hardware range.
pub proof fn curve_is_answered(
    connection: Connection,
    link_up: bool,
    r: Registers,
    write: RequestView,
    read: RequestView,
    bands: Bands,
)
    requires
        reaches_headset(connection, link_up, write.domain),
        reaches_headset(connection, link_up, read.domain),
        write.cmd == reg::set_command(reg::EQ_BANDS),
        write.params == wire_bytes(bands),
        read.cmd == reg::EQ_BANDS,
    ensures
        ({
            let (after, confirmed) = handled(connection, link_up, r, write);
            let (unchanged, answer) = handled(connection, link_up, after, read);
            &&& confirmed == Some(seq![0u8])
            &&& unchanged == after
            &&& answer is Some
            &&& answer->0.len() == BAND_COUNT
            &&& forall|i: int|
                0 <= i < BAND_COUNT ==> signed_byte(#[trigger] answer->0[i]) == clamped(bands)@[i]
            &&& curve_of(answer->0) == Some(clamped(bands))
        }),
{
    reg::set_commands(reg::EQ_BANDS);
    curve_reads_back(r, bands);
    let wire = wire_bytes(bands);
    let stored = stored_curve(wire);
    let (after, confirmed) = handled(connection, link_up, r, write);
    let answer = handled(connection, link_up, after, read).1->0;
    bands_from_at(|i: int| clamped_gain(signed_byte(wire[i]) - EQ_WIRE_OFFSET));
    clamped_at(bands);
    assert forall|i: int| 0 <= i < BAND_COUNT implies signed_byte(#[trigger] answer[i]) == clamped(bands)@[i] by {
        gain_survives_the_wire(bands@[i]);
        assert(wire[i] == wire_byte(bands@[i]));
        assert(stored@[i] == clamped_gain(bands@[i] as int));
        assert(answer[i] == gain_byte(stored@[i]));
    }
}

/// A reachable headset confirms the choice of any preset slot. The active
/// preset is then the chosen one if the slot exists, and the same as before
/// otherwise; everything else, the curve of the Custom slot and the enhancement
/// among it, is answered as before.
pub proof fn preset_is_answered(
    connection: Connection,
    link_up: bool,
    r: Registers,
    write: RequestView,
    read: RequestView,
    slot: u8,
)
    requires
        reaches_headset(connection, link_up, write.domain),
        reaches_headset(connection, link_up, read.domain),
        write.cmd == reg::set_command(reg::EQ_PRESET),
        write.params == seq![slot],
        read.cmd < reg::SET,
    ensures
        ({
            let (after, confirmed) = handled(connection, link_up, r, write);
            let answer = handled(connection, link_up, after, read).1;
            let before = handled(connection, link_up, r, read).1;
            let known = slot == 0 || slot == 7 || slot == 8 || slot == 9 || slot == 0xFF;
            &&& confirmed == Some(seq![0u8])
            &&& answer == if read.cmd == reg::EQ_PRESET && known {
                Some(seq![slot])
            } else {
                before
            }
        }),
{
    reg::set_commands(reg::EQ_PRESET);
    if read.cmd != reg::EQ_PRESET {
        writes_keep_to_their_register(r, reg::EQ_PRESET, read.cmd, write.params);
    }
}

/// The state that the simulator passes through after the event `i - 1`.
spec fn state_before(origin: SimView, from: nat, h: Seq<Event>, i: int) -> Option<SimView> {
    origin.after_all(h.subrange(from as int, i))
}

proof fn next_state(origin: SimView, from: nat, h: Seq<Event>, i: int)
    requires
        from <= i < h.len(),
        origin.after_all(h.skip(from as int)) is Some,
    ensures
        state_before(origin, from, h, i) is Some,
        state_before(origin, from, h, i + 1) is Some,
        state_before(origin, from, h, i + 1) == state_before(origin, from, h, i)->0.after(h[i]),
    decreases h.len() - i,
{
    let part = h.subrange(from as int, i + 1);
    assert(part.drop_last() =~= h.subrange(from as int, i));
    assert(part.last() == h[i]);
    if i + 1 == h.len() {
        assert(part =~= h.skip(from as int));
    } else {
        next_state(origin, from, h, i + 1);
    }
}

/// What the simulator is left with once an answered request has been read.
pub open spec fn answered(s: SimView, q: RequestView) -> SimView {
    SimView { replies: seq![], ..s.received(q) }
}

/// The answer to a request.
pub open spec fn answer_to(q: RequestView, payload: Seq<u8>) -> ResponseView {
    ResponseView {
        seq: q.seq,
        dir: DIR_REPLY,
        domain: q.domain,
        cmd: q.cmd,
        status: 0x01,
        payload,
    }
}

/// Nothing is read from a simulator that has nothing to say.
proof fn pump_seen(origin: SimView, from: nat, h: Seq<Event>, at: int, s: SimView, queue: Seq<IncomingView>)
    requires
        from <= at < h.len(),
        origin.after_all(h.skip(from as int)) is Some,
        state_before(origin, from, h, at) == Some(s),
        s.replies.len() == 0,
        pump_run(h, at, 0, MAX_READS as nat, queue).ok,
    ensures
        pump_run(h, at, 0, MAX_READS as nat, queue) == (PumpRun {
            ok: true,
            end: at + 1,
            queue,
            result: Ok(()),
        }),
        state_before(origin, from, h, at + 1) == Some(s),
{
    next_state(origin, from, h, at);
    assert(s.after_read(0) =~= s);
}

/// The answer that a simulator has ready is read.
proof fn answer_seen(
    origin: SimView,
    from: nat,
    h: Seq<Event>,
    at: int,
    s: SimView,
    frame: Seq<u8>,
    resp: ResponseView,
    w: Awaited,
    queue: Seq<IncomingView>,
)
    requires
        from <= at,
        origin.after_all(h.skip(from as int)) is Some,
        state_before(origin, from, h, at) == Some(s),
        s.replies == seq![frame],
        frame.len() == 64,
        w.answer(frame) == Some(resp),
        s.now_us < w.deadline_us,
        await_run(h, at, w, MAX_READS as nat, queue).ok,
        await_run(h, at, w, MAX_READS as nat, queue).end < h.len(),
    ensures
        await_run(h, at, w, MAX_READS as nat, queue) == (ExchangeRun {
            ok: true,
            end: at + 2,
            counter: w.counter,
            queue,
            outcome: Ok(resp),
        }),
        state_before(origin, from, h, at + 2) == Some(SimView { replies: seq![], ..s }),
{
    await_run_advances(h, at, w, MAX_READS as nat, queue);
    next_state(origin, from, h, at);
    match h[at] {
        Event::Clock { now_us } => {
            assert(now_us == s.now_us);
            match h[at + 1] {
                Event::Read { room, timeout_us, outcome } => {
                    match outcome {
                        Ok(None) => await_run_advances(h, at + 2, w, (MAX_READS - 1) as nat, queue),
                        Ok(Some(report)) => await_run_advances(
                            h,
                            at + 2,
                            w,
                            (MAX_READS - 1) as nat,
                            absorbed(queue, report),
                        ),
                        _ => {},
                    }
                    next_state(origin, from, h, at + 1);
                    assert(s.next_report(128) == Some(frame));
                    assert(s.replies.skip(1) =~= seq![]);
                    assert(s.after_read(timeout_us) =~= SimView { replies: seq![], ..s });
                },
                _ => {},
            }
        },
        _ => {},
    }
}

/// A simulator that has nothing to say lets the time run out.
proof fn silence_seen(
    origin: SimView,
    from: nat,
    h: Seq<Event>,
    at: int,
    s: SimView,
    w: Awaited,
    rounds: nat,
    queue: Seq<IncomingView>,
)
    requires
        from <= at,
        origin.after_all(h.skip(from as int)) is Some,
        state_before(origin, from, h, at) == Some(s),
        s.replies.len() == 0,
        await_run(h, at, w, rounds, queue).ok,
        await_run(h, at, w, rounds, queue).end < h.len(),
    ensures
        await_run(h, at, w, rounds, queue).outcome == w.timed_out(),
        await_run(h, at, w, rounds, queue).queue == queue,
    decreases rounds,
{
    if rounds > 0 {
        await_run_advances(h, at, w, rounds, queue);
        next_state(origin, from, h, at);
        match (h[at], h[at + 1]) {
            (Event::Clock { now_us }, Event::Read { room, timeout_us, outcome }) => if now_us < w.deadline_us {
                match outcome {
                    Ok(None) => await_run_advances(h, at + 2, w, (rounds - 1) as nat, queue),
                    Ok(Some(report)) => await_run_advances(
                        h,
                        at + 2,
                        w,
                        (rounds - 1) as nat,
                        absorbed(queue, report),
                    ),
                    _ => {},
                }
                next_state(origin, from, h, at + 1);
                assert(outcome == Ok::<Option<Seq<u8>>, ErrorView>(None));
                silence_seen(
                    origin,
                    from,
                    h,
                    at + 2,
                    s.after_read(timeout_us),
                    w,
                    (rounds - 1) as nat,
                    queue,
                );
            },
            _ => {},
        }
    }
}

/// An exchange that a simulator sees has the outcome that the simulator's
/// model gives it.
proof fn exchange_seen(
    origin: SimView,
    from: nat,
    h: Seq<Event>,
    at: int,
    s: SimView,
    query: Query,
    timeout_ms: u64,
    counter: u8,
    queue: Seq<IncomingView>,
)
    requires
        from <= at,
        origin.after_all(h.skip(from as int)) is Some,
        state_before(origin, from, h, at) == Some(s),
        s.replies.len() == 0,
        s.now_us < u64::MAX,
        timeout_ms > 0,
        query.params.len() <= MAX_PARAMS,
        exchange_run(h, at, query, timeout_ms, counter, queue).ok,
        exchange_run(h, at, query, timeout_ms, counter, queue).end <= h.len(),
        handled(
            s.connection,
            s.link_up,
            s.regs,
            RequestView {
                seq: sequence_of(next_counter(counter)),
                domain: query.domain,
                cmd: query.cmd,
                params: query.params,
            },
        ).1 matches Some(payload) && payload.len() <= MAX_PARAMS,
    ensures
        ({
            let q = RequestView {
                seq: sequence_of(next_counter(counter)),
                domain: query.domain,
                cmd: query.cmd,
                params: query.params,
            };
            let payload = handled(s.connection, s.link_up, s.regs, q).1->0;
            let run = exchange_run(h, at, query, timeout_ms, counter, queue);
            &&& run.outcome == Ok::<_, ErrorView>(answer_to(q, payload))
            &&& run.queue == queue
            &&& run.counter == next_counter(counter)
            &&& state_before(origin, from, h, run.end) == Some(answered(s, q))
        }),
{
    let q = RequestView {
        seq: sequence_of(next_counter(counter)),
        domain: query.domain,
        cmd: query.cmd,
        params: query.params,
    };
    let payload = handled(s.connection, s.link_up, s.regs, q).1->0;
    let frame = response_frame(q.seq, q.domain, q.cmd, 0x01, payload);
    request_frame_roundtrip(q);
    response_frame_roundtrip(q.seq, q.domain, q.cmd, 0x01, payload);
    exchange_run_is_local(h, h, at, query, timeout_ms, counter, queue);
    // The channel is claimed.
    next_state(origin, from, h, at);
    assert(h[at] matches Event::Acquired { outcome: Ok(_) });
    claimed_run_is_local(h, h, at + 1, query, timeout_ms, counter, queue);
    let inner = claimed_run(h, at + 1, query, timeout_ms, counter, queue);
    // Nothing has arrived.
    pump_seen(origin, from, h, at + 1, s, queue);
    // The request is sent.
    let sent = sent_run(h, at + 2, query, timeout_ms, next_counter(counter), queue);
    assert(inner.ok && inner.end == sent.end && inner.outcome == sent.outcome && inner.queue == sent.queue);
    sent_run_is_local(h, h, at + 2, query, timeout_ms, next_counter(counter), queue);
    next_state(origin, from, h, at + 2);
    let told = s.received(q);
    assert(told.replies =~= seq![frame]);
    assert(h[at + 2] matches Event::Wrote { report, outcome: Ok(_) } && report == request_frame(q));
    assert(state_before(origin, from, h, at + 3) == Some(told));
    // The clock is read.
    match h[at + 3] {
        Event::Clock { now_us } => {
            let w = Awaited {
                seq: q.seq,
                cmd: q.cmd,
                deadline_us: deadline(now_us, timeout_ms),
                timeout_ms,
                counter: next_counter(counter),
            };
            await_run_advances(h, at + 4, w, MAX_READS as nat, queue);
            next_state(origin, from, h, at + 3);
            assert(now_us == s.now_us);
            assert(in_us(timeout_ms) > 0);
            answer_seen(origin, from, h, at + 4, told, frame, answer_to(q, payload), w, queue);
            assert(SimView { replies: seq![], ..told } =~= answered(s, q));
        },
        _ => {},
    }
    // The channel is released.
    next_state(origin, from, h, at + 6);
}

proof fn earlier_part(later: Seq<Event>, h: Seq<Event>, from: nat)
    requires
        continues(later, h),
        from <= h.len(),
    ensures
        later.subrange(from as int, h.len() as int) == h.skip(from as int),
{
    let part = later.subrange(from as int, h.len() as int);
    assert forall|i: int| 0 <= i < part.len() implies #[trigger] part[i] == h.skip(from as int)[i] by {
        assert(later[from + i] == h[from + i]);
    }
    assert(part =~= h.skip(from as int));
}

/// A command of a driver is an exchange on its channel.
proof fn asked_is_exchange<T: Transport>(
    pre: BlackSharkV2Hs<T>,
    post: BlackSharkV2Hs<T>,
    domain: u8,
    cmd: u8,
    params: Seq<u8>,
    outcome: Outcome,
)
    requires
        pre.wf(),
        pre.asked(post, domain, cmd, params, outcome),
    ensures
        exchange_run(
            post.channel().history(),
            pre.channel().history().len() as int,
            Query { domain, cmd, params },
            pre.timeout(),
            pre.sequence_counter(),
            pre.queue(),
        ) == (ExchangeRun {
            ok: true,
            end: post.channel().history().len() as int,
            counter: post.sequence_counter(),
            queue: post.queue(),
            outcome,
        }),
{
    ledger_is_local(pre.channel().history(), post.channel().history(), pre.started(), pre.log());
    assert(post.log().drop_last() =~= pre.log());
}

/// Could the simulated device answer now? Nothing is left to read, its
/// clock has not run out, and the driver is ready to wait.
pub open spec fn ready(d: BlackSharkV2Hs<SimTransport>) -> bool {
    &&& d.wf()
    &&& d.channel().state().replies.len() == 0
    &&& d.channel().state().now_us < u64::MAX
    &&& d.timeout() > 0
}

/// The request that a driver's next command becomes.
pub open spec fn request_of(d: BlackSharkV2Hs<SimTransport>, domain: u8, cmd: u8, params: Seq<u8>) -> RequestView {
    RequestView { seq: sequence_of(next_counter(d.sequence_counter())), domain, cmd, params }
}

/// A command that the simulated device answers is answered, with what the
/// device's registers hold.
pub proof fn commands_are_answered(
    pre: BlackSharkV2Hs<SimTransport>,
    post: BlackSharkV2Hs<SimTransport>,
    domain: u8,
    cmd: u8,
    params: Seq<u8>,
    outcome: Outcome,
)
    requires
        ready(pre),
        params.len() <= MAX_PARAMS,
        pre.asked(post, domain, cmd, params, outcome),
        handled(
            pre.channel().state().connection,
            pre.channel().state().link_up,
            pre.channel().state().regs,
            request_of(pre, domain, cmd, params),
        ).1 matches Some(payload) && payload.len() <= MAX_PARAMS,
    ensures
        outcome matches Ok(resp) && resp.payload == handled(
            pre.channel().state().connection,
            pre.channel().state().link_up,
            pre.channel().state().regs,
            request_of(pre, domain, cmd, params),
        ).1->0,
        post.queue() == pre.queue(),
{
    let h0 = pre.channel().history();
    let h1 = post.channel().history();
    let (origin, from) = (pre.channel().origin(), pre.channel().origin_at());
    asked_is_exchange(pre, post, domain, cmd, params, outcome);
    assert(post.channel().admits(h1));
    assert(pre.channel().admits(h1));
    earlier_part(h1, h0, from);
    exchange_seen(
        origin,
        from,
        h1,
        h0.len() as int,
        pre.channel().state(),
        Query { domain, cmd, params },
        pre.timeout(),
        pre.sequence_counter(),
        pre.queue(),
    );
}

/// A command that the simulated device does not answer, such as any to a
/// headset whose link is down, times out, and nothing is made up for it.
pub proof fn unanswered_commands_time_out(
    pre: BlackSharkV2Hs<SimTransport>,
    post: BlackSharkV2Hs<SimTransport>,
    domain: u8,
    cmd: u8,
    params: Seq<u8>,
    outcome: Outcome,
)
    requires
        pre.wf(),
        pre.channel().state().replies.len() == 0,
        params.len() <= MAX_PARAMS,
        pre.asked(post, domain, cmd, params, outcome),
        handled(
            pre.channel().state().connection,
            pre.channel().state().link_up,
            pre.channel().state().regs,
            request_of(pre, domain, cmd, params),
        ).1 is None,
    ensures
        outcome == Err::<ResponseView, ErrorView>(ErrorView::Timeout { cmd, timeout_ms: pre.timeout() }),
        post.queue() == pre.queue(),
{
    let (h0, h) = (pre.channel().history(), post.channel().history());
    let (origin, from) = (pre.channel().origin(), pre.channel().origin_at());
    let at = h0.len() as int;
    let s = pre.channel().state();
    let query = Query { domain, cmd, params };
    let q = request_of(pre, domain, cmd, params);
    let (timeout_ms, counter, queue) = (pre.timeout(), pre.sequence_counter(), pre.queue());
    asked_is_exchange(pre, post, domain, cmd, params, outcome);
    assert(post.channel().admits(h));
    assert(pre.channel().admits(h));
    earlier_part(h, h0, from);
    request_frame_roundtrip(q);
    exchange_run_is_local(h, h, at, query, timeout_ms, counter, queue);
    next_state(origin, from, h, at);
    assert(h[at] matches Event::Acquired { outcome: Ok(_) });
    claimed_run_is_local(h, h, at + 1, query, timeout_ms, counter, queue);
    let inner = claimed_run(h, at + 1, query, timeout_ms, counter, queue);
    pump_seen(origin, from, h, at + 1, s, queue);
    let sent = sent_run(h, at + 2, query, timeout_ms, next_counter(counter), queue);
    assert(inner.ok && inner.end == sent.end && inner.outcome == sent.outcome && inner.queue == sent.queue);
    sent_run_is_local(h, h, at + 2, query, timeout_ms, next_counter(counter), queue);
    next_state(origin, from, h, at + 2);
    assert(h[at + 2] matches Event::Wrote { report, outcome: Ok(_) } && report == request_frame(q));
    let told = s.received(q);
    assert(state_before(origin, from, h, at + 3) == Some(told));
    match h[at + 3] {
        Event::Clock { now_us } => {
            let w = Awaited {
                seq: q.seq,
                cmd: q.cmd,
                deadline_us: deadline(now_us, timeout_ms),
                timeout_ms,
                counter: next_counter(counter),
            };
            await_run_advances(h, at + 4, w, MAX_READS as nat, queue);
            next_state(origin, from, h, at + 3);
            silence_seen(origin, from, h, at + 4, told, w, MAX_READS as nat, queue);
        },
        _ => {},
    }
}

/// What a driver writes to a register of the simulated headset, it reads
/// back: the write succeeds, and the next read of the register returns what
/// the headset stored.
pub proof fn writes_read_back(
    pre: BlackSharkV2Hs<SimTransport>,
    mid: BlackSharkV2Hs<SimTransport>,
    post: BlackSharkV2Hs<SimTransport>,
    register: u8,
    params: Seq<u8>,
    written: Outcome,
    read: Outcome,
)
    requires
        ready(pre),
        register < reg::SET,
        params.len() <= MAX_PARAMS,
        pre.channel().state().connection == pre.link(),
        reaches_headset(pre.link(), pre.channel().state().link_up, domain_of(pre.link())),
        headset_written(pre.channel().state().regs, register, params) is Some,
        pre.asked(mid, domain_of(pre.link()), reg::set_command(register), params, written),
        mid.asked(post, domain_of(pre.link()), register, seq![], read),
    ensures
        written is Ok,
        read matches Ok(resp) && Some(resp.payload) == headset_value(
            headset_written(pre.channel().state().regs, register, params)->0,
            register,
        ),
{
    let s = pre.channel().state();
    let domain = domain_of(pre.link());
    let set = reg::set_command(register);
    let (origin, from) = (pre.channel().origin(), pre.channel().origin_at());
    let (h0, h1, h2) = (pre.channel().history(), mid.channel().history(), post.channel().history());
    reg::set_commands(register);
    commands_are_answered(pre, mid, domain, set, params, written);
    asked_is_exchange(pre, mid, domain, set, params, written);
    asked_is_exchange(mid, post, domain, register, seq![], read);
    assert(post.channel().admits(h2));
    assert(mid.channel().admits(h2));
    assert(pre.channel().admits(h2));
    continues_on(h2, h1, h0);
    earlier_part(h2, h0, from);
    let query = Query { domain, cmd: set, params };
    exchange_run_is_local(
        h1,
        h2,
        h0.len() as int,
        query,
        pre.timeout(),
        pre.sequence_counter(),
        pre.queue(),
    );
    exchange_seen(
        origin,
        from,
        h2,
        h0.len() as int,
        s,
        query,
        pre.timeout(),
        pre.sequence_counter(),
        pre.queue(),
    );
    let stored = answered(s, request_of(pre, domain, set, params));
    let value = headset_value(stored.regs, register);
    assert(value is Some && value->0.len() <= MAX_PARAMS);
    exchange_seen(
        origin,
        from,
        h2,
        h1.len() as int,
        stored,
        Query { domain, cmd: register, params: seq![] },
        mid.timeout(),
        mid.sequence_counter(),
        mid.queue(),
    );
}

/// A curve that a driver writes to the simulated headset reads back clamped
/// to the hardware range, and unchanged if it was in range.
pub proof fn curves_read_back(
    pre: BlackSharkV2Hs<SimTransport>,
    mid: BlackSharkV2Hs<SimTransport>,
    post: BlackSharkV2Hs<SimTransport>,
    bands: Bands,
    written: Outcome,
    read: Outcome,
)
    requires
        ready(pre),
        pre.channel().state().connection == pre.link(),
        reaches_headset(pre.link(), pre.channel().state().link_up, domain_of(pre.link())),
        pre.asked(mid, domain_of(pre.link()), reg::set_command(reg::EQ_BANDS), wire_bytes(bands), written),
        mid.asked(post, domain_of(pre.link()), reg::EQ_BANDS, seq![], read),
    ensures
        written is Ok,
        read matches Ok(resp) && curve_of(resp.payload) == Some(clamped(bands)),
        in_range(bands) ==> clamped(bands) == bands,
{
    curve_reads_back(pre.channel().state().regs, bands);
    writes_read_back(pre, mid, post, reg::EQ_BANDS, wire_bytes(bands), written, read);
}

/// Where a driver stands after an entry of its log, if the history shows it.
spec fn stands(d: BlackSharkV2Hs<SimTransport>, h: Seq<Event>, log: Seq<Entry>, n: int) -> Option<Standing> {
    ledger(h, d.started(), log.take(n))
}

proof fn next_standing(d: BlackSharkV2Hs<SimTransport>, h: Seq<Event>, log: Seq<Entry>, n: int)
    requires
        0 <= n < log.len(),
        ledger(h, d.started(), log) is Some,
    ensures
        stands(d, h, log, n) is Some,
        stands(d, h, log, n + 1) is Some,
        stands(d, h, log, n + 1) == accounted(h, stands(d, h, log, n)->0, log[n]),
    decreases log.len() - n,
{
    assert(log.take(n + 1).drop_last() =~= log.take(n));
    assert(log.take(n + 1).last() == log[n]);
    if n + 1 == log.len() {
        assert(log.take(n + 1) =~= log);
    } else {
        next_standing(d, h, log, n + 1);
    }
}

/// A command in the log that the simulator answers: its outcome, and the
/// simulator behind it.
proof fn command_seen(
    d: BlackSharkV2Hs<SimTransport>,
    h: Seq<Event>,
    log: Seq<Entry>,
    n: int,
    s: SimView,
    query: Query,
)
    requires
        d.wf(),
        d.channel().admits(h),
        d.timeout() > 0,
        d.log().len() <= n < log.len(),
        ledger(h, d.started(), log) is Some,
        stands(d, h, log, n) matches Some(st) && d.channel().origin_at() <= st.at && state_before(
            d.channel().origin(),
            d.channel().origin_at(),
            h,
            st.at,
        ) == Some(s),
        s.replies.len() == 0,
        s.now_us < u64::MAX,
        log[n] matches Entry::Asked { query: q, timeout_ms, .. } && q == query && timeout_ms == d.timeout(),
        query.params.len() <= MAX_PARAMS,
        forall|seq: u8|
            #[trigger]
            handled(
                s.connection,
                s.link_up,
                s.regs,
                RequestView { seq, domain: query.domain, cmd: query.cmd, params: query.params },
            ).1 matches Some(payload) && payload.len() <= MAX_PARAMS,
    ensures
        ({
            let st = stands(d, h, log, n)->0;
            let q = RequestView {
                seq: sequence_of(next_counter(st.counter)),
                domain: query.domain,
                cmd: query.cmd,
                params: query.params,
            };
            &&& stands(d, h, log, n + 1) is Some
            &&& st.at <= stands(d, h, log, n + 1)->0.at
            &&& outcome_at(log, n) matches Ok(resp) && Some(resp.payload) == handled(
                s.connection,
                s.link_up,
                s.regs,
                q,
            ).1
            &&& state_before(
                d.channel().origin(),
                d.channel().origin_at(),
                h,
                stands(d, h, log, n + 1)->0.at,
            ) == Some(answered(s, q))
        }),
{
    next_standing(d, h, log, n);
    let st = stands(d, h, log, n)->0;
    let (origin, from) = (d.channel().origin(), d.channel().origin_at());
    let q = RequestView {
        seq: sequence_of(next_counter(st.counter)),
        domain: query.domain,
        cmd: query.cmd,
        params: query.params,
    };
    assert(handled(s.connection, s.link_up, s.regs, q).1 is Some);
    exchange_seen(origin, from, h, st.at, s, query, d.timeout(), st.counter, st.queue);
    exchange_run_is_local(h, h, st.at, query, d.timeout(), st.counter, st.queue);
}

/// A write that the simulated headset accepts is answered with one zero byte,
/// whatever its sequence number.
proof fn write_handled(s: SimView, domain: u8, register: u8, params: Seq<u8>, after: Registers, seq: u8)
    requires
        domain == domain_of(s.connection),
        reaches_headset(s.connection, s.link_up, domain),
        register < reg::SET,
        headset_written(s.regs, register, params) == Some(after),
    ensures
        handled(
            s.connection,
            s.link_up,
            s.regs,
            RequestView { seq, domain, cmd: reg::set_command(register), params },
        ) == (after, Some(seq![0u8])),
{
    reg::set_commands(register);
}

/// A read is answered with what the headset reports, whatever its sequence
/// number.
proof fn read_handled(s: SimView, domain: u8, register: u8, seq: u8)
    requires
        domain == domain_of(s.connection),
        reaches_headset(s.connection, s.link_up, domain),
        register < reg::SET,
    ensures
        handled(
            s.connection,
            s.link_up,
            s.regs,
            RequestView { seq, domain, cmd: register, params: seq![] },
        ) == (s.regs, headset_value(s.regs, register)),
{
}

/// Is the simulator in state `s`, with nothing left to read, behind the
/// first `n` entries of the log?
#[verifier::opaque]
spec fn settled_at(d: BlackSharkV2Hs<SimTransport>, h: Seq<Event>, log: Seq<Entry>, n: int, s: SimView) -> bool {
    &&& d.wf()
    &&& d.channel().admits(h)
    &&& d.timeout() > 0
    &&& d.log().len() <= n <= log.len()
    &&& ledger(h, d.started(), log) is Some
    &&& stands(d, h, log, n) is Some
    &&& d.channel().origin_at() <= stands(d, h, log, n)->0.at
    &&& state_before(d.channel().origin(), d.channel().origin_at(), h, stands(d, h, log, n)->0.at) == Some(s)
    &&& s.replies.len() == 0
}

proof fn write_seen(
    d: BlackSharkV2Hs<SimTransport>,
    h: Seq<Event>,
    log: Seq<Entry>,
    n: int,
    s: SimView,
    register: u8,
    params: Seq<u8>,
    after: Registers,
) -> (next: SimView)
    requires
        settled_at(d, h, log, n, s),
        n < log.len(),
        s.now_us < u64::MAX,
        shows(d.setting(), log, n, domain_of(s.connection), reg::set_command(register), params),
        params.len() <= MAX_PARAMS,
        register < reg::SET,
        reaches_headset(s.connection, s.link_up, domain_of(s.connection)),
        headset_written(s.regs, register, params) == Some(after),
    ensures
        settled_at(d, h, log, n + 1, next),
        outcome_at(log, n) is Ok,
        next.regs == after,
        next.connection == s.connection,
        next.link_up == s.link_up,
        next.now_us == s.now_us,
{
    reveal(settled_at);
    let domain = domain_of(s.connection);
    let query = Query { domain, cmd: reg::set_command(register), params };
    assert forall|seq: u8|
        #[trigger]
        handled(s.connection, s.link_up, s.regs, RequestView { seq, domain, cmd: query.cmd, params })
            == (after, Some(seq![0u8])) by {
        write_handled(s, domain, register, params, after, seq);
    }
    command_seen(d, h, log, n, s, query);
    state_before(
        d.channel().origin(),
        d.channel().origin_at(),
        h,
        stands(d, h, log, n + 1)->0.at,
    )->0
}

proof fn pause_seen(d: BlackSharkV2Hs<SimTransport>, h: Seq<Event>, log: Seq<Entry>, n: int, s: SimView, ms: u64) -> (
next: SimView)
    requires
        settled_at(d, h, log, n, s),
        n < log.len(),
        log[n] == (Entry::Paused { ms }),
    ensures
        settled_at(d, h, log, n + 1, next),
        next == (SimView { now_us: later(s.now_us, ms * 1000), ..s }),
{
    reveal(settled_at);
    next_standing(d, h, log, n);
    let at = stands(d, h, log, n)->0.at;
    next_state(d.channel().origin(), d.channel().origin_at(), h, at);
    state_before(d.channel().origin(), d.channel().origin_at(), h, at + 1)->0
}

proof fn read_seen(d: BlackSharkV2Hs<SimTransport>, h: Seq<Event>, log: Seq<Entry>, n: int, s: SimView, register: u8)
    requires
        settled_at(d, h, log, n, s),
        n < log.len(),
        s.now_us < u64::MAX,
        shows(d.setting(), log, n, domain_of(s.connection), register, seq![]),
        register < reg::SET,
        reaches_headset(s.connection, s.link_up, domain_of(s.connection)),
        headset_value(s.regs, register) matches Some(value) && value.len() <= MAX_PARAMS,
    ensures
        outcome_at(log, n) matches Ok(resp) && Some(resp.payload) == headset_value(s.regs, register),
{
    reveal(settled_at);
    let domain = domain_of(s.connection);
    let value = headset_value(s.regs, register);
    let none: Seq<u8> = seq![];
    assert(value is Some && value->0.len() <= MAX_PARAMS);
    assert forall|seq: u8|
        #[trigger]
        handled(s.connection, s.link_up, s.regs, RequestView { seq, domain, cmd: register, params: none }) == (
        s.regs,
        value,
    ) by {
        read_handled(s, domain, register, seq);
    }
    command_seen(d, h, log, n, s, Query { domain, cmd: register, params: none });
}

/// A command in the log that the simulator answers, whatever its sequence
/// number: the simulator behind it.
proof fn command_passes(
    d: BlackSharkV2Hs<SimTransport>,
    h: Seq<Event>,
    log: Seq<Entry>,
    n: int,
    s: SimView,
    query: Query,
    after: Registers,
    payload: Seq<u8>,
) -> (next: SimView)
    requires
        settled_at(d, h, log, n, s),
        n < log.len(),
        s.now_us < u64::MAX,
        shows(d.setting(), log, n, query.domain, query.cmd, query.params),
        query.params.len() <= MAX_PARAMS,
        payload.len() <= MAX_PARAMS,
        forall|seq: u8|
            #[trigger]
            handled(
                s.connection,
                s.link_up,
                s.regs,
                RequestView { seq, domain: query.domain, cmd: query.cmd, params: query.params },
            ) == (after, Some(payload)),
    ensures
        settled_at(d, h, log, n + 1, next),
        outcome_at(log, n) matches Ok(resp) && resp.payload == payload,
        next.regs == after,
        next.connection == s.connection,
        next.link_up == s.link_up,
        next.now_us == s.now_us,
{
    reveal(settled_at);
    command_seen(d, h, log, n, s, query);
    state_before(
        d.channel().origin(),
        d.channel().origin_at(),
        h,
        stands(d, h, log, n + 1)->0.at,
    )->0
}

/// A driver that did something and then read a register: what it did can be
/// followed in its log.
proof fn followed(
    pre: BlackSharkV2Hs<SimTransport>,
    mid: BlackSharkV2Hs<SimTransport>,
    post: BlackSharkV2Hs<SimTransport>,
    domain: u8,
    register: u8,
    read: Outcome,
)
    requires
        ready(pre),
        pre.used(mid),
        continues(mid.log(), pre.log()),
        mid.asked(post, domain, register, seq![], read),
    ensures
        settled_at(
            pre,
            post.channel().history(),
            post.log(),
            pre.log().len() as int,
            pre.channel().state(),
        ),
        post.log().len() == mid.log().len() + 1,
        forall|i: int| 0 <= i < mid.log().len() ==> post.log()[i] == #[trigger] mid.log()[i],
        shows(pre.setting(), post.log(), mid.log().len() as int, domain, register, seq![]),
        outcome_at(post.log(), mid.log().len() as int) == read,
{
    let at = pre.log().len() as int;
    let (h0, h) = (pre.channel().history(), post.channel().history());
    let log = post.log();
    continues_on(h, mid.channel().history(), h0);
    assert(post.channel().admits(h));
    assert(mid.channel().admits(h));
    assert(pre.channel().admits(h));
    earlier_part(h, h0, pre.channel().origin_at());
    assert(log.drop_last() =~= mid.log());
    assert(log.take(at) =~= pre.log()) by {
        assert forall|i: int| 0 <= i < at implies log.take(at)[i] == #[trigger] pre.log()[i] by {
            assert(mid.log()[i] == pre.log()[i]);
        }
    }
    ledger_is_local(h0, h, pre.started(), pre.log());
    assert(settled_at(pre, h, log, at, pre.channel().state())) by {
        reveal(settled_at);
    }
}

/// Can a driver with a simulated headset reach it?
pub open spec fn reachable(d: BlackSharkV2Hs<SimTransport>) -> bool {
    &&& ready(d)
    &&& d.channel().state().connection == d.link()
    &&& d.link() is Dongle ==> d.channel().state().link_up
}

/// A setting that is written in one byte and read back.
proof fn setting_takes_effect(
    pre: BlackSharkV2Hs<SimTransport>,
    mid: BlackSharkV2Hs<SimTransport>,
    post: BlackSharkV2Hs<SimTransport>,
    setting: u8,
    v: u8,
    after: Registers,
    register: u8,
    read: Outcome,
)
    requires
        reachable(pre),
        pre.used(mid),
        continues(mid.log(), pre.log()),
        mid.asked(post, domain_of(pre.link()), register, seq![], read),
        setting < reg::SET,
        register < reg::SET,
        headset_written(pre.channel().state().regs, setting, seq![v]) == Some(after),
        headset_value(after, setting) matches Some(p) && p.len() <= MAX_PARAMS,
        headset_value(after, register) matches Some(p) && p.len() <= MAX_PARAMS,
        shows(
            pre.setting(),
            mid.log(),
            pre.log().len() as int,
            domain_of(pre.link()),
            reg::set_command(setting),
            seq![v],
        ),
        mid.log().len() == pre.log().len() + 2 ==> shows(
            pre.setting(),
            mid.log(),
            pre.log().len() + 1int,
            domain_of(pre.link()),
            setting,
            seq![],
        ),
        pre.log().len() < mid.log().len() <= pre.log().len() + 2,
    ensures
        outcome_at(mid.log(), pre.log().len() as int) is Ok,
        mid.log().len() == pre.log().len() + 2 ==> (outcome_at(mid.log(), pre.log().len() + 1int) matches Ok(resp)
            && Some(resp.payload) == headset_value(after, setting)),
        read matches Ok(resp) && Some(resp.payload) == headset_value(after, register),
{
    let at = pre.log().len() as int;
    let domain = domain_of(pre.link());
    let (h, log) = (post.channel().history(), post.log());
    let s0 = pre.channel().state();
    let none: Seq<u8> = seq![];
    followed(pre, mid, post, domain, register, read);
    assert(log[at] == mid.log()[at]);
    let s1 = write_seen(pre, h, log, at, s0, setting, seq![v], after);
    if mid.log().len() == at + 2 {
        assert(log[at + 1] == mid.log()[at + 1]);
        let value = headset_value(after, setting)->0;
        assert forall|seq: u8|
            #[trigger]
            handled(s1.connection, s1.link_up, s1.regs, RequestView { seq, domain, cmd: setting, params: none })
                == (after, Some(value)) by {
            read_handled(s1, domain, setting, seq);
        }
        let s2 = command_passes(
            pre,
            h,
            log,
            at + 1,
            s1,
            Query { domain, cmd: setting, params: none },
            after,
            value,
        );
        read_seen(pre, h, log, at + 2, s2, register);
    } else {
        read_seen(pre, h, log, at + 1, s1, register);
    }
}

/// Is `register` one that can be set?
pub open spec fn is_setting(register: u8) -> bool {
    register == 0x13 || register == 0x18 || register == 0x19 || register == 0x1D || register == 0x1E || register
        == 0x27 || register == 0x2C
}

/// What the simulated headset answers for a setting after a switch was set:
/// 1 or 0 for the switch itself, the same as before for any other.
pub open spec fn switched_to(regs: Registers, switch: u8, on: bool, register: u8, payload: Seq<u8>) -> bool {
    if register == switch {
        payload.len() == 1 && payload[0] == (if on {
            1u8
        } else {
            0u8
        })
    } else {
        Some(payload) == headset_value(regs, register)
    }
}

/// Asking to block Bluetooth calls makes the headset block them, and asking
/// not to makes it not: the request succeeds, the register then reads 1 or 0,
/// no other setting changes, and what is shown is what was asked for.
pub proof fn call_blocking_takes_effect(
    pre: BlackSharkV2Hs<SimTransport>,
    mid: BlackSharkV2Hs<SimTransport>,
    post: BlackSharkV2Hs<SimTransport>,
    s: StateView,
    on: bool,
    register: u8,
    read: Outcome,
)
    requires
        reachable(pre),
        pre.performed(
            mid,
            request_step(pre.setting(), mid.log(), pre.log().len() as int, s, DeviceRequest::SetBtDnd(on)),
        ),
        mid.asked(post, domain_of(pre.link()), register, seq![], read),
        is_setting(register),
    ensures
        request_step(
            pre.setting(),
            mid.log(),
            pre.log().len() as int,
            s,
            DeviceRequest::SetBtDnd(on),
        ).value == (Refresh { state: StateView { bt_dnd: Some(on), ..s }, result: Ok(()) }),
        read matches Ok(resp) && switched_to(pre.channel().state().regs, 0x27, on, register, resp.payload),
{
    let regs = pre.channel().state().regs;
    let v: u8 = if on {
        1
    } else {
        0
    };
    let after = Registers { dnd: v, ..regs };
    setting_takes_effect(pre, mid, post, 0x27, v, after, register, read);
}

/// Asking for the audio enhancement switches it on, asking for it not to be
/// there switches it off.
pub proof fn enhancement_takes_effect(
    pre: BlackSharkV2Hs<SimTransport>,
    mid: BlackSharkV2Hs<SimTransport>,
    post: BlackSharkV2Hs<SimTransport>,
    s: StateView,
    on: bool,
    register: u8,
    read: Outcome,
)
    requires
        reachable(pre),
        pre.performed(
            mid,
            request_step(pre.setting(), mid.log(), pre.log().len() as int, s, DeviceRequest::SetEnhancement(on)),
        ),
        mid.asked(post, domain_of(pre.link()), register, seq![], read),
        is_setting(register),
    ensures
        request_step(
            pre.setting(),
            mid.log(),
            pre.log().len() as int,
            s,
            DeviceRequest::SetEnhancement(on),
        ).value == (Refresh { state: StateView { enhancement: Some(on), ..s }, result: Ok(()) }),
        read matches Ok(resp) && switched_to(pre.channel().state().regs, 0x1D, on, register, resp.payload),
{
    let regs = pre.channel().state().regs;
    let v: u8 = if on {
        1
    } else {
        0
    };
    setting_takes_effect(pre, mid, post, 0x1D, v, Registers { enhancement: v, ..regs }, register, read);
}

/// Asking for the equalizer stage switches it on, asking for it not to be
/// there switches it off.
pub proof fn eq_stage_takes_effect(
    pre: BlackSharkV2Hs<SimTransport>,
    mid: BlackSharkV2Hs<SimTransport>,
    post: BlackSharkV2Hs<SimTransport>,
    s: StateView,
    on: bool,
    register: u8,
    read: Outcome,
)
    requires
        reachable(pre),
        pre.performed(
            mid,
            request_step(pre.setting(), mid.log(), pre.log().len() as int, s, DeviceRequest::SetEqEnabled(on)),
        ),
        mid.asked(post, domain_of(pre.link()), register, seq![], read),
        is_setting(register),
    ensures
        request_step(
            pre.setting(),
            mid.log(),
            pre.log().len() as int,
            s,
            DeviceRequest::SetEqEnabled(on),
        ).value == (Refresh { state: StateView { eq_enabled: Some(on), ..s }, result: Ok(()) }),
        read matches Ok(resp) && switched_to(pre.channel().state().regs, 0x1E, on, register, resp.payload),
{
    let regs = pre.channel().state().regs;
    let v: u8 = if on {
        1
    } else {
        0
    };
    setting_takes_effect(pre, mid, post, 0x1E, v, Registers { eq_enable: v, ..regs }, register, read);
}

/// The sleep time that is asked for is the one that the headset then has, and
/// the one that is shown.
pub proof fn sleep_time_takes_effect(
    pre: BlackSharkV2Hs<SimTransport>,
    mid: BlackSharkV2Hs<SimTransport>,
    post: BlackSharkV2Hs<SimTransport>,
    s: StateView,
    minutes: u8,
    register: u8,
    read: Outcome,
)
    requires
        reachable(pre),
        pre.performed(
            mid,
            request_step(
                pre.setting(),
                mid.log(),
                pre.log().len() as int,
                s,
                DeviceRequest::SetSleepMinutes(minutes),
            ),
        ),
        mid.asked(post, domain_of(pre.link()), register, seq![], read),
        is_setting(register),
    ensures
        request_step(
            pre.setting(),
            mid.log(),
            pre.log().len() as int,
            s,
            DeviceRequest::SetSleepMinutes(minutes),
        ).value == (Refresh { state: StateView { sleep_minutes: Some(minutes), ..s }, result: Ok(()) }),
        read matches Ok(resp) && (register == 0x2C ==> resp.payload == seq![minutes]) && (register != 0x2C ==> Some(
            resp.payload,
        ) == headset_value(pre.channel().state().regs, register)),
{
    let regs = pre.channel().state().regs;
    setting_takes_effect(pre, mid, post, 0x2C, minutes, Registers { sleep: minutes, ..regs }, register, read);
}

/// The sidetone level that is asked for, up to 15, is the one that the headset
/// then has, and the one that is shown.
pub proof fn sidetone_level_takes_effect(
    pre: BlackSharkV2Hs<SimTransport>,
    mid: BlackSharkV2Hs<SimTransport>,
    post: BlackSharkV2Hs<SimTransport>,
    s: StateView,
    level: u8,
    register: u8,
    read: Outcome,
)
    requires
        reachable(pre),
        pre.performed(
            mid,
            request_step(
                pre.setting(),
                mid.log(),
                pre.log().len() as int,
                s,
                DeviceRequest::SetSidetoneLevel(level),
            ),
        ),
        mid.asked(post, domain_of(pre.link()), register, seq![], read),
        is_setting(register),
    ensures
        ({
            let kept: u8 = if level <= 15 {
                level
            } else {
                15
            };
            &&& request_step(
                pre.setting(),
                mid.log(),
                pre.log().len() as int,
                s,
                DeviceRequest::SetSidetoneLevel(level),
            ).value == (Refresh { state: StateView { sidetone_level: Some(kept), ..s }, result: Ok(()) })
            &&& read matches Ok(resp) && (register == 0x19 ==> resp.payload == seq![kept]) && (register != 0x19
                ==> Some(resp.payload) == headset_value(pre.channel().state().regs, register))
        }),
{
    let regs = pre.channel().state().regs;
    let kept: u8 = if level <= 15 {
        level
    } else {
        15
    };
    setting_takes_effect(pre, mid, post, 0x19, kept, Registers { sidetone_level: kept, ..regs }, register, read);
}

/// Asking for the sidetone switches it on at the level that is shown, asking
/// for it to be off switches it off; what is shown is what was asked for.
pub proof fn sidetone_takes_effect(
    pre: BlackSharkV2Hs<SimTransport>,
    mid: BlackSharkV2Hs<SimTransport>,
    post: BlackSharkV2Hs<SimTransport>,
    s: StateView,
    on: bool,
    register: u8,
    read: Outcome,
)
    requires
        reachable(pre),
        s.sidetone_level matches Some(level) ==> level <= 15,
        pre.performed(
            mid,
            request_step(pre.setting(), mid.log(), pre.log().len() as int, s, DeviceRequest::SetSidetone(on)),
        ),
        mid.asked(post, domain_of(pre.link()), register, seq![], read),
        register == 0x18 || register == 0x19,
    ensures
        request_step(
            pre.setting(),
            mid.log(),
            pre.log().len() as int,
            s,
            DeviceRequest::SetSidetone(on),
        ).value == (Refresh { state: StateView { sidetone_enabled: Some(on), ..s }, result: Ok(()) }),
        read matches Ok(resp) && resp.payload.len() == 1 && (register == 0x18 ==> resp.payload[0] == (if on {
            1u8
        } else {
            0u8
        })) && (register == 0x19 && on && s.sidetone_level is Some ==> resp.payload[0] == s.sidetone_level->0),
{
    let at = pre.log().len() as int;
    let domain = domain_of(pre.link());
    let (h, log) = (post.channel().history(), post.log());
    let s0 = pre.channel().state();
    let v: u8 = if on {
        1
    } else {
        0
    };
    let after = Registers { sidetone: v, ..s0.regs };
    if on && s.sidetone_level is Some {
        let level = s.sidetone_level->0;
        let none: Seq<u8> = seq![];
        followed(pre, mid, post, domain, register, read);
        assert(log[at] == mid.log()[at]);
        let s1 = write_seen(pre, h, log, at, s0, reg::SIDETONE, seq![v], after);
        assert(mid.log().len() > at + 1);
        assert(log[at + 1] == mid.log()[at + 1]);
        let last = Registers { sidetone_level: level, ..after };
        let s2 = write_seen(pre, h, log, at + 1, s1, reg::SIDETONE_LEVEL, seq![level], last);
        assert(mid.log().len() == at + 3);
        assert(log[at + 2] == mid.log()[at + 2]);
        assert forall|seq: u8|
            #[trigger]
            handled(
                s2.connection,
                s2.link_up,
                s2.regs,
                RequestView { seq, domain, cmd: reg::SIDETONE, params: none },
            ) == (last, Some(seq![v])) by {
            read_handled(s2, domain, reg::SIDETONE, seq);
        }
        let s3 = command_passes(
            pre,
            h,
            log,
            at + 2,
            s2,
            Query { domain, cmd: reg::SIDETONE, params: none },
            last,
            seq![v],
        );
        read_seen(pre, h, log, at + 3, s3, register);
    } else {
        setting_takes_effect(pre, mid, post, 0x18, v, after, register, read);
    }
}

/// The LED mode that is asked for, up to 3, is the one that the dongle then
/// has, and the one that is shown; the headset need not be there.
pub proof fn led_mode_takes_effect(
    pre: BlackSharkV2Hs<SimTransport>,
    mid: BlackSharkV2Hs<SimTransport>,
    post: BlackSharkV2Hs<SimTransport>,
    s: StateView,
    mode: LedMode,
    read: Outcome,
)
    requires
        ready(pre),
        pre.channel().state().connection == pre.link(),
        pre.link() is Dongle,
        !(mode is Unknown),
        pre.performed(
            mid,
            request_step(pre.setting(), mid.log(), pre.log().len() as int, s, DeviceRequest::SetLedMode(mode)),
        ),
        mid.asked(post, 0x00, 0x66, seq![], read),
    ensures
        request_step(
            pre.setting(),
            mid.log(),
            pre.log().len() as int,
            s,
            DeviceRequest::SetLedMode(mode),
        ).value == (Refresh { state: StateView { led_mode: Some(mode), ..s }, result: Ok(()) }),
        read matches Ok(resp) && resp.payload.len() == 1 && resp.payload[0] == match mode {
            LedMode::Off => 0u8,
            LedMode::Link => 1u8,
            LedMode::Battery => 2u8,
            _ => 3u8,
        },
{
    let at = pre.log().len() as int;
    let (h, log) = (post.channel().history(), post.log());
    let s0 = pre.channel().state();
    let none: Seq<u8> = seq![];
    let v = mode.raw_of();
    let after = Registers { led: v, ..s0.regs };
    let set = reg::set_command(reg::DONGLE_LED);
    reg::set_commands(reg::DONGLE_LED);
    led_raw_roundtrip(v, mode);
    followed(pre, mid, post, 0x00, 0x66, read);
    assert(log[at] == mid.log()[at]);
    assert forall|seq: u8|
        #[trigger]
        handled(s0.connection, s0.link_up, s0.regs, RequestView { seq, domain: 0x00, cmd: set, params: seq![v] }) == (
        after,
        Some(seq![0u8]),
    ) by {}
    let s1 = command_passes(
        pre,
        h,
        log,
        at,
        s0,
        Query { domain: 0x00, cmd: set, params: seq![v] },
        after,
        seq![0u8],
    );
    assert forall|seq: u8|
        #[trigger]
        handled(s1.connection, s1.link_up, s1.regs, RequestView { seq, domain: 0x00, cmd: 0x66, params: none }) == (
        after,
        Some(seq![v]),
    ) by {}
    assert(mid.log().len() == at + 2);
    assert(log[at + 1] == mid.log()[at + 1]);
    let s2 = command_passes(
        pre,
        h,
        log,
        at + 1,
        s1,
        Query { domain: 0x00, cmd: 0x66, params: none },
        after,
        seq![v],
    );
    let s3 = command_passes(
        pre,
        h,
        log,
        at + 2,
        s2,
        Query { domain: 0x00, cmd: 0x66, params: none },
        after,
        seq![v],
    );
}

/// The registers of a headset whose Custom slot was written and made live.
pub open spec fn with_live_curve(r: Registers, bands: Bands) -> Registers {
    Registers { eq_enable: 1, preset: 0xFF, custom: stored_curve(wire_bytes(bands)), ..r }
}

/// Writing a curve to the simulated headset succeeds and makes it the live
/// one: behind it the headset reports the clamped curve, the Custom slot as
/// the active preset and the EQ stage as enabled, and every other setting as
/// it was.
pub proof fn written_curves_are_live(
    pre: BlackSharkV2Hs<SimTransport>,
    mid: BlackSharkV2Hs<SimTransport>,
    post: BlackSharkV2Hs<SimTransport>,
    bands: Bands,
    register: u8,
    read: Outcome,
)
    requires
        ready(pre),
        pre.channel().state().now_us < u64::MAX - 1000 * CURVE_PAUSE_MS,
        pre.channel().state().connection == pre.link(),
        reaches_headset(pre.link(), pre.channel().state().link_up, domain_of(pre.link())),
        pre.performed(mid, curve_step(pre.setting(), mid.log(), pre.log().len() as int, bands)),
        mid.asked(post, domain_of(pre.link()), register, seq![], read),
        register == reg::EQ_BANDS || register == reg::EQ_PRESET || register == reg::EQ_ENABLE || register
            == reg::ENHANCEMENT || register == reg::SIDETONE || register == reg::SIDETONE_LEVEL || register
            == reg::SLEEP_TIMER || register == reg::BT_DND,
    ensures
        curve_step(pre.setting(), mid.log(), pre.log().len() as int, bands).value is Ok,
        read matches Ok(resp) && Some(resp.payload) == headset_value(
            with_live_curve(pre.channel().state().regs, bands),
            register,
        ),
        curve_of(headset_value(with_live_curve(pre.channel().state().regs, bands), reg::EQ_BANDS)->0) == Some(
            clamped(bands),
        ),
{
    let at = pre.log().len() as int;
    let c = pre.setting();
    let domain = domain_of(pre.link());
    let (h0, h) = (pre.channel().history(), post.channel().history());
    let (origin, from) = (pre.channel().origin(), pre.channel().origin_at());
    let log = post.log();
    curve_reads_back(pre.channel().state().regs, bands);
    continues_on(h, mid.channel().history(), h0);
    assert(post.channel().admits(h));
    assert(mid.channel().admits(h));
    assert(pre.channel().admits(h));
    earlier_part(h, h0, from);
    assert(log.drop_last() =~= mid.log());
    assert forall|i: int| 0 <= i < mid.log().len() implies log[i] == #[trigger] mid.log()[i] by {}
    assert(log.take(at) =~= pre.log()) by {
        assert forall|i: int| 0 <= i < at implies log.take(at)[i] == #[trigger] pre.log()[i] by {
            assert(mid.log()[i] == pre.log()[i]);
        }
    }
    ledger_is_local(h0, h, pre.started(), pre.log());
    let s0 = pre.channel().state();
    let wire = wire_bytes(bands);
    assert(settled_at(pre, h, log, at, s0)) by {
        reveal(settled_at);
    }
    assert(mid.log()[at] == log[at]);
    let r1 = Registers { eq_enable: 1, ..s0.regs };
    let s1 = write_seen(pre, h, log, at, s0, reg::EQ_ENABLE, seq![1u8], r1);
    assert(mid.log()[at + 1] == log[at + 1]);
    let r2 = Registers { preset: 0xFF, ..r1 };
    let s2 = write_seen(pre, h, log, at + 1, s1, reg::EQ_PRESET, seq![0xFFu8], r2);
    assert(mid.log()[at + 2] == log[at + 2]);
    let r3 = Registers { custom: stored_curve(wire), ..r2 };
    let s3 = write_seen(pre, h, log, at + 2, s2, reg::EQ_BANDS, wire, r3);
    assert(mid.log()[at + 3] == log[at + 3]);
    let s4 = pause_seen(pre, h, log, at + 3, s3, CURVE_PAUSE_MS);
    assert(mid.log()[at + 4] == log[at + 4]);
    let s5 = write_seen(pre, h, log, at + 4, s4, reg::EQ_PRESET, seq![0xFFu8], r3);
    assert(s5.regs == with_live_curve(s0.regs, bands));
    assert(log[at + 5] == log.last());
    read_seen(pre, h, log, at + 5, s5, register);
}

/// Selecting a known preset on the simulated headset succeeds: behind it the
/// headset reports that preset and the EQ stage as enabled, and the Custom
/// slot, the enhancement and every other setting as they were.
pub proof fn selected_presets_are_active(
    pre: BlackSharkV2Hs<SimTransport>,
    mid: BlackSharkV2Hs<SimTransport>,
    post: BlackSharkV2Hs<SimTransport>,
    preset: HardwarePreset,
    register: u8,
    read: Outcome,
)
    requires
        ready(pre),
        pre.channel().state().connection == pre.link(),
        reaches_headset(pre.link(), pre.channel().state().link_up, domain_of(pre.link())),
        !(preset is Unknown),
        pre.performed(mid, preset_step(pre.setting(), mid.log(), pre.log().len() as int, preset)),
        mid.asked(post, domain_of(pre.link()), register, seq![], read),
        register == reg::EQ_BANDS || register == reg::EQ_PRESET || register == reg::EQ_ENABLE || register
            == reg::ENHANCEMENT || register == reg::SIDETONE || register == reg::SIDETONE_LEVEL || register
            == reg::SLEEP_TIMER || register == reg::BT_DND,
    ensures
        preset_step(pre.setting(), mid.log(), pre.log().len() as int, preset).value is Ok,
        read matches Ok(resp) && Some(resp.payload) == headset_value(
            Registers { preset: preset.raw_of(), eq_enable: 1, ..pre.channel().state().regs },
            register,
        ),
{
    let at = pre.log().len() as int;
    let (h0, h) = (pre.channel().history(), post.channel().history());
    let from = pre.channel().origin_at();
    let log = post.log();
    continues_on(h, mid.channel().history(), h0);
    assert(post.channel().admits(h));
    assert(mid.channel().admits(h));
    assert(pre.channel().admits(h));
    earlier_part(h, h0, from);
    assert(log.drop_last() =~= mid.log());
    assert forall|i: int| 0 <= i < mid.log().len() implies log[i] == #[trigger] mid.log()[i] by {}
    assert(log.take(at) =~= pre.log()) by {
        assert forall|i: int| 0 <= i < at implies log.take(at)[i] == #[trigger] pre.log()[i] by {
            assert(mid.log()[i] == pre.log()[i]);
        }
    }
    ledger_is_local(h0, h, pre.started(), pre.log());
    let s0 = pre.channel().state();
    assert(settled_at(pre, h, log, at, s0)) by {
        reveal(settled_at);
    }
    preset_raw_roundtrip(0, preset);
    assert(mid.log()[at] == log[at]);
    let r1 = Registers { preset: preset.raw_of(), ..s0.regs };
    let s1 = write_seen(pre, h, log, at, s0, reg::EQ_PRESET, seq![preset.raw_of()], r1);
    assert(mid.log()[at + 1] == log[at + 1]);
    let r2 = Registers { eq_enable: 1, ..r1 };
    let s2 = write_seen(pre, h, log, at + 1, s1, reg::EQ_ENABLE, seq![1u8], r2);
    assert(log[at + 2] == log.last());
    read_seen(pre, h, log, at + 2, s2, register);
}

} // verus!
