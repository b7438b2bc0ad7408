//! The device manager's decisions.
//!
//! A worker owns the device: it is told what was found and opened, polls the
//! values that change on their own, listens for changes made by other
//! programs or by the headset buttons, and executes requests from the UI.
//! The UI only ever reads [`Snapshot`]s.

use crate::actions::{apply_request, read_step, request_step};
use crate::devices::blackshark_v2_hs::driver::{domain_of, event_views, BlackSharkV2Hs};
use crate::devices::blackshark_v2_hs::exchange::{continues, continues_on, Entry, Incoming, IncomingView};
use crate::devices::blackshark_v2_hs::protocol::reg;
use crate::devices::blackshark_v2_hs::protocol::{Response, ResponseView, DOMAIN_LOCAL};
use crate::devices::blackshark_v2_hs::reading::{
    answer_at, answered_at, begin, dongle_read_at, field_step, fields_step, fields_step_is_local, headset_read_at,
    link_step, link_step_is_local, outcome_at, reads_at, shows, state_step, states_show_the_answers, status_fields,
    Field, Refresh, Setting, Step,
};
use crate::devices::blackshark_v2_hs::state::{HeadsetState, StateView};
use crate::devices::{Connection, FoundDevice, FoundView};
use crate::eq::HardwarePreset;
use crate::error::{Error, ErrorView};
use crate::hid::transport::Transport;
use crate::manager::{
    coalesce, coalesced, DeviceSummary, ManagerOptions, Phase, PhaseView, Problem, ProblemView, Request, Snapshot,
    SnapshotView, SummaryView, LOG_LINES, TELEPHONY_REPORT_ID,
};
use crate::text::same;

use std::collections::BTreeSet;
use vstd::prelude::*;
use vstd::std_specs::btree::*;
use vstd::string::*;

verus! {

/// What a worker knows.
#[verifier::ext_equal]
pub struct WorkerView {
    pub options: ManagerOptions,
    pub snap: SnapshotView,
    pub connected: bool,
    /// GET registers to re-read because another program changed them.
    pub dirty: Set<u8>,
    /// When to look for a device next (milliseconds).
    pub next_scan_ms: u64,
    pub next_poll_ms: u64,
    /// Wall clock for the log (seconds since the epoch).
    pub wall_secs: u64,
}

impl WorkerView {
    pub open spec fn showing(self, snap: SnapshotView) -> WorkerView {
        WorkerView { snap: snap.touched(), ..self }
    }

    /// A batch was taken on: what is skipped of it waits no more.
    pub open spec fn batch_started(self, batch: Seq<Request>) -> WorkerView {
        let skipped = batch.len() - coalesced(batch).len();
        if skipped == 0 {
            self
        } else {
            self.showing(SnapshotView { pending: less(self.snap.pending, skipped), ..self.snap })
        }
    }

    /// One request is done with.
    pub open spec fn one_finished(self) -> WorkerView {
        self.showing(SnapshotView { pending: less(self.snap.pending, 1), ..self.snap })
    }

    /// `n` requests are done with, one after the other.
    pub open spec fn all_finished(self, n: nat) -> WorkerView
        decreases n,
    {
        if n == 0 {
            self
        } else {
            self.all_finished((n - 1) as nat).one_finished()
        }
    }

    pub open spec fn logged(self, text: Seq<char>) -> WorkerView {
        self.showing(self.snap.with_line(self.wall_secs, text))
    }

    /// The device is gone: everything about it is forgotten, and the next
    /// scan is due at once.
    pub open spec fn disconnected(self) -> WorkerView {
        let w = WorkerView { connected: false, dirty: Set::empty(), next_scan_ms: 0, ..self };
        let w = w.logged("device disconnected"@);
        w.showing(
            SnapshotView {
                phase: PhaseView::NoDevice,
                device: None,
                state: StateView::unknown(),
                ..w.snap
            },
        )
    }

    /// The headset is off or out of range; what is known of the dongle stays.
    pub open spec fn offline(self) -> WorkerView {
        let w = if self.snap.phase is Ready {
            self.logged("headset went offline"@)
        } else {
            self
        };
        w.showing(
            SnapshotView {
                phase: PhaseView::HeadsetOffline,
                state: StateView { link_up: Some(false), ..w.snap.state.without_headset() },
                ..w.snap
            },
        )
    }

    /// A background operation failed.
    pub open spec fn background(self, err: ErrorView) -> WorkerView {
        if err is Disconnected {
            self.disconnected()
        } else if err is HeadsetOffline {
            self.offline()
        } else {
            self.logged("device error: "@ + err.text())
        }
    }

    /// Everything was read, or failed to be. A device that is connected but
    /// unreadable is shown with what is known.
    pub open spec fn refreshed(self, result: Result<StateView, ErrorView>) -> WorkerView {
        match result {
            Ok(state) => self.showing(
                SnapshotView {
                    state,
                    phase: if state.link_up == Some(true) {
                        PhaseView::Ready
                    } else {
                        PhaseView::HeadsetOffline
                    },
                    ..self.snap
                },
            ),
            Err(e) => {
                let w = self.background(e);
                if w.connected && w.snap.phase is Connecting {
                    w.showing(SnapshotView { phase: PhaseView::HeadsetOffline, ..w.snap })
                } else {
                    w
                }
            },
        }
    }

    /// A request failed: the user is told, and what the error says of the
    /// device is taken note of.
    pub open spec fn failed(self, req: Request, err: ErrorView) -> WorkerView {
        let w = self.logged(req.text() + " failed: "@ + err.text());
        let w = w.showing(w.snap.with_problem(ProblemView::of(err)));
        if err is Disconnected {
            w.disconnected()
        } else if err is HeadsetOffline {
            w.offline()
        } else {
            w
        }
    }

    /// No device was found.
    pub open spec fn without_device(self) -> WorkerView {
        self.showing(
            if !(self.snap.phase is NoDevice) || self.snap.device is Some {
                SnapshotView {
                    phase: PhaseView::NoDevice,
                    device: None,
                    state: StateView::unknown(),
                    ..self.snap
                }
            } else {
                self.snap
            },
        )
    }

    /// A device was found that cannot be opened.
    pub open spec fn shut_out(self, found: FoundView, err: ErrorView) -> WorkerView {
        let summary = SummaryView::of(found);
        match err {
            ErrorView::PermissionDenied { path } => {
                let snap = if self.snap.phase == PhaseView::PermissionDenied(path) {
                    self.snap
                } else {
                    self.snap.with_line(self.wall_secs, "no permission to open "@ + path)
                };
                self.showing(
                    SnapshotView {
                        phase: PhaseView::PermissionDenied(path),
                        device: Some(summary),
                        ..snap
                    },
                )
            },
            _ => {
                let w = self.logged("cannot open "@ + summary.path + ": "@ + err.text());
                w.showing(
                    SnapshotView { phase: PhaseView::NoDevice, device: Some(summary), ..w.snap },
                )
            },
        }
    }

    /// A device was opened; nothing was read from it yet.
    pub open spec fn attached(self, found: FoundView) -> WorkerView {
        let summary = SummaryView::of(found);
        let w = self.logged("connected to "@ + summary.name + " ("@ + summary.path + ")"@);
        let w = w.showing(
            SnapshotView { phase: PhaseView::Connecting, device: Some(summary), ..w.snap },
        );
        WorkerView { connected: true, ..w }
    }
}

/// Reading everything.
pub open spec fn refresh_run(c: Setting, log: Seq<Entry>, at: int, w: WorkerView) -> Step<WorkerView> {
    let read = state_step(c, log, at);
    Step { ok: read.ok, end: read.end, value: w.refreshed(read.value) }
}

/// The values of a poll: the status, then the active preset (it can also
/// change from outside).
pub open spec fn poll_values(c: Setting, log: Seq<Entry>, at: int, s: StateView) -> Step<Refresh> {
    let status = fields_step(c, log, begin(at, s), status_fields());
    match status.value.result {
        Err(_) => status,
        Ok(_) => read_step(
            c,
            log,
            Step { ok: status.ok, end: status.end, value: Ok(()) },
            status.value.state,
            Field::EqPreset,
        ),
    }
}

/// A poll: the link first. A headset that is back is read as a whole.
pub open spec fn poll_run(c: Setting, log: Seq<Entry>, at: int, w: WorkerView) -> Step<WorkerView> {
    let link = link_step(c, log, at);
    match link.value {
        Err(e) => Step { ok: link.ok, end: link.end, value: w.background(e) },
        Ok(up) => if !up {
            Step {
                ok: link.ok,
                end: link.end,
                value: if w.snap.phase is Ready || w.snap.state.link_up != Some(false) {
                    w.offline()
                } else {
                    w
                },
            }
        } else if !(w.snap.phase is Ready) {
            let rest = refresh_run(c, log, link.end, w.logged("headset connected"@));
            Step { ok: link.ok && rest.ok, ..rest }
        } else {
            let values = poll_values(c, log, link.end, w.snap.state);
            Step {
                ok: link.ok && values.ok,
                end: values.end,
                value: match values.value.result {
                    Ok(_) => w.showing(
                        SnapshotView {
                            state: StateView {
                                battery: values.value.state.battery,
                                charging: values.value.state.charging,
                                mic_muted: values.value.state.mic_muted,
                                eq_preset: values.value.state.eq_preset,
                                ..w.snap.state
                            },
                            ..w.snap
                        },
                    ),
                    Err(e) => w.background(e),
                },
            }
        },
    }
}

/// What an event tells. Only SET echoes and the mute button cause reads;
/// replies to reads never do, so that two programs watching the same device
/// cannot ping-pong.
pub open spec fn heard(known: (StateView, Set<u8>), event: IncomingView, connection: Connection) -> (
    StateView,
    Set<u8>,
) {
    let (state, dirty) = known;
    match event {
        IncomingView::Frame(resp) => if resp.cmd >= reg::SET {
            (state, dirty.insert(reg::register(resp.cmd)))
        } else {
            match state.told(resp, connection) {
                Some(after) => (after, dirty),
                None => (state, dirty),
            }
        },
        IncomingView::Other { report_id, .. } => if report_id == TELEPHONY_REPORT_ID {
            (state, dirty.insert(reg::MIC_MUTE))
        } else {
            (state, dirty)
        },
    }
}

pub open spec fn heard_all(known: (StateView, Set<u8>), events: Seq<IncomingView>, connection: Connection) -> (
    StateView,
    Set<u8>,
)
    decreases events.len(),
{
    if events.len() == 0 {
        known
    } else {
        heard(heard_all(known, events.drop_last(), connection), events.last(), connection)
    }
}

/// Replies to other programs' reads never cause reads of our own.
pub proof fn foreign_replies_cause_no_reads(
    known: (StateView, Set<u8>),
    events: Seq<IncomingView>,
    connection: Connection,
)
    requires
        forall|i: int|
            0 <= i < events.len() ==> match #[trigger] events[i] {
                IncomingView::Frame(resp) => resp.cmd < reg::SET,
                IncomingView::Other { report_id, .. } => report_id != TELEPHONY_REPORT_ID,
            },
    ensures
        heard_all(known, events, connection).1 == known.1,
    decreases events.len(),
{
    if events.len() > 0 {
        let rest = events.drop_last();
        assert forall|i: int| 0 <= i < rest.len() implies match #[trigger] rest[i] {
            IncomingView::Frame(resp) => resp.cmd < reg::SET,
            IncomingView::Other { report_id, .. } => report_id != TELEPHONY_REPORT_ID,
        } by {
            assert(rest[i] == events[i]);
        }
        foreign_replies_cause_no_reads(known, rest, connection);
        assert(events[events.len() - 1] == events.last());
    }
}

/// Picking up what was not for us.
pub open spec fn listen_run(c: Setting, log: Seq<Entry>, at: int, w: WorkerView) -> Step<WorkerView> {
    match log[at] {
        Entry::Polled { wait_us, outcome } => Step {
            ok: wait_us == 0,
            end: at + 1,
            value: match outcome {
                Err(e) => w.background(e),
                Ok(events) => {
                    let (state, dirty) = heard_all((w.snap.state, w.dirty), events, c.connection);
                    if state == w.snap.state {
                        WorkerView { dirty, ..w }
                    } else {
                        WorkerView { dirty, ..w.showing(SnapshotView { state, ..w.snap }) }
                    }
                },
            },
        },
        _ => Step { ok: false, end: at, value: w },
    }
}

/// The registers of a set from `from` on, in ascending order.
pub open spec fn ascending(dirty: Set<u8>, from: nat) -> Seq<u8>
    decreases 128 - from,
{
    if from >= 128 {
        seq![]
    } else if dirty.contains(from as u8) {
        seq![from as u8] + ascending(dirty, from + 1)
    } else {
        ascending(dirty, from + 1)
    }
}

/// Where a register is read: the dongle speaks for its LED and the link.
pub open spec fn register_domain(c: Setting, register: u8) -> u8 {
    if register == reg::DONGLE_LED || register == reg::LINK_STATUS {
        DOMAIN_LOCAL
    } else {
        domain_of(c.connection)
    }
}

/// Reading registers one by one. One that is not answered is skipped; any
/// other failure ends it.
pub open spec fn replies_run(c: Setting, log: Seq<Entry>, at: int, registers: Seq<u8>) -> Step<
    Result<Seq<ResponseView>, ErrorView>,
>
    decreases registers.len(),
{
    if registers.len() == 0 {
        Step { ok: true, end: at, value: Ok(seq![]) }
    } else {
        let before = replies_run(c, log, at, registers.drop_last());
        let register = registers.last();
        match before.value {
            Err(_) => before,
            Ok(replies) => Step {
                ok: before.ok && shows(c, log, before.end, register_domain(c, register), register, seq![]),
                end: before.end + 1,
                value: match outcome_at(log, before.end) {
                    Ok(resp) => Ok(replies.push(resp)),
                    Err(e) => if e.is_timeout() {
                        Ok(replies)
                    } else {
                        Err(e)
                    },
                },
            },
        }
    }
}

pub open spec fn told_all(state: StateView, replies: Seq<ResponseView>, connection: Connection) -> StateView
    decreases replies.len(),
{
    if replies.len() == 0 {
        state
    } else {
        let before = told_all(state, replies.drop_last(), connection);
        match before.told(replies.last(), connection) {
            Some(after) => after,
            None => before,
        }
    }
}

/// Re-reading what other programs changed.
pub open spec fn reread_run(c: Setting, log: Seq<Entry>, at: int, w: WorkerView) -> Step<WorkerView> {
    let read = replies_run(c, log, at, ascending(w.dirty, 0));
    let w = WorkerView { dirty: Set::empty(), ..w };
    Step {
        ok: read.ok,
        end: read.end,
        value: match read.value {
            Err(e) => w.background(e),
            Ok(replies) => w.showing(
                SnapshotView { state: told_all(w.snap.state, replies, c.connection), ..w.snap },
            ),
        },
    }
}

/// Does a request reach the device? Why not, if it does not.
pub open spec fn obstacle(w: WorkerView, req: Request) -> Option<ErrorView> {
    if !w.connected {
        Some(ErrorView::NoDevice)
    } else if w.snap.phase is HeadsetOffline && !(req is SetLedMode) {
        Some(ErrorView::HeadsetOffline)
    } else {
        None
    }
}

/// Executing a request. What the device reports back is shown only if all of
/// it succeeded.
pub open spec fn execute_run(c: Setting, log: Seq<Entry>, at: int, w: WorkerView, req: Request) -> Step<WorkerView> {
    if req is Refresh {
        if w.connected {
            refresh_run(c, log, at, w)
        } else {
            Step { ok: true, end: at, value: WorkerView { next_scan_ms: 0, ..w } }
        }
    } else {
        match obstacle(w, req) {
            Some(e) => Step { ok: true, end: at, value: w.failed(req, e) },
            None => {
                let done = request_step(c, log, at, w.snap.state, req);
                Step {
                    ok: done.ok,
                    end: done.end,
                    value: match done.value.result {
                        Ok(_) => w.showing(SnapshotView { state: done.value.state, ..w.snap }),
                        Err(e) => w.failed(req, e),
                    },
                }
            },
        }
    }
}

/// A request that was refused or failed is reported, and changes no setting
/// that is shown: the state stays, or is forgotten with the headset.
pub proof fn refused_requests_are_reported(c: Setting, log: Seq<Entry>, at: int, w: WorkerView, req: Request, e: ErrorView)
    requires
        !(req is Refresh),
        obstacle(w, req) == Some(e) || (obstacle(w, req) is None && request_step(
            c,
            log,
            at,
            w.snap.state,
            req,
        ).value.result == Err::<(), ErrorView>(e)),
    ensures
        execute_run(c, log, at, w, req).value == w.failed(req, e),
        w.failed(req, e).snap.problem matches Some((_, problem)) && problem == ProblemView::of(e),
        !(e is Disconnected) && !(e is HeadsetOffline) ==> w.failed(req, e).snap.state == w.snap.state,
        w.failed(req, e).snap.state == w.snap.state || w.failed(req, e).snap.state == StateView::unknown()
            || w.failed(req, e).snap.state == (StateView {
            link_up: Some(false),
            ..w.snap.state.without_headset()
        }),
{
}

/// Where the four values of a poll are answered: behind the link on a dongle,
/// at once on a cable.
pub open spec fn status_from(connection: Connection, at: int) -> int {
    if connection is Dongle {
        at + 1
    } else {
        at
    }
}

/// Was everything that a poll asks for answered, by a headset that is there?
pub open spec fn status_is_answered(connection: Connection, log: Seq<Entry>, at: int) -> bool {
    let i = status_from(connection, at);
    &&& connection is Dongle ==> answered_at(log, at) && answer_at(log, at)[0] != 0
    &&& answered_at(log, i) && answer_at(log, i)[0] <= 100
    &&& answered_at(log, i + 1) && answered_at(log, i + 2) && answered_at(log, i + 3)
}

/// If all of a poll was answered, what is shown after it of battery, charging,
/// mute button and preset is what was answered, and the rest is as it was.
pub open spec fn status_is_shown(
    connection: Connection,
    log: Seq<Entry>,
    at: int,
    before: StateView,
    after: StateView,
) -> bool {
    let i = status_from(connection, at);
    status_is_answered(connection, log, at) ==> {
        &&& after.battery == Some(answer_at(log, i)[0])
        &&& after.charging == Some(answer_at(log, i + 1)[0] != 0)
        &&& after.mic_muted == Some(answer_at(log, i + 2)[0] != 0)
        &&& after.eq_preset matches Some(preset) && preset == HardwarePreset::of_raw(answer_at(log, i + 3)[0])
        &&& after == (StateView {
            battery: after.battery,
            charging: after.charging,
            mic_muted: after.mic_muted,
            eq_preset: after.eq_preset,
            ..before
        })
    }
}

/// A poll of a headset that is there and answers: battery, charging, mute
/// button and active preset are asked for, and what is shown of them is what
/// was answered. Nothing else that is shown changes.
pub proof fn polls_show_the_answers(c: Setting, log: Seq<Entry>, at: int, w: WorkerView)
    requires
        w.snap.phase is Ready,
        c.connection is Dongle ==> answered_at(log, at) && answer_at(log, at)[0] != 0,
        ({
            let i = if c.connection is Dongle {
                at + 1
            } else {
                at
            };
            &&& answered_at(log, i) && answer_at(log, i)[0] <= 100
            &&& answered_at(log, i + 1) && answered_at(log, i + 2) && answered_at(log, i + 3)
        }),
        poll_run(c, log, at, w).ok,
    ensures
        ({
            let i = if c.connection is Dongle {
                at + 1
            } else {
                at
            };
            let domain: u8 = if c.connection is Dongle {
                0x80
            } else {
                0x00
            };
            let after = poll_run(c, log, at, w).value;
            let shown = after.snap.state;
            &&& c.connection is Dongle ==> reads_at(log, at, 0x00, 0x20)
            &&& reads_at(log, i, domain, 0x21) && reads_at(log, i + 1, domain, 0x2A)
            &&& reads_at(log, i + 2, domain, 0x55) && reads_at(log, i + 3, domain, 0x13)
            &&& poll_run(c, log, at, w).end == i + 4
            &&& shown.battery == Some(answer_at(log, i)[0])
            &&& shown.charging == Some(answer_at(log, i + 1)[0] != 0)
            &&& shown.mic_muted == Some(answer_at(log, i + 2)[0] != 0)
            &&& shown.eq_preset matches Some(preset) && preset == HardwarePreset::of_raw(answer_at(log, i + 3)[0])
            &&& shown == (StateView {
                battery: shown.battery,
                charging: shown.charging,
                mic_muted: shown.mic_muted,
                eq_preset: shown.eq_preset,
                ..w.snap.state
            })
            &&& after.snap.revision != w.snap.revision
            &&& after == (WorkerView {
                snap: SnapshotView { state: shown, revision: after.snap.revision, ..w.snap },
                ..w
            })
        }),
{
    let i = link_step(c, log, at).end;
    let fields = status_fields();
    let before = begin(i, w.snap.state);
    let one = fields.drop_last().drop_last();
    let two = fields.drop_last();
    assert(one =~= seq![Field::Battery]);
    assert(two =~= seq![Field::Battery, Field::Charging]);
    assert(one.drop_last() =~= seq![]);
    assert(two.drop_last() =~= one);
    assert(fields_step(c, log, before, one.drop_last()) == before);
    let a = fields_step(c, log, before, one);
    assert(a == field_step(c, log, before, Field::Battery));
    let b = fields_step(c, log, before, two);
    assert(b == field_step(c, log, a, Field::Charging));
    assert(fields_step(c, log, before, fields) == field_step(c, log, b, Field::MicMuted));
}

/// A poll that finds the headset gone: it is shown as off, nothing is shown
/// of it any more, and what is known of the dongle stays.
pub proof fn polls_notice_a_headset_that_left(c: Setting, log: Seq<Entry>, at: int, w: WorkerView)
    requires
        c.connection is Dongle,
        answered_at(log, at),
        answer_at(log, at)[0] == 0,
        w.snap.phase is Ready || w.snap.state.link_up != Some(false),
    ensures
        ({
            let after = poll_run(c, log, at, w).value;
            &&& poll_run(c, log, at, w).end == at + 1
            &&& after.snap.phase is HeadsetOffline
            &&& after.snap.state.link_up == Some(false)
            &&& after.snap.state.knows_no_headset()
            &&& after.snap.state.dongle_serial == w.snap.state.dongle_serial
            &&& after.snap.state.dongle_firmware == w.snap.state.dongle_firmware
            &&& after.snap.state.led_mode == w.snap.state.led_mode
            &&& after.snap.device == w.snap.device
            &&& after.connected == w.connected
            &&& w.snap.phase is Ready ==> after.snap.log.last().text == "headset went offline"@
        }),
{
}

/// A poll of a headset that stays off changes nothing.
pub proof fn polls_of_a_headset_that_is_off(c: Setting, log: Seq<Entry>, at: int, w: WorkerView)
    requires
        c.connection is Dongle,
        answered_at(log, at),
        answer_at(log, at)[0] == 0,
        !(w.snap.phase is Ready),
        w.snap.state.link_up == Some(false),
    ensures
        poll_run(c, log, at, w).value == w,
{
}

/// A poll that finds the headset back reads all of it: what is shown then is
/// what it answered, register by register.
pub proof fn polls_read_a_headset_that_is_back(c: Setting, log: Seq<Entry>, at: int, w: WorkerView)
    requires
        c.connection is Dongle,
        !(w.snap.phase is Ready),
        forall|i: int| at <= i < at + 18 ==> #[trigger] answered_at(log, i),
        answer_at(log, at)[0] != 0,
        answer_at(log, at + 4)[0] != 0,
        answer_at(log, at + 7)[0] <= 100,
        answer_at(log, at + 17).len() >= 10,
        poll_run(c, log, at, w).ok,
    ensures
        ({
            let after = poll_run(c, log, at, w).value;
            &&& poll_run(c, log, at, w).end == at + 18
            &&& after.snap.phase is Ready
            &&& after.snap.state.link_up == Some(true)
            &&& dongle_read_at(log, at + 1, after.snap.state)
            &&& headset_read_at(log, at + 5, 0x80, after.snap.state)
            &&& after.snap.log.last().text == "headset connected"@
            &&& after.snap.device == w.snap.device
        }),
{
    assert(answered_at(log, at));
    assert(link_step(c, log, at).end == at + 1);
    states_show_the_answers(c, log, at + 1);
}

/// A device that is gone is forgotten altogether, and looked for at once.
pub proof fn gone_devices_are_forgotten(w: WorkerView, req: Request)
    ensures
        forgotten(w.background(ErrorView::Disconnected)),
        forgotten(w.failed(req, ErrorView::Disconnected)),
        w.background(ErrorView::Disconnected).snap.log.last().text == "device disconnected"@,
{
}

pub open spec fn forgotten(w: WorkerView) -> bool {
    &&& !w.connected
    &&& w.dirty == Set::<u8>::empty()
    &&& w.next_scan_ms == 0
    &&& w.snap.phase is NoDevice
    &&& w.snap.device is None
    &&& w.snap.state.knows_no_headset()
    &&& w.snap.state.link_up is None && w.snap.state.led_mode is None
    &&& w.snap.state.dongle_serial is None && w.snap.state.dongle_firmware is None
}

/// A headset that went off is shown as off with nothing known of it; the
/// dongle stays. Any other failure in the background is only logged.
pub proof fn background_failures(w: WorkerView, e: ErrorView)
    ensures
        e is HeadsetOffline ==> ({
            let after = w.background(e);
            &&& after.snap.phase is HeadsetOffline
            &&& after.snap.state.link_up == Some(false)
            &&& after.snap.state.knows_no_headset()
            &&& after.snap.state.dongle_serial == w.snap.state.dongle_serial
            &&& after.snap.state.dongle_firmware == w.snap.state.dongle_firmware
            &&& after.snap.state.led_mode == w.snap.state.led_mode
            &&& after.snap.device == w.snap.device
            &&& after.connected == w.connected
        }),
        !(e is HeadsetOffline) && !(e is Disconnected) ==> ({
            let after = w.background(e);
            &&& after.snap.state == w.snap.state
            &&& after.snap.phase == w.snap.phase
            &&& after.snap.device == w.snap.device
            &&& after.snap.problem == w.snap.problem
            &&& after.connected == w.connected
            &&& after.dirty == w.dirty
            &&& after.snap.log.last().text == "device error: "@ + e.text()
        }),
{
}

/// What a full read finds is what is shown, as ready exactly if the headset is
/// linked. A read that fails never makes a headset ready.
pub proof fn full_reads_are_shown(w: WorkerView, result: Result<StateView, ErrorView>)
    ensures
        result matches Ok(state) ==> ({
            let after = w.refreshed(result);
            &&& after.snap.state == state
            &&& after.snap.phase is Ready <==> state.link_up == Some(true)
            &&& !(after.snap.phase is Ready) ==> after.snap.phase is HeadsetOffline
            &&& after.snap.revision != w.snap.revision
            &&& after.connected == w.connected
            &&& after.snap.device == w.snap.device
        }),
        result is Err && !(w.snap.phase is Ready) ==> !(w.refreshed(result).snap.phase is Ready),
        result is Err && w.refreshed(result).connected ==> !(w.refreshed(result).snap.phase is Connecting),
{
}

/// What becomes of a request that fails: it is logged by name, and the user
/// gets a problem under a new number.
pub proof fn failures_are_told(w: WorkerView, req: Request, e: ErrorView)
    requires
        !(e is Disconnected),
        !(e is HeadsetOffline),
    ensures
        ({
            let after = w.failed(req, e);
            &&& after.snap.log.last().text == req.text() + " failed: "@ + e.text()
            &&& after.snap.problem matches Some((id, problem)) && problem == ProblemView::of(e)
                && (w.snap.problem matches Some((last, _)) ==> id != last)
            &&& after.snap.state == w.snap.state
            &&& after.snap.phase == w.snap.phase
            &&& after.connected == w.connected
        }),
{
}

/// A request needs a device, and all but the dongle's LED need the headset.
pub proof fn requests_need_the_headset(w: WorkerView, req: Request)
    ensures
        !w.connected ==> obstacle(w, req) == Some(ErrorView::NoDevice),
        w.connected && !(w.snap.phase is HeadsetOffline) ==> obstacle(w, req) is None,
        w.connected && w.snap.phase is HeadsetOffline && req is SetLedMode ==> obstacle(w, req) is None,
        w.connected && w.snap.phase is HeadsetOffline && !(req is SetLedMode) ==> obstacle(w, req) == Some(
            ErrorView::HeadsetOffline,
        ),
{
}

/// A request that succeeds shows what the device reports back, and nothing
/// else changes.
pub proof fn successful_requests_are_shown(c: Setting, log: Seq<Entry>, at: int, w: WorkerView, req: Request)
    requires
        !(req is Refresh),
        w.connected,
        !(w.snap.phase is HeadsetOffline) || req is SetLedMode,
        request_step(c, log, at, w.snap.state, req).value.result is Ok,
    ensures
        ({
            let after = execute_run(c, log, at, w, req).value;
            &&& after.snap.state == request_step(c, log, at, w.snap.state, req).value.state
            &&& after.snap.revision != w.snap.revision
            &&& after == (WorkerView {
                snap: SnapshotView {
                    state: after.snap.state,
                    revision: after.snap.revision,
                    ..w.snap
                },
                ..w
            })
        }),
{
}

/// A refresh reads everything of a device that is there; without one, a device
/// is looked for at once, and nothing else changes.
pub proof fn refreshing_looks_for_a_device(c: Setting, log: Seq<Entry>, at: int, w: WorkerView)
    ensures
        w.connected ==> execute_run(c, log, at, w, Request::Refresh).value == w.refreshed(state_step(c, log, at).value),
        !w.connected ==> ({
            let after = execute_run(c, log, at, w, Request::Refresh).value;
            &&& after.next_scan_ms == 0
            &&& after == (WorkerView { next_scan_ms: after.next_scan_ms, ..w })
        }),
{
}

/// A device that is found and opened is shown by name and path while it is
/// read.
pub proof fn opened_devices_are_shown(w: WorkerView, found: FoundView)
    ensures
        ({
            let after = w.attached(found);
            &&& after.connected
            &&& after.snap.phase is Connecting
            &&& after.snap.state == w.snap.state
            &&& after.snap.device matches Some(device) && device.name == found.model.name@ && device.path
                == found.path() && device.connection == found.model.connection && device.vid == found.model.vid
                && device.pid == found.model.pid && device.experimental == found.model.experimental
                && device.simulated == (found.location is Simulated)
            &&& after.snap.log.last().text == "connected to "@ + found.model.name@ + " ("@ + found.path() + ")"@
        }),
{
}

/// A device that may not be opened is shown with its path, and logged once. No
/// device that could not be opened counts as connected or ready.
pub proof fn closed_devices_are_shown(w: WorkerView, found: FoundView, e: ErrorView)
    requires
        !w.connected,
    ensures
        ({
            let after = w.shut_out(found, e);
            &&& !after.connected
            &&& after.snap.device matches Some(device) && device.name == found.model.name@ && device.path
                == found.path()
            &&& e matches ErrorView::PermissionDenied { path } ==> after.snap.phase == PhaseView::PermissionDenied(
                path,
            ) && (w.snap.phase == PhaseView::PermissionDenied(path) ==> after.snap.log == w.snap.log) && (
            w.snap.phase != PhaseView::PermissionDenied(path) ==> after.snap.log.last().text
                == "no permission to open "@ + path)
            &&& !(e is PermissionDenied) ==> after.snap.phase is NoDevice && after.snap.log.last().text
                == "cannot open "@ + found.path() + ": "@ + e.text()
        }),
        ({
            let after = w.without_device();
            &&& after.snap.phase is NoDevice
            &&& after.snap.device is None
            &&& !after.connected
            &&& w.snap.phase is NoDevice && w.snap.device is None ==> after.snap.state == w.snap.state
            &&& !(w.snap.phase is NoDevice) ==> after.snap.state == StateView::unknown()
        }),
{
}

/// What an event tells: the echo of a write marks its register to be read
/// again, the mute button the microphone's, and any other report nothing. A
/// reply to a read is taken for what it says.
pub proof fn events_are_heeded(known: (StateView, Set<u8>), event: IncomingView, connection: Connection)
    ensures
        event matches IncomingView::Frame(resp) ==> {
            &&& resp.cmd >= 0x80 ==> heard(known, event, connection) == (known.0, known.1.insert(
                (resp.cmd - 0x80) as u8,
            ))
            &&& resp.cmd < 0x80 ==> heard(known, event, connection).1 == known.1 && match known.0.told(
                resp,
                connection,
            ) {
                Some(after) => heard(known, event, connection).0 == after,
                None => heard(known, event, connection).0 == known.0,
            }
        },
        event matches IncomingView::Other { report_id, .. } ==> {
            &&& report_id == 5 ==> heard(known, event, connection) == (known.0, known.1.insert(0x55u8))
            &&& report_id != 5 ==> heard(known, event, connection) == known
        },
{
}

/// Does the event mark `register` to be read again?
pub open spec fn marks(event: IncomingView, register: u8) -> bool {
    match event {
        IncomingView::Frame(resp) => resp.cmd >= 0x80 && resp.cmd - 0x80 == register,
        IncomingView::Other { report_id, .. } => report_id == 5 && register == 0x55,
    }
}

/// After listening, exactly those registers are to be read again that were
/// before or that an event marked.
pub proof fn changed_registers_are_marked(
    known: (StateView, Set<u8>),
    events: Seq<IncomingView>,
    connection: Connection,
    register: u8,
)
    ensures
        heard_all(known, events, connection).1.contains(register) <==> known.1.contains(register) || exists|i: int|
            0 <= i < events.len() && #[trigger] marks(events[i], register),
    decreases events.len(),
{
    if events.len() > 0 {
        let rest = events.drop_last();
        changed_registers_are_marked(known, rest, connection, register);
        if exists|i: int| 0 <= i < rest.len() && #[trigger] marks(rest[i], register) {
            let i = choose|i: int| 0 <= i < rest.len() && #[trigger] marks(rest[i], register);
            assert(marks(events[i], register));
        }
        if exists|i: int| 0 <= i < events.len() && #[trigger] marks(events[i], register) {
            let i = choose|i: int| 0 <= i < events.len() && #[trigger] marks(events[i], register);
            if i < rest.len() {
                assert(marks(rest[i], register));
            }
        }
        if marks(events.last(), register) {
            assert(marks(events[events.len() - 1], register));
        }
    }
}

/// The registers to read again are listed once each, from low to high.
pub proof fn marked_registers_are_listed(dirty: Set<u8>, from: nat, register: u8)
    ensures
        ascending(dirty, from).contains(register) <==> dirty.contains(register) && from <= register < 128,
        forall|i: int, j: int|
            0 <= i < j < ascending(dirty, from).len() ==> #[trigger] ascending(dirty, from)[i]
                < #[trigger] ascending(dirty, from)[j],
        forall|i: int| 0 <= i < ascending(dirty, from).len() ==> from <= #[trigger] ascending(dirty, from)[i] < 128,
    decreases 128 - from,
{
    if from < 128 {
        marked_registers_are_listed(dirty, from + 1, register);
        let rest = ascending(dirty, from + 1);
        let all = ascending(dirty, from);
        if dirty.contains(from as u8) {
            assert(all[0] == from as u8);
            if rest.contains(register) {
                let k = choose|k: int| 0 <= k < rest.len() && rest[k] == register;
                assert(all[k + 1] == register);
            }
            if all.contains(register) && register != from as u8 {
                let k = choose|k: int| 0 <= k < all.len() && all[k] == register;
                assert(rest[k - 1] == register);
            }
            assert forall|i: int| 0 <= i < all.len() implies from <= #[trigger] all[i] < 128 by {
                if i > 0 {
                    assert(all[i] == rest[i - 1]);
                }
            }
            assert forall|i: int, j: int| 0 <= i < j < all.len() implies #[trigger] all[i] < #[trigger] all[j] by {
                assert(all[j] == rest[j - 1]);
                if i > 0 {
                    assert(all[i] == rest[i - 1]);
                }
            }
        }
    }
}

/// Reading registers again that are all answered: each is asked for once, in
/// its own domain, and every answer is kept in order.
pub proof fn rereads_get_every_answer(c: Setting, log: Seq<Entry>, at: int, registers: Seq<u8>)
    requires
        forall|i: int| at <= i < at + registers.len() ==> #[trigger] outcome_at(log, i) is Ok,
    ensures
        ({
            let run = replies_run(c, log, at, registers);
            &&& run.end == at + registers.len()
            &&& run.value matches Ok(replies) && replies.len() == registers.len() && forall|k: int|
                0 <= k < registers.len() ==> #[trigger] replies[k] == outcome_at(log, at + k)->Ok_0
            &&& run.ok ==> forall|k: int|
                0 <= k < registers.len() ==> reads_at(
                    log,
                    at + k,
                    if c.connection is Wired || #[trigger] registers[k] == 0x66 || registers[k] == 0x20 {
                        0x00
                    } else {
                        0x80
                    },
                    registers[k],
                )
        }),
    decreases registers.len(),
{
    if registers.len() > 0 {
        let rest = registers.drop_last();
        rereads_get_every_answer(c, log, at, rest);
        let run = replies_run(c, log, at, rest);
        assert(outcome_at(log, at + rest.len()) is Ok);
        if replies_run(c, log, at, registers).ok {
            assert forall|k: int| 0 <= k < registers.len() implies reads_at(
                log,
                at + k,
                if c.connection is Wired || #[trigger] registers[k] == 0x66 || registers[k] == 0x20 {
                    0x00
                } else {
                    0x80
                },
                registers[k],
            ) by {
                if k < rest.len() {
                    assert(rest[k] == registers[k]);
                }
            }
        }
    }
}

/// A change that another program made is picked up: after its register was
/// read again, what is shown is what the answer says, and nothing is left to
/// be read.
pub proof fn changes_of_others_are_shown(c: Setting, log: Seq<Entry>, at: int, w: WorkerView, register: u8)
    requires
        w.dirty == set![register],
        register < 0x80,
        outcome_at(log, at) is Ok,
        reread_run(c, log, at, w).ok,
    ensures
        ({
            let after = reread_run(c, log, at, w).value;
            let resp = outcome_at(log, at)->Ok_0;
            &&& reread_run(c, log, at, w).end == at + 1
            &&& reads_at(
                log,
                at,
                if c.connection is Wired || register == 0x66 || register == 0x20 {
                    0x00
                } else {
                    0x80
                },
                register,
            )
            &&& after.snap.state == match w.snap.state.told(resp, c.connection) {
                Some(told) => told,
                None => w.snap.state,
            }
            &&& after.dirty == Set::<u8>::empty()
            &&& after.snap.phase == w.snap.phase
            &&& after.connected == w.connected
        }),
{
    let registers = ascending(w.dirty, 0);
    marked_registers_are_listed(w.dirty, 0, register);
    let k = choose|k: int| 0 <= k < registers.len() && registers[k] == register;
    assert(registers[k] == register);
    assert forall|i: int| 0 <= i < registers.len() implies #[trigger] registers[i] == register by {
        marked_registers_are_listed(w.dirty, 0, registers[i]);
        assert(registers.contains(registers[i]));
    }
    assert(registers.len() == 1) by {
        if registers.len() > 1 {
            assert(registers[0] < registers[1]);
        }
    }
    assert(registers =~= seq![register]);
    rereads_get_every_answer(c, log, at, registers);
    let replies = replies_run(c, log, at, registers).value->Ok_0;
    assert(replies[0] == outcome_at(log, at + 0)->Ok_0);
    assert(registers[0] == register);
    assert(replies.drop_last() =~= seq![]);
    reveal_with_fuel(told_all, 2);
}

/// Requests that are done with are counted down one by one, never below none,
/// and nothing else that is shown changes. Of a batch, all that are skipped
/// count as done with.
pub proof fn waiting_requests_are_counted(w: WorkerView, batch: Seq<Request>)
    ensures
        w.snap.pending > 0 ==> w.one_finished().snap.pending == w.snap.pending - 1,
        w.snap.pending == 0 ==> w.one_finished().snap.pending == 0,
        w.one_finished().snap.state == w.snap.state && w.one_finished().snap.phase == w.snap.phase,
        w.one_finished().snap.revision != w.snap.revision,
        batch.len() - coalesced(batch).len() <= w.snap.pending && coalesced(batch).len() <= batch.len()
            ==> w.batch_started(batch).snap.pending + batch.len() == w.snap.pending + coalesced(batch).len(),
        w.batch_started(batch).snap.state == w.snap.state && w.batch_started(batch).snap.phase == w.snap.phase,
{
}

/// Times add up as long as they can be told.
pub proof fn times_add_up(a: u64, b: u64)
    ensures
        a + b <= u64::MAX ==> sum(a, b) == a + b,
        a <= sum(a, b) && b <= sum(a, b),
{
}

/// What was heard is shown, and a failure to listen is treated as any other.
pub proof fn news_is_shown(c: Setting, log: Seq<Entry>, at: int, w: WorkerView)
    requires
        log[at] is Polled,
    ensures
        ({
            let after = listen_run(c, log, at, w).value;
            &&& listen_run(c, log, at, w).end == at + 1
            &&& log[at]->Polled_outcome matches Ok(events) ==> {
                &&& after.snap.state == heard_all((w.snap.state, w.dirty), events, c.connection).0
                &&& after.dirty == heard_all((w.snap.state, w.dirty), events, c.connection).1
                &&& after.snap.revision == w.snap.revision <==> after.snap.state == w.snap.state
                &&& after.snap.phase == w.snap.phase && after.connected == w.connected
            }
            &&& log[at]->Polled_outcome matches Err(e) ==> after == w.background(e)
        }),
{
}

/// The device that is opened: the first that is not experimental; only if all
/// are, the first.
pub proof fn tried_devices_are_preferred(found: Seq<FoundDevice>, from: nat)
    requires
        from <= found.len(),
        forall|j: int| 0 <= j < from ==> (#[trigger] found[j]).model.experimental,
    ensures
        found.len() == 0 <==> preferred(found, from) is None,
        preferred(found, from) matches Some(i) ==> 0 <= i < found.len() && (found[i].model.experimental ==> i == 0
            && forall|j: int| 0 <= j < found.len() ==> (#[trigger] found[j]).model.experimental) && forall|j: int|
            0 <= j < i ==> (#[trigger] found[j]).model.experimental,
    decreases found.len() - from,
{
    if from < found.len() && found[from as int].model.experimental {
        tried_devices_are_preferred(found, from + 1);
    }
}

/// What to do next in the worker's loop.
#[derive(Debug, Clone, Copy, PartialEq, Eq)]
pub enum Tick {
    /// Nothing is due.
    Idle,
    /// Look for a device and open it.
    Connect,
    /// Serve the device: listen, re-read, poll.
    Serve,
}

/// The device to open among those found: the first that is not experimental,
/// else the first.
pub open spec fn preferred(found: Seq<FoundDevice>, from: nat) -> Option<int>
    decreases found.len() - from,
{
    if from >= found.len() {
        if found.len() > 0 {
            Some(0)
        } else {
            None
        }
    } else if !found[from as int].model.experimental {
        Some(from as int)
    } else {
        preferred(found, from + 1)
    }
}

pub fn choose_device(found: &Vec<FoundDevice>) -> (r: Option<usize>)
    ensures
        match r {
            Some(i) => i < found@.len() && preferred(found@, 0) == Some(i as int),
            None => found@.len() == 0,
        },
{
    let mut i: usize = 0;
    while i < found.len()
        invariant
            i <= found@.len(),
            preferred(found@, 0) == preferred(found@, i as nat),
        decreases found@.len() - i,
    {
        if !found[i].model.experimental {
            return Some(i);
        }
        i += 1;
    }
    if found.len() > 0 {
        Some(0)
    } else {
        None
    }
}

pub struct Worker<T: Transport> {
    options: ManagerOptions,
    snap: Snapshot,
    device: Option<BlackSharkV2Hs<T>>,
    dirty: BTreeSet<u8>,
    next_scan_ms: u64,
    next_poll_ms: u64,
    wall_secs: u64,
    /// Log of the current device, or of the last one.
    trace: Ghost<Seq<Entry>>,
}

impl<T: Transport> View for Worker<T> {
    type V = WorkerView;

    closed spec fn view(&self) -> WorkerView {
        WorkerView {
            options: self.options,
            snap: self.snap@,
            connected: self.device is Some,
            dirty: self.dirty@,
            next_scan_ms: self.next_scan_ms,
            next_poll_ms: self.next_poll_ms,
            wall_secs: self.wall_secs,
        }
    }
}

impl<T: Transport> Worker<T> {
    pub closed spec fn attached_device(&self) -> Option<BlackSharkV2Hs<T>> {
        self.device
    }

    /// Log of the current device, or of the last one.
    pub closed spec fn trace(&self) -> Seq<Entry> {
        self.trace@
    }

    pub open spec fn wf(&self) -> bool {
        &&& self@.connected == (self.attached_device() is Some)
        &&& self.attached_device() matches Some(dev) ==> dev.wf() && self.trace() == dev.log()
        &&& self@.snap.log.len() <= LOG_LINES
        &&& forall|register: u8| #[trigger] self@.dirty.contains(register) ==> register < reg::SET
    }

    pub open spec fn setting(&self) -> Setting {
        self.attached_device()->0.setting()
    }

    /// Is `next` this worker after the commands that `step` speaks of?
    pub open spec fn ran(&self, next: Self, step: Step<WorkerView>) -> bool {
        &&& next.wf()
        &&& continues(next.trace(), self.trace())
        &&& step.ok
        &&& step.end == next.trace().len()
        &&& next@ == step.value
        &&& next.attached_device() matches Some(after) ==> (self.attached_device() matches Some(before)
            && before.used(after))
    }

    pub fn new(options: ManagerOptions) -> (r: Self)
        ensures
            r.wf(),
            r.trace() == Seq::<Entry>::empty(),
            r@ == (WorkerView {
                options,
                snap: SnapshotView::initial(),
                connected: false,
                dirty: Set::empty(),
                next_scan_ms: 0,
                next_poll_ms: 0,
                wall_secs: 0,
            }),
    {
        let r = Worker {
            options,
            snap: Snapshot::default(),
            device: None,
            dirty: BTreeSet::new(),
            next_scan_ms: 0,
            next_poll_ms: 0,
            wall_secs: 0,
            trace: Ghost(Seq::empty()),
        };
        assert(r@.dirty =~= Set::empty());
        r
    }

    /// The picture to show.
    pub fn snapshot(&self) -> (r: Snapshot)
        ensures
            r@ == self@.snap,
    {
        self.snap.clone()
    }

    pub fn is_connected(&self) -> (r: bool)
        ensures
            r == self@.connected,
    {
        self.device.is_some()
    }

    /// Set the wall clock for the log.
    pub fn set_wall_clock(&mut self, secs: u64)
        requires
            old(self).wf(),
        ensures
            final(self).wf(),
            final(self).trace() == old(self).trace(),
            final(self).attached_device() == old(self).attached_device(),
            final(self)@ == (WorkerView { wall_secs: secs, ..old(self)@ }),
    {
        self.wall_secs = secs;
    }

    /// Take over how many requests wait.
    pub fn set_pending(&mut self, pending: usize)
        requires
            old(self).wf(),
        ensures
            final(self).wf(),
            final(self).trace() == old(self).trace(),
            final(self).attached_device() == old(self).attached_device(),
            final(self)@ == (WorkerView {
                snap: SnapshotView { pending, ..old(self)@.snap },
                ..old(self)@
            }),
    {
        self.snap.pending = pending;
    }

    /// How long to wait for requests before the next [`Worker::tick`]
    /// (milliseconds).
    pub fn wait_ms(&self, now_ms: u64) -> (ms: u64)
        ensures
            ms == if self@.connected {
                100
            } else if self@.next_scan_ms <= now_ms {
                0
            } else if self@.next_scan_ms - now_ms < 500 {
                self@.next_scan_ms - now_ms
            } else {
                500
            },
            self@.connected ==> ms == 100,
            !self@.connected ==> ms <= 500 && (ms > 0 ==> now_ms + ms <= self@.next_scan_ms),
            !self@.connected && now_ms < self@.next_scan_ms ==> ms > 0,
    {
        if self.device.is_some() {
            100
        } else {
            let left: u64 = self.next_scan_ms.saturating_sub(now_ms);
            if left < 500 {
                left
            } else {
                500
            }
        }
    }

    /// What is due now. A scan that is due schedules the next one.
    pub fn tick(&mut self, now_ms: u64) -> (r: Tick)
        requires
            old(self).wf(),
        ensures
            final(self).wf(),
            final(self).trace() == old(self).trace(),
            final(self).attached_device() == old(self).attached_device(),
            match r {
                Tick::Serve => old(self)@.connected && final(self)@ == old(self)@,
                Tick::Connect => !old(self)@.connected && now_ms >= old(self)@.next_scan_ms && final(self)@ == (
                WorkerView { next_scan_ms: sum(now_ms, old(self)@.options.rescan_interval_ms), ..old(self)@ }),
                Tick::Idle => !old(self)@.connected && now_ms < old(self)@.next_scan_ms && final(self)@ == old(
                    self,
                )@,
            },
            r is Serve <==> old(self)@.connected,
            r is Connect <==> !old(self)@.connected && old(self)@.next_scan_ms <= now_ms,
            r is Connect ==> final(self)@.next_scan_ms == u64::MAX || final(self)@.next_scan_ms - now_ms == old(
                self,
            )@.options.rescan_interval_ms,
            !(r is Connect) ==> final(self)@.next_scan_ms == old(self)@.next_scan_ms,
    {
        if self.device.is_some() {
            return Tick::Serve;
        }
        if now_ms >= self.next_scan_ms {
            self.next_scan_ms = now_ms.saturating_add(self.options.rescan_interval_ms);
            return Tick::Connect;
        }
        Tick::Idle
    }

    /// Is a poll due? If so the next one is scheduled.
    pub fn poll_due(&mut self, now_ms: u64) -> (due: bool)
        requires
            old(self).wf(),
        ensures
            final(self).wf(),
            final(self).trace() == old(self).trace(),
            final(self).attached_device() == old(self).attached_device(),
            due == (now_ms >= old(self)@.next_poll_ms),
            final(self)@ == if due {
                WorkerView { next_poll_ms: sum(now_ms, old(self)@.options.poll_interval_ms), ..old(self)@ }
            } else {
                old(self)@
            },
            due <==> old(self)@.next_poll_ms <= now_ms,
            due ==> final(self)@.next_poll_ms == u64::MAX || final(self)@.next_poll_ms - now_ms == old(
                self,
            )@.options.poll_interval_ms,
            !due ==> final(self)@.next_poll_ms == old(self)@.next_poll_ms,
    {
        if now_ms >= self.next_poll_ms {
            self.schedule_poll(now_ms);
            true
        } else {
            false
        }
    }

    /// Schedule the next poll one interval from now.
    pub fn schedule_poll(&mut self, now_ms: u64)
        requires
            old(self).wf(),
        ensures
            final(self).wf(),
            final(self).trace() == old(self).trace(),
            final(self).attached_device() == old(self).attached_device(),
            final(self)@ == (WorkerView {
                next_poll_ms: sum(now_ms, old(self)@.options.poll_interval_ms),
                ..old(self)@
            }),
    {
        self.next_poll_ms = now_ms.saturating_add(self.options.poll_interval_ms);
    }

    // ----- requests -----------------------------------------------------

    /// Take on a batch of requests: of each kind only the newest is to be
    /// executed, in the order that is returned. Those that are skipped do
    /// not wait any more.
    pub fn start_batch(&mut self, batch: &Vec<Request>) -> (todo: Vec<Request>)
        requires
            old(self).wf(),
        ensures
            final(self).wf(),
            final(self).trace() == old(self).trace(),
            final(self).attached_device() == old(self).attached_device(),
            todo@ == coalesced(batch@),
            todo@.len() <= batch@.len(),
            final(self)@ == old(self)@.batch_started(batch@),
    {
        let todo = coalesce(batch);
        let skipped: usize = batch.len() - todo.len();
        if skipped > 0 {
            self.snap.pending = self.snap.pending.saturating_sub(skipped);
            self.snap.touch();
        }
        todo
    }

    /// Take on a batch of requests, or with `stop` drop it: once the manager is
    /// to shut down nothing is executed any more, and none of the requests
    /// waits any longer.
    pub fn start_batch_or_stop(&mut self, batch: &Vec<Request>, stop: bool) -> (todo: Vec<Request>)
        requires
            old(self).wf(),
        ensures
            final(self).wf(),
            final(self).trace() == old(self).trace(),
            final(self).attached_device() == old(self).attached_device(),
            todo@ == if stop {
                seq![]
            } else {
                coalesced(batch@)
            },
            final(self)@.snap.pending == less(old(self)@.snap.pending, batch@.len() - todo@.len()),
            final(self)@ == if stop {
                old(self)@.batch_started(batch@).all_finished(coalesced(batch@).len())
            } else {
                old(self)@.batch_started(batch@)
            },
    {
        let todo = self.start_batch(batch);
        if !stop {
            return todo;
        }
        let ghost started = self@;
        let mut i: usize = 0;
        while i < todo.len()
            invariant
                i <= todo.len(),
                todo.len() <= batch.len(),
                self.wf(),
                self.trace() == old(self).trace(),
                self.attached_device() == old(self).attached_device(),
                self@ == started.all_finished(i as nat),
                self@.snap.pending == less(old(self)@.snap.pending, batch@.len() - todo@.len() + i),
            decreases todo.len() - i,
        {
            self.finish_request();
            i += 1;
        }
        Vec::new()
    }

    /// One request is done with.
    pub fn finish_request(&mut self)
        requires
            old(self).wf(),
        ensures
            final(self).wf(),
            final(self).trace() == old(self).trace(),
            final(self).attached_device() == old(self).attached_device(),
            final(self)@ == old(self)@.one_finished(),
    {
        self.snap.pending = self.snap.pending.saturating_sub(1);
        self.snap.touch();
    }

    // ----- plumbing -----------------------------------------------------

    fn log(&mut self, text: String)
        requires
            old(self).wf(),
        ensures
            final(self).wf(),
            final(self).trace() == old(self).trace(),
            final(self).attached_device() == old(self).attached_device(),
            final(self)@ == old(self)@.logged(text@),
    {
        self.snap.log_line(self.wall_secs, text);
        self.snap.touch();
    }

    fn disconnect(&mut self)
        requires
            old(self).wf(),
        ensures
            final(self).wf(),
            final(self).trace() == old(self).trace(),
            final(self).attached_device() is None,
            final(self)@ == old(self)@.disconnected(),
    {
        self.device = None;
        self.dirty.clear();
        self.next_scan_ms = 0;
        assert(self@.dirty =~= Set::empty());
        self.log("device disconnected".to_owned());
        self.snap.phase = Phase::NoDevice;
        self.snap.device = None;
        self.snap.state = HeadsetState::default();
        self.snap.touch();
    }

    fn set_offline(&mut self)
        requires
            old(self).wf(),
        ensures
            final(self).wf(),
            final(self).trace() == old(self).trace(),
            final(self).attached_device() == old(self).attached_device(),
            final(self)@ == old(self)@.offline(),
    {
        if self.snap.is_ready() {
            self.log("headset went offline".to_owned());
        }
        self.snap.phase = Phase::HeadsetOffline;
        self.snap.state.clear_headset();
        self.snap.state.link_up = Some(false);
        self.snap.touch();
    }

    /// Handle an error from a background operation.
    fn background_error(&mut self, err: Error)
        requires
            old(self).wf(),
        ensures
            final(self).wf(),
            final(self).trace() == old(self).trace(),
            final(self).attached_device() is Some ==> final(self).attached_device() == old(
                self,
            ).attached_device(),
            final(self)@ == old(self)@.background(err@),
    {
        match err {
            Error::Disconnected => self.disconnect(),
            Error::HeadsetOffline => self.set_offline(),
            other => {
                let mut text = "device error: ".to_owned();
                text.append(other.message().as_str());
                self.log(text);
            },
        }
    }

    fn fail(&mut self, req: &Request, err: Error)
        requires
            old(self).wf(),
        ensures
            final(self).wf(),
            final(self).trace() == old(self).trace(),
            final(self).attached_device() is Some ==> final(self).attached_device() == old(
                self,
            ).attached_device(),
            final(self)@ == old(self)@.failed(*req, err@),
    {
        let mut text = req.describe();
        text.append(" failed: ");
        text.append(err.message().as_str());
        self.log(text);
        let problem = Problem::from_error(&err);
        self.snap.note_problem(problem);
        self.snap.touch();
        match err {
            Error::Disconnected => self.disconnect(),
            Error::HeadsetOffline => self.set_offline(),
            _ => {},
        }
    }

    // ----- connection ---------------------------------------------------

    /// No device was found.
    pub fn no_device(&mut self)
        requires
            old(self).wf(),
            !old(self)@.connected,
        ensures
            final(self).wf(),
            final(self).trace() == old(self).trace(),
            final(self)@ == old(self)@.without_device(),
    {
        if !matches!(self.snap.phase, Phase::NoDevice) || self.snap.device.is_some() {
            self.snap.phase = Phase::NoDevice;
            self.snap.device = None;
            self.snap.state = HeadsetState::default();
        }
        self.snap.touch();
    }

    /// The device that was found cannot be opened.
    pub fn open_failed(&mut self, found: &FoundDevice, err: Error)
        requires
            old(self).wf(),
            !old(self)@.connected,
        ensures
            final(self).wf(),
            final(self).trace() == old(self).trace(),
            final(self)@ == old(self)@.shut_out(found@, err@),
    {
        let summary = DeviceSummary::from_found(found);
        match err {
            Error::PermissionDenied { path } => {
                let known = match &self.snap.phase {
                    Phase::PermissionDenied(shown) => same(shown.as_str(), path.as_str()),
                    _ => false,
                };
                if !known {
                    let mut text = "no permission to open ".to_owned();
                    text.append(path.as_str());
                    self.snap.log_line(self.wall_secs, text);
                }
                self.snap.phase = Phase::PermissionDenied(path);
                self.snap.device = Some(summary);
                self.snap.touch();
            },
            other => {
                let mut text = "cannot open ".to_owned();
                text.append(summary.path.as_str());
                text.append(": ");
                text.append(other.message().as_str());
                self.log(text);
                self.snap.phase = Phase::NoDevice;
                self.snap.device = Some(summary);
                self.snap.touch();
            },
        }
    }

    /// The device that was found is open; nothing was read from it yet.
    pub fn attach(&mut self, found: &FoundDevice, device: BlackSharkV2Hs<T>)
        requires
            old(self).wf(),
            !old(self)@.connected,
            device.wf(),
        ensures
            final(self).wf(),
            final(self).trace() == device.log(),
            final(self).attached_device() == Some(device),
            final(self)@ == old(self)@.attached(found@),
    {
        let summary = DeviceSummary::from_found(found);
        let mut text = "connected to ".to_owned();
        text.append(summary.name);
        text.append(" (");
        text.append(summary.path.as_str());
        text.append(")");
        self.log(text);
        self.snap.phase = Phase::Connecting;
        self.snap.device = Some(summary);
        self.snap.touch();
        self.trace = Ghost(device.log());
        self.device = Some(device);
    }

    /// The device that was found is open: read everything.
    pub fn opened(&mut self, found: &FoundDevice, device: BlackSharkV2Hs<T>)
        requires
            old(self).wf(),
            !old(self)@.connected,
            device.wf(),
        ensures
            final(self).wf(),
            continues(final(self).trace(), device.log()),
            ({
                let step = refresh_run(
                    device.setting(),
                    final(self).trace(),
                    device.log().len() as int,
                    old(self)@.attached(found@),
                );
                &&& step.ok
                &&& step.end == final(self).trace().len()
                &&& final(self)@ == step.value
            }),
            final(self).attached_device() matches Some(after) ==> device.used(after),
    {
        self.attach(found, device);
        self.full_refresh();
    }

    // ----- reading ------------------------------------------------------

    /// Read everything.
    pub fn full_refresh(&mut self)
        requires
            old(self).wf(),
        ensures
            old(self)@.connected ==> old(self).ran(
                *final(self),
                refresh_run(
                    old(self).setting(),
                    final(self).trace(),
                    old(self).trace().len() as int,
                    old(self)@,
                ),
            ),
            !old(self)@.connected ==> *final(self) == *old(self),
    {
        if let Some(dev) = self.device.take() {
            let mut dev = dev;
            let r = dev.read_state();
            self.trace = Ghost(dev.log());
            self.device = Some(dev);
            match r {
                Ok(state) => {
                    let online = state.link_up == Some(true);
                    self.snap.state = state;
                    self.snap.phase = if online {
                        Phase::Ready
                    } else {
                        Phase::HeadsetOffline
                    };
                    self.snap.touch();
                },
                Err(err) => {
                    self.background_error(err);
                    // Still connected but unreadable: show what we have.
                    if self.device.is_some() && matches!(self.snap.phase, Phase::Connecting) {
                        self.snap.phase = Phase::HeadsetOffline;
                        self.snap.touch();
                    }
                },
            }
        }
    }

    /// Read the values that change on their own.
    pub fn poll(&mut self)
        requires
            old(self).wf(),
        ensures
            old(self)@.connected ==> old(self).ran(
                *final(self),
                poll_run(
                    old(self).setting(),
                    final(self).trace(),
                    old(self).trace().len() as int,
                    old(self)@,
                ),
            ),
            !old(self)@.connected ==> *final(self) == *old(self),
            old(self)@.connected && old(self)@.snap.phase is Ready ==> status_is_shown(
                old(self).setting().connection,
                final(self).trace(),
                old(self).trace().len() as int,
                old(self)@.snap.state,
                final(self)@.snap.state,
            ),
    {
        let ghost c = self.setting();
        let ghost at = self.trace().len() as int;
        if let Some(dev) = self.device.take() {
            let mut dev = dev;
            let was_ready = self.snap.is_ready();
            let link = dev.link_up();
            let ghost linked = dev;
            match link {
                Err(err) => {
                    self.trace = Ghost(dev.log());
                    self.device = Some(dev);
                    self.background_error(err);
                },
                Ok(false) => {
                    self.trace = Ghost(dev.log());
                    self.device = Some(dev);
                    if was_ready || self.snap.state.link_up != Some(false) {
                        self.set_offline();
                    }
                },
                Ok(true) => {
                    if !was_ready {
                        self.trace = Ghost(dev.log());
                        self.device = Some(dev);
                        self.log("headset connected".to_owned());
                        self.full_refresh();
                        proof {
                            link_step_is_local(c, linked.log(), self.trace(), at);
                            continues_on(self.trace(), linked.log(), old(self).trace());
                            if self.attached_device() is Some {
                                old(self).attached_device()->0.used_on(linked, self.attached_device()->0);
                            }
                        }
                    } else {
                        let mut state = self.snap.state.clone();
                        let status = dev.refresh_status(&mut state);
                        let ghost read = dev;
                        proof {
                            link_step_is_local(c, linked.log(), read.log(), at);
                            continues_on(read.log(), linked.log(), old(self).trace());
                            old(self).attached_device()->0.used_on(linked, read);
                        }
                        // The preset can also change from outside (headset button, other programs).
                        let result = match status {
                            Ok(_) => {
                                let r = dev.read_field(Field::EqPreset, &mut state);
                                proof {
                                    let later = dev.log();
                                    assert(continues(later, read.log()));
                                    continues_on(later, read.log(), linked.log());
                                    continues_on(later, linked.log(), old(self).trace());
                                    link_step_is_local(c, linked.log(), later, at);
                                    fields_step_is_local(
                                        c,
                                        read.log(),
                                        later,
                                        begin(linked.log().len() as int, self.snap@.state),
                                        status_fields(),
                                    );
                                    old(self).attached_device()->0.used_on(read, dev);
                                }
                                r
                            },
                            Err(err) => Err(err),
                        };
                        self.trace = Ghost(dev.log());
                        self.device = Some(dev);
                        match result {
                            Ok(_) => {
                                self.snap.state.battery = state.battery;
                                self.snap.state.charging = state.charging;
                                self.snap.state.mic_muted = state.mic_muted;
                                self.snap.state.eq_preset = state.eq_preset;
                                self.snap.touch();
                            },
                            Err(err) => self.background_error(err),
                        }
                    }
                },
            }
            proof {
                if old(self)@.snap.phase is Ready && status_is_answered(c.connection, self.trace(), at) {
                    polls_show_the_answers(c, self.trace(), at, old(self)@);
                }
            }
        }
    }

    /// Pick up replies and reports that were not for us.
    pub fn listen(&mut self)
        requires
            old(self).wf(),
        ensures
            old(self)@.connected ==> old(self).ran(
                *final(self),
                listen_run(
                    old(self).setting(),
                    final(self).trace(),
                    old(self).trace().len() as int,
                    old(self)@,
                ),
            ),
            !old(self)@.connected ==> *final(self) == *old(self),
    {
        if let Some(dev) = self.device.take() {
            let mut dev = dev;
            let connection = dev.connection();
            let polled = dev.poll_incoming(0);
            self.trace = Ghost(dev.log());
            self.device = Some(dev);
            match polled {
                Err(err) => self.background_error(err),
                Ok(events) => {
                    let before = self.snap.state.clone();
                    let ghost all = event_views(events@);
                    let ghost known = (self@.snap.state, self@.dirty);
                    let ghost start = *self;
                    let mut i: usize = 0;
                    while i < events.len()
                        invariant
                            i <= events@.len(),
                            all == event_views(events@),
                            *self == (Worker {
                                snap: Snapshot { state: self.snap.state, ..start.snap },
                                dirty: self.dirty,
                                ..start
                            }),
                            (self.snap.state@, self.dirty@) == heard_all(known, all.take(i as int), connection),
                            forall|register: u8| #[trigger]
                                self.dirty@.contains(register) ==> register < reg::SET,
                        decreases events@.len() - i,
                    {
                        proof {
                            assert(all.take(i + 1).drop_last() =~= all.take(i as int));
                            assert(all.take(i + 1).last() == events@[i as int]@);
                        }
                        match &events[i] {
                            Incoming::Frame(resp) => {
                                if reg::is_set(resp.cmd) {
                                    // Another program changed a setting: read that register back.
                                    self.dirty.insert(reg::get_of(resp.cmd));
                                } else {
                                    // A reply to someone else's read: free information.
                                    self.snap.state.apply_reply(resp, connection);
                                }
                            },
                            Incoming::Other { report_id, .. } => {
                                if *report_id == TELEPHONY_REPORT_ID {
                                    // Mute button on the headset.
                                    self.dirty.insert(reg::MIC_MUTE);
                                }
                            },
                        }
                        i += 1;
                    }
                    assert(all.take(i as int) =~= all);
                    if !self.snap.state.same_as(&before) {
                        self.snap.touch();
                    }
                },
            }
        }
    }

    /// The registers to re-read, in ascending order.
    pub fn dirty(&self) -> (r: Vec<u8>)
        ensures
            r@ == ascending(self@.dirty, 0),
    {
        let mut registers: Vec<u8> = Vec::new();
        let mut i: u8 = 0;
        assert(registers@ + ascending(self@.dirty, 0) =~= ascending(self@.dirty, 0));
        while i < 128
            invariant
                i <= 128,
                registers@ + ascending(self@.dirty, i as nat) == ascending(self@.dirty, 0),
            decreases 128 - i,
        {
            let ghost rest = ascending(self@.dirty, (i + 1) as nat);
            if self.dirty.contains(&i) {
                assert(registers@ + (seq![i] + rest) =~= registers@.push(i) + rest);
                registers.push(i);
            }
            i += 1;
        }
        assert(registers@ + seq![] =~= registers@);
        registers
    }

    /// Re-read what other programs changed.
    pub fn reread_dirty(&mut self)
        requires
            old(self).wf(),
        ensures
            old(self)@.connected ==> old(self).ran(
                *final(self),
                reread_run(
                    old(self).setting(),
                    final(self).trace(),
                    old(self).trace().len() as int,
                    old(self)@,
                ),
            ),
            !old(self)@.connected ==> *final(self) == *old(self),
    {
        if self.device.is_none() {
            return;
        }
        let registers = self.dirty();
        let ghost c = self.setting();
        let ghost at = self.trace().len() as int;
        if let Some(dev) = self.device.take() {
            let mut dev = dev;
            let ghost first = dev;
            self.dirty.clear();
            assert(self@.dirty =~= Set::empty());
            let connection = dev.connection();
            let headset_domain: u8 = dev.headset_domain();
            let mut replies: Vec<Response> = Vec::new();
            let mut i: usize = 0;
            let ghost start = *self;
            assert(reply_views(replies@) =~= seq![]);
            while i < registers.len()
                invariant
                    i <= registers@.len(),
                    *self == start,
                    start.device is None,
                    first.wf(),
                    first.used(dev),
                    dev.wf(),
                    continues(dev.log(), first.log()),
                    c == first.setting(),
                    at == first.log().len(),
                    headset_domain == domain_of(c.connection),
                    replies_run(c, dev.log(), at, registers@.take(i as int)) == (Step {
                        ok: true,
                        end: dev.log().len() as int,
                        value: Ok::<Seq<ResponseView>, ErrorView>(reply_views(replies@)),
                    }),
                    old(self).wf(),
                    old(self).attached_device() == Some(first),
                    old(self).setting() == c,
                    old(self).trace() == first.log(),
                    registers@ == ascending(old(self)@.dirty, 0),
                    start@ == (WorkerView { connected: false, dirty: Set::empty(), ..old(self)@ }),
                decreases registers@.len() - i,
            {
                let get: u8 = registers[i];
                let domain: u8 = if get == reg::DONGLE_LED || get == reg::LINK_STATUS {
                    DOMAIN_LOCAL
                } else {
                    headset_domain
                };
                let ghost mid = dev;
                let none: [u8; 0] = [];
                assert(none@ =~= seq![]);
                let ghost before = reply_views(replies@);
                let r = dev.transact(domain, get, &none);
                proof {
                    first.used_on(mid, dev);
                    assert(continues(dev.log(), mid.log()));
                    continues_on(dev.log(), mid.log(), first.log());
                    replies_run_is_local(c, mid.log(), dev.log(), at, registers@.take(i as int));
                    assert(registers@.take(i + 1).drop_last() =~= registers@.take(i as int));
                    assert(registers@.take(i + 1).last() == get);
                }
                match r {
                    Ok(resp) => {
                        let ghost view = resp@;
                        replies.push(resp);
                        assert(reply_views(replies@) =~= before.push(view));
                    },
                    Err(err) => {
                        if !err.is_timeout() {
                            proof {
                                replies_after_failure(c, dev.log(), at, registers@, i + 1);
                            }
                            self.trace = Ghost(dev.log());
                            self.device = Some(dev);
                            self.background_error(err);
                            return;
                        }
                    },
                }
                i += 1;
            }
            assert(registers@.take(i as int) =~= registers@);
            self.trace = Ghost(dev.log());
            self.device = Some(dev);
            let ghost shown = *self;
            let ghost all = reply_views(replies@);
            let mut k: usize = 0;
            while k < replies.len()
                invariant
                    k <= replies@.len(),
                    all == reply_views(replies@),
                    *self == (Worker {
                        snap: Snapshot { state: self.snap.state, ..shown.snap },
                        ..shown
                    }),
                    self.snap.state@ == told_all(shown.snap.state@, all.take(k as int), connection),
                decreases replies@.len() - k,
            {
                proof {
                    assert(all.take(k + 1).drop_last() =~= all.take(k as int));
                    assert(all.take(k + 1).last() == replies@[k as int]@);
                }
                self.snap.state.apply_reply(&replies[k], connection);
                k += 1;
            }
            assert(all.take(k as int) =~= all);
            self.snap.touch();
        }
    }

    // ----- actions ------------------------------------------------------

    /// Execute a request. Returns true if a device is to be looked for and
    /// opened now.
    pub fn execute(&mut self, req: Request) -> (connect: bool)
        requires
            old(self).wf(),
        ensures
            connect == (req is Refresh && !old(self)@.connected),
            old(self).ran(
                *final(self),
                execute_run(
                    old(self).setting(),
                    final(self).trace(),
                    old(self).trace().len() as int,
                    old(self)@,
                    req,
                ),
            ),
    {
        if matches!(req, Request::Refresh) {
            if self.device.is_none() {
                self.next_scan_ms = 0;
                return true;
            }
            self.full_refresh();
            return false;
        }
        let offline = matches!(self.snap.phase, Phase::HeadsetOffline);
        let needs_headset = !matches!(req, Request::SetLedMode(_));
        if self.device.is_none() {
            self.fail(&req, Error::NoDevice);
            return false;
        }
        if offline && needs_headset {
            self.fail(&req, Error::HeadsetOffline);
            assert(self.attached_device() is Some ==> old(self).attached_device()->0.used(
                self.attached_device()->0,
            ));
            return false;
        }
        if let Some(dev) = self.device.take() {
            let mut dev = dev;
            let mut state = self.snap.state.clone();
            let result = apply_request(&mut dev, &mut state, &req);
            self.trace = Ghost(dev.log());
            self.device = Some(dev);
            match result {
                Ok(_) => {
                    self.snap.state = state;
                    self.snap.touch();
                },
                Err(err) => self.fail(&req, err),
            }
        }
        false
    }
}

pub open spec fn reply_views(replies: Seq<Response>) -> Seq<ResponseView> {
    replies.map_values(|r: Response| r@)
}

proof fn replies_run_advances(c: Setting, log: Seq<Entry>, at: int, registers: Seq<u8>)
    ensures
        at <= replies_run(c, log, at, registers).end,
    decreases registers.len(),
{
    if registers.len() > 0 {
        replies_run_advances(c, log, at, registers.drop_last());
    }
}

proof fn replies_run_is_local(c: Setting, log: Seq<Entry>, later: Seq<Entry>, at: int, registers: Seq<u8>)
    requires
        continues(later, log),
        0 <= at,
        replies_run(c, log, at, registers).end <= log.len(),
    ensures
        replies_run(c, later, at, registers) == replies_run(c, log, at, registers),
    decreases registers.len(),
{
    if registers.len() > 0 {
        let rest = registers.drop_last();
        let before = replies_run(c, log, at, rest);
        replies_run_advances(c, log, at, rest);
        replies_run_is_local(c, log, later, at, rest);
        if before.value is Ok {
            assert(later[before.end] == log[before.end]);
        }
    }
}

/// After a failure nothing more is asked.
proof fn replies_after_failure(c: Setting, log: Seq<Entry>, at: int, registers: Seq<u8>, n: int)
    requires
        0 <= n <= registers.len(),
        replies_run(c, log, at, registers.take(n)).value is Err,
    ensures
        replies_run(c, log, at, registers) == replies_run(c, log, at, registers.take(n)),
    decreases registers.len() - n,
{
    if n == registers.len() {
        assert(registers.take(n) =~= registers);
    } else {
        assert(registers.take(n + 1).drop_last() =~= registers.take(n));
        replies_after_failure(c, log, at, registers, n + 1);
    }
}

pub open spec fn sum(a: u64, b: u64) -> u64 {
    if a + b > u64::MAX {
        u64::MAX
    } else {
        (a + b) as u64
    }
}

pub open spec fn less(pending: usize, by: int) -> usize {
    if pending < by {
        0
    } else {
        (pending - by) as usize
    }
}

} // verus!
