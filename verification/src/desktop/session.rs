//! The main window's session: requests that are under way, the curve being
//! edited, and what the pages show.

use crate::actions::request_step;
use crate::config::{Config, ConfigView};
use crate::ctl::report::MicCleanStatus;
use crate::devices::blackshark_v2_hs::exchange::Entry;
use crate::devices::blackshark_v2_hs::protocol::SIDETONE_MAX;
use crate::devices::blackshark_v2_hs::reading::{differ_in, outcome_at, Field, Refresh, Setting};

use crate::devices::blackshark_v2_hs::state::{same_bands, HeadsetState, LedMode, StateView};
use crate::devices::Connection;
use crate::eq::{
    clamp_gain, clamped_gain, Bands, HardwarePreset, BAND_COUNT, FLAT, GAME_CURVE, MAX_GAIN_DB, MIN_GAIN_DB, MOVIE_CURVE,
    MUSIC_CURVE,
};
use crate::manager::{Phase, Request, Snapshot, SnapshotView};
use crate::text::{dec, decimal, same, signed_dec, signed_decimal};
use vstd::prelude::*;
use vstd::string::*;

verus! {

/// What the headset will report once `request` went through.
pub open spec fn expected(s: StateView, request: Request) -> StateView {
    match request {
        Request::Refresh => s,
        Request::SetSidetone(on) => StateView { sidetone_enabled: Some(on), ..s },
        Request::SetSidetoneLevel(level) => StateView { sidetone_level: Some(level), ..s },
        Request::SetSleepMinutes(minutes) => StateView { sleep_minutes: Some(minutes), ..s },
        Request::SetBtDnd(on) => StateView { bt_dnd: Some(on), ..s },
        Request::SetLedMode(mode) => StateView { led_mode: Some(mode), ..s },
        Request::SelectPreset(preset) => StateView { eq_preset: Some(preset), ..s },
        Request::ApplyCustomEq(bands) => StateView {
            eq_preset: Some(HardwarePreset::Custom),
            custom_eq: Some(bands),
            ..s
        },
        Request::SetEnhancement(on) => StateView { enhancement: Some(on), ..s },
        Request::SetEqEnabled(on) => StateView { eq_enabled: Some(on), ..s },
    }
}

/// Show the effect of a request right away.
pub fn optimistic(state: &mut HeadsetState, request: &Request)
    ensures
        final(state)@ == expected(old(state)@, *request),
{
    match *request {
        Request::Refresh => {},
        Request::SetSidetone(on) => state.sidetone_enabled = Some(on),
        Request::SetSidetoneLevel(level) => state.sidetone_level = Some(level),
        Request::SetSleepMinutes(minutes) => state.sleep_minutes = Some(minutes),
        Request::SetBtDnd(on) => state.bt_dnd = Some(on),
        Request::SetLedMode(mode) => state.led_mode = Some(mode),
        Request::SelectPreset(preset) => state.eq_preset = Some(preset),
        Request::ApplyCustomEq(bands) => {
            state.eq_preset = Some(HardwarePreset::Custom);
            state.custom_eq = Some(bands);
        },
        Request::SetEnhancement(on) => state.enhancement = Some(on),
        Request::SetEqEnabled(on) => state.eq_enabled = Some(on),
    }
}

pub open spec fn expected_all(s: StateView, requests: Seq<Request>) -> StateView
    decreases requests.len(),
{
    if requests.len() == 0 {
        s
    } else {
        expected(expected_all(s, requests.drop_last()), requests.last())
    }
}

/// The byte that a single-byte request writes, and the value that is read
/// back.
pub open spec fn single_write(request: Request) -> Option<(u8, Field)> {
    match request {
        Request::SetSidetoneLevel(level) => Some((level, Field::SidetoneLevel)),
        Request::SetSleepMinutes(minutes) => Some((minutes, Field::SleepMinutes)),
        Request::SetBtDnd(on) => Some((if on { 1 } else { 0 }, Field::BtDnd)),
        Request::SetLedMode(mode) => Some((mode.raw_of(), Field::LedMode)),
        Request::SetEnhancement(on) => Some((if on { 1 } else { 0 }, Field::Enhancement)),
        Request::SetEqEnabled(on) => Some((if on { 1 } else { 0 }, Field::EqEnabled)),
        _ => None,
    }
}

/// What is shown right away is what is shown once the device has confirmed
/// it: a request that succeeds, and whose byte the device reports back
/// unchanged, leaves the state that was expected.
pub proof fn expectations_are_confirmed(
    c: Setting,
    log: Seq<Entry>,
    at: int,
    s: StateView,
    request: Request,
    byte: u8,
    field: Field,
)
    requires
        single_write(request) == Some((byte, field)),
        request is SetSidetoneLevel ==> byte <= SIDETONE_MAX,
        request matches Request::SetLedMode(mode) ==> LedMode::of_raw(mode.raw_of()) == mode,
        request_step(c, log, at, s, request).value.result is Ok,
        field.read(outcome_at(log, at + 1)) matches Ok(payload) && payload[0] == byte,
    ensures
        request_step(c, log, at, s, request).value.state == expected(s, request),
{
}

/// What a request shows right away is what it asks for, and nothing else of
/// what is shown changes.
pub proof fn requests_show_what_they_ask_for(s: StateView, on: bool, n: u8, mode: LedMode, preset: HardwarePreset, bands: Bands)
    ensures
        expected(s, Request::SetSidetone(on)).sidetone_enabled == Some(on),
        differ_in(Field::SidetoneEnabled, s, expected(s, Request::SetSidetone(on))),
        expected(s, Request::SetSidetoneLevel(n)).sidetone_level == Some(n),
        differ_in(Field::SidetoneLevel, s, expected(s, Request::SetSidetoneLevel(n))),
        expected(s, Request::SetSleepMinutes(n)).sleep_minutes == Some(n),
        differ_in(Field::SleepMinutes, s, expected(s, Request::SetSleepMinutes(n))),
        expected(s, Request::SetBtDnd(on)).bt_dnd == Some(on),
        differ_in(Field::BtDnd, s, expected(s, Request::SetBtDnd(on))),
        expected(s, Request::SetLedMode(mode)).led_mode == Some(mode),
        differ_in(Field::LedMode, s, expected(s, Request::SetLedMode(mode))),
        expected(s, Request::SelectPreset(preset)).eq_preset == Some(preset),
        differ_in(Field::EqPreset, s, expected(s, Request::SelectPreset(preset))),
        expected(s, Request::SetEnhancement(on)).enhancement == Some(on),
        differ_in(Field::Enhancement, s, expected(s, Request::SetEnhancement(on))),
        expected(s, Request::SetEqEnabled(on)).eq_enabled == Some(on),
        differ_in(Field::EqEnabled, s, expected(s, Request::SetEqEnabled(on))),
        expected(s, Request::ApplyCustomEq(bands)).custom_eq == Some(bands),
        expected(s, Request::ApplyCustomEq(bands)).eq_preset == Some(HardwarePreset::Custom),
        differ_in(
            Field::CustomEq,
            StateView { eq_preset: Some(HardwarePreset::Custom), ..s },
            expected(s, Request::ApplyCustomEq(bands)),
        ),
        expected(s, Request::Refresh) == s,
{
}

/// What happened in the equalizer graph in one frame.
#[derive(Debug, Clone, Copy, PartialEq, Eq)]
pub struct EqGraphOutput {
    /// The curve was modified this frame.
    pub changed: bool,
    /// A drag or click finished: a good moment to apply.
    pub committed: bool,
    /// Changed with the mouse wheel (apply after a short pause).
    pub scrolled: bool,
}

/// What the session noticed in a snapshot.
#[derive(Debug, Clone, Copy, PartialEq, Eq)]
pub struct Noticed {
    /// The snapshot's problem is new: tell the user.
    pub problem: bool,
    /// Everything that was asked for is saved: tell the user.
    pub saved: bool,
}

/// How long a curve that is changed with the wheel waits before it is
/// applied (milliseconds).
pub const SCROLL_PAUSE_MS: u64 = 700;

#[derive(Debug)]
pub struct Session {
    /// Requests sent but not yet confirmed; shown optimistically.
    pub overlay: Vec<Request>,
    pub writes_pending: bool,
    pub seen_problem: u64,
    /// The curve being edited.
    pub eq_edit: Option<Bands>,
    /// When to apply it (milliseconds).
    pub eq_apply_at_ms: Option<u64>,
    pub auto_apply: bool,
    /// The sidetone level while its slider is dragged.
    pub sidetone_drag: Option<u8>,
}

#[verifier::ext_equal]
pub struct SessionView {
    pub overlay: Seq<Request>,
    pub writes_pending: bool,
    pub seen_problem: u64,
    pub eq_edit: Option<Bands>,
    pub eq_apply_at_ms: Option<u64>,
    pub auto_apply: bool,
    pub sidetone_drag: Option<u8>,
}

impl View for Session {
    type V = SessionView;

    open spec fn view(&self) -> SessionView {
        SessionView {
            overlay: self.overlay@,
            writes_pending: self.writes_pending,
            seen_problem: self.seen_problem,
            eq_edit: self.eq_edit,
            eq_apply_at_ms: self.eq_apply_at_ms,
            auto_apply: self.auto_apply,
            sidetone_drag: self.sidetone_drag,
        }
    }
}

impl SessionView {
    /// Is the snapshot's problem one that was not shown yet?
    pub open spec fn new_problem(self, snap: SnapshotView) -> bool {
        match snap.problem {
            Some((id, _)) => id != self.seen_problem,
            None => false,
        }
    }

    /// The session after it took note of a snapshot. Expected values stay
    /// while requests are under way; once nothing is pending the device's
    /// own state counts.
    pub open spec fn synced(self, snap: SnapshotView) -> SessionView {
        SessionView {
            seen_problem: match snap.problem {
                Some((id, _)) => id,
                None => self.seen_problem,
            },
            overlay: if snap.pending == 0 {
                seq![]
            } else {
                self.overlay
            },
            writes_pending: self.writes_pending && !self.new_problem(snap) && snap.pending != 0,
            ..self
        }
    }

    pub open spec fn acted(self, request: Request) -> SessionView {
        SessionView { overlay: self.overlay.push(request), writes_pending: true, ..self }
    }

    pub open spec fn not_editing(self) -> SessionView {
        SessionView { eq_edit: None, eq_apply_at_ms: None, ..self }
    }
}

impl Session {
    pub fn new() -> (r: Self)
        ensures
            r@ == (SessionView {
                overlay: seq![],
                writes_pending: false,
                seen_problem: 0,
                eq_edit: None,
                eq_apply_at_ms: None,
                auto_apply: true,
                sidetone_drag: None,
            }),
    {
        let r = Session {
            overlay: Vec::new(),
            writes_pending: false,
            seen_problem: 0,
            eq_edit: None,
            eq_apply_at_ms: None,
            auto_apply: true,
            sidetone_drag: None,
        };
        assert(r@.overlay =~= seq![]);
        r
    }

    /// Take note of a snapshot, and show in it what is expected of the
    /// requests that are under way.
    pub fn sync(&mut self, snap: &mut Snapshot) -> (r: Noticed)
        ensures
            final(self)@ == old(self)@.synced(old(snap)@),
            final(snap)@ == (SnapshotView {
                state: expected_all(old(snap)@.state, old(self)@.synced(old(snap)@).overlay),
                ..old(snap)@
            }),
            r.problem == old(self)@.new_problem(old(snap)@),
            r.saved == (old(self)@.writes_pending && !old(self)@.new_problem(old(snap)@) && old(snap)@.pending
                == 0),
            r.saved <==> old(self)@.writes_pending && !final(self)@.writes_pending && !r.problem,
            r.saved ==> final(snap)@.state == old(snap)@.state,
    {
        let mut problem = false;
        if let Some((id, _)) = &snap.problem {
            if *id != self.seen_problem {
                self.seen_problem = *id;
                problem = true;
                self.writes_pending = false;
            }
        }
        let mut saved = false;
        if snap.pending == 0 {
            self.overlay = Vec::new();
            assert(self.overlay@ =~= seq![]);
            if self.writes_pending {
                self.writes_pending = false;
                saved = true;
            }
        }
        let mut i: usize = 0;
        while i < self.overlay.len()
            invariant
                i <= self.overlay@.len(),
                self@ == old(self)@.synced(old(snap)@),
                *snap == (Snapshot { state: snap.state, ..*old(snap) }),
                snap.state@ == expected_all(old(snap)@.state, self.overlay@.take(i as int)),
            decreases self.overlay@.len() - i,
        {
            proof {
                assert(self.overlay@.take(i + 1).drop_last() =~= self.overlay@.take(i as int));
                assert(self.overlay@.take(i + 1).last() == self.overlay@[i as int]);
            }
            let request = self.overlay[i];
            optimistic(&mut snap.state, &request);
            i += 1;
        }
        assert(self.overlay@.take(i as int) =~= self.overlay@);
        Noticed { problem, saved }
    }

    /// A request is sent to the device: show its effect right away.
    pub fn act(&mut self, state: &mut HeadsetState, request: Request)
        ensures
            final(self)@ == old(self)@.acted(request),
            final(state)@ == expected(old(state)@, request),
    {
        optimistic(state, &request);
        self.overlay.push(request);
        self.writes_pending = true;
    }

    /// A curve is applied: editing ends, and the curve is remembered.
    /// Returns the request to send.
    pub fn apply_curve(&mut self, state: &mut HeadsetState, config: &mut Config, bands: Bands) -> (r: Request)
        ensures
            r == Request::ApplyCustomEq(bands),
            final(self)@ == old(self)@.not_editing().acted(r),
            final(state)@ == expected(old(state)@, r),
            final(config)@ == (ConfigView { last_custom_curve: Some(bands), ..old(config)@ }),
    {
        self.eq_edit = None;
        self.eq_apply_at_ms = None;
        let request = Request::ApplyCustomEq(bands);
        self.act(state, request);
        config.last_custom_curve = Some(bands);
        request
    }

    /// A preset is selected: editing ends. Returns the request to send.
    pub fn select_preset(&mut self, state: &mut HeadsetState, preset: HardwarePreset) -> (r: Request)
        ensures
            r == Request::SelectPreset(preset),
            final(self)@ == old(self)@.not_editing().acted(r),
            final(state)@ == expected(old(state)@, r),
    {
        self.eq_edit = None;
        self.eq_apply_at_ms = None;
        let request = Request::SelectPreset(preset);
        self.act(state, request);
        request
    }

    /// Editing ends without effect.
    pub fn revert(&mut self)
        ensures
            final(self)@ == old(self)@.not_editing(),
    {
        self.eq_edit = None;
        self.eq_apply_at_ms = None;
    }

    /// Is a curve that was changed with the wheel due? Returns the curve to
    /// apply.
    pub fn curve_due(&mut self, now_ms: u64) -> (r: Option<Bands>)
        ensures
            match old(self)@.eq_apply_at_ms {
                Some(at) if now_ms >= at => r == old(self)@.eq_edit && final(self)@ == (SessionView {
                    eq_apply_at_ms: None,
                    ..old(self)@
                }),
                _ => r is None && final(self)@ == old(self)@,
            },
            r is Some ==> r == old(self)@.eq_edit && (old(self)@.eq_apply_at_ms matches Some(at) && at <= now_ms),
            (final(self)@.eq_apply_at_ms matches Some(at) ==> now_ms < at),
    {
        match self.eq_apply_at_ms {
            Some(at) => {
                if now_ms >= at {
                    self.eq_apply_at_ms = None;
                    return self.eq_edit;
                }
                None
            },
            None => None,
        }
    }

    /// Take note of a frame of the graph. Returns the curve to apply now: a
    /// drag or click that finished applies at once, the wheel after a pause.
    pub fn graph_done(&mut self, bands: Bands, out: EqGraphOutput, now_ms: u64) -> (r: Option<Bands>)
        ensures
            ({
                let edit = if out.changed {
                    Some(bands)
                } else {
                    old(self)@.eq_edit
                };
                let live = old(self)@.auto_apply && edit is Some;
                &&& r == if live && !out.scrolled && out.committed {
                    Some(bands)
                } else {
                    None
                }
                &&& final(self)@ == (SessionView {
                    eq_edit: edit,
                    eq_apply_at_ms: if live && out.scrolled {
                        Some(
                            if now_ms + SCROLL_PAUSE_MS > u64::MAX {
                                u64::MAX
                            } else {
                                (now_ms + SCROLL_PAUSE_MS) as u64
                            },
                        )
                    } else {
                        old(self)@.eq_apply_at_ms
                    },
                    ..old(self)@
                })
            }),
            !old(self)@.auto_apply ==> r is None && final(self)@.eq_apply_at_ms == old(self)@.eq_apply_at_ms,
            r is Some ==> r == Some(bands) && out.committed && !out.scrolled,
            out.changed ==> final(self)@.eq_edit == Some(bands),
            out.changed && out.committed && !out.scrolled && old(self)@.auto_apply ==> r == Some(bands),
            out.changed && out.scrolled && old(self)@.auto_apply ==> (final(self)@.eq_apply_at_ms matches Some(at)
                && (at == u64::MAX || at - now_ms == 700)),
    {
        if out.changed {
            self.eq_edit = Some(bands);
        }
        if self.auto_apply && self.eq_edit.is_some() {
            if out.scrolled {
                self.eq_apply_at_ms = Some(now_ms.saturating_add(SCROLL_PAUSE_MS));
            } else if out.committed {
                return Some(bands);
            }
        }
        None
    }

    /// The flat curve is asked for. Returns it if it is to be applied now;
    /// otherwise it is the curve being edited.
    pub fn reset_flat(&mut self) -> (r: Option<Bands>)
        ensures
            old(self)@.auto_apply ==> r == Some(FLAT) && final(self)@ == old(self)@,
            !old(self)@.auto_apply ==> r is None && final(self)@ == (SessionView {
                eq_edit: Some(FLAT),
                ..old(self)@
            }),
    {
        if self.auto_apply {
            Some(FLAT)
        } else {
            self.eq_edit = Some(FLAT);
            None
        }
    }

    /// The sidetone level that the slider shows.
    pub fn shown_level(&self, state: &HeadsetState) -> (r: u8)
        ensures
            r == match self@.sidetone_drag {
                Some(level) => level,
                None => match state@.sidetone_level {
                    Some(level) => level,
                    None => 0,
                },
            },
    {
        match self.sidetone_drag {
            Some(level) => level,
            None => match state.sidetone_level {
                Some(level) => level,
                None => 0,
            },
        }
    }

    /// Take note of the sidetone slider. Returns the requests to send: the
    /// level once the drag is over, and a switch-on if the sidetone was off.
    pub fn slide(
        &mut self,
        state: &mut HeadsetState,
        level: u8,
        dragged: bool,
        stopped: bool,
        changed: bool,
    ) -> (r: Vec<Request>)
        ensures
            ({
                let over = stopped || (changed && !dragged);
                let wake = over && old(state)@.sidetone_enabled == Some(false) && level > 0;
                let drag = if over {
                    None
                } else if dragged {
                    Some(level)
                } else {
                    old(self)@.sidetone_drag
                };
                let before = SessionView { sidetone_drag: drag, ..old(self)@ };
                if !over {
                    r@.len() == 0 && final(self)@ == before && final(state)@ == old(state)@
                } else if !wake {
                    &&& r@ == seq![Request::SetSidetoneLevel(level)]
                    &&& final(self)@ == before.acted(r@[0])
                    &&& final(state)@ == expected(old(state)@, r@[0])
                } else {
                    &&& r@ == seq![Request::SetSidetoneLevel(level), Request::SetSidetone(true)]
                    &&& final(self)@ == before.acted(r@[0]).acted(r@[1])
                    &&& final(state)@ == expected(expected(old(state)@, r@[0]), r@[1])
                }
            }),
            r@.len() > 0 <==> stopped || (changed && !dragged),
            r@.len() > 0 ==> r@[0] == Request::SetSidetoneLevel(level) && final(state)@.sidetone_level == Some(level)
                && final(self)@.sidetone_drag is None,
            r@.len() > 1 <==> r@.len() > 0 && old(state)@.sidetone_enabled == Some(false) && level > 0,
            r@.len() > 1 ==> final(state)@.sidetone_enabled == Some(true),
            r@.len() <= 1 ==> final(state)@.sidetone_enabled == old(state)@.sidetone_enabled,
            r@.len() == 0 && dragged ==> final(self)@.sidetone_drag == Some(level),
    {
        let mut requests: Vec<Request> = Vec::new();
        if dragged {
            self.sidetone_drag = Some(level);
        }
        if stopped || (changed && !dragged) {
            self.sidetone_drag = None;
            let was_off = state.sidetone_enabled == Some(false);
            let first = Request::SetSidetoneLevel(level);
            self.act(state, first);
            requests.push(first);
            if was_off && level > 0 {
                let second = Request::SetSidetone(true);
                self.act(state, second);
                requests.push(second);
                assert(requests@ =~= seq![first, second]);
            } else {
                assert(requests@ =~= seq![first]);
            }
        }
        requests
    }
}

/// Once nothing is pending the device's own state is shown, and a failure is
/// reported once.
pub proof fn confirmed_state_is_shown(session: SessionView, snap: SnapshotView)
    ensures
        snap.pending == 0 ==> expected_all(snap.state, session.synced(snap).overlay) == snap.state,
        !session.synced(snap).new_problem(snap),
{
}

/// While something is under way what is expected of it stays shown; a problem
/// is new exactly if its number is.
pub proof fn expectations_stay_while_pending(session: SessionView, snap: SnapshotView)
    ensures
        snap.pending != 0 ==> session.synced(snap).overlay == session.overlay,
        snap.pending == 0 ==> session.synced(snap).overlay.len() == 0 && !session.synced(snap).writes_pending,
        session.new_problem(snap) <==> (snap.problem matches Some((id, _)) && id != session.seen_problem),
        session.new_problem(snap) ==> !session.synced(snap).writes_pending,
        snap.pending != 0 && !session.new_problem(snap) ==> session.synced(snap).writes_pending
            == session.writes_pending,
        session.synced(snap).eq_edit == session.eq_edit && session.synced(snap).sidetone_drag
            == session.sidetone_drag && session.synced(snap).auto_apply == session.auto_apply,
{
}

/// A request is remembered behind those that are under way, and ending an edit
/// forgets the curve and its time.
pub proof fn requests_are_remembered(session: SessionView, request: Request)
    ensures
        session.acted(request).overlay.last() == request,
        session.acted(request).overlay.drop_last() == session.overlay,
        session.acted(request).writes_pending,
        session.acted(request).eq_edit == session.eq_edit,
        session.not_editing().eq_edit is None && session.not_editing().eq_apply_at_ms is None,
        session.not_editing().overlay == session.overlay,
{
    assert(session.acted(request).overlay.drop_last() =~= session.overlay);
}

/// What is expected of several requests is what is expected of one after the
/// other.
pub proof fn expectations_add_up(s: StateView, requests: Seq<Request>, request: Request)
    ensures
        expected_all(s, requests.push(request)) == expected(expected_all(s, requests), request),
        expected_all(s, seq![]) == s,
{
    assert(requests.push(request).drop_last() =~= requests);
}

/// What the audio page shows of the equalizer.
#[derive(Debug, Clone, Copy, PartialEq, Eq)]
pub struct EqPicture {
    pub custom_slot: Bands,
    /// The live curve: the Custom slot, or the (approximate) factory curve of
    /// a ROM preset.
    pub live: Bands,
    pub rom_active: bool,
    /// What the graph shows.
    pub displayed: Bands,
    /// The Custom slot is live and not being edited.
    pub custom_active: bool,
}

pub open spec fn eq_shown(s: StateView, edit: Option<Bands>) -> EqPicture {
    let custom_slot = match s.custom_eq {
        Some(bands) => bands,
        None => FLAT,
    };
    let live = match s.eq_preset {
        Some(preset) => match preset.curve() {
            Some(curve) => curve,
            None => custom_slot,
        },
        None => custom_slot,
    };
    EqPicture {
        custom_slot,
        live,
        rom_active: s.eq_preset matches Some(preset) && preset.curve() is Some,
        displayed: match edit {
            Some(bands) => bands,
            None => live,
        },
        custom_active: s.eq_preset == Some(HardwarePreset::Custom) && edit is None,
    }
}

/// The graph shows the curve being edited; else the curve of the active ROM
/// preset; else the user's own slot, which is flat until it is known.
pub proof fn graph_shows_the_live_curve(s: StateView, edit: Option<Bands>)
    ensures
        ({
            let picture = eq_shown(s, edit);
            &&& edit matches Some(bands) ==> picture.displayed == bands && !picture.custom_active
            &&& edit is None ==> picture.displayed == picture.live
            &&& s.custom_eq matches Some(bands) ==> picture.custom_slot == bands
            &&& s.custom_eq is None ==> picture.custom_slot == FLAT
            &&& s.eq_preset == Some(HardwarePreset::Custom) || s.eq_preset is None ==> picture.live
                == picture.custom_slot && !picture.rom_active
            &&& s.eq_preset == Some(HardwarePreset::Game) ==> picture.live == GAME_CURVE && picture.rom_active
            &&& s.eq_preset == Some(HardwarePreset::Music) ==> picture.live == MUSIC_CURVE && picture.rom_active
            &&& s.eq_preset == Some(HardwarePreset::Movie) ==> picture.live == MOVIE_CURVE && picture.rom_active
            &&& s.eq_preset == Some(HardwarePreset::Flat) ==> picture.live == FLAT && picture.rom_active
            &&& picture.custom_active <==> s.eq_preset == Some(HardwarePreset::Custom) && edit is None
        }),
{
}

pub fn eq_picture(state: &HeadsetState, edit: Option<Bands>) -> (r: EqPicture)
    ensures
        r == eq_shown(state@, edit),
{
    let custom_slot = match state.custom_eq {
        Some(bands) => bands,
        None => FLAT,
    };
    let live = match state.eq_preset {
        Some(preset) => match preset.reference_curve() {
            Some(curve) => curve,
            None => custom_slot,
        },
        None => custom_slot,
    };
    let rom_active = match state.eq_preset {
        Some(preset) => preset.is_rom(),
        None => false,
    };
    let displayed = match edit {
        Some(bands) => bands,
        None => live,
    };
    let custom_active = match state.eq_preset {
        Some(preset) => preset == HardwarePreset::Custom && edit.is_none(),
        None => false,
    };
    EqPicture { custom_slot, live, rom_active, displayed, custom_active }
}

/// Is a preset's chip marked?
pub fn preset_selected(state: &HeadsetState, edit: &Option<Bands>, preset: HardwarePreset) -> (r: bool)
    ensures
        r == (state@.eq_preset == Some(preset) && edit is None),
{
    match state.eq_preset {
        Some(active) => active == preset && edit.is_none(),
        None => false,
    }
}

/// Is a curve's chip marked?
pub fn curve_selected(picture: &EqPicture, bands: &Bands) -> (r: bool)
    ensures
        r == (picture.custom_active && picture.custom_slot == *bands),
{
    picture.custom_active && same_bands(&picture.custom_slot, bands)
}

/// A band is dragged or clicked to `db`. Returns whether that changes the
/// curve.
pub fn drag_band(bands: &mut Bands, band: usize, db: i32) -> (changed: bool)
    requires
        band < BAND_COUNT,
    ensures
        final(bands)@ == old(bands)@.update(band as int, clamped_gain(db as int)),
        changed == (final(bands)@[band as int] != old(bands)@[band as int]),
        -9 <= db <= 6 ==> final(bands)@[band as int] == db,
        changed <==> final(bands)@ != old(bands)@,
{
    let gain: i8 = clamp_gain(db);
    if gain != bands[band] {
        bands[band] = gain;
        true
    } else {
        assert(bands@ =~= old(bands)@.update(band as int, gain));
        false
    }
}

/// A gain after `steps` steps of 1 dB, each kept in range.
pub open spec fn stepped(db: i8, steps: int) -> i8
    decreases if steps < 0 { -steps } else { steps },
{
    if steps > 0 {
        stepped(clamped_gain(db + 1), steps - 1)
    } else if steps < 0 {
        stepped(clamped_gain(db - 1), steps + 1)
    } else {
        db
    }
}

/// Turning the wheel moves a gain by 1 dB a step, up or down, as far as the
/// headset goes.
pub proof fn steps_add_up(db: i8, steps: int)
    requires
        -9 <= db <= 6,
    ensures
        stepped(db, steps) == clamped_gain(db + steps),
    decreases if steps < 0 { -steps } else { steps },
{
    if steps > 0 {
        steps_add_up(clamped_gain(db + 1), steps - 1);
    } else if steps < 0 {
        steps_add_up(clamped_gain(db - 1), steps + 1);
    }
}

/// The wheel is turned over a band. Returns whether that changes the curve.
pub fn scroll_band(bands: &mut Bands, band: usize, steps: i32) -> (changed: bool)
    requires
        band < BAND_COUNT,
    ensures
        final(bands)@ == old(bands)@.update(band as int, stepped(old(bands)@[band as int], steps as int)),
        changed == (final(bands)@[band as int] != old(bands)@[band as int]),
{
    let mut changed = false;
    let mut left: i32 = steps;
    let mut gain: i8 = bands[band];
    while left != 0
        invariant
            band < BAND_COUNT,
            stepped(old(bands)@[band as int], steps as int) == stepped(gain, left as int),
            changed == (gain != old(bands)@[band as int]),
            steps >= 0 ==> 0 <= left <= steps,
            steps < 0 ==> steps <= left <= 0,
            left != steps ==> MIN_GAIN_DB <= gain <= MAX_GAIN_DB,
            changed && MIN_GAIN_DB <= old(bands)@[band as int] <= MAX_GAIN_DB ==> if steps > 0 {
                gain > old(bands)@[band as int]
            } else {
                gain < old(bands)@[band as int]
            },
            left == steps ==> !changed,
            *bands == *old(bands),
        decreases (if left < 0 { -left } else { left as int }),
    {
        let step: i32 = if left > 0 {
            1
        } else {
            -1
        };
        let next: i8 = clamp_gain(gain as i32 + step);
        if next != gain {
            changed = true;
        }
        gain = next;
        left = left - step;
    }
    bands[band] = gain;
    assert(bands@ =~= old(bands)@.update(band as int, gain));
    changed
}

/// A gain as the graph labels it.
pub fn gain_label(db: i8) -> (r: String)
    ensures
        r@ == if db > 0 {
            "+"@ + dec(db as nat)
        } else {
            signed_dec(db as int)
        },
        db > 0 ==> r@ == "+"@ + dec(db as nat),
        db == 0 ==> r@ == dec(0),
        db < 0 ==> r@ == seq!['-'] + dec(-db as nat),
{
    if db > 0 {
        let mut out = "+".to_owned();
        out.append(decimal(db as u64).as_str());
        out
    } else {
        signed_decimal(db as i64)
    }
}

/// Does the label of a handle go above it? Near the top it goes below.
pub fn label_above(db: i8) -> (r: bool)
    ensures
        r == (db < MAX_GAIN_DB - 1),
        r <==> db <= 4,
{
    db < MAX_GAIN_DB - 1
}

/// What the microphone page says of the microphone.
#[derive(Debug, Clone, Copy, PartialEq, Eq)]
pub enum MicBadge {
    Muted,
    Live,
    Unknown,
}

pub fn mic_badge(online: bool, muted: Option<bool>) -> (r: MicBadge)
    ensures
        r == match muted {
            Some(true) if online => MicBadge::Muted,
            Some(false) if online => MicBadge::Live,
            _ => MicBadge::Unknown,
        },
        r is Muted <==> online && muted == Some(true),
        r is Live <==> online && muted == Some(false),
{
    match muted {
        Some(m) => {
            if !online {
                MicBadge::Unknown
            } else if m {
                MicBadge::Muted
            } else {
                MicBadge::Live
            }
        },
        None => MicBadge::Unknown,
    }
}

/// What the microphone page offers of the noise suppression.
#[derive(Debug, Clone, Copy, PartialEq, Eq)]
pub enum MicCard {
    /// Its state is being asked for.
    Checking,
    /// The plugin is not installed.
    Unavailable,
    Switch {
        on: bool,
        /// Say that it is running.
        running: bool,
        /// Offer to make it the default input.
        offer_default: bool,
    },
}

pub fn mic_card(status: &Option<MicCleanStatus>) -> (r: MicCard)
    ensures
        r == match status {
            None => MicCard::Checking,
            Some(s) => if !s.plugin_available {
                MicCard::Unavailable
            } else {
                MicCard::Switch {
                    on: s.active || s.enabled,
                    running: s.active,
                    offer_default: s.active && !s.is_default,
                }
            },
        },
        r is Checking <==> status is None,
        status matches Some(s) ==> (r is Unavailable <==> !s.plugin_available),
        r matches MicCard::Switch { on, running, offer_default } ==> (status matches Some(s) && (running <==> s.active)
            && (offer_default ==> running && !s.is_default) && (running && !s.is_default ==> offer_default) && (running
            ==> on) && (on && !running ==> s.enabled) && (s.enabled ==> on)),
{
    match status {
        None => MicCard::Checking,
        Some(s) => {
            if !s.plugin_available {
                MicCard::Unavailable
            } else {
                MicCard::Switch {
                    on: s.active || s.enabled,
                    running: s.active,
                    offer_default: s.active && !s.is_default,
                }
            }
        },
    }
}

/// Minutes that the power page offers.
pub const SLEEP_CHOICES: [u8; 9] = [0, 5, 10, 15, 30, 45, 60, 90, 120];

/// The sleep time that needs a mark of its own: one that is not among the
/// choices.
pub fn unusual_sleep(current: Option<u8>) -> (r: Option<u8>)
    ensures
        r == match current {
            Some(minutes) if !SLEEP_CHOICES@.contains(minutes) => Some(minutes),
            _ => None,
        },
        r is Some ==> r == current,
        r is None <==> current is None || SLEEP_CHOICES@.contains(current->0),
{
    let minutes: u8 = match current {
        Some(minutes) => minutes,
        None => return None,
    };
    let choices = SLEEP_CHOICES;
    let mut i: usize = 0;
    while i < 9
        invariant
            i <= 9,
            choices == SLEEP_CHOICES,
            current == Some(minutes),
            forall|j: int| 0 <= j < i ==> #[trigger] choices@[j] != minutes,
        decreases 9 - i,
    {
        if choices[i] == minutes {
            assert(SLEEP_CHOICES@[i as int] == minutes);
            return None;
        }
        i += 1;
    }
    assert(!SLEEP_CHOICES@.contains(minutes));
    Some(minutes)
}

/// Can the dongle be set up now?
pub fn dongle_present(snap: &Snapshot) -> (r: bool)
    ensures
        r == ((snap@.phase is Ready || snap@.phase is HeadsetOffline) && (snap@.device matches Some(device)
            && device.connection == Connection::Dongle)),
        r ==> snap@.device is Some && !(snap@.phase is NoDevice) && !(snap@.phase is Connecting),
{
    let known = matches!(snap.phase, Phase::Ready | Phase::HeadsetOffline);
    match &snap.device {
        Some(device) => known && device.connection == Connection::Dongle,
        None => false,
    }
}

/// Are the dongle's settings shown? Not for a device on a cable.
pub fn dongle_shown(snap: &Snapshot) -> (r: bool)
    ensures
        r == match snap@.device {
            Some(device) => device.connection == Connection::Dongle,
            None => true,
        },
{
    match &snap.device {
        Some(device) => device.connection == Connection::Dongle,
        None => true,
    }
}

/// Is something due that was last done at `last_ms`?
pub fn check_due(last_ms: Option<u64>, now_ms: u64, interval_ms: u64) -> (r: bool)
    ensures
        r == match last_ms {
            Some(last) => now_ms - last > interval_ms,
            None => true,
        },
        last_ms is None ==> r,
        last_ms matches Some(last) ==> (r <==> last + interval_ms < now_ms),
{
    match last_ms {
        Some(last) => now_ms > last && now_ms - last > interval_ms,
        None => true,
    }
}

#[derive(Debug, Clone, Copy, PartialEq, Eq, Structural)]
pub enum ToastKind {
    Success,
    Error,
    Info,
}

impl ToastKind {
    /// How long it stays (milliseconds).
    pub open spec fn stay(self) -> u64 {
        match self {
            ToastKind::Error => 6000,
            ToastKind::Success => 2000,
            ToastKind::Info => 3000,
        }
    }
}

/// A short message in the corner of the window.
#[derive(Debug)]
pub struct Toast {
    pub text: String,
    pub kind: ToastKind,
    pub until_ms: u64,
}

pub struct ToastView {
    pub text: Seq<char>,
    pub kind: ToastKind,
    pub until_ms: u64,
}

impl View for Toast {
    type V = ToastView;

    open spec fn view(&self) -> ToastView {
        ToastView { text: self.text@, kind: self.kind, until_ms: self.until_ms }
    }
}

pub open spec fn toast_views(toasts: Seq<Toast>) -> Seq<ToastView> {
    toasts.map_values(|t: Toast| t@)
}

/// The messages with another text.
pub open spec fn other_toasts(toasts: Seq<ToastView>, text: Seq<char>) -> Seq<ToastView> {
    toasts.filter(|t: ToastView| t.text != text)
}

/// The messages that stay on.
pub open spec fn lasting(toasts: Seq<ToastView>, now_ms: u64) -> Seq<ToastView> {
    toasts.filter(|t: ToastView| t.until_ms > now_ms)
}

/// Messages stay 6 seconds if they tell of an error, 2 if of a success and 3
/// otherwise.
pub proof fn messages_stay(kind: ToastKind)
    ensures
        kind is Error ==> kind.stay() == 6000,
        kind is Success ==> kind.stay() == 2000,
        kind is Info ==> kind.stay() == 3000,
{
}

/// A message with the same text is gone, and any other stays; a message is
/// gone exactly once its time is up.
pub proof fn messages_are_kept(toasts: Seq<ToastView>, text: Seq<char>, now_ms: u64, t: ToastView)
    requires
        toasts.contains(t),
    ensures
        other_toasts(toasts, text).contains(t) <==> t.text != text,
        lasting(toasts, now_ms).contains(t) <==> now_ms < t.until_ms,
{
    let other = |t: ToastView| t.text != text;
    let lasts = |t: ToastView| t.until_ms > now_ms;
    if other_toasts(toasts, text).contains(t) {
        let k = choose|k: int| 0 <= k < toasts.filter(other).len() && toasts.filter(other)[k] == t;
        toasts.lemma_filter_pred(other, k);
    }
    if lasting(toasts, now_ms).contains(t) {
        let k = choose|k: int| 0 <= k < toasts.filter(lasts).len() && toasts.filter(lasts)[k] == t;
        toasts.lemma_filter_pred(lasts, k);
    }
    let i = choose|i: int| 0 <= i < toasts.len() && toasts[i] == t;
    if t.text != text {
        toasts.lemma_filter_contains(other, i);
    }
    if now_ms < t.until_ms {
        toasts.lemma_filter_contains(lasts, i);
    }
}

/// Show a message. One with the same text is replaced.
pub fn add_toast(toasts: Vec<Toast>, text: String, kind: ToastKind, now_ms: u64) -> (r: Vec<Toast>)
    ensures
        toast_views(r@) == other_toasts(toast_views(toasts@), text@).push(
            ToastView {
                text: text@,
                kind,
                until_ms: if now_ms + kind.stay() > u64::MAX {
                    u64::MAX
                } else {
                    (now_ms + kind.stay()) as u64
                },
            },
        ),
        r@.len() > 0 && r@.last().text@ == text@ && r@.last().kind == kind,
        r@.last().until_ms == u64::MAX || r@.last().until_ms == now_ms + kind.stay(),
{
    let stay: u64 = match kind {
        ToastKind::Error => 6000,
        ToastKind::Success => 2000,
        ToastKind::Info => 3000,
    };
    let ghost all = toast_views(toasts@);
    let mut kept: Vec<Toast> = Vec::new();
    let ghost pred = |t: ToastView| t.text != text@;
    assert(toast_views(kept@) =~= all.take(0).filter(pred));
    for toast in it: toasts
        invariant
            it.seq() == toasts@,
            all == toast_views(toasts@),
            pred == (|t: ToastView| t.text != text@),
            toast_views(kept@) == all.take(it.index() as int).filter(pred),
    {
        let ghost i = it.index() as int;
        let ghost before = toast_views(kept@);
        let ghost view = toast@;
        proof {
            reveal(Seq::filter);
            assert(all.take(i + 1).drop_last() =~= all.take(i));
            assert(all.take(i + 1).last() == view);
        }
        if !same(toast.text.as_str(), text.as_str()) {
            kept.push(toast);
            assert(toast_views(kept@) =~= before.push(view));
        }
    }
    assert(all.take(all.len() as int) =~= all);
    let ghost before = toast_views(kept@);
    let toast = Toast { text, kind, until_ms: now_ms.saturating_add(stay) };
    let ghost view = toast@;
    kept.push(toast);
    assert(toast_views(kept@) =~= before.push(view));
    kept
}

/// Drop the messages whose time is up.
pub fn expire_toasts(toasts: Vec<Toast>, now_ms: u64) -> (r: Vec<Toast>)
    ensures
        toast_views(r@) == lasting(toast_views(toasts@), now_ms),
{
    let ghost all = toast_views(toasts@);
    let mut kept: Vec<Toast> = Vec::new();
    let ghost pred = |t: ToastView| t.until_ms > now_ms;
    assert(toast_views(kept@) =~= all.take(0).filter(pred));
    for toast in it: toasts
        invariant
            it.seq() == toasts@,
            all == toast_views(toasts@),
            pred == (|t: ToastView| t.until_ms > now_ms),
            toast_views(kept@) == all.take(it.index() as int).filter(pred),
    {
        let ghost i = it.index() as int;
        let ghost before = toast_views(kept@);
        let ghost view = toast@;
        proof {
            reveal(Seq::filter);
            assert(all.take(i + 1).drop_last() =~= all.take(i));
            assert(all.take(i + 1).last() == view);
        }
        if toast.until_ms > now_ms {
            kept.push(toast);
            assert(toast_views(kept@) =~= before.push(view));
        }
    }
    assert(all.take(all.len() as int) =~= all);
    kept
}

} // verus!
