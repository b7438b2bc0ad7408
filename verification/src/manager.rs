//! What the GUI and the tray share: the picture of the device that they
//! show, and the actions they can ask for.

use crate::ctl::parse::{switch_value, switch_words_are_opposites};
use crate::devices::blackshark_v2_hs::state::{HeadsetState, LedMode, StateView};
use crate::devices::{Connection, FoundDevice, FoundView};
use crate::eq::{Bands, HardwarePreset, BAND_COUNT};
use crate::error::{Error, ErrorView};
use crate::text::{
    dec, dec2, decimal, decimal2, digits_value, same, signed_dec, signed_decimal, two_digits_read_back,
};
use crate::views::some_view;
use std::collections::VecDeque;
use vstd::prelude::*;
use vstd::string::*;

verus! {

/// Telephony report of the dongle (hook switch / phone mute).
pub const TELEPHONY_REPORT_ID: u8 = 0x05;

pub const LOG_LINES: usize = 200;

#[derive(Debug, Clone, Copy, PartialEq, Eq)]
pub struct ManagerOptions {
    /// How often battery, charging, mute and the active preset are polled
    /// (milliseconds).
    pub poll_interval_ms: u64,
    /// How often to look for a device while none is connected (milliseconds).
    pub rescan_interval_ms: u64,
    /// Use the simulated headset instead of real hardware.
    pub simulate: bool,
}

impl ManagerOptions {
    /// The usual intervals.
    pub fn new(simulate: bool) -> (r: Self)
        ensures
            r == (ManagerOptions { poll_interval_ms: 5000, rescan_interval_ms: 2000, simulate }),
    {
        ManagerOptions { poll_interval_ms: 5000, rescan_interval_ms: 2000, simulate }
    }
}

#[derive(Debug, PartialEq, Eq)]
pub enum Phase {
    /// No supported device plugged in.
    NoDevice,
    /// A device exists but its hidraw node is not accessible (udev rule missing).
    PermissionDenied(String),
    /// Opening the device / reading its state.
    Connecting,
    /// Dongle present, headset off or out of range.
    HeadsetOffline,
    /// Headset reachable.
    Ready,
}

pub enum PhaseView {
    NoDevice,
    PermissionDenied(Seq<char>),
    Connecting,
    HeadsetOffline,
    Ready,
}

impl View for Phase {
    type V = PhaseView;

    open spec fn view(&self) -> PhaseView {
        match self {
            Phase::NoDevice => PhaseView::NoDevice,
            Phase::PermissionDenied(path) => PhaseView::PermissionDenied(path@),
            Phase::Connecting => PhaseView::Connecting,
            Phase::HeadsetOffline => PhaseView::HeadsetOffline,
            Phase::Ready => PhaseView::Ready,
        }
    }
}

impl Clone for Phase {
    fn clone(&self) -> (r: Self)
        ensures
            r@ == self@,
    {
        match self {
            Phase::NoDevice => Phase::NoDevice,
            Phase::PermissionDenied(path) => Phase::PermissionDenied(path.clone()),
            Phase::Connecting => Phase::Connecting,
            Phase::HeadsetOffline => Phase::HeadsetOffline,
            Phase::Ready => Phase::Ready,
        }
    }
}

#[derive(Debug, PartialEq, Eq)]
pub struct DeviceSummary {
    pub name: &'static str,
    pub vid: u16,
    pub pid: u16,
    pub connection: Connection,
    pub path: String,
    pub simulated: bool,
    pub experimental: bool,
}

pub struct SummaryView {
    pub name: Seq<char>,
    pub vid: u16,
    pub pid: u16,
    pub connection: Connection,
    pub path: Seq<char>,
    pub simulated: bool,
    pub experimental: bool,
}

impl View for DeviceSummary {
    type V = SummaryView;

    open spec fn view(&self) -> SummaryView {
        SummaryView {
            name: self.name@,
            vid: self.vid,
            pid: self.pid,
            connection: self.connection,
            path: self.path@,
            simulated: self.simulated,
            experimental: self.experimental,
        }
    }
}

impl Clone for DeviceSummary {
    fn clone(&self) -> (r: Self)
        ensures
            r@ == self@,
    {
        DeviceSummary {
            name: self.name,
            vid: self.vid,
            pid: self.pid,
            connection: self.connection,
            path: self.path.clone(),
            simulated: self.simulated,
            experimental: self.experimental,
        }
    }
}

impl SummaryView {
    pub open spec fn of(found: FoundView) -> SummaryView {
        SummaryView {
            name: found.model.name@,
            vid: found.model.vid,
            pid: found.model.pid,
            connection: found.model.connection,
            path: found.path(),
            simulated: found.location is Simulated,
            experimental: found.model.experimental,
        }
    }
}

impl DeviceSummary {
    pub fn from_found(found: &FoundDevice) -> (r: Self)
        ensures
            r@ == SummaryView::of(found@),
    {
        DeviceSummary {
            name: found.model.name,
            vid: found.model.vid,
            pid: found.model.pid,
            connection: found.model.connection,
            path: found.path_display(),
            simulated: found.is_simulated(),
            experimental: found.model.experimental,
        }
    }
}

/// Why the last action failed, for localized display.
#[derive(Debug, PartialEq, Eq)]
pub enum Problem {
    NotConnected,
    HeadsetOffline,
    Timeout,
    Busy,
    Other(String),
}

pub enum ProblemView {
    NotConnected,
    HeadsetOffline,
    Timeout,
    Busy,
    Other(Seq<char>),
}

impl View for Problem {
    type V = ProblemView;

    open spec fn view(&self) -> ProblemView {
        match self {
            Problem::NotConnected => ProblemView::NotConnected,
            Problem::HeadsetOffline => ProblemView::HeadsetOffline,
            Problem::Timeout => ProblemView::Timeout,
            Problem::Busy => ProblemView::Busy,
            Problem::Other(text) => ProblemView::Other(text@),
        }
    }
}

impl Clone for Problem {
    fn clone(&self) -> (r: Self)
        ensures
            r@ == self@,
    {
        match self {
            Problem::NotConnected => Problem::NotConnected,
            Problem::HeadsetOffline => Problem::HeadsetOffline,
            Problem::Timeout => Problem::Timeout,
            Problem::Busy => Problem::Busy,
            Problem::Other(text) => Problem::Other(text.clone()),
        }
    }
}

impl ProblemView {
    pub open spec fn of(err: ErrorView) -> ProblemView {
        match err {
            ErrorView::NoDevice | ErrorView::Disconnected | ErrorView::PermissionDenied { .. } => {
                ProblemView::NotConnected
            },
            ErrorView::HeadsetOffline => ProblemView::HeadsetOffline,
            ErrorView::Timeout { .. } | ErrorView::EmptyResponse { .. } => ProblemView::Timeout,
            ErrorView::Io(io) => if io.timed_out {
                ProblemView::Busy
            } else {
                ProblemView::Other(err.text())
            },
            ErrorView::InvalidArgument(_) | ErrorView::Protocol(_) => ProblemView::Other(err.text()),
        }
    }
}

impl Problem {
    pub fn from_error(err: &Error) -> (r: Self)
        ensures
            r@ == ProblemView::of(err@),
    {
        match err {
            Error::NoDevice | Error::Disconnected | Error::PermissionDenied { .. } => Problem::NotConnected,
            Error::HeadsetOffline => Problem::HeadsetOffline,
            Error::Timeout { .. } | Error::EmptyResponse { .. } => Problem::Timeout,
            Error::Io(io) => {
                if io.timed_out {
                    Problem::Busy
                } else {
                    Problem::Other(err.message())
                }
            },
            Error::InvalidArgument(_) | Error::Protocol(_) => Problem::Other(err.message()),
        }
    }
}

#[derive(Debug, PartialEq, Eq)]
pub struct LogLine {
    /// Seconds since the epoch.
    pub time: u64,
    pub text: String,
}

pub struct LineView {
    pub time: u64,
    pub text: Seq<char>,
}

impl View for LogLine {
    type V = LineView;

    open spec fn view(&self) -> LineView {
        LineView { time: self.time, text: self.text@ }
    }
}

impl Clone for LogLine {
    fn clone(&self) -> (r: Self)
        ensures
            r@ == self@,
    {
        LogLine { time: self.time, text: self.text.clone() }
    }
}

#[derive(Debug)]
pub struct Snapshot {
    pub phase: Phase,
    pub device: Option<DeviceSummary>,
    pub state: HeadsetState,
    /// Requests queued or running.
    pub pending: usize,
    /// Last failed action; the counter changes with every new failure.
    pub problem: Option<(u64, Problem)>,
    /// Changes with every update.
    pub revision: u64,
    pub log: VecDeque<LogLine>,
}

#[verifier::ext_equal]
pub struct SnapshotView {
    pub phase: PhaseView,
    pub device: Option<SummaryView>,
    pub state: StateView,
    pub pending: usize,
    pub problem: Option<(u64, ProblemView)>,
    pub revision: u64,
    pub log: Seq<LineView>,
}

pub open spec fn line_views(log: Seq<LogLine>) -> Seq<LineView> {
    log.map_values(|l: LogLine| l@)
}

impl View for Snapshot {
    type V = SnapshotView;

    open spec fn view(&self) -> SnapshotView {
        SnapshotView {
            phase: self.phase@,
            device: some_view(self.device),
            state: self.state@,
            pending: self.pending,
            problem: match self.problem {
                Some((id, problem)) => Some((id, problem@)),
                None => None,
            },
            revision: self.revision,
            log: line_views(self.log@),
        }
    }
}

pub open spec fn next_number(n: u64) -> u64 {
    if n == u64::MAX {
        0
    } else {
        (n + 1) as u64
    }
}

impl SnapshotView {
    pub open spec fn initial() -> SnapshotView {
        SnapshotView {
            phase: PhaseView::NoDevice,
            device: None,
            state: StateView::unknown(),
            pending: 0,
            problem: None,
            revision: 0,
            log: seq![],
        }
    }

    /// Marked as changed.
    pub open spec fn touched(self) -> SnapshotView {
        SnapshotView { revision: next_number(self.revision), ..self }
    }

    /// With one more line in the log; of too many the oldest goes.
    pub open spec fn with_line(self, time: u64, text: Seq<char>) -> SnapshotView {
        let line = LineView { time, text };
        SnapshotView {
            log: if self.log.len() >= LOG_LINES {
                self.log.skip(1).push(line)
            } else {
                self.log.push(line)
            },
            ..self
        }
    }

    /// With a new failure, under a number that differs from the last one.
    pub open spec fn with_problem(self, problem: ProblemView) -> SnapshotView {
        SnapshotView {
            problem: Some(
                (
                    match self.problem {
                        Some((id, _)) => next_number(id),
                        None => 1,
                    },
                    problem,
                ),
            ),
            ..self
        }
    }
}

/// Every update and every failure gets a number that the one before it did
/// not have, and the log stays within its limit with the new line last.
pub proof fn updates_are_seen(s: SnapshotView, time: u64, text: Seq<char>, problem: ProblemView)
    ensures
        s.touched().revision != s.revision,
        match (s.problem, s.with_problem(problem).problem) {
            (Some((before, _)), Some((after, _))) => after != before,
            (None, after) => after == Some((1u64, problem)),
            _ => false,
        },
        s.log.len() <= LOG_LINES ==> s.with_line(time, text).log.len() <= LOG_LINES,
        s.with_line(time, text).log.last() == (LineView { time, text }),
{
}

/// Numbers go up by one; the last one is followed by zero.
pub proof fn numbers_go_up(n: u64)
    ensures
        n < u64::MAX ==> next_number(n) == n + 1,
        next_number(u64::MAX) == 0,
{
}

impl Default for Snapshot {
    fn default() -> (r: Self)
        ensures
            r@ == SnapshotView::initial(),
    {
        let r = Snapshot {
            phase: Phase::NoDevice,
            device: None,
            state: HeadsetState::default(),
            pending: 0,
            problem: None,
            revision: 0,
            log: VecDeque::new(),
        };
        assert(r@ =~= SnapshotView::initial());
        r
    }
}

impl Clone for Snapshot {
    fn clone(&self) -> (r: Self)
        ensures
            r@ == self@,
    {
        let mut log: VecDeque<LogLine> = VecDeque::new();
        let mut i: usize = 0;
        while i < self.log.len()
            invariant
                i <= self.log@.len(),
                line_views(log@) == line_views(self.log@).take(i as int),
            decreases self.log@.len() - i,
        {
            let ghost before = line_views(log@);
            let line = self.log[i].clone();
            let ghost view = line@;
            log.push_back(line);
            i += 1;
            assert(line_views(log@) =~= before.push(view));
            assert(before.push(view) =~= line_views(self.log@).take(i as int));
        }
        let r = Snapshot {
            phase: self.phase.clone(),
            device: match &self.device {
                Some(summary) => Some(summary.clone()),
                None => None,
            },
            state: self.state.clone(),
            pending: self.pending,
            problem: match &self.problem {
                Some((id, problem)) => Some((*id, problem.clone())),
                None => None,
            },
            revision: self.revision,
            log,
        };
        assert(r@ =~= self@);
        r
    }
}

impl Snapshot {
    pub fn is_ready(&self) -> (r: bool)
        ensures
            r == (self@.phase is Ready),
    {
        matches!(self.phase, Phase::Ready)
    }

    /// Mark as changed.
    pub fn touch(&mut self)
        ensures
            final(self)@ == old(self)@.touched(),
    {
        self.revision = self.revision.wrapping_add(1);
        assert(self@ =~= old(self)@.touched());
    }

    pub fn log_line(&mut self, time: u64, text: String)
        ensures
            final(self)@ == old(self)@.with_line(time, text@),
    {
        if self.log.len() >= LOG_LINES {
            let _ = self.log.pop_front();
        }
        let ghost view = text@;
        self.log.push_back(LogLine { time, text });
        assert(self@ =~= old(self)@.with_line(time, view));
    }

    /// Record a failed action.
    pub fn note_problem(&mut self, problem: Problem)
        ensures
            final(self)@ == old(self)@.with_problem(problem@),
    {
        let id: u64 = match &self.problem {
            Some((id, _)) => id.wrapping_add(1),
            None => 1,
        };
        self.problem = Some((id, problem));
        assert(self@ =~= old(self)@.with_problem(problem@));
    }
}

/// Actions the UI can ask for.
#[derive(Debug, Clone, Copy, PartialEq)]
pub enum Request {
    Refresh,
    SetSidetone(bool),
    SetSidetoneLevel(u8),
    SetSleepMinutes(u8),
    SetBtDnd(bool),
    SetLedMode(LedMode),
    SelectPreset(HardwarePreset),
    ApplyCustomEq(Bands),
    SetEnhancement(bool),
    SetEqEnabled(bool),
}

pub open spec fn bool_text(on: bool) -> Seq<char> {
    if on {
        "true"@
    } else {
        "false"@
    }
}

pub open spec fn preset_text(preset: HardwarePreset) -> Seq<char> {
    match preset {
        HardwarePreset::Flat => "Flat"@,
        HardwarePreset::Game => "Game"@,
        HardwarePreset::Music => "Music"@,
        HardwarePreset::Movie => "Movie"@,
        HardwarePreset::Custom => "Custom"@,
        HardwarePreset::Unknown(raw) => "Unknown("@ + dec(raw as nat) + ")"@,
    }
}

pub open spec fn led_text(mode: LedMode) -> Seq<char> {
    match mode {
        LedMode::Off => "Off"@,
        LedMode::Link => "Link"@,
        LedMode::Battery => "Battery"@,
        LedMode::Warning => "Warning"@,
        LedMode::Unknown(raw) => "Unknown("@ + dec(raw as nat) + ")"@,
    }
}

/// The first `n` gains, separated by commas.
pub open spec fn gains_text(bands: Bands, n: nat) -> Seq<char>
    decreases n,
{
    if n == 0 {
        seq![]
    } else if n == 1 {
        signed_dec(bands@[0] as int)
    } else {
        gains_text(bands, (n - 1) as nat) + ", "@ + signed_dec(bands@[n - 1] as int)
    }
}

impl Request {
    /// Which kind of action it is.
    pub open spec fn kind(self) -> int {
        match self {
            Request::Refresh => 0,
            Request::SetSidetone(_) => 1,
            Request::SetSidetoneLevel(_) => 2,
            Request::SetSleepMinutes(_) => 3,
            Request::SetBtDnd(_) => 4,
            Request::SetLedMode(_) => 5,
            Request::SelectPreset(_) => 6,
            Request::ApplyCustomEq(_) => 7,
            Request::SetEnhancement(_) => 8,
            Request::SetEqEnabled(_) => 9,
        }
    }

    fn kind_number(&self) -> (r: u8)
        ensures
            r == self.kind(),
    {
        match self {
            Request::Refresh => 0,
            Request::SetSidetone(_) => 1,
            Request::SetSidetoneLevel(_) => 2,
            Request::SetSleepMinutes(_) => 3,
            Request::SetBtDnd(_) => 4,
            Request::SetLedMode(_) => 5,
            Request::SelectPreset(_) => 6,
            Request::ApplyCustomEq(_) => 7,
            Request::SetEnhancement(_) => 8,
            Request::SetEqEnabled(_) => 9,
        }
    }

    pub open spec fn text(self) -> Seq<char> {
        match self {
            Request::Refresh => "Refresh"@,
            Request::SetSidetone(on) => "SetSidetone("@ + bool_text(on) + ")"@,
            Request::SetSidetoneLevel(level) => "SetSidetoneLevel("@ + dec(level as nat) + ")"@,
            Request::SetSleepMinutes(minutes) => "SetSleepMinutes("@ + dec(minutes as nat) + ")"@,
            Request::SetBtDnd(on) => "SetBtDnd("@ + bool_text(on) + ")"@,
            Request::SetLedMode(mode) => "SetLedMode("@ + led_text(mode) + ")"@,
            Request::SelectPreset(preset) => "SelectPreset("@ + preset_text(preset) + ")"@,
            Request::ApplyCustomEq(bands) => "ApplyCustomEq(["@ + gains_text(bands, BAND_COUNT as nat) + "])"@,
            Request::SetEnhancement(on) => "SetEnhancement("@ + bool_text(on) + ")"@,
            Request::SetEqEnabled(on) => "SetEqEnabled("@ + bool_text(on) + ")"@,
        }
    }

    /// The action as it appears in the log.
    pub fn describe(&self) -> (r: String)
        ensures
            r@ == self.text(),
    {
        match self {
            Request::Refresh => "Refresh".to_owned(),
            Request::SetSidetone(on) => wrapped("SetSidetone(", bool_word(*on), ")"),
            Request::SetSidetoneLevel(level) => wrapped(
                "SetSidetoneLevel(",
                decimal(*level as u64).as_str(),
                ")",
            ),
            Request::SetSleepMinutes(minutes) => wrapped(
                "SetSleepMinutes(",
                decimal(*minutes as u64).as_str(),
                ")",
            ),
            Request::SetBtDnd(on) => wrapped("SetBtDnd(", bool_word(*on), ")"),
            Request::SetLedMode(mode) => wrapped("SetLedMode(", led_word(*mode).as_str(), ")"),
            Request::SelectPreset(preset) => wrapped("SelectPreset(", preset_word(*preset).as_str(), ")"),
            Request::ApplyCustomEq(bands) => wrapped("ApplyCustomEq([", gain_words(bands).as_str(), "])"),
            Request::SetEnhancement(on) => wrapped("SetEnhancement(", bool_word(*on), ")"),
            Request::SetEqEnabled(on) => wrapped("SetEqEnabled(", bool_word(*on), ")"),
        }
    }
}

fn wrapped(before: &str, text: &str, after: &str) -> (r: String)
    ensures
        r@ == before@ + text@ + after@,
{
    let mut out = before.to_owned();
    out.append(text);
    out.append(after);
    out
}

fn bool_word(on: bool) -> (r: &'static str)
    ensures
        r@ == bool_text(on),
{
    if on {
        "true"
    } else {
        "false"
    }
}

fn preset_word(preset: HardwarePreset) -> (r: String)
    ensures
        r@ == preset_text(preset),
{
    match preset {
        HardwarePreset::Flat => "Flat".to_owned(),
        HardwarePreset::Game => "Game".to_owned(),
        HardwarePreset::Music => "Music".to_owned(),
        HardwarePreset::Movie => "Movie".to_owned(),
        HardwarePreset::Custom => "Custom".to_owned(),
        HardwarePreset::Unknown(raw) => wrapped("Unknown(", decimal(raw as u64).as_str(), ")"),
    }
}

fn led_word(mode: LedMode) -> (r: String)
    ensures
        r@ == led_text(mode),
{
    match mode {
        LedMode::Off => "Off".to_owned(),
        LedMode::Link => "Link".to_owned(),
        LedMode::Battery => "Battery".to_owned(),
        LedMode::Warning => "Warning".to_owned(),
        LedMode::Unknown(raw) => wrapped("Unknown(", decimal(raw as u64).as_str(), ")"),
    }
}

fn gain_words(bands: &Bands) -> (r: String)
    ensures
        r@ == gains_text(*bands, BAND_COUNT as nat),
{
    let mut out = signed_decimal(bands[0] as i64);
    let mut i: usize = 1;
    while i < BAND_COUNT
        invariant
            1 <= i <= BAND_COUNT,
            out@ == gains_text(*bands, i as nat),
        decreases BAND_COUNT - i,
    {
        out.append(", ");
        out.append(signed_decimal(bands[i] as i64).as_str());
        i += 1;
    }
    out
}

/// The requests of another kind than `req`.
pub open spec fn other_kinds(batch: Seq<Request>, req: Request) -> Seq<Request>
    decreases batch.len(),
{
    if batch.len() == 0 {
        seq![]
    } else if batch.last().kind() == req.kind() {
        other_kinds(batch.drop_last(), req)
    } else {
        other_kinds(batch.drop_last(), req).push(batch.last())
    }
}

/// The newest request of each kind, in the order of the newest ones.
pub open spec fn coalesced(batch: Seq<Request>) -> Seq<Request>
    decreases batch.len(),
{
    if batch.len() == 0 {
        seq![]
    } else {
        other_kinds(coalesced(batch.drop_last()), batch.last()).push(batch.last())
    }
}

/// Two requests are of one kind exactly if they ask for the same setting.
pub proof fn kinds_are_told_apart(a: Request, b: Request)
    ensures
        a.kind() == b.kind() <==> ({
            ||| a is Refresh && b is Refresh
            ||| a is SetSidetone && b is SetSidetone
            ||| a is SetSidetoneLevel && b is SetSidetoneLevel
            ||| a is SetSleepMinutes && b is SetSleepMinutes
            ||| a is SetBtDnd && b is SetBtDnd
            ||| a is SetLedMode && b is SetLedMode
            ||| a is SelectPreset && b is SelectPreset
            ||| a is ApplyCustomEq && b is ApplyCustomEq
            ||| a is SetEnhancement && b is SetEnhancement
            ||| a is SetEqEnabled && b is SetEqEnabled
        }),
{
}

/// What the user is told of a failure: that there is no device, that the
/// headset is off, that it did not answer, that another program holds it, or
/// the error's own words.
pub proof fn problems_say_what_is_wrong(e: ErrorView)
    ensures
        ProblemView::of(e) is NotConnected <==> e is NoDevice || e is Disconnected || e is PermissionDenied,
        ProblemView::of(e) is HeadsetOffline <==> e is HeadsetOffline,
        ProblemView::of(e) is Timeout <==> e is Timeout || e is EmptyResponse,
        ProblemView::of(e) is Busy <==> (e matches ErrorView::Io(io) && io.timed_out),
        ProblemView::of(e) matches ProblemView::Other(text) ==> text == e.text(),
{
}

/// What is shown of a device is what was found.
pub proof fn summaries_tell_what_was_found(found: FoundView)
    ensures
        ({
            let shown = SummaryView::of(found);
            &&& shown.name == found.model.name@
            &&& shown.vid == found.model.vid && shown.pid == found.model.pid
            &&& shown.connection == found.model.connection
            &&& shown.path == found.path()
            &&& shown.simulated <==> found.location is Simulated
            &&& shown.experimental == found.model.experimental
        }),
{
}

/// The log keeps the newest 200 lines in order: a new line goes last, and all
/// others stay unless the log is full.
pub proof fn log_keeps_the_newest(s: SnapshotView, time: u64, text: Seq<char>)
    requires
        s.log.len() <= 200,
    ensures
        ({
            let after = s.with_line(time, text);
            &&& after.log.last().time == time && after.log.last().text == text
            &&& s.log.len() < 200 ==> after.log.drop_last() == s.log
            &&& s.log.len() == 200 ==> after.log.len() == 200 && after.log.drop_last() == s.log.skip(1)
            &&& after.state == s.state && after.phase == s.phase && after.device == s.device
            &&& after.pending == s.pending && after.problem == s.problem
        }),
{
    let after = s.with_line(time, text);
    if s.log.len() < 200 {
        assert(after.log.drop_last() =~= s.log);
    } else {
        assert(after.log.drop_last() =~= s.log.skip(1));
    }
}

/// At first there is no device, nothing is known and nothing waits.
pub proof fn first_picture_is_empty()
    ensures
        ({
            let s = SnapshotView::initial();
            &&& s.phase is NoDevice
            &&& s.device is None && s.problem is None && s.pending == 0
            &&& s.state.knows_no_headset() && s.state.link_up is None && s.state.led_mode is None
            &&& s.state.dongle_serial is None && s.state.dongle_firmware is None
            &&& s.log.len() == 0
        }),
{
}

/// Keep only the newest request of each kind (e.g. slider drags), in the
/// order of the newest ones.
pub fn coalesce(batch: &Vec<Request>) -> (r: Vec<Request>)
    ensures
        r@ == coalesced(batch@),
        r@.len() <= batch@.len(),
{
    let mut kept: Vec<Request> = Vec::new();
    let mut i: usize = 0;
    assert(kept@ =~= coalesced(batch@.take(0)));
    while i < batch.len()
        invariant
            i <= batch@.len(),
            kept@ == coalesced(batch@.take(i as int)),
            kept@.len() <= i,
        decreases batch@.len() - i,
    {
        let req = batch[i];
        proof {
            assert(batch@.take(i + 1).drop_last() =~= batch@.take(i as int));
            assert(batch@.take(i + 1).last() == req);
        }
        // Drop the older request of the same kind; the newer one goes last
        // so [Apply(a), Select(b), Apply(c)] ends with Apply(c).
        let mut rest: Vec<Request> = Vec::new();
        let mut j: usize = 0;
        assert(rest@ =~= other_kinds(kept@.take(0), req));
        while j < kept.len()
            invariant
                j <= kept@.len(),
                rest@ == other_kinds(kept@.take(j as int), req),
                rest@.len() <= j,
            decreases kept@.len() - j,
        {
            proof {
                assert(kept@.take(j + 1).drop_last() =~= kept@.take(j as int));
                assert(kept@.take(j + 1).last() == kept@[j as int]);
            }
            if kept[j].kind_number() != req.kind_number() {
                rest.push(kept[j]);
            }
            j += 1;
        }
        assert(kept@.take(j as int) =~= kept@);
        rest.push(req);
        kept = rest;
        i += 1;
    }
    assert(batch@.take(i as int) =~= batch@);
    kept
}

/// Index of the newest request of a kind; -1 if there is none.
pub open spec fn newest(batch: Seq<Request>, kind: int) -> int
    decreases batch.len(),
{
    if batch.len() == 0 {
        -1
    } else if batch.last().kind() == kind {
        batch.len() - 1
    } else {
        newest(batch.drop_last(), kind)
    }
}

proof fn other_kinds_at(batch: Seq<Request>, req: Request)
    ensures
        other_kinds(batch, req).len() <= batch.len(),
        forall|i: int|
            0 <= i < other_kinds(batch, req).len() ==> (#[trigger] other_kinds(batch, req)[i]).kind() != req.kind(),
    decreases batch.len(),
{
    if batch.len() > 0 {
        other_kinds_at(batch.drop_last(), req);
    }
}

/// Filtering keeps what increases along the batch increasing.
proof fn other_kinds_in_order(batch: Seq<Request>, req: Request, rank: spec_fn(int) -> int, top: int)
    requires
        forall|i: int, j: int|
            #![trigger batch[i], batch[j]]
            0 <= i < j < batch.len() ==> rank(batch[i].kind()) < rank(batch[j].kind()),
        forall|i: int| 0 <= i < batch.len() ==> rank((#[trigger] batch[i]).kind()) < top,
    ensures
        ({
            let rest = other_kinds(batch, req);
            &&& forall|i: int, j: int|
                #![trigger rest[i], rest[j]]
                0 <= i < j < rest.len() ==> rank(rest[i].kind()) < rank(rest[j].kind())
            &&& forall|i: int| 0 <= i < rest.len() ==> rank((#[trigger] rest[i]).kind()) < top
            &&& forall|i: int| 0 <= i < rest.len() ==> #[trigger] batch.contains(rest[i])
        }),
    decreases batch.len(),
{
    if batch.len() > 0 {
        let head = batch.drop_last();
        assert forall|i: int, j: int|
            #![trigger head[i], head[j]]
            0 <= i < j < head.len() implies rank(head[i].kind()) < rank(head[j].kind()) by {
            assert(rank(batch[i].kind()) < rank(batch[j].kind()));
        }
        let last = batch.last();
        assert(batch[batch.len() - 1] == last);
        assert forall|i: int| 0 <= i < head.len() implies rank((#[trigger] head[i]).kind()) < rank(
            last.kind(),
        ) by {
            assert(head[i] == batch[i]);
        }
        other_kinds_in_order(head, req, rank, rank(last.kind()));
        let rest = other_kinds(batch, req);
        let before = other_kinds(head, req);
        assert forall|i: int| 0 <= i < rest.len() implies #[trigger] batch.contains(rest[i]) by {
            if i < before.len() {
                assert(rest[i] == before[i]);
                assert(head.contains(before[i]));
                let k = choose|k: int| 0 <= k < head.len() && head[k] == before[i];
                assert(batch[k] == rest[i]);
            } else {
                assert(batch[batch.len() - 1] == rest[i]);
            }
        }
        assert forall|i: int| 0 <= i < rest.len() implies rank((#[trigger] rest[i]).kind()) < top by {
            assert(batch.contains(rest[i]));
        }
    }
}

proof fn other_kinds_keep(batch: Seq<Request>, req: Request, x: Request)
    requires
        batch.contains(x),
        x.kind() != req.kind(),
    ensures
        other_kinds(batch, req).contains(x),
    decreases batch.len(),
{
    let k = choose|k: int| 0 <= k < batch.len() && batch[k] == x;
    let head = batch.drop_last();
    let before = other_kinds(head, req);
    let after = other_kinds(batch, req);
    if k < head.len() {
        assert(head[k] == x);
        other_kinds_keep(head, req, x);
        let m = choose|m: int| 0 <= m < before.len() && before[m] == x;
        assert(after[m] == x);
    } else {
        assert(after[after.len() - 1] == x);
    }
}

/// When requests pile up, the last of each kind wins: what is kept is, for
/// every kind in the batch, its newest request, in the order of the newest
/// ones. So the last request of all comes last.
pub proof fn newest_requests_win(batch: Seq<Request>)
    ensures
        ({
            let kept = coalesced(batch);
            &&& batch.len() > 0 ==> kept.len() > 0 && kept.last() == batch.last()
            &&& forall|i: int|
                #![trigger kept[i]]
                0 <= i < kept.len() ==> 0 <= newest(batch, kept[i].kind()) < batch.len() && batch[newest(
                    batch,
                    kept[i].kind(),
                )] == kept[i]
            &&& forall|i: int, j: int|
                #![trigger kept[i], kept[j]]
                0 <= i < j < kept.len() ==> newest(batch, kept[i].kind()) < newest(batch, kept[j].kind())
            &&& forall|p: int|
                #![trigger batch[p]]
                0 <= p < batch.len() ==> kept.contains(batch[newest(batch, batch[p].kind())])
        }),
    decreases batch.len(),
{
    if batch.len() > 0 {
        let head = batch.drop_last();
        let last = batch.last();
        newest_requests_win(head);
        let old_kept = coalesced(head);
        let rest = other_kinds(old_kept, last);
        let kept = coalesced(batch);
        let rank = |kind: int| newest(head, kind);
        assert forall|i: int| 0 <= i < old_kept.len() implies rank((#[trigger] old_kept[i]).kind()) < head.len() by {
            assert(newest(head, old_kept[i].kind()) < head.len());
        }
        other_kinds_in_order(old_kept, last, rank, head.len() as int);
        other_kinds_at(old_kept, last);
        assert forall|i: int|
            #![trigger kept[i]]
            0 <= i < kept.len() implies 0 <= newest(batch, kept[i].kind()) < batch.len() && batch[newest(
            batch,
            kept[i].kind(),
        )] == kept[i] by {
            if i < rest.len() {
                assert(kept[i] == rest[i]);
                assert(old_kept.contains(rest[i]));
                let k = choose|k: int| 0 <= k < old_kept.len() && old_kept[k] == rest[i];
                assert(old_kept[k] == rest[i]);
                assert(rest[i].kind() != last.kind());
            }
        }
        assert forall|i: int, j: int|
            #![trigger kept[i], kept[j]]
            0 <= i < j < kept.len() implies newest(batch, kept[i].kind()) < newest(batch, kept[j].kind()) by {
            assert(kept[i] == rest[i]);
            assert(rest[i].kind() != last.kind());
            assert(rank(rest[i].kind()) < head.len());
            if j < rest.len() {
                assert(kept[j] == rest[j]);
                assert(rest[j].kind() != last.kind());
                assert(rank(rest[i].kind()) < rank(rest[j].kind()));
            }
        }
        assert forall|p: int|
            #![trigger batch[p]]
            0 <= p < batch.len() implies kept.contains(batch[newest(batch, batch[p].kind())]) by {
            if batch[p].kind() == last.kind() {
                assert(kept[kept.len() - 1] == last);
            } else {
                assert(p < head.len());
                assert(head[p] == batch[p]);
                let at = newest(head, head[p].kind());
                assert(old_kept.contains(head[at]));
                newest_is(head, head[p].kind());
                other_kinds_keep(old_kept, last, head[at]);
                let m = choose|m: int| 0 <= m < rest.len() && rest[m] == head[at];
                assert(kept[m] == head[at]);
            }
        }
    }
}

proof fn newest_is(batch: Seq<Request>, kind: int)
    ensures
        -1 <= newest(batch, kind) < batch.len(),
        newest(batch, kind) >= 0 ==> batch[newest(batch, kind)].kind() == kind,
        newest(batch, kind) == -1 ==> forall|i: int| 0 <= i < batch.len() ==> (#[trigger] batch[i]).kind() != kind,
    decreases batch.len(),
{
    if batch.len() > 0 && batch.last().kind() != kind {
        newest_is(batch.drop_last(), kind);
        if newest(batch, kind) == -1 {
            assert forall|i: int| 0 <= i < batch.len() implies (#[trigger] batch[i]).kind() != kind by {
                if i < batch.len() - 1 {
                    assert(batch.drop_last()[i] == batch[i]);
                }
            }
        }
    }
}

/// `HH:MM:SS`, or dashes where the local time is not known.
pub open spec fn clock_text(time: Option<(u32, u32, u32)>) -> Seq<char> {
    match time {
        Some((hour, minute, second)) => dec2(hour as nat) + ":"@ + dec2(minute as nat) + ":"@ + dec2(
            second as nat,
        ),
        None => "--:--:--"@,
    }
}

/// A time of day has two digits each for hours, minutes and seconds, in this
/// order.
pub proof fn clocks_tell_the_hour_first(hour: u32, minute: u32, second: u32)
    requires
        hour < 100,
        minute < 100,
        second < 100,
    ensures
        ({
            let text = clock_text(Some((hour, minute, second)));
            &&& text.len() == 8
            &&& digits_value(text.take(2), 10) == Some(hour as nat)
            &&& text[2] == ':' && text[5] == ':'
            &&& digits_value(text.subrange(3, 5), 10) == Some(minute as nat)
            &&& digits_value(text.skip(6), 10) == Some(second as nat)
        }),
{
    reveal_strlit(":");
    two_digits_read_back(hour as nat);
    two_digits_read_back(minute as nat);
    two_digits_read_back(second as nat);
    let text = clock_text(Some((hour, minute, second)));
    assert(dec2(hour as nat).len() == 2 && dec2(minute as nat).len() == 2 && dec2(second as nat).len() == 2) by {
        reveal_with_fuel(dec, 2);
    }
    assert(text.take(2) =~= dec2(hour as nat));
    assert(text.subrange(3, 5) =~= dec2(minute as nat));
    assert(text.skip(6) =~= dec2(second as nat));
}

/// What is logged of a switch reads back as the switch, and the gains of a
/// curve are logged band by band.
pub proof fn requests_are_logged(on: bool, bands: Bands, n: nat)
    ensures
        switch_value(bool_text(on)) == Some(on),
        n > 0 ==> gains_text(bands, n + 1) == gains_text(bands, n) + ", "@ + signed_dec(bands@[n as int] as int),
        gains_text(bands, 1) == signed_dec(bands@[0] as int),
{
    switch_words_are_opposites();
}

/// A time of day (hour, minute, second) as `HH:MM:SS`.
pub fn format_clock(time: Option<(u32, u32, u32)>) -> (r: String)
    ensures
        r@ == clock_text(time),
{
    match time {
        Some((hour, minute, second)) => {
            let mut out = decimal2(hour as u64);
            out.append(":");
            out.append(decimal2(minute as u64).as_str());
            out.append(":");
            out.append(decimal2(second as u64).as_str());
            out
        },
        None => "--:--:--".to_owned(),
    }
}

} // verus!
