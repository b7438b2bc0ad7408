//! The tray: what it shows of the device, its menu, and when it notifies.

use crate::config::Notifications;
use crate::eq::HardwarePreset;
use crate::manager::{Phase, PhaseView, Request, Snapshot, SnapshotView};
use crate::text::same;
use crate::views::some_view;
use vstd::prelude::*;
use vstd::string::*;

verus! {

/// What the tray shows.
#[derive(Debug, PartialEq, Eq)]
pub struct TrayView {
    pub phase: Option<Phase>,
    pub name: String,
    pub battery: Option<u8>,
    pub charging: bool,
    pub preset: Option<HardwarePreset>,
    pub sidetone: Option<bool>,
}

pub struct Shown {
    pub phase: Option<PhaseView>,
    pub name: Seq<char>,
    pub battery: Option<u8>,
    pub charging: bool,
    pub preset: Option<HardwarePreset>,
    pub sidetone: Option<bool>,
}

impl View for TrayView {
    type V = Shown;

    open spec fn view(&self) -> Shown {
        Shown {
            phase: some_view(self.phase),
            name: self.name@,
            battery: self.battery,
            charging: self.charging,
            preset: self.preset,
            sidetone: self.sidetone,
        }
    }
}

impl Shown {
    pub open spec fn of(snap: SnapshotView) -> Shown {
        Shown {
            phase: Some(snap.phase),
            name: match snap.device {
                Some(device) => device.name,
                None => seq![],
            },
            battery: snap.state.battery,
            charging: snap.state.charging == Some(true),
            preset: snap.state.eq_preset,
            sidetone: snap.state.sidetone_enabled,
        }
    }

    pub open spec fn online(self) -> bool {
        self.phase matches Some(PhaseView::Ready)
    }
}

/// The words of the status line, in the user's language. `percent` is the
/// battery level in words.
pub struct StatusTexts<'a> {
    pub battery: &'a str,
    pub percent: &'a str,
    pub unknown: &'a str,
    pub charging: &'a str,
    pub offline: &'a str,
    pub permission: &'a str,
    pub connecting: &'a str,
    pub no_device: &'a str,
}

/// The status line.
pub open spec fn status_words(v: Shown, t: StatusTexts) -> Seq<char> {
    match v.phase {
        Some(PhaseView::Ready) => t.battery@ + ": "@ + (if v.battery is Some {
            t.percent@
        } else {
            t.unknown@
        }) + (if v.charging {
            " · "@ + t.charging@
        } else {
            seq![]
        }),
        Some(PhaseView::HeadsetOffline) => t.offline@,
        Some(PhaseView::PermissionDenied(_)) => t.permission@,
        Some(PhaseView::Connecting) => t.connecting@,
        Some(PhaseView::NoDevice) | None => t.no_device@,
    }
}

fn same_phase(a: &Option<Phase>, b: &Option<Phase>) -> (r: bool)
    ensures
        r == (some_view(*a) == some_view(*b)),
{
    match (a, b) {
        (None, None) => true,
        (Some(Phase::NoDevice), Some(Phase::NoDevice)) => true,
        (Some(Phase::Connecting), Some(Phase::Connecting)) => true,
        (Some(Phase::HeadsetOffline), Some(Phase::HeadsetOffline)) => true,
        (Some(Phase::Ready), Some(Phase::Ready)) => true,
        (Some(Phase::PermissionDenied(a)), Some(Phase::PermissionDenied(b))) => same(a.as_str(), b.as_str()),
        _ => false,
    }
}

fn same_preset(a: Option<HardwarePreset>, b: Option<HardwarePreset>) -> (r: bool)
    ensures
        r == (a == b),
{
    match (a, b) {
        (Some(a), Some(b)) => a == b,
        (None, None) => true,
        _ => false,
    }
}

impl TrayView {
    /// Nothing is known yet.
    pub fn empty() -> (r: Self)
        ensures
            r@ == (Shown {
                phase: None,
                name: seq![],
                battery: None,
                charging: false,
                preset: None,
                sidetone: None,
            }),
    {
        let name = String::new();
        assert(name@ =~= seq![]);
        TrayView { phase: None, name, battery: None, charging: false, preset: None, sidetone: None }
    }

    pub fn from_snapshot(snap: &Snapshot) -> (r: Self)
        ensures
            r@ == Shown::of(snap@),
    {
        let name = match &snap.device {
            Some(device) => device.name.to_owned(),
            None => {
                let none = String::new();
                assert(none@ =~= seq![]);
                none
            },
        };
        TrayView {
            phase: Some(snap.phase.clone()),
            name,
            battery: snap.state.battery,
            charging: snap.state.charging == Some(true),
            preset: snap.state.eq_preset,
            sidetone: snap.state.sidetone_enabled,
        }
    }

    pub fn online(&self) -> (r: bool)
        ensures
            r == self@.online(),
    {
        matches!(self.phase, Some(Phase::Ready))
    }

    /// Do both show the same? If so the tray needs no update.
    pub fn same_as(&self, other: &TrayView) -> (r: bool)
        ensures
            r == (self@ == other@),
    {
        same_phase(&self.phase, &other.phase) && same(self.name.as_str(), other.name.as_str()) && self.battery
            == other.battery && self.charging == other.charging && same_preset(self.preset, other.preset)
            && self.sidetone == other.sidetone
    }

    pub fn status_line(&self, t: &StatusTexts) -> (r: String)
        ensures
            r@ == status_words(self@, *t),
    {
        match &self.phase {
            Some(Phase::Ready) => {
                let mut out = t.battery.to_owned();
                out.append(": ");
                out.append(
                    if self.battery.is_some() {
                        t.percent
                    } else {
                        t.unknown
                    },
                );
                let ghost before = out@;
                if self.charging {
                    out.append(" · ");
                    out.append(t.charging);
                    assert(out@ =~= before + (" · "@ + t.charging@));
                } else {
                    assert(before + seq![] =~= before);
                }
                out
            },
            Some(Phase::HeadsetOffline) => t.offline.to_owned(),
            Some(Phase::PermissionDenied(_)) => t.permission.to_owned(),
            Some(Phase::Connecting) => t.connecting.to_owned(),
            Some(Phase::NoDevice) | None => t.no_device.to_owned(),
        }
    }

    /// Title of the tool tip: the device, or the program while none is known.
    pub fn title(&self) -> (r: String)
        ensures
            r@ == if self@.name.len() == 0 {
                "Synapse for Linux"@
            } else {
                self@.name
            },
            self@.name.len() > 0 ==> r@ == self@.name,
    {
        if self.name.as_str().is_empty() {
            "Synapse for Linux".to_owned()
        } else {
            self.name.clone()
        }
    }

    /// The request behind the sidetone item: switch it over; unknown counts
    /// as off.
    pub fn sidetone_request(&self) -> (r: Request)
        ensures
            r == Request::SetSidetone(self@.sidetone != Some(true)),
            self@.sidetone == Some(true) ==> r == Request::SetSidetone(false),
            self@.sidetone == Some(false) || self@.sidetone is None ==> r == Request::SetSidetone(true),
    {
        Request::SetSidetone(self.sidetone != Some(true))
    }

    /// The menu, from top to bottom.
    pub fn menu(&self) -> (r: Vec<MenuEntry>)
        ensures
            r@ == menu_entries(self@),
    {
        let mut items: Vec<MenuEntry> = Vec::new();
        items.push(MenuEntry::Open);
        items.push(MenuEntry::Separator);
        items.push(MenuEntry::Status);
        if self.online() {
            items.push(MenuEntry::Presets { selected: preset_position(self.preset) });
            items.push(MenuEntry::Sidetone { checked: self.sidetone == Some(true) });
        }
        items.push(MenuEntry::Separator);
        items.push(MenuEntry::Quit);
        assert(items@ =~= menu_entries(self@));
        items
    }
}

/// One item of the tray menu.
#[derive(Debug, Clone, Copy, PartialEq, Eq)]
pub enum MenuEntry {
    /// Open the main window.
    Open,
    Separator,
    /// The status line.
    Status,
    /// One choice per selectable preset; which one is active, if any.
    Presets { selected: Option<usize> },
    Sidetone { checked: bool },
    Quit,
}

/// Position of a preset among the selectable ones.
pub open spec fn position_of(preset: Option<HardwarePreset>) -> Option<usize> {
    match preset {
        Some(HardwarePreset::Music) => Some(0),
        Some(HardwarePreset::Game) => Some(1),
        Some(HardwarePreset::Movie) => Some(2),
        Some(HardwarePreset::Flat) => Some(3),
        Some(HardwarePreset::Custom) => Some(4),
        _ => None,
    }
}

fn preset_position(preset: Option<HardwarePreset>) -> (r: Option<usize>)
    ensures
        r == position_of(preset),
{
    match preset {
        Some(HardwarePreset::Music) => Some(0),
        Some(HardwarePreset::Game) => Some(1),
        Some(HardwarePreset::Movie) => Some(2),
        Some(HardwarePreset::Flat) => Some(3),
        Some(HardwarePreset::Custom) => Some(4),
        _ => None,
    }
}

/// The request behind the preset item at `index`.
pub fn preset_request(index: usize) -> (r: Option<Request>)
    ensures
        r == if index < 5 {
            Some(Request::SelectPreset(HardwarePreset::SELECTABLE@[index as int]))
        } else {
            None
        },
        r is Some <==> index < 5,
        r matches Some(Request::SelectPreset(preset)) ==> position_of(Some(preset)) == Some(index),
{
    let presets = HardwarePreset::SELECTABLE;
    if index < 5 {
        Some(Request::SelectPreset(presets[index]))
    } else {
        None
    }
}

/// Choosing the item of a preset asks for that preset.
pub proof fn items_select_their_preset(preset: HardwarePreset)
    ensures
        match position_of(Some(preset)) {
            Some(i) => i < 5 && HardwarePreset::SELECTABLE@[i as int] == preset,
            None => preset is Unknown,
        },
{
}

/// The menu: settings appear while the headset is there.
pub open spec fn menu_entries(v: Shown) -> Seq<MenuEntry> {
    seq![MenuEntry::Open, MenuEntry::Separator, MenuEntry::Status] + (if v.online() {
        seq![
            MenuEntry::Presets { selected: position_of(v.preset) },
            MenuEntry::Sidetone { checked: v.sidetone == Some(true) },
        ]
    } else {
        seq![]
    }) + seq![MenuEntry::Separator, MenuEntry::Quit]
}

/// A desktop notification.
#[derive(Debug, Clone, Copy, PartialEq, Eq)]
pub enum Notice {
    Connected,
    Disconnected,
    /// The battery is at this level.
    LowBattery(u8),
    FullCharge,
}

/// Decides when to show desktop notifications.
#[derive(Debug, Clone, Copy, PartialEq, Eq)]
pub struct Notifier {
    pub was_online: Option<bool>,
    pub low_warned: bool,
    pub full_notified: bool,
}

/// What a notifier goes by.
pub struct Condition {
    pub online: bool,
    pub battery: Option<u8>,
    pub charging: bool,
}

impl Condition {
    pub open spec fn of(snap: SnapshotView) -> Condition {
        Condition {
            online: snap.phase is Ready,
            battery: snap.state.battery,
            charging: snap.state.charging == Some(true),
        }
    }
}

impl Notifier {
    /// Has the battery recovered since it was low? It must be charging, or a
    /// bit above the threshold, so that a level at the limit warns once.
    pub open spec fn recovered(c: Condition, level: u8, threshold: u8) -> bool {
        c.charging || level > threshold + 5
    }

    pub open spec fn is_low(c: Condition, level: u8, threshold: u8) -> bool {
        threshold > 0 && !c.charging && level <= threshold
    }

    /// The notifier after it saw `c`.
    pub open spec fn after(self, c: Condition, p: Notifications) -> Notifier {
        match c.battery {
            Some(level) if c.online => {
                let warned = self.low_warned && !Self::recovered(c, level, p.low_battery_percent);
                Notifier {
                    was_online: Some(true),
                    low_warned: warned || (p.enabled && Self::is_low(c, level, p.low_battery_percent)),
                    full_notified: if c.charging {
                        self.full_notified || level >= 100
                    } else {
                        false
                    },
                }
            },
            _ => Notifier { was_online: Some(c.online), ..self },
        }
    }

    /// What it shows of the connection.
    pub open spec fn connection_notices(self, c: Condition, p: Notifications) -> Seq<Notice> {
        if self.was_online is Some && self.was_online != Some(c.online) && p.enabled && p.connection {
            seq![
                if c.online {
                    Notice::Connected
                } else {
                    Notice::Disconnected
                },
            ]
        } else {
            seq![]
        }
    }

    /// Is the low battery shown?
    pub open spec fn warns(self, c: Condition, p: Notifications) -> bool {
        match c.battery {
            Some(level) => c.online && p.enabled && Self::is_low(c, level, p.low_battery_percent) && !(
            self.low_warned && !Self::recovered(c, level, p.low_battery_percent)),
            None => false,
        }
    }

    /// Is the full charge shown?
    pub open spec fn reports_full(self, c: Condition, p: Notifications) -> bool {
        match c.battery {
            Some(level) => c.online && c.charging && level >= 100 && p.enabled && p.full_charge
                && !self.full_notified,
            None => false,
        }
    }

    /// What it shows.
    pub open spec fn notices(self, c: Condition, p: Notifications) -> Seq<Notice> {
        self.connection_notices(c, p) + (if self.warns(c, p) {
            seq![Notice::LowBattery(c.battery->0)]
        } else {
            seq![]
        }) + (if self.reports_full(c, p) {
            seq![Notice::FullCharge]
        } else {
            seq![]
        })
    }

    pub fn new() -> (r: Self)
        ensures
            r == (Notifier { was_online: None, low_warned: false, full_notified: false }),
    {
        Notifier { was_online: None, low_warned: false, full_notified: false }
    }

    /// Take note of a snapshot; returns what to show.
    pub fn update(&mut self, snap: &Snapshot, prefs: &Notifications) -> (r: Vec<Notice>)
        ensures
            r@ == old(self).notices(Condition::of(snap@), *prefs),
            *final(self) == old(self).after(Condition::of(snap@), *prefs),
    {
        let online = snap.is_ready();
        let mut notices: Vec<Notice> = Vec::new();
        let ghost c = Condition::of(snap@);
        if let Some(was) = self.was_online {
            if was != online && prefs.enabled && prefs.connection {
                notices.push(
                    if online {
                        Notice::Connected
                    } else {
                        Notice::Disconnected
                    },
                );
            }
        }
        assert(notices@ =~= old(self).connection_notices(c, *prefs));
        self.was_online = Some(online);
        if !online {
            assert(notices@ =~= old(self).notices(c, *prefs));
            return notices;
        }
        let level: u8 = match snap.state.battery {
            Some(level) => level,
            None => {
                assert(notices@ =~= old(self).notices(c, *prefs));
                return notices;
            },
        };
        let charging = snap.state.charging == Some(true);
        let threshold: u8 = prefs.low_battery_percent;
        if charging || level > threshold.saturating_add(5) {
            self.low_warned = false;
        }
        if prefs.enabled && threshold > 0 && !charging && level <= threshold && !self.low_warned {
            notices.push(Notice::LowBattery(level));
            self.low_warned = true;
        }
        if charging && level >= 100 {
            if prefs.enabled && prefs.full_charge && !self.full_notified {
                notices.push(Notice::FullCharge);
            }
            self.full_notified = true;
        } else if !charging {
            self.full_notified = false;
        }
        assert(notices@ =~= old(self).notices(c, *prefs));
        notices
    }
}

/// The low battery is shown once: after a warning, none follows until the
/// battery has recovered.
pub proof fn low_battery_warns_once(n: Notifier, first: Condition, next: Condition, p: Notifications)
    requires
        n.warns(first, p),
        next.battery matches Some(level) ==> !Notifier::recovered(next, level, p.low_battery_percent),
    ensures
        !n.after(first, p).warns(next, p),
        n.after(first, p).after(next, p).low_warned,
{
}

/// The full charge is shown once, until the headset runs on battery again.
pub proof fn full_charge_reports_once(n: Notifier, first: Condition, next: Condition, p: Notifications)
    requires
        n.reports_full(first, p),
        next.charging,
    ensures
        !n.after(first, p).reports_full(next, p),
        n.after(first, p).after(next, p).full_notified,
{
}

/// The battery warns at its limit and below, while the headset is there and
/// does not charge; a limit of zero never warns. It warns again only after the
/// level was more than five above the limit, or after charging.
pub proof fn low_battery_warns(n: Notifier, c: Condition, p: Notifications)
    ensures
        n.warns(c, p) ==> p.enabled && c.online && !c.charging && (c.battery matches Some(level) && level
            <= p.low_battery_percent) && p.low_battery_percent > 0,
        !n.low_warned && p.enabled && c.online && !c.charging && p.low_battery_percent > 0 && (c.battery matches Some(
            level,
        ) && level <= p.low_battery_percent) ==> n.warns(c, p) && n.after(c, p).low_warned,
        n.low_warned && c.online && (c.battery matches Some(level) && level > p.low_battery_percent + 5)
            ==> !n.after(c, p).low_warned,
        n.low_warned && c.online && c.charging && c.battery is Some ==> !n.after(c, p).low_warned,
        n.low_warned && c.online && !c.charging && (c.battery matches Some(level) && level <= p.low_battery_percent + 5)
            ==> n.after(c, p).low_warned && !n.warns(c, p),
{
}

/// A full charge is told at 100 percent on the charger, if that is wanted.
pub proof fn full_charge_is_told(n: Notifier, c: Condition, p: Notifications)
    ensures
        n.reports_full(c, p) <==> p.enabled && p.full_charge && c.online && c.charging && c.battery is Some && c.battery->0
            >= 100 && !n.full_notified,
        c.online && !c.charging && c.battery is Some ==> !n.after(c, p).full_notified,
{
}

/// Coming and going is told, if that is wanted, but not on first sight.
pub proof fn coming_and_going_is_told(n: Notifier, c: Condition, p: Notifications)
    ensures
        n.after(c, p).was_online == Some(c.online),
        n.was_online is None ==> n.connection_notices(c, p).len() == 0,
        n.was_online == Some(c.online) ==> n.connection_notices(c, p).len() == 0,
        !p.connection ==> n.connection_notices(c, p).len() == 0,
        p.enabled && p.connection && n.was_online == Some(false) && c.online ==> n.connection_notices(c, p) == seq![
            Notice::Connected,
        ],
        p.enabled && p.connection && n.was_online == Some(true) && !c.online ==> n.connection_notices(c, p) == seq![
            Notice::Disconnected,
        ],
{
}

/// What is shown at once: first that the headset came or went, then the low
/// battery with its level, then the full charge.
pub proof fn notices_come_in_order(n: Notifier, c: Condition, p: Notifications)
    ensures
        n.warns(c, p) ==> n.notices(c, p).contains(Notice::LowBattery(c.battery->0)),
        n.reports_full(c, p) ==> n.notices(c, p).contains(Notice::FullCharge),
        !n.warns(c, p) && !n.reports_full(c, p) ==> n.notices(c, p) == n.connection_notices(c, p),
        !(n.warns(c, p) && n.reports_full(c, p)),
{
    let first = n.connection_notices(c, p);
    let all = n.notices(c, p);
    if n.warns(c, p) {
        assert(all[first.len() as int] == Notice::LowBattery(c.battery->0));
    } else if n.reports_full(c, p) {
        assert(all[first.len() as int] == Notice::FullCharge);
    } else {
        assert(all =~= first);
    }
}

/// The tray shows battery, charging, preset and sidetone of the picture, and
/// the device's name; its notifier goes by the same.
pub proof fn tray_shows_the_picture(snap: SnapshotView)
    ensures
        ({
            let v = Shown::of(snap);
            &&& v.online() <==> snap.phase is Ready
            &&& v.battery == snap.state.battery
            &&& v.charging <==> snap.state.charging == Some(true)
            &&& v.preset == snap.state.eq_preset
            &&& v.sidetone == snap.state.sidetone_enabled
            &&& snap.device matches Some(device) ==> v.name == device.name
            &&& snap.device is None ==> v.name.len() == 0
            &&& Condition::of(snap).online <==> v.online()
            &&& Condition::of(snap).battery == v.battery
            &&& Condition::of(snap).charging == v.charging
        }),
{
}

/// The menu always opens the window and quits; presets and sidetone are there
/// exactly while the headset is, marked as they are.
pub proof fn menu_offers_what_can_be_set(v: Shown)
    ensures
        ({
            let menu = menu_entries(v);
            &&& menu[0] == MenuEntry::Open && menu[2] == MenuEntry::Status && menu.last() == MenuEntry::Quit
            &&& v.online() ==> menu.len() == 7 && (menu[3] matches MenuEntry::Presets { selected } && selected
                == position_of(v.preset)) && (menu[4] matches MenuEntry::Sidetone { checked } && (checked <==> v.sidetone
                == Some(true)))
            &&& !v.online() ==> menu.len() == 5 && forall|i: int|
                0 <= i < 5 ==> !((#[trigger] menu[i]) is Presets) && !(menu[i] is Sidetone)
        }),
{
}

/// The status line tells the battery of a headset that is there, and else why
/// there is none.
pub proof fn status_line_tells(v: Shown, t: StatusTexts)
    ensures
        v.online() && v.battery is Some && v.charging ==> status_words(v, t) == t.battery@ + ": "@ + t.percent@ + (
        " · "@ + t.charging@),
        v.online() && v.battery is Some && !v.charging ==> status_words(v, t) == t.battery@ + ": "@ + t.percent@,
        v.online() && v.battery is None && !v.charging ==> status_words(v, t) == t.battery@ + ": "@ + t.unknown@,
        v.phase == Some(PhaseView::HeadsetOffline) ==> status_words(v, t) == t.offline@,
        v.phase == Some(PhaseView::Connecting) ==> status_words(v, t) == t.connecting@,
        v.phase == Some(PhaseView::NoDevice) || v.phase is None ==> status_words(v, t) == t.no_device@,
        v.phase matches Some(PhaseView::PermissionDenied(_)) ==> status_words(v, t) == t.permission@,
{
    let head = t.battery@ + ": "@;
    assert(head + t.percent@ + Seq::<char>::empty() =~= head + t.percent@);
    assert(head + t.unknown@ + Seq::<char>::empty() =~= head + t.unknown@);
}

/// The first item selects music, then game, movie, flat and the user's curve.
pub proof fn presets_are_offered_in_order(preset: HardwarePreset)
    ensures
        position_of(Some(preset)) == Some(0usize) <==> preset is Music,
        position_of(Some(preset)) == Some(1usize) <==> preset is Game,
        position_of(Some(preset)) == Some(2usize) <==> preset is Movie,
        position_of(Some(preset)) == Some(3usize) <==> preset is Flat,
        position_of(Some(preset)) == Some(4usize) <==> preset is Custom,
        position_of(None) is None,
{
}

/// With notifications switched off nothing is shown.
pub proof fn switched_off_is_silent(n: Notifier, c: Condition, p: Notifications)
    requires
        !p.enabled,
    ensures
        n.notices(c, p) == Seq::<Notice>::empty(),
{
    assert(n.notices(c, p) =~= Seq::<Notice>::empty());
}

} // verus!
