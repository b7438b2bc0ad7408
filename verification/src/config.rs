//! User configuration.
//!
//! Device settings themselves live in the headset; this only keeps
//! application preferences and the user's saved EQ curves.

use crate::eq::{clamp_bands, clamped, clamped_at, clamping_is_idempotent, in_range, Bands};
use crate::text::{
    begins_with, eq_ignore_case, is_space, lowered, same_ignoring_case, starts_with, to_lower, trim, trimmed,
    trimmed_end, trimmed_start,
};
use vstd::prelude::*;
use vstd::string::*;

verus! {

#[derive(Debug, Clone, Copy, PartialEq, Eq, Structural)]
pub enum Language {
    /// Follow the system locale.
    Auto,
    Tr,
    En,
}

/// The first variable at or after `from` that is set to something.
pub open spec fn first_set(vars: Seq<Option<String>>, from: nat) -> Seq<char>
    decreases vars.len() - from,
{
    if from >= vars.len() {
        seq![]
    } else {
        match vars[from as int] {
            Some(text) if text@.len() > 0 => text@,
            _ => first_set(vars, from + 1),
        }
    }
}

/// The first variable that says something counts; unset and empty ones are
/// passed over.
pub proof fn first_variable_counts(vars: Seq<Option<String>>, i: int)
    requires
        0 <= i < vars.len(),
        vars[i] matches Some(text) && text@.len() > 0,
        forall|j: int| 0 <= j < i ==> (#[trigger] vars[j] matches Some(text) ==> text@.len() == 0),
    ensures
        first_set(vars, 0) == vars[i]->0@,
{
    variables_are_passed_over(vars, i, 0);
}

proof fn variables_are_passed_over(vars: Seq<Option<String>>, i: int, from: nat)
    requires
        from <= i < vars.len(),
        vars[i] matches Some(text) && text@.len() > 0,
        forall|j: int| 0 <= j < i ==> (#[trigger] vars[j] matches Some(text) ==> text@.len() == 0),
    ensures
        first_set(vars, from) == vars[i]->0@,
    decreases i - from,
{
    if from < i {
        assert(vars[from as int] matches Some(text) ==> text@.len() == 0);
        variables_are_passed_over(vars, i, from + 1);
    }
}

fn locale_of(vars: &Vec<Option<String>>) -> (r: String)
    ensures
        r@ == first_set(vars@, 0),
{
    let mut i: usize = 0;
    while i < vars.len()
        invariant
            i <= vars@.len(),
            first_set(vars@, 0) == first_set(vars@, i as nat),
        decreases vars@.len() - i,
    {
        if let Some(text) = &vars[i] {
            if !text.as_str().is_empty() {
                return text.clone();
            }
        }
        i += 1;
    }
    let none = String::new();
    assert(none@ =~= seq![]);
    none
}

impl Language {
    /// Resolve `Auto` from the environment: `vars` are the values of
    /// `LANGUAGE`, `LC_ALL`, `LC_MESSAGES` and `LANG`, in this order.
    pub fn resolve(self, vars: &Vec<Option<String>>) -> (r: Language)
        ensures
            r == match self {
                Language::Auto => if begins_with(lowered(first_set(vars@, 0)), "tr"@) {
                    Language::Tr
                } else {
                    Language::En
                },
                other => other,
            },
            !(r is Auto),
            self is Tr ==> r is Tr,
            self is En ==> r is En,
    {
        match self {
            Language::Auto => {
                let locale = locale_of(vars);
                let low = to_lower(locale.as_str());
                if starts_with(low.as_str(), "tr") {
                    Language::Tr
                } else {
                    Language::En
                }
            },
            other => other,
        }
    }
}

#[derive(Debug, Clone, Copy, PartialEq, Eq, Structural)]
pub struct Notifications {
    pub enabled: bool,
    /// Warn once when the battery drops to this level (percent, 0 = never).
    pub low_battery_percent: u8,
    pub full_charge: bool,
    /// Notify when the headset connects / disconnects.
    pub connection: bool,
}

impl Notifications {
    pub open spec fn initial() -> Notifications {
        Notifications { enabled: true, low_battery_percent: 20, full_charge: true, connection: false }
    }
}

impl Default for Notifications {
    fn default() -> (r: Self)
        ensures
            r == Notifications::initial(),
    {
        Notifications { enabled: true, low_battery_percent: 20, full_charge: true, connection: false }
    }
}

#[derive(Debug, PartialEq, Eq)]
pub struct UserPreset {
    pub name: String,
    pub bands: Bands,
}

pub struct PresetView {
    pub name: Seq<char>,
    pub bands: Bands,
}

impl View for UserPreset {
    type V = PresetView;

    open spec fn view(&self) -> PresetView {
        PresetView { name: self.name@, bands: self.bands }
    }
}

impl Clone for UserPreset {
    fn clone(&self) -> (r: Self)
        ensures
            r@ == self@,
    {
        UserPreset { name: self.name.clone(), bands: self.bands }
    }
}

pub open spec fn preset_views(presets: Seq<UserPreset>) -> Seq<PresetView> {
    presets.map_values(|p: UserPreset| p@)
}

#[derive(Debug, PartialEq, Eq)]
pub struct Config {
    pub language: Language,
    /// Seconds between status polls in the tray.
    pub tray_poll_seconds: u64,
    /// Last curve written to the custom slot (restored in the editor).
    pub last_custom_curve: Option<Bands>,
    pub notifications: Notifications,
    pub user_presets: Vec<UserPreset>,
}

#[verifier::ext_equal]
pub struct ConfigView {
    pub language: Language,
    pub tray_poll_seconds: u64,
    pub last_custom_curve: Option<Bands>,
    pub notifications: Notifications,
    pub user_presets: Seq<PresetView>,
}

impl View for Config {
    type V = ConfigView;

    open spec fn view(&self) -> ConfigView {
        ConfigView {
            language: self.language,
            tray_poll_seconds: self.tray_poll_seconds,
            last_custom_curve: self.last_custom_curve,
            notifications: self.notifications,
            user_presets: preset_views(self.user_presets@),
        }
    }
}

/// A preset as it is kept: the curve in range, the name without blanks
/// around it.
pub open spec fn tidy(p: PresetView) -> PresetView {
    PresetView { name: trimmed(p.name), bands: clamped(p.bands) }
}

/// The presets tidied up; one without a name is dropped.
pub open spec fn tidied(presets: Seq<PresetView>) -> Seq<PresetView>
    decreases presets.len(),
{
    if presets.len() == 0 {
        seq![]
    } else {
        let before = tidied(presets.drop_last());
        let p = tidy(presets.last());
        if p.name.len() == 0 {
            before
        } else {
            before.push(p)
        }
    }
}

/// Does a preset go by this name? Blanks around the name and the case of
/// ASCII letters do not matter.
pub open spec fn goes_by(p: PresetView, name: Seq<char>) -> bool {
    same_ignoring_case(p.name, trimmed(name))
}

/// Index of the first preset at or after `from` that goes by `name`; the
/// length if there is none.
pub open spec fn preset_index(presets: Seq<PresetView>, name: Seq<char>, from: nat) -> nat
    decreases presets.len() - from,
{
    if from >= presets.len() {
        presets.len()
    } else if goes_by(presets[from as int], name) {
        from
    } else {
        preset_index(presets, name, from + 1)
    }
}

/// The presets that do not go by `name`.
pub open spec fn others(presets: Seq<PresetView>, name: Seq<char>) -> Seq<PresetView>
    decreases presets.len(),
{
    if presets.len() == 0 {
        seq![]
    } else if goes_by(presets.last(), name) {
        others(presets.drop_last(), name)
    } else {
        others(presets.drop_last(), name).push(presets.last())
    }
}

impl ConfigView {
    pub open spec fn initial() -> ConfigView {
        ConfigView {
            language: Language::Auto,
            tray_poll_seconds: 30,
            last_custom_curve: None,
            notifications: Notifications::initial(),
            user_presets: seq![],
        }
    }

    /// Is every value within its limits?
    pub open spec fn sane(self) -> bool {
        &&& 5 <= self.tray_poll_seconds <= 3600
        &&& self.notifications.low_battery_percent <= 100
        &&& self.last_custom_curve matches Some(curve) ==> in_range(curve)
        &&& forall|i: int|
            #![trigger self.user_presets[i]]
            0 <= i < self.user_presets.len() ==> in_range(self.user_presets[i].bands)
                && self.user_presets[i].name.len() > 0 && trimmed(self.user_presets[i].name)
                == self.user_presets[i].name
    }

    /// No two presets go by the same name.
    pub open spec fn distinct(self) -> bool {
        forall|i: int, j: int|
            #![trigger self.user_presets[i], self.user_presets[j]]
            0 <= i < j < self.user_presets.len() ==> !same_ignoring_case(
                self.user_presets[i].name,
                self.user_presets[j].name,
            )
    }

    /// Every value brought within its limits.
    pub open spec fn sanitized(self) -> ConfigView {
        ConfigView {
            language: self.language,
            tray_poll_seconds: if self.tray_poll_seconds < 5 {
                5
            } else if self.tray_poll_seconds > 3600 {
                3600
            } else {
                self.tray_poll_seconds
            },
            last_custom_curve: match self.last_custom_curve {
                Some(curve) => Some(clamped(curve)),
                None => None,
            },
            notifications: Notifications {
                low_battery_percent: if self.notifications.low_battery_percent > 100 {
                    100
                } else {
                    self.notifications.low_battery_percent
                },
                ..self.notifications
            },
            user_presets: tidied(self.user_presets),
        }
    }

    /// With a saved curve added or replaced; nothing changes for an empty
    /// name.
    pub open spec fn with_preset(self, name: Seq<char>, bands: Bands) -> ConfigView {
        let at = preset_index(self.user_presets, name, 0) as int;
        if trimmed(name).len() == 0 {
            self
        } else if at < self.user_presets.len() {
            ConfigView {
                user_presets: self.user_presets.update(
                    at,
                    PresetView { bands: clamped(bands), ..self.user_presets[at] },
                ),
                ..self
            }
        } else {
            ConfigView {
                user_presets: self.user_presets.push(
                    PresetView { name: trimmed(name), bands: clamped(bands) },
                ),
                ..self
            }
        }
    }

    pub open spec fn without_preset(self, name: Seq<char>) -> ConfigView {
        ConfigView { user_presets: others(self.user_presets, name), ..self }
    }
}

impl Default for Config {
    fn default() -> (r: Self)
        ensures
            r@ == ConfigView::initial(),
    {
        let r = Config {
            language: Language::Auto,
            tray_poll_seconds: 30,
            last_custom_curve: None,
            notifications: Notifications::default(),
            user_presets: Vec::new(),
        };
        assert(r@ =~= ConfigView::initial());
        r
    }
}

impl Clone for Config {
    fn clone(&self) -> (r: Self)
        ensures
            r@ == self@,
    {
        let mut user_presets: Vec<UserPreset> = Vec::new();
        let mut i: usize = 0;
        while i < self.user_presets.len()
            invariant
                i <= self.user_presets@.len(),
                preset_views(user_presets@) == preset_views(self.user_presets@).take(i as int),
            decreases self.user_presets@.len() - i,
        {
            let ghost before = preset_views(user_presets@);
            let p = self.user_presets[i].clone();
            let ghost view = p@;
            user_presets.push(p);
            i += 1;
            assert(preset_views(user_presets@) =~= before.push(view));
            assert(before.push(view) =~= preset_views(self.user_presets@).take(i as int));
        }
        let r = Config {
            language: self.language,
            tray_poll_seconds: self.tray_poll_seconds,
            last_custom_curve: self.last_custom_curve,
            notifications: self.notifications,
            user_presets,
        };
        assert(r@ =~= self@);
        r
    }
}

impl Config {
    /// The configuration to use, given what the configuration file holds;
    /// a missing or broken file gives the defaults.
    pub fn loaded(file: Option<Config>) -> (r: Config)
        ensures
            r@ == match file {
                Some(config) => config@.sanitized(),
                None => ConfigView::initial(),
            },
    {
        match file {
            Some(config) => {
                let mut config = config;
                config.sanitize();
                config
            },
            None => Config::default(),
        }
    }

    pub fn sanitize(&mut self)
        ensures
            final(self)@ == old(self)@.sanitized(),
    {
        if self.tray_poll_seconds < 5 {
            self.tray_poll_seconds = 5;
        } else if self.tray_poll_seconds > 3600 {
            self.tray_poll_seconds = 3600;
        }
        if self.notifications.low_battery_percent > 100 {
            self.notifications.low_battery_percent = 100;
        }
        self.last_custom_curve = match self.last_custom_curve {
            Some(curve) => Some(clamp_bands(curve)),
            None => None,
        };
        let ghost all = preset_views(self.user_presets@);
        let mut kept: Vec<UserPreset> = Vec::new();
        let mut i: usize = 0;
        assert(preset_views(kept@) =~= tidied(all.take(0)));
        while i < self.user_presets.len()
            invariant
                i <= self.user_presets@.len(),
                all == preset_views(self.user_presets@),
                preset_views(kept@) == tidied(all.take(i as int)),
            decreases self.user_presets@.len() - i,
        {
            let ghost before = preset_views(kept@);
            proof {
                assert(all.take(i + 1).drop_last() =~= all.take(i as int));
                assert(all.take(i + 1).last() == self.user_presets@[i as int]@);
            }
            let name = trim(self.user_presets[i].name.as_str());
            let bands = clamp_bands(self.user_presets[i].bands);
            if !name.as_str().is_empty() {
                let p = UserPreset { name, bands };
                let ghost view = p@;
                kept.push(p);
                assert(preset_views(kept@) =~= before.push(view));
            }
            i += 1;
        }
        assert(all.take(i as int) =~= all);
        self.user_presets = kept;
        assert(self@ =~= old(self)@.sanitized());
    }

    fn index_of(&self, name: &str) -> (r: usize)
        ensures
            r == preset_index(self@.user_presets, name@, 0),
            r <= self.user_presets@.len(),
    {
        let wanted = trim(name);
        let mut i: usize = 0;
        while i < self.user_presets.len()
            invariant
                i <= self.user_presets@.len(),
                wanted@ == trimmed(name@),
                preset_index(self@.user_presets, name@, 0) == preset_index(self@.user_presets, name@, i as nat),
            decreases self.user_presets@.len() - i,
        {
            assert(self@.user_presets[i as int] == self.user_presets@[i as int]@);
            if eq_ignore_case(self.user_presets[i].name.as_str(), wanted.as_str()) {
                return i;
            }
            i += 1;
        }
        i
    }

    pub fn find_preset(&self, name: &str) -> (r: Option<&UserPreset>)
        ensures
            ({
                let at = preset_index(self@.user_presets, name@, 0) as int;
                match r {
                    Some(p) => at < self@.user_presets.len() && p@ == self@.user_presets[at],
                    None => at == self@.user_presets.len(),
                }
            }),
    {
        let at: usize = self.index_of(name);
        if at < self.user_presets.len() {
            Some(&self.user_presets[at])
        } else {
            None
        }
    }

    /// Add or replace a saved curve. Returns false for an empty name.
    pub fn upsert_preset(&mut self, name: &str, bands: Bands) -> (r: bool)
        ensures
            r == (trimmed(name@).len() > 0),
            final(self)@ == old(self)@.with_preset(name@, bands),
    {
        let wanted = trim(name);
        if wanted.as_str().is_empty() {
            return false;
        }
        let curve = clamp_bands(bands);
        let at: usize = self.index_of(name);
        if at < self.user_presets.len() {
            let kept = self.user_presets[at].name.clone();
            self.user_presets.set(at, UserPreset { name: kept, bands: curve });
        } else {
            self.user_presets.push(UserPreset { name: wanted, bands: curve });
        }
        assert(self@ =~= old(self)@.with_preset(name@, bands));
        true
    }

    /// Forget a saved curve. Returns false if there was none.
    pub fn remove_preset(&mut self, name: &str) -> (r: bool)
        ensures
            final(self)@ == old(self)@.without_preset(name@),
            r == (final(self)@.user_presets.len() != old(self)@.user_presets.len()),
    {
        let wanted = trim(name);
        let ghost all = preset_views(self.user_presets@);
        let mut kept: Vec<UserPreset> = Vec::new();
        let mut i: usize = 0;
        assert(preset_views(kept@) =~= others(all.take(0), name@));
        while i < self.user_presets.len()
            invariant
                i <= self.user_presets@.len(),
                wanted@ == trimmed(name@),
                all == preset_views(self.user_presets@),
                preset_views(kept@) == others(all.take(i as int), name@),
            decreases self.user_presets@.len() - i,
        {
            let ghost before = preset_views(kept@);
            proof {
                assert(all.take(i + 1).drop_last() =~= all.take(i as int));
                assert(all.take(i + 1).last() == self.user_presets@[i as int]@);
            }
            if !eq_ignore_case(self.user_presets[i].name.as_str(), wanted.as_str()) {
                let p = self.user_presets[i].clone();
                let ghost view = p@;
                kept.push(p);
                assert(preset_views(kept@) =~= before.push(view));
            }
            i += 1;
        }
        assert(all.take(i as int) =~= all);
        let removed = kept.len() != self.user_presets.len();
        self.user_presets = kept;
        assert(self@ =~= old(self)@.without_preset(name@));
        removed
    }
}

proof fn trimmed_start_shape(s: Seq<char>)
    ensures
        trimmed_start(s).len() <= s.len(),
        trimmed_start(s).len() > 0 ==> !is_space(trimmed_start(s)[0]),
    decreases s.len(),
{
    if s.len() > 0 && is_space(s[0]) {
        trimmed_start_shape(s.skip(1));
    }
}

proof fn trimmed_end_shape(s: Seq<char>)
    ensures
        trimmed_end(s).len() <= s.len(),
        trimmed_end(s) == s.take(trimmed_end(s).len() as int),
        trimmed_end(s).len() > 0 ==> !is_space(trimmed_end(s).last()),
    decreases s.len(),
{
    if s.len() > 0 && is_space(s.last()) {
        trimmed_end_shape(s.drop_last());
        let n = trimmed_end(s).len() as int;
        assert(s.drop_last().take(n) =~= s.take(n));
    } else {
        assert(s.take(s.len() as int) =~= s);
    }
}

/// Trimming is done once.
pub proof fn trimming_is_idempotent(s: Seq<char>)
    ensures
        trimmed(trimmed(s)) == trimmed(s),
{
    let a = trimmed_start(s);
    trimmed_start_shape(s);
    trimmed_end_shape(a);
    let t = trimmed(s);
    if t.len() > 0 {
        assert(t[0] == a[0]);
        assert(trimmed_start(t) == t);
        assert(trimmed_end(t) == t);
    }
}

proof fn tidied_presets(presets: Seq<PresetView>)
    ensures
        forall|i: int|
            #![trigger tidied(presets)[i]]
            0 <= i < tidied(presets).len() ==> in_range(tidied(presets)[i].bands) && tidied(presets)[i].name.len()
                > 0 && trimmed(tidied(presets)[i].name) == tidied(presets)[i].name,
    decreases presets.len(),
{
    if presets.len() > 0 {
        tidied_presets(presets.drop_last());
        trimming_is_idempotent(presets.last().name);
        clamping_is_idempotent(presets.last().bands);
        let before = tidied(presets.drop_last());
        assert forall|i: int|
            #![trigger tidied(presets)[i]]
            0 <= i < tidied(presets).len() implies in_range(tidied(presets)[i].bands)
            && tidied(presets)[i].name.len() > 0 && trimmed(tidied(presets)[i].name)
            == tidied(presets)[i].name by {
            if i < before.len() {
                assert(tidied(presets)[i] == before[i]);
            }
        }
    }
}

proof fn tidy_presets_stay(presets: Seq<PresetView>)
    requires
        forall|i: int|
            #![trigger presets[i]]
            0 <= i < presets.len() ==> in_range(presets[i].bands) && presets[i].name.len() > 0 && trimmed(
                presets[i].name,
            ) == presets[i].name,
    ensures
        tidied(presets) == presets,
    decreases presets.len(),
{
    if presets.len() > 0 {
        let rest = presets.drop_last();
        assert forall|i: int|
            #![trigger rest[i]]
            0 <= i < rest.len() implies in_range(rest[i].bands) && rest[i].name.len() > 0 && trimmed(rest[i].name)
            == rest[i].name by {
            assert(rest[i] == presets[i]);
        }
        tidy_presets_stay(rest);
        assert(presets[presets.len() - 1] == presets.last());
        clamping_is_idempotent(presets.last().bands);
        assert(rest.push(presets.last()) =~= presets);
    } else {
        assert(presets =~= seq![]);
    }
}

/// What is loaded is within its limits, and a configuration that is keeps
/// all its values.
pub proof fn sanitizing_is_idempotent(c: ConfigView)
    ensures
        c.sanitized().sane(),
        c.sane() ==> c.sanitized() == c,
        c.sanitized().sanitized() == c.sanitized(),
        ConfigView::initial().sane(),
{
    tidied_presets(c.user_presets);
    match c.last_custom_curve {
        Some(curve) => clamping_is_idempotent(curve),
        None => {},
    }
    assert(c.sanitized().sane());
    sane_stays(c.sanitized());
    if c.sane() {
        sane_stays(c);
    }
}

proof fn sane_stays(c: ConfigView)
    requires
        c.sane(),
    ensures
        c.sanitized() == c,
{
    tidy_presets_stay(c.user_presets);
    match c.last_custom_curve {
        Some(curve) => clamping_is_idempotent(curve),
        None => {},
    }
}

/// What is loaded keeps every value that is within its limits, and brings any
/// other to the nearest limit: 5 to 3600 seconds, 0 to 100 percent, -9 to 6 dB.
pub proof fn limits_are_kept(c: ConfigView)
    ensures
        ({
            let after = c.sanitized();
            &&& c.tray_poll_seconds < 5 ==> after.tray_poll_seconds == 5
            &&& 5 <= c.tray_poll_seconds <= 3600 ==> after.tray_poll_seconds == c.tray_poll_seconds
            &&& c.tray_poll_seconds > 3600 ==> after.tray_poll_seconds == 3600
            &&& c.notifications.low_battery_percent <= 100 ==> after.notifications == c.notifications
            &&& c.notifications.low_battery_percent > 100 ==> after.notifications.low_battery_percent == 100
            &&& after.notifications.enabled == c.notifications.enabled
            &&& after.notifications.full_charge == c.notifications.full_charge
            &&& after.notifications.connection == c.notifications.connection
            &&& after.language == c.language
            &&& c.last_custom_curve is None <==> after.last_custom_curve is None
            &&& c.last_custom_curve matches Some(curve) ==> after.last_custom_curve is Some && forall|i: int|
                0 <= i < 10 ==> -9 <= #[trigger] after.last_custom_curve->0@[i] <= 6 && (-9 <= curve@[i] <= 6
                    ==> after.last_custom_curve->0@[i] == curve@[i])
        }),
{
    match c.last_custom_curve {
        Some(curve) => clamped_at(curve),
        None => {},
    }
}

/// Without a file: the system's language, a poll every 30 seconds, a warning
/// at 20 percent and one at full charge, none on connecting, no saved curves.
pub proof fn defaults_are_set()
    ensures
        ({
            let c = ConfigView::initial();
            &&& c.language is Auto
            &&& c.tray_poll_seconds == 30
            &&& c.notifications.enabled && c.notifications.full_charge && !c.notifications.connection
            &&& c.notifications.low_battery_percent == 20
            &&& c.last_custom_curve is None
            &&& c.user_presets.len() == 0
        }),
{
}

/// The first variable that is set and not empty is the locale.
pub proof fn first_setting_counts(vars: Seq<Option<String>>, from: nat, i: int)
    requires
        from <= i < vars.len(),
        vars[i] matches Some(text) && text@.len() > 0,
        forall|j: int| from <= j < i ==> ((#[trigger] vars[j]) matches Some(text) ==> text@.len() == 0),
    ensures
        first_set(vars, from) == vars[i]->0@,
    decreases i - from,
{
    if from < i {
        assert(vars[from as int] matches Some(text) ==> text@.len() == 0);
        first_setting_counts(vars, from + 1, i);
    }
}

/// A saved curve is kept under its name as it was given, without the blanks
/// around it; saving it again replaces the curve and keeps the name.
pub proof fn saved_names_are_kept(c: ConfigView, name: Seq<char>, bands: Bands)
    requires
        trimmed(name).len() > 0,
    ensures
        ({
            let at = preset_index(c.user_presets, name, 0) as int;
            let after = c.with_preset(name, bands);
            &&& at < c.user_presets.len() ==> after.user_presets.len() == c.user_presets.len()
                && after.user_presets[at].name == c.user_presets[at].name
            &&& at == c.user_presets.len() ==> after.user_presets.len() == c.user_presets.len() + 1
                && after.user_presets.last().name == trimmed(name)
            &&& after.language == c.language && after.notifications == c.notifications
            &&& after.tray_poll_seconds == c.tray_poll_seconds && after.last_custom_curve == c.last_custom_curve
        }),
        c.with_preset(Seq::empty(), bands) == c,
{
    preset_index_bounds(c.user_presets, name, 0);
}

pub proof fn preset_index_bounds(presets: Seq<PresetView>, name: Seq<char>, from: nat)
    requires
        from <= presets.len(),
    ensures
        from <= preset_index(presets, name, from) <= presets.len(),
        preset_index(presets, name, from) < presets.len() ==> goes_by(
            presets[preset_index(presets, name, from) as int],
            name,
        ),
        forall|i: int| from <= i < preset_index(presets, name, from) ==> !goes_by(#[trigger] presets[i], name),
    decreases presets.len() - from,
{
    if from < presets.len() && !goes_by(presets[from as int], name) {
        preset_index_bounds(presets, name, from + 1);
    }
}

proof fn preset_index_is(presets: Seq<PresetView>, name: Seq<char>, from: nat, at: nat)
    requires
        from <= at <= presets.len(),
        at < presets.len() ==> goes_by(presets[at as int], name),
        forall|i: int| from <= i < at ==> !goes_by(#[trigger] presets[i], name),
    ensures
        preset_index(presets, name, from) == at,
    decreases at - from,
{
    if from < at {
        preset_index_is(presets, name, from + 1, at);
    }
}

/// A curve that was saved is found again under its name, clamped to the
/// hardware range; the other presets stay as they were, and saving keeps
/// the configuration sane and its names distinct.
pub proof fn saved_presets_are_found(c: ConfigView, name: Seq<char>, bands: Bands)
    requires
        trimmed(name).len() > 0,
    ensures
        ({
            let after = c.with_preset(name, bands);
            let at = preset_index(after.user_presets, name, 0) as int;
            &&& at < after.user_presets.len()
            &&& after.user_presets[at].bands == clamped(bands)
            &&& forall|i: int|
                #![trigger after.user_presets[i]]
                0 <= i < c.user_presets.len() && i != at ==> after.user_presets[i] == c.user_presets[i]
            &&& c.sane() ==> after.sane()
            &&& c.distinct() ==> after.distinct()
        }),
{
    let after = c.with_preset(name, bands);
    let at = preset_index(c.user_presets, name, 0);
    preset_index_bounds(c.user_presets, name, 0);
    trimming_is_idempotent(name);
    clamping_is_idempotent(bands);
    assert forall|i: int| 0 <= i < at implies !goes_by(#[trigger] after.user_presets[i], name) by {
        assert(after.user_presets[i] == c.user_presets[i]);
    }
    preset_index_is(after.user_presets, name, 0, at);
    if c.distinct() {
        assert forall|i: int, j: int|
            #![trigger after.user_presets[i], after.user_presets[j]]
            0 <= i < j < after.user_presets.len() implies !same_ignoring_case(
            after.user_presets[i].name,
            after.user_presets[j].name,
        ) by {
            if j < c.user_presets.len() {
                assert(!same_ignoring_case(c.user_presets[i].name, c.user_presets[j].name));
            } else {
                assert(!goes_by(c.user_presets[i], name));
            }
        }
    }
}

proof fn others_go_by_other_names(presets: Seq<PresetView>, name: Seq<char>)
    ensures
        forall|i: int| 0 <= i < others(presets, name).len() ==> !goes_by(#[trigger] others(presets, name)[i], name),
        others(presets, name).len() <= presets.len(),
        (others(presets, name).len() == presets.len()) == (forall|i: int|
            0 <= i < presets.len() ==> !goes_by(#[trigger] presets[i], name)),
    decreases presets.len(),
{
    if presets.len() > 0 {
        let rest = presets.drop_last();
        others_go_by_other_names(rest, name);
        assert(presets[presets.len() - 1] == presets.last());
        if forall|i: int| 0 <= i < presets.len() ==> !goes_by(#[trigger] presets[i], name) {
            assert forall|i: int| 0 <= i < rest.len() implies !goes_by(#[trigger] rest[i], name) by {
                assert(rest[i] == presets[i]);
            }
        }
        if others(presets, name).len() == presets.len() {
            assert forall|i: int| 0 <= i < presets.len() implies !goes_by(#[trigger] presets[i], name) by {
                if i < rest.len() {
                    assert(rest[i] == presets[i]);
                }
            }
        }
    }
}

/// Where the presets that stay come from: in order from the ones before.
proof fn others_come_from(presets: Seq<PresetView>, name: Seq<char>) -> (from: Seq<int>)
    ensures
        from.len() == others(presets, name).len(),
        forall|i: int|
            #![trigger from[i]]
            0 <= i < from.len() ==> 0 <= from[i] < presets.len() && others(presets, name)[i] == presets[from[i]],
        forall|i: int, j: int| #![trigger from[i], from[j]] 0 <= i < j < from.len() ==> from[i] < from[j],
    decreases presets.len(),
{
    if presets.len() == 0 {
        seq![]
    } else {
        let rest = presets.drop_last();
        let before = others_come_from(rest, name);
        if goes_by(presets.last(), name) {
            assert forall|i: int|
                #![trigger before[i]]
                0 <= i < before.len() implies 0 <= before[i] < presets.len() && others(presets, name)[i]
                == presets[before[i]] by {
                assert(rest[before[i]] == presets[before[i]]);
            }
            before
        } else {
            let from = before.push(presets.len() - 1);
            assert forall|i: int|
                #![trigger from[i]]
                0 <= i < from.len() implies 0 <= from[i] < presets.len() && others(presets, name)[i]
                == presets[from[i]] by {
                if i < before.len() {
                    assert(from[i] == before[i]);
                    assert(rest[before[i]] == presets[before[i]]);
                }
            }
            assert forall|i: int, j: int| #![trigger from[i], from[j]] 0 <= i < j < from.len() implies from[i]
                < from[j] by {
                assert(from[i] == before[i]);
                if j < before.len() {
                    assert(from[j] == before[j]);
                }
            }
            from
        }
    }
}

/// Removing a preset keeps the configuration sane and its names distinct.
pub proof fn removing_keeps_the_rest(c: ConfigView, name: Seq<char>)
    ensures
        c.sane() ==> c.without_preset(name).sane(),
        c.distinct() ==> c.without_preset(name).distinct(),
{
    let after = c.without_preset(name);
    let from = others_come_from(c.user_presets, name);
    if c.sane() {
        assert forall|i: int|
            #![trigger after.user_presets[i]]
            0 <= i < after.user_presets.len() implies in_range(after.user_presets[i].bands)
            && after.user_presets[i].name.len() > 0 && trimmed(after.user_presets[i].name)
            == after.user_presets[i].name by {
            assert(after.user_presets[i] == c.user_presets[from[i]]);
        }
    }
    if c.distinct() {
        assert forall|i: int, j: int|
            #![trigger after.user_presets[i], after.user_presets[j]]
            0 <= i < j < after.user_presets.len() implies !same_ignoring_case(
            after.user_presets[i].name,
            after.user_presets[j].name,
        ) by {
            assert(from[i] < from[j]);
            assert(after.user_presets[i] == c.user_presets[from[i]]);
            assert(after.user_presets[j] == c.user_presets[from[j]]);
        }
    }
}

/// A preset that was removed is not found any more, and there was something
/// to remove exactly if it was found before.
pub proof fn removed_presets_are_gone(c: ConfigView, name: Seq<char>)
    ensures
        ({
            let after = c.without_preset(name);
            &&& preset_index(after.user_presets, name, 0) == after.user_presets.len()
            &&& (after.user_presets.len() != c.user_presets.len()) == (preset_index(c.user_presets, name, 0)
                < c.user_presets.len())
            &&& after.without_preset(name) == after
        }),
{
    let after = c.without_preset(name);
    others_go_by_other_names(c.user_presets, name);
    preset_index_is(after.user_presets, name, 0, after.user_presets.len());
    preset_index_bounds(c.user_presets, name, 0);
    let at = preset_index(c.user_presets, name, 0) as int;
    if at < c.user_presets.len() {
        assert(goes_by(c.user_presets[at], name));
    }
    others_go_by_other_names(after.user_presets, name);
    nothing_to_remove(after.user_presets, name);
}

proof fn nothing_to_remove(presets: Seq<PresetView>, name: Seq<char>)
    requires
        forall|i: int| 0 <= i < presets.len() ==> !goes_by(#[trigger] presets[i], name),
    ensures
        others(presets, name) == presets,
    decreases presets.len(),
{
    if presets.len() > 0 {
        let rest = presets.drop_last();
        assert forall|i: int| 0 <= i < rest.len() implies !goes_by(#[trigger] rest[i], name) by {
            assert(rest[i] == presets[i]);
        }
        nothing_to_remove(rest, name);
        assert(presets[presets.len() - 1] == presets.last());
        assert(rest.push(presets.last()) =~= presets);
    } else {
        assert(presets =~= seq![]);
    }
}

} // verus!
