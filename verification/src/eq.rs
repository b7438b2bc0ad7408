//! Equalizer model: 10 bands, hardware preset slots and curves.

use crate::text::{
    decimal, dec, eq_ignore_case, hex2, lower, lowered, push_hex2, same, same_ignoring_case, to_lower,
    trim, trimmed,
};
use vstd::prelude::*;
use vstd::string::*;

verus! {

pub const BAND_COUNT: usize = 10;

/// Center frequencies of the 10 hardware bands.
pub const BAND_FREQUENCIES_HZ: [u32; 10] = [31, 62, 125, 250, 500, 1000, 2000, 4000, 8000, 16000];

/// Gain range the headset DSP actually applies (dB).
pub const MIN_GAIN_DB: i8 = -9;

pub const MAX_GAIN_DB: i8 = 6;

pub type Bands = [i8; BAND_COUNT];

pub const FLAT: Bands = [0, 0, 0, 0, 0, 0, 0, 0, 0, 0];

/// Approximate factory curves of the presets in the headset ROM.
pub const MUSIC_CURVE: Bands = [3, 2, 1, 0, 0, 0, 1, 2, 3, 2];

pub const GAME_CURVE: Bands = [-8, -6, -4, -4, 3, 4, -3, -4, -4, -4];

pub const MOVIE_CURVE: Bands = [4, 2, 0, -2, 0, 2, 4, 3, 2, 1];

/// Curves shipped with the application.
pub const BASS_CURVE: Bands = [5, 4, 2, -1, -1, 0, 0, 1, 1, 1];

pub const FOOTSTEPS_CURVE: Bands = [-6, -5, -3, -1, 1, 3, 5, 5, 3, 0];

pub const VOICE_CURVE: Bands = [-3, -2, -1, 1, 3, 4, 4, 3, 1, 0];

pub const TREBLE_CURVE: Bands = [0, 0, 0, 0, 0, 1, 2, 4, 5, 5];

/// How a band is called: its center frequency, from 1000 Hz on in kHz.
pub open spec fn label(index: int) -> Seq<char> {
    let hz = BAND_FREQUENCIES_HZ@[index];
    if hz >= 1000 {
        dec((hz / 1000) as nat) + seq!['k']
    } else {
        dec(hz as nat)
    }
}

pub fn band_label(index: usize) -> (r: String)
    requires
        index < BAND_COUNT,
    ensures
        r@ == label(index as int),
{
    let hz: u32 = BAND_FREQUENCIES_HZ[index];
    if hz >= 1000 {
        let mut out = decimal((hz / 1000) as u64);
        out.push('k');
        assert(out@ =~= label(index as int));
        out
    } else {
        decimal(hz as u64)
    }
}

/// The gain nearest to `db` that the headset applies.
pub open spec fn clamped_gain(db: int) -> i8 {
    if db < MIN_GAIN_DB {
        MIN_GAIN_DB
    } else if db > MAX_GAIN_DB {
        MAX_GAIN_DB
    } else {
        db as i8
    }
}

pub fn clamp_gain(db: i32) -> (r: i8)
    ensures
        r == clamped_gain(db as int),
{
    if db < MIN_GAIN_DB as i32 {
        MIN_GAIN_DB
    } else if db > MAX_GAIN_DB as i32 {
        MAX_GAIN_DB
    } else {
        db as i8
    }
}

/// Is every gain of `bands` one that the headset applies?
pub open spec fn in_range(bands: Bands) -> bool {
    forall|i: int| 0 <= i < BAND_COUNT ==> MIN_GAIN_DB <= #[trigger] bands@[i] <= MAX_GAIN_DB
}

/// The curve with the gain `f(i)` in band `i`.
#[verifier::opaque]
pub open spec fn bands_from(f: spec_fn(int) -> i8) -> Bands {
    [f(0), f(1), f(2), f(3), f(4), f(5), f(6), f(7), f(8), f(9)]
}

pub proof fn bands_from_is(f: spec_fn(int) -> i8, bands: Bands)
    requires
        forall|i: int| 0 <= i < BAND_COUNT ==> #[trigger] bands@[i] == f(i),
    ensures
        bands == bands_from(f),
{
    bands_from_at(f);
    assert(bands =~= bands_from(f));
}

pub proof fn bands_from_at(f: spec_fn(int) -> i8)
    ensures
        forall|i: int| 0 <= i < BAND_COUNT ==> #[trigger] bands_from(f)@[i] == f(i),
{
    reveal(bands_from);
}

/// The gains of a curve as numbers.
pub open spec fn gains_of(bands: Bands) -> Seq<int> {
    Seq::new(BAND_COUNT as nat, |i: int| bands@[i] as int)
}

/// The curve with every gain brought into range.
pub open spec fn clamped(bands: Bands) -> Bands {
    bands_from(|i: int| clamped_gain(bands@[i] as int))
}

pub fn clamp_bands(bands: Bands) -> (r: Bands)
    ensures
        r == clamped(bands),
{
    let mut out: Bands = FLAT;
    let mut i: usize = 0;
    while i < BAND_COUNT
        invariant
            i <= BAND_COUNT,
            forall|j: int| 0 <= j < i ==> #[trigger] out@[j] == clamped_gain(bands@[j] as int),
        decreases BAND_COUNT - i,
    {
        out[i] = clamp_gain(bands[i] as i32);
        i += 1;
    }
    proof {
        bands_from_is(|i: int| clamped_gain(bands@[i] as int), out);
    }
    out
}

pub proof fn clamped_at(bands: Bands)
    ensures
        forall|i: int| 0 <= i < BAND_COUNT ==> #[trigger] clamped(bands)@[i] == clamped_gain(bands@[i] as int),
{
    bands_from_at(|i: int| clamped_gain(bands@[i] as int));
}

/// Clamping brings every curve into range and leaves one that is in range
/// as it is.
pub proof fn clamping_is_idempotent(bands: Bands)
    ensures
        in_range(clamped(bands)),
        in_range(bands) ==> clamped(bands) == bands,
        clamped(clamped(bands)) == clamped(bands),
{
    clamped_at(bands);
    clamped_at(clamped(bands));
    if in_range(bands) {
        assert(clamped(bands) =~= bands);
    }
    assert(clamped(clamped(bands)) =~= clamped(bands));
}

/// A clamped gain is the one nearest to `db` among those that the headset
/// applies, which are -9 to 6 dB.
pub proof fn clamping_is_nearest(db: int, other: int)
    requires
        -9 <= other <= 6,
    ensures
        -9 <= clamped_gain(db) <= 6,
        db <= other ==> db <= clamped_gain(db) <= other || clamped_gain(db) == db,
        db >= other ==> other <= clamped_gain(db) <= db || clamped_gain(db) == db,
        -9 <= db <= 6 ==> clamped_gain(db) == db,
{
}

/// The bands from low to high, each an octave: every center frequency is
/// about twice the one before.
pub proof fn bands_are_octaves(i: int)
    requires
        0 <= i < BAND_COUNT - 1,
    ensures
        BAND_FREQUENCIES_HZ@[0] == 31,
        BAND_FREQUENCIES_HZ@[9] == 16000,
        2 * BAND_FREQUENCIES_HZ@[i] <= BAND_FREQUENCIES_HZ@[i + 1] <= 2 * BAND_FREQUENCIES_HZ@[i] + 1,
{
}

/// Preset slot selected on the headset (register 0x13 / 0x93).
#[derive(Debug, Clone, Copy, PartialEq, Eq, Structural, Hash)]
pub enum HardwarePreset {
    /// DSP bypass, 0 dB on every band.
    Flat,
    Game,
    Music,
    Movie,
    /// User curve stored in the headset's flash.
    Custom,
    /// A slot value this program does not know.
    Unknown(u8),
}

impl HardwarePreset {
    pub const SELECTABLE: [HardwarePreset; 5] = [
        HardwarePreset::Music,
        HardwarePreset::Game,
        HardwarePreset::Movie,
        HardwarePreset::Flat,
        HardwarePreset::Custom,
    ];

    /// The preset that the slot number `raw` selects.
    pub open spec fn of_raw(raw: u8) -> HardwarePreset {
        if raw == 0x00 {
            HardwarePreset::Flat
        } else if raw == 0x07 {
            HardwarePreset::Game
        } else if raw == 0x08 {
            HardwarePreset::Music
        } else if raw == 0x09 {
            HardwarePreset::Movie
        } else if raw == 0xFF {
            HardwarePreset::Custom
        } else {
            HardwarePreset::Unknown(raw)
        }
    }

    pub fn from_raw(raw: u8) -> (r: Self)
        ensures
            r == Self::of_raw(raw),
    {
        match raw {
            0x00 => Self::Flat,
            0x07 => Self::Game,
            0x08 => Self::Music,
            0x09 => Self::Movie,
            0xFF => Self::Custom,
            other => Self::Unknown(other),
        }
    }

    /// The slot number of a preset.
    pub open spec fn raw_of(self) -> u8 {
        match self {
            HardwarePreset::Flat => 0x00,
            HardwarePreset::Game => 0x07,
            HardwarePreset::Music => 0x08,
            HardwarePreset::Movie => 0x09,
            HardwarePreset::Custom => 0xFF,
            HardwarePreset::Unknown(raw) => raw,
        }
    }

    pub fn raw(self) -> (r: u8)
        ensures
            r == self.raw_of(),
    {
        match self {
            Self::Flat => 0x00,
            Self::Game => 0x07,
            Self::Music => 0x08,
            Self::Movie => 0x09,
            Self::Custom => 0xFF,
            Self::Unknown(raw) => raw,
        }
    }

    pub open spec fn key_of(self) -> Seq<char> {
        match self {
            HardwarePreset::Flat => "flat"@,
            HardwarePreset::Game => "game"@,
            HardwarePreset::Music => "music"@,
            HardwarePreset::Movie => "movie"@,
            HardwarePreset::Custom => "custom"@,
            HardwarePreset::Unknown(raw) => "0x"@ + hex2(raw),
        }
    }

    /// Stable identifier used by the CLI and the config file.
    pub fn key(self) -> (r: String)
        ensures
            r@ == self.key_of(),
    {
        match self {
            Self::Flat => "flat".to_owned(),
            Self::Game => "game".to_owned(),
            Self::Music => "music".to_owned(),
            Self::Movie => "movie".to_owned(),
            Self::Custom => "custom".to_owned(),
            Self::Unknown(raw) => {
                let mut out = "0x".to_owned();
                push_hex2(&mut out, raw);
                out
            },
        }
    }

    /// The preset that `key` names; blanks around it and the case of its
    /// letters do not matter.
    pub open spec fn of_key(key: Seq<char>) -> Option<HardwarePreset> {
        let k = lowered(trimmed(key));
        if k == "flat"@ || k == "off"@ || k == "bypass"@ || k == "default"@ {
            Some(HardwarePreset::Flat)
        } else if k == "game"@ {
            Some(HardwarePreset::Game)
        } else if k == "music"@ {
            Some(HardwarePreset::Music)
        } else if k == "movie"@ {
            Some(HardwarePreset::Movie)
        } else if k == "custom"@ {
            Some(HardwarePreset::Custom)
        } else {
            None
        }
    }

    pub fn from_key(key: &str) -> (r: Option<Self>)
        ensures
            r == Self::of_key(key@),
    {
        let trimmed = trim(key);
        let lowered = to_lower(trimmed.as_str());
        let k = lowered.as_str();
        if same(k, "flat") || same(k, "off") || same(k, "bypass") || same(k, "default") {
            Some(Self::Flat)
        } else if same(k, "game") {
            Some(Self::Game)
        } else if same(k, "music") {
            Some(Self::Music)
        } else if same(k, "movie") {
            Some(Self::Movie)
        } else if same(k, "custom") {
            Some(Self::Custom)
        } else {
            None
        }
    }

    /// Approximate factory curve of a preset in the headset's ROM.
    pub open spec fn curve(self) -> Option<Bands> {
        match self {
            HardwarePreset::Flat => Some(FLAT),
            HardwarePreset::Music => Some(MUSIC_CURVE),
            HardwarePreset::Game => Some(GAME_CURVE),
            HardwarePreset::Movie => Some(MOVIE_CURVE),
            HardwarePreset::Custom | HardwarePreset::Unknown(_) => None,
        }
    }

    /// Approximate factory curve, for display only. The real curve lives in
    /// the headset ROM and cannot be read back (register 0x15 returns the
    /// Custom slot).
    pub fn reference_curve(self) -> (r: Option<Bands>)
        ensures
            r == self.curve(),
    {
        match self {
            Self::Flat => Some(FLAT),
            Self::Music => Some(MUSIC_CURVE),
            Self::Game => Some(GAME_CURVE),
            Self::Movie => Some(MOVIE_CURVE),
            Self::Custom | Self::Unknown(_) => None,
        }
    }

    pub fn is_rom(self) -> (r: bool)
        ensures
            r == self.curve() is Some,
    {
        matches!(self, Self::Flat | Self::Game | Self::Music | Self::Movie)
    }
}

/// The slots of register 0x13: 0 is flat, 7 game, 8 music, 9 movie and 0xFF
/// the user's own curve; any other number is kept as it is.
pub proof fn slots_are_numbered(raw: u8)
    ensures
        HardwarePreset::of_raw(raw) is Flat <==> raw == 0,
        HardwarePreset::of_raw(raw) is Game <==> raw == 7,
        HardwarePreset::of_raw(raw) is Music <==> raw == 8,
        HardwarePreset::of_raw(raw) is Movie <==> raw == 9,
        HardwarePreset::of_raw(raw) is Custom <==> raw == 255,
        HardwarePreset::of_raw(raw) matches HardwarePreset::Unknown(kept) ==> kept == raw,
{
}

/// A name selects a preset whatever the case of its letters and the blanks
/// around it; "off", "bypass" and "default" all mean the flat one.
pub proof fn names_select_presets(key: Seq<char>)
    ensures
        ({
            let k = lowered(trimmed(key));
            &&& (k == "flat"@ || k == "off"@ || k == "bypass"@ || k == "default"@) <==> HardwarePreset::of_key(key)
                == Some(HardwarePreset::Flat)
            &&& k == "game"@ <==> HardwarePreset::of_key(key) == Some(HardwarePreset::Game)
            &&& k == "music"@ <==> HardwarePreset::of_key(key) == Some(HardwarePreset::Music)
            &&& k == "movie"@ <==> HardwarePreset::of_key(key) == Some(HardwarePreset::Movie)
            &&& k == "custom"@ <==> HardwarePreset::of_key(key) == Some(HardwarePreset::Custom)
            &&& HardwarePreset::of_key(key) matches Some(preset) ==> !(preset is Unknown)
        }),
{
    reveal_strlit("flat");
    reveal_strlit("off");
    reveal_strlit("bypass");
    reveal_strlit("default");
    reveal_strlit("game");
    reveal_strlit("music");
    reveal_strlit("movie");
    reveal_strlit("custom");
    assert("flat"@[1] == 'l' && "game"@[1] == 'a' && "music"@[1] == 'u' && "movie"@[1] == 'o');
    assert("bypass"@[0] == 'b' && "custom"@[0] == 'c');
}

/// What the presets in the headset's ROM sound like: flat changes nothing,
/// music lifts both ends, game cuts the lows, movie lifts the lows and the
/// upper mids. The user's own curve and an unknown slot have no such curve.
pub proof fn rom_presets_have_their_curves(preset: HardwarePreset)
    ensures
        preset is Flat ==> preset.curve() is Some && gains_of(preset.curve()->0) == seq![0int, 0, 0, 0, 0, 0, 0, 0, 0, 0],
        preset is Music ==> preset.curve() is Some && gains_of(preset.curve()->0) == seq![3int, 2, 1, 0, 0, 0, 1, 2, 3, 2],
        preset is Game ==> preset.curve() is Some && gains_of(preset.curve()->0) == seq![
            -8int, -6, -4, -4, 3, 4, -3, -4, -4, -4,
        ],
        preset is Movie ==> preset.curve() is Some && gains_of(preset.curve()->0) == seq![4int, 2, 0, -2, 0, 2, 4, 3, 2, 1],
        preset is Custom || preset is Unknown ==> preset.curve() is None,
{
    assert(gains_of(FLAT) =~= seq![0int, 0, 0, 0, 0, 0, 0, 0, 0, 0]);
    assert(gains_of(MUSIC_CURVE) =~= seq![3int, 2, 1, 0, 0, 0, 1, 2, 3, 2]);
    assert(gains_of(GAME_CURVE) =~= seq![-8int, -6, -4, -4, 3, 4, -3, -4, -4, -4]);
    assert(gains_of(MOVIE_CURVE) =~= seq![4int, 2, 0, -2, 0, 2, 4, 3, 2, 1]);
}

/// Slot numbers survive the round trip, known or not; a preset does too
/// unless it is an `Unknown` that holds the number of a known slot.
pub proof fn preset_raw_roundtrip(raw: u8, preset: HardwarePreset)
    ensures
        HardwarePreset::of_raw(raw).raw_of() == raw,
        !(preset is Unknown) ==> HardwarePreset::of_raw(preset.raw_of()) == preset,
{
}

/// A key that is written in lower case without blanks names its preset.
pub proof fn preset_key_roundtrip(preset: HardwarePreset)
    ensures
        !(preset is Unknown) ==> HardwarePreset::of_key(preset.key_of()) == Some(preset),
{
    reveal_strlit("flat");
    reveal_strlit("off");
    reveal_strlit("bypass");
    reveal_strlit("default");
    reveal_strlit("game");
    reveal_strlit("music");
    reveal_strlit("movie");
    reveal_strlit("custom");
    let k = preset.key_of();
    if !(preset is Unknown) {
        assert(trimmed(k) == k);
        assert(lowered(k) =~= k);
        assert("flat"@[1] != "game"@[1]);
        assert("music"@[1] != "movie"@[1]);
    }
}

/// The reference curves stay within the range the headset applies.
pub proof fn reference_curves_in_range(preset: HardwarePreset)
    ensures
        match preset.curve() {
            Some(bands) => in_range(bands),
            None => true,
        },
{
}

/// Curves shipped with the application, written to the custom slot.
#[derive(Debug, Clone, Copy)]
pub struct BuiltinCurve {
    pub key: &'static str,
    pub name_en: &'static str,
    pub name_tr: &'static str,
    pub bands: Bands,
}

/// The `i`-th curve shipped with the application.
pub open spec fn builtin(i: int) -> BuiltinCurve {
    if i == 0 {
        BuiltinCurve {
            key: "bass",
            name_en: "Bass Boost",
            name_tr: "Bas Güçlendirme",
            bands: BASS_CURVE,
        }
    } else if i == 1 {
        BuiltinCurve {
            key: "footsteps",
            name_en: "FPS Footsteps",
            name_tr: "FPS Ayak Sesi",
            bands: FOOTSTEPS_CURVE,
        }
    } else if i == 2 {
        BuiltinCurve {
            key: "voice",
            name_en: "Voice",
            name_tr: "Vokal",
            bands: VOICE_CURVE,
        }
    } else {
        BuiltinCurve {
            key: "treble",
            name_en: "Treble Boost",
            name_tr: "Tiz Güçlendirme",
            bands: TREBLE_CURVE,
        }
    }
}

pub const BUILTIN_COUNT: usize = 4;

/// The curves shipped with the application.
pub fn builtin_curves() -> (r: [BuiltinCurve; 4])
    ensures
        forall|i: int| 0 <= i < BUILTIN_COUNT ==> #[trigger] r@[i] == builtin(i),
{
    [
        BuiltinCurve {
            key: "bass",
            name_en: "Bass Boost",
            name_tr: "Bas Güçlendirme",
            bands: BASS_CURVE,
        },
        BuiltinCurve {
            key: "footsteps",
            name_en: "FPS Footsteps",
            name_tr: "FPS Ayak Sesi",
            bands: FOOTSTEPS_CURVE,
        },
        BuiltinCurve {
            key: "voice",
            name_en: "Voice",
            name_tr: "Vokal",
            bands: VOICE_CURVE,
        },
        BuiltinCurve {
            key: "treble",
            name_en: "Treble Boost",
            name_tr: "Tiz Güçlendirme",
            bands: TREBLE_CURVE,
        },
    ]
}

/// The first shipped curve whose key is `key`, the case of letters aside.
pub open spec fn builtin_named(key: Seq<char>, from: int) -> Option<BuiltinCurve>
    decreases BUILTIN_COUNT - from,
{
    if from >= BUILTIN_COUNT {
        None
    } else if same_ignoring_case(builtin(from).key@, key) {
        Some(builtin(from))
    } else {
        builtin_named(key, from + 1)
    }
}

pub fn builtin_curve(key: &str) -> (r: Option<BuiltinCurve>)
    ensures
        r == builtin_named(key@, 0),
{
    let curves = builtin_curves();
    let mut i: usize = 0;
    while i < BUILTIN_COUNT
        invariant
            i <= BUILTIN_COUNT,
            forall|i: int| 0 <= i < BUILTIN_COUNT ==> #[trigger] curves@[i] == builtin(i),
            builtin_named(key@, 0) == builtin_named(key@, i as int),
        decreases BUILTIN_COUNT - i,
    {
        if eq_ignore_case(curves[i].key, key) {
            assert(curves@[i as int] == builtin(i as int));
            return Some(curves[i]);
        }
        i += 1;
    }
    None
}

/// Each shipped curve goes by its own name, in any letter case: "bass" lifts
/// the lows, "footsteps" cuts them and lifts the upper mids, "voice" lifts the
/// middle and "treble" the highs. No other name stands for a shipped curve.
pub proof fn names_stand_for_their_curves(key: Seq<char>)
    ensures
        lowered(key) == "bass"@ ==> builtin_named(key, 0) is Some && gains_of(builtin_named(key, 0)->0.bands) == seq![
            5int, 4, 2, -1, -1, 0, 0, 1, 1, 1,
        ],
        lowered(key) == "footsteps"@ ==> builtin_named(key, 0) is Some && gains_of(builtin_named(key, 0)->0.bands) == seq![
            -6int, -5, -3, -1, 1, 3, 5, 5, 3, 0,
        ],
        lowered(key) == "voice"@ ==> builtin_named(key, 0) is Some && gains_of(builtin_named(key, 0)->0.bands) == seq![
            -3int, -2, -1, 1, 3, 4, 4, 3, 1, 0,
        ],
        lowered(key) == "treble"@ ==> builtin_named(key, 0) is Some && gains_of(builtin_named(key, 0)->0.bands) == seq![
            0int, 0, 0, 0, 0, 1, 2, 4, 5, 5,
        ],
        builtin_named(key, 0) matches Some(c) ==> lowered(key) == c.key@,
        builtin_named(key, 0) is Some ==> (lowered(key) == "bass"@ || lowered(key) == "footsteps"@ || lowered(key)
            == "voice"@ || lowered(key) == "treble"@),
{
    reveal_strlit("bass");
    reveal_strlit("footsteps");
    reveal_strlit("voice");
    reveal_strlit("treble");
    assert(lowered("bass"@) =~= "bass"@);
    assert(lowered("footsteps"@) =~= "footsteps"@);
    assert(lowered("voice"@) =~= "voice"@);
    assert(lowered("treble"@) =~= "treble"@);
    assert("bass"@.len() == 4 && "footsteps"@.len() == 9 && "voice"@.len() == 5 && "treble"@.len() == 6);
    reveal_with_fuel(builtin_named, 5);
    assert(gains_of(BASS_CURVE) =~= seq![5int, 4, 2, -1, -1, 0, 0, 1, 1, 1]);
    assert(gains_of(FOOTSTEPS_CURVE) =~= seq![-6int, -5, -3, -1, 1, 3, 5, 5, 3, 0]);
    assert(gains_of(VOICE_CURVE) =~= seq![-3int, -2, -1, 1, 3, 4, 4, 3, 1, 0]);
    assert(gains_of(TREBLE_CURVE) =~= seq![0int, 0, 0, 0, 0, 1, 2, 4, 5, 5]);
}

/// Two names that stand for the same shipped curve are the same name.
pub proof fn shipped_curves_differ(a: Seq<char>, b: Seq<char>)
    requires
        builtin_named(a, 0) is Some,
        builtin_named(b, 0) is Some,
        builtin_named(a, 0)->0.bands == builtin_named(b, 0)->0.bands,
    ensures
        lowered(a) == lowered(b),
{
    names_stand_for_their_curves(a);
    names_stand_for_their_curves(b);
    let (x, y) = (gains_of(builtin_named(a, 0)->0.bands), gains_of(builtin_named(b, 0)->0.bands));
    assert(x[0] == y[0]);
}

/// A shipped curve is shown under the name that fits it.
pub proof fn shipped_names(i: int)
    requires
        0 <= i < BUILTIN_COUNT,
    ensures
        builtin(i).key@ == "bass"@ ==> builtin(i).name_en@ == "Bass Boost"@ && builtin(i).name_tr@
            == "Bas Güçlendirme"@,
        builtin(i).key@ == "footsteps"@ ==> builtin(i).name_en@ == "FPS Footsteps"@ && builtin(i).name_tr@
            == "FPS Ayak Sesi"@,
        builtin(i).key@ == "voice"@ ==> builtin(i).name_en@ == "Voice"@ && builtin(i).name_tr@ == "Vokal"@,
        builtin(i).key@ == "treble"@ ==> builtin(i).name_en@ == "Treble Boost"@ && builtin(i).name_tr@
            == "Tiz Güçlendirme"@,
        builtin_named(builtin(i).key@, 0) == Some(builtin(i)),
{
    reveal_strlit("bass");
    reveal_strlit("footsteps");
    reveal_strlit("voice");
    reveal_strlit("treble");
    reveal_with_fuel(builtin_named, 5);
    assert(lowered("bass"@) =~= "bass"@);
    assert(lowered("footsteps"@) =~= "footsteps"@);
    assert(lowered("voice"@) =~= "voice"@);
    assert(lowered("treble"@) =~= "treble"@);
    assert("bass"@.len() == 4 && "footsteps"@.len() == 9 && "voice"@.len() == 5 && "treble"@.len() == 6);
}

/// The shipped curves stay within the range the headset applies.
pub proof fn builtin_curves_in_range(i: int)
    ensures
        in_range(builtin(i).bands),
{
}

} // verus!
