use synapse_core::config::Config;
use synapse_core::ctl::commands::{
    battery, dnd, ensure_online, eq_report, led, monitor_due, monitor_poll, sidetone, sleep, EqReport,
};
use synapse_core::ctl::parse::{
    named_curve, parse_bands, parse_byte, parse_bytes, parse_minutes, parse_sidetone, parse_mic_action, parse_switch,
    select_device, switch_word, unknown_preset, MicAction, Sidetone,
};
use synapse_core::ctl::report::{
    bands_text, battery_text, device_line, eq_lines, eq_list_lines, event_text, hex, mic_lines, minutes_text,
    permission_help, poll_text, preset_text, sidetone_text, status_lines, MicCleanStatus,
};
use synapse_core::devices::blackshark_v2_hs::exchange::Incoming;
use synapse_core::devices::blackshark_v2_hs::sim::SimTransport;
use synapse_core::devices::blackshark_v2_hs::{HeadsetState, LedMode};
use synapse_core::devices::{models, simulated, BlackSharkV2Hs, Connection, FoundDevice, Location};
use synapse_core::eq::HardwarePreset;
use synapse_core::Error;

fn args(s: &str) -> Vec<String> {
    s.split(' ').map(String::from).collect()
}

#[test]
fn band_parsing() {
    assert_eq!(
        parse_bands(&args("3 2 1 0 0 0 1 2 3 2")).unwrap(),
        [3, 2, 1, 0, 0, 0, 1, 2, 3, 2]
    );
    assert_eq!(
        parse_bands(&args("-9,+6,0,0,0 0,0,0,0,-1")).unwrap(),
        [-9, 6, 0, 0, 0, 0, 0, 0, 0, -1]
    );
    assert!(parse_bands(&args("1 2 3")).is_err());
    assert!(parse_bands(&args("7 0 0 0 0 0 0 0 0 0")).is_err());
    assert!(parse_bands(&args("x 0 0 0 0 0 0 0 0 0")).is_err());
}

#[test]
fn band_errors_in_words() {
    assert_eq!(
        parse_bands(&args("1 2 3")).unwrap_err(),
        "expected 10 values (31 62 125 250 500 1k 2k 4k 8k 16k), got 3"
    );
    assert_eq!(
        parse_bands(&args("7 0 0 0 0 0 0 0 0 0")).unwrap_err(),
        "7 dB is outside the hardware range -9..6 dB"
    );
    // A word that is no number is reported first, in quotation marks.
    assert_eq!(parse_bands(&args("99 a\tb")).unwrap_err(), "\"a\\tb\" is not a number");
}

#[test]
fn switches_and_bytes() {
    assert_eq!(parse_switch("ON"), Some(true));
    assert_eq!(parse_switch("kapalı"), Some(false));
    assert_eq!(parse_switch("7"), None);
    assert_eq!(parse_byte("0x80").unwrap(), 0x80);
    assert_eq!(parse_byte("33").unwrap(), 33);
    assert!(parse_byte("0x100").is_err());
}

#[test]
fn switch_words_and_byte_lists() {
    // Letters beyond ASCII are lowered too.
    assert_eq!(parse_switch(" AÇ "), Some(true));
    assert_eq!(switch_word("aç"), Some(true));
    assert_eq!(switch_word("ON"), None);
    assert_eq!(parse_bytes(&args("0xFF 7")).unwrap(), vec![255, 7]);
    assert_eq!(
        parse_bytes(&args("1 300 x")).unwrap_err(),
        "\"300\" is not a byte (use 0x.. hex or 0-255)"
    );
}

#[test]
fn sidetone_and_sleep_arguments() {
    assert_eq!(parse_sidetone(" 7 "), Ok(Sidetone::Level(7)));
    assert_eq!(parse_sidetone("0"), Ok(Sidetone::Level(0)));
    assert_eq!(parse_sidetone("off"), Ok(Sidetone::Switch(false)));
    assert_eq!(parse_sidetone("16").unwrap_err(), "the sidetone level must be 0-15");
    assert_eq!(parse_sidetone("loud").unwrap_err(), "expected on, off or a level 0-15");
    assert_eq!(parse_minutes("off"), Ok(0));
    assert_eq!(parse_minutes("never"), Ok(0));
    assert_eq!(parse_minutes("45"), Ok(45));
    assert_eq!(parse_minutes("256").unwrap_err(), "expected minutes 1-255 or off");
}

#[test]
fn curves_by_name() {
    let mut config = Config::default();
    assert!(config.upsert_preset("Gece", [1; 10]));
    assert!(config.upsert_preset("voice", [2; 10]));
    assert_eq!(named_curve(" gece ", &config), Ok([1; 10]));
    // A built-in curve goes first.
    assert_eq!(named_curve("Voice", &config), Ok([-3, -2, -1, 1, 3, 4, 4, 3, 1, 0]));
    assert_eq!(
        named_curve("none", &config).unwrap_err(),
        "no curve named \"none\"; see `synapsectl eq list`"
    );
    assert_eq!(
        unknown_preset("loud"),
        "unknown preset \"loud\"; use music, game, movie, flat or custom"
    );
}

fn found() -> Vec<FoundDevice> {
    vec![
        FoundDevice {
            model: models()[2],
            location: Location::Simulated,
        },
        FoundDevice {
            model: models()[0],
            location: Location::Simulated,
        },
    ]
}

#[test]
fn device_selection() {
    assert_eq!(select_device(&found(), None), Ok(1));
    assert_eq!(select_device(&found(), Some("0")), Ok(0));
    assert_eq!(select_device(&found(), Some("simulated")), Ok(0));
    assert_eq!(
        select_device(&found(), Some("7")).unwrap_err(),
        "no device #7, see `synapsectl list`"
    );
    assert_eq!(
        select_device(&found(), Some("hidraw9")).unwrap_err(),
        "hidraw9 is not a supported device, see `synapsectl list`"
    );
    assert_eq!(
        select_device(&vec![], None).unwrap_err(),
        "no supported Razer device found (is the dongle plugged in?)"
    );
}

fn dongle() -> BlackSharkV2Hs<SimTransport> {
    BlackSharkV2Hs::new(SimTransport::new(Connection::Dongle), models()[0], 0, 30)
}

#[test]
fn commands() {
    let mut dev = dongle();
    assert_eq!(ensure_online(&mut dev), Ok(()));
    assert_eq!(battery(&mut dev), Ok((76, false)));
    assert_eq!(sidetone(&mut dev, Sidetone::Level(7)), Ok((true, 7)));
    assert_eq!(sidetone(&mut dev, Sidetone::Switch(false)), Ok((false, 7)));
    assert_eq!(sidetone(&mut dev, Sidetone::Level(0)), Ok((false, 0)));
    assert_eq!(sleep(&mut dev, 45), Ok(45));
    assert_eq!(dnd(&mut dev, true), Ok(true));
    assert_eq!(led(&mut dev, LedMode::Battery).as_deref(), Ok("battery"));
    assert_eq!(
        eq_report(&mut dev),
        Ok(EqReport {
            preset: HardwarePreset::Music,
            custom: [2, 1, 0, 0, 0, 0, 0, 1, 2, 1],
            enabled: true,
            enhancement: false,
        })
    );
    assert_eq!(monitor_poll(&mut dev), Ok((true, Some(76))));
    dev.transport_mut().set_link(false);
    assert_eq!(ensure_online(&mut dev), Err(Error::HeadsetOffline));
    assert_eq!(monitor_poll(&mut dev), Ok((false, None)));
}

#[test]
fn status_in_words() {
    let mut dev = dongle();
    let state = dev.read_state().unwrap();
    let lines = status_lines(&simulated()[0], &state);
    assert_eq!(
        lines,
        vec![
            "Razer BlackShark V2 HyperSpeed  (2.4 GHz dongle, simulated)",
            "  Battery         76% (on battery)",
            "  Microphone      on",
            "  Sidetone        off (level 5/15)",
            "  EQ preset       music (factory)",
            "  Custom EQ slot  [+2 +1 +0 +0 +0 +0 +0 +1 +2 +1] dB",
            "  EQ stage        on, enhancement off",
            "  Auto power-off  15 min",
            "  Block BT calls  off",
            "  Dongle LED      link",
            "  Firmware        headset 1.02.0.3, dongle 1.00.4.0",
            "  Serial          headset SIMHEADSET00001, dongle SIMDONGLE000001",
        ]
    );
    let lines = status_lines(&simulated()[0], &HeadsetState::default());
    assert_eq!(
        lines[1..],
        [
            "  Headset         not connected (powered off or out of range)",
            "  Dongle LED      ?",
            "  Firmware        ",
            "  Serial          ",
        ]
    );
}

#[test]
fn equalizer_in_words() {
    let report = EqReport {
        preset: HardwarePreset::Movie,
        custom: [-9, 6, 0, 0, 0, 0, 0, 0, 0, 0],
        enabled: true,
        enhancement: false,
    };
    assert_eq!(
        eq_lines(&report),
        vec![
            "preset       movie (factory)",
            "factory      [+4 +2 +0 -2 +0 +2 +4 +3 +2 +1] dB  (approximation)",
            "custom slot  [-9 +6 +0 +0 +0 +0 +0 +0 +0 +0] dB",
            "EQ stage     on",
            "enhancement  off",
        ]
    );
    let mut config = Config::default();
    assert!(config.upsert_preset("Gece", [1; 10]));
    let lines = eq_list_lines(&config);
    assert_eq!(lines[0], "Hardware presets (eq preset NAME):");
    assert_eq!(lines[1], "  music    [+3 +2 +1 +0 +0 +0 +1 +2 +3 +2] dB");
    assert_eq!(lines[5], "  custom   (your curve)");
    assert_eq!(lines[8], "  bass       [+5 +4 +2 -1 -1 +0 +0 +1 +1 +1] dB  Bass Boost");
    assert_eq!(lines[13], "Saved curves (eq curve \"NAME\"):");
    assert_eq!(lines[14], "  Gece             [+1 +1 +1 +1 +1 +1 +1 +1 +1 +1] dB");
    assert_eq!(
        lines[16],
        "Bands: 31Hz 62Hz 125Hz 250Hz 500Hz 1kHz 2kHz 4kHz 8kHz 16kHz"
    );
    assert_eq!(lines.len(), 17);
}

#[test]
fn small_texts() {
    assert_eq!(minutes_text(0), "never");
    assert_eq!(minutes_text(5), "5 min");
    assert_eq!(preset_text(HardwarePreset::Unknown(0xAB)), "unknown (0xAB)");
    assert_eq!(bands_text(&[0; 10]), "[+0 +0 +0 +0 +0 +0 +0 +0 +0 +0] dB");
    assert_eq!(hex(&[0x0A, 0xFF]), "0a ff");
    assert_eq!(hex(&[]), "");
    assert_eq!(battery_text(50, true), "50% (charging)");
    assert_eq!(sidetone_text(true, 3), "sidetone on (level 3/15)");
    assert_eq!(poll_text(true, Some(42)), "poll: link up, battery 42%");
    assert_eq!(poll_text(false, None), "poll: link down, battery -");
    assert_eq!(
        event_text(&Incoming::Other {
            report_id: 0x0C,
            data: vec![1, 0, 2, 0, 0]
        }),
        "report 0x0C: [01 00 02]"
    );
    assert_eq!(
        device_line(3, &simulated()[0], false),
        "#3  Razer BlackShark V2 HyperSpeed [1532:0565] 2.4 GHz dongle  simulated  (no permission, run `synapsectl udev-rule`)"
    );
    assert!(permission_help("/dev/hidraw3").starts_with("no permission to open /dev/hidraw3.\nInstall"));
}

#[test]
fn noise_suppression() {
    assert_eq!(parse_mic_action("status"), Ok(MicAction::Status));
    assert_eq!(parse_mic_action("default"), Ok(MicAction::Default));
    assert_eq!(parse_mic_action("On"), Ok(MicAction::Enable));
    assert_eq!(parse_mic_action("kapat"), Ok(MicAction::Disable));
    assert_eq!(
        parse_mic_action("maybe").unwrap_err(),
        "expected on, off, default or status"
    );
    let status = MicCleanStatus {
        plugin_available: false,
        active: true,
        enabled: false,
        is_default: false,
        target: Some("alsa_input.razer".to_string()),
    };
    assert_eq!(
        mic_lines(&status),
        vec![
            "PipeWire WebRTC plugin: not installed (noise suppression unavailable)",
            "clean microphone  running",
            "start with login  off",
            "source            alsa_input.razer",
            "default input     no (run: synapsectl mic-clean default)",
        ]
    );
}

#[test]
fn the_monitor_polls_at_its_interval() {
    assert_eq!(monitor_due(0, 0, 5000), Some(5000));
    assert_eq!(monitor_due(5000, 4999, 5000), None);
    assert_eq!(monitor_due(5000, 5000, 5000), Some(10_000));
    // A late poll moves the next one.
    assert_eq!(monitor_due(5000, 7300, 5000), Some(12_300));
    assert_eq!(monitor_due(0, u64::MAX, 1), Some(u64::MAX));
}
