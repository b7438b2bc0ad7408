use synapse_core::config::{Config, Language};
use synapse_core::eq::{
    band_label, builtin_curve, builtin_curves, clamp_bands, clamp_gain, HardwarePreset, MAX_GAIN_DB, MIN_GAIN_DB,
};
use synapse_core::error::{Error, GoneCodes, IoError};
use synapse_core::hid::hidraw::{
    open_error, poll_step, poll_timeout_ms, read_step, short_write, write_step, OpenFailure, PollStep, Polled,
    ReadStep, Transfer, WriteStep,
};
use synapse_core::hid::lock::{busy_error, lock_dir, lock_file_name, lock_step, Attempt, LockStep};

#[test]
fn preset_raw_roundtrip() {
    for p in HardwarePreset::SELECTABLE {
        assert_eq!(HardwarePreset::from_raw(p.raw()), p);
        assert_eq!(HardwarePreset::from_key(&p.key()), Some(p));
    }
    assert_eq!(HardwarePreset::from_raw(0x42), HardwarePreset::Unknown(0x42));
    assert_eq!(HardwarePreset::Unknown(0x42).raw(), 0x42);
}

#[test]
fn preset_keys() {
    assert_eq!(HardwarePreset::from_key(" Bypass "), Some(HardwarePreset::Flat));
    assert_eq!(HardwarePreset::from_key("loud"), None);
    assert_eq!(HardwarePreset::Unknown(0xAB).key(), "0xab");
    assert!(HardwarePreset::Game.is_rom());
    assert!(!HardwarePreset::Custom.is_rom());
}

#[test]
fn curves_are_within_hardware_range() {
    let curves = builtin_curves();
    let all = curves
        .iter()
        .map(|c| c.bands)
        .chain(HardwarePreset::SELECTABLE.iter().filter_map(|p| p.reference_curve()));
    for bands in all {
        assert!(
            bands.iter().all(|b| (MIN_GAIN_DB..=MAX_GAIN_DB).contains(b)),
            "{bands:?}"
        );
    }
    assert_eq!(builtin_curve("BASS").unwrap().bands, [5, 4, 2, -1, -1, 0, 0, 1, 1, 1]);
    assert!(builtin_curve("none").is_none());
}

#[test]
fn labels_and_clamping() {
    assert_eq!(band_label(0), "31");
    assert_eq!(band_label(5), "1k");
    assert_eq!(band_label(9), "16k");
    assert_eq!(clamp_gain(-20), -9);
    assert_eq!(clamp_gain(20), 6);
    assert_eq!(
        clamp_bands([-12, 9, 0, 0, 0, 0, 0, 0, 0, 3]),
        [-9, 6, 0, 0, 0, 0, 0, 0, 0, 3]
    );
}

#[test]
fn preset_management() {
    let mut config = Config::default();
    assert!(!config.upsert_preset("   ", [0; 10]));
    assert!(config.upsert_preset("Bass", [9; 10]));
    assert_eq!(config.find_preset("bass").unwrap().bands, [6; 10]); // clamped
    assert!(config.upsert_preset("BASS", [1; 10]));
    assert_eq!(config.user_presets.len(), 1);
    assert!(config.remove_preset("Bass"));
    assert!(!config.remove_preset("Bass"));
}

#[test]
fn language_resolution() {
    let none: Vec<Option<String>> = vec![None, None, None, None];
    assert_eq!(Language::Tr.resolve(&none), Language::Tr);
    assert_eq!(Language::En.resolve(&none), Language::En);
    assert!(matches!(Language::Auto.resolve(&none), Language::Tr | Language::En));
}

#[test]
fn the_first_locale_that_is_set_counts() {
    let vars = vec![None, Some(String::new()), Some("TR_tr.UTF-8".to_string()), Some("en_US".to_string())];
    assert_eq!(Language::Auto.resolve(&vars), Language::Tr);
    let vars = vec![Some("en".to_string()), None, None, Some("tr_TR".to_string())];
    assert_eq!(Language::Auto.resolve(&vars), Language::En);
}

#[test]
fn loaded_values_are_brought_into_range() {
    let mut file = Config::default();
    file.tray_poll_seconds = 1;
    file.notifications.low_battery_percent = 150;
    file.last_custom_curve = Some([100; 10]);
    assert!(file.upsert_preset("Night", [0; 10]));
    file.user_presets[0].name = "  ".to_string();
    let config = Config::loaded(Some(file));
    assert_eq!(config.tray_poll_seconds, 5);
    assert_eq!(config.notifications.low_battery_percent, 100);
    assert_eq!(config.last_custom_curve, Some([6; 10]));
    assert!(config.user_presets.is_empty());
    let again = Config::loaded(Some(config.clone()));
    assert_eq!(again, config);
    assert_eq!(Config::loaded(None), Config::default());
}

#[test]
fn errors_of_the_system() {
    let io = |os_code| IoError {
        os_code,
        timed_out: false,
        message: "boom".to_string(),
    };
    let codes = GoneCodes {
        enodev: 19,
        eshutdown: 108,
        enxio: 6,
        eio: 5,
    };
    for code in [19, 108, 6, 5] {
        assert_eq!(Error::from_io_with(io(Some(code)), codes), Error::Disconnected);
    }
    assert_eq!(Error::from_io_with(io(Some(2)), codes), Error::Io(io(Some(2))));
    // By the numbers of this machine.
    for code in [5, 6, 19] {
        assert_eq!(Error::from_io(io(Some(code))), Error::Disconnected);
        assert_eq!(open_error(OpenFailure::Other, "p", io(Some(code))), Error::Disconnected);
    }
    for code in [i32::MIN, -1, 0, 2, 13, 107, i32::MAX] {
        assert_eq!(Error::from_io(io(Some(code))), Error::Io(io(Some(code))));
        assert_eq!(open_error(OpenFailure::Other, "p", io(Some(code))), Error::Io(io(Some(code))));
    }
    assert_eq!(Error::from_io(io(Some(libc::ESHUTDOWN))), Error::Disconnected);
    assert_eq!(Error::from_io(io(Some(libc::ENXIO))), Error::Disconnected);
    assert_eq!(Error::from_io(io(Some(libc::ENODEV))), Error::Disconnected);
    assert_eq!(Error::from_io(io(Some(libc::EIO))), Error::Disconnected);
    assert_eq!(Error::from_io(io(Some(libc::ENOENT))), Error::Io(io(Some(libc::ENOENT))));
    assert_eq!(Error::from_io(io(None)), Error::Io(io(None)));
}

#[test]
fn errors_in_words() {
    assert_eq!(
        Error::Timeout {
            cmd: 0x21,
            timeout_ms: 800
        }
        .message(),
        "no response to command 0x21 within 800ms"
    );
    for ms in [0u64, 1, 30, 999, 1000, 1500, 2050, 61007] {
        let text = Error::Timeout { cmd: 0, timeout_ms: ms }.message();
        let expected = format!(
            "no response to command 0x00 within {:?}",
            std::time::Duration::from_millis(ms)
        );
        assert_eq!(text, expected);
    }
    assert_eq!(Error::EmptyResponse { cmd: 0xA }.message(), "empty response to command 0x0A");
    assert_eq!(Error::NoDevice.message(), "no supported Razer device found");
    assert_eq!(
        Error::PermissionDenied {
            path: "/dev/hidraw3".to_string()
        }
        .message(),
        "permission denied opening /dev/hidraw3 (the udev rule is not installed, see README)"
    );
    assert_eq!(Error::Disconnected.message(), "device disconnected");
    assert_eq!(
        Error::HeadsetOffline.message(),
        "the headset is not connected to the dongle (powered off or out of range)"
    );
    assert_eq!(Error::InvalidArgument("x".to_string()).message(), "invalid argument: x");
    assert_eq!(Error::Protocol("y".to_string()).message(), "protocol error: y");
    assert!(Error::EmptyResponse { cmd: 1 }.is_timeout());
    assert!(Error::Disconnected.is_disconnect());
    assert!(!Error::HeadsetOffline.is_timeout());
}

#[test]
fn lock_rules() {
    assert_eq!(lock_file_name("hid/raw 3-a_b"), "hid_raw_3-a_b.lock");
    assert_eq!(lock_dir(Some("/run/user/1000"), "/tmp", 1000), "/run/user/1000/synapse-linux");
    assert_eq!(lock_dir(Some(""), "/tmp", 1000), "/tmp/synapse-linux-1000");
    assert_eq!(lock_dir(None, "/tmp/", 7), "/tmp/synapse-linux-7");
    assert_eq!(lock_step(Attempt::Locked, false), LockStep::Done);
    assert_eq!(lock_step(Attempt::Busy, true), LockStep::Retry);
    assert_eq!(lock_step(Attempt::Busy, false), LockStep::Busy);
    assert_eq!(lock_step(Attempt::Interrupted, true), LockStep::Retry);
    assert_eq!(lock_step(Attempt::Interrupted, false), LockStep::Fail);
    assert_eq!(lock_step(Attempt::Failed, true), LockStep::Fail);
    assert!(busy_error().timed_out);
}

#[test]
fn hidraw_rules() {
    assert_eq!(poll_timeout_ms(0), 0);
    assert_eq!(poll_timeout_ms(1), 1);
    assert_eq!(poll_timeout_ms(1000), 1);
    assert_eq!(poll_timeout_ms(1001), 2);
    assert_eq!(poll_timeout_ms(u64::MAX), i32::MAX);
    assert_eq!(poll_step(Polled::Interrupted), PollStep::Again);
    assert_eq!(poll_step(Polled::TimedOut), PollStep::Quiet);
    assert_eq!(poll_step(Polled::Failed), PollStep::Fail);
    assert_eq!(
        poll_step(Polled::Ready {
            input: false,
            trouble: true
        }),
        PollStep::Gone
    );
    assert_eq!(
        poll_step(Polled::Ready {
            input: true,
            trouble: true
        }),
        PollStep::Readable
    );
    assert_eq!(write_step(Transfer::Bytes(64), 64), WriteStep::Done);
    assert_eq!(write_step(Transfer::Bytes(10), 64), WriteStep::Short(10));
    assert_eq!(write_step(Transfer::Interrupted, 64), WriteStep::Again);
    assert_eq!(write_step(Transfer::WouldBlock, 64), WriteStep::Fail);
    assert_eq!(read_step(Transfer::Bytes(0), false, 5), ReadStep::Gone);
    assert_eq!(read_step(Transfer::Bytes(3), true, 5), ReadStep::Report(3));
    assert_eq!(read_step(Transfer::WouldBlock, false, 0), ReadStep::Quiet);
    assert_eq!(read_step(Transfer::WouldBlock, false, 5), ReadStep::Wait);
    assert_eq!(read_step(Transfer::WouldBlock, true, 5), ReadStep::Quiet);
    assert_eq!(read_step(Transfer::Interrupted, false, 5), ReadStep::Again);
    assert_eq!(
        short_write("/dev/hidraw3", 10, 64),
        Error::Protocol("short write to /dev/hidraw3: 10 of 64 bytes".to_string())
    );
    let io = IoError {
        os_code: None,
        timed_out: false,
        message: String::new(),
    };
    assert_eq!(open_error(OpenFailure::NotFound, "p", io.clone()), Error::Disconnected);
    assert_eq!(
        open_error(OpenFailure::PermissionDenied, "p", io.clone()),
        Error::PermissionDenied { path: "p".to_string() }
    );
    assert_eq!(open_error(OpenFailure::Other, "p", io.clone()), Error::Io(io));
}
