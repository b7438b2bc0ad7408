use synapse_core::devices::blackshark_v2_hs::driver::{start_counter, timeout_setting};
use synapse_core::devices::blackshark_v2_hs::exchange::Incoming;
use synapse_core::devices::blackshark_v2_hs::protocol::{
    decode_response, encode_response, eq_from_payload, eq_to_wire, reg, sequence_byte, Request, Response,
    DOMAIN_HEADSET_RF, DOMAIN_LOCAL,
};
use synapse_core::devices::blackshark_v2_hs::sim::{Registers, SimTransport};
use synapse_core::devices::blackshark_v2_hs::{HeadsetState, LedMode};
use synapse_core::devices::{models, BlackSharkV2Hs, Connection};
use synapse_core::eq::{clamp_bands, HardwarePreset};
use synapse_core::hid::Transport;
use synapse_core::Error;

fn dongle() -> BlackSharkV2Hs<SimTransport> {
    BlackSharkV2Hs::new(SimTransport::new(Connection::Dongle), models()[0], 0, 800)
}

fn wired() -> BlackSharkV2Hs<SimTransport> {
    BlackSharkV2Hs::new(SimTransport::new(Connection::Wired), models()[1], 0, 800)
}

#[test]
fn reads_full_state_from_simulator() {
    let mut dev = dongle();
    let state = dev.read_state().unwrap();
    assert_eq!(state.link_up, Some(true));
    assert_eq!(state.battery, Some(76));
    assert_eq!(state.charging, Some(false));
    assert_eq!(state.eq_preset, Some(HardwarePreset::Music));
    assert_eq!(state.custom_eq, Some([2, 1, 0, 0, 0, 0, 0, 1, 2, 1]));
    assert_eq!(state.led_mode, Some(LedMode::Link));
    assert_eq!(state.headset_serial.as_deref(), Some("SIMHEADSET00001"));
    assert_eq!(state.dongle_serial.as_deref(), Some("SIMDONGLE000001"));
    assert_eq!(state.headset_firmware.as_deref(), Some("1.02.0.3"));
    assert_eq!(state.sidetone_level, Some(5));
}

#[test]
fn setters_roundtrip() {
    let mut dev = dongle();
    dev.set_sidetone_enabled(true).unwrap();
    dev.set_sidetone_level(12).unwrap();
    dev.set_sleep_minutes(45).unwrap();
    dev.set_bt_dnd(true).unwrap();
    dev.set_led_mode(LedMode::Battery).unwrap();
    assert!(dev.sidetone_enabled().unwrap());
    assert_eq!(dev.sidetone_level().unwrap(), 12);
    assert_eq!(dev.sleep_minutes().unwrap(), 45);
    assert!(dev.bt_dnd().unwrap());
    assert_eq!(dev.led_mode().unwrap(), Some(LedMode::Battery));
    assert!(dev.set_sidetone_level(16).is_err());
}

#[test]
fn custom_eq_sequence_and_offset() {
    let mut dev = dongle();
    let curve = [-9, -3, 0, 1, 2, 3, 4, 5, 6, 0];
    dev.apply_custom_eq(&curve).unwrap();
    assert_eq!(dev.eq_preset().unwrap(), HardwarePreset::Custom);
    assert_eq!(dev.custom_eq().unwrap(), curve);

    let log = dev.transport().request_log();
    let cmds: Vec<(u8, Vec<u8>)> = log.iter().map(|r| (r.cmd, r.params.clone())).collect();
    assert_eq!(
        cmds[..4],
        [
            (0x9E, vec![1]),
            (0x93, vec![0xFF]),
            (0x95, vec![0xFC, 2, 5, 6, 7, 8, 9, 10, 11, 5]),
            (0x93, vec![0xFF]),
        ]
    );
    // The enhancement flag is never touched as a side effect.
    assert!(log.iter().all(|r| r.cmd != 0x9D));
    assert!(log.iter().all(|r| r.domain == DOMAIN_HEADSET_RF));
}

#[test]
fn rom_preset_selection() {
    let mut dev = dongle();
    dev.set_enhancement(true).unwrap();
    dev.select_preset(HardwarePreset::Game).unwrap();
    assert!(dev.enhancement().unwrap());
    assert_eq!(dev.eq_preset().unwrap(), HardwarePreset::Game);
    // Switching presets leaves the Custom slot untouched.
    assert_eq!(dev.custom_eq().unwrap(), [2, 1, 0, 0, 0, 0, 0, 1, 2, 1]);
    assert!(dev.eq_enabled().unwrap());
}

#[test]
fn offline_headset_times_out_quickly_and_state_says_link_down() {
    let mut dev = dongle();
    dev.set_timeout(30);
    dev.transport_mut().set_link(false);
    assert!(matches!(dev.battery(), Err(Error::Timeout { cmd: 0x21, .. })));
    let state = dev.read_state().unwrap();
    assert_eq!(state.link_up, Some(false));
    assert_eq!(state.battery, None);
    // Dongle-local information is still available.
    assert_eq!(state.dongle_serial.as_deref(), Some("SIMDONGLE000001"));
}

#[test]
fn wired_uses_local_domain_and_has_no_dongle() {
    let mut dev = wired();
    let state = dev.read_state().unwrap();
    assert_eq!(state.link_up, Some(true));
    assert_eq!(state.dongle_serial, None);
    assert_eq!(state.led_mode, None);
    assert!(dev.set_led_mode(LedMode::Off).is_err());
    assert!(dev.transport().request_log().iter().all(|r| r.domain == DOMAIN_LOCAL));
}

#[test]
fn foreign_frames_are_queued_not_consumed() {
    let mut dev = dongle();
    // A stale reply from another process and a media-key report arrive first.
    dev.transport_mut()
        .inject(encode_response(0x7E, DOMAIN_HEADSET_RF, reg::BATTERY, 1, &[42]).to_vec());
    dev.transport_mut().inject(vec![0x0C, 0x01]);
    assert!(!dev.charging().unwrap());
    let events = dev.poll_incoming(0).unwrap();
    assert_eq!(events.len(), 2);
    assert!(matches!(&events[0], Incoming::Frame(r) if r.cmd == reg::BATTERY && r.payload == [42]));
    assert_eq!(
        events[1],
        Incoming::Other {
            report_id: 0x0C,
            data: vec![0x01]
        }
    );
}

#[test]
fn apply_reply_updates_state() {
    let mut state = HeadsetState::default();
    let reply = |domain: u8, cmd: u8, payload: &[u8]| -> Response {
        decode_response(&encode_response(0x60, domain, cmd, 1, payload)).unwrap()
    };
    assert!(state.apply_reply(&reply(DOMAIN_HEADSET_RF, reg::BATTERY, &[55]), Connection::Dongle));
    assert!(state.apply_reply(&reply(DOMAIN_HEADSET_RF, reg::EQ_PRESET, &[0x09]), Connection::Dongle));
    assert!(state.apply_reply(&reply(DOMAIN_LOCAL, reg::LINK_STATUS, &[1]), Connection::Dongle));
    assert!(state.apply_reply(&reply(DOMAIN_LOCAL, reg::SERIAL, b"DONGLE"), Connection::Dongle));
    // SET echoes and out-of-range values are ignored.
    assert!(!state.apply_reply(&reply(DOMAIN_HEADSET_RF, 0x98, &[1]), Connection::Dongle));
    assert!(!state.apply_reply(&reply(DOMAIN_HEADSET_RF, reg::BATTERY, &[200]), Connection::Dongle));
    // A dongle-local battery value does not describe the headset.
    assert!(!state.apply_reply(&reply(DOMAIN_LOCAL, reg::BATTERY, &[1]), Connection::Dongle));
    assert_eq!(state.battery, Some(55));
    assert_eq!(state.eq_preset, Some(HardwarePreset::Movie));
    assert_eq!(state.link_up, Some(true));
    assert_eq!(state.dongle_serial.as_deref(), Some("DONGLE"));
    assert_eq!(state.headset_serial, None);
}

#[test]
fn unsupported_register_does_not_mark_headset_offline() {
    let mut dev = dongle();
    dev.set_timeout(30);
    // Unknown register: the simulated headset stays silent but is linked.
    let read = dev.get_u8(DOMAIN_HEADSET_RF, 0x7A);
    assert_eq!(dev.try_read(read).unwrap(), None);
    dev.transport_mut().set_link(false);
    let read = dev.battery();
    assert!(matches!(dev.try_read(read), Err(Error::HeadsetOffline)));
}

#[test]
fn only_the_newest_events_are_kept() {
    let mut dev = dongle();
    for i in 0..70u8 {
        dev.transport_mut().inject(vec![0x0C, i]);
    }
    let events = dev.poll_incoming(0).unwrap();
    assert_eq!(events.len(), 64);
    assert_eq!(
        events[0],
        Incoming::Other {
            report_id: 0x0C,
            data: vec![6]
        }
    );
    assert_eq!(
        events[63],
        Incoming::Other {
            report_id: 0x0C,
            data: vec![69]
        }
    );
    assert!(dev.poll_incoming(0).unwrap().is_empty());
}

#[test]
fn a_curve_out_of_range_reads_back_clamped() {
    let mut dev = dongle();
    dev.apply_custom_eq(&[-20, 20, 0, 0, 0, 0, 0, 0, 0, 0]).unwrap();
    assert_eq!(dev.custom_eq().unwrap(), [-9, 6, 0, 0, 0, 0, 0, 0, 0, 0]);
}

#[test]
fn errors_of_odd_requests() {
    let mut dev = dongle();
    assert!(matches!(
        dev.transact(DOMAIN_HEADSET_RF, 0x95, &[0; 49]),
        Err(Error::InvalidArgument(_))
    ));
    // A write without a value is not answered.
    assert!(matches!(
        dev.get(DOMAIN_LOCAL, reg::set(reg::DONGLE_LED)),
        Err(Error::Timeout { .. })
    ));
    let mut sim = SimTransport::new(Connection::Dongle);
    assert_eq!(
        sim.write_report(&[0x07, 0x00]),
        Err(Error::Protocol(
            "simulator: report 0x07 is not a control frame".to_string()
        ))
    );
}

#[test]
fn simulator_settings() {
    let mut dev = BlackSharkV2Hs::new(
        SimTransport::configured(Connection::Dongle, Some("150"), false),
        models()[0],
        7,
        800,
    );
    assert_eq!(dev.battery().unwrap(), 100);
    let mut dev = BlackSharkV2Hs::new(
        SimTransport::configured(Connection::Dongle, Some("x"), true),
        models()[0],
        255,
        30,
    );
    assert!(!dev.link_up().unwrap());
    let sim = SimTransport::with_lock_key(Connection::Dongle, "hidraw3");
    assert_eq!(sim.lock_key().as_deref(), Some("hidraw3"));
    assert_eq!(SimTransport::new(Connection::Dongle).lock_key(), None);
}

#[test]
fn led_modes() {
    for mode in LedMode::ALL {
        assert_eq!(LedMode::from_raw(mode.raw()), mode);
        assert_eq!(LedMode::from_key(&mode.key()), Some(mode));
    }
    assert_eq!(LedMode::from_key("2"), Some(LedMode::Battery));
    assert_eq!(LedMode::from_raw(9), LedMode::Unknown(9));
    assert_eq!(LedMode::Unknown(9).key(), "9");
}

#[test]
fn counter_and_timeout_settings() {
    assert_eq!(start_counter(0x1234, 5 << 10), 0x34 ^ 5);
    assert_eq!(timeout_setting(None), 800);
    assert_eq!(timeout_setting(Some("1200")), 1200);
    assert_eq!(timeout_setting(Some("soon")), 800);
    assert_eq!(timeout_setting(Some("18446744073709551615")), u64::MAX);
    assert_eq!(timeout_setting(Some("18446744073709551616")), 800);
}

#[test]
fn forgetting_the_headset_keeps_the_dongle() {
    let mut dev = dongle();
    let mut state = dev.read_state().unwrap();
    state.clear_headset();
    assert_eq!(state.battery, None);
    assert_eq!(state.headset_serial, None);
    assert_eq!(state.dongle_serial.as_deref(), Some("SIMDONGLE000001"));
    assert_eq!(state.led_mode, Some(LedMode::Link));
}

fn registers() -> Registers {
    Registers {
        headset_serial: "HEADSET",
        dongle_serial: "DONGLE",
        headset_fw: [1, 2, 0, 3],
        dongle_fw: [1, 2, 0, 4],
        battery: 50,
        charging: 0,
        sleep: 15,
        dnd: 0,
        mic_mute: 0,
        led: 1,
        sidetone: 0,
        sidetone_level: 3,
        preset: 8,
        custom: [1, 2, 3, 4, 5, 6, -1, -2, -3, -9],
        eq_enable: 1,
        enhancement: 1,
    }
}

fn request(domain: u8, cmd: u8, params: &[u8]) -> Request {
    Request {
        seq: 0x61,
        domain,
        cmd,
        params: params.to_vec(),
    }
}

#[test]
fn requests_without_a_link_leave_no_trace() {
    let mut lost = registers();
    for cmd in [0x13, 0x93, 0x95, 0x98, 0x99, 0x9D, 0x9E, 0xA7, 0xAC] {
        let req = request(DOMAIN_HEADSET_RF, cmd, &[0; 10]);
        assert_eq!(lost.handle(Connection::Dongle, false, &req), None);
    }
    let mut kept = registers();
    for cmd in 0..0x80 {
        for domain in [DOMAIN_HEADSET_RF, DOMAIN_LOCAL] {
            let req = request(domain, cmd, &[]);
            assert_eq!(
                lost.handle(Connection::Dongle, true, &req),
                kept.handle(Connection::Dongle, true, &req)
            );
        }
    }
}

#[test]
fn curves_are_stored_with_the_offset_and_read_in_decibel() {
    let mut regs = registers();
    let read = request(DOMAIN_HEADSET_RF, reg::EQ_BANDS, &[]);
    let bands = [1, 2, 3, 4, 5, 6, -1, -2, -3, -9];
    let wire = eq_to_wire(&bands);
    assert_eq!(wire, [0x06, 0x07, 0x08, 0x09, 0x0A, 0x0B, 0x04, 0x03, 0x02, 0xFC]);
    let write = request(DOMAIN_HEADSET_RF, 0x95, &wire);
    assert_eq!(regs.handle(Connection::Dongle, true, &write), Some(vec![0]));
    assert_eq!(
        regs.handle(Connection::Dongle, true, &read),
        Some(vec![0x01, 0x02, 0x03, 0x04, 0x05, 0x06, 0xFF, 0xFE, 0xFD, 0xF7])
    );
    let steep = [i8::MIN, i8::MAX, 7, -10, 0, 0, 0, 0, 0, 0];
    let write = request(DOMAIN_LOCAL, 0x95, &eq_to_wire(&steep));
    let read = request(DOMAIN_LOCAL, reg::EQ_BANDS, &[]);
    assert_eq!(regs.handle(Connection::Wired, false, &write), Some(vec![0]));
    let payload = regs.handle(Connection::Wired, false, &read).unwrap();
    assert_eq!(eq_from_payload(&payload), Some(clamp_bands(steep)));
    assert_eq!(payload[..4], [0xF7, 6, 6, 0xF7]);
}

#[test]
fn any_preset_slot_is_confirmed_and_known_ones_are_selected() {
    for slot in 0..=255u8 {
        let mut regs = registers();
        let write = request(DOMAIN_HEADSET_RF, 0x93, &[slot]);
        assert_eq!(regs.handle(Connection::Dongle, true, &write), Some(vec![0]));
        let mut answer = |cmd: u8| regs.handle(Connection::Dongle, true, &request(DOMAIN_HEADSET_RF, cmd, &[]));
        let active = if matches!(slot, 0 | 7 | 8 | 9 | 0xFF) { slot } else { 8 };
        assert_eq!(answer(0x13), Some(vec![active]));
        assert_eq!(answer(0x15), Some(vec![1, 2, 3, 4, 5, 6, 0xFF, 0xFE, 0xFD, 0xF7]));
        assert_eq!(answer(0x1D), Some(vec![1]));
    }
}

#[test]
fn writes_are_answered_with_one_zero_byte() {
    let mut dev = dongle();
    let reply = dev.transact(DOMAIN_HEADSET_RF, 0x98, &[1]).unwrap();
    assert_eq!(reply.payload, vec![0]);
    assert_eq!(reply.status, 1);
    let reply = dev.transact(DOMAIN_LOCAL, 0xE6, &[2]).unwrap();
    assert_eq!(reply.payload, vec![0]);
    // A preset slot that the headset does not know.
    let reply = dev.transact(DOMAIN_HEADSET_RF, 0x93, &[5]).unwrap();
    assert_eq!(reply.payload, vec![0]);
    assert_eq!(dev.eq_preset().unwrap(), HardwarePreset::Music);
}

#[test]
fn a_waiting_reply_is_never_taken_for_the_answer() {
    let mut dev = dongle();
    // Sequence number and command are those of the next exchange.
    let stale = encode_response(sequence_byte(1), DOMAIN_HEADSET_RF, reg::BATTERY, 1, &[42]);
    dev.transport_mut().inject(vec![0x0C, 0x01]);
    dev.transport_mut().inject(stale.to_vec());
    dev.transport_mut().inject(vec![0x05, 0x07]);
    let reply = dev.transact(DOMAIN_HEADSET_RF, reg::BATTERY, &[]).unwrap();
    assert_eq!(reply.seq, sequence_byte(1));
    assert_eq!(reply.payload, vec![76]);
    assert_eq!(dev.transport().request_log().len(), 1);
    dev.transport_mut().inject(vec![0x0C, 0x02]);
    let events = dev.poll_incoming(0).unwrap();
    assert_eq!(events.len(), 4);
    assert!(matches!(&events[0], Incoming::Other { report_id: 0x0C, data } if data == &[1]));
    assert!(matches!(&events[1], Incoming::Frame(r) if r.seq == sequence_byte(1) && r.payload == [42]));
    assert!(matches!(&events[2], Incoming::Other { report_id: 0x05, data } if data == &[7]));
    assert!(matches!(&events[3], Incoming::Other { report_id: 0x0C, data } if data == &[2]));
}

#[test]
fn too_many_parameters_are_not_sent() {
    let mut dev = dongle();
    dev.transport_mut().inject(vec![0x0C, 0x01]);
    assert_eq!(
        dev.transact(DOMAIN_HEADSET_RF, 0x95, &[0; 49]),
        Err(Error::InvalidArgument("too many parameters (49 > 48)".to_string()))
    );
    assert!(dev.transport().request_log().is_empty());
    assert_eq!(dev.poll_incoming(0).unwrap().len(), 1);
}
