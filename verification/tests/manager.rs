use std::sync::{Arc, Mutex};

use synapse_core::devices::blackshark_v2_hs::protocol::{encode_response, reg};
use synapse_core::devices::blackshark_v2_hs::sim::SimTransport;
use synapse_core::devices::blackshark_v2_hs::LedMode;
use synapse_core::devices::{models, open, simulated, BlackSharkV2Hs, Connection, Device, FoundDevice};
use synapse_core::eq::HardwarePreset;
use synapse_core::error::IoError;
use synapse_core::hid::Transport;
use synapse_core::manager::{
    coalesce, format_clock, ManagerOptions, Phase, Problem, Request, Snapshot, LOG_LINES,
};
use synapse_core::worker::{choose_device, Tick, Worker};
use synapse_core::Error;

/// Lets a test inject frames into a simulated device the worker owns.
struct SharedSim(Arc<Mutex<SimTransport>>);

impl Transport for SharedSim {
    fn write_report(&mut self, report: &[u8]) -> Result<(), Error> {
        self.0.lock().unwrap().write_report(report)
    }
    fn read_report(&mut self, buf: &mut [u8], timeout_us: u64) -> Result<Option<usize>, Error> {
        self.0.lock().unwrap().read_report(buf, timeout_us)
    }
    fn now_us(&mut self) -> u64 {
        self.0.lock().unwrap().now_us()
    }
    fn pause(&mut self, ms: u64) {
        self.0.lock().unwrap().pause(ms)
    }
    fn acquire(&mut self) -> Result<(), Error> {
        self.0.lock().unwrap().acquire()
    }
    fn release(&mut self) {
        self.0.lock().unwrap().release()
    }
}

fn test_worker() -> (Worker<SharedSim>, Arc<Mutex<SimTransport>>) {
    let sim = Arc::new(Mutex::new(SimTransport::new(Connection::Dongle)));
    let mut worker = Worker::new(ManagerOptions::new(true));
    let dev = BlackSharkV2Hs::new(SharedSim(Arc::clone(&sim)), models()[0], 0, 800);
    worker.opened(&simulated()[0], dev);
    assert!(worker.snapshot().is_ready());
    (worker, sim)
}

/// What the manager's loop does with a batch of requests.
fn run_requests<T: Transport>(worker: &mut Worker<T>, batch: Vec<Request>) {
    for request in worker.start_batch_or_stop(&batch, false) {
        assert!(!worker.execute(request));
        worker.finish_request();
    }
}

/// End-to-end over the simulator: connect, read, change settings.
#[test]
fn manager_drives_simulated_headset() {
    let mut worker: Worker<SimTransport> = Worker::new(ManagerOptions {
        poll_interval_ms: 200,
        rescan_interval_ms: 50,
        simulate: true,
    });
    assert_eq!(worker.tick(1000), Tick::Connect);
    let found = simulated();
    let chosen = choose_device(&found).unwrap();
    let transport = SimTransport::new(found[chosen].model.connection);
    let Device::BlackSharkV2Hs(dev) = open(&found[chosen], transport, 0, 800);
    worker.opened(&found[chosen], dev);
    worker.schedule_poll(1000);
    assert_eq!(worker.tick(1001), Tick::Serve);

    let snap = worker.snapshot();
    assert!(snap.is_ready());
    assert_eq!(snap.state.battery, Some(76));
    assert!(snap.device.as_ref().unwrap().simulated);
    assert!(snap.revision > 0);

    worker.set_pending(4);
    run_requests(
        &mut worker,
        vec![
            Request::SetSidetone(true),
            Request::SetSidetoneLevel(3),
            Request::SetSidetoneLevel(9), // coalesced with the previous one
            Request::SelectPreset(HardwarePreset::Game),
        ],
    );
    let snap = worker.snapshot();
    assert_eq!(snap.pending, 0);
    assert_eq!(snap.state.sidetone_level, Some(9));
    assert_eq!(snap.state.sidetone_enabled, Some(true));
    assert_eq!(snap.state.eq_preset, Some(HardwarePreset::Game));
    assert_eq!(snap.state.custom_eq, Some([2, 1, 0, 0, 0, 0, 0, 1, 2, 1]));

    let curve = [1, 2, 3, 4, 5, 6, -1, -2, -3, -9];
    run_requests(&mut worker, vec![Request::ApplyCustomEq(curve)]);
    let snap = worker.snapshot();
    assert_eq!(snap.state.custom_eq, Some(curve));
    assert_eq!(snap.state.eq_preset, Some(HardwarePreset::Custom));
    assert!(snap.problem.is_none(), "{:?}", snap.problem);

    run_requests(
        &mut worker,
        vec![
            Request::SetSidetoneLevel(15),
            Request::SetLedMode(LedMode::Off),
            Request::SetSleepMinutes(0),
        ],
    );
    let snap = worker.snapshot();
    assert_eq!(snap.state.led_mode, Some(LedMode::Off));
    assert_eq!(snap.state.sleep_minutes, Some(0));
    assert_eq!(snap.state.sidetone_level, Some(15));
}

/// Replies to *other* programs' reads must never trigger reads of our own,
/// otherwise the GUI and the tray keep answering each other forever.
#[test]
fn foreign_replies_update_state_without_triggering_reads() {
    let (mut worker, sim) = test_worker();
    let frame = |cmd: u8, payload: &[u8]| encode_response(0x61, 0x80, cmd, 1, payload).to_vec();

    sim.lock().unwrap().inject(frame(reg::EQ_PRESET, &[0x07]));
    sim.lock().unwrap().inject(frame(reg::BATTERY, &[42]));
    worker.listen();
    assert!(worker.dirty().is_empty(), "{:?}", worker.dirty());
    let state = worker.snapshot().state;
    assert_eq!(state.eq_preset, Some(HardwarePreset::Game));
    assert_eq!(state.battery, Some(42));

    // A SET echo means another program changed something: re-read just that.
    sim.lock().unwrap().inject(frame(reg::set(reg::SIDETONE_LEVEL), &[0]));
    worker.listen();
    assert_eq!(worker.dirty(), vec![reg::SIDETONE_LEVEL]);
    let before = sim.lock().unwrap().request_log().len();
    worker.reread_dirty();
    let requests = sim.lock().unwrap().request_log()[before..].to_vec();
    assert_eq!(requests.len(), 1);
    assert_eq!(requests[0].cmd, reg::SIDETONE_LEVEL);
    assert!(worker.dirty().is_empty());
}

/// When requests pile up, the user's last action must win.
#[test]
fn coalesced_requests_keep_the_order_of_the_newest() {
    let (mut worker, _sim) = test_worker();
    let (b1, b2) = ([1; 10], [2; 10]);
    worker.set_pending(3);
    run_requests(
        &mut worker,
        vec![
            Request::ApplyCustomEq(b1),
            Request::SelectPreset(HardwarePreset::Game),
            Request::ApplyCustomEq(b2),
        ],
    );
    let snap = worker.snapshot();
    assert_eq!(snap.state.eq_preset, Some(HardwarePreset::Custom));
    assert_eq!(snap.state.custom_eq, Some(b2));
    assert_eq!(snap.pending, 0);
}

#[test]
fn coalescing() {
    let a = Request::SetSidetoneLevel(1);
    let b = Request::SetBtDnd(true);
    let c = Request::SetSidetoneLevel(2);
    assert_eq!(coalesce(&vec![a, b, c]), vec![b, c]);
    assert_eq!(coalesce(&vec![]), vec![]);
}

#[test]
fn clock_format() {
    let text = format_clock(Some((9, 5, 59)));
    assert_eq!(text, "09:05:59");
    assert_eq!(text.len(), 8);
    assert_eq!(&text[2..3], ":");
    assert_eq!(format_clock(None), "--:--:--");
}

#[test]
fn a_lost_headset_is_noticed_and_found_again() {
    let (mut worker, sim) = test_worker();
    sim.lock().unwrap().set_link(false);
    worker.poll();
    let snap = worker.snapshot();
    assert_eq!(snap.phase, Phase::HeadsetOffline);
    assert_eq!(snap.state.link_up, Some(false));
    assert_eq!(snap.state.battery, None);
    assert_eq!(snap.state.dongle_serial.as_deref(), Some("SIMDONGLE000001"));

    // The headset cannot be set up now, the dongle can.
    assert!(!worker.execute(Request::SetBtDnd(true)));
    let snap = worker.snapshot();
    assert_eq!(snap.problem, Some((1, Problem::HeadsetOffline)));
    assert_eq!(
        snap.log.back().unwrap().text,
        "SetBtDnd(true) failed: the headset is not connected to the dongle (powered off or out of range)"
    );
    assert!(!worker.execute(Request::SetLedMode(LedMode::Battery)));
    assert_eq!(worker.snapshot().state.led_mode, Some(LedMode::Battery));

    sim.lock().unwrap().set_link(true);
    worker.poll();
    assert!(worker.snapshot().is_ready());
    assert_eq!(worker.snapshot().state.battery, Some(76));
}

/// A channel whose device was unplugged.
struct Gone;

impl Transport for Gone {
    fn write_report(&mut self, _report: &[u8]) -> Result<(), Error> {
        Err(Error::Disconnected)
    }
    fn read_report(&mut self, _buf: &mut [u8], _timeout_us: u64) -> Result<Option<usize>, Error> {
        Err(Error::Disconnected)
    }
    fn now_us(&mut self) -> u64 {
        0
    }
    fn pause(&mut self, _ms: u64) {}
    fn acquire(&mut self) -> Result<(), Error> {
        Ok(())
    }
    fn release(&mut self) {}
}

#[test]
fn an_unplugged_device_is_forgotten() {
    let mut worker = Worker::new(ManagerOptions::new(false));
    worker.set_wall_clock(77);
    let found = simulated();
    worker.opened(&found[0], BlackSharkV2Hs::new(Gone, models()[0], 0, 800));
    assert!(!worker.is_connected());
    let snap = worker.snapshot();
    assert_eq!(snap.phase, Phase::NoDevice);
    assert!(snap.device.is_none());
    let lines: Vec<String> = snap.log.iter().map(|l| l.text.clone()).collect();
    assert_eq!(
        lines,
        vec![
            "connected to Razer BlackShark V2 HyperSpeed (simulated)".to_string(),
            "device disconnected".to_string(),
        ]
    );
    assert_eq!(snap.log.back().unwrap().time, 77);
    // Without a device: a refresh asks to connect, anything else fails.
    assert!(worker.execute(Request::Refresh));
    assert!(!worker.execute(Request::SetBtDnd(true)));
    assert_eq!(worker.snapshot().problem, Some((1, Problem::NotConnected)));
    assert_eq!(worker.wait_ms(0), 0);
    assert_eq!(worker.tick(10), Tick::Connect);
    assert_eq!(worker.tick(10), Tick::Idle);
    assert_eq!(worker.wait_ms(10), 500);
    assert_eq!(worker.wait_ms(2000), 10);
}

#[test]
fn devices_that_cannot_be_opened() {
    let mut worker: Worker<SimTransport> = Worker::new(ManagerOptions::new(false));
    worker.no_device();
    assert_eq!(worker.snapshot().phase, Phase::NoDevice);
    let found: Vec<FoundDevice> = simulated();
    let denied = || Error::PermissionDenied {
        path: "/dev/hidraw3".to_string(),
    };
    worker.open_failed(&found[0], denied());
    worker.open_failed(&found[0], denied());
    let snap = worker.snapshot();
    assert_eq!(snap.phase, Phase::PermissionDenied("/dev/hidraw3".to_string()));
    assert_eq!(snap.log.len(), 1);
    worker.open_failed(&found[0], Error::Disconnected);
    let snap = worker.snapshot();
    assert_eq!(snap.phase, Phase::NoDevice);
    assert_eq!(snap.log.back().unwrap().text, "cannot open simulated: device disconnected");
}

#[test]
fn the_log_keeps_its_newest_lines() {
    let mut snap = Snapshot::default();
    for i in 0..(LOG_LINES as u64 + 5) {
        snap.log_line(i, "x".to_string());
    }
    assert_eq!(snap.log.len(), LOG_LINES);
    assert_eq!(snap.log.front().unwrap().time, 5);
}

#[test]
fn problems_by_error() {
    let busy = Error::Io(IoError {
        os_code: None,
        timed_out: true,
        message: "busy".to_string(),
    });
    assert_eq!(Problem::from_error(&busy), Problem::Busy);
    assert_eq!(Problem::from_error(&Error::NoDevice), Problem::NotConnected);
    assert_eq!(
        Problem::from_error(&Error::EmptyResponse { cmd: 1 }),
        Problem::Timeout
    );
    assert_eq!(
        Problem::from_error(&Error::Protocol("odd".to_string())),
        Problem::Other("protocol error: odd".to_string())
    );
}

#[test]
fn requests_in_words() {
    let requests = [
        Request::Refresh,
        Request::SetSidetone(true),
        Request::SetSidetoneLevel(9),
        Request::SetSleepMinutes(0),
        Request::SetBtDnd(false),
        Request::SetLedMode(LedMode::Unknown(7)),
        Request::SelectPreset(HardwarePreset::Game),
        Request::SelectPreset(HardwarePreset::Unknown(66)),
        Request::ApplyCustomEq([1, -2, 3, 0, 0, 0, 0, 0, 0, -9]),
        Request::SetEnhancement(true),
        Request::SetEqEnabled(false),
    ];
    for request in requests {
        assert_eq!(request.describe(), format!("{request:?}"));
    }
}

#[test]
fn nothing_is_executed_once_a_shutdown_is_queued() {
    let batch = vec![
        Request::SetSidetone(true),
        Request::SetSidetoneLevel(3),
        Request::SetSidetoneLevel(9),
    ];
    let (mut worker, sim) = test_worker();
    let asked = sim.lock().unwrap().request_log().len();
    worker.set_pending(5);
    let revision = worker.snapshot().revision;
    assert!(worker.start_batch_or_stop(&batch, true).is_empty());
    let snap = worker.snapshot();
    assert_eq!(snap.pending, 2);
    // One change for what was skipped, and one for each that was dropped.
    assert_eq!(snap.revision, revision + 3);
    assert_eq!(sim.lock().unwrap().request_log().len(), asked);
    // Without a shutdown only what is skipped waits no more.
    worker.set_pending(5);
    assert_eq!(
        worker.start_batch_or_stop(&batch, false),
        vec![Request::SetSidetone(true), Request::SetSidetoneLevel(9)]
    );
    assert_eq!(worker.snapshot().pending, 4);
    assert_eq!(
        worker.start_batch(&batch),
        vec![Request::SetSidetone(true), Request::SetSidetoneLevel(9)]
    );
    assert_eq!(worker.snapshot().pending, 3);
}
