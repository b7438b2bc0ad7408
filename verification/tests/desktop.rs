use synapse_core::config::{Config, Notifications};
use synapse_core::desktop::icon::{rgba_to_argb, tray_bar, tray_color, AMBER, GREEN, GREY, RED};
use synapse_core::desktop::launch::{
    autostart_entry, grant_command, install_failure, instance_dir, instance_step, is_noto_font, parse_options,
    InstanceStep, Launch,
};
use synapse_core::desktop::session::{
    add_toast, check_due, curve_selected, dongle_present, drag_band, eq_picture, expire_toasts, gain_label,
    label_above, mic_badge, mic_card, optimistic, preset_selected, scroll_band, unusual_sleep, EqGraphOutput, MicBadge,
    MicCard, Session, ToastKind,
};
use synapse_core::desktop::tray::{preset_request, MenuEntry, Notice, Notifier, StatusTexts, TrayView};
use synapse_core::ctl::report::MicCleanStatus;
use synapse_core::devices::blackshark_v2_hs::HeadsetState;
use synapse_core::eq::{HardwarePreset, FLAT};
use synapse_core::hid::lock::Attempt;
use synapse_core::manager::{Phase, Problem, Request, Snapshot};

#[test]
fn pixels_and_colors() {
    assert_eq!(rgba_to_argb(&[1, 2, 3, 4]), vec![4, 1, 2, 3]);
    assert_eq!(rgba_to_argb(&[1, 2, 3, 4, 5, 6, 7, 8, 9]), vec![4, 1, 2, 3, 8, 5, 6, 7]);
    assert_eq!(tray_color(false, Some(80)), GREY);
    assert_eq!(tray_color(true, Some(15)), RED);
    assert_eq!(tray_color(true, Some(35)), AMBER);
    assert_eq!(tray_color(true, Some(36)), GREEN);
    assert_eq!(tray_color(true, None), GREEN);
    assert_eq!(tray_bar(true, Some(120)), Some(100));
    assert_eq!(tray_bar(false, Some(50)), None);
}

fn ready(battery: u8, charging: bool) -> Snapshot {
    let mut snap = Snapshot::default();
    snap.phase = Phase::Ready;
    snap.state.battery = Some(battery);
    snap.state.charging = Some(charging);
    snap
}

#[test]
fn low_battery_is_announced_once() {
    let prefs = Notifications::default();
    let mut n = Notifier::new();
    assert_eq!(n.update(&ready(20, false), &prefs), vec![Notice::LowBattery(20)]);
    assert_eq!(n.update(&ready(19, false), &prefs), vec![]);
    // Not far enough above the threshold to start over.
    assert_eq!(n.update(&ready(25, false), &prefs), vec![]);
    assert_eq!(n.update(&ready(20, false), &prefs), vec![]);
    assert_eq!(n.update(&ready(26, false), &prefs), vec![]);
    assert_eq!(n.update(&ready(20, false), &prefs), vec![Notice::LowBattery(20)]);
}

#[test]
fn full_charge_and_connection_are_announced() {
    let mut prefs = Notifications::default();
    prefs.connection = true;
    let mut n = Notifier::new();
    assert_eq!(n.update(&Snapshot::default(), &prefs), vec![]);
    assert_eq!(
        n.update(&ready(100, true), &prefs),
        vec![Notice::Connected, Notice::FullCharge]
    );
    assert_eq!(n.update(&ready(100, true), &prefs), vec![]);
    assert_eq!(n.update(&Snapshot::default(), &prefs), vec![Notice::Disconnected]);
    prefs.enabled = false;
    assert_eq!(n.update(&ready(5, false), &prefs), vec![]);
}

#[test]
fn tray_status_and_menu() {
    let texts = StatusTexts {
        battery: "Battery",
        percent: "76%",
        unknown: "?",
        charging: "charging",
        offline: "off",
        permission: "denied",
        connecting: "wait",
        no_device: "none",
    };
    let mut snap = ready(76, true);
    snap.state.eq_preset = Some(HardwarePreset::Movie);
    snap.state.sidetone_enabled = Some(true);
    let view = TrayView::from_snapshot(&snap);
    assert_eq!(view.status_line(&texts), "Battery: 76% · charging");
    assert_eq!(view.title(), "Synapse for Linux");
    assert_eq!(
        view.menu(),
        vec![
            MenuEntry::Open,
            MenuEntry::Separator,
            MenuEntry::Status,
            MenuEntry::Presets { selected: Some(2) },
            MenuEntry::Sidetone { checked: true },
            MenuEntry::Separator,
            MenuEntry::Quit,
        ]
    );
    assert_eq!(view.sidetone_request(), Request::SetSidetone(false));
    assert_eq!(preset_request(2), Some(Request::SelectPreset(HardwarePreset::Movie)));
    assert_eq!(preset_request(5), None);
    let empty = TrayView::empty();
    assert_eq!(empty.status_line(&texts), "none");
    assert_eq!(empty.menu().len(), 5);
    assert!(empty.same_as(&TrayView::empty()));
    assert!(!view.same_as(&empty));
}

#[test]
fn expected_values_are_shown_until_confirmed() {
    let mut session = Session::new();
    let mut state = HeadsetState::default();
    session.act(&mut state, Request::SetSidetoneLevel(9));
    assert_eq!(state.sidetone_level, Some(9));

    let mut snap = ready(50, false);
    snap.pending = 1;
    let noticed = session.sync(&mut snap);
    assert_eq!(snap.state.sidetone_level, Some(9));
    assert!(!noticed.saved && !noticed.problem);

    let mut snap = ready(50, false);
    snap.state.sidetone_level = Some(8);
    let noticed = session.sync(&mut snap);
    assert_eq!(snap.state.sidetone_level, Some(8));
    assert!(noticed.saved);

    // A failure is reported once, and nothing is then said to be saved.
    session.act(&mut state, Request::SetBtDnd(true));
    let mut snap = ready(50, false);
    snap.problem = Some((1, Problem::Timeout));
    let noticed = session.sync(&mut snap);
    assert!(noticed.problem && !noticed.saved);
    assert!(!session.sync(&mut snap).problem);
}

#[test]
fn optimistic_values() {
    let mut state = HeadsetState::default();
    optimistic(&mut state, &Request::ApplyCustomEq([1; 10]));
    assert_eq!(state.eq_preset, Some(HardwarePreset::Custom));
    assert_eq!(state.custom_eq, Some([1; 10]));
}

#[test]
fn curve_editing() {
    let mut session = Session::new();
    let mut state = HeadsetState::default();
    let mut config = Config::default();
    let out = |changed, committed, scrolled| EqGraphOutput {
        changed,
        committed,
        scrolled,
    };
    // The wheel applies after a pause.
    assert_eq!(session.graph_done([1; 10], out(true, false, true), 1000), None);
    assert_eq!(session.curve_due(1699), None);
    assert_eq!(session.curve_due(1700), Some([1; 10]));
    // A drag that ends applies at once.
    assert_eq!(session.graph_done([2; 10], out(true, true, false), 2000), Some([2; 10]));
    assert_eq!(
        session.apply_curve(&mut state, &mut config, [2; 10]),
        Request::ApplyCustomEq([2; 10])
    );
    assert_eq!(session.eq_edit, None);
    assert_eq!(config.last_custom_curve, Some([2; 10]));
    // By hand.
    session.auto_apply = false;
    assert_eq!(session.graph_done([3; 10], out(true, true, false), 3000), None);
    assert_eq!(session.eq_edit, Some([3; 10]));
    session.revert();
    assert_eq!(session.reset_flat(), None);
    assert_eq!(session.eq_edit, Some(FLAT));
    session.auto_apply = true;
    assert_eq!(session.reset_flat(), Some(FLAT));
    session.select_preset(&mut state, HardwarePreset::Game);
    assert_eq!(session.eq_edit, None);
}

#[test]
fn equalizer_picture() {
    let mut state = HeadsetState::default();
    assert_eq!(eq_picture(&state, None).displayed, FLAT);
    state.custom_eq = Some([1; 10]);
    state.eq_preset = Some(HardwarePreset::Music);
    let picture = eq_picture(&state, None);
    assert_eq!(picture.live, [3, 2, 1, 0, 0, 0, 1, 2, 3, 2]);
    assert!(picture.rom_active && !picture.custom_active);
    assert!(preset_selected(&state, &None, HardwarePreset::Music));
    state.eq_preset = Some(HardwarePreset::Custom);
    let picture = eq_picture(&state, None);
    assert!(curve_selected(&picture, &[1; 10]));
    assert!(!curve_selected(&eq_picture(&state, Some([2; 10])), &[1; 10]));
    assert_eq!(eq_picture(&state, Some([2; 10])).displayed, [2; 10]);
}

#[test]
fn graph_handles() {
    let mut bands = FLAT;
    assert!(drag_band(&mut bands, 3, 20));
    assert_eq!(bands[3], 6);
    assert!(!drag_band(&mut bands, 3, 6));
    assert!(scroll_band(&mut bands, 3, -2));
    assert_eq!(bands[3], 4);
    assert!(scroll_band(&mut bands, 3, 100));
    assert_eq!(bands[3], 6);
    assert!(!scroll_band(&mut bands, 3, 1));
    assert_eq!(gain_label(3), "+3");
    assert_eq!(gain_label(0), "0");
    assert_eq!(gain_label(-4), "-4");
    assert!(label_above(4));
    assert!(!label_above(5));
}

#[test]
fn sidetone_slider() {
    let mut session = Session::new();
    let mut state = HeadsetState::default();
    state.sidetone_enabled = Some(false);
    assert_eq!(session.shown_level(&state), 0);
    assert!(session.slide(&mut state, 4, true, false, true).is_empty());
    assert_eq!(session.shown_level(&state), 4);
    assert_eq!(
        session.slide(&mut state, 5, false, true, false),
        vec![Request::SetSidetoneLevel(5), Request::SetSidetone(true)]
    );
    assert_eq!(session.sidetone_drag, None);
    assert_eq!(
        session.slide(&mut state, 6, false, false, true),
        vec![Request::SetSidetoneLevel(6)]
    );
}

#[test]
fn page_rules() {
    assert_eq!(mic_badge(true, Some(true)), MicBadge::Muted);
    assert_eq!(mic_badge(true, Some(false)), MicBadge::Live);
    assert_eq!(mic_badge(false, Some(false)), MicBadge::Unknown);
    assert_eq!(unusual_sleep(Some(15)), None);
    assert_eq!(unusual_sleep(Some(20)), Some(20));
    assert_eq!(unusual_sleep(None), None);
    assert!(!dongle_present(&ready(1, false)));
    assert!(check_due(None, 0, 8000));
    assert!(!check_due(Some(1000), 9000, 8000));
    assert!(check_due(Some(1000), 9001, 8000));
}

#[test]
fn toasts() {
    let list = add_toast(Vec::new(), "a".to_string(), ToastKind::Error, 0);
    let list = add_toast(list, "b".to_string(), ToastKind::Success, 0);
    let list = add_toast(list, "a".to_string(), ToastKind::Info, 1000);
    assert_eq!(list.len(), 2);
    assert_eq!(list[1].until_ms, 4000);
    let list = expire_toasts(list, 2000);
    assert_eq!(list.len(), 1);
    assert_eq!(list[0].text, "a");
}

#[test]
fn options_and_texts() {
    let args = |s: &str| s.split(' ').filter(|a| !a.is_empty()).map(String::from).collect::<Vec<_>>();
    assert_eq!(parse_options(&args("")), Launch::Window);
    assert_eq!(parse_options(&args("--simulate --tray")), Launch::Tray);
    assert_eq!(parse_options(&args("--tray --help")), Launch::Help);
    assert_eq!(parse_options(&args("-V")), Launch::Version);
    assert_eq!(parse_options(&args("--print-udev-rule")), Launch::PrintUdevRule);
    assert_eq!(parse_options(&args("--tray -x")), Launch::Unknown(1));
    let entry = autostart_entry("/opt/a\"b\\c", true);
    assert!(entry.contains("Exec=\"/opt/a\\\"b\\\\c\" --tray --simulate\n"));
    assert!(grant_command("/usr/bin/x").starts_with("\"/usr/bin/x\" --print-udev-rule | sudo tee"));
    assert_eq!(install_failure(" no \n", "exit status: 1"), "no");
    assert_eq!(install_failure(" ", "exit status: 1"), "pkexec exited with exit status: 1");
}

#[test]
fn instances_and_fonts() {
    assert_eq!(instance_dir(Some("/run/user/7"), "/tmp", 7), "/run/user/7/synapse-linux");
    assert_eq!(instance_dir(None, "/tmp", 7), "/tmp/synapse-linux-7/synapse-linux");
    assert_eq!(instance_step(Attempt::Locked, 0), InstanceStep::Alone);
    assert_eq!(instance_step(Attempt::Busy, 3), InstanceStep::Retry);
    assert_eq!(instance_step(Attempt::Busy, 4), InstanceStep::Rival);
    assert_eq!(instance_step(Attempt::Failed, 0), InstanceStep::Fail);
    assert!(is_noto_font("/usr/share/fonts/NotoSans-Bold.TTF"));
    assert!(!is_noto_font("/usr/share/fonts/NotoSans-Bold.otf"));
    assert!(!is_noto_font("/usr/share/fonts/DejaVuSans.ttf"));
}

#[test]
fn noise_suppression_card() {
    let status = |plugin_available, active, enabled, is_default| {
        Some(MicCleanStatus {
            plugin_available,
            active,
            enabled,
            is_default,
            target: None,
        })
    };
    assert_eq!(mic_card(&None), MicCard::Checking);
    assert_eq!(mic_card(&status(false, true, true, true)), MicCard::Unavailable);
    assert_eq!(
        mic_card(&status(true, false, true, false)),
        MicCard::Switch {
            on: true,
            running: false,
            offer_default: false
        }
    );
    assert_eq!(
        mic_card(&status(true, true, false, false)),
        MicCard::Switch {
            on: true,
            running: true,
            offer_default: true
        }
    );
}
