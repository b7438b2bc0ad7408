use synapse_core::devices::{
    lookup, models, select_devices, simulated, simulation_requested, Connection, Location, RAZER_VID,
};
use synapse_core::hid::descriptor::{find_report, parse_reports, ReportInfo, ReportKind};
use synapse_core::hid::sysfs::{collect_nodes, natural_key, parse_uevent, ClassEntry, HidrawNode};

/// Report descriptor of the Razer BlackShark V2 HyperSpeed dongle (1532:0565), interface 3.
const BLACKSHARK_V2_HS_DONGLE: [u8; 191] = [
    0x06, 0x13, 0xFF, 0x09, 0x01, 0xA1, 0x01, 0x15, 0x00, 0x26, 0xFF, 0x00, 0x85, 0x06, 0x09, 0x00, 0x75, 0x08, 0x95,
    0x3D, 0x91, 0x02, 0x85, 0x07, 0x09, 0x00, 0x75, 0x08, 0x95, 0x3D, 0x81, 0x02, 0xC0, 0x05, 0x0C, 0x09, 0x01, 0xA1,
    0x01, 0x85, 0x0C, 0x15, 0x00, 0x25, 0x01, 0x09, 0xE9, 0x09, 0xEA, 0x09, 0xE2, 0x09, 0xCD, 0x09, 0xB5, 0x09, 0xB6,
    0x75, 0x01, 0x95, 0x06, 0x81, 0x02, 0x09, 0x00, 0x95, 0x02, 0x81, 0x02, 0xC0, 0x05, 0x0B, 0x09, 0x05, 0xA1, 0x01,
    0x15, 0x00, 0x25, 0x01, 0x75, 0x01, 0x85, 0x05, 0x09, 0x20, 0x95, 0x01, 0x81, 0x22, 0x09, 0x2F, 0x95, 0x01, 0x81,
    0x06, 0x09, 0x24, 0x09, 0x21, 0x09, 0x97, 0x09, 0x2A, 0x09, 0x50, 0x95, 0x05, 0x81, 0x06, 0x09, 0x07, 0x05, 0x09,
    0x09, 0x01, 0x75, 0x01, 0x95, 0x01, 0x81, 0x02, 0x05, 0x08, 0x85, 0x05, 0x09, 0x17, 0x09, 0x09, 0x09, 0x18, 0x09,
    0x20, 0x09, 0x21, 0x09, 0x2A, 0x95, 0x06, 0x91, 0x22, 0x95, 0x02, 0x91, 0x01, 0xC0, 0x06, 0x14, 0xFF, 0x09, 0x01,
    0xA1, 0x01, 0x15, 0x00, 0x26, 0xFF, 0x00, 0x85, 0x02, 0x09, 0x00, 0x75, 0x08, 0x95, 0x08, 0xB2, 0x02, 0x01, 0x85,
    0x02, 0x09, 0x00, 0x75, 0x08, 0x95, 0x3F, 0x91, 0x02, 0x85, 0x02, 0x09, 0x00, 0x75, 0x08, 0x95, 0x3F, 0x81, 0x02,
    0xC0,
];

#[test]
fn parses_blackshark_dongle_descriptor() {
    let reports = parse_reports(&BLACKSHARK_V2_HS_DONGLE);
    let get = |page: u16, kind: ReportKind, id: u8| -> ReportInfo {
        *reports
            .iter()
            .find(|r| r.usage_page == page && r.kind == kind && r.report_id == id)
            .unwrap_or_else(|| panic!("missing {page:04X} {kind:?} {id}"))
    };

    // Airoha/MediaTek RACE channel
    assert_eq!(get(0xFF13, ReportKind::Output, 6).size_bytes, 61);
    assert_eq!(get(0xFF13, ReportKind::Input, 7).size_bytes, 61);
    // Media keys
    assert_eq!(get(0x000C, ReportKind::Input, 12).size_bytes, 1);
    // Telephony (hook switch, phone mute) + its LEDs
    assert_eq!(get(0x000B, ReportKind::Input, 5).size_bytes, 1);
    assert_eq!(get(0x000B, ReportKind::Output, 5).size_bytes, 1);
    // Razer control channel
    let control = get(0xFF14, ReportKind::Output, 2);
    assert_eq!(control.size_bytes, 63);
    assert_eq!(control.usage, 0x01);
    assert_eq!(get(0xFF14, ReportKind::Input, 2).size_bytes, 63);
    assert_eq!(get(0xFF14, ReportKind::Feature, 2).size_bytes, 8);
    assert_eq!(reports.len(), 8);
}

#[test]
fn find_report_matches_page_kind_and_id() {
    assert!(find_report(&BLACKSHARK_V2_HS_DONGLE, 0xFF14, ReportKind::Output, 2).is_some());
    assert!(find_report(&BLACKSHARK_V2_HS_DONGLE, 0xFF14, ReportKind::Output, 6).is_none());
    assert!(find_report(&[], 0xFF14, ReportKind::Output, 2).is_none());
}

#[test]
fn extended_usage_sets_the_collection_page() {
    // Usage (4 bytes: page 0xFF14, usage 0x0001), Collection, Output report 2.
    let desc = [
        0x0B, 0x01, 0x00, 0x14, 0xFF, 0xA1, 0x01, 0x85, 0x02, 0x75, 0x08, 0x95, 0x3F, 0x91, 0x02, 0xC0,
    ];
    let report = find_report(&desc, 0xFF14, ReportKind::Output, 2).expect("extended usage page");
    assert_eq!(report.usage, 0x0001);
    assert_eq!(report.size_bytes, 63);
}

#[test]
fn survives_truncated_and_long_items() {
    // Truncated short item
    assert!(parse_reports(&[0x06, 0x14]).is_empty());
    // A long item followed by a normal output report
    let desc = [
        0xFE, 0x02, 0x10, 0xAA, 0xBB, 0x06, 0x00, 0xFF, 0x09, 0x01, 0xA1, 0x01, 0x75, 0x08, 0x95, 0x04, 0x91, 0x02,
        0xC0,
    ];
    let reports = parse_reports(&desc);
    assert_eq!(reports.len(), 1);
    assert_eq!(reports[0].usage_page, 0xFF00);
    assert_eq!(reports[0].size_bytes, 4);
    assert_eq!(reports[0].report_id, 0);
}

#[test]
fn pushed_globals_come_back_and_sizes_saturate() {
    // Report size 8, count 2, push; count 4, pop; input. 3 bits round up to a byte.
    let desc = [0x75, 0x08, 0x95, 0x02, 0xA4, 0x95, 0x04, 0xB4, 0x81, 0x00];
    let reports = parse_reports(&desc);
    assert_eq!(reports.len(), 1);
    assert_eq!(reports[0].size_bytes, 2);
    let odd = [0x75, 0x03, 0x95, 0x01, 0x81, 0x00];
    assert_eq!(parse_reports(&odd)[0].size_bytes, 1);
    let huge = [0x77, 0xFF, 0xFF, 0xFF, 0xFF, 0x97, 0xFF, 0xFF, 0xFF, 0xFF, 0x81, 0x00];
    assert_eq!(parse_reports(&huge)[0].size_bytes, 0x2000_0000);
    // Popping an empty stack changes nothing; a long item at the very end ends it.
    assert!(parse_reports(&[0xB4, 0xFE]).is_empty());
}

const UEVENT: &str = "DRIVER=hid-generic\n\
    HID_ID=0003:00001532:00000565\n\
    HID_NAME=MediaTek Inc Razer BlackShark V2 HS 2.4\n\
    HID_PHYS=usb-0000:2b:00.3-1/input3\n\
    HID_UNIQ=0000000000000000\n\
    MODALIAS=hid:b0003g0001v00001532p00000565\n";

#[test]
fn parses_razer_uevent() {
    let node = parse_uevent(UEVENT).unwrap();
    assert_eq!(node.bus, 0x0003);
    assert_eq!(node.vendor_id, 0x1532);
    assert_eq!(node.product_id, 0x0565);
    assert_eq!(node.name, "MediaTek Inc Razer BlackShark V2 HS 2.4");
    assert_eq!(node.interface, Some(3));
    assert!(node.is_usb());
}

#[test]
fn bluetooth_phys_has_no_interface() {
    let node = parse_uevent("HID_ID=0005:0000046D:0000B383\nHID_PHYS=8c:88:4b:66:18:6b\n").unwrap();
    assert_eq!(node.bus, 0x0005);
    assert_eq!(node.interface, None);
}

#[test]
fn rejects_garbage() {
    assert!(parse_uevent("HID_ID=zz:1:2\n").is_none());
    assert!(parse_uevent("HID_NAME=x\n").is_none());
}

#[test]
fn uevent_details() {
    // The last line for a key counts, also when it is worse; CRLF ends a line.
    assert!(parse_uevent("HID_ID=3:1532:565\nHID_ID=3:1532\n").is_none());
    let node = parse_uevent("HID_ID=3:1532:565\r\nHID_NAME=a=b\r\nHID_PHYS=x/input1/input12").unwrap();
    assert_eq!(node.name, "a=b");
    assert_eq!(node.interface, Some(12));
    assert!(parse_uevent("HID_ID=3:11532:565\n").is_none());
}

/// The entries of a class directory, in any order.
#[test]
fn class_entries_become_sorted_nodes() {
    let entry = |name: &str, uevent: Option<&str>| ClassEntry {
        sysname: name.to_string(),
        uevent: uevent.map(String::from),
        report_descriptor: Some(vec![0x06, 0x14, 0xFF]),
    };
    let nodes = collect_nodes(
        vec![
            entry("hidraw10", Some(UEVENT)),
            entry("hidraw2", Some("HID_ID=0003:0000046D:0000C548\n")),
            entry("not-hidraw", Some(UEVENT)),
            entry("hidraw3", None),
        ],
        "/dev",
    );
    assert_eq!(nodes.len(), 2);
    assert_eq!(nodes[0].sysname, "hidraw2");
    assert_eq!(nodes[1].sysname, "hidraw10");
    assert_eq!(nodes[1].devnode, "/dev/hidraw10");
    assert_eq!(nodes[1].report_descriptor, vec![0x06, 0x14, 0xFF]);
    assert_eq!(natural_key("hidraw12"), (6, 12));
    assert_eq!(natural_key("hidraw"), (6, u32::MAX));
}

fn node(pid: u16, descriptor: Vec<u8>, phys: &str) -> HidrawNode {
    let mut node = parse_uevent(&format!("HID_ID=0003:00001532:{pid:08X}\nHID_PHYS={phys}\n")).unwrap();
    node.sysname = "hidraw0".into();
    node.devnode = "/dev/hidraw0".into();
    node.report_descriptor = descriptor;
    node
}

#[test]
fn selects_only_the_control_interface_of_known_models() {
    let control = vec![
        0x06, 0x14, 0xFF, 0x09, 0x01, 0xA1, 0x01, 0x85, 0x02, 0x75, 0x08, 0x95, 0x3F, 0x91, 0x02, 0xC0,
    ];
    let media_keys_only = vec![
        0x05, 0x0C, 0x09, 0x01, 0xA1, 0x01, 0x85, 0x0C, 0x75, 0x01, 0x95, 0x08, 0x81, 0x02, 0xC0,
    ];
    let found = select_devices(vec![
        node(0x0565, control.clone(), "usb-1/input3"),
        node(0x0565, media_keys_only, "usb-1/input4"),
        node(0x0084, control, "usb-2/input0"), // unknown PID (a mouse)
    ]);
    assert_eq!(found.len(), 1);
    assert_eq!(found[0].model.pid, 0x0565);
    assert_eq!(found[0].model.connection, Connection::Dongle);
    assert_eq!(found[0].path_display(), "/dev/hidraw0");
}

#[test]
fn only_the_razer_page_carries_the_control_channel() {
    let control = |page: u8| {
        vec![
            0x06, page, 0xFF, 0x09, 0x01, 0xA1, 0x01, 0x85, 0x02, 0x75, 0x08, 0x95, 0x3F, 0x91, 0x02, 0xC0,
        ]
    };
    assert_eq!(select_devices(vec![node(0x0565, control(0x14), "usb-1/input3")]).len(), 1);
    for page in [0x00, 0x13, 0x15] {
        assert_eq!(select_devices(vec![node(0x0565, control(page), "usb-1/input3")]).len(), 0);
    }
}

#[test]
fn a_last_item_that_is_cut_off_changes_nothing() {
    let whole = parse_reports(&BLACKSHARK_V2_HS_DONGLE);
    let tails: [&[u8]; 5] = [&[0x91], &[0x06, 0x14], &[0x97, 1, 0, 0], &[0xFE], &[0xFE, 0x02, 0x10, 0xAA]];
    for tail in tails {
        let mut desc = BLACKSHARK_V2_HS_DONGLE.to_vec();
        desc.extend_from_slice(tail);
        assert_eq!(parse_reports(&desc), whole);
    }
}

#[test]
fn unreadable_descriptor_falls_back_to_interface_number() {
    assert_eq!(select_devices(vec![node(0x056E, vec![], "usb-1/input3")]).len(), 1);
    assert_eq!(select_devices(vec![node(0x056E, vec![], "usb-1/input0")]).len(), 0);
}

#[test]
fn lookup_knows_all_models() {
    assert_eq!(lookup(RAZER_VID, 0x056E).unwrap().connection, Connection::Wired);
    assert!(lookup(RAZER_VID, 0x1234).is_none());
    assert!(lookup(0x046D, 0x0565).is_none());
    for model in models() {
        assert_eq!(lookup(model.vid, model.pid), Some(model));
    }
}

#[test]
fn simulation() {
    assert!(!simulation_requested(None));
    assert!(!simulation_requested(Some("")));
    assert!(!simulation_requested(Some("0")));
    assert!(simulation_requested(Some("1")));
    let found = simulated();
    assert_eq!(found.len(), 1);
    assert!(matches!(found[0].location, Location::Simulated));
    assert_eq!(found[0].path_display(), "simulated");
}
