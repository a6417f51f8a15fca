use shelf_viewer::console_widget::{SlotLabel, SlotLine, SlotState, ALERT_LOCATING};
use shelf_viewer::enclosure::Enclosure;
use shelf_viewer::err::{IoFailure, SError};
use shelf_viewer::inventory::{
    anonymize, not_found, shelf, slot_state, slot_states, title, Bay, PRESENTATION_MODE,
};
use shelf_viewer::lsblk::{Lsblk, LsblkEntry};
use shelf_viewer::zfs::ZfsList;

fn bay(slot_id: usize, block_name: Option<&str>) -> Bay {
    Bay {
        slot_id,
        locating: false,
        block_name: block_name.map(|b| b.to_string()),
        wwid: block_name.map(|b| format!("naa.5000c500{:0>8}", b)),
        vendor: block_name.map(|_| "ATA".to_string()),
        model: block_name.map(|_| "ST4000NM0035".to_string()),
    }
}

fn entry(device: &str, bytes: &str) -> LsblkEntry {
    LsblkEntry { device: device.to_string(), bytes: bytes.to_string() }
}

fn texts(lines: &[SlotLine]) -> Vec<String> {
    lines.iter().map(|l| l.line.clone()).collect()
}

fn label(start: &str, end: &str, prefix: &str, suffix: Option<&'static str>) -> SlotLabel {
    SlotLabel {
        content_start: start.to_string(),
        content_end: end.to_string(),
        prefix: Some(prefix.to_string()),
        suffix,
    }
}

#[test]
fn a_device_of_a_pool() {
    let zfs = ZfsList::execute("tank\t1T\n\tsda\nother\n\tsdb");
    let sizes = vec![entry("sdb", "1"), entry("sda", "4000787030016")];
    let state = slot_state(&bay(3, Some("sda")), &zfs, &sizes).unwrap();
    assert_eq!(
        state,
        SlotState::Device(
            "ZFS tank".to_string(),
            label("ZFS tank", "sda", "3 ", None),
            vec![
                SlotLine { line: "naa.5000c50000000sda".to_string() },
                SlotLine { line: "wwn-0x5000c50000000sda".to_string() },
                SlotLine { line: "ST4000NM0035".to_string() },
                SlotLine { line: "4,000 G".to_string() },
            ]
        )
    );
}

#[test]
fn a_device_of_no_pool() {
    let zfs = ZfsList::execute("tank\t1T\n\tsda");
    let state = slot_state(&bay(10, Some("sdz")), &zfs, &vec![]).unwrap();
    match state {
        SlotState::Device(group, label, lines) => {
            assert_eq!(group, "__");
            assert_eq!(label.content_start, "__");
            assert_eq!(label.content_end, "sdz");
            assert_eq!(label.prefix, Some("10 ".to_string()));
            assert_eq!(texts(&lines)[3], "");
        },
        SlotState::Empty(_, _) => panic!("the bay holds a device"),
    }
}

#[test]
fn an_empty_bay() {
    let zfs = ZfsList::execute("tank\t1T\n\tsda");
    let mut found = bay(0, None);
    found.locating = true;
    let state = slot_state(&found, &zfs, &vec![entry("sda", "1")]).unwrap();
    assert_eq!(
        state,
        SlotState::Empty(
            label("", "Empty", "0 ", Some(ALERT_LOCATING)),
            vec![
                SlotLine { line: String::new() },
                SlotLine { line: String::new() },
                SlotLine { line: String::new() },
                SlotLine { line: String::new() },
            ]
        )
    );
}

#[test]
fn the_first_pool_with_the_member_owns_it() {
    let zfs = ZfsList::execute("a\n\tsdb\nb\n\tsda\nc\n\tsda");
    match slot_state(&bay(0, Some("sda")), &zfs, &vec![]).unwrap() {
        SlotState::Device(group, _, _) => assert_eq!(group, "ZFS b"),
        SlotState::Empty(_, _) => panic!("the bay holds a device"),
    }
}

#[test]
fn sizes_in_whole_gigabytes_with_grouped_digits() {
    let zfs = ZfsList::default();
    let size = |bytes: &str| -> String {
        let state = slot_state(&bay(0, Some("sda")), &zfs, &vec![entry("sda", bytes)]).unwrap();
        state.lines()[3].line.clone()
    };
    assert_eq!(size("0"), "0 G");
    assert_eq!(size("999999999"), "0 G");
    assert_eq!(size("1000000000"), "1 G");
    assert_eq!(size("500107862016"), "500 G");
    assert_eq!(size("999999999999"), "999 G");
    assert_eq!(size("1000000000000"), "1,000 G");
    assert_eq!(size("16000900608000"), "16,000 G");
    assert_eq!(size("1234567000000000"), "1,234,567 G");
    assert_eq!(size("1002003000000000"), "1,002,003 G");
    assert_eq!(size("+2000000000"), "2 G");
}

#[test]
fn the_first_entry_of_the_device_states_its_size() {
    let zfs = ZfsList::default();
    let sizes = vec![entry("sdb", "9000000000"), entry("sda", "1000000000"), entry("sda", "x")];
    let state = slot_state(&bay(0, Some("sda")), &zfs, &sizes).unwrap();
    assert_eq!(state.lines()[3].line, "1 G");
}

#[test]
fn a_size_that_is_no_number_is_a_failure() {
    let zfs = ZfsList::default();
    for bytes in ["", "12a", "-1", "1.5", "99999999999999999999999999"] {
        assert_eq!(
            slot_state(&bay(0, Some("sda")), &zfs, &vec![entry("sda", bytes)]),
            Err(SError::SizeNaN { device: "sda".to_string() })
        );
    }
    let bays = vec![bay(0, Some("sdb")), bay(1, Some("sda")), bay(2, Some("sdc"))];
    let sizes = vec![entry("sda", "x"), entry("sdc", "y"), entry("sdb", "1")];
    assert_eq!(
        slot_states(&bays, &zfs, &sizes),
        Err(SError::SizeNaN { device: "sda".to_string() })
    );
}

#[test]
fn missing_attributes_leave_empty_lines() {
    let found = Bay {
        slot_id: 1,
        locating: false,
        block_name: Some("sda".to_string()),
        wwid: None,
        vendor: None,
        model: None,
    };
    let state = slot_state(&found, &ZfsList::default(), &vec![]).unwrap();
    assert_eq!(texts(state.lines()), vec!["", "", "", ""]);
    assert_eq!(not_found("no_wwid"), "");
}

#[test]
fn every_bay_gets_its_state() {
    let zfs = ZfsList::execute("tank\n\tsda");
    let bays = vec![bay(0, None), bay(1, Some("sda")), bay(2, Some("sdb"))];
    let states = slot_states(&bays, &zfs, &Lsblk::execute("sda 1000000000\nsdb 2000000000"))
        .unwrap();
    assert_eq!(states.len(), 3);
    for (i, state) in states.iter().enumerate() {
        assert_eq!(Ok(state), slot_state(&bays[i], &zfs, &Lsblk::execute("sda 1000000000\nsdb 2000000000")).as_ref());
    }
    assert_eq!(slot_states(&vec![], &zfs, &vec![]), Ok(vec![]));
}

#[test]
fn a_presentation_hides_identifiers() {
    let device = |group: &str, lines: &[&str]| {
        SlotState::Device(
            group.to_string(),
            label(group, "sda", "0 ", None),
            lines.iter().map(|l| SlotLine { line: l.to_string() }).collect(),
        )
    };
    let mut states = vec![
        device("ZFS tank", &["naa.5000c500a1b2c3d4", "ST4000", "4,000 G", "short", ""]),
        device("__", &["12345678", "123456789", " G", "G", "x G "]),
        device("ZFS backup", &[]),
        SlotState::Empty(label("", "Empty", "3 ", None), vec![]),
        device("ZFS tank", &[]),
        device("ZFS", &[]),
    ];
    anonymize(&mut states);
    let starts: Vec<String> = states.iter().map(|s| s.label().content_start.clone()).collect();
    assert_eq!(starts, vec!["ZFS pool0", "__", "ZFS pool1", "", "ZFS pool0", "ZFS pool2"]);
    assert_eq!(
        texts(states[0].lines()),
        vec!["naa.5000c50000000000", "000000", "4,000 G", "00000", ""]
    );
    assert_eq!(texts(states[1].lines()), vec!["00000000", "100000000", " G", "0", "0000"]);
    match &states[0] {
        SlotState::Device(group, label, _) => {
            assert_eq!(group, "ZFS tank");
            assert_eq!(label.content_end, "sda");
            assert_eq!(label.prefix, Some("0 ".to_string()));
        },
        SlotState::Empty(_, _) => panic!("a device stays a device"),
    }
    assert!(matches!(states[3], SlotState::Empty(_, _)));
}

#[test]
fn title_of_the_grid() {
    let failed = Err(SError::io(
        "/p".to_string(),
        IoFailure { not_found: true, message: "gone".to_string() },
    ));
    assert_eq!(
        title(&Ok("LSI".to_string()), &Ok("SAS2X28".to_string()), "0:0:8:0"),
        "LSI SAS2X28 - 0:0:8:0"
    );
    assert_eq!(title(&failed, &Ok("SAS2X28".to_string()), "enc"), " SAS2X28 - enc");
    assert_eq!(title(&Ok("LSI".to_string()), &failed, "enc"), "LSI  - enc");
}

#[test]
fn the_whole_shelf() {
    let enclosure = Enclosure::load_only(Ok(vec!["0:0:8:0".to_string()])).unwrap();
    let zfs = ZfsList::execute("tank\t1T\n\tsda\n\tsdb\n\tsdc");
    let sizes = Lsblk::execute(
        "sda 4000787030016\nsdb 4000787030016\nsdc 4000787030016\nsdd 1000\nsde 1000\nsdf 1000",
    );
    let tank = ["sda", "sdb", "sdc"];
    let free = ["sdd", "sde", "sdf"];
    let bays: Vec<Bay> = (0..9)
        .map(|i| match i % 3 {
            0 => bay(i, None),
            1 => bay(i, Some(tank[i / 3])),
            _ => bay(i, Some(free[i / 3])),
        })
        .collect();
    let vendor = Ok("LSI".to_string());
    let model = Ok("SAS2X28".to_string());
    assert!(PRESENTATION_MODE);
    let text = shelf(3, true, &enclosure, &vendor, &model, &bays, &zfs, &sizes).unwrap();
    let rows: Vec<&str> = text.split('\n').collect();
    // border, title, and for each of three rows a rule, the headings and four lines of detail
    assert_eq!(rows.len(), 2 + 3 * 6 + 1);
    assert!(rows[1].contains("-LSI SAS2X28 - 0:0:8:0-"));
    let first = "\x1b[38;5;22m";
    let second = "\x1b[38;5;58m";
    assert_eq!(rows[3].matches(first).count(), 3);
    assert_eq!(rows[3].matches("__").count(), 3);
    assert!(rows[3].find("sdd").unwrap() < rows[3].find("sde").unwrap());
    assert!(rows[3].find("sde").unwrap() < rows[3].find("sdf").unwrap());
    assert_eq!(rows[9].matches(second).count(), 3);
    assert_eq!(rows[9].matches("ZFS pool0").count(), 3);
    assert!(!text.contains("tank"));
    assert!(rows[9].find("sda").unwrap() < rows[9].find("sdb").unwrap());
    assert_eq!(rows[13].matches("4,000 G").count(), 3);
    assert_eq!(rows[15].matches("Empty").count(), 3);
    assert!(!rows[15].contains("\x1b[38"));
    assert_eq!(
        shelf(3, true, &enclosure, &vendor, &model, &bays, &zfs, &sizes),
        shelf(3, true, &enclosure, &vendor, &model, &bays, &zfs, &sizes)
    );
    assert_eq!(
        shelf(4, true, &enclosure, &vendor, &model, &bays, &zfs, &sizes),
        Err(SError::InvalidLayout)
    );
    let plain = shelf(3, false, &enclosure, &vendor, &model, &bays, &zfs, &sizes).unwrap();
    let rows: Vec<&str> = plain.split('\n').collect();
    assert_eq!(rows[9].matches("ZFS tank").count(), 3);
    assert_eq!(rows[10].matches("naa.5000c50000000sd").count(), 3);
    assert_eq!(rows[11].matches("wwn-0x5000c50000000sd").count(), 3);
    let bad = vec![LsblkEntry { device: "sdb".to_string(), bytes: "?".to_string() }];
    assert_eq!(
        shelf(3, false, &enclosure, &vendor, &model, &bays, &zfs, &bad),
        Err(SError::SizeNaN { device: "sdb".to_string() })
    );
}
