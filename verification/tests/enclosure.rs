use shelf_viewer::enclosure::{Enclosure, ENCLOSURE_DIR};
use shelf_viewer::err::{IoFailure, SError};

fn missing() -> IoFailure {
    IoFailure { not_found: true, message: "No such file or directory".to_string() }
}

fn denied() -> IoFailure {
    IoFailure { not_found: false, message: "Permission denied".to_string() }
}

fn only(name: &str) -> Enclosure {
    Enclosure::load_only(Ok(vec![name.to_string()])).unwrap()
}

#[test]
fn exactly_one_enclosure_is_loaded() {
    let enclosure = only("0:0:8:0");
    assert_eq!(enclosure.enc_id(), "0:0:8:0");
    assert_eq!(enclosure.root(), "/sys/class/enclosure/0:0:8:0");
    assert_eq!(ENCLOSURE_DIR, "/sys/class/enclosure");
}

#[test]
fn no_enclosure_is_a_failure() {
    assert_eq!(Enclosure::load_only(Ok(vec![])).unwrap_err(), SError::NoEnclosuresFound);
}

#[test]
fn several_enclosures_are_a_failure() {
    let two = vec!["0:0:8:0".to_string(), "0:0:9:0".to_string()];
    assert_eq!(Enclosure::load_only(Ok(two)).unwrap_err(), SError::MoreThanOneEnclosureFound);
    let three = vec!["a".to_string(), "b".to_string(), "c".to_string()];
    assert_eq!(Enclosure::load_only(Ok(three)).unwrap_err(), SError::MoreThanOneEnclosureFound);
}

#[test]
fn a_failed_listing_names_the_directory() {
    assert_eq!(
        Enclosure::load_only(Err(denied())).unwrap_err(),
        SError::Io { path: "/sys/class/enclosure".to_string(), err: denied() }
    );
}

#[test]
fn paths_below_the_enclosure() {
    let enclosure = only("enc");
    assert_eq!(enclosure.file("components"), "/sys/class/enclosure/enc/components");
    assert_eq!(
        enclosure.files(&["device", "vendor"]),
        "/sys/class/enclosure/enc/device/vendor"
    );
    assert_eq!(enclosure.files(&[]), "/sys/class/enclosure/enc");
}

#[test]
fn number_of_bays() {
    let enclosure = only("enc");
    assert_eq!(enclosure.slot_len(Ok("24\n".to_string())), Ok(24));
    assert_eq!(enclosure.slot_len(Ok(" 0 ".to_string())), Ok(0));
    let nan = SError::ComponentsNaN { path: "/sys/class/enclosure/enc/components".to_string() };
    assert_eq!(enclosure.slot_len(Ok("many".to_string())), Err(nan.clone()));
    assert_eq!(enclosure.slot_len(Ok("".to_string())), Err(nan.clone()));
    assert_eq!(enclosure.slot_len(Ok("-1".to_string())), Err(nan.clone()));
    assert_eq!(enclosure.slot_len(Ok("99999999999999999999999".to_string())), Err(nan));
    assert_eq!(
        enclosure.slot_len(Err(missing())),
        Err(SError::Io {
            path: "/sys/class/enclosure/enc/components".to_string(),
            err: missing()
        })
    );
}

#[test]
fn attributes_of_the_enclosure() {
    let enclosure = only("enc");
    assert_eq!(enclosure.device_vendor(Ok("LSI \n".to_string())), Ok("LSI".to_string()));
    assert_eq!(enclosure.device_model(Ok(" SAS2X28\n".to_string())), Ok("SAS2X28".to_string()));
    assert_eq!(
        enclosure.device_vendor(Err(denied())),
        Err(SError::Io {
            path: "/sys/class/enclosure/enc/device/vendor".to_string(),
            err: denied()
        })
    );
    assert_eq!(
        enclosure.device_model(Err(missing())),
        Err(SError::Io {
            path: "/sys/class/enclosure/enc/device/model".to_string(),
            err: missing()
        })
    );
}

#[test]
fn paths_below_a_bay() {
    let enclosure = only("enc");
    assert_eq!(enclosure.slot(3).root(), "/sys/class/enclosure/enc/Slot03");
    assert_eq!(enclosure.slot(0).root(), "/sys/class/enclosure/enc/Slot00");
    assert_eq!(enclosure.slot(12).root(), "/sys/class/enclosure/enc/Slot12");
    assert_eq!(enclosure.slot(123).root(), "/sys/class/enclosure/enc/Slot123");
    assert_eq!(enclosure.slot(7).file("locate"), "/sys/class/enclosure/enc/Slot07/locate");
    assert_eq!(
        enclosure.slot(7).files(&["device", "block"]),
        "/sys/class/enclosure/enc/Slot07/device/block"
    );
}

#[test]
fn block_device_of_a_bay() {
    let slot = only("enc").slot(5);
    assert_eq!(
        slot.block_path(Ok(vec!["sdc".to_string()])),
        Some("/sys/class/enclosure/enc/Slot05/device/block/sdc".to_string())
    );
    assert_eq!(slot.block_name(Ok(vec!["sdc".to_string()])), Some("sdc".to_string()));
    assert_eq!(slot.block_path(Err(missing())), None);
    assert_eq!(slot.block_name(Err(missing())), None);
}

#[test]
fn attributes_of_a_bay() {
    let slot = only("enc").slot(5);
    assert_eq!(
        slot.device_wwid(Ok("naa.5000c500a1b2c3d4\n".to_string())),
        Some("naa.5000c500a1b2c3d4".to_string())
    );
    assert_eq!(slot.device_wwid(Err(missing())), None);
    assert_eq!(slot.device_vendor(Ok("ATA     \n".to_string())), Ok("ATA".to_string()));
    assert_eq!(slot.device_model(Ok("ST4000  \n".to_string())), Ok("ST4000".to_string()));
    assert_eq!(
        slot.device_model(Err(missing())),
        Err(SError::Io {
            path: "/sys/class/enclosure/enc/Slot05/device/model".to_string(),
            err: missing()
        })
    );
    assert_eq!(
        slot.device_vendor(Err(denied())),
        Err(SError::Io {
            path: "/sys/class/enclosure/enc/Slot05/device/vendor".to_string(),
            err: denied()
        })
    );
}

#[test]
fn indicator_light() {
    let slot = only("enc").slot(5);
    assert!(slot.is_locating(Ok("1\n".to_string())));
    assert!(slot.is_locating(Ok("1".to_string())));
    assert!(!slot.is_locating(Ok("0\n".to_string())));
    assert!(!slot.is_locating(Ok("".to_string())));
    assert!(!slot.is_locating(Ok("11".to_string())));
    assert!(!slot.is_locating(Err(missing())));
}
