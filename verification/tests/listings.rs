use shelf_viewer::lsblk::{Lsblk, LsblkEntry};
use shelf_viewer::zfs::{ZfsList, ZfsListPool, ZfsListVDev};

fn pools(list: &ZfsList) -> Vec<(String, Vec<String>)> {
    list.pools
        .iter()
        .map(|p| (p.pool_name.clone(), p.vdevs.iter().map(|v| v.vdev_name.clone()).collect()))
        .collect()
}

fn pool(name: &str, vdevs: &[&str]) -> (String, Vec<String>) {
    (name.to_string(), vdevs.iter().map(|v| v.to_string()).collect())
}

#[test]
fn block_devices_with_their_sizes() {
    let list = Lsblk::execute("sda 4000787030016\nsdb 500107862016\nnvme0n1 1024");
    assert_eq!(
        list,
        vec![
            LsblkEntry { device: "sda".to_string(), bytes: "4000787030016".to_string() },
            LsblkEntry { device: "sdb".to_string(), bytes: "500107862016".to_string() },
            LsblkEntry { device: "nvme0n1".to_string(), bytes: "1024".to_string() },
        ]
    );
}

#[test]
fn a_line_is_cut_at_its_first_space() {
    let list = Lsblk::execute("sda 1 2\n 5\nsdb ");
    assert_eq!(
        list,
        vec![
            LsblkEntry { device: "sda".to_string(), bytes: "1 2".to_string() },
            LsblkEntry { device: String::new(), bytes: "5".to_string() },
            LsblkEntry { device: "sdb".to_string(), bytes: String::new() },
        ]
    );
}

#[test]
fn a_line_without_a_space_names_a_device_without_a_size() {
    assert_eq!(
        Lsblk::execute("sda"),
        vec![LsblkEntry { device: "sda".to_string(), bytes: String::new() }]
    );
    assert_eq!(
        Lsblk::execute(""),
        vec![LsblkEntry { device: String::new(), bytes: String::new() }]
    );
}

#[test]
fn pools_with_their_members() {
    let list = ZfsList::execute(
        "tank\t10.9T\t5.1T\t-\n\tmirror-0\t10.9T\n\t  sda\t-\n\t  sdb\t-\nscratch\t1T\n\tsdc\t1T",
    );
    assert_eq!(
        pools(&list),
        vec![pool("tank", &["mirror-0", "sda", "sdb"]), pool("scratch", &["sdc"])]
    );
}

#[test]
fn the_last_pool_is_listed_too() {
    assert_eq!(pools(&ZfsList::execute("tank\t1T\n\tsda")), vec![pool("tank", &["sda"])]);
    assert_eq!(pools(&ZfsList::execute("tank")), vec![pool("tank", &[])]);
    assert_eq!(
        pools(&ZfsList::execute("a\nb\nc")),
        vec![pool("a", &[]), pool("b", &[]), pool("c", &[])]
    );
}

#[test]
fn members_before_any_pool_have_a_pool_without_a_name() {
    assert_eq!(
        pools(&ZfsList::execute("\tsda\n\tsdb\ntank\n\tsdc")),
        vec![pool("", &["sda", "sdb"]), pool("tank", &["sdc"])]
    );
    assert_eq!(pools(&ZfsList::execute("")), vec![pool("", &[])]);
}

#[test]
fn a_member_is_named_by_its_first_field() {
    assert_eq!(ZfsListVDev::from_vdev_line("\tsda\t1T\t-").vdev_name, "sda");
    assert_eq!(ZfsListVDev::from_vdev_line("\t  sdb").vdev_name, "sdb");
    assert_eq!(ZfsListVDev::from_vdev_line("\t\tsdc\tx").vdev_name, "sdc");
    assert_eq!(ZfsListVDev::from_vdev_line("\t").vdev_name, "");
    assert_eq!(ZfsListVDev::from_vdev_line("\tmirror-0 x\ty").vdev_name, "mirror-0 x");
}

#[test]
fn defaults_are_empty() {
    assert!(ZfsList::default().pools.is_empty());
    let p = ZfsListPool::default();
    assert_eq!(p.pool_name, "");
    assert!(p.vdevs.is_empty());
    assert_eq!(ZfsListVDev::default().vdev_name, "");
}
