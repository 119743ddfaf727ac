use system_monitor::storage::{
    category_rows, overall_totals, usage_tint, DiskKind, DiskRecord, StorageCategory, StorageKind, StorageWidget,
};
use system_monitor::style::{Reading, Tint};

fn disk(name: &str, kind: DiskKind, total: u64, available: u64) -> DiskRecord {
    DiskRecord { name: name.to_string(), kind, total_space: total, available_space: available }
}

#[test]
fn physical_names_follow_platform_conventions() {
    assert_eq!(StorageWidget::get_physical_device_name("disk0s1"), "disk0");
    assert_eq!(StorageWidget::get_physical_device_name("disk0s2"), "disk0");
    assert_eq!(StorageWidget::get_physical_device_name("rdisk3"), "disk3");
    assert_eq!(StorageWidget::get_physical_device_name("sda1"), "sda");
    assert_eq!(StorageWidget::get_physical_device_name("sda2"), "sda");
    assert_eq!(StorageWidget::get_physical_device_name("SDB1"), "sdb");
    assert_eq!(StorageWidget::get_physical_device_name("vda"), "vda");
    assert_eq!(StorageWidget::get_physical_device_name("nvme0n1p1"), "nvme0n1");
    assert_eq!(StorageWidget::get_physical_device_name("nvme1n1"), "nvme1n1");
    assert_eq!(StorageWidget::get_physical_device_name("C:"), "c:");
    assert_eq!(StorageWidget::get_physical_device_name("D:"), "d:");
    assert_eq!(StorageWidget::get_physical_device_name("sd"), "sd");
    assert_eq!(StorageWidget::get_physical_device_name("Macintosh HD"), "Macintosh HD");
    assert_eq!(StorageWidget::get_physical_device_name("diskx"), "disk");
}

#[test]
fn nvme_detection() {
    assert!(StorageWidget::is_nvme("nvme0n1p1", "nvme0n1"));
    assert!(StorageWidget::is_nvme("Samsung NVMe", "x"));
    assert!(StorageWidget::is_nvme("sda", "my-NVME-disk"));
    assert!(!StorageWidget::is_nvme("sda1", "sda"));
}

#[test]
fn partitions_of_one_device_are_counted_once() {
    let disks = vec![
        disk("sda1", DiskKind::Ssd, 100, 40),
        disk("sda2", DiskKind::Ssd, 50, 10),
        disk("nvme0n1p1", DiskKind::Ssd, 500, 100),
        disk("nvme0n1p2", DiskKind::Ssd, 500, 100),
        disk("sdb1", DiskKind::Hdd, 1000, 1500),
        disk("", DiskKind::Hdd, 77, 0),
    ];
    let cats = StorageWidget::categorize_disks(&disks);
    assert_eq!(
        cats,
        vec![
            StorageCategory { kind: StorageKind::Ssd, used: 60, total: 100 },
            StorageCategory { kind: StorageKind::Hdd, used: 0, total: 1000 },
            StorageCategory { kind: StorageKind::Nvme, used: 400, total: 500 },
        ]
    );
}

#[test]
fn drive_letters_are_separate_devices() {
    let disks = vec![
        disk("C:", DiskKind::Ssd, 100, 30),
        disk("D:", DiskKind::Unknown, 200, 50),
        disk("E:", DiskKind::Hdd, 0, 0),
    ];
    let cats = StorageWidget::categorize_disks(&disks);
    assert_eq!(cats, vec![StorageCategory { kind: StorageKind::Ssd, used: 220, total: 300 }]);
}

#[test]
fn no_disks_no_categories() {
    assert!(StorageWidget::categorize_disks(&Vec::new()).is_empty());
}

#[test]
fn category_labels_and_tints() {
    assert_eq!(StorageKind::Ssd.label(), "SSD");
    assert_eq!(StorageKind::Hdd.label(), "HDD");
    assert_eq!(StorageKind::Nvme.label(), "NVME");
    assert_eq!(StorageKind::Ssd.tint(), Tint::Blue);
    assert_eq!(StorageKind::Hdd.tint(), Tint::Yellow);
    assert_eq!(StorageKind::Nvme.tint(), Tint::Magenta);
}

fn scaled(r: &Reading) -> Option<(u64, usize, String)> {
    match r {
        Reading::Scaled { divisor, decimals, suffix } => Some((*divisor, *decimals, suffix.clone())),
        Reading::Exact(_) => None,
    }
}

fn exact(r: &Reading) -> Option<String> {
    match r {
        Reading::Exact(s) => Some(s.clone()),
        Reading::Scaled { .. } => None,
    }
}

#[test]
fn byte_readings_switch_units() {
    assert_eq!(exact(&StorageWidget::format_bytes(0)), Some("0B".to_string()));
    assert_eq!(exact(&StorageWidget::format_bytes(1_048_575)), Some("1048575B".to_string()));
    assert_eq!(scaled(&StorageWidget::format_bytes(1_048_576)), Some((1_048_576, 1, "MB".to_string())));
    assert_eq!(
        scaled(&StorageWidget::format_bytes(5 * 1_073_741_824)),
        Some((1_073_741_824, 1, "GB".to_string()))
    );
    assert_eq!(
        scaled(&StorageWidget::format_bytes(u64::MAX)),
        Some((1_099_511_627_776, 1, "TB".to_string()))
    );
}

#[test]
fn totals_and_tint() {
    let cats = vec![
        StorageCategory { kind: StorageKind::Ssd, used: 60, total: 100 },
        StorageCategory { kind: StorageKind::Nvme, used: 400, total: 500 },
    ];
    assert_eq!(overall_totals(&cats), (460, 600));
    assert_eq!(usage_tint(95), Tint::Red);
    assert_eq!(usage_tint(90), Tint::Yellow);
    assert_eq!(usage_tint(71), Tint::Yellow);
    assert_eq!(usage_tint(70), Tint::Green);
}

#[test]
fn widget_keeps_its_disks() {
    let w = StorageWidget::new(vec![disk("sda1", DiskKind::Ssd, 1, 0)]);
    assert_eq!(w.disks().len(), 1);
    assert_eq!(w.disks()[0].name, "sda1");
}

#[test]
fn physical_names_from_a_given_lowercase_form() {
    assert_eq!(StorageWidget::physical_name_from("SDA1", "sda1".to_string()), "sda");
    assert_eq!(StorageWidget::physical_name_from("X", "disk9z".to_string()), "disk9");
    assert_eq!(StorageWidget::physical_name_from("Z:", "z:".to_string()), "z:");
    assert_eq!(StorageWidget::physical_name_from("Keep", "other".to_string()), "Keep");
}

#[test]
fn nvme_mentions_in_lowercase_names() {
    assert!(StorageWidget::mentions_nvme("nvme0n1", "x"));
    assert!(StorageWidget::mentions_nvme("x", "my-nvme"));
    assert!(!StorageWidget::mentions_nvme("NVME", "sda"));
}

#[test]
fn physical_name_of_a_physical_name_is_itself() {
    for name in ["nvme0n1p2", "disk0s1", "rdisk3", "sda1", "hdb", "vdc7", "C:", "/dev/Mapper", "nvme1n1", "overlay"] {
        let once = StorageWidget::get_physical_device_name(name);
        let twice = StorageWidget::get_physical_device_name(&once);
        assert_eq!(once, twice, "{name}");
    }
}

#[test]
fn category_rows_fill_the_panel_below_the_total() {
    assert_eq!(category_rows(0, 3), 0);
    assert_eq!(category_rows(1, 3), 0);
    assert_eq!(category_rows(2, 3), 1);
    assert_eq!(category_rows(4, 3), 3);
    assert_eq!(category_rows(10, 2), 2);
    assert_eq!(category_rows(usize::MAX, 0), 0);
}
