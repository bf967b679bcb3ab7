use removable_media::dispatch::{notification_request, ActionDispatcher};
use removable_media::enumerate::{get_devices_by_path, parse_mount_line};
use removable_media::mount_table::{two_fields, unescape_field};
use removable_media::path::{final_segment, has_prefix, strip_trailing};
use removable_media::removable::{
    attr_marks_removable, attribute_paths, block_base_name, get_devices_by_attribute,
    removable_attr_path,
};
use removable_media::{Device, DeviceType};

fn lines(ls: &[&str]) -> Vec<String> {
    ls.iter().map(|l| l.to_string()).collect()
}

fn labels(ds: &[Device]) -> Vec<String> {
    ds.iter().map(|d| d.label()).collect()
}

#[test]
fn usb_drive_with_escaped_space() {
    let ds = get_devices_by_path(&lines(&[
        "/dev/sdb1 /run/media/alice/MYUSB\\040DRIVE ext4 rw,relatime 0 0",
    ]));
    assert_eq!(ds.len(), 1);
    assert_eq!(ds[0].label(), "MYUSB DRIVE");
    assert_eq!(ds[0].mountpoint(), "/run/media/alice/MYUSB DRIVE");
    assert!(ds[0].mounted());
    assert_eq!(ds[0].device_type(), DeviceType::USB);
}

#[test]
fn escaped_spaces_anywhere_in_mountpoint() {
    let ds = get_devices_by_path(&lines(&[
        "/dev/sdc1 /run/media/bob\\040smith/A\\040B\\040 vfat rw 0 0",
    ]));
    assert_eq!(ds.len(), 1);
    assert_eq!(ds[0].mountpoint(), "/run/media/bob smith/A B ");
    assert_eq!(ds[0].label(), "A B ");
}

#[test]
fn other_escapes_decode() {
    assert_eq!(unescape_field("a\\011b\\012c\\134d"), "a\tb\nc\\d");
    assert_eq!(unescape_field("\\134040"), "\\040");
    assert_eq!(unescape_field("x\\141y\\04"), "x\\141y\\04");
    assert_eq!(unescape_field(""), "");
}

#[test]
fn container_view_mounts_are_skipped() {
    let table = lines(&[
        "/dev/sdb1 /run/host/run/media/alice/STICK ext4 rw 0 0",
        "/dev/sdb1 /run/host/media/STICK ext4 rw 0 0",
    ]);
    assert!(get_devices_by_path(&table).is_empty());
    let paths = attribute_paths(&table);
    assert_eq!(paths, vec![None, None]);
    let contents = vec![Some("1\n".to_string()), Some("1\n".to_string())];
    assert!(get_devices_by_attribute(&table, &contents).is_empty());
}

#[test]
fn short_lines_are_skipped() {
    let table = lines(&[
        "",
        "   ",
        "/dev/sdb1",
        "/dev/sdb1 /run/media/alice/STICK ext4 rw 0 0",
        "garbage",
    ]);
    let ds = get_devices_by_path(&table);
    assert_eq!(labels(&ds), vec!["STICK".to_string()]);
}

#[test]
fn bind_mounted_copy_is_reported_once() {
    let table = lines(&[
        "/dev/sdb1 /run/media/alice/STICK ext4 rw 0 0",
        "/dev/sdb1 /run/host/run/media/alice/STICK ext4 rw 0 0",
    ]);
    let ds = get_devices_by_path(&table);
    assert_eq!(ds.len(), 1);
    assert_eq!(ds[0].mountpoint(), "/run/media/alice/STICK");
    let mut reversed = table.clone();
    reversed.reverse();
    assert_eq!(get_devices_by_path(&reversed).len(), 1);
}

#[test]
fn labels_are_final_segments() {
    let table = lines(&[
        "/dev/sdb1 /run/media/alice/ONE ext4 rw 0 0",
        "/dev/sdc1 /run/media/alice/deep/TWO vfat rw 0 0",
        "/dev/sdd1 /run/media/ vfat rw 0 0",
        "proc /proc proc rw 0 0",
        "/dev/sda2 / ext4 rw 0 0",
    ]);
    let ds = get_devices_by_path(&table);
    assert_eq!(ds.len(), 3);
    for d in &ds {
        let mp = d.mountpoint();
        let last = mp.rsplit('/').next().unwrap().to_string();
        assert_eq!(d.label(), last);
    }
    assert_eq!(labels(&ds), vec!["ONE".to_string(), "TWO".to_string(), String::new()]);
}

#[test]
fn fields_split_on_any_whitespace() {
    assert_eq!(two_fields("  a\t\tb c"), Some(("a", "b")));
    assert_eq!(two_fields("a\u{3000}b"), Some(("a", "b")));
    assert_eq!(two_fields(" a "), None);
    assert_eq!(two_fields(""), None);
}

#[test]
fn relative_mountpoints_are_skipped() {
    assert!(parse_mount_line("/dev/sdb1 media/STICK ext4 rw 0 0").is_none());
    let e = parse_mount_line("/dev/sdb1 /media/STICK ext4 rw 0 0").unwrap();
    assert_eq!(e.source, "/dev/sdb1");
    assert_eq!(e.mountpoint, "/media/STICK");
}

#[test]
fn kernel_attribute_classification() {
    assert_eq!(block_base_name("sda1"), "sda");
    assert_eq!(block_base_name("/dev/sdb12"), "sdb");
    assert_eq!(block_base_name("sda"), "sda");
    assert_eq!(removable_attr_path("sda1"), "/sys/block/sda/removable");
    assert_eq!(removable_attr_path("/dev/sdb1"), "/sys/block/sdb/removable");
    assert!(attr_marks_removable(Some("1\n")));
    assert!(attr_marks_removable(Some("1")));
    assert!(!attr_marks_removable(Some("0")));
    assert!(!attr_marks_removable(Some("0\n")));
    assert!(!attr_marks_removable(Some("")));
    assert!(!attr_marks_removable(Some("11\n")));
    assert!(!attr_marks_removable(None));
}

#[test]
fn kernel_attribute_enumeration() {
    let table = lines(&[
        "/dev/sda2 / ext4 rw 0 0",
        "proc /proc proc rw 0 0",
        "/dev/sdb1 /media/USB\\040KEY vfat rw 0 0",
        "short",
    ]);
    let paths = attribute_paths(&table);
    assert_eq!(
        paths,
        vec![
            Some("/sys/block/sda/removable".to_string()),
            Some("/sys/block/proc/removable".to_string()),
            Some("/sys/block/sdb/removable".to_string()),
            None,
        ]
    );
    let contents = vec![Some("0\n".to_string()), None, Some("1\n".to_string()), None];
    let ds = get_devices_by_attribute(&table, &contents);
    assert_eq!(ds.len(), 1);
    assert_eq!(ds[0].label(), "USB KEY");
    assert_eq!(ds[0].mountpoint(), "/media/USB KEY");
    assert!(ds[0].mounted());
}

#[test]
fn eject_outside_sandbox() {
    let d = ActionDispatcher::new(false);
    assert!(!d.is_flatpak());
    let inv = d.invocation("eject", "/media/x");
    assert_eq!(inv.program, "eject");
    assert_eq!(inv.args, vec!["/media/x".to_string()]);
}

#[test]
fn eject_inside_sandbox() {
    let d = ActionDispatcher::new(true);
    assert!(d.is_flatpak());
    let inv = d.invocation("eject", "/media/x");
    assert_eq!(inv.program, "flatpak-spawn");
    assert_eq!(
        inv.args,
        vec!["--host".to_string(), "eject".to_string(), "/media/x".to_string()]
    );
}

#[test]
fn notification_carries_eject_icon() {
    let n = notification_request("Ejected", "MYUSB is safe to remove");
    assert_eq!(n.summary, "Ejected");
    assert_eq!(n.body, "MYUSB is safe to remove");
    assert_eq!(n.icon, "media-eject-symbolic");
}

#[test]
fn path_helpers() {
    assert!(has_prefix("/run/media/x", "/run/media/"));
    assert!(!has_prefix("/run/medi", "/run/media/"));
    assert!(has_prefix("abc", ""));
    assert_eq!(final_segment("/a/b/c"), "c");
    assert_eq!(final_segment("noslash"), "noslash");
    assert_eq!(final_segment("/a/"), "");
    assert_eq!(strip_trailing("sda123", true), "sda");
    assert_eq!(strip_trailing("1 \n\t", false), "1");
    assert_eq!(strip_trailing("123", true), "");
}
