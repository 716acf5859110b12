use gitka::config::TargetMode;
use gitka::usb::{
    base_device, best_mount, components, detect_drives, determine_fs, device_wanted, find_drive_label,
    find_fs_type, find_mount_point, get_drive_info, is_removable_flag, mkfs_command, mount_device, parse_mounts,
    path_starts_with, removable_check_device, removable_flag_path, same_path, skip_block_device, strip_dev, BlockDevice, DriveInfo,
};

const MOUNTS: &str = "/dev/sda1 / ext4 rw 0 0\nproc /proc proc rw 0 0\n/dev/sdb1 /media/usb vfat rw 0 0\nweird\n/dev/sdc1 /media/usb2\n";

fn dev(removable: bool, mp: &str, fs: &str, ty: &str) -> BlockDevice {
    BlockDevice {
        removable,
        mountpoint: mp.to_string(),
        fstype: fs.to_string(),
        label: Some("L".to_string()),
        dev_type: ty.to_string(),
    }
}

#[test]
fn mounts_table() {
    let m = parse_mounts(MOUNTS);
    assert_eq!(m.len(), 4);
    assert_eq!(m[2].device, "/dev/sdb1");
    assert_eq!(m[2].mount_point, "/media/usb");
    assert_eq!(m[2].fs_type.as_deref(), Some("vfat"));
    assert!(m[3].fs_type.is_none());
    assert_eq!(find_mount_point(&m, "sdb").as_deref(), Some("/media/usb"));
    assert!(find_mount_point(&m, "sdz").is_none());
    assert_eq!(find_fs_type(&m, "/media/usb/"), "vfat");
    assert_eq!(find_fs_type(&m, "/media/usb2"), "unknown");
    assert_eq!(best_mount(&m, "/media/usb/backup"), "/media/usb");
    assert_eq!(best_mount(&m, "/media/usb2/x"), "/media/usb2");
    assert_eq!(best_mount(&m, "/home/me"), "/");
    let (d, fs) = mount_device(&m, "/media/usb");
    assert_eq!(d.as_deref(), Some("/dev/sdb1"));
    assert_eq!(fs, "vfat");
    let (d, fs) = mount_device(&m, "/media/usb2");
    assert!(d.is_none());
    assert_eq!(fs, "unknown");
    assert_eq!(removable_check_device(&m, "/media/usb2/x").as_deref(), Some("sdc"));
    assert_eq!(removable_check_device(&m, "/home").as_deref(), Some("sda"));
}

#[test]
fn path_components() {
    assert_eq!(components("/a//b/./c/"), vec!["/", "a", "b", "c"]);
    assert_eq!(components("./a"), vec![".", "a"]);
    assert!(path_starts_with("/media/usb/x", "/media/usb"));
    assert!(!path_starts_with("/media/usbx", "/media/usb"));
    assert!(same_path("/a/b/", "/a//b"));
    assert!(!same_path("/a/b", "a/b"));
}

#[test]
fn device_names() {
    assert_eq!(strip_dev("/dev/sdb1"), "sdb1");
    assert_eq!(base_device("/dev/sdb12"), "sdb");
    assert_eq!(removable_flag_path("sdb"), "/sys/block/sdb/removable");
    assert!(is_removable_flag("1\n"));
    assert!(!is_removable_flag("0\n"));
    assert!(skip_block_device("loop0"));
    assert!(skip_block_device("ram1"));
    assert!(!skip_block_device("sda"));
    let links = vec![("BACKUP".to_string(), "../../sdb1".to_string()), ("OTHER".to_string(), "../../sdc1".to_string())];
    assert_eq!(find_drive_label("sdc1", &links).as_deref(), Some("OTHER"));
    assert!(find_drive_label("sdd1", &links).is_none());
}

#[test]
fn detecting_drives() {
    let devices = vec![
        dev(true, "/media/usb", "vfat", "part"),
        dev(true, "", "vfat", "part"),
        dev(true, "/media/x", "btrfs", "part"),
        dev(false, "/", "ext4", "part"),
        dev(false, "/boot", "ext4", "disk"),
    ];
    assert!(device_wanted(&TargetMode::Removable, &devices[0]));
    assert!(!device_wanted(&TargetMode::Removable, &devices[1]));
    let spaces = vec![(100, 50), (1, 1), (2, 2), (1000, 10), (3, 3)];
    let r = detect_drives(&TargetMode::Removable, &devices, &spaces);
    assert_eq!(r.len(), 1);
    assert_eq!(r[0].mount_point, "/media/usb");
    assert_eq!((r[0].total_space, r[0].free_space), (100, 50));
    assert!(r[0].is_removable);
    let l = detect_drives(&TargetMode::Local, &devices, &spaces);
    assert_eq!(l.len(), 1);
    assert_eq!(l[0].mount_point, "/");
    assert!(!l[0].is_removable);
}

#[test]
fn drive_info_and_filesystem() {
    let m = parse_mounts(MOUNTS);
    let info = get_drive_info("/media/usb/backup", &m, 8, 4, Some("1\n"), None);
    assert_eq!(info.mount_point, "/media/usb");
    assert_eq!(info.fs_type, "vfat");
    assert!(info.is_removable);
    let fixed = get_drive_info("/home", &m, 8, 4, Some("0"), None);
    assert_eq!(fixed.mount_point, "/");
    assert!(!fixed.is_removable);
    let small = DriveInfo {
        mount_point: "/m".into(),
        fs_type: "vfat".into(),
        total_space: 4294967295,
        free_space: 0,
        is_removable: true,
        label: None,
    };
    assert_eq!(determine_fs(&small, None).unwrap(), "vfat");
    let big = DriveInfo { total_space: 4294967296, ..small.clone() };
    assert_eq!(determine_fs(&big, None).unwrap(), "ext4");
    assert_eq!(determine_fs(&big, Some("exfat")).unwrap(), "exfat");
}

#[test]
fn formatting_commands() {
    let (p, args) = mkfs_command("vfat", "/dev/sdb1").unwrap();
    assert_eq!(p, "mkfs.vfat");
    assert_eq!(args, vec!["-F", "32", "-n", "GITKA", "/dev/sdb1"]);
    let (p, args) = mkfs_command("ext4", "/dev/sdb1").unwrap();
    assert_eq!(p, "mkfs.ext4");
    assert_eq!(args, vec!["-F", "-L", "GITKA", "/dev/sdb1"]);
    let (p, args) = mkfs_command("ntfs", "/dev/sdb1").unwrap();
    assert_eq!(p, "mkfs.ntfs");
    assert_eq!(args, vec!["-f", "-L", "GITKA", "/dev/sdb1"]);
    match mkfs_command("btrfs", "/dev/sdb1") {
        Err(gitka::error::GitkaError::Config(m)) => assert_eq!(m, "Unsupported filesystem: btrfs. Use ext4, vfat, or ntfs."),
        _ => panic!(),
    }
}
