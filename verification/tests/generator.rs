use rollbacker::generator::config::generator_option;
use rollbacker::generator::config::GeneratorOption;
use rollbacker::generator::config::SystemdRollbackerGeneratorConfig;
use rollbacker::generator::fstab::parse_fstab;
use rollbacker::generator::fstab::FilesystemType;
use rollbacker::generator::fstab::FstabEntryError;
use rollbacker::generator::fstab::SuperblockEntry;
use rollbacker::generator::systemd_generator::convert_device_mount_paths_to_mount_units;
use rollbacker::generator::systemd_generator::generate_systemd_services;
use rollbacker::generator::systemd_generator::strip_multi_line_prefix;
use rollbacker::generator::systemd_generator::systemd_escape;
use rollbacker::generator::systemd_generator::GeneratorAction;

fn config() -> SystemdRollbackerGeneratorConfig {
    SystemdRollbackerGeneratorConfig::new()
}

#[test]
fn generator_defaults() {
    let c = config();
    assert_eq!(c.fstab, "/etc/fstab");
    assert_eq!(c.mount_path, "/mnt/rollbacker");
    assert_eq!(c.fresh_snapshot_suffix, "@:fresh");
}

#[test]
fn generator_options_are_recognised() {
    assert_eq!(generator_option("fstab"), Some(GeneratorOption::Fstab));
    assert_eq!(generator_option("mount-path"), Some(GeneratorOption::MountPath));
    assert_eq!(generator_option("fresh-snapshot-suffix"), Some(GeneratorOption::FreshSnapshotSuffix));
    assert_eq!(generator_option("superblock-path"), None);
    assert_eq!(generator_option(""), None);
}

#[test]
fn generator_later_option_value_wins() {
    let mut c = config();
    c.set_option(GeneratorOption::MountPath, "/a".to_string());
    c.set_option(GeneratorOption::MountPath, "/b".to_string());
    c.set_option(GeneratorOption::FreshSnapshotSuffix, "@new".to_string());
    c.set_option(GeneratorOption::Fstab, "/tmp/fstab".to_string());
    assert_eq!(c.mount_path, "/b");
    assert_eq!(c.fresh_snapshot_suffix, "@new");
    assert_eq!(c.fstab, "/tmp/fstab");
}

#[test]
fn fstab_filesystem_types() {
    assert_eq!(FilesystemType::from("btrfs").unwrap(), FilesystemType::Btrfs);
    assert_eq!(FilesystemType::from("ext4").unwrap(), FilesystemType::Ext4);
    assert_eq!(FilesystemType::from("fat").unwrap(), FilesystemType::Fat);
    assert_eq!(FilesystemType::from("vfat").unwrap(), FilesystemType::Fat);
    assert_eq!(FilesystemType::from("swap").unwrap(), FilesystemType::Swap);
    assert_eq!(FilesystemType::from("xfs").unwrap(), FilesystemType::Xfs);
    assert_eq!(FilesystemType::from("zfs").unwrap(), FilesystemType::Zfs);
    match FilesystemType::from("nfs") {
        Err(FstabEntryError::UnsupportedFilesystemType { filesystem_type }) => assert_eq!(filesystem_type, "nfs"),
        other => panic!("unexpected {other:?}"),
    }
    assert!(FilesystemType::from("Btrfs").is_err());
}

#[test]
fn fstab_filesystem_names_round_trip() {
    for t in [
        FilesystemType::Btrfs,
        FilesystemType::Ext4,
        FilesystemType::Fat,
        FilesystemType::Swap,
        FilesystemType::Xfs,
        FilesystemType::Zfs,
    ] {
        assert_eq!(FilesystemType::from(t.name()).unwrap(), t);
    }
    assert_eq!(FilesystemType::Fat.name(), "fat");
}

#[test]
fn fstab_entry_with_uuid() {
    let (e, p) = SuperblockEntry::from("UUID=abcd / btrfs subvol=@ 0 0", &config()).unwrap();
    assert_eq!(e.device, "/dev/disk/by-uuid/abcd");
    assert_eq!(e.filesystem_type, FilesystemType::Btrfs);
    assert_eq!(e.mount_path.as_deref(), Some("/mnt/rollbacker/abcd"));
    assert_eq!(p, "/");
}

#[test]
fn fstab_entry_tags() {
    let c = config();
    let (e, _) = SuperblockEntry::from("LABEL=root /home ext4 defaults", &c).unwrap();
    assert_eq!(e.device, "/dev/disk/by-label/root");
    assert_eq!(e.mount_path.as_deref(), Some("/mnt/rollbacker/root"));
    let (e, _) = SuperblockEntry::from("PARTLABEL=p1 /boot vfat defaults", &c).unwrap();
    assert_eq!(e.device, "/dev/disk/by-partlabel/p1");
    assert_eq!(e.filesystem_type, FilesystemType::Fat);
    let (e, _) = SuperblockEntry::from("PARTUUID=12-34 /x xfs", &c).unwrap();
    assert_eq!(e.device, "/dev/disk/by-partuuid/12-34");
    let (e, p) = SuperblockEntry::from("\t/dev/sda2   /srv  swap  ", &c).unwrap();
    assert_eq!(e.device, "/dev/sda2");
    assert_eq!(e.mount_path.as_deref(), Some("/mnt/rollbacker/sda2"));
    assert_eq!(p, "/srv");
}

#[test]
fn fstab_entry_zfs_is_its_pool() {
    let (e, p) = SuperblockEntry::from("rpool/ROOT/debian / zfs defaults 0 0", &config()).unwrap();
    assert_eq!(e.device, "rpool");
    assert_eq!(e.filesystem_type, FilesystemType::Zfs);
    assert_eq!(e.mount_path, None);
    assert_eq!(p, "/");
}

#[test]
fn fstab_entry_errors() {
    let c = config();
    match SuperblockEntry::from("   ", &c) {
        Err(FstabEntryError::MissingDevice { fstab_entry }) => assert_eq!(fstab_entry, "   "),
        other => panic!("unexpected {other:?}"),
    }
    match SuperblockEntry::from("/dev/sda1 /", &c) {
        Err(FstabEntryError::MissingFilesystemType { fstab_entry }) => assert_eq!(fstab_entry, "/dev/sda1 /"),
        other => panic!("unexpected {other:?}"),
    }
    match SuperblockEntry::from("server:/x /mnt nfs defaults", &c) {
        Err(FstabEntryError::UnsupportedFilesystemType { filesystem_type }) => assert_eq!(filesystem_type, "nfs"),
        other => panic!("unexpected {other:?}"),
    }
}

#[test]
fn fstab_groups_lines_by_superblock() {
    let contents = "# comment\n\nUUID=abcd / btrfs subvol=@ 0 0\r\nUUID=abcd /home btrfs subvol=@home 0 0\nrpool/ROOT / zfs defaults\n  # indented comment\nserver:/x /mnt nfs defaults\nrpool/home /home zfs defaults";
    let parsed = parse_fstab(&config(), contents);
    assert_eq!(parsed.len(), 2);
    assert_eq!(parsed[0].0.device, "/dev/disk/by-uuid/abcd");
    assert_eq!(parsed[0].1, vec!["/".to_string(), "/home".to_string()]);
    assert_eq!(parsed[1].0.device, "rpool");
    assert_eq!(parsed[1].1, vec!["/".to_string(), "/home".to_string()]);
}

#[test]
fn fstab_empty_gives_no_groups() {
    assert!(parse_fstab(&config(), "").is_empty());
    assert!(parse_fstab(&config(), "\n\n# only comments\n").is_empty());
}

#[test]
fn escape_root_is_dash() {
    assert_eq!(systemd_escape("/"), "-");
}

#[test]
fn escape_paths() {
    assert_eq!(systemd_escape("/mnt/rollbacker/abcd"), "mnt-rollbacker-abcd");
    assert_eq!(systemd_escape("/dev/disk/by-uuid/ab-cd"), "dev-disk-by\\x2duuid-ab\\x2dcd");
    assert_eq!(systemd_escape("rpool"), "rpool");
    assert_eq!(systemd_escape("a/b/c"), "ab-c");
    assert_eq!(systemd_escape(""), "");
    assert!(!systemd_escape("//x//").contains('/'));
}

#[test]
fn mount_units_joined_with_spaces() {
    let paths = vec!["/".to_string(), "/home".to_string(), "/var/lib-x".to_string()];
    assert_eq!(convert_device_mount_paths_to_mount_units(&paths), "-.mount home.mount var-lib\\x2dx.mount");
    assert_eq!(convert_device_mount_paths_to_mount_units(&Vec::new()), "");
}

#[test]
fn strip_removes_indentation() {
    assert_eq!(strip_multi_line_prefix("\n    a\n      b\n\n    c\n   "), "a\nb\n\nc");
    assert_eq!(strip_multi_line_prefix("  x  "), "x");
    assert_eq!(strip_multi_line_prefix("a\r\n  b"), "a\nb");
    assert_eq!(strip_multi_line_prefix(" \n \t "), "");
}

#[test]
fn generates_btrfs_units() {
    let parsed = parse_fstab(&config(), "UUID=abcd / btrfs subvol=@ 0 0\nUUID=abcd /home btrfs subvol=@home 0 0\n");
    let actions = generate_systemd_services(&config(), &parsed);
    assert_eq!(actions.len(), 2);
    match &actions[0] {
        GeneratorAction::WriteUnit { path, contents } => {
            assert_eq!(path, "/run/systemd/generator/mnt-rollbacker-abcd.mount");
            assert_eq!(
                contents,
                "[Unit]\nRequires=dev-disk-by\\x2duuid-abcd.device\n\n[Mount]\nWhat=/dev/disk/by-uuid/abcd\nWhere=/mnt/rollbacker/abcd\nType=btrfs\nOptions=subvolid=5"
            );
        }
        other => panic!("unexpected {other:?}"),
    }
    match &actions[1] {
        GeneratorAction::WriteUnit { path, contents } => {
            assert_eq!(path, "/run/systemd/generator/mnt-rollbacker-abcd.service");
            assert_eq!(
                contents,
                "[Unit]\nRequires=mnt-rollbacker-abcd.mount\nAfter=mnt-rollbacker-abcd.mount\nBefore=sysroot.mount -.mount home.mount\nRequiredBy=sysroot.mount -.mount home.mount\n\n[Service]\nType=oneshot\nRemainAfterExit=yes\nExecStart=/usr/bin/env bash -c 'rollbacker --filesystem-type btrfs --fresh-snapshot-suffix @:fresh --superblock-path /mnt/rollbacker/abcd && systemctl stop /run/systemd/generator/mnt-rollbacker-abcd.mount'"
            );
        }
        other => panic!("unexpected {other:?}"),
    }
}

#[test]
fn generates_zfs_unit_and_skips_others() {
    let parsed = parse_fstab(&config(), "rpool/ROOT / zfs defaults\n/dev/sda1 /boot ext4 defaults\n");
    let actions = generate_systemd_services(&config(), &parsed);
    assert_eq!(actions.len(), 2);
    match &actions[0] {
        GeneratorAction::WriteUnit { path, contents } => {
            assert_eq!(path, "/run/systemd/generator/rpool.service");
            assert_eq!(
                contents,
                "[Unit]\nRequires=zfs-import-rpool.service\nAfter=zfs-import-rpool.service\nRequiredBy=zfs-import.target -.mount\nBefore=zfs-import.target -.mount\n\n[Service]\nType=oneshot\nRemainAfterExit=yes\nExecStart=rollbacker --filesystem-type zfs --fresh-snapshot-suffix @:fresh --superblock-path rpool"
            );
        }
        other => panic!("unexpected {other:?}"),
    }
    match &actions[1] {
        GeneratorAction::SkipUnsupported { filesystem_type } => assert_eq!(*filesystem_type, FilesystemType::Ext4),
        other => panic!("unexpected {other:?}"),
    }
}

#[test]
fn generates_nothing_for_empty_fstab() {
    let parsed = parse_fstab(&config(), "");
    assert!(generate_systemd_services(&config(), &parsed).is_empty());
}

fn unescape(name: &str) -> String {
    format!("/{}", name.replace('-', "/").replace("\\x2d", "-"))
}

#[test]
fn escape_is_undone() {
    for path in ["/mnt/rollbacker/abcd", "/dev/disk/by-uuid/ab-cd", "/a--b/c-", "/x", "/-/"] {
        assert_eq!(unescape(&systemd_escape(path)), path);
    }
}

#[test]
fn strip_twice_is_strip_once() {
    for text in [
        "\n    a\n      b\n\n    c\n   ",
        "  x  ",
        " \n \t ",
        "\n        [Unit]\n        Requires=a.device\n\n        [Mount]\n        What=/dev/a\n            ",
        "a\n\n\n  \n b",
    ] {
        let once = strip_multi_line_prefix(text);
        assert_eq!(strip_multi_line_prefix(&once), once);
    }
}

#[test]
fn superblock_entries_compare_by_fields() {
    let c = config();
    let (a, _) = SuperblockEntry::from("UUID=abcd / btrfs", &c).unwrap();
    let (b, _) = SuperblockEntry::from("UUID=abcd /home btrfs", &c).unwrap();
    let (z, _) = SuperblockEntry::from("rpool/x / zfs", &c).unwrap();
    assert_eq!(a, b);
    assert_ne!(a, z);
}
