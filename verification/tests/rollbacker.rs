use rollbacker::rollbacker::config::rollbacker_option;
use rollbacker::rollbacker::config::ConfigError;
use rollbacker::rollbacker::config::FilesystemType;
use rollbacker::rollbacker::config::RollbackerArgs;
use rollbacker::rollbacker::config::RollbackerConfig;
use rollbacker::rollbacker::config::RollbackerOption;
use rollbacker::rollbacker::filesystem::discover_btrfs_subvolumes;
use rollbacker::rollbacker::filesystem::discover_zfs_datasets_and_snapshots;
use rollbacker::rollbacker::filesystem::discovery_command;
use rollbacker::rollbacker::filesystem::rollback_btrfs_subvolume;
use rollbacker::rollbacker::filesystem::rollback_filesystem;
use rollbacker::rollbacker::filesystem::rollback_zfs_dataset;
use rollbacker::rollbacker::filesystem::CommandOutcome;
use rollbacker::rollbacker::filesystem::CommandSpec;
use rollbacker::rollbacker::filesystem::RollbackError;
use rollbacker::rollbacker::filesystem::RollbackProgress;
use rollbacker::rollbacker::filesystem::RollbackStep;

fn strings(v: &[&str]) -> Vec<String> {
    v.iter().map(|s| s.to_string()).collect()
}

fn argv(c: &CommandSpec) -> Vec<String> {
    let mut v = vec![c.program.clone()];
    v.extend(c.args.iter().cloned());
    v
}

fn ok(stdout: &str) -> CommandOutcome {
    CommandOutcome::Exited { success: true, stdout: stdout.to_string(), stderr: String::new() }
}

fn failed(stderr: &str) -> CommandOutcome {
    CommandOutcome::Exited { success: false, stdout: String::new(), stderr: stderr.to_string() }
}

#[test]
fn rollbacker_filesystem_types() {
    assert_eq!(FilesystemType::from("btrfs").unwrap(), FilesystemType::Btrfs);
    assert_eq!(FilesystemType::from("zfs").unwrap(), FilesystemType::Zfs);
    match FilesystemType::from("ext4") {
        Err(ConfigError::UnsupportedFilesystemType { filesystem_type }) => assert_eq!(filesystem_type, "ext4"),
        other => panic!("unexpected {other:?}"),
    }
    for t in [FilesystemType::Btrfs, FilesystemType::Zfs] {
        assert_eq!(FilesystemType::from(t.name()).unwrap(), t);
    }
}

#[test]
fn rollbacker_options_are_recognised() {
    assert_eq!(rollbacker_option("filesystem-type"), Some(RollbackerOption::FilesystemType));
    assert_eq!(rollbacker_option("fresh-snapshot-suffix"), Some(RollbackerOption::FreshSnapshotSuffix));
    assert_eq!(rollbacker_option("superblock-path"), Some(RollbackerOption::SuperblockPath));
    assert_eq!(rollbacker_option("fstab"), None);
}

fn full_args(t: &str) -> RollbackerArgs {
    let mut a = RollbackerArgs::new();
    a.set_option(RollbackerOption::FilesystemType, t.to_string()).unwrap();
    a.set_option(RollbackerOption::FreshSnapshotSuffix, "@:fresh".to_string()).unwrap();
    a.set_option(RollbackerOption::SuperblockPath, "/mnt/x".to_string()).unwrap();
    a
}

#[test]
fn rollbacker_configure_success() {
    let c = full_args("btrfs").configure(true).unwrap();
    assert_eq!(c.filesystem_type, FilesystemType::Btrfs);
    assert_eq!(c.fresh_snapshot_suffix, "@:fresh");
    assert_eq!(c.superblock_path, "/mnt/x");
}

#[test]
fn rollbacker_configure_missing_options() {
    let a = RollbackerArgs::new();
    assert!(matches!(a.configure(true), Err(ConfigError::MissingFilesystemType)));
    let mut a = RollbackerArgs::new();
    a.set_option(RollbackerOption::FilesystemType, "btrfs".to_string()).unwrap();
    assert!(matches!(a.configure(true), Err(ConfigError::MissingFreshSnapshotSuffix)));
    let mut a = RollbackerArgs::new();
    a.set_option(RollbackerOption::FilesystemType, "btrfs".to_string()).unwrap();
    a.set_option(RollbackerOption::FreshSnapshotSuffix, "s".to_string()).unwrap();
    assert!(matches!(a.configure(true), Err(ConfigError::MissingSuperblockPath)));
}

#[test]
fn rollbacker_configure_refuses_path() {
    match full_args("btrfs").configure(false) {
        Err(ConfigError::SuperblockPathNotFound { superblock_path }) => assert_eq!(superblock_path, "/mnt/x"),
        other => panic!("unexpected {other:?}"),
    }
    // zfs superblock paths are refused even when they exist.
    assert!(matches!(full_args("zfs").configure(true), Err(ConfigError::SuperblockPathNotFound { .. })));
}

#[test]
fn rollbacker_unsupported_type_leaves_args() {
    let mut a = RollbackerArgs::new();
    a.set_option(RollbackerOption::FilesystemType, "btrfs".to_string()).unwrap();
    assert!(a.set_option(RollbackerOption::FilesystemType, "xfs".to_string()).is_err());
    assert_eq!(a.filesystem_type, Some(FilesystemType::Btrfs));
}

#[test]
fn discovery_commands() {
    assert_eq!(argv(&discovery_command(FilesystemType::Btrfs, "/m")), strings(&["btrfs", "subvolume", "list", "-a", "/m"]));
    assert_eq!(argv(&discovery_command(FilesystemType::Zfs, "tank")), strings(&["zfs", "list", "-H", "-t", "all", "-r", "tank"]));
}

const BTRFS_LISTING: &str = "ID 256 gen 10 top level 5 path <FS_TREE>/root1\nID 257 gen 11 top level 5 path <FS_TREE>/root1@:fresh\nID 258 gen 12 top level 5 path home\nID 258 gen 12 top level 5 path home\n";

#[test]
fn btrfs_discovery_reads_paths() {
    let found = discover_btrfs_subvolumes(BTRFS_LISTING, "/m").unwrap();
    assert_eq!(found, strings(&["/m/root1", "/m/root1@:fresh", "/m/home"]));
    assert_eq!(discover_btrfs_subvolumes("", "/m").unwrap(), Vec::<String>::new());
}

#[test]
fn btrfs_discovery_refuses_blank_line() {
    assert_eq!(discover_btrfs_subvolumes("ID 1 path a\n \nID 2 path b\n", "/m"), Err(" ".to_string()));
}

const ZFS_LISTING: &str = "tank\t1G\t2G\t96K\t/tank\ntank/abc\t1M\t2G\t1M\t/\ntank/abc@:fresh\t0B\t-\t1M\t-\n";

#[test]
fn zfs_discovery_reads_names() {
    let found = discover_zfs_datasets_and_snapshots(ZFS_LISTING, "tank").unwrap();
    assert_eq!(found, strings(&["tank/abc", "tank/abc@:fresh"]));
    assert_eq!(discover_zfs_datasets_and_snapshots("tank\n\n", "tank"), Err("".to_string()));
}

#[test]
fn btrfs_plan_pairs_names_with_snapshots() {
    let found = strings(&["/m/root1", "/m/root1@:fresh", "/m/home"]);
    let steps = rollback_btrfs_subvolume(&found, "@:fresh");
    assert_eq!(steps.len(), 2);
    match (&steps[0], &steps[1]) {
        (RollbackStep::DeleteSubvolume { subvolume }, RollbackStep::SnapshotSubvolume { subvolume: s2, snapshot }) => {
            assert_eq!(subvolume, "/m/root1");
            assert_eq!(s2, "/m/root1");
            assert_eq!(snapshot, "/m/root1@:fresh");
        }
        other => panic!("unexpected {other:?}"),
    }
    assert_eq!(argv(&steps[0].command()), strings(&["btrfs", "subvolume", "delete", "/m/root1"]));
    assert_eq!(argv(&steps[1].command()), strings(&["btrfs", "subvolume", "snapshot", "/m/root1@:fresh", "/m/root1"]));
}

#[test]
fn btrfs_plan_matching_name_is_a_prefix_of_suffix_length() {
    // The name that a snapshot belongs to is its first (suffix bytes + 1)
    // characters, so a longer name finds no partner.
    let found = strings(&["/mnt/root", "/mnt/root@:fresh"]);
    assert!(rollback_btrfs_subvolume(&found, "@:fresh").is_empty());
    assert!(rollback_btrfs_subvolume(&strings(&[]), "@:fresh").is_empty());
}

#[test]
fn zfs_plan_rolls_datasets_back() {
    let found = strings(&["tank/abc", "tank/abc@:fresh"]);
    let steps = rollback_zfs_dataset(&found, "@:fresh");
    assert_eq!(steps.len(), 1);
    match &steps[0] {
        RollbackStep::RollbackDataset { dataset, snapshot } => {
            assert_eq!(dataset, "tank/abc");
            assert_eq!(snapshot, "tank/abc@:fresh");
        }
        other => panic!("unexpected {other:?}"),
    }
    assert_eq!(argv(&steps[0].command()), strings(&["zfs", "rollback", "-r", "tank/abc@:fresh"]));
}

fn btrfs_config() -> RollbackerConfig {
    RollbackerConfig {
        filesystem_type: FilesystemType::Btrfs,
        fresh_snapshot_suffix: "@:fresh".to_string(),
        superblock_path: "/m".to_string(),
    }
}

#[test]
fn rollback_runs_every_step_then_succeeds() {
    let (machine, first) = rollback_filesystem(&btrfs_config());
    assert_eq!(argv(&first), strings(&["btrfs", "subvolume", "list", "-a", "/m"]));
    let (machine, second) = match machine.on_outcome(ok(BTRFS_LISTING)) {
        RollbackProgress::Continue { rollback, command } => (rollback, command),
        RollbackProgress::Done { result } => panic!("unexpected end {result:?}"),
    };
    assert_eq!(argv(&second), strings(&["btrfs", "subvolume", "delete", "/m/root1"]));
    let (machine, third) = match machine.on_outcome(ok("")) {
        RollbackProgress::Continue { rollback, command } => (rollback, command),
        RollbackProgress::Done { result } => panic!("unexpected end {result:?}"),
    };
    assert_eq!(argv(&third), strings(&["btrfs", "subvolume", "snapshot", "/m/root1@:fresh", "/m/root1"]));
    match machine.on_outcome(ok("")) {
        RollbackProgress::Done { result } => assert!(result.is_ok()),
        RollbackProgress::Continue { .. } => panic!("expected the end"),
    }
}

#[test]
fn rollback_with_nothing_to_do_succeeds_after_listing() {
    let (machine, _) = rollback_filesystem(&btrfs_config());
    match machine.on_outcome(ok("ID 258 gen 12 top level 5 path home\n")) {
        RollbackProgress::Done { result } => assert!(result.is_ok()),
        RollbackProgress::Continue { .. } => panic!("expected the end"),
    }
}

#[test]
fn rollback_stops_at_failed_step() {
    let (machine, _) = rollback_filesystem(&btrfs_config());
    let machine = match machine.on_outcome(ok(BTRFS_LISTING)) {
        RollbackProgress::Continue { rollback, .. } => rollback,
        RollbackProgress::Done { result } => panic!("unexpected end {result:?}"),
    };
    match machine.on_outcome(failed("busy")) {
        RollbackProgress::Done { result: Err(RollbackError::StepFailed { step: RollbackStep::DeleteSubvolume { subvolume }, stderr }) } => {
            assert_eq!(subvolume, "/m/root1");
            assert_eq!(stderr, "busy");
        }
        other => panic!("unexpected {other:?}"),
    }
}

#[test]
fn rollback_errors_of_discovery() {
    let (machine, _) = rollback_filesystem(&btrfs_config());
    match machine.on_outcome(failed("no fs")) {
        RollbackProgress::Done { result: Err(RollbackError::DiscoveryFailed { filesystem_type, superblock_path, stderr }) } => {
            assert_eq!(filesystem_type, FilesystemType::Btrfs);
            assert_eq!(superblock_path, "/m");
            assert_eq!(stderr, "no fs");
        }
        other => panic!("unexpected {other:?}"),
    }
    let (machine, _) = rollback_filesystem(&btrfs_config());
    match machine.on_outcome(ok("a\n\n")) {
        RollbackProgress::Done { result: Err(RollbackError::UnreadableListing { line, .. }) } => assert_eq!(line, ""),
        other => panic!("unexpected {other:?}"),
    }
    let (machine, _) = rollback_filesystem(&btrfs_config());
    match machine.on_outcome(CommandOutcome::SpawnFailed { error: "not found".to_string() }) {
        RollbackProgress::Done { result: Err(RollbackError::CommandNotRun { error }) } => assert_eq!(error, "not found"),
        other => panic!("unexpected {other:?}"),
    }
}

#[test]
fn zfs_rollback_runs_rollback_command() {
    let config = RollbackerConfig {
        filesystem_type: FilesystemType::Zfs,
        fresh_snapshot_suffix: "@:fresh".to_string(),
        superblock_path: "tank".to_string(),
    };
    let (machine, first) = rollback_filesystem(&config);
    assert_eq!(argv(&first), strings(&["zfs", "list", "-H", "-t", "all", "-r", "tank"]));
    let (machine, second) = match machine.on_outcome(ok(ZFS_LISTING)) {
        RollbackProgress::Continue { rollback, command } => (rollback, command),
        RollbackProgress::Done { result } => panic!("unexpected end {result:?}"),
    };
    assert_eq!(argv(&second), strings(&["zfs", "rollback", "-r", "tank/abc@:fresh"]));
    match machine.on_outcome(ok("")) {
        RollbackProgress::Done { result } => assert!(result.is_ok()),
        RollbackProgress::Continue { .. } => panic!("expected the end"),
    }
}
