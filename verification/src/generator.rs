//! The systemd generator: reads fstab and writes the units that roll the
//! btrfs and zfs filesystems back to their fresh snapshots at boot.
pub mod config;
pub mod fstab;
pub mod systemd_generator;
