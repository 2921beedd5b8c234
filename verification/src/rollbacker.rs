//! The rollbacker: replaces btrfs subvolumes and zfs datasets with their
//! fresh snapshots.
pub mod config;
pub mod filesystem;
