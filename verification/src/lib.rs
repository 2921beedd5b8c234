//! Verified core of a snapshot rollbacker for btrfs and zfs and of the systemd
//! generator that schedules it at boot.
pub mod text;
pub mod generator;
pub mod rollbacker;
