//! Settings of the rollbacker and the handling of its options.
use vstd::prelude::*;

use crate::text::chars_eq;
use crate::text::chars_of;

verus! {

/// The filesystems that the rollbacker can roll back.
#[derive(Debug, Clone, Copy, PartialEq, Eq, Structural)]
pub enum FilesystemType {
    Btrfs,
    Zfs,
}

/// The filesystem that the value of `--filesystem-type` names, if any.
pub open spec fn spec_filesystem_type(name: Seq<char>) -> Option<FilesystemType> {
    if name == "btrfs"@ {
        Some(FilesystemType::Btrfs)
    } else if name == "zfs"@ {
        Some(FilesystemType::Zfs)
    } else {
        None
    }
}

/// The name under which a filesystem type is displayed.
pub open spec fn spec_filesystem_name(t: FilesystemType) -> Seq<char> {
    match t {
        FilesystemType::Btrfs => "btrfs"@,
        FilesystemType::Zfs => "zfs"@,
    }
}

/// Why the options do not make a configuration.
#[derive(Debug)]
pub enum ConfigError {
    /// `--filesystem-type` names a filesystem that cannot be rolled back.
    UnsupportedFilesystemType { filesystem_type: String },
    /// `--filesystem-type` was not given.
    MissingFilesystemType,
    /// `--fresh-snapshot-suffix` was not given.
    MissingFreshSnapshotSuffix,
    /// `--superblock-path` was not given.
    MissingSuperblockPath,
    /// The superblock path was refused: it does not exist, or the
    /// filesystem is zfs.
    SuperblockPathNotFound { superblock_path: String },
}

/// [`ConfigError`] over character sequences.
pub enum ConfigErrorView {
    UnsupportedFilesystemType { filesystem_type: Seq<char> },
    MissingFilesystemType,
    MissingFreshSnapshotSuffix,
    MissingSuperblockPath,
    SuperblockPathNotFound { superblock_path: Seq<char> },
}

impl View for ConfigError {
    type V = ConfigErrorView;

    open spec fn view(&self) -> ConfigErrorView {
        match self {
            ConfigError::UnsupportedFilesystemType { filesystem_type } =>
                ConfigErrorView::UnsupportedFilesystemType { filesystem_type: filesystem_type@ },
            ConfigError::MissingFilesystemType => ConfigErrorView::MissingFilesystemType,
            ConfigError::MissingFreshSnapshotSuffix => ConfigErrorView::MissingFreshSnapshotSuffix,
            ConfigError::MissingSuperblockPath => ConfigErrorView::MissingSuperblockPath,
            ConfigError::SuperblockPathNotFound { superblock_path } =>
                ConfigErrorView::SuperblockPathNotFound { superblock_path: superblock_path@ },
        }
    }
}

impl FilesystemType {
    /// Reads the value of `--filesystem-type`.
    pub fn from(filesystem_type: &str) -> (r: Result<Self, ConfigError>)
        ensures
            match r {
                Ok(t) => spec_filesystem_type(filesystem_type@) == Some(t),
                Err(e) => spec_filesystem_type(filesystem_type@) is None && e@
                    == (ConfigErrorView::UnsupportedFilesystemType {
                    filesystem_type: filesystem_type@,
                }),
            },
    {
        let n = chars_of(filesystem_type);
        if chars_eq(&n, &chars_of("btrfs")) {
            Ok(FilesystemType::Btrfs)
        } else if chars_eq(&n, &chars_of("zfs")) {
            Ok(FilesystemType::Zfs)
        } else {
            Err(
                ConfigError::UnsupportedFilesystemType {
                    filesystem_type: String::from_str(filesystem_type),
                },
            )
        }
    }

    /// The name under which the type is displayed (what `Display` printed).
    pub fn name(&self) -> (r: &'static str)
        ensures
            r@ == spec_filesystem_name(*self),
    {
        match self {
            FilesystemType::Btrfs => "btrfs",
            FilesystemType::Zfs => "zfs",
        }
    }
}

/// Reading a displayed name gives back the type, for every type.
pub proof fn lemma_filesystem_name_round_trip(t: FilesystemType)
    ensures
        spec_filesystem_type(spec_filesystem_name(t)) == Some(t),
{
    reveal_strlit("btrfs");
    reveal_strlit("zfs");
    assert("btrfs"@[0] == 'b');
    assert("zfs"@[0] == 'z');
}

/// What the rollbacker works on.
#[derive(Debug)]
pub struct RollbackerConfig {
    pub filesystem_type: FilesystemType,
    pub fresh_snapshot_suffix: String,
    pub superblock_path: String,
}

/// The options the rollbacker accepts, each taking one value.
#[derive(Debug, Clone, Copy, PartialEq, Eq, Structural)]
pub enum RollbackerOption {
    FilesystemType,
    FreshSnapshotSuffix,
    SuperblockPath,
}

/// The option that the long flag `--<name>` stands for, if the rollbacker has one.
pub open spec fn spec_rollbacker_option(name: Seq<char>) -> Option<RollbackerOption> {
    if name == "filesystem-type"@ {
        Some(RollbackerOption::FilesystemType)
    } else if name == "fresh-snapshot-suffix"@ {
        Some(RollbackerOption::FreshSnapshotSuffix)
    } else if name == "superblock-path"@ {
        Some(RollbackerOption::SuperblockPath)
    } else {
        None
    }
}

/// Recognises a long flag by its name (without the leading `--`).
pub fn rollbacker_option(name: &str) -> (r: Option<RollbackerOption>)
    ensures
        r == spec_rollbacker_option(name@),
{
    let n = chars_of(name);
    if chars_eq(&n, &chars_of("filesystem-type")) {
        Some(RollbackerOption::FilesystemType)
    } else if chars_eq(&n, &chars_of("fresh-snapshot-suffix")) {
        Some(RollbackerOption::FreshSnapshotSuffix)
    } else if chars_eq(&n, &chars_of("superblock-path")) {
        Some(RollbackerOption::SuperblockPath)
    } else {
        None
    }
}

/// The options read so far; a later value of an option replaces an earlier one.
#[derive(Debug)]
pub struct RollbackerArgs {
    pub filesystem_type: Option<FilesystemType>,
    pub fresh_snapshot_suffix: Option<String>,
    pub superblock_path: Option<String>,
}

pub open spec fn opt_view(o: Option<String>) -> Option<Seq<char>> {
    match o {
        Some(s) => Some(s@),
        None => None,
    }
}

/// The configuration that the options make, given whether the superblock
/// path exists; the first missing option, in the order filesystem type,
/// suffix, superblock path, is the error.
pub open spec fn spec_configure(
    filesystem_type: Option<FilesystemType>,
    fresh_snapshot_suffix: Option<Seq<char>>,
    superblock_path: Option<Seq<char>>,
    superblock_path_exists: bool,
) -> Result<(FilesystemType, Seq<char>, Seq<char>), ConfigErrorView> {
    match (filesystem_type, fresh_snapshot_suffix, superblock_path) {
        (None, _, _) => Err(ConfigErrorView::MissingFilesystemType),
        (Some(_), None, _) => Err(ConfigErrorView::MissingFreshSnapshotSuffix),
        (Some(_), Some(_), None) => Err(ConfigErrorView::MissingSuperblockPath),
        (Some(t), Some(s), Some(p)) => if t != FilesystemType::Zfs && superblock_path_exists {
            Ok((t, s, p))
        } else {
            Err(ConfigErrorView::SuperblockPathNotFound { superblock_path: p })
        },
    }
}

impl RollbackerArgs {
    /// No option read yet.
    pub fn new() -> (a: Self)
        ensures
            a.filesystem_type is None,
            a.fresh_snapshot_suffix is None,
            a.superblock_path is None,
    {
        RollbackerArgs { filesystem_type: None, fresh_snapshot_suffix: None, superblock_path: None }
    }

    /// Records the value of one option. A filesystem type that cannot be
    /// rolled back is refused, and the options are then left as they were.
    pub fn set_option(&mut self, option: RollbackerOption, value: String) -> (r: Result<(), ConfigError>)
        ensures
            option == RollbackerOption::FilesystemType ==> match spec_filesystem_type(value@) {
                Some(t) => r is Ok && final(self).filesystem_type == Some(t),
                None => r matches Err(e) && e@ == (ConfigErrorView::UnsupportedFilesystemType {
                    filesystem_type: value@,
                }) && final(self).filesystem_type == old(self).filesystem_type,
            },
            option != RollbackerOption::FilesystemType ==> r is Ok && final(self).filesystem_type
                == old(self).filesystem_type,
            opt_view(final(self).fresh_snapshot_suffix) == (if option
                == RollbackerOption::FreshSnapshotSuffix {
                Some(value@)
            } else {
                opt_view(old(self).fresh_snapshot_suffix)
            }),
            opt_view(final(self).superblock_path) == (if option == RollbackerOption::SuperblockPath {
                Some(value@)
            } else {
                opt_view(old(self).superblock_path)
            }),
    {
        match option {
            RollbackerOption::FilesystemType => {
                match FilesystemType::from(value.as_str()) {
                    Ok(t) => {
                        self.filesystem_type = Some(t);
                        Ok(())
                    },
                    Err(e) => Err(e),
                }
            },
            RollbackerOption::FreshSnapshotSuffix => {
                self.fresh_snapshot_suffix = Some(value);
                Ok(())
            },
            RollbackerOption::SuperblockPath => {
                self.superblock_path = Some(value);
                Ok(())
            },
        }
    }

    /// Checks that every option was given and that the superblock path was
    /// accepted, and makes the configuration. `superblock_path_exists` says
    /// whether the superblock path given exists on disk.
    pub fn configure(self, superblock_path_exists: bool) -> (r: Result<RollbackerConfig, ConfigError>)
        ensures
            match spec_configure(
                self.filesystem_type,
                opt_view(self.fresh_snapshot_suffix),
                opt_view(self.superblock_path),
                superblock_path_exists,
            ) {
                Ok((t, s, p)) => r matches Ok(c) && c.filesystem_type == t && c.fresh_snapshot_suffix@ == s
                    && c.superblock_path@ == p,
                Err(e) => r matches Err(err) && err@ == e,
            },
    {
        let filesystem_type = match self.filesystem_type {
            Some(t) => t,
            None => return Err(ConfigError::MissingFilesystemType),
        };
        let fresh_snapshot_suffix = match self.fresh_snapshot_suffix {
            Some(s) => s,
            None => return Err(ConfigError::MissingFreshSnapshotSuffix),
        };
        let superblock_path = match self.superblock_path {
            Some(p) => p,
            None => return Err(ConfigError::MissingSuperblockPath),
        };
        if filesystem_type != FilesystemType::Zfs && superblock_path_exists {
            Ok(RollbackerConfig { filesystem_type, fresh_snapshot_suffix, superblock_path })
        } else {
            Err(ConfigError::SuperblockPathNotFound { superblock_path })
        }
    }
}

} // verus!
