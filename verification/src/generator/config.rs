//! Settings of the systemd generator and the handling of its options.
use vstd::prelude::*;

use crate::text::chars_eq;
use crate::text::chars_of;

verus! {

/// fstab read when `--fstab` is not given.
pub const DEFAULT_FSTAB: &'static str = "/etc/fstab";

/// Directory under which superblocks are mounted when `--mount-path` is not given.
pub const DEFAULT_MOUNT_PATH: &'static str = "/mnt/rollbacker";

/// Suffix that marks a fresh snapshot when `--fresh-snapshot-suffix` is not given.
pub const DEFAULT_FRESH_SNAPSHOT_SUFFIX: &'static str = "@:fresh";

#[derive(Debug)]
pub struct SystemdRollbackerGeneratorConfig {
    pub fstab: String,
    pub mount_path: String,
    pub fresh_snapshot_suffix: String,
}

/// The options the generator accepts, each taking one value.
#[derive(Debug, Clone, Copy, PartialEq, Eq, Structural)]
pub enum GeneratorOption {
    Fstab,
    MountPath,
    FreshSnapshotSuffix,
}

/// The option that the long flag `--<name>` stands for, if the generator has one.
pub open spec fn spec_generator_option(name: Seq<char>) -> Option<GeneratorOption> {
    if name == "fstab"@ {
        Some(GeneratorOption::Fstab)
    } else if name == "mount-path"@ {
        Some(GeneratorOption::MountPath)
    } else if name == "fresh-snapshot-suffix"@ {
        Some(GeneratorOption::FreshSnapshotSuffix)
    } else {
        None
    }
}

/// Recognises a long flag by its name (without the leading `--`).
pub fn generator_option(name: &str) -> (r: Option<GeneratorOption>)
    ensures
        r == spec_generator_option(name@),
{
    let n = chars_of(name);
    if chars_eq(&n, &chars_of("fstab")) {
        Some(GeneratorOption::Fstab)
    } else if chars_eq(&n, &chars_of("mount-path")) {
        Some(GeneratorOption::MountPath)
    } else if chars_eq(&n, &chars_of("fresh-snapshot-suffix")) {
        Some(GeneratorOption::FreshSnapshotSuffix)
    } else {
        None
    }
}

impl SystemdRollbackerGeneratorConfig {
    /// The settings before any option is read: every field at its default.
    pub fn new() -> (c: Self)
        ensures
            c.fstab@ == DEFAULT_FSTAB@,
            c.mount_path@ == DEFAULT_MOUNT_PATH@,
            c.fresh_snapshot_suffix@ == DEFAULT_FRESH_SNAPSHOT_SUFFIX@,
    {
        SystemdRollbackerGeneratorConfig {
            fstab: String::from_str(DEFAULT_FSTAB),
            mount_path: String::from_str(DEFAULT_MOUNT_PATH),
            fresh_snapshot_suffix: String::from_str(DEFAULT_FRESH_SNAPSHOT_SUFFIX),
        }
    }

    /// Records the value of one option; a later value of an option replaces
    /// an earlier one. For `--fstab` the value is the fstab's path as the
    /// caller canonicalised it.
    pub fn set_option(&mut self, option: GeneratorOption, value: String)
        ensures
            final(self).fstab@ == (if option == GeneratorOption::Fstab {
                value@
            } else {
                old(self).fstab@
            }),
            final(self).mount_path@ == (if option == GeneratorOption::MountPath {
                value@
            } else {
                old(self).mount_path@
            }),
            final(self).fresh_snapshot_suffix@ == (if option
                == GeneratorOption::FreshSnapshotSuffix {
                value@
            } else {
                old(self).fresh_snapshot_suffix@
            }),
    {
        match option {
            GeneratorOption::Fstab => self.fstab = value,
            GeneratorOption::MountPath => self.mount_path = value,
            GeneratorOption::FreshSnapshotSuffix => self.fresh_snapshot_suffix = value,
        }
    }
}

} // verus!
