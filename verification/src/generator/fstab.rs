//! Reading fstab: which superblocks exist, their filesystems, and where their
//! subvolumes or datasets are mounted.
use vstd::prelude::*;

use crate::generator::config::SystemdRollbackerGeneratorConfig;
use crate::text::after_last;
use crate::text::after_last_chars;
use crate::text::before_first;
use crate::text::before_first_chars;
use crate::text::chars_eq;
use crate::text::chars_of;
use crate::text::extend_chars;
use crate::text::fields;
use crate::text::lemma_before_first_shape;
use crate::text::lemma_after_last_shape;
use crate::text::lines;
use crate::text::split_lines;
use crate::text::slice_chars;
use crate::text::split_whitespace;
use crate::text::starts_with;
use crate::text::string_of;

verus! {

/// The filesystems that fstab entries may name.
#[derive(Debug, Clone, Copy, PartialEq, Eq, Hash, Structural)]
pub enum FilesystemType {
    Btrfs,
    Ext4,
    Fat,
    Swap,
    Xfs,
    Zfs,
}

/// The filesystem that an fstab type field names, if it is one of ours.
pub open spec fn spec_filesystem_type(name: Seq<char>) -> Option<FilesystemType> {
    if name == "btrfs"@ {
        Some(FilesystemType::Btrfs)
    } else if name == "ext4"@ {
        Some(FilesystemType::Ext4)
    } else if name == "fat"@ || name == "vfat"@ {
        Some(FilesystemType::Fat)
    } else if name == "swap"@ {
        Some(FilesystemType::Swap)
    } else if name == "xfs"@ {
        Some(FilesystemType::Xfs)
    } else if name == "zfs"@ {
        Some(FilesystemType::Zfs)
    } else {
        None
    }
}

/// The name under which a filesystem type is displayed.
pub open spec fn spec_filesystem_name(t: FilesystemType) -> Seq<char> {
    match t {
        FilesystemType::Btrfs => "btrfs"@,
        FilesystemType::Ext4 => "ext4"@,
        FilesystemType::Fat => "fat"@,
        FilesystemType::Swap => "swap"@,
        FilesystemType::Xfs => "xfs"@,
        FilesystemType::Zfs => "zfs"@,
    }
}

/// Why an fstab line describes no superblock that the generator can use.
#[derive(Debug)]
pub enum FstabEntryError {
    /// The line has no fields at all.
    MissingDevice { fstab_entry: String },
    /// The line has fewer than three fields.
    MissingFilesystemType { fstab_entry: String },
    /// The third field names no filesystem in [`FilesystemType`].
    UnsupportedFilesystemType { filesystem_type: String },
}

/// [`FstabEntryError`] over character sequences.
pub enum FstabEntryErrorView {
    MissingDevice { fstab_entry: Seq<char> },
    MissingFilesystemType { fstab_entry: Seq<char> },
    UnsupportedFilesystemType { filesystem_type: Seq<char> },
}

impl View for FstabEntryError {
    type V = FstabEntryErrorView;

    open spec fn view(&self) -> FstabEntryErrorView {
        match self {
            FstabEntryError::MissingDevice { fstab_entry } => FstabEntryErrorView::MissingDevice {
                fstab_entry: fstab_entry@,
            },
            FstabEntryError::MissingFilesystemType { fstab_entry } =>
                FstabEntryErrorView::MissingFilesystemType { fstab_entry: fstab_entry@ },
            FstabEntryError::UnsupportedFilesystemType { filesystem_type } =>
                FstabEntryErrorView::UnsupportedFilesystemType { filesystem_type: filesystem_type@ },
        }
    }
}

impl FilesystemType {
    /// Reads the filesystem type field of an fstab line.
    pub fn from(filesystem_type: &str) -> (r: Result<Self, FstabEntryError>)
        ensures
            match r {
                Ok(t) => spec_filesystem_type(filesystem_type@) == Some(t),
                Err(e) => spec_filesystem_type(filesystem_type@) is None && e@
                    == (FstabEntryErrorView::UnsupportedFilesystemType {
                    filesystem_type: filesystem_type@,
                }),
            },
    {
        let n = chars_of(filesystem_type);
        if chars_eq(&n, &chars_of("btrfs")) {
            Ok(FilesystemType::Btrfs)
        } else if chars_eq(&n, &chars_of("ext4")) {
            Ok(FilesystemType::Ext4)
        } else if chars_eq(&n, &chars_of("fat")) || chars_eq(&n, &chars_of("vfat")) {
            Ok(FilesystemType::Fat)
        } else if chars_eq(&n, &chars_of("swap")) {
            Ok(FilesystemType::Swap)
        } else if chars_eq(&n, &chars_of("xfs")) {
            Ok(FilesystemType::Xfs)
        } else if chars_eq(&n, &chars_of("zfs")) {
            Ok(FilesystemType::Zfs)
        } else {
            Err(
                FstabEntryError::UnsupportedFilesystemType {
                    filesystem_type: String::from_str(filesystem_type),
                },
            )
        }
    }

    /// The name under which the type is displayed (what `Display` printed).
    pub fn name(&self) -> (r: &'static str)
        ensures
            r@ == spec_filesystem_name(*self),
    {
        match self {
            FilesystemType::Btrfs => "btrfs",
            FilesystemType::Ext4 => "ext4",
            FilesystemType::Fat => "fat",
            FilesystemType::Swap => "swap",
            FilesystemType::Xfs => "xfs",
            FilesystemType::Zfs => "zfs",
        }
    }
}

/// Reading a displayed name gives back the type, for every type.
pub proof fn lemma_filesystem_name_round_trip(t: FilesystemType)
    ensures
        spec_filesystem_type(spec_filesystem_name(t)) == Some(t),
{
    reveal_strlit("btrfs");
    reveal_strlit("ext4");
    reveal_strlit("fat");
    reveal_strlit("vfat");
    reveal_strlit("swap");
    reveal_strlit("xfs");
    reveal_strlit("zfs");
    assert("btrfs"@[0] == 'b');
    assert("ext4"@[0] == 'e');
    assert("fat"@[0] == 'f');
    assert("vfat"@[0] == 'v');
    assert("swap"@[0] == 's');
    assert("xfs"@[0] == 'x');
    assert("zfs"@[0] == 'z');
}


/// A superblock named by fstab: the device (or zpool) that holds it, its
/// filesystem and, unless it is zfs, where the generator mounts it.
#[derive(Debug, PartialEq, Eq, Hash)]
pub struct SuperblockEntry {
    pub device: String,
    pub filesystem_type: FilesystemType,
    pub mount_path: Option<String>,
}

/// [`SuperblockEntry`] over character sequences.
pub struct SuperblockEntryView {
    pub device: Seq<char>,
    pub filesystem_type: FilesystemType,
    pub mount_path: Option<Seq<char>>,
}

pub open spec fn option_string_view(o: Option<String>) -> Option<Seq<char>> {
    match o {
        Some(s) => Some(s@),
        None => None,
    }
}

impl View for SuperblockEntry {
    type V = SuperblockEntryView;

    open spec fn view(&self) -> SuperblockEntryView {
        SuperblockEntryView {
            device: self.device@,
            filesystem_type: self.filesystem_type,
            mount_path: option_string_view(self.mount_path),
        }
    }
}

/// Whether `s` begins with `p`.
pub open spec fn has_prefix(s: Seq<char>, p: Seq<char>) -> bool {
    p.len() <= s.len() && s.take(p.len() as int) == p
}

/// The device path that an fstab device field stands for: a `LABEL=`,
/// `PARTLABEL=`, `PARTUUID=` or `UUID=` tag becomes the matching link under
/// `/dev/disk`, anything else is taken as it is.
pub open spec fn spec_device_path(d: Seq<char>) -> Seq<char> {
    if has_prefix(d, "LABEL="@) {
        "/dev/disk/by-label/"@ + d.skip("LABEL="@.len() as int)
    } else if has_prefix(d, "PARTLABEL="@) {
        "/dev/disk/by-partlabel/"@ + d.skip("PARTLABEL="@.len() as int)
    } else if has_prefix(d, "PARTUUID="@) {
        "/dev/disk/by-partuuid/"@ + d.skip("PARTUUID="@.len() as int)
    } else if has_prefix(d, "UUID="@) {
        "/dev/disk/by-uuid/"@ + d.skip("UUID="@.len() as int)
    } else {
        d
    }
}

/// What one fstab line says: the superblock it belongs to and the path at
/// which it is mounted, or why it says nothing usable. `mount_base` is the
/// directory under which the generator mounts superblocks.
pub open spec fn spec_superblock_entry(line: Seq<char>, mount_base: Seq<char>) -> Result<
    (SuperblockEntryView, Seq<char>),
    FstabEntryErrorView,
> {
    let f = fields(line);
    if f.len() == 0 {
        Err(FstabEntryErrorView::MissingDevice { fstab_entry: line })
    } else if f.len() < 3 {
        Err(FstabEntryErrorView::MissingFilesystemType { fstab_entry: line })
    } else {
        let device = spec_device_path(f[0]);
        match spec_filesystem_type(f[2]) {
            None => Err(FstabEntryErrorView::UnsupportedFilesystemType { filesystem_type: f[2] }),
            Some(t) => Ok(
                (
                    SuperblockEntryView {
                        device: if t == FilesystemType::Zfs {
                            before_first(device, '/')
                        } else {
                            device
                        },
                        filesystem_type: t,
                        mount_path: if t == FilesystemType::Zfs {
                            None
                        } else {
                            Some(mount_base + "/"@ + after_last(device, '/'))
                        },
                    },
                    f[1],
                ),
            ),
        }
    }
}

/// `replacement + d[prefix.len()..]` when `d` begins with `prefix`.
fn rewrite_tag(d: &[char], prefix: &str, replacement: &str) -> (r: Option<Vec<char>>)
    ensures
        match r {
            Some(v) => has_prefix(d@, prefix@) && v@ == replacement@ + d@.skip(prefix@.len() as int),
            None => !has_prefix(d@, prefix@),
        },
{
    let p = chars_of(prefix);
    if starts_with(d, &p) {
        let mut out = chars_of(replacement);
        let rest = slice_chars(d, p.len(), d.len());
        assert(rest@ =~= d@.skip(p@.len() as int));
        extend_chars(&mut out, &rest);
        Some(out)
    } else {
        None
    }
}

/// The device path that an fstab device field stands for.
pub fn device_path(d: &[char]) -> (r: Vec<char>)
    ensures
        r@ == spec_device_path(d@),
{
    if let Some(v) = rewrite_tag(d, "LABEL=", "/dev/disk/by-label/") {
        v
    } else if let Some(v) = rewrite_tag(d, "PARTLABEL=", "/dev/disk/by-partlabel/") {
        v
    } else if let Some(v) = rewrite_tag(d, "PARTUUID=", "/dev/disk/by-partuuid/") {
        v
    } else if let Some(v) = rewrite_tag(d, "UUID=", "/dev/disk/by-uuid/") {
        v
    } else {
        slice_chars(d, 0, d.len())
    }
}

impl SuperblockEntry {
    /// Reads one fstab line: the superblock it belongs to, and the path at
    /// which the line mounts it.
    pub fn from(fstab_entry: &str, systemd_rollbacker_generator_config: &SystemdRollbackerGeneratorConfig) -> (r: Result<(Self, String), FstabEntryError>)
        ensures
            match spec_superblock_entry(fstab_entry@, systemd_rollbacker_generator_config.mount_path@) {
                Ok((e, p)) => r matches Ok((entry, path)) && entry@ == e && path@ == p,
                Err(e) => r matches Err(err) && err@ == e,
            },
    {
        let line = chars_of(fstab_entry);
        let f = split_whitespace(&line);
        if f.len() == 0 {
            return Err(FstabEntryError::MissingDevice { fstab_entry: String::from_str(fstab_entry) });
        }
        if f.len() < 3 {
            return Err(FstabEntryError::MissingFilesystemType { fstab_entry: String::from_str(fstab_entry) });
        }
        let device = device_path(&f[0]);
        let type_field = string_of(&f[2]);
        let filesystem_type = match FilesystemType::from(type_field.as_str()) {
            Ok(t) => t,
            Err(e) => return Err(e),
        };
        let mount_path = if filesystem_type == FilesystemType::Zfs {
            None
        } else {
            let mut m = chars_of(systemd_rollbacker_generator_config.mount_path.as_str());
            extend_chars(&mut m, &chars_of("/"));
            extend_chars(&mut m, &after_last_chars(&device, '/'));
            Some(string_of(&m))
        };
        let device = if filesystem_type == FilesystemType::Zfs {
            before_first_chars(&device, '/')
        } else {
            device
        };
        Ok((
            SuperblockEntry { device: string_of(&device), filesystem_type, mount_path },
            string_of(&f[1]),
        ))
    }
}


/// The mount paths that fstab gives for one superblock, in fstab order.
pub type DeviceMountPaths = Vec<String>;

/// fstab grouped by superblock: each superblock once, in the order of its
/// first line, with the mount paths of all its lines.
pub type ParsedFstab = Vec<(SuperblockEntry, DeviceMountPaths)>;

/// One group of [`ParsedFstab`] over character sequences.
pub type FstabGroupView = (SuperblockEntryView, Seq<Seq<char>>);

pub open spec fn mount_paths_view(paths: Seq<String>) -> Seq<Seq<char>> {
    paths.map_values(|p: String| p@)
}

pub open spec fn parsed_fstab_view(parsed: Seq<(SuperblockEntry, DeviceMountPaths)>) -> Seq<FstabGroupView> {
    parsed.map_values(|g: (SuperblockEntry, DeviceMountPaths)| (g.0@, mount_paths_view(g.1@)))
}

/// Whether some group of `groups` belongs to `entry`.
pub open spec fn has_group(groups: Seq<FstabGroupView>, entry: SuperblockEntryView) -> bool {
    exists|i: int| 0 <= i < groups.len() && #[trigger] groups[i].0 == entry
}

/// `groups` with `path` added to the group of `entry`, which is opened at
/// the end when there is none.
pub open spec fn add_to_group(groups: Seq<FstabGroupView>, entry: SuperblockEntryView, path: Seq<char>) -> Seq<FstabGroupView> {
    if has_group(groups, entry) {
        let i = choose|i: int| 0 <= i < groups.len() && #[trigger] groups[i].0 == entry;
        groups.update(i, (entry, groups[i].1.push(path)))
    } else {
        groups.push((entry, seq![path]))
    }
}

/// Whether an fstab line is skipped before it is read: empty or a comment.
pub open spec fn is_skipped_line(line: Seq<char>) -> bool {
    line.len() == 0 || line[0] == '#'
}

/// The groups after one more fstab line; lines that describe nothing
/// usable leave them as they are.
pub open spec fn fstab_step(groups: Seq<FstabGroupView>, line: Seq<char>, mount_base: Seq<char>) -> Seq<FstabGroupView> {
    if is_skipped_line(line) {
        groups
    } else {
        match spec_superblock_entry(line, mount_base) {
            Ok((entry, path)) => add_to_group(groups, entry, path),
            Err(_) => groups,
        }
    }
}

/// The groups that a sequence of fstab lines gives.
pub open spec fn spec_parse_fstab_lines(ls: Seq<Seq<char>>, mount_base: Seq<char>) -> Seq<FstabGroupView>
    decreases ls.len(),
{
    if ls.len() == 0 {
        Seq::empty()
    } else {
        fstab_step(spec_parse_fstab_lines(ls.drop_last(), mount_base), ls.last(), mount_base)
    }
}

/// The groups that the contents of an fstab give.
pub open spec fn spec_parse_fstab(contents: Seq<char>, mount_base: Seq<char>) -> Seq<FstabGroupView> {
    spec_parse_fstab_lines(lines(contents), mount_base)
}

/// Every btrfs group has a mount path (fstab gives one to every superblock
/// but zfs ones).
pub open spec fn btrfs_groups_have_mount_paths(groups: Seq<FstabGroupView>) -> bool {
    forall|i: int| 0 <= i < groups.len() && #[trigger] groups[i].0.filesystem_type == FilesystemType::Btrfs
        ==> groups[i].0.mount_path is Some
}

/// No two groups belong to one superblock.
pub open spec fn groups_distinct(groups: Seq<FstabGroupView>) -> bool {
    forall|i: int, j: int| 0 <= i < groups.len() && 0 <= j < groups.len() && i != j ==> groups[i].0 != groups[j].0
}

fn same_optional_string(a: &Option<String>, b: &Option<String>) -> (r: bool)
    ensures
        r == (option_string_view(*a) == option_string_view(*b)),
{
    match (a, b) {
        (Some(x), Some(y)) => *x == *y,
        (None, None) => true,
        _ => false,
    }
}

/// Whether two entries name the same superblock (the derived `==`).
pub fn same_superblock(a: &SuperblockEntry, b: &SuperblockEntry) -> (r: bool)
    ensures
        r == (a@ == b@),
{
    a.device == b.device && a.filesystem_type == b.filesystem_type && same_optional_string(&a.mount_path, &b.mount_path)
}

/// Reads the contents of an fstab. Empty lines and lines that begin with
/// `#` are skipped, and so are lines that describe nothing usable; each
/// other line adds its mount path to the group of its superblock.
pub fn parse_fstab(systemd_rollbacker_generator_config: &SystemdRollbackerGeneratorConfig, fstab_contents: &str) -> (parsed: ParsedFstab)
    ensures
        parsed_fstab_view(parsed@) == spec_parse_fstab(fstab_contents@, systemd_rollbacker_generator_config.mount_path@),
        groups_distinct(parsed_fstab_view(parsed@)),
        btrfs_groups_have_mount_paths(parsed_fstab_view(parsed@)),
{
    let ghost base = systemd_rollbacker_generator_config.mount_path@;
    let contents = chars_of(fstab_contents);
    let ls = split_lines(&contents);
    let ghost lv = lines(contents@);
    let mut parsed: ParsedFstab = Vec::new();
    let mut k: usize = 0;
    while k < ls.len()
        invariant
            k <= ls@.len(),
            ls@.len() == lv.len(),
            forall|j: int| 0 <= j < ls@.len() ==> #[trigger] ls@[j]@ == lv[j],
            lv == lines(contents@),
            contents@ == fstab_contents@,
            base == systemd_rollbacker_generator_config.mount_path@,
            parsed_fstab_view(parsed@) == spec_parse_fstab_lines(lv.take(k as int), base),
            groups_distinct(parsed_fstab_view(parsed@)),
        decreases ls@.len() - k,
    {
        assert(lv.take(k + 1).drop_last() =~= lv.take(k as int));
        assert(lv.take(k + 1).last() == lv[k as int]);
        let line = &ls[k];
        if line.len() == 0 || line[0] == '#' {
            k = k + 1;
            continue;
        }
        let line_string = string_of(line);
        match SuperblockEntry::from(line_string.as_str(), systemd_rollbacker_generator_config) {
            Err(_) => {},
            Ok((entry, path)) => {
                add_mount_path(&mut parsed, entry, path);
            },
        }
        k = k + 1;
    }
    assert(lv.take(ls@.len() as int) =~= lv);
    proof {
        lemma_parse_fstab_groups_well_formed(lv, base);
    }
    parsed
}

/// Adds `path` to the group of `entry`, opening the group at the end when
/// there is none.
fn add_mount_path(parsed: &mut ParsedFstab, entry: SuperblockEntry, path: String)
    requires
        groups_distinct(parsed_fstab_view(old(parsed)@)),
    ensures
        parsed_fstab_view(final(parsed)@) == add_to_group(parsed_fstab_view(old(parsed)@), entry@, path@),
        groups_distinct(parsed_fstab_view(final(parsed)@)),
{
    let ghost g = parsed_fstab_view(parsed@);
    let mut i: usize = 0;
    while i < parsed.len()
        invariant
            i <= parsed@.len(),
            g == parsed_fstab_view(parsed@),
            parsed@ == old(parsed)@,
            groups_distinct(g),
            forall|j: int| 0 <= j < i ==> g[j].0 != entry@,
        decreases parsed@.len() - i,
    {
        if same_superblock(&parsed[i].0, &entry) {
            let ghost e = entry@;
            assert(g[i as int].0 == e);
            assert(has_group(g, e));
            let ghost c = choose|c: int| 0 <= c < g.len() && #[trigger] g[c].0 == e;
            assert(c == i);
            let ghost old_parsed = parsed@;
            let ghost pv = path@;
            let mut group = parsed.remove(i);
            group.1.push(path);
            assert(mount_paths_view(group.1@) =~= mount_paths_view(old_parsed[i as int].1@).push(pv));
            parsed.insert(i, group);
            assert(parsed@ =~= old_parsed.update(i as int, group));
            assert(parsed_fstab_view(parsed@) =~= add_to_group(g, e, pv));
            return;
        }
        i = i + 1;
    }
    assert(!has_group(g, entry@));
    let ghost ev = entry@;
    let ghost pv = path@;
    let mut paths: DeviceMountPaths = Vec::new();
    paths.push(path);
    assert(mount_paths_view(paths@) =~= seq![pv]);
    parsed.push((entry, paths));
    assert(parsed_fstab_view(parsed@) =~= add_to_group(g, ev, pv));
}


/// Whether the fstab line at `k` is read and gives `entry`.
pub open spec fn line_gives(ls: Seq<Seq<char>>, k: int, mount_base: Seq<char>, entry: SuperblockEntryView) -> bool {
    &&& !is_skipped_line(ls[k])
    &&& spec_superblock_entry(ls[k], mount_base) matches Ok((e, _))
    &&& e == entry
}

/// No group of fstab is empty, no two groups share a superblock, and
/// every group but a zfs one has a mount path.
pub proof fn lemma_parse_fstab_groups_well_formed(ls: Seq<Seq<char>>, mount_base: Seq<char>)
    ensures
        groups_distinct(spec_parse_fstab_lines(ls, mount_base)),
        forall|i: int| 0 <= i < spec_parse_fstab_lines(ls, mount_base).len()
            ==> #[trigger] spec_parse_fstab_lines(ls, mount_base)[i].1.len() > 0,
        btrfs_groups_have_mount_paths(spec_parse_fstab_lines(ls, mount_base)),
    decreases ls.len(),
{
    if ls.len() > 0 {
        lemma_parse_fstab_groups_well_formed(ls.drop_last(), mount_base);
        let g = spec_parse_fstab_lines(ls.drop_last(), mount_base);
        let line = ls.last();
        if !is_skipped_line(line) {
            if let Ok((e, p)) = spec_superblock_entry(line, mount_base) {
                if has_group(g, e) {
                    let i = choose|i: int| 0 <= i < g.len() && #[trigger] g[i].0 == e;
                    let g2 = g.update(i, (e, g[i].1.push(p)));
                    assert(g2 == spec_parse_fstab_lines(ls, mount_base));
                    assert forall|a: int, b: int| 0 <= a < g2.len() && 0 <= b < g2.len() && a != b implies g2[a].0 != g2[b].0 by {
                        assert(g[a].0 != g[b].0);
                    }
                } else {
                    let g2 = g.push((e, seq![p]));
                    assert(g2 == spec_parse_fstab_lines(ls, mount_base));
                    assert forall|a: int, b: int| 0 <= a < g2.len() && 0 <= b < g2.len() && a != b implies g2[a].0 != g2[b].0 by {
                        if a < g.len() && b < g.len() {
                            assert(g[a].0 != g[b].0);
                        } else if a < g.len() {
                            assert(g[a].0 != e);
                        } else {
                            assert(g[b].0 != e);
                        }
                    }
                    assert forall|i: int| 0 <= i < g2.len() implies #[trigger] g2[i].1.len() > 0 by {
                        if i < g.len() {
                            assert(g2[i] == g[i]);
                        }
                    }
                }
            }
        }
    }
}

/// A superblock has a group exactly when some line of fstab that is read
/// gives it.
pub proof fn lemma_parse_fstab_groups_come_from_lines(ls: Seq<Seq<char>>, mount_base: Seq<char>, entry: SuperblockEntryView)
    ensures
        has_group(spec_parse_fstab_lines(ls, mount_base), entry) <==> exists|k: int|
            0 <= k < ls.len() && #[trigger] line_gives(ls, k, mount_base, entry),
    decreases ls.len(),
{
    if ls.len() > 0 {
        let prev = ls.drop_last();
        lemma_parse_fstab_groups_come_from_lines(prev, mount_base, entry);
        lemma_parse_fstab_groups_well_formed(prev, mount_base);
        let g = spec_parse_fstab_lines(prev, mount_base);
        let g2 = spec_parse_fstab_lines(ls, mount_base);
        let n = ls.len() - 1;
        assert forall|k: int| 0 <= k < prev.len() implies #[trigger] line_gives(prev, k, mount_base, entry)
            == line_gives(ls, k, mount_base, entry) by {
            assert(prev[k] == ls[k]);
        }
        // Groups are only ever added to, never removed.
        assert forall|i: int| 0 <= i < g.len() implies #[trigger] g[i].0 == g2[i].0 && i < g2.len() by {
            let line = ls.last();
            if !is_skipped_line(line) {
                if let Ok((e, p)) = spec_superblock_entry(line, mount_base) {
                    if has_group(g, e) {
                        let c = choose|c: int| 0 <= c < g.len() && #[trigger] g[c].0 == e;
                        assert(g2 == g.update(c, (e, g[c].1.push(p))));
                    } else {
                        assert(g2 == g.push((e, seq![p])));
                    }
                }
            }
        }
        if has_group(g, entry) {
            let i = choose|i: int| 0 <= i < g.len() && #[trigger] g[i].0 == entry;
            assert(g2[i].0 == entry);
            let k = choose|k: int| 0 <= k < prev.len() && #[trigger] line_gives(prev, k, mount_base, entry);
            assert(line_gives(ls, k, mount_base, entry));
        } else {
            if line_gives(ls, n, mount_base, entry) {
                assert(ls[n] == ls.last());
                if let Ok((e, p)) = spec_superblock_entry(ls[n], mount_base) {
                    assert(g2 == g.push((entry, seq![p])));
                    assert(g2[g.len() as int].0 == entry);
                }
            } else {
                assert forall|k: int| 0 <= k < ls.len() implies !#[trigger] line_gives(ls, k, mount_base, entry) by {
                    if k < prev.len() {
                        assert(!line_gives(prev, k, mount_base, entry));
                    }
                }
                assert(!has_group(g2, entry)) by {
                    if has_group(g2, entry) {
                        let i = choose|i: int| 0 <= i < g2.len() && #[trigger] g2[i].0 == entry;
                        let line = ls.last();
                        if !is_skipped_line(line) {
                            if let Ok((e, p)) = spec_superblock_entry(line, mount_base) {
                                if has_group(g, e) {
                                    let c = choose|c: int| 0 <= c < g.len() && #[trigger] g[c].0 == e;
                                    assert(g2 == g.update(c, (e, g[c].1.push(p))));
                                    assert(g[i].0 == entry);
                                } else {
                                    assert(g2 == g.push((e, seq![p])));
                                    if i < g.len() {
                                        assert(g[i].0 == entry);
                                    } else {
                                        assert(line_gives(ls, n, mount_base, entry));
                                    }
                                }
                            } else {
                                assert(g2 == g);
                                assert(g[i].0 == entry);
                            }
                        } else {
                            assert(g2 == g);
                            assert(g[i].0 == entry);
                        }
                    }
                }
            }
        }
    }
}


/// The entry is mounted under `mount_base`: its mount path is the base,
/// `/`, and a name without `/` that ends the device path, either all of it
/// or what follows a `/` in it.
pub open spec fn mounted_under(e: SuperblockEntryView, mount_base: Seq<char>) -> bool {
    match e.mount_path {
        Some(m) => {
            let c = m.skip(mount_base.len() + 1int);
            &&& m.len() >= mount_base.len() + 1
            &&& m.take(mount_base.len() as int) == mount_base
            &&& m[mount_base.len() as int] == '/'
            &&& !c.contains('/')
            &&& c.len() <= e.device.len()
            &&& e.device.skip(e.device.len() - c.len()) == c
            &&& (c.len() == e.device.len() || e.device[e.device.len() - c.len() - 1] == '/')
        },
        None => false,
    }
}

/// Every entry but a zfs one is mounted under the configured mount base.
pub proof fn lemma_mount_path_under_base(line: Seq<char>, mount_base: Seq<char>)
    ensures
        spec_superblock_entry(line, mount_base) matches Ok((e, _)) ==> (e.filesystem_type != FilesystemType::Zfs
            ==> mounted_under(e, mount_base)),
{
    if let Ok((e, _)) = spec_superblock_entry(line, mount_base) {
        if e.filesystem_type != FilesystemType::Zfs {
            let f = fields(line);
            let device = spec_device_path(f[0]);
            assert(e.device == device);
            let c = after_last(device, '/');
            lemma_after_last_shape(device, '/');
            let m = mount_base + "/"@ + c;
            reveal_strlit("/");
            assert(m.skip(mount_base.len() + 1int) =~= c);
            assert(m.take(mount_base.len() as int) =~= mount_base);
            assert(m[mount_base.len() as int] == '/');
        }
    }
}

/// Whether a line of fstab is a comment: it begins with `#`.
pub open spec fn is_comment_line(line: Seq<char>) -> bool {
    line.len() > 0 && line[0] == '#'
}

/// Comments count for nothing: the groups of fstab are those of its lines
/// with every comment line taken out.
pub proof fn lemma_comments_count_for_nothing(ls: Seq<Seq<char>>, mount_base: Seq<char>)
    ensures
        spec_parse_fstab_lines(ls, mount_base) == spec_parse_fstab_lines(
            ls.filter(|l: Seq<char>| !is_comment_line(l)),
            mount_base,
        ),
    decreases ls.len(),
{
    reveal_with_fuel(Seq::<_>::filter, 1);
    let pred = |l: Seq<char>| !is_comment_line(l);
    if ls.len() > 0 {
        lemma_comments_count_for_nothing(ls.drop_last(), mount_base);
        let sub = ls.drop_last().filter(pred);
        if !pred(ls.last()) {
            assert(ls.filter(pred) == sub);
        } else {
            assert(ls.filter(pred) == sub.push(ls.last()));
            assert(sub.push(ls.last()).drop_last() =~= sub);
        }
    }
}

/// An fstab made only of comment lines gives no group.
pub proof fn lemma_only_comments_give_nothing(ls: Seq<Seq<char>>, mount_base: Seq<char>)
    requires
        forall|k: int| 0 <= k < ls.len() ==> is_comment_line(#[trigger] ls[k]),
    ensures
        spec_parse_fstab_lines(ls, mount_base).len() == 0,
    decreases ls.len(),
{
    if ls.len() > 0 {
        assert forall|k: int| 0 <= k < ls.drop_last().len() implies is_comment_line(#[trigger] ls.drop_last()[k]) by {
            assert(ls.drop_last()[k] == ls[k]);
        }
        lemma_only_comments_give_nothing(ls.drop_last(), mount_base);
        assert(is_comment_line(ls[ls.len() - 1]));
    }
}


proof fn lemma_tag_rewrite(tag: Seq<char>, x: Seq<char>)
    ensures
        has_prefix(tag + x, tag),
        (tag + x).skip(tag.len() as int) == x,
{
    assert((tag + x).take(tag.len() as int) =~= tag);
    assert((tag + x).skip(tag.len() as int) =~= x);
}

/// The device tags of fstab name the links under `/dev/disk`: for every
/// `x`, `LABEL=x` is `/dev/disk/by-label/x`, `PARTLABEL=x` is
/// `/dev/disk/by-partlabel/x`, `PARTUUID=x` is `/dev/disk/by-partuuid/x` and
/// `UUID=x` is `/dev/disk/by-uuid/x`; a device field that begins with `/`
/// is taken as it is.
pub proof fn lemma_device_tags(x: Seq<char>)
    ensures
        spec_device_path("LABEL="@ + x) == "/dev/disk/by-label/"@ + x,
        spec_device_path("PARTLABEL="@ + x) == "/dev/disk/by-partlabel/"@ + x,
        spec_device_path("PARTUUID="@ + x) == "/dev/disk/by-partuuid/"@ + x,
        spec_device_path("UUID="@ + x) == "/dev/disk/by-uuid/"@ + x,
        spec_device_path(seq!['/'] + x) == seq!['/'] + x,
{
    reveal_strlit("LABEL=");
    reveal_strlit("PARTLABEL=");
    reveal_strlit("PARTUUID=");
    reveal_strlit("UUID=");
    lemma_tag_rewrite("LABEL="@, x);
    lemma_tag_rewrite("PARTLABEL="@, x);
    lemma_tag_rewrite("PARTUUID="@, x);
    lemma_tag_rewrite("UUID="@, x);
    let p = "PARTLABEL="@ + x;
    assert(p.take(6)[0] == 'P');
    let q = "PARTUUID="@ + x;
    assert(q.take(6)[0] == 'P');
    assert(q[4] == 'U');
    assert(q.len() < 10 || q.take(10)[4] == 'U');
    let u = "UUID="@ + x;
    assert(u.len() < 6 || u.take(6)[0] == 'U');
    assert(u.len() < 10 || u.take(10)[0] == 'U');
    assert(u.len() < 9 || u.take(9)[0] == 'U');
    let sl = seq!['/'] + x;
    assert(sl[0] == '/');
    assert(sl.len() < 6 || sl.take(6)[0] == '/');
    assert(sl.len() < 10 || sl.take(10)[0] == '/');
    assert(sl.len() < 9 || sl.take(9)[0] == '/');
    assert(sl.len() < 5 || sl.take(5)[0] == '/');
}

/// A zfs entry stands for its zpool: no mount path, and a device that is
/// the device path up to its first `/`, holding no `/`.
pub proof fn lemma_zfs_entry_is_its_pool(line: Seq<char>, mount_base: Seq<char>)
    ensures
        spec_superblock_entry(line, mount_base) matches Ok((e, _)) ==> (e.filesystem_type == FilesystemType::Zfs ==> {
            let d = spec_device_path(fields(line)[0]);
            &&& e.mount_path is None
            &&& !e.device.contains('/')
            &&& e.device.len() <= d.len()
            &&& d.take(e.device.len() as int) == e.device
            &&& (e.device.len() == d.len() || d[e.device.len() as int] == '/')
        }),
{
    if let Ok((e, _)) = spec_superblock_entry(line, mount_base) {
        if e.filesystem_type == FilesystemType::Zfs {
            lemma_before_first_shape(spec_device_path(fields(line)[0]), '/');
        }
    }
}

} // verus!
