//! Rolling a filesystem back: which subvolumes or datasets have a fresh
//! snapshot, and the commands that put each snapshot in place.
use vstd::prelude::*;

use crate::rollbacker::config::FilesystemType;
use crate::rollbacker::config::RollbackerConfig;
use crate::text::chars_eq;
use crate::text::chars_of;
use crate::text::extend_chars;
use crate::text::fields;
use crate::text::lines;
use crate::text::slice_chars;
use crate::text::split_lines;
use crate::text::split_whitespace;
use crate::text::starts_with;
use crate::text::ends_with;
use crate::text::string_of;

verus! {

/// A program to run and its arguments.
#[derive(Debug)]
pub struct CommandSpec {
    pub program: String,
    pub args: Vec<String>,
}

/// [`CommandSpec`] over character sequences.
pub struct CommandView {
    pub program: Seq<char>,
    pub args: Seq<Seq<char>>,
}

pub open spec fn strings_view(v: Seq<String>) -> Seq<Seq<char>> {
    v.map_values(|s: String| s@)
}

impl View for CommandSpec {
    type V = CommandView;

    open spec fn view(&self) -> CommandView {
        CommandView { program: self.program@, args: strings_view(self.args@) }
    }
}

/// What came of running a command.
#[derive(Debug)]
pub enum CommandOutcome {
    /// The command could not be started; `error` says why.
    SpawnFailed { error: String },
    /// The command ran and exited, successfully or not.
    Exited { success: bool, stdout: String, stderr: String },
}

/// [`CommandOutcome`] over character sequences.
pub enum CommandOutcomeView {
    SpawnFailed { error: Seq<char> },
    Exited { success: bool, stdout: Seq<char>, stderr: Seq<char> },
}

impl View for CommandOutcome {
    type V = CommandOutcomeView;

    open spec fn view(&self) -> CommandOutcomeView {
        match self {
            CommandOutcome::SpawnFailed { error } => CommandOutcomeView::SpawnFailed { error: error@ },
            CommandOutcome::Exited { success, stdout, stderr } => CommandOutcomeView::Exited {
                success: *success,
                stdout: stdout@,
                stderr: stderr@,
            },
        }
    }
}

/// One step of a rollback.
#[derive(Debug)]
pub enum RollbackStep {
    /// Delete the btrfs subvolume.
    DeleteSubvolume { subvolume: String },
    /// Recreate the btrfs subvolume as a snapshot of its fresh snapshot.
    SnapshotSubvolume { subvolume: String, snapshot: String },
    /// Roll the zfs dataset back to its fresh snapshot.
    RollbackDataset { dataset: String, snapshot: String },
}

/// [`RollbackStep`] over character sequences.
pub enum RollbackStepView {
    DeleteSubvolume { subvolume: Seq<char> },
    SnapshotSubvolume { subvolume: Seq<char>, snapshot: Seq<char> },
    RollbackDataset { dataset: Seq<char>, snapshot: Seq<char> },
}

impl View for RollbackStep {
    type V = RollbackStepView;

    open spec fn view(&self) -> RollbackStepView {
        match self {
            RollbackStep::DeleteSubvolume { subvolume } => RollbackStepView::DeleteSubvolume {
                subvolume: subvolume@,
            },
            RollbackStep::SnapshotSubvolume { subvolume, snapshot } =>
                RollbackStepView::SnapshotSubvolume { subvolume: subvolume@, snapshot: snapshot@ },
            RollbackStep::RollbackDataset { dataset, snapshot } => RollbackStepView::RollbackDataset {
                dataset: dataset@,
                snapshot: snapshot@,
            },
        }
    }
}

pub open spec fn steps_view(v: Seq<RollbackStep>) -> Seq<RollbackStepView> {
    v.map_values(|s: RollbackStep| s@)
}

/// The command that lists what a superblock holds: its btrfs subvolumes, or
/// its zfs datasets and snapshots.
pub open spec fn spec_discovery_command(t: FilesystemType, superblock_path: Seq<char>) -> CommandView {
    match t {
        FilesystemType::Btrfs => CommandView {
            program: "btrfs"@,
            args: seq!["subvolume"@, "list"@, "-a"@, superblock_path],
        },
        FilesystemType::Zfs => CommandView {
            program: "zfs"@,
            args: seq!["list"@, "-H"@, "-t"@, "all"@, "-r"@, superblock_path],
        },
    }
}

/// The command that performs a step.
pub open spec fn spec_step_command(step: RollbackStepView) -> CommandView {
    match step {
        RollbackStepView::DeleteSubvolume { subvolume } => CommandView {
            program: "btrfs"@,
            args: seq!["subvolume"@, "delete"@, subvolume],
        },
        RollbackStepView::SnapshotSubvolume { subvolume, snapshot } => CommandView {
            program: "btrfs"@,
            args: seq!["subvolume"@, "snapshot"@, snapshot, subvolume],
        },
        RollbackStepView::RollbackDataset { dataset, snapshot } => CommandView {
            program: "zfs"@,
            args: seq!["rollback"@, "-r"@, snapshot],
        },
    }
}

pub open spec fn strs_view(v: Seq<&str>) -> Seq<Seq<char>> {
    v.map_values(|s: &str| s@)
}

fn string_vec(parts: Vec<&str>) -> (r: Vec<String>)
    ensures
        strings_view(r@) == strs_view(parts@),
{
    let mut r: Vec<String> = Vec::new();
    let mut i: usize = 0;
    while i < parts.len()
        invariant
            i <= parts@.len(),
            strings_view(r@) == strs_view(parts@.take(i as int)),
        decreases parts@.len() - i,
    {
        let part: &str = parts[i];
        let s = String::from_str(part);
        assert(s@ == parts@[i as int]@);
        let ghost before = r@;
        r.push(s);
        assert(r@ == before.push(s));
        assert(parts@.take(i + 1) =~= parts@.take(i as int).push(parts@[i as int]));
        assert(strings_view(r@) =~= strings_view(before).push(s@));
        assert(strs_view(parts@.take(i + 1)) =~= strs_view(parts@.take(i as int)).push(parts@[i as int]@));
        i = i + 1;
        assert(strings_view(r@) =~= strs_view(parts@.take(i as int)));
    }
    assert(parts@.take(parts@.len() as int) =~= parts@);
    r
}

/// The command that lists what the superblock holds.
pub fn discovery_command(filesystem_type: FilesystemType, superblock_path: &str) -> (c: CommandSpec)
    ensures
        c@ == spec_discovery_command(filesystem_type, superblock_path@),
{
    match filesystem_type {
        FilesystemType::Btrfs => {
            let args = string_vec(vec!["subvolume", "list", "-a", superblock_path]);
            assert(strings_view(args@) =~= seq!["subvolume"@, "list"@, "-a"@, superblock_path@]);
            CommandSpec { program: String::from_str("btrfs"), args }
        },
        FilesystemType::Zfs => {
            let args = string_vec(vec!["list", "-H", "-t", "all", "-r", superblock_path]);
            assert(strings_view(args@) =~= seq!["list"@, "-H"@, "-t"@, "all"@, "-r"@, superblock_path@]);
            CommandSpec { program: String::from_str("zfs"), args }
        },
    }
}

impl RollbackStep {
    /// The command that performs this step.
    pub fn command(&self) -> (c: CommandSpec)
        ensures
            c@ == spec_step_command(self@),
    {
        match self {
            RollbackStep::DeleteSubvolume { subvolume } => {
                let args = string_vec(vec!["subvolume", "delete", subvolume.as_str()]);
                assert(strings_view(args@) =~= seq!["subvolume"@, "delete"@, subvolume@]);
                CommandSpec { program: String::from_str("btrfs"), args }
            },
            RollbackStep::SnapshotSubvolume { subvolume, snapshot } => {
                let args = string_vec(vec!["subvolume", "snapshot", snapshot.as_str(), subvolume.as_str()]);
                assert(strings_view(args@) =~= seq!["subvolume"@, "snapshot"@, snapshot@, subvolume@]);
                CommandSpec { program: String::from_str("btrfs"), args }
            },
            RollbackStep::RollbackDataset { dataset, snapshot } => {
                let args = string_vec(vec!["rollback", "-r", snapshot.as_str()]);
                assert(strings_view(args@) =~= seq!["rollback"@, "-r"@, snapshot@]);
                CommandSpec { program: String::from_str("zfs"), args }
            },
        }
    }
}


/// Whether `s` begins with `p`.
pub open spec fn has_prefix(s: Seq<char>, p: Seq<char>) -> bool {
    p.len() <= s.len() && s.take(p.len() as int) == p
}

/// Whether `s` ends with `p`.
pub open spec fn has_suffix(s: Seq<char>, p: Seq<char>) -> bool {
    p.len() <= s.len() && s.skip(s.len() - p.len()) == p
}

/// `set` with `x` added at the end unless it holds it already.
pub open spec fn insert_new(set: Seq<Seq<char>>, x: Seq<char>) -> Seq<Seq<char>> {
    if set.contains(x) {
        set
    } else {
        set.push(x)
    }
}

/// The absolute path of the subvolume that a line of `btrfs subvolume list
/// -a` describes: its last field, without a leading `<FS_TREE>/`, under the
/// superblock path; none when the line has no field.
pub open spec fn spec_btrfs_line_path(line: Seq<char>, superblock_path: Seq<char>) -> Option<Seq<char>> {
    let f = fields(line);
    if f.len() == 0 {
        None
    } else {
        let last = f.last();
        let relative = if has_prefix(last, "<FS_TREE>/"@) {
            last.skip("<FS_TREE>/"@.len() as int)
        } else {
            last
        };
        Some(superblock_path + "/"@ + relative)
    }
}

/// The name of the dataset or snapshot that a line of `zfs list -H`
/// describes: its first field; none when the line has no field.
pub open spec fn spec_zfs_line_name(line: Seq<char>) -> Option<Seq<char>> {
    let f = fields(line);
    if f.len() == 0 {
        None
    } else {
        Some(f[0])
    }
}

/// The subvolumes that the lines of a btrfs listing name, each once, in the
/// order of their first line; or the first line that names none.
pub open spec fn spec_btrfs_subvolumes(ls: Seq<Seq<char>>, superblock_path: Seq<char>) -> Result<Seq<Seq<char>>, Seq<char>>
    decreases ls.len(),
{
    if ls.len() == 0 {
        Ok(Seq::empty())
    } else {
        match spec_btrfs_subvolumes(ls.drop_last(), superblock_path) {
            Err(line) => Err(line),
            Ok(set) => match spec_btrfs_line_path(ls.last(), superblock_path) {
                None => Err(ls.last()),
                Some(p) => Ok(insert_new(set, p)),
            },
        }
    }
}

/// The datasets and snapshots that the lines of a zfs listing name, each
/// once, in the order of their first line, the zpool itself left out; or
/// the first line that names none.
pub open spec fn spec_zfs_datasets(ls: Seq<Seq<char>>, superblock_path: Seq<char>) -> Result<Seq<Seq<char>>, Seq<char>>
    decreases ls.len(),
{
    if ls.len() == 0 {
        Ok(Seq::empty())
    } else {
        match spec_zfs_datasets(ls.drop_last(), superblock_path) {
            Err(line) => Err(line),
            Ok(set) => match spec_zfs_line_name(ls.last()) {
                None => Err(ls.last()),
                Some(n) => if n == superblock_path {
                    Ok(set)
                } else {
                    Ok(insert_new(set, n))
                },
            },
        }
    }
}

/// What a listing of the superblock, the standard output of the discovery
/// command, holds.
pub open spec fn spec_discover(t: FilesystemType, stdout: Seq<char>, superblock_path: Seq<char>) -> Result<Seq<Seq<char>>, Seq<char>> {
    match t {
        FilesystemType::Btrfs => spec_btrfs_subvolumes(lines(stdout), superblock_path),
        FilesystemType::Zfs => spec_zfs_datasets(lines(stdout), superblock_path),
    }
}

pub open spec fn char_vecs_view(v: Seq<Vec<char>>) -> Seq<Seq<char>> {
    v.map_values(|x: Vec<char>| x@)
}

fn contains_chars(set: &Vec<Vec<char>>, x: &[char]) -> (r: bool)
    ensures
        r == char_vecs_view(set@).contains(x@),
{
    let mut i: usize = 0;
    while i < set.len()
        invariant
            i <= set@.len(),
            forall|j: int| 0 <= j < i ==> set@[j]@ != x@,
        decreases set@.len() - i,
    {
        if chars_eq(&set[i], x) {
            assert(char_vecs_view(set@)[i as int] == x@);
            return true;
        }
        i = i + 1;
    }
    assert(!char_vecs_view(set@).contains(x@)) by {
        if char_vecs_view(set@).contains(x@) {
            let j = choose|j: int| 0 <= j < char_vecs_view(set@).len() && char_vecs_view(set@)[j] == x@;
            assert(set@[j]@ == x@);
        }
    }
    false
}

fn insert_new_chars(set: &mut Vec<Vec<char>>, x: Vec<char>)
    ensures
        char_vecs_view(final(set)@) == insert_new(char_vecs_view(old(set)@), x@),
{
    if !contains_chars(set, &x) {
        let ghost before = set@;
        let ghost xv = x@;
        set.push(x);
        assert(char_vecs_view(set@) =~= char_vecs_view(before).push(xv));
    }
}

fn strings_of(v: &Vec<Vec<char>>) -> (r: Vec<String>)
    ensures
        strings_view(r@) == char_vecs_view(v@),
{
    let mut r: Vec<String> = Vec::new();
    let mut i: usize = 0;
    while i < v.len()
        invariant
            i <= v@.len(),
            r@.len() == i,
            forall|j: int| 0 <= j < i ==> #[trigger] r@[j]@ == v@[j]@,
        decreases v@.len() - i,
    {
        r.push(string_of(&v[i]));
        i = i + 1;
    }
    assert(strings_view(r@) =~= char_vecs_view(v@));
    r
}

fn btrfs_line_path(line: &[char], superblock_path: &[char]) -> (r: Option<Vec<char>>)
    ensures
        match r {
            Some(p) => spec_btrfs_line_path(line@, superblock_path@) == Some(p@),
            None => spec_btrfs_line_path(line@, superblock_path@) is None,
        },
{
    let f = split_whitespace(line);
    if f.len() == 0 {
        return None;
    }
    let last = &f[f.len() - 1];
    let tag = chars_of("<FS_TREE>/");
    let relative = if starts_with(last, &tag) {
        slice_chars(last, tag.len(), last.len())
    } else {
        slice_chars(last, 0, last.len())
    };
    assert(last@.subrange(tag@.len() as int, last@.len() as int) =~= last@.skip(tag@.len() as int));
    assert(last@.subrange(0, last@.len() as int) =~= last@);
    let mut p = slice_chars(superblock_path, 0, superblock_path.len());
    assert(superblock_path@.subrange(0, superblock_path@.len() as int) =~= superblock_path@);
    extend_chars(&mut p, &chars_of("/"));
    extend_chars(&mut p, &relative);
    Some(p)
}

fn zfs_line_name(line: &[char]) -> (r: Option<Vec<char>>)
    ensures
        match r {
            Some(p) => spec_zfs_line_name(line@) == Some(p@),
            None => spec_zfs_line_name(line@) is None,
        },
{
    let f = split_whitespace(line);
    if f.len() == 0 {
        return None;
    }
    Some(slice_chars(&f[0], 0, f[0].len()))
}

fn discover_chars(filesystem_type: FilesystemType, stdout: &str, superblock_path: &str) -> (r: Result<Vec<Vec<char>>, Vec<char>>)
    ensures
        match spec_discover(filesystem_type, stdout@, superblock_path@) {
            Ok(set) => r matches Ok(v) && char_vecs_view(v@) == set,
            Err(line) => r matches Err(l) && l@ == line,
        },
{
    let out = chars_of(stdout);
    let sb = chars_of(superblock_path);
    let ls = split_lines(&out);
    let ghost lv = lines(out@);
    let mut set: Vec<Vec<char>> = Vec::new();
    let mut k: usize = 0;
    assert(lv.take(0) =~= Seq::<Seq<char>>::empty());
    assert(char_vecs_view(set@) =~= Seq::<Seq<char>>::empty());
    while k < ls.len()
        invariant
            k <= ls@.len(),
            ls@.len() == lv.len(),
            forall|j: int| 0 <= j < ls@.len() ==> #[trigger] ls@[j]@ == lv[j],
            lv == lines(stdout@),
            sb@ == superblock_path@,
            spec_discover(filesystem_type, stdout@, superblock_path@) == (match filesystem_type {
                FilesystemType::Btrfs => spec_btrfs_subvolumes(lv, sb@),
                FilesystemType::Zfs => spec_zfs_datasets(lv, sb@),
            }),
            (match filesystem_type {
                FilesystemType::Btrfs => spec_btrfs_subvolumes(lv.take(k as int), sb@),
                FilesystemType::Zfs => spec_zfs_datasets(lv.take(k as int), sb@),
            }) == Ok::<Seq<Seq<char>>, Seq<char>>(char_vecs_view(set@)),
        decreases ls@.len() - k,
    {
        assert(lv.take(k + 1).drop_last() =~= lv.take(k as int));
        let line = &ls[k];
        match filesystem_type {
            FilesystemType::Btrfs => {
                match btrfs_line_path(line, &sb) {
                    None => {
                        proof { lemma_btrfs_error_stays(lv, sb@, k as int); }
                        return Err(slice_chars(line, 0, line.len()));
                    },
                    Some(p) => insert_new_chars(&mut set, p),
                }
            },
            FilesystemType::Zfs => {
                match zfs_line_name(line) {
                    None => {
                        proof { lemma_zfs_error_stays(lv, sb@, k as int); }
                        return Err(slice_chars(line, 0, line.len()));
                    },
                    Some(n) => {
                        if !chars_eq(&n, &sb) {
                            insert_new_chars(&mut set, n);
                        }
                    },
                }
            },
        }
        k = k + 1;
    }
    assert(lv.take(ls@.len() as int) =~= lv);
    Ok(set)
}

/// Once a prefix of the lines is refused, so is every longer prefix, for the
/// same line.
proof fn lemma_btrfs_error_stays(ls: Seq<Seq<char>>, sb: Seq<char>, k: int)
    requires
        0 <= k < ls.len(),
        spec_btrfs_subvolumes(ls.take(k), sb) is Ok,
        spec_btrfs_line_path(ls[k], sb) is None,
    ensures
        spec_btrfs_subvolumes(ls, sb) == Err::<Seq<Seq<char>>, Seq<char>>(ls[k]),
    decreases ls.len(),
{
    if k == ls.len() - 1 {
        assert(ls.drop_last() =~= ls.take(k));
    } else {
        assert(ls.drop_last().take(k) =~= ls.take(k));
        lemma_btrfs_error_stays(ls.drop_last(), sb, k);
    }
}

proof fn lemma_zfs_error_stays(ls: Seq<Seq<char>>, sb: Seq<char>, k: int)
    requires
        0 <= k < ls.len(),
        spec_zfs_datasets(ls.take(k), sb) is Ok,
        spec_zfs_line_name(ls[k]) is None,
    ensures
        spec_zfs_datasets(ls, sb) == Err::<Seq<Seq<char>>, Seq<char>>(ls[k]),
    decreases ls.len(),
{
    if k == ls.len() - 1 {
        assert(ls.drop_last() =~= ls.take(k));
    } else {
        assert(ls.drop_last().take(k) =~= ls.take(k));
        lemma_zfs_error_stays(ls.drop_last(), sb, k);
    }
}

/// The btrfs subvolumes that the output of `btrfs subvolume list -a` names,
/// as absolute paths under the superblock path; or the first line from which
/// no path can be read.
pub fn discover_btrfs_subvolumes(stdout: &str, superblock_path: &str) -> (r: Result<Vec<String>, String>)
    ensures
        match spec_btrfs_subvolumes(lines(stdout@), superblock_path@) {
            Ok(set) => r matches Ok(v) && strings_view(v@) == set,
            Err(line) => r matches Err(l) && l@ == line,
        },
{
    match discover_chars(FilesystemType::Btrfs, stdout, superblock_path) {
        Ok(v) => Ok(strings_of(&v)),
        Err(l) => Err(string_of(&l)),
    }
}

/// The zfs datasets and snapshots that the output of `zfs list -H -t all -r`
/// names, the zpool itself left out; or the first line from which no name
/// can be read.
pub fn discover_zfs_datasets_and_snapshots(stdout: &str, superblock_path: &str) -> (r: Result<Vec<String>, String>)
    ensures
        match spec_zfs_datasets(lines(stdout@), superblock_path@) {
            Ok(set) => r matches Ok(v) && strings_view(v@) == set,
            Err(line) => r matches Err(l) && l@ == line,
        },
{
    match discover_chars(FilesystemType::Zfs, stdout, superblock_path) {
        Ok(v) => Ok(strings_of(&v)),
        Err(l) => Err(string_of(&l)),
    }
}


/// The length of `s` in bytes of UTF-8 (what `str::len` returns).
pub open spec fn utf8_len(s: Seq<char>) -> nat {
    vstd::utf8::encode_utf8(s).len()
}

/// The name that a fresh snapshot `x` is taken to belong to: its first
/// `suffix_bytes + 1` characters (all of it when it is shorter).
pub open spec fn matching_name(x: Seq<char>, suffix_bytes: nat) -> Seq<char> {
    if suffix_bytes + 1 <= x.len() {
        x.take(suffix_bytes + 1 as int)
    } else {
        x
    }
}

/// The pair (name, snapshot) for `x` when `x` ends with the suffix and the
/// name it is taken to belong to is among `all`; else nothing.
pub open spec fn fresh_pair(x: Seq<char>, all: Seq<Seq<char>>, suffix: Seq<char>) -> Seq<(Seq<char>, Seq<char>)> {
    let name = matching_name(x, utf8_len(suffix));
    if has_suffix(x, suffix) && all.contains(name) {
        seq![(name, x)]
    } else {
        Seq::empty()
    }
}

/// The pairs of each of `entries`, in order.
pub open spec fn spec_fresh_pairs(entries: Seq<Seq<char>>, all: Seq<Seq<char>>, suffix: Seq<char>) -> Seq<(Seq<char>, Seq<char>)>
    decreases entries.len(),
{
    if entries.len() == 0 {
        Seq::empty()
    } else {
        spec_fresh_pairs(entries.drop_last(), all, suffix) + fresh_pair(entries.last(), all, suffix)
    }
}

/// For btrfs each pair is two steps: delete the subvolume, then recreate it
/// as a snapshot of the fresh snapshot.
pub open spec fn spec_btrfs_steps(pairs: Seq<(Seq<char>, Seq<char>)>) -> Seq<RollbackStepView>
    decreases pairs.len(),
{
    if pairs.len() == 0 {
        Seq::empty()
    } else {
        let (name, snapshot) = pairs.last();
        spec_btrfs_steps(pairs.drop_last()) + seq![
            RollbackStepView::DeleteSubvolume { subvolume: name },
            RollbackStepView::SnapshotSubvolume { subvolume: name, snapshot: snapshot },
        ]
    }
}

/// For zfs each pair is one step: roll the dataset back to the snapshot.
pub open spec fn spec_zfs_steps(pairs: Seq<(Seq<char>, Seq<char>)>) -> Seq<RollbackStepView>
    decreases pairs.len(),
{
    if pairs.len() == 0 {
        Seq::empty()
    } else {
        let (name, snapshot) = pairs.last();
        spec_zfs_steps(pairs.drop_last()) + seq![
            RollbackStepView::RollbackDataset { dataset: name, snapshot: snapshot },
        ]
    }
}

/// The steps that roll back what the discovery found.
pub open spec fn spec_rollback_steps(t: FilesystemType, found: Seq<Seq<char>>, suffix: Seq<char>) -> Seq<RollbackStepView> {
    let pairs = spec_fresh_pairs(found, found, suffix);
    match t {
        FilesystemType::Btrfs => spec_btrfs_steps(pairs),
        FilesystemType::Zfs => spec_zfs_steps(pairs),
    }
}

fn matching_name_chars(x: &[char], suffix_bytes: usize) -> (r: Vec<char>)
    ensures
        r@ == matching_name(x@, suffix_bytes as nat),
{
    if suffix_bytes < x.len() {
        slice_chars(x, 0, suffix_bytes + 1)
    } else {
        assert(x@.subrange(0, x@.len() as int) =~= x@);
        slice_chars(x, 0, x.len())
    }
}

fn fresh_pairs(all: &Vec<Vec<char>>, suffix: &str) -> (r: Vec<(Vec<char>, Vec<char>)>)
    ensures
        r@.map_values(|p: (Vec<char>, Vec<char>)| (p.0@, p.1@)) == spec_fresh_pairs(
            char_vecs_view(all@),
            char_vecs_view(all@),
            suffix@,
        ),
{
    let ghost av = char_vecs_view(all@);
    let suffix_chars = chars_of(suffix);
    let suffix_bytes = suffix.as_bytes().len();
    let mut r: Vec<(Vec<char>, Vec<char>)> = Vec::new();
    let mut i: usize = 0;
    while i < all.len()
        invariant
            i <= all@.len(),
            av == char_vecs_view(all@),
            suffix_chars@ == suffix@,
            suffix_bytes as nat == utf8_len(suffix@),
            r@.map_values(|p: (Vec<char>, Vec<char>)| (p.0@, p.1@)) == spec_fresh_pairs(
                av.take(i as int),
                av,
                suffix@,
            ),
        decreases all@.len() - i,
    {
        assert(av.take(i + 1).drop_last() =~= av.take(i as int));
        assert(av.take(i + 1).last() == all@[i as int]@);
        let x = &all[i];
        let ghost before = r@.map_values(|p: (Vec<char>, Vec<char>)| (p.0@, p.1@));
        if ends_with(x, &suffix_chars) {
            let name = matching_name_chars(x, suffix_bytes);
            if contains_chars(all, &name) {
                let snapshot = slice_chars(x, 0, x.len());
                assert(x@.subrange(0, x@.len() as int) =~= x@);
                let ghost pair = (name@, snapshot@);
                r.push((name, snapshot));
                assert(r@.map_values(|p: (Vec<char>, Vec<char>)| (p.0@, p.1@)) =~= before.push(pair));
            }
        }
        assert(r@.map_values(|p: (Vec<char>, Vec<char>)| (p.0@, p.1@)) =~= spec_fresh_pairs(
            av.take(i + 1),
            av,
            suffix@,
        ));
        i = i + 1;
    }
    assert(av.take(all@.len() as int) =~= av);
    r
}


pub open spec fn pairs_view(v: Seq<(Vec<char>, Vec<char>)>) -> Seq<(Seq<char>, Seq<char>)> {
    v.map_values(|p: (Vec<char>, Vec<char>)| (p.0@, p.1@))
}

fn steps_for_pairs(filesystem_type: FilesystemType, pairs: &Vec<(Vec<char>, Vec<char>)>) -> (r: Vec<RollbackStep>)
    ensures
        steps_view(r@) == (match filesystem_type {
            FilesystemType::Btrfs => spec_btrfs_steps(pairs_view(pairs@)),
            FilesystemType::Zfs => spec_zfs_steps(pairs_view(pairs@)),
        }),
{
    let ghost pv = pairs_view(pairs@);
    let mut r: Vec<RollbackStep> = Vec::new();
    let mut i: usize = 0;
    while i < pairs.len()
        invariant
            i <= pairs@.len(),
            pv == pairs_view(pairs@),
            steps_view(r@) == (match filesystem_type {
                FilesystemType::Btrfs => spec_btrfs_steps(pv.take(i as int)),
                FilesystemType::Zfs => spec_zfs_steps(pv.take(i as int)),
            }),
        decreases pairs@.len() - i,
    {
        assert(pv.take(i + 1).drop_last() =~= pv.take(i as int));
        assert(pv.take(i + 1).last() == (pairs@[i as int].0@, pairs@[i as int].1@));
        let ghost before = steps_view(r@);
        let name = string_of(&pairs[i].0);
        let snapshot = string_of(&pairs[i].1);
        match filesystem_type {
            FilesystemType::Btrfs => {
                let delete = RollbackStep::DeleteSubvolume { subvolume: name.clone() };
                let recreate = RollbackStep::SnapshotSubvolume { subvolume: name, snapshot };
                let ghost added = seq![delete@, recreate@];
                r.push(delete);
                r.push(recreate);
                assert(steps_view(r@) =~= before + added);
            },
            FilesystemType::Zfs => {
                let rollback = RollbackStep::RollbackDataset { dataset: name, snapshot };
                let ghost added = seq![rollback@];
                r.push(rollback);
                assert(steps_view(r@) =~= before + added);
            },
        }
        i = i + 1;
    }
    assert(pv.take(pairs@.len() as int) =~= pv);
    r
}

fn rollback_steps_chars(filesystem_type: FilesystemType, found: &Vec<Vec<char>>, suffix: &str) -> (r: Vec<RollbackStep>)
    ensures
        steps_view(r@) == spec_rollback_steps(filesystem_type, char_vecs_view(found@), suffix@),
{
    let pairs = fresh_pairs(found, suffix);
    steps_for_pairs(filesystem_type, &pairs)
}

fn char_vecs_of(v: &Vec<String>) -> (r: Vec<Vec<char>>)
    ensures
        char_vecs_view(r@) == strings_view(v@),
{
    let mut r: Vec<Vec<char>> = Vec::new();
    let mut i: usize = 0;
    while i < v.len()
        invariant
            i <= v@.len(),
            r@.len() == i,
            forall|j: int| 0 <= j < i ==> #[trigger] r@[j]@ == v@[j]@,
        decreases v@.len() - i,
    {
        r.push(chars_of(v[i].as_str()));
        i = i + 1;
    }
    assert(char_vecs_view(r@) =~= strings_view(v@));
    r
}

/// The steps that roll back the btrfs subvolumes found: for every
/// subvolume that ends with the fresh-snapshot suffix and whose matching
/// name is among the subvolumes too, delete that subvolume and recreate it
/// as a snapshot of the fresh one; in the order of the subvolumes found.
pub fn rollback_btrfs_subvolume(all_btrfs_subvolumes: &Vec<String>, fresh_snapshot_suffix: &str) -> (r: Vec<RollbackStep>)
    ensures
        steps_view(r@) == spec_rollback_steps(
            FilesystemType::Btrfs,
            strings_view(all_btrfs_subvolumes@),
            fresh_snapshot_suffix@,
        ),
{
    let found = char_vecs_of(all_btrfs_subvolumes);
    rollback_steps_chars(FilesystemType::Btrfs, &found, fresh_snapshot_suffix)
}

/// The steps that roll back the zfs datasets found: for every snapshot that
/// ends with the fresh-snapshot suffix and whose matching name is among the
/// datasets too, roll that dataset back to it; in the order found.
pub fn rollback_zfs_dataset(all_zfs_datasets_and_snapshots: &Vec<String>, fresh_snapshot_suffix: &str) -> (r: Vec<RollbackStep>)
    ensures
        steps_view(r@) == spec_rollback_steps(
            FilesystemType::Zfs,
            strings_view(all_zfs_datasets_and_snapshots@),
            fresh_snapshot_suffix@,
        ),
{
    let found = char_vecs_of(all_zfs_datasets_and_snapshots);
    rollback_steps_chars(FilesystemType::Zfs, &found, fresh_snapshot_suffix)
}


/// Why a rollback stopped.
#[derive(Debug)]
pub enum RollbackError {
    /// A command could not be started.
    CommandNotRun { error: String },
    /// The command that lists the superblock failed.
    DiscoveryFailed { filesystem_type: FilesystemType, superblock_path: String, stderr: String },
    /// A line of the listing names no subvolume or dataset.
    UnreadableListing { filesystem_type: FilesystemType, line: String },
    /// The command of a step failed.
    StepFailed { step: RollbackStep, stderr: String },
}

/// [`RollbackError`] over character sequences.
pub enum RollbackErrorView {
    CommandNotRun { error: Seq<char> },
    DiscoveryFailed { filesystem_type: FilesystemType, superblock_path: Seq<char>, stderr: Seq<char> },
    UnreadableListing { filesystem_type: FilesystemType, line: Seq<char> },
    StepFailed { step: RollbackStepView, stderr: Seq<char> },
}

impl View for RollbackError {
    type V = RollbackErrorView;

    open spec fn view(&self) -> RollbackErrorView {
        match self {
            RollbackError::CommandNotRun { error } => RollbackErrorView::CommandNotRun { error: error@ },
            RollbackError::DiscoveryFailed { filesystem_type, superblock_path, stderr } =>
                RollbackErrorView::DiscoveryFailed {
                    filesystem_type: *filesystem_type,
                    superblock_path: superblock_path@,
                    stderr: stderr@,
                },
            RollbackError::UnreadableListing { filesystem_type, line } =>
                RollbackErrorView::UnreadableListing { filesystem_type: *filesystem_type, line: line@ },
            RollbackError::StepFailed { step, stderr } => RollbackErrorView::StepFailed {
                step: step@,
                stderr: stderr@,
            },
        }
    }
}

/// A rollback in progress: it waits for the outcome of the command it last
/// asked for, either the listing of the superblock or one of its steps.
#[derive(Debug)]
pub struct Rollback {
    filesystem_type: FilesystemType,
    fresh_snapshot_suffix: String,
    superblock_path: String,
    discovering: bool,
    steps: Vec<RollbackStep>,
    next: usize,
}

/// [`Rollback`] over character sequences: while `discovering` it waits for
/// the listing; afterwards for the outcome of `steps[next]`.
pub struct RollbackView {
    pub filesystem_type: FilesystemType,
    pub fresh_snapshot_suffix: Seq<char>,
    pub superblock_path: Seq<char>,
    pub discovering: bool,
    pub steps: Seq<RollbackStepView>,
    pub next: int,
}

impl View for Rollback {
    type V = RollbackView;

    closed spec fn view(&self) -> RollbackView {
        RollbackView {
            filesystem_type: self.filesystem_type,
            fresh_snapshot_suffix: self.fresh_snapshot_suffix@,
            superblock_path: self.superblock_path@,
            discovering: self.discovering,
            steps: steps_view(self.steps@),
            next: self.next as int,
        }
    }
}

/// Once the listing is read, the rollback waits for a step that exists.
pub open spec fn rollback_wf(v: RollbackView) -> bool {
    !v.discovering ==> 0 <= v.next < v.steps.len()
}

/// What a rollback does after an outcome: run one more command, or stop.
#[derive(Debug)]
pub enum RollbackProgress {
    Continue { rollback: Rollback, command: CommandSpec },
    Done { result: Result<(), RollbackError> },
}

/// [`RollbackProgress`] over character sequences.
pub enum RollbackProgressView {
    Continue { rollback: RollbackView, command: CommandView },
    Done { result: Result<(), RollbackErrorView> },
}

impl View for RollbackProgress {
    type V = RollbackProgressView;

    open spec fn view(&self) -> RollbackProgressView {
        match self {
            RollbackProgress::Continue { rollback, command } => RollbackProgressView::Continue {
                rollback: rollback@,
                command: command@,
            },
            RollbackProgress::Done { result } => RollbackProgressView::Done {
                result: match result {
                    Ok(()) => Ok(()),
                    Err(e) => Err(e@),
                },
            },
        }
    }
}

/// The rollback waiting for the outcome of `steps[next]`, or finished with
/// success when there is no such step.
pub open spec fn continue_with_step(v: RollbackView, steps: Seq<RollbackStepView>, next: int) -> RollbackProgressView {
    if next < steps.len() {
        RollbackProgressView::Continue {
            rollback: RollbackView { discovering: false, steps: steps, next: next, ..v },
            command: spec_step_command(steps[next]),
        }
    } else {
        RollbackProgressView::Done { result: Ok(()) }
    }
}

/// The rollback's next move after the outcome of the command it asked for.
/// A command that cannot be started or that fails stops it with an error.
/// A good listing gives the steps, which run one after another; after the
/// last one the rollback has succeeded.
pub open spec fn spec_on_outcome(v: RollbackView, o: CommandOutcomeView) -> RollbackProgressView {
    match o {
        CommandOutcomeView::SpawnFailed { error } => RollbackProgressView::Done {
            result: Err(RollbackErrorView::CommandNotRun { error }),
        },
        CommandOutcomeView::Exited { success, stdout, stderr } => if v.discovering {
            if !success {
                RollbackProgressView::Done {
                    result: Err(
                        RollbackErrorView::DiscoveryFailed {
                            filesystem_type: v.filesystem_type,
                            superblock_path: v.superblock_path,
                            stderr,
                        },
                    ),
                }
            } else {
                match spec_discover(v.filesystem_type, stdout, v.superblock_path) {
                    Err(line) => RollbackProgressView::Done {
                        result: Err(
                            RollbackErrorView::UnreadableListing { filesystem_type: v.filesystem_type, line },
                        ),
                    },
                    Ok(found) => continue_with_step(
                        v,
                        spec_rollback_steps(v.filesystem_type, found, v.fresh_snapshot_suffix),
                        0,
                    ),
                }
            }
        } else if !success {
            RollbackProgressView::Done {
                result: Err(RollbackErrorView::StepFailed { step: v.steps[v.next], stderr }),
            }
        } else {
            continue_with_step(v, v.steps, v.next + 1)
        },
    }
}

fn clone_step(step: &RollbackStep) -> (r: RollbackStep)
    ensures
        r@ == step@,
{
    match step {
        RollbackStep::DeleteSubvolume { subvolume } => RollbackStep::DeleteSubvolume {
            subvolume: subvolume.clone(),
        },
        RollbackStep::SnapshotSubvolume { subvolume, snapshot } => RollbackStep::SnapshotSubvolume {
            subvolume: subvolume.clone(),
            snapshot: snapshot.clone(),
        },
        RollbackStep::RollbackDataset { dataset, snapshot } => RollbackStep::RollbackDataset {
            dataset: dataset.clone(),
            snapshot: snapshot.clone(),
        },
    }
}

/// Starts rolling back the filesystem that the configuration names: the
/// rollback first asks for the listing of the superblock.
pub fn rollback_filesystem(rollbacker_config: &RollbackerConfig) -> (r: (Rollback, CommandSpec))
    ensures
        r.0@ == (RollbackView {
            filesystem_type: rollbacker_config.filesystem_type,
            fresh_snapshot_suffix: rollbacker_config.fresh_snapshot_suffix@,
            superblock_path: rollbacker_config.superblock_path@,
            discovering: true,
            steps: Seq::empty(),
            next: 0,
        }),
        rollback_wf(r.0@),
        r.1@ == spec_discovery_command(rollbacker_config.filesystem_type, rollbacker_config.superblock_path@),
{
    let command = discovery_command(
        rollbacker_config.filesystem_type,
        rollbacker_config.superblock_path.as_str(),
    );
    let rollback = Rollback {
        filesystem_type: rollbacker_config.filesystem_type,
        fresh_snapshot_suffix: rollbacker_config.fresh_snapshot_suffix.clone(),
        superblock_path: rollbacker_config.superblock_path.clone(),
        discovering: true,
        steps: Vec::new(),
        next: 0,
    };
    assert(steps_view(rollback.steps@) =~= Seq::<RollbackStepView>::empty());
    (rollback, command)
}

impl Rollback {
    /// Goes on with `steps[next]`, or finishes with success when there is
    /// no such step.
    fn continue_with(self, steps: Vec<RollbackStep>, next: usize) -> (r: RollbackProgress)
        ensures
            r@ == continue_with_step(self@, steps_view(steps@), next as int),
            r matches RollbackProgress::Continue { rollback, .. } ==> rollback_wf(rollback@),
    {
        if next < steps.len() {
            let command = steps[next].command();
            let rollback = Rollback { discovering: false, steps, next, ..self };
            RollbackProgress::Continue { rollback, command }
        } else {
            RollbackProgress::Done { result: Ok(()) }
        }
    }

    /// The next move after the outcome of the command last asked for.
    pub fn on_outcome(self, outcome: CommandOutcome) -> (r: RollbackProgress)
        requires
            rollback_wf(self@),
        ensures
            r@ == spec_on_outcome(self@, outcome@),
            r matches RollbackProgress::Continue { rollback, .. } ==> rollback_wf(rollback@),
    {
        match outcome {
            CommandOutcome::SpawnFailed { error } => RollbackProgress::Done {
                result: Err(RollbackError::CommandNotRun { error }),
            },
            CommandOutcome::Exited { success, stdout, stderr } => {
                if self.discovering {
                    if !success {
                        return RollbackProgress::Done {
                            result: Err(
                                RollbackError::DiscoveryFailed {
                                    filesystem_type: self.filesystem_type,
                                    superblock_path: self.superblock_path,
                                    stderr,
                                },
                            ),
                        };
                    }
                    match discover_chars(self.filesystem_type, stdout.as_str(), self.superblock_path.as_str()) {
                        Err(line) => RollbackProgress::Done {
                            result: Err(
                                RollbackError::UnreadableListing {
                                    filesystem_type: self.filesystem_type,
                                    line: string_of(&line),
                                },
                            ),
                        },
                        Ok(found) => {
                            let steps = rollback_steps_chars(
                                self.filesystem_type,
                                &found,
                                self.fresh_snapshot_suffix.as_str(),
                            );
                            self.continue_with(steps, 0)
                        },
                    }
                } else if !success {
                    let step = clone_step(&self.steps[self.next]);
                    RollbackProgress::Done { result: Err(RollbackError::StepFailed { step, stderr }) }
                } else {
                    let count = self.steps.len();
                    assert(self.next < count);
                    let next = self.next + 1;
                    let steps = self.steps;
                    let rest = Rollback { steps: Vec::new(), ..self };
                    assert(steps_view(rest.steps@) =~= Seq::<RollbackStepView>::empty());
                    assert(rest@ == RollbackView { steps: Seq::empty(), ..self@ });
                    rest.continue_with(steps, next)
                }
            },
        }
    }
}


/// No name occurs twice.
pub open spec fn no_duplicates(s: Seq<Seq<char>>) -> bool {
    forall|i: int, j: int| 0 <= i < s.len() && 0 <= j < s.len() && i != j ==> s[i] != s[j]
}

proof fn lemma_insert_new(set: Seq<Seq<char>>, x: Seq<char>)
    requires
        no_duplicates(set),
    ensures
        no_duplicates(insert_new(set, x)),
        insert_new(set, x).contains(x),
        forall|y: Seq<char>| #[trigger] insert_new(set, x).contains(y) <==> (set.contains(y) || y == x),
{
    let r = insert_new(set, x);
    if !set.contains(x) {
        assert(r[set.len() as int] == x);
        assert forall|y: Seq<char>| #[trigger] r.contains(y) <==> (set.contains(y) || y == x) by {
            if r.contains(y) {
                let i = choose|i: int| 0 <= i < r.len() && r[i] == y;
                if i < set.len() {
                    assert(set[i] == y);
                }
            }
            if set.contains(y) {
                let i = choose|i: int| 0 <= i < set.len() && set[i] == y;
                assert(r[i] == y);
            }
        }
    }
}

/// What the discovery finds holds each name once, and a zfs listing never
/// holds the zpool itself.
pub proof fn lemma_discovery_has_no_duplicates(t: FilesystemType, ls: Seq<Seq<char>>, superblock_path: Seq<char>)
    ensures
        t == FilesystemType::Btrfs ==> (spec_btrfs_subvolumes(ls, superblock_path) matches Ok(found) ==> no_duplicates(found)),
        t == FilesystemType::Zfs ==> (spec_zfs_datasets(ls, superblock_path) matches Ok(found) ==> no_duplicates(found) && !found.contains(superblock_path)),
    decreases ls.len(),
{
    if ls.len() > 0 {
        lemma_discovery_has_no_duplicates(t, ls.drop_last(), superblock_path);
        if t == FilesystemType::Btrfs {
            if let Ok(set) = spec_btrfs_subvolumes(ls.drop_last(), superblock_path) {
                if let Some(p) = spec_btrfs_line_path(ls.last(), superblock_path) {
                    lemma_insert_new(set, p);
                }
            }
        } else {
            if let Ok(set) = spec_zfs_datasets(ls.drop_last(), superblock_path) {
                if let Some(n) = spec_zfs_line_name(ls.last()) {
                    if n != superblock_path {
                        lemma_insert_new(set, n);
                    }
                }
            }
        }
    }
}

/// Each pair restores a name from a fresh snapshot: the snapshot is among
/// the entries and ends with the suffix, the name is among `all` and is the
/// snapshot's first `suffix bytes + 1` characters. And every entry that ends
/// with the suffix and whose matching name is among `all` gets its pair.
pub proof fn lemma_fresh_pairs_sound_and_complete(entries: Seq<Seq<char>>, all: Seq<Seq<char>>, suffix: Seq<char>)
    ensures
        forall|k: int| 0 <= k < spec_fresh_pairs(entries, all, suffix).len() ==> {
            let (name, snapshot) = #[trigger] spec_fresh_pairs(entries, all, suffix)[k];
            &&& entries.contains(snapshot)
            &&& has_suffix(snapshot, suffix)
            &&& all.contains(name)
            &&& name == matching_name(snapshot, utf8_len(suffix))
        },
        forall|x: Seq<char>| #[trigger] entries.contains(x) && has_suffix(x, suffix) && all.contains(
            matching_name(x, utf8_len(suffix)),
        ) ==> spec_fresh_pairs(entries, all, suffix).contains((matching_name(x, utf8_len(suffix)), x)),
    decreases entries.len(),
{
    if entries.len() > 0 {
        let prev = entries.drop_last();
        lemma_fresh_pairs_sound_and_complete(prev, all, suffix);
        let ps = spec_fresh_pairs(prev, all, suffix);
        let last = fresh_pair(entries.last(), all, suffix);
        let r = spec_fresh_pairs(entries, all, suffix);
        assert(r == ps + last);
        assert forall|k: int| 0 <= k < r.len() implies {
            let (name, snapshot) = #[trigger] r[k];
            &&& entries.contains(snapshot)
            &&& has_suffix(snapshot, suffix)
            &&& all.contains(name)
            &&& name == matching_name(snapshot, utf8_len(suffix))
        } by {
            if k < ps.len() {
                assert(r[k] == ps[k]);
                let (name, snapshot) = ps[k];
                let j = choose|j: int| 0 <= j < prev.len() && prev[j] == snapshot;
                assert(entries[j] == snapshot);
            } else {
                assert(r[k] == last[k - ps.len()]);
                assert(entries[entries.len() - 1] == entries.last());
            }
        }
        assert forall|x: Seq<char>| #[trigger] entries.contains(x) && has_suffix(x, suffix) && all.contains(
            matching_name(x, utf8_len(suffix)),
        ) implies r.contains((matching_name(x, utf8_len(suffix)), x)) by {
            let j = choose|j: int| 0 <= j < entries.len() && entries[j] == x;
            if j < prev.len() {
                assert(prev[j] == x);
                assert(prev.contains(x));
                let k = choose|k: int| 0 <= k < ps.len() && ps[k] == (matching_name(x, utf8_len(suffix)), x);
                assert(r[k] == ps[k]);
            } else {
                assert(r[ps.len() as int] == (matching_name(x, utf8_len(suffix)), x));
            }
        }
    }
}


/// What a rollback does when fed `outcomes` one after another: the commands
/// it asks for, and how it ended, if it did.
pub open spec fn spec_run(v: RollbackView, outcomes: Seq<CommandOutcomeView>) -> (Seq<CommandView>, Option<Result<(), RollbackErrorView>>)
    decreases outcomes.len(),
{
    if outcomes.len() == 0 {
        (Seq::empty(), None)
    } else {
        match spec_on_outcome(v, outcomes[0]) {
            RollbackProgressView::Done { result } => (Seq::empty(), Some(result)),
            RollbackProgressView::Continue { rollback, command } => {
                let (commands, end) = spec_run(rollback, outcomes.drop_first());
                (seq![command] + commands, end)
            },
        }
    }
}

/// The commands of the steps, in order.
pub open spec fn step_commands(steps: Seq<RollbackStepView>) -> Seq<CommandView> {
    steps.map_values(|s: RollbackStepView| spec_step_command(s))
}

/// Whether the outcome is a command that ran and succeeded.
pub open spec fn succeeded(o: CommandOutcomeView) -> bool {
    o matches CommandOutcomeView::Exited { success, .. } && success
}

/// The steps that a successful listing gives the rollback.
pub open spec fn listed_steps(v: RollbackView, listing: CommandOutcomeView) -> Option<Seq<RollbackStepView>> {
    match listing {
        CommandOutcomeView::Exited { success, stdout, .. } => if success {
            match spec_discover(v.filesystem_type, stdout, v.superblock_path) {
                Ok(found) => Some(spec_rollback_steps(v.filesystem_type, found, v.fresh_snapshot_suffix)),
                Err(_) => None,
            }
        } else {
            None
        },
        _ => None,
    }
}

proof fn lemma_run_remaining_steps(w: RollbackView, outcomes: Seq<CommandOutcomeView>)
    requires
        !w.discovering,
        0 <= w.next < w.steps.len(),
        outcomes.len() == w.steps.len() - w.next,
        forall|i: int| 0 <= i < outcomes.len() ==> #[trigger] succeeded(outcomes[i]),
    ensures
        spec_run(w, outcomes) == (step_commands(w.steps.subrange(w.next + 1, w.steps.len() as int)), Some(Ok::<(), RollbackErrorView>(()))),
    decreases outcomes.len(),
{
    assert(succeeded(outcomes[0]));
    let rest = w.steps.subrange(w.next + 1, w.steps.len() as int);
    if w.next + 1 == w.steps.len() {
        assert(step_commands(rest) =~= Seq::<CommandView>::empty());
    } else {
        let w2 = RollbackView { discovering: false, steps: w.steps, next: w.next + 1, ..w };
        assert forall|i: int| 0 <= i < outcomes.drop_first().len() implies #[trigger] succeeded(outcomes.drop_first()[i]) by {
            assert(succeeded(outcomes[i + 1]));
        }
        lemma_run_remaining_steps(w2, outcomes.drop_first());
        assert(step_commands(rest) =~= seq![spec_step_command(w.steps[w.next + 1])] + step_commands(
            w.steps.subrange(w.next + 2, w.steps.len() as int),
        ));
    }
}

/// A rollback whose listing is read and all of whose commands succeed asks
/// for the command of every step, in order, and then ends in success.
pub proof fn lemma_successful_rollback(v: RollbackView, outcomes: Seq<CommandOutcomeView>)
    requires
        v.discovering,
        outcomes.len() > 0,
        listed_steps(v, outcomes[0]) matches Some(steps) && outcomes.len() == steps.len() + 1,
        forall|i: int| 0 <= i < outcomes.len() ==> #[trigger] succeeded(outcomes[i]),
    ensures
        spec_run(v, outcomes) == (step_commands(listed_steps(v, outcomes[0]).unwrap()), Some(Ok::<(), RollbackErrorView>(()))),
{
    let steps = listed_steps(v, outcomes[0]).unwrap();
    assert(succeeded(outcomes[0]));
    if steps.len() == 0 {
        assert(step_commands(steps) =~= Seq::<CommandView>::empty());
    } else {
        let w = RollbackView { discovering: false, steps: steps, next: 0, ..v };
        assert forall|i: int| 0 <= i < outcomes.drop_first().len() implies #[trigger] succeeded(outcomes.drop_first()[i]) by {
            assert(succeeded(outcomes[i + 1]));
        }
        lemma_run_remaining_steps(w, outcomes.drop_first());
        assert(step_commands(steps) =~= seq![spec_step_command(steps[0])] + step_commands(
            steps.subrange(1, steps.len() as int),
        ));
    }
}

proof fn lemma_run_until_failure(w: RollbackView, outcomes: Seq<CommandOutcomeView>, m: int, stderr: Seq<char>)
    requires
        !w.discovering,
        0 <= w.next <= m < w.steps.len(),
        outcomes.len() > m - w.next,
        forall|i: int| 0 <= i < m - w.next ==> #[trigger] succeeded(outcomes[i]),
        outcomes[m - w.next] == (CommandOutcomeView::Exited { success: false, stdout: outcomes[m - w.next]->stdout, stderr }),
    ensures
        spec_run(w, outcomes) == (
            step_commands(w.steps.subrange(w.next + 1, m + 1)),
            Some(Err::<(), RollbackErrorView>(RollbackErrorView::StepFailed { step: w.steps[m], stderr })),
        ),
    decreases m - w.next,
{
    if m == w.next {
        assert(step_commands(w.steps.subrange(w.next + 1, m + 1)) =~= Seq::<CommandView>::empty());
    } else {
        assert(succeeded(outcomes[0]));
        let w2 = RollbackView { discovering: false, steps: w.steps, next: w.next + 1, ..w };
        assert forall|i: int| 0 <= i < m - w2.next implies #[trigger] succeeded(outcomes.drop_first()[i]) by {
            assert(succeeded(outcomes[i + 1]));
        }
        assert(outcomes.drop_first()[m - w2.next] == outcomes[m - w.next]);
        lemma_run_until_failure(w2, outcomes.drop_first(), m, stderr);
        assert(step_commands(w.steps.subrange(w.next + 1, m + 1)) =~= seq![spec_step_command(w.steps[w.next + 1])]
            + step_commands(w.steps.subrange(w.next + 2, m + 1)));
    }
}

/// A failing step stops the rollback: when the listing is read, the steps
/// before step `m` succeed and step `m` fails, the rollback asks for the
/// commands of steps `0..=m` only, and ends with the failure of step `m`,
/// whatever outcomes come after.
pub proof fn lemma_failed_step_stops_rollback(v: RollbackView, outcomes: Seq<CommandOutcomeView>, m: int, stderr: Seq<char>)
    requires
        v.discovering,
        outcomes.len() > m + 1,
        listed_steps(v, outcomes[0]) matches Some(steps) && 0 <= m < steps.len(),
        forall|i: int| 0 <= i <= m ==> #[trigger] succeeded(outcomes[i]),
        outcomes[m + 1] == (CommandOutcomeView::Exited { success: false, stdout: outcomes[m + 1]->stdout, stderr }),
    ensures
        spec_run(v, outcomes) == (
            step_commands(listed_steps(v, outcomes[0]).unwrap().take(m + 1)),
            Some(Err::<(), RollbackErrorView>(RollbackErrorView::StepFailed { step: listed_steps(v, outcomes[0]).unwrap()[m], stderr })),
        ),
{
    let steps = listed_steps(v, outcomes[0]).unwrap();
    assert(succeeded(outcomes[0]));
    let w = RollbackView { discovering: false, steps: steps, next: 0, ..v };
    assert forall|i: int| 0 <= i < m implies #[trigger] succeeded(outcomes.drop_first()[i]) by {
        assert(succeeded(outcomes[i + 1]));
    }
    assert(outcomes.drop_first()[m] == outcomes[m + 1]);
    lemma_run_until_failure(w, outcomes.drop_first(), m, stderr);
    assert(step_commands(steps.take(m + 1)) =~= seq![spec_step_command(steps[0])] + step_commands(
        steps.subrange(1, m + 1),
    ));
}


/// The btrfs plan holds two steps for each pair, in the order of the pairs:
/// delete the name, then recreate it from the pair's snapshot.
pub proof fn lemma_btrfs_steps_per_pair(pairs: Seq<(Seq<char>, Seq<char>)>)
    ensures
        spec_btrfs_steps(pairs).len() == 2 * pairs.len(),
        forall|k: int| 0 <= k < pairs.len() ==> {
            &&& spec_btrfs_steps(pairs)[2 * k] == (RollbackStepView::DeleteSubvolume { subvolume: (#[trigger] pairs[k]).0 })
            &&& spec_btrfs_steps(pairs)[2 * k + 1] == (RollbackStepView::SnapshotSubvolume {
                subvolume: pairs[k].0,
                snapshot: pairs[k].1,
            })
        },
    decreases pairs.len(),
{
    if pairs.len() > 0 {
        let prev = pairs.drop_last();
        lemma_btrfs_steps_per_pair(prev);
        let st = spec_btrfs_steps(pairs);
        let sp = spec_btrfs_steps(prev);
        assert forall|k: int| 0 <= k < pairs.len() implies {
            &&& st[2 * k] == (RollbackStepView::DeleteSubvolume { subvolume: (#[trigger] pairs[k]).0 })
            &&& st[2 * k + 1] == (RollbackStepView::SnapshotSubvolume {
                subvolume: pairs[k].0,
                snapshot: pairs[k].1,
            })
        } by {
            if k < prev.len() {
                assert(prev[k] == pairs[k]);
                assert(st[2 * k] == sp[2 * k]);
                assert(st[2 * k + 1] == sp[2 * k + 1]);
            }
        }
    }
}

/// The zfs plan holds one step for each pair, in the order of the pairs:
/// roll the name back to the pair's snapshot.
pub proof fn lemma_zfs_steps_per_pair(pairs: Seq<(Seq<char>, Seq<char>)>)
    ensures
        spec_zfs_steps(pairs).len() == pairs.len(),
        forall|k: int| 0 <= k < pairs.len() ==> spec_zfs_steps(pairs)[k] == (RollbackStepView::RollbackDataset {
            dataset: (#[trigger] pairs[k]).0,
            snapshot: pairs[k].1,
        }),
    decreases pairs.len(),
{
    if pairs.len() > 0 {
        let prev = pairs.drop_last();
        lemma_zfs_steps_per_pair(prev);
        assert forall|k: int| 0 <= k < pairs.len() implies spec_zfs_steps(pairs)[k] == (RollbackStepView::RollbackDataset {
            dataset: (#[trigger] pairs[k]).0,
            snapshot: pairs[k].1,
        }) by {
            if k < prev.len() {
                assert(prev[k] == pairs[k]);
            }
        }
    }
}

/// Every fresh snapshot found gets rolled back: when `x` is found, ends with
/// the suffix, and the name it belongs to is found too, the btrfs plan
/// deletes that name and right after recreates it from `x`; the zfs plan
/// rolls that name back to `x`.
pub proof fn lemma_plan_covers_every_fresh_snapshot(found: Seq<Seq<char>>, suffix: Seq<char>, x: Seq<char>)
    requires
        found.contains(x),
        has_suffix(x, suffix),
        found.contains(matching_name(x, utf8_len(suffix))),
    ensures
        exists|k: int| 0 <= k && k + 1 < spec_rollback_steps(FilesystemType::Btrfs, found, suffix).len() && {
            &&& #[trigger] spec_rollback_steps(FilesystemType::Btrfs, found, suffix)[k] == (RollbackStepView::DeleteSubvolume {
                subvolume: matching_name(x, utf8_len(suffix)),
            })
            &&& spec_rollback_steps(FilesystemType::Btrfs, found, suffix)[k + 1] == (RollbackStepView::SnapshotSubvolume {
                subvolume: matching_name(x, utf8_len(suffix)),
                snapshot: x,
            })
        },
        spec_rollback_steps(FilesystemType::Zfs, found, suffix).contains(RollbackStepView::RollbackDataset {
            dataset: matching_name(x, utf8_len(suffix)),
            snapshot: x,
        }),
{
    let pairs = spec_fresh_pairs(found, found, suffix);
    lemma_fresh_pairs_sound_and_complete(found, found, suffix);
    let name = matching_name(x, utf8_len(suffix));
    assert(pairs.contains((name, x)));
    let j = choose|j: int| 0 <= j < pairs.len() && pairs[j] == (name, x);
    lemma_btrfs_steps_per_pair(pairs);
    lemma_zfs_steps_per_pair(pairs);
    let bs = spec_rollback_steps(FilesystemType::Btrfs, found, suffix);
    assert(bs[2 * j] == (RollbackStepView::DeleteSubvolume { subvolume: pairs[j].0 }));
    assert(bs[2 * j + 1] == (RollbackStepView::SnapshotSubvolume { subvolume: pairs[j].0, snapshot: pairs[j].1 }));
    let zs = spec_rollback_steps(FilesystemType::Zfs, found, suffix);
    assert(zs[j] == (RollbackStepView::RollbackDataset { dataset: pairs[j].0, snapshot: pairs[j].1 }));
}

/// A listing line keeps the relative path of its subvolume whole: when the
/// line's last field is `<FS_TREE>/` followed by `r`, the subvolume is the
/// superblock path, `/` and `r`; when the last field does not begin with
/// `<FS_TREE>/`, it is the superblock path, `/` and that field. Lines without
/// fields name no subvolume.
pub proof fn lemma_btrfs_line_keeps_relative_path(line: Seq<char>, superblock_path: Seq<char>, r: Seq<char>)
    ensures
        fields(line).len() == 0 ==> spec_btrfs_line_path(line, superblock_path) is None,
        fields(line).len() > 0 && fields(line).last() == "<FS_TREE>/"@ + r ==> spec_btrfs_line_path(line, superblock_path)
            == Some(superblock_path + "/"@ + r),
        fields(line).len() > 0 && !has_prefix(fields(line).last(), "<FS_TREE>/"@) ==> spec_btrfs_line_path(
            line,
            superblock_path,
        ) == Some(superblock_path + "/"@ + fields(line).last()),
{
    let tag = "<FS_TREE>/"@;
    if fields(line).len() > 0 && fields(line).last() == tag + r {
        let w = tag + r;
        assert(w.take(tag.len() as int) =~= tag);
        assert(w.skip(tag.len() as int) =~= r);
    }
}

/// What the discovery finds of a btrfs listing is exactly the subvolumes
/// that its lines name: each line names one, and each one found is named by
/// some line.
pub proof fn lemma_btrfs_discovery_is_the_lines(ls: Seq<Seq<char>>, superblock_path: Seq<char>)
    ensures
        spec_btrfs_subvolumes(ls, superblock_path) matches Ok(found) ==> {
            &&& forall|k: int| 0 <= k < ls.len() ==> (spec_btrfs_line_path(#[trigger] ls[k], superblock_path) matches Some(p)
                && found.contains(p))
            &&& forall|x: Seq<char>| #[trigger] found.contains(x) ==> exists|k: int| 0 <= k < ls.len() && spec_btrfs_line_path(ls[k], superblock_path) == Some(x)
        },
    decreases ls.len(),
{
    if ls.len() > 0 {
        let prev = ls.drop_last();
        lemma_btrfs_discovery_is_the_lines(prev, superblock_path);
        lemma_discovery_has_no_duplicates(FilesystemType::Btrfs, prev, superblock_path);
        if let Ok(found) = spec_btrfs_subvolumes(ls, superblock_path) {
            let set = spec_btrfs_subvolumes(prev, superblock_path)->Ok_0;
            let p = spec_btrfs_line_path(ls.last(), superblock_path)->Some_0;
            lemma_insert_new(set, p);
            assert forall|k: int| 0 <= k < ls.len() implies (spec_btrfs_line_path(#[trigger] ls[k], superblock_path) matches Some(q)
                && found.contains(q)) by {
                if k < prev.len() {
                    assert(prev[k] == ls[k]);
                }
            }
            assert forall|x: Seq<char>| #[trigger] found.contains(x) implies exists|k: int| 0 <= k < ls.len() && spec_btrfs_line_path(ls[k], superblock_path) == Some(x) by {
                if set.contains(x) {
                    let k = choose|k: int| 0 <= k < prev.len() && spec_btrfs_line_path(prev[k], superblock_path) == Some(x);
                    assert(prev[k] == ls[k]);
                } else {
                    assert(ls[ls.len() - 1] == ls.last());
                }
            }
        }
    }
}


/// What the discovery finds of a zfs listing is exactly the first fields of
/// its lines, the zpool itself left out: each line has a first field, each
/// first field other than the zpool is found, and each name found is the
/// first field of some line and is not the zpool.
pub proof fn lemma_zfs_discovery_is_the_first_fields(ls: Seq<Seq<char>>, superblock_path: Seq<char>)
    ensures
        spec_zfs_datasets(ls, superblock_path) matches Ok(found) ==> {
            &&& forall|k: int| 0 <= k < ls.len() ==> fields(#[trigger] ls[k]).len() > 0 && (fields(ls[k])[0]
                != superblock_path ==> found.contains(fields(ls[k])[0]))
            &&& forall|x: Seq<char>| #[trigger] found.contains(x) ==> x != superblock_path && exists|k: int|
                0 <= k < ls.len() && fields(ls[k]).len() > 0 && fields(ls[k])[0] == x
        },
    decreases ls.len(),
{
    if ls.len() > 0 {
        let prev = ls.drop_last();
        lemma_zfs_discovery_is_the_first_fields(prev, superblock_path);
        lemma_discovery_has_no_duplicates(FilesystemType::Zfs, prev, superblock_path);
        lemma_discovery_has_no_duplicates(FilesystemType::Zfs, ls, superblock_path);
        if let Ok(found) = spec_zfs_datasets(ls, superblock_path) {
            let set = spec_zfs_datasets(prev, superblock_path)->Ok_0;
            let n = spec_zfs_line_name(ls.last())->Some_0;
            if n != superblock_path {
                lemma_insert_new(set, n);
            }
            assert forall|k: int| 0 <= k < ls.len() implies fields(#[trigger] ls[k]).len() > 0 && (fields(ls[k])[0]
                != superblock_path ==> found.contains(fields(ls[k])[0])) by {
                if k < prev.len() {
                    assert(prev[k] == ls[k]);
                } else {
                    assert(ls[k] == ls.last());
                }
            }
            assert forall|x: Seq<char>| #[trigger] found.contains(x) implies x != superblock_path && exists|k: int|
                0 <= k < ls.len() && fields(ls[k]).len() > 0 && fields(ls[k])[0] == x by {
                if set.contains(x) {
                    let k = choose|k: int| 0 <= k < prev.len() && fields(prev[k]).len() > 0 && fields(prev[k])[0] == x;
                    assert(prev[k] == ls[k]);
                } else {
                    assert(ls[ls.len() - 1] == ls.last());
                }
            }
        }
    }
}

} // verus!
