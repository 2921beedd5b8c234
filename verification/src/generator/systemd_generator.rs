//! The unit files that the generator writes for each superblock.
use vstd::prelude::*;

use crate::generator::config::SystemdRollbackerGeneratorConfig;
use crate::generator::fstab::btrfs_groups_have_mount_paths;
use crate::generator::fstab::mount_paths_view;
use crate::generator::fstab::parsed_fstab_view;
use crate::generator::fstab::spec_filesystem_name;
use crate::generator::fstab::DeviceMountPaths;
use crate::generator::fstab::FilesystemType;
use crate::generator::fstab::FstabGroupView;
use crate::generator::fstab::ParsedFstab;
use crate::generator::fstab::SuperblockEntry;
use crate::generator::fstab::SuperblockEntryView;
use crate::text::chars_of;
use crate::text::extend_chars;
use crate::text::join;
use crate::text::has_infix;
use crate::text::has_non_whitespace;
use crate::text::is_whitespace;
use crate::text::lemma_concat_lacks;
use crate::text::lemma_infix_of_concat;
use crate::text::lemma_infix_trans;
use crate::text::lemma_strip_keeps_line;
use crate::text::join_chars;
use crate::text::lemma_join_front;
use crate::text::lemma_join_of_lines;
use crate::text::lemma_lines_nonempty;
use crate::text::lemma_lines_of_join;
use crate::text::lemma_lines_plain;
use crate::text::lemma_subrange_lacks;
use crate::text::lemma_trim_end_keeps;
use crate::text::lemma_trim_end_shape;
use crate::text::lemma_trim_start_keeps;
use crate::text::lemma_trim_start_shape;
use crate::text::pieces_plain;
use crate::text::lines;
use crate::text::split_lines;
use crate::text::string_of;
use crate::text::trim;
use crate::text::trim_chars;
use crate::text::trim_start;
use crate::text::trim_start_chars;

verus! {

/// Where systemd looks for the units that generators write.
pub const SYSTEMD_GENERATOR_DIR: &'static str = "/run/systemd/generator";

/// Appends the characters of `s` to `out`.
fn push_str(out: &mut Vec<char>, s: &str)
    ensures
        final(out)@ == old(out)@ + s@,
{
    let v = chars_of(s);
    extend_chars(out, &v);
}

/// `s` with its first `c` removed, wherever it stands (`str::replacen(c, "", 1)`).
pub open spec fn remove_first(s: Seq<char>, c: char) -> Seq<char>
    decreases s.len(),
{
    if s.len() == 0 {
        s
    } else if s[0] == c {
        s.drop_first()
    } else {
        seq![s[0]] + remove_first(s.drop_first(), c)
    }
}

/// What one character becomes in a unit name: `-` is written `\x2d`, `/`
/// becomes `-`, any other character stays.
pub open spec fn escape_char(c: char) -> Seq<char> {
    if c == '-' {
        seq!['\\', 'x', '2', 'd']
    } else if c == '/' {
        seq!['-']
    } else {
        seq![c]
    }
}

/// Every character of `s` escaped.
pub open spec fn escape_chars(s: Seq<char>) -> Seq<char>
    decreases s.len(),
{
    if s.len() == 0 {
        Seq::empty()
    } else {
        escape_chars(s.drop_last()) + escape_char(s.last())
    }
}

/// The unit name of a path: `/` is `-`; otherwise the first `/` is dropped,
/// each `-` written `\x2d` and each remaining `/` turned into `-`.
pub open spec fn spec_systemd_escape(path: Seq<char>) -> Seq<char> {
    if path == seq!['/'] {
        seq!['-']
    } else {
        escape_chars(remove_first(path, '/'))
    }
}

fn remove_first_chars(v: &[char], c: char) -> (r: Vec<char>)
    ensures
        r@ == remove_first(v@, c),
{
    let mut out: Vec<char> = Vec::new();
    let mut i: usize = 0;
    let mut removed = false;
    assert(v@.skip(0) =~= v@);
    while i < v.len()
        invariant
            i <= v@.len(),
            !removed ==> out@ + remove_first(v@.skip(i as int), c) == remove_first(v@, c),
            removed ==> out@ + v@.skip(i as int) == remove_first(v@, c),
        decreases v@.len() - i,
    {
        let ghost rest = v@.skip(i as int);
        assert(rest.drop_first() =~= v@.skip(i + 1));
        if !removed && v[i] == c {
            removed = true;
        } else {
            let ghost o = out@;
            out.push(v[i]);
            if removed {
                assert(o + rest =~= out@ + v@.skip(i + 1));
            } else {
                assert(o + (seq![v@[i as int]] + remove_first(v@.skip(i + 1), c)) =~= out@
                    + remove_first(v@.skip(i + 1), c));
            }
        }
        i = i + 1;
    }
    assert(out@ + Seq::<char>::empty() =~= out@);
    out
}

fn escape_chars_exec(v: &[char]) -> (r: Vec<char>)
    ensures
        r@ == escape_chars(v@),
{
    let mut out: Vec<char> = Vec::new();
    let mut i: usize = 0;
    while i < v.len()
        invariant
            i <= v@.len(),
            out@ == escape_chars(v@.take(i as int)),
        decreases v@.len() - i,
    {
        assert(v@.take(i + 1).drop_last() =~= v@.take(i as int));
        let c = v[i];
        if c == '-' {
            out.push('\\');
            out.push('x');
            out.push('2');
            out.push('d');
        } else if c == '/' {
            out.push('-');
        } else {
            out.push(c);
        }
        assert(out@ =~= escape_chars(v@.take(i + 1)));
        i = i + 1;
    }
    assert(v@.take(v@.len() as int) =~= v@);
    out
}

fn systemd_escape_chars(v: &[char]) -> (r: Vec<char>)
    ensures
        r@ == spec_systemd_escape(v@),
{
    if v.len() == 1 && v[0] == '/' {
        assert(v@ =~= seq!['/']);
        let mut r: Vec<char> = Vec::new();
        r.push('-');
        assert(r@ =~= seq!['-']);
        r
    } else {
        assert(v@ != seq!['/'] ) by {
            if v@ == seq!['/'] {
                assert(v@.len() == 1 && v@[0] == '/');
            }
        }
        let removed = remove_first_chars(v, '/');
        escape_chars_exec(&removed)
    }
}

/// The name under which systemd knows a unit for `device_path`.
pub fn systemd_escape(device_path: &str) -> (r: String)
    ensures
        r@ == spec_systemd_escape(device_path@),
{
    let v = chars_of(device_path);
    string_of(&systemd_escape_chars(&v))
}

/// An escaped name holds no `/`.
pub proof fn lemma_escape_has_no_slash(path: Seq<char>)
    ensures
        !spec_systemd_escape(path).contains('/'),
{
    lemma_escape_chars_no_slash(remove_first(path, '/'));
}

proof fn lemma_escape_chars_no_slash(s: Seq<char>)
    ensures
        !escape_chars(s).contains('/'),
    decreases s.len(),
{
    if s.len() > 0 {
        lemma_escape_chars_no_slash(s.drop_last());
        let a = escape_chars(s.drop_last());
        let b = escape_char(s.last());
        assert forall|k: int| 0 <= k < (a + b).len() implies (a + b)[k] != '/' by {
            if k < a.len() {
                assert((a + b)[k] == a[k]);
            }
        }
    }
}

/// `s` with every `from` turned into `to` (`str::replace` of one character
/// by one).
pub open spec fn replace_char(s: Seq<char>, from: char, to: char) -> Seq<char>
    decreases s.len(),
{
    if s.len() == 0 {
        s
    } else {
        seq![if s[0] == from { to } else { s[0] }] + replace_char(s.drop_first(), from, to)
    }
}

/// `s` with each occurrence of the non-empty `pat`, found from the left and
/// without overlap, replaced by `rep` (`str::replace`).
pub open spec fn replace_seq(s: Seq<char>, pat: Seq<char>, rep: Seq<char>) -> Seq<char>
    decreases s.len(),
{
    if s.len() == 0 {
        s
    } else if 0 < pat.len() <= s.len() && s.take(pat.len() as int) == pat {
        rep + replace_seq(s.skip(pat.len() as int), pat, rep)
    } else {
        seq![s[0]] + replace_seq(s.drop_first(), pat, rep)
    }
}

/// The path that a unit name stands for: each `-` turned back into `/`,
/// then each `\x2d` into `-`, and the leading `/` put back.
pub open spec fn spec_systemd_unescape(name: Seq<char>) -> Seq<char> {
    seq!['/'] + replace_seq(replace_char(name, '-', '/'), seq!['\\', 'x', '2', 'd'], seq!['-'])
}

proof fn lemma_escape_chars_concat(a: Seq<char>, b: Seq<char>)
    ensures
        escape_chars(a + b) == escape_chars(a) + escape_chars(b),
    decreases b.len(),
{
    if b.len() == 0 {
        assert(a + b =~= a);
        assert(escape_chars(a) + escape_chars(b) =~= escape_chars(a));
    } else {
        lemma_escape_chars_concat(a, b.drop_last());
        assert((a + b).drop_last() =~= a + b.drop_last());
        assert((a + b).last() == b.last());
        assert(escape_chars(a + b) =~= escape_chars(a) + escape_chars(b));
    }
}

proof fn lemma_replace_char_concat(a: Seq<char>, b: Seq<char>, from: char, to: char)
    ensures
        replace_char(a + b, from, to) == replace_char(a, from, to) + replace_char(b, from, to),
    decreases a.len(),
{
    if a.len() == 0 {
        assert(a + b =~= b);
        assert(replace_char(a, from, to) + replace_char(b, from, to) =~= replace_char(b, from, to));
    } else {
        lemma_replace_char_concat(a.drop_first(), b, from, to);
        assert((a + b).drop_first() =~= a.drop_first() + b);
        assert((a + b)[0] == a[0]);
        assert(replace_char(a + b, from, to) =~= replace_char(a, from, to) + replace_char(b, from, to));
    }
}

proof fn lemma_unescape_escape_chars(s: Seq<char>)
    requires
        !s.contains('\\'),
    ensures
        replace_seq(replace_char(escape_chars(s), '-', '/'), seq!['\\', 'x', '2', 'd'], seq!['-']) == s,
    decreases s.len(),
{
    let pat = seq!['\\', 'x', '2', 'd'];
    if s.len() == 0 {
        assert(escape_chars(s) =~= Seq::<char>::empty());
    } else {
        let c = s[0];
        let r = s.drop_first();
        assert(s =~= seq![c] + r);
        lemma_escape_chars_concat(seq![c], r);
        assert(seq![c].drop_last() =~= Seq::<char>::empty());
        assert(seq![c].last() == c);
        assert(escape_chars(Seq::<char>::empty()) =~= Seq::<char>::empty());
        assert(escape_chars(seq![c]) =~= escape_char(c));
        assert(!r.contains('\\')) by {
            if r.contains('\\') {
                let j = choose|j: int| 0 <= j < r.len() && r[j] == '\\';
                assert(s[j + 1] == '\\');
            }
        }
        lemma_unescape_escape_chars(r);
        let e = escape_char(c);
        let b = replace_char(escape_chars(r), '-', '/');
        lemma_replace_char_concat(e, escape_chars(r), '-', '/');
        let a = replace_char(e, '-', '/');
        let ab = a + b;
        if c == '-' {
            reveal_with_fuel(replace_char, 5);
            assert(a =~= pat);
            assert(ab.take(4) =~= pat);
            assert(ab.skip(4) =~= b);
            assert(replace_seq(ab, pat, seq!['-']) == seq!['-'] + replace_seq(b, pat, seq!['-']));
        } else {
            reveal_with_fuel(replace_char, 2);
            assert(c != '\\');
            if c == '/' {
                assert(a =~= seq!['/']);
            } else {
                assert(a =~= seq![c]);
            }
            assert(ab[0] != '\\');
            assert(!(0 < pat.len() <= ab.len() && ab.take(pat.len() as int) == pat)) by {
                if 0 < pat.len() <= ab.len() && ab.take(pat.len() as int) == pat {
                    assert(ab.take(4)[0] == ab[0]);
                }
            }
            assert(ab.drop_first() =~= b);
            assert(replace_seq(ab, pat, seq!['-']) == seq![ab[0]] + replace_seq(b, pat, seq!['-']));
        }
    }
}

/// Escaping can be undone: for a path that begins with `/`, is not `/`
/// itself and holds no `\`, the unit name leads back to the path.
pub proof fn lemma_systemd_escape_undone(path: Seq<char>)
    requires
        path.len() > 0,
        path[0] == '/',
        path != seq!['/'],
        !path.contains('\\'),
    ensures
        spec_systemd_unescape(spec_systemd_escape(path)) == path,
{
    let r = path.drop_first();
    assert(remove_first(path, '/') == r);
    assert(!r.contains('\\')) by {
        if r.contains('\\') {
            let j = choose|j: int| 0 <= j < r.len() && r[j] == '\\';
            assert(path[j + 1] == '\\');
        }
    }
    lemma_unescape_escape_chars(r);
    assert(seq!['/'] + r =~= path);
}

/// The mount unit of one mount path: its escaped name and `.mount`.
pub open spec fn mount_unit_name(path: Seq<char>) -> Seq<char> {
    spec_systemd_escape(path) + ".mount"@
}

/// The mount units of all mount paths, separated by spaces.
pub open spec fn spec_mount_units(paths: Seq<Seq<char>>) -> Seq<char> {
    join(paths.map_values(|p: Seq<char>| mount_unit_name(p)), seq![' '])
}

fn mount_units_chars(device_mount_paths: &DeviceMountPaths) -> (r: Vec<char>)
    ensures
        r@ == spec_mount_units(mount_paths_view(device_mount_paths@)),
{
    let ghost pv = mount_paths_view(device_mount_paths@);
    let mut units: Vec<Vec<char>> = Vec::new();
    let mut i: usize = 0;
    while i < device_mount_paths.len()
        invariant
            i <= device_mount_paths@.len(),
            pv == mount_paths_view(device_mount_paths@),
            units@.len() == i,
            forall|k: int| 0 <= k < i ==> #[trigger] units@[k]@ == mount_unit_name(pv[k]),
        decreases device_mount_paths@.len() - i,
    {
        let p = chars_of(device_mount_paths[i].as_str());
        let mut u = systemd_escape_chars(&p);
        push_str(&mut u, ".mount");
        units.push(u);
        i = i + 1;
    }
    let mut sep: Vec<char> = Vec::new();
    sep.push(' ');
    assert(sep@ =~= seq![' ']);
    let r = join_chars(&units, &sep);
    assert(units@.map_values(|p: Vec<char>| p@) =~= pv.map_values(|p: Seq<char>| mount_unit_name(p)));
    r
}

/// The mount units that a superblock's service orders itself before.
pub fn convert_device_mount_paths_to_mount_units(device_mount_paths: &DeviceMountPaths) -> (r: String)
    ensures
        r@ == spec_mount_units(mount_paths_view(device_mount_paths@)),
{
    string_of(&mount_units_chars(device_mount_paths))
}

/// A unit file's text with its indentation removed: the text is trimmed,
/// each of its lines loses its leading whitespace, and the lines are joined
/// with `\n`.
pub open spec fn spec_strip_multi_line_prefix(s: Seq<char>) -> Seq<char> {
    join(lines(trim(s)).map_values(|l: Seq<char>| trim_start(l)), seq!['\n'])
}

fn strip_multi_line_prefix_chars(v: &[char]) -> (r: Vec<char>)
    ensures
        r@ == spec_strip_multi_line_prefix(v@),
{
    let t = trim_chars(v);
    let ls = split_lines(&t);
    let ghost lv = lines(t@);
    let mut stripped: Vec<Vec<char>> = Vec::new();
    let mut i: usize = 0;
    while i < ls.len()
        invariant
            i <= ls@.len(),
            ls@.len() == lv.len(),
            forall|k: int| 0 <= k < ls@.len() ==> #[trigger] ls@[k]@ == lv[k],
            stripped@.len() == i,
            forall|k: int| 0 <= k < i ==> #[trigger] stripped@[k]@ == trim_start(lv[k]),
        decreases ls@.len() - i,
    {
        stripped.push(trim_start_chars(&ls[i]));
        i = i + 1;
    }
    let mut sep: Vec<char> = Vec::new();
    sep.push('\n');
    assert(sep@ =~= seq!['\n']);
    let r = join_chars(&stripped, &sep);
    assert(stripped@.map_values(|p: Vec<char>| p@) =~= lv.map_values(|l: Seq<char>| trim_start(l)));
    r
}

/// Removing the indentation twice is removing it once, for text without `\r`.
pub proof fn lemma_strip_multi_line_prefix_idempotent(x: Seq<char>)
    requires
        !x.contains('\r'),
    ensures
        spec_strip_multi_line_prefix(spec_strip_multi_line_prefix(x)) == spec_strip_multi_line_prefix(x),
{
    let u = trim_start(x);
    lemma_trim_start_shape(x);
    lemma_trim_end_shape(u);
    let t = trim(x);
    let k = x.len() - u.len();
    lemma_subrange_lacks(x, k, x.len() as int, '\r');
    assert(u =~= x.subrange(k, x.len() as int));
    lemma_subrange_lacks(u, 0, t.len() as int, '\r');
    assert(t =~= u.subrange(0, t.len() as int));
    let ls = lines(t);
    lemma_lines_plain(Seq::empty(), t);
    let p = ls.map_values(|l: Seq<char>| trim_start(l));
    let y = join(p, seq!['\n']);
    assert(y == spec_strip_multi_line_prefix(x));
    if t.len() == 0 {
        assert(ls.len() == 0);
        assert(p.len() == 0);
        assert(y.len() == 0);
        assert(trim(y) == y);
        assert(lines(trim(y)).len() == 0);
        assert(lines(trim(y)).map_values(|l: Seq<char>| trim_start(l)) =~= Seq::<Seq<char>>::empty());
    } else {
        assert(t[0] == u[0]);
        assert(!is_whitespace(t[0]));
        assert(!is_whitespace(t.last()));
        lemma_join_of_lines(Seq::empty(), t);
        assert(Seq::<char>::empty() + t =~= t);
        assert(join(ls, seq!['\n']) == t);
        lemma_lines_nonempty(Seq::empty(), t);
        let l0 = ls[0];
        let ll = ls.last();
        if ls.len() == 1 {
            assert(t == l0);
            assert(ll == l0);
        } else {
            assert(ls =~= seq![l0] + ls.drop_first());
            lemma_join_front(l0, ls.drop_first(), seq!['\n']);
            let front = join(ls.drop_first(), seq!['\n']);
            assert(t == l0 + seq!['\n'] + front);
            if l0.len() == 0 {
                assert(t[0] == '\n');
            }
            assert(t[0] == l0[0]);
            let back = join(ls.drop_last(), seq!['\n']);
            assert(t == back + seq!['\n'] + ll);
            if ll.len() == 0 {
                assert(t.last() == '\n');
            }
            assert(t.last() == ll.last());
        }
        assert(l0.len() > 0 && l0[0] == t[0]);
        assert(ll.len() > 0 && ll.last() == t.last());
        lemma_trim_start_keeps(l0);
        let p0 = p[0];
        assert(p0 == l0);
        lemma_trim_start_shape(ll);
        let pl = p.last();
        assert(pl == trim_start(ll));
        let kl = ll.len() - pl.len();
        if pl.len() == 0 {
            assert(is_whitespace(ll[ll.len() - 1]));
        }
        assert(pl.last() == ll.last());
        assert forall|i: int| 0 <= i < p.len() implies !(#[trigger] p[i]).contains('\n') && !p[i].contains('\r') by {
            lemma_trim_start_shape(ls[i]);
            let li = ls[i];
            assert(!li.contains('\n') && !li.contains('\r'));
            lemma_subrange_lacks(li, li.len() - p[i].len(), li.len() as int, '\n');
            lemma_subrange_lacks(li, li.len() - p[i].len(), li.len() as int, '\r');
            assert(p[i] =~= li.subrange(li.len() - p[i].len(), li.len() as int));
        }
        assert(pieces_plain(p));
        lemma_lines_of_join(p);
        // the joined text begins and ends with characters that are not whitespace
        if p.len() == 1 {
            assert(y == p0);
        } else {
            assert(p =~= seq![p0] + p.drop_first());
            lemma_join_front(p0, p.drop_first(), seq!['\n']);
            assert(y == p0 + seq!['\n'] + join(p.drop_first(), seq!['\n']));
            assert(y == join(p.drop_last(), seq!['\n']) + seq!['\n'] + pl);
        }
        assert(y[0] == p0[0]);
        assert(y.last() == pl.last());
        lemma_trim_start_keeps(y);
        lemma_trim_end_keeps(y);
        assert(trim(y) == y);
        assert forall|i: int| 0 <= i < p.len() implies trim_start(#[trigger] p[i]) == p[i] by {
            lemma_trim_start_shape(ls[i]);
            lemma_trim_start_keeps(p[i]);
        }
        assert(lines(trim(y)).map_values(|l: Seq<char>| trim_start(l)) =~= p);
    }
}

/// Removes the indentation of a unit file's text.
pub fn strip_multi_line_prefix(target_string: &str) -> (r: String)
    ensures
        r@ == spec_strip_multi_line_prefix(target_string@),
{
    let v = chars_of(target_string);
    string_of(&strip_multi_line_prefix_chars(&v))
}


/// What the generator does for one superblock.
#[derive(Debug)]
pub enum GeneratorAction {
    /// Write `contents` to the unit file at `path`.
    WriteUnit { path: String, contents: String },
    /// Report that the filesystem cannot be rolled back, and write nothing.
    SkipUnsupported { filesystem_type: FilesystemType },
}

/// [`GeneratorAction`] over character sequences.
pub enum GeneratorActionView {
    WriteUnit { path: Seq<char>, contents: Seq<char> },
    SkipUnsupported { filesystem_type: FilesystemType },
}

impl View for GeneratorAction {
    type V = GeneratorActionView;

    open spec fn view(&self) -> GeneratorActionView {
        match self {
            GeneratorAction::WriteUnit { path, contents } => GeneratorActionView::WriteUnit {
                path: path@,
                contents: contents@,
            },
            GeneratorAction::SkipUnsupported { filesystem_type } =>
                GeneratorActionView::SkipUnsupported { filesystem_type: *filesystem_type },
        }
    }
}

/// The path of a unit file named `name` followed by `kind` (`.mount`, `.service`).
pub open spec fn unit_path(name: Seq<char>, kind: Seq<char>) -> Seq<char> {
    SYSTEMD_GENERATOR_DIR@ + "/"@ + name + kind
}

/// The text, before its indentation is removed, of the unit that mounts a
/// btrfs superblock's top-level subvolume.
pub open spec fn btrfs_mount_unit_text(entry: SuperblockEntryView, mount_path: Seq<char>) -> Seq<char> {
    "\n        [Unit]\n        Requires="@ + spec_systemd_escape(entry.device)
        + ".device\n\n        [Mount]\n        What="@ + entry.device + "\n        Where="@ + mount_path
        + "\n        Type="@ + spec_filesystem_name(entry.filesystem_type)
        + "\n        Options=subvolid=5\n            "@
}

/// The text, before its indentation is removed, of the service that rolls a
/// btrfs superblock back.
pub open spec fn btrfs_service_unit_text(entry: SuperblockEntryView, mount_path: Seq<char>, units: Seq<char>, suffix: Seq<char>) -> Seq<char> {
    let name = spec_systemd_escape(mount_path);
    "\n        [Unit]\n        Requires="@ + name + ".mount\n        After="@ + name
        + ".mount\n        Before=sysroot.mount "@ + units + "\n        RequiredBy=sysroot.mount "@
        + units
        + "\n\n        [Service]\n        Type=oneshot\n        RemainAfterExit=yes\n        ExecStart=/usr/bin/env bash -c 'rollbacker --filesystem-type "@
        + spec_filesystem_name(entry.filesystem_type) + " --fresh-snapshot-suffix "@ + suffix
        + " --superblock-path "@ + mount_path + " && systemctl stop "@ + unit_path(name, ".mount"@)
        + "'\n        "@
}

/// The text, before its indentation is removed, of the service that rolls a
/// zpool back.
pub open spec fn zfs_service_unit_text(entry: SuperblockEntryView, units: Seq<char>, suffix: Seq<char>) -> Seq<char> {
    "\n        [Unit]\n        Requires=zfs-import-"@ + entry.device + ".service\n        After=zfs-import-"@
        + entry.device + ".service\n        RequiredBy=zfs-import.target "@ + units
        + "\n        Before=zfs-import.target "@ + units
        + "\n\n        [Service]\n        Type=oneshot\n        RemainAfterExit=yes\n        ExecStart=rollbacker --filesystem-type "@
        + spec_filesystem_name(entry.filesystem_type) + " --fresh-snapshot-suffix "@ + suffix
        + " --superblock-path "@ + entry.device + "\n        "@
}

/// What the generator does for one group of fstab: for btrfs, write the
/// mount unit of the superblock and then its rollback service; for zfs,
/// write the rollback service of the zpool; for any other filesystem,
/// report it and write nothing.
pub open spec fn spec_group_actions(suffix: Seq<char>, group: FstabGroupView) -> Seq<GeneratorActionView> {
    let entry = group.0;
    let units = spec_mount_units(group.1);
    match entry.filesystem_type {
        FilesystemType::Btrfs => {
            let mount_path = entry.mount_path.unwrap();
            let name = spec_systemd_escape(mount_path);
            seq![
                GeneratorActionView::WriteUnit {
                    path: unit_path(name, ".mount"@),
                    contents: spec_strip_multi_line_prefix(btrfs_mount_unit_text(entry, mount_path)),
                },
                GeneratorActionView::WriteUnit {
                    path: unit_path(name, ".service"@),
                    contents: spec_strip_multi_line_prefix(
                        btrfs_service_unit_text(entry, mount_path, units, suffix),
                    ),
                },
            ]
        },
        FilesystemType::Zfs => seq![
            GeneratorActionView::WriteUnit {
                path: unit_path(spec_systemd_escape(entry.device), ".service"@),
                contents: spec_strip_multi_line_prefix(zfs_service_unit_text(entry, units, suffix)),
            },
        ],
        t => seq![GeneratorActionView::SkipUnsupported { filesystem_type: t }],
    }
}

/// What the generator does for all groups, group after group.
pub open spec fn spec_generate_systemd_services(suffix: Seq<char>, groups: Seq<FstabGroupView>) -> Seq<GeneratorActionView>
    decreases groups.len(),
{
    if groups.len() == 0 {
        Seq::empty()
    } else {
        spec_generate_systemd_services(suffix, groups.drop_last()) + spec_group_actions(suffix, groups.last())
    }
}

fn write_unit(path: &Vec<char>, contents: &Vec<char>) -> (a: GeneratorAction)
    ensures
        a@ == (GeneratorActionView::WriteUnit { path: path@, contents: contents@ }),
{
    GeneratorAction::WriteUnit { path: string_of(path), contents: string_of(contents) }
}

fn unit_path_chars(name: &Vec<char>, kind: &str) -> (r: Vec<char>)
    ensures
        r@ == unit_path(name@, kind@),
{
    let mut p = chars_of(SYSTEMD_GENERATOR_DIR);
    push_str(&mut p, "/");
    extend_chars(&mut p, name);
    push_str(&mut p, kind);
    p
}

/// The mount unit and the rollback service of a btrfs superblock.
fn generate_systemd_btrfs_services(
    systemd_rollbacker_generator_config: &SystemdRollbackerGeneratorConfig,
    superblock_entry: &SuperblockEntry,
    device_mount_paths: &DeviceMountPaths,
) -> (r: Vec<GeneratorAction>)
    requires
        superblock_entry.filesystem_type == FilesystemType::Btrfs,
        superblock_entry.mount_path is Some,
    ensures
        r@.map_values(|a: GeneratorAction| a@) == spec_group_actions(
            systemd_rollbacker_generator_config.fresh_snapshot_suffix@,
            (superblock_entry@, mount_paths_view(device_mount_paths@)),
        ),
{
    let ghost entry = superblock_entry@;
    let units = mount_units_chars(device_mount_paths);
    let mount_path = match &superblock_entry.mount_path {
        Some(m) => chars_of(m.as_str()),
        None => { assert(false); Vec::new() },
    };
    let device = chars_of(superblock_entry.device.as_str());
    let fs_name = superblock_entry.filesystem_type.name();
    let name = systemd_escape_chars(&mount_path);
    let mount_unit_path = unit_path_chars(&name, ".mount");

    let mut t: Vec<char> = chars_of("\n        [Unit]\n        Requires=");
    extend_chars(&mut t, &systemd_escape_chars(&device));
    push_str(&mut t, ".device\n\n        [Mount]\n        What=");
    extend_chars(&mut t, &device);
    push_str(&mut t, "\n        Where=");
    extend_chars(&mut t, &mount_path);
    push_str(&mut t, "\n        Type=");
    push_str(&mut t, fs_name);
    push_str(&mut t, "\n        Options=subvolid=5\n            ");
    assert(t@ == btrfs_mount_unit_text(entry, mount_path@));
    let mount_unit = write_unit(&mount_unit_path, &strip_multi_line_prefix_chars(&t));

    let mut u: Vec<char> = chars_of("\n        [Unit]\n        Requires=");
    extend_chars(&mut u, &name);
    push_str(&mut u, ".mount\n        After=");
    extend_chars(&mut u, &name);
    push_str(&mut u, ".mount\n        Before=sysroot.mount ");
    extend_chars(&mut u, &units);
    push_str(&mut u, "\n        RequiredBy=sysroot.mount ");
    extend_chars(&mut u, &units);
    push_str(
        &mut u,
        "\n\n        [Service]\n        Type=oneshot\n        RemainAfterExit=yes\n        ExecStart=/usr/bin/env bash -c 'rollbacker --filesystem-type ",
    );
    push_str(&mut u, fs_name);
    push_str(&mut u, " --fresh-snapshot-suffix ");
    push_str(&mut u, systemd_rollbacker_generator_config.fresh_snapshot_suffix.as_str());
    push_str(&mut u, " --superblock-path ");
    extend_chars(&mut u, &mount_path);
    push_str(&mut u, " && systemctl stop ");
    extend_chars(&mut u, &mount_unit_path);
    push_str(&mut u, "'\n        ");
    assert(u@ == btrfs_service_unit_text(
        entry,
        mount_path@,
        units@,
        systemd_rollbacker_generator_config.fresh_snapshot_suffix@,
    ));
    let service_unit = write_unit(&unit_path_chars(&name, ".service"), &strip_multi_line_prefix_chars(&u));

    let mut r: Vec<GeneratorAction> = Vec::new();
    r.push(mount_unit);
    r.push(service_unit);
    assert(r@.map_values(|a: GeneratorAction| a@) =~= spec_group_actions(
        systemd_rollbacker_generator_config.fresh_snapshot_suffix@,
        (entry, mount_paths_view(device_mount_paths@)),
    ));
    r
}

/// The rollback service of a zpool.
fn generate_systemd_zfs_services(
    systemd_rollbacker_generator_config: &SystemdRollbackerGeneratorConfig,
    superblock_entry: &SuperblockEntry,
    device_mount_paths: &DeviceMountPaths,
) -> (r: Vec<GeneratorAction>)
    requires
        superblock_entry.filesystem_type == FilesystemType::Zfs,
    ensures
        r@.map_values(|a: GeneratorAction| a@) == spec_group_actions(
            systemd_rollbacker_generator_config.fresh_snapshot_suffix@,
            (superblock_entry@, mount_paths_view(device_mount_paths@)),
        ),
{
    let ghost entry = superblock_entry@;
    let units = mount_units_chars(device_mount_paths);
    let device = chars_of(superblock_entry.device.as_str());
    let fs_name = superblock_entry.filesystem_type.name();

    let mut u: Vec<char> = chars_of("\n        [Unit]\n        Requires=zfs-import-");
    extend_chars(&mut u, &device);
    push_str(&mut u, ".service\n        After=zfs-import-");
    extend_chars(&mut u, &device);
    push_str(&mut u, ".service\n        RequiredBy=zfs-import.target ");
    extend_chars(&mut u, &units);
    push_str(&mut u, "\n        Before=zfs-import.target ");
    extend_chars(&mut u, &units);
    push_str(
        &mut u,
        "\n\n        [Service]\n        Type=oneshot\n        RemainAfterExit=yes\n        ExecStart=rollbacker --filesystem-type ",
    );
    push_str(&mut u, fs_name);
    push_str(&mut u, " --fresh-snapshot-suffix ");
    push_str(&mut u, systemd_rollbacker_generator_config.fresh_snapshot_suffix.as_str());
    push_str(&mut u, " --superblock-path ");
    extend_chars(&mut u, &device);
    push_str(&mut u, "\n        ");
    assert(u@ == zfs_service_unit_text(
        entry,
        units@,
        systemd_rollbacker_generator_config.fresh_snapshot_suffix@,
    ));
    let name = systemd_escape_chars(&device);
    let service_unit = write_unit(&unit_path_chars(&name, ".service"), &strip_multi_line_prefix_chars(&u));

    let mut r: Vec<GeneratorAction> = Vec::new();
    r.push(service_unit);
    assert(r@.map_values(|a: GeneratorAction| a@) =~= spec_group_actions(
        systemd_rollbacker_generator_config.fresh_snapshot_suffix@,
        (entry, mount_paths_view(device_mount_paths@)),
    ));
    r
}

/// What to do for all superblocks of fstab, group after group: the unit
/// files to write, each with its path and contents, in order, and the
/// filesystems that cannot be rolled back.
pub fn generate_systemd_services(
    systemd_rollbacker_generator_config: &SystemdRollbackerGeneratorConfig,
    parsed_fstab: &ParsedFstab,
) -> (r: Vec<GeneratorAction>)
    requires
        btrfs_groups_have_mount_paths(parsed_fstab_view(parsed_fstab@)),
    ensures
        r@.map_values(|a: GeneratorAction| a@) == spec_generate_systemd_services(
            systemd_rollbacker_generator_config.fresh_snapshot_suffix@,
            parsed_fstab_view(parsed_fstab@),
        ),
{
    let ghost suffix = systemd_rollbacker_generator_config.fresh_snapshot_suffix@;
    let ghost groups = parsed_fstab_view(parsed_fstab@);
    let mut r: Vec<GeneratorAction> = Vec::new();
    let mut i: usize = 0;
    while i < parsed_fstab.len()
        invariant
            i <= parsed_fstab@.len(),
            groups == parsed_fstab_view(parsed_fstab@),
            suffix == systemd_rollbacker_generator_config.fresh_snapshot_suffix@,
            btrfs_groups_have_mount_paths(groups),
            r@.map_values(|a: GeneratorAction| a@) == spec_generate_systemd_services(
                suffix,
                groups.take(i as int),
            ),
        decreases parsed_fstab@.len() - i,
    {
        let entry = &parsed_fstab[i].0;
        let paths = &parsed_fstab[i].1;
        assert(groups.take(i + 1).drop_last() =~= groups.take(i as int));
        assert(groups[i as int] == (entry@, mount_paths_view(paths@)));
        let ghost before = r@.map_values(|a: GeneratorAction| a@);
        let mut more: Vec<GeneratorAction> = match entry.filesystem_type {
            FilesystemType::Btrfs => {
                assert(groups[i as int].0.filesystem_type == FilesystemType::Btrfs);
                generate_systemd_btrfs_services(systemd_rollbacker_generator_config, entry, paths)
            },
            FilesystemType::Zfs => generate_systemd_zfs_services(systemd_rollbacker_generator_config, entry, paths),
            t => {
                let mut v: Vec<GeneratorAction> = Vec::new();
                v.push(GeneratorAction::SkipUnsupported { filesystem_type: t });
                assert(v@.map_values(|a: GeneratorAction| a@) =~= spec_group_actions(suffix, groups[i as int]));
                v
            },
        };
        let ghost added = more@.map_values(|a: GeneratorAction| a@);
        r.append(&mut more);
        assert(r@.map_values(|a: GeneratorAction| a@) =~= before + added);
        i = i + 1;
    }
    assert(groups.take(parsed_fstab@.len() as int) =~= groups);
    r
}


proof fn lemma_service_head_literal()
    ensures
        "\n\n        [Service]\n        Type=oneshot\n        RemainAfterExit=yes\n        ExecStart=/usr/bin/env bash -c 'rollbacker --filesystem-type "@
            == "\n\n        [Service]\n        Type=oneshot\n        RemainAfterExit=yes"@ + seq!['\n'] + "        "@
            + "ExecStart=/usr/bin/env bash -c 'rollbacker --filesystem-type "@,
        "\n\n        [Service]\n        Type=oneshot\n        RemainAfterExit=yes"@.len() > 10,
        "\n\n        [Service]\n        Type=oneshot\n        RemainAfterExit=yes"@[10] == '[',
{
    reveal_strlit("\n\n        [Service]\n        Type=oneshot\n        RemainAfterExit=yes\n        ExecStart=/usr/bin/env bash -c 'rollbacker --filesystem-type ");
    reveal_strlit("\n\n        [Service]\n        Type=oneshot\n        RemainAfterExit=yes");
    reveal_strlit("        ");
    reveal_strlit("ExecStart=/usr/bin/env bash -c 'rollbacker --filesystem-type ");
    assert("\n\n        [Service]\n        Type=oneshot\n        RemainAfterExit=yes\n        ExecStart=/usr/bin/env bash -c 'rollbacker --filesystem-type "@
        =~= "\n\n        [Service]\n        Type=oneshot\n        RemainAfterExit=yes"@ + seq!['\n'] + "        "@
        + "ExecStart=/usr/bin/env bash -c 'rollbacker --filesystem-type "@);
}

proof fn lemma_indent_literal()
    ensures
        forall|i: int| 0 <= i < "        "@.len() ==> #[trigger] "        "@[i] != '\n' && is_whitespace("        "@[i]),
{
    reveal_strlit("        ");
    assert forall|i: int| 0 <= i < "        "@.len() implies #[trigger] "        "@[i] != '\n' && is_whitespace("        "@[i]) by {
        assert("        "@[i] == ' ');
    }
}

proof fn lemma_exec_start_literal()
    ensures
        !"ExecStart=/usr/bin/env bash -c 'rollbacker --filesystem-type "@.contains('\n'),
        "ExecStart=/usr/bin/env bash -c 'rollbacker --filesystem-type "@.len() > 0,
        "ExecStart=/usr/bin/env bash -c 'rollbacker --filesystem-type "@[0] == 'E',
{
    reveal_strlit("ExecStart=/usr/bin/env bash -c 'rollbacker --filesystem-type ");
    let k = "ExecStart=/usr/bin/env bash -c 'rollbacker --filesystem-type "@;
    assert forall|i: int| 0 <= i < k.len() implies k[i] != '\n' by {}
}

proof fn lemma_option_literals()
    ensures
        !" --fresh-snapshot-suffix "@.contains('\n'),
        !" --superblock-path "@.contains('\n'),
        " --superblock-path "@.len() > 0,
        " --superblock-path "@.last() == ' ',
        !"btrfs"@.contains('\n'),
        " && systemctl stop "@.len() > 1,
        " && systemctl stop "@[1] == '&',
{
    reveal_strlit(" --fresh-snapshot-suffix ");
    reveal_strlit(" --superblock-path ");
    reveal_strlit("btrfs");
    reveal_strlit(" && systemctl stop ");
    let k2 = " --fresh-snapshot-suffix "@;
    let k3 = " --superblock-path "@;
    let fs = "btrfs"@;
    assert forall|i: int| 0 <= i < k2.len() implies k2[i] != '\n' by {}
    assert forall|i: int| 0 <= i < k3.len() implies k3[i] != '\n' by {}
    assert forall|i: int| 0 <= i < fs.len() implies fs[i] != '\n' by {}
}

proof fn lemma_service_text_regrouped(
    pre: Seq<char>,
    k1a: Seq<char>,
    ws: Seq<char>,
    k1b: Seq<char>,
    fs: Seq<char>,
    k2: Seq<char>,
    suffix: Seq<char>,
    k3: Seq<char>,
    m: Seq<char>,
    k4: Seq<char>,
    up: Seq<char>,
    k5: Seq<char>,
)
    ensures
        pre + (k1a + seq!['\n'] + ws + k1b) + fs + k2 + suffix + k3 + m + k4 + up + k5 == (pre + k1a)
            + seq!['\n'] + ws + (k1b + fs + k2 + suffix + k3) + (m + k4 + up + k5),
{
    assert(pre + (k1a + seq!['\n'] + ws + k1b) + fs + k2 + suffix + k3 + m + k4 + up + k5 =~= (pre + k1a)
        + seq!['\n'] + ws + (k1b + fs + k2 + suffix + k3) + (m + k4 + up + k5));
}

/// The text of a btrfs rollback service, once its indentation is removed,
/// holds ` --fresh-snapshot-suffix <suffix> --superblock-path ` for every
/// suffix without a line break.
#[verifier::rlimit(40)]
proof fn lemma_btrfs_service_text_passes_suffix(
    entry: SuperblockEntryView,
    mount_path: Seq<char>,
    units: Seq<char>,
    suffix: Seq<char>,
)
    requires
        entry.filesystem_type == FilesystemType::Btrfs,
        !suffix.contains('\n'),
    ensures
        has_infix(
            spec_strip_multi_line_prefix(btrfs_service_unit_text(entry, mount_path, units, suffix)),
            " --fresh-snapshot-suffix "@ + suffix + " --superblock-path "@,
        ),
{
    let name = spec_systemd_escape(mount_path);
    let text = btrfs_service_unit_text(entry, mount_path, units, suffix);
    let k1a = "\n\n        [Service]\n        Type=oneshot\n        RemainAfterExit=yes"@;
    let ws = "        "@;
    let k1b = "ExecStart=/usr/bin/env bash -c 'rollbacker --filesystem-type "@;
    let k2 = " --fresh-snapshot-suffix "@;
    let k3 = " --superblock-path "@;
    let k4 = " && systemctl stop "@;
    let fs = "btrfs"@;
    lemma_service_head_literal();
    lemma_indent_literal();
    lemma_exec_start_literal();
    lemma_option_literals();
    let pre = "\n        [Unit]\n        Requires="@ + name + ".mount\n        After="@ + name
        + ".mount\n        Before=sysroot.mount "@ + units + "\n        RequiredBy=sysroot.mount "@ + units;
    let up = unit_path(name, ".mount"@);
    let k5 = "'\n        "@;
    lemma_service_text_regrouped(pre, k1a, ws, k1b, fs, k2, suffix, k3, mount_path, k4, up, k5);
    let x = pre + k1a;
    let h = k1b + fs + k2 + suffix + k3;
    let r = mount_path + k4 + up + k5;
    assert(text == x + seq!['\n'] + ws + h + r);
    assert(x[pre.len() + 10int] == k1a[10]);
    assert(!is_whitespace(x[pre.len() + 10int]));
    assert(has_non_whitespace(x));
    assert(r[mount_path.len() + 1int] == k4[1]);
    assert(!is_whitespace(r[mount_path.len() + 1int]));
    assert(has_non_whitespace(r));
    lemma_concat_lacks(k1b, fs, '\n');
    lemma_concat_lacks(k1b + fs, k2, '\n');
    lemma_concat_lacks(k1b + fs + k2, suffix, '\n');
    lemma_concat_lacks(k1b + fs + k2 + suffix, k3, '\n');
    assert(h[0] == k1b[0]);
    assert(h.last() == k3.last());
    lemma_strip_keeps_line(x, ws, h, r);
    let contents = spec_strip_multi_line_prefix(text);
    assert(has_infix(contents, h));
    let w = k2 + suffix + k3;
    lemma_infix_of_concat(k1b + fs, w, Seq::empty());
    assert(k1b + fs + w + Seq::<char>::empty() =~= h);
    lemma_infix_trans(contents, h, w);
}

/// The rollback service of a btrfs superblock passes the configured
/// suffix: for every suffix without a line break and every btrfs group, the
/// service unit written for the group holds
/// ` --fresh-snapshot-suffix <suffix> --superblock-path `.
pub proof fn lemma_btrfs_service_passes_suffix(suffix: Seq<char>, group: FstabGroupView)
    requires
        group.0.filesystem_type == FilesystemType::Btrfs,
        group.0.mount_path is Some,
        !suffix.contains('\n'),
    ensures
        spec_group_actions(suffix, group).len() == 2,
        spec_group_actions(suffix, group)[1] matches GeneratorActionView::WriteUnit { contents, .. } && has_infix(
            contents,
            " --fresh-snapshot-suffix "@ + suffix + " --superblock-path "@,
        ),
{
    let entry = group.0;
    let mount_path = entry.mount_path->Some_0;
    lemma_btrfs_service_text_passes_suffix(entry, mount_path, spec_mount_units(group.1), suffix);
}


proof fn lemma_zfs_service_head_literal()
    ensures
        "\n\n        [Service]\n        Type=oneshot\n        RemainAfterExit=yes\n        ExecStart=rollbacker --filesystem-type "@
            == "\n\n        [Service]\n        Type=oneshot\n        RemainAfterExit=yes"@ + seq!['\n'] + "        "@
            + "ExecStart=rollbacker --filesystem-type "@,
        !"ExecStart=rollbacker --filesystem-type "@.contains('\n'),
        "ExecStart=rollbacker --filesystem-type "@.len() > 0,
        "ExecStart=rollbacker --filesystem-type "@[0] == 'E',
        !"zfs"@.contains('\n'),
{
    reveal_strlit("\n\n        [Service]\n        Type=oneshot\n        RemainAfterExit=yes\n        ExecStart=rollbacker --filesystem-type ");
    reveal_strlit("\n\n        [Service]\n        Type=oneshot\n        RemainAfterExit=yes");
    reveal_strlit("        ");
    reveal_strlit("ExecStart=rollbacker --filesystem-type ");
    reveal_strlit("zfs");
    assert("\n\n        [Service]\n        Type=oneshot\n        RemainAfterExit=yes\n        ExecStart=rollbacker --filesystem-type "@
        =~= "\n\n        [Service]\n        Type=oneshot\n        RemainAfterExit=yes"@ + seq!['\n'] + "        "@
        + "ExecStart=rollbacker --filesystem-type "@);
    let k = "ExecStart=rollbacker --filesystem-type "@;
    assert forall|i: int| 0 <= i < k.len() implies k[i] != '\n' by {}
    let z = "zfs"@;
    assert forall|i: int| 0 <= i < z.len() implies z[i] != '\n' by {}
}

proof fn lemma_zfs_service_text_regrouped(
    pre: Seq<char>,
    k1a: Seq<char>,
    ws: Seq<char>,
    k1b: Seq<char>,
    fs: Seq<char>,
    k2: Seq<char>,
    suffix: Seq<char>,
    k3: Seq<char>,
    d: Seq<char>,
    k5: Seq<char>,
)
    ensures
        pre + (k1a + seq!['\n'] + ws + k1b) + fs + k2 + suffix + k3 + d + k5 == (pre + k1a) + seq!['\n'] + ws + (
        k1b + fs + k2 + suffix + k3) + (d + k5),
{
    assert(pre + (k1a + seq!['\n'] + ws + k1b) + fs + k2 + suffix + k3 + d + k5 =~= (pre + k1a) + seq!['\n'] + ws
        + (k1b + fs + k2 + suffix + k3) + (d + k5));
}

/// The text of a zpool's rollback service, once its indentation is removed,
/// holds ` --fresh-snapshot-suffix <suffix> --superblock-path ` for every
/// suffix without a line break, when the pool name is not all whitespace.
#[verifier::rlimit(40)]
proof fn lemma_zfs_service_text_passes_suffix(entry: SuperblockEntryView, units: Seq<char>, suffix: Seq<char>)
    requires
        entry.filesystem_type == FilesystemType::Zfs,
        has_non_whitespace(entry.device),
        !suffix.contains('\n'),
    ensures
        has_infix(
            spec_strip_multi_line_prefix(zfs_service_unit_text(entry, units, suffix)),
            " --fresh-snapshot-suffix "@ + suffix + " --superblock-path "@,
        ),
{
    let d = entry.device;
    let text = zfs_service_unit_text(entry, units, suffix);
    let k1a = "\n\n        [Service]\n        Type=oneshot\n        RemainAfterExit=yes"@;
    let ws = "        "@;
    let k1b = "ExecStart=rollbacker --filesystem-type "@;
    let k2 = " --fresh-snapshot-suffix "@;
    let k3 = " --superblock-path "@;
    let fs = "zfs"@;
    lemma_zfs_service_head_literal();
    lemma_service_head_literal();
    lemma_indent_literal();
    lemma_option_literals();
    let pre = "\n        [Unit]\n        Requires=zfs-import-"@ + d + ".service\n        After=zfs-import-"@ + d
        + ".service\n        RequiredBy=zfs-import.target "@ + units + "\n        Before=zfs-import.target "@ + units;
    let k5 = "\n        "@;
    lemma_zfs_service_text_regrouped(pre, k1a, ws, k1b, fs, k2, suffix, k3, d, k5);
    let x = pre + k1a;
    let h = k1b + fs + k2 + suffix + k3;
    let r = d + k5;
    assert(text == x + seq!['\n'] + ws + h + r);
    assert(x[pre.len() + 10int] == k1a[10]);
    assert(!is_whitespace(x[pre.len() + 10int]));
    assert(has_non_whitespace(x));
    let i = choose|i: int| 0 <= i < d.len() && !is_whitespace(#[trigger] d[i]);
    assert(r[i] == d[i]);
    assert(has_non_whitespace(r));
    lemma_concat_lacks(k1b, fs, '\n');
    lemma_concat_lacks(k1b + fs, k2, '\n');
    lemma_concat_lacks(k1b + fs + k2, suffix, '\n');
    lemma_concat_lacks(k1b + fs + k2 + suffix, k3, '\n');
    assert(h[0] == k1b[0]);
    assert(h.last() == k3.last());
    lemma_strip_keeps_line(x, ws, h, r);
    let contents = spec_strip_multi_line_prefix(text);
    assert(has_infix(contents, h));
    let w = k2 + suffix + k3;
    lemma_infix_of_concat(k1b + fs, w, Seq::empty());
    assert(k1b + fs + w + Seq::<char>::empty() =~= h);
    lemma_infix_trans(contents, h, w);
}


/// The rollback service of a zpool passes the configured suffix: for every
/// suffix without a line break and every zfs group whose pool name is not
/// all whitespace, the service unit written for the group holds
/// ` --fresh-snapshot-suffix <suffix> --superblock-path `.
pub proof fn lemma_zfs_service_passes_suffix(suffix: Seq<char>, group: FstabGroupView)
    requires
        group.0.filesystem_type == FilesystemType::Zfs,
        has_non_whitespace(group.0.device),
        !suffix.contains('\n'),
    ensures
        spec_group_actions(suffix, group).len() == 1,
        spec_group_actions(suffix, group)[0] matches GeneratorActionView::WriteUnit { contents, .. } && has_infix(
            contents,
            " --fresh-snapshot-suffix "@ + suffix + " --superblock-path "@,
        ),
{
    lemma_zfs_service_text_passes_suffix(group.0, spec_mount_units(group.1), suffix);
}

} // verus!
