//! Character-level text operations with their mathematical meaning.
use vstd::prelude::*;

verus! {

/// Unicode `White_Space`, the set that `char::is_whitespace` tests.
pub open spec fn is_whitespace(c: char) -> bool {
    ||| ('\t' <= c && c <= '\r')
    ||| c == ' '
    ||| c == '\u{85}'
    ||| c == '\u{a0}'
    ||| c == '\u{1680}'
    ||| ('\u{2000}' <= c && c <= '\u{200a}')
    ||| c == '\u{2028}'
    ||| c == '\u{2029}'
    ||| c == '\u{202f}'
    ||| c == '\u{205f}'
    ||| c == '\u{3000}'
}

pub fn char_is_whitespace(c: char) -> (b: bool)
    ensures
        b == is_whitespace(c),
{
    ('\t' <= c && c <= '\r') || c == ' ' || c == '\u{85}' || c == '\u{a0}' || c == '\u{1680}'
        || ('\u{2000}' <= c && c <= '\u{200a}') || c == '\u{2028}' || c == '\u{2029}'
        || c == '\u{202f}' || c == '\u{205f}' || c == '\u{3000}'
}

/// The characters of `s`, in order.
pub fn chars_of(s: &str) -> (v: Vec<char>)
    ensures
        v@ == s@,
{
    broadcast use vstd::string::group_string_axioms;
    let mut v: Vec<char> = Vec::new();
    for c in it: s.chars()
        invariant
            v@ == it.seq().take(it.index() as int),
    {
        v.push(c);
    }
    v
}


/// Appends one character to a `String` (`String::push`, which the verifier's
/// standard library leaves unspecified). Claims: the new contents are the old
/// contents followed by `c`.
#[verifier::external_body]
fn push_char(s: &mut String, c: char)
    ensures
        final(s)@ == old(s)@.push(c),
{
    s.push(c);
}

/// A `String` holding exactly the characters of `v`.
pub fn string_of(v: &[char]) -> (s: String)
    ensures
        s@ == v@,
{
    let mut s = String::new();
    let mut i: usize = 0;
    while i < v.len()
        invariant
            i <= v@.len(),
            s@ == v@.take(i as int),
        decreases v@.len() - i,
    {
        push_char(&mut s, v[i]);
        i = i + 1;
    }
    assert(v@.take(v@.len() as int) =~= v@);
    s
}

/// Appends the characters of `v` to `out`.
pub fn extend_chars(out: &mut Vec<char>, v: &[char])
    ensures
        final(out)@ == old(out)@ + v@,
{
    let mut i: usize = 0;
    while i < v.len()
        invariant
            i <= v@.len(),
            out@ == old(out)@ + v@.take(i as int),
        decreases v@.len() - i,
    {
        out.push(v[i]);
        i = i + 1;
        assert(v@.take(i as int) =~= v@.take(i - 1).push(v@[i - 1]));
    }
    assert(v@.take(v@.len() as int) =~= v@);
}

/// The characters of `v` from index `from` up to, not including, `to`.
pub fn slice_chars(v: &[char], from: usize, to: usize) -> (r: Vec<char>)
    requires
        from <= to <= v@.len(),
    ensures
        r@ == v@.subrange(from as int, to as int),
{
    let mut r: Vec<char> = Vec::new();
    let mut i: usize = from;
    while i < to
        invariant
            from <= i <= to <= v@.len(),
            r@ == v@.subrange(from as int, i as int),
        decreases to - i,
    {
        r.push(v[i]);
        i = i + 1;
        assert(r@ =~= v@.subrange(from as int, i as int));
    }
    r
}

/// Whether `a` and `b` hold the same characters.
pub fn chars_eq(a: &[char], b: &[char]) -> (r: bool)
    ensures
        r == (a@ == b@),
{
    if a.len() != b.len() {
        return false;
    }
    let mut i: usize = 0;
    while i < a.len()
        invariant
            a@.len() == b@.len(),
            i <= a@.len(),
            forall|j: int| 0 <= j < i ==> a@[j] == b@[j],
        decreases a@.len() - i,
    {
        if a[i] != b[i] {
            return false;
        }
        i = i + 1;
    }
    assert(a@ =~= b@);
    true
}

/// Whether `v` begins with `prefix`.
pub fn starts_with(v: &[char], prefix: &[char]) -> (r: bool)
    ensures
        r == (prefix@.len() <= v@.len() && v@.take(prefix@.len() as int) == prefix@),
{
    if prefix.len() > v.len() {
        return false;
    }
    let mut i: usize = 0;
    while i < prefix.len()
        invariant
            prefix@.len() <= v@.len(),
            i <= prefix@.len(),
            forall|j: int| 0 <= j < i ==> v@[j] == prefix@[j],
        decreases prefix@.len() - i,
    {
        if v[i] != prefix[i] {
            assert(v@.take(prefix@.len() as int)[i as int] != prefix@[i as int]);
            return false;
        }
        i = i + 1;
    }
    assert(v@.take(prefix@.len() as int) =~= prefix@);
    true
}

/// Whether `v` ends with `suffix`.
pub fn ends_with(v: &[char], suffix: &[char]) -> (r: bool)
    ensures
        r == (suffix@.len() <= v@.len() && v@.skip(v@.len() - suffix@.len()) == suffix@),
{
    if suffix.len() > v.len() {
        return false;
    }
    let n = v.len();
    let off = n - suffix.len();
    let mut i: usize = 0;
    while i < suffix.len()
        invariant
            n == v@.len(),
            suffix@.len() <= v@.len(),
            off + suffix@.len() == v@.len(),
            i <= suffix@.len(),
            forall|j: int| 0 <= j < i ==> v@[off + j] == suffix@[j],
        decreases suffix@.len() - i,
    {
        if v[off + i] != suffix[i] {
            assert(v@.skip(off as int)[i as int] != suffix@[i as int]);
            return false;
        }
        i = i + 1;
    }
    assert(v@.skip(off as int) =~= suffix@);
    true
}


/// `[cur]` when `cur` is non-empty, else nothing: a finished field.
pub open spec fn field_if_any(cur: Seq<char>) -> Seq<Seq<char>> {
    if cur.len() == 0 {
        Seq::empty()
    } else {
        seq![cur]
    }
}

/// The whitespace-separated fields of `cur + rest`, where `cur` is a field
/// already begun (no whitespace in it).
pub open spec fn fields_from(cur: Seq<char>, rest: Seq<char>) -> Seq<Seq<char>>
    decreases rest.len(),
{
    if rest.len() == 0 {
        field_if_any(cur)
    } else if is_whitespace(rest[0]) {
        field_if_any(cur) + fields_from(Seq::empty(), rest.drop_first())
    } else {
        fields_from(cur.push(rest[0]), rest.drop_first())
    }
}

/// What `str::split_whitespace` yields: the maximal runs of non-whitespace
/// characters, in order.
pub open spec fn fields(s: Seq<char>) -> Seq<Seq<char>> {
    fields_from(Seq::empty(), s)
}

/// The fields of `v`, as `str::split_whitespace` cuts them.
pub fn split_whitespace(v: &[char]) -> (r: Vec<Vec<char>>)
    ensures
        r@.len() == fields(v@).len(),
        forall|k: int| 0 <= k < r@.len() ==> #[trigger] r@[k]@ == fields(v@)[k],
{
    let mut out: Vec<Vec<char>> = Vec::new();
    let mut cur: Vec<char> = Vec::new();
    let ghost views: Seq<Seq<char>> = Seq::empty();
    let mut i: usize = 0;
    assert(v@.skip(0) =~= v@);
    while i < v.len()
        invariant
            i <= v@.len(),
            out@.len() == views.len(),
            forall|k: int| 0 <= k < out@.len() ==> #[trigger] out@[k]@ == views[k],
            views + fields_from(cur@, v@.skip(i as int)) == fields(v@),
        decreases v@.len() - i,
    {
        let c = v[i];
        assert(v@.skip(i as int).drop_first() =~= v@.skip(i + 1));
        if char_is_whitespace(c) {
            if cur.len() > 0 {
                assert(fields_from(cur@, v@.skip(i as int)) == seq![cur@] + fields_from(
                    Seq::empty(),
                    v@.skip(i + 1),
                ));
                let ghost old_views = views;
                let ghost rest = fields_from(Seq::empty(), v@.skip(i + 1));
                proof {
                    views = views.push(cur@);
                }
                assert(old_views + (seq![cur@] + rest) =~= views + rest);
                out.push(cur);
                cur = Vec::new();
            } else {
                assert(cur@ =~= Seq::<char>::empty());
                let ghost rest = fields_from(Seq::empty(), v@.skip(i + 1));
                assert(fields_from(cur@, v@.skip(i as int)) == field_if_any(cur@) + rest);
                assert(field_if_any(cur@) + rest =~= rest);
            }
        } else {
            cur.push(c);
        }
        i = i + 1;
    }
    if cur.len() > 0 {
        proof {
            views = views.push(cur@);
        }
        out.push(cur);
    }
    assert(views =~= fields(v@));
    out
}


/// A line with its `\r` removed when it ended in `\r\n`.
pub open spec fn strip_cr(line: Seq<char>) -> Seq<char> {
    if line.len() > 0 && line.last() == '\r' {
        line.drop_last()
    } else {
        line
    }
}

/// The lines of `cur + rest`, where `cur` is a line already begun.
pub open spec fn lines_from(cur: Seq<char>, rest: Seq<char>) -> Seq<Seq<char>>
    decreases rest.len(),
{
    if rest.len() == 0 {
        field_if_any(cur)
    } else if rest[0] == '\n' {
        seq![strip_cr(cur)] + lines_from(Seq::empty(), rest.drop_first())
    } else {
        lines_from(cur.push(rest[0]), rest.drop_first())
    }
}

/// What `str::lines` yields: the text cut at each `\n`, a `\r` before a
/// `\n` dropped, with no empty line after a final `\n`.
pub open spec fn lines(s: Seq<char>) -> Seq<Seq<char>> {
    lines_from(Seq::empty(), s)
}

/// The lines of `v`, as `str::lines` cuts them.
pub fn split_lines(v: &[char]) -> (r: Vec<Vec<char>>)
    ensures
        r@.len() == lines(v@).len(),
        forall|k: int| 0 <= k < r@.len() ==> #[trigger] r@[k]@ == lines(v@)[k],
{
    let mut out: Vec<Vec<char>> = Vec::new();
    let mut cur: Vec<char> = Vec::new();
    let ghost views: Seq<Seq<char>> = Seq::empty();
    let mut i: usize = 0;
    assert(v@.skip(0) =~= v@);
    while i < v.len()
        invariant
            i <= v@.len(),
            out@.len() == views.len(),
            forall|k: int| 0 <= k < out@.len() ==> #[trigger] out@[k]@ == views[k],
            views + lines_from(cur@, v@.skip(i as int)) == lines(v@),
        decreases v@.len() - i,
    {
        let c = v[i];
        assert(v@.skip(i as int).drop_first() =~= v@.skip(i + 1));
        if c == '\n' {
            let ghost old_views = views;
            let ghost rest = lines_from(Seq::empty(), v@.skip(i + 1));
            if cur.len() > 0 && cur[cur.len() - 1] == '\r' {
                cur.pop();
            }
            proof {
                views = views.push(cur@);
            }
            assert(old_views + (seq![cur@] + rest) =~= views + rest);
            out.push(cur);
            cur = Vec::new();
        } else {
            cur.push(c);
        }
        i = i + 1;
    }
    if cur.len() > 0 {
        proof {
            views = views.push(cur@);
        }
        out.push(cur);
    }
    assert(views =~= lines(v@));
    out
}

/// `s` without its leading whitespace (`str::trim_start`).
pub open spec fn trim_start(s: Seq<char>) -> Seq<char>
    decreases s.len(),
{
    if s.len() > 0 && is_whitespace(s[0]) {
        trim_start(s.drop_first())
    } else {
        s
    }
}

/// `s` without its trailing whitespace (`str::trim_end`).
pub open spec fn trim_end(s: Seq<char>) -> Seq<char>
    decreases s.len(),
{
    if s.len() > 0 && is_whitespace(s.last()) {
        trim_end(s.drop_last())
    } else {
        s
    }
}

/// `s` without leading and trailing whitespace (`str::trim`).
pub open spec fn trim(s: Seq<char>) -> Seq<char> {
    trim_end(trim_start(s))
}

pub fn trim_start_chars(v: &[char]) -> (r: Vec<char>)
    ensures
        r@ == trim_start(v@),
{
    let mut i: usize = 0;
    assert(v@.skip(0) =~= v@);
    while i < v.len() && char_is_whitespace(v[i])
        invariant
            i <= v@.len(),
            trim_start(v@.skip(i as int)) == trim_start(v@),
        decreases v@.len() - i,
    {
        assert(v@.skip(i as int).drop_first() =~= v@.skip(i + 1));
        i = i + 1;
    }
    slice_chars(v, i, v.len())
}

pub fn trim_end_chars(v: &[char]) -> (r: Vec<char>)
    ensures
        r@ == trim_end(v@),
{
    let mut j: usize = v.len();
    assert(v@.take(v@.len() as int) =~= v@);
    while j > 0 && char_is_whitespace(v[j - 1])
        invariant
            j <= v@.len(),
            trim_end(v@.take(j as int)) == trim_end(v@),
        decreases j,
    {
        assert(v@.take(j as int).drop_last() =~= v@.take(j - 1));
        j = j - 1;
    }
    slice_chars(v, 0, j)
}

pub fn trim_chars(v: &[char]) -> (r: Vec<char>)
    ensures
        r@ == trim(v@),
{
    let t = trim_start_chars(v);
    trim_end_chars(&t)
}

/// The pieces laid end to end with `sep` between neighbours (`join`).
pub open spec fn join(pieces: Seq<Seq<char>>, sep: Seq<char>) -> Seq<char>
    decreases pieces.len(),
{
    if pieces.len() == 0 {
        Seq::empty()
    } else if pieces.len() == 1 {
        pieces[0]
    } else {
        join(pieces.drop_last(), sep) + sep + pieces.last()
    }
}

pub fn join_chars(pieces: &Vec<Vec<char>>, sep: &[char]) -> (r: Vec<char>)
    ensures
        r@ == join(pieces@.map_values(|p: Vec<char>| p@), sep@),
{
    let ghost ps = pieces@.map_values(|p: Vec<char>| p@);
    let mut out: Vec<char> = Vec::new();
    let mut i: usize = 0;
    while i < pieces.len()
        invariant
            i <= pieces@.len(),
            ps == pieces@.map_values(|p: Vec<char>| p@),
            out@ == join(ps.take(i as int), sep@),
        decreases pieces@.len() - i,
    {
        assert(ps.take(i + 1).drop_last() =~= ps.take(i as int));
        if i > 0 {
            extend_chars(&mut out, sep);
        } else {
            assert(out@ =~= Seq::<char>::empty());
        }
        extend_chars(&mut out, pieces[i].as_slice());
        i = i + 1;
    }
    assert(ps.take(pieces@.len() as int) =~= ps);
    out
}


/// The first piece of `s` cut at `c` (`str::split(c).first()`): everything
/// before the first `c`, or all of `s` when it holds none.
pub open spec fn before_first(s: Seq<char>, c: char) -> Seq<char>
    decreases s.len(),
{
    if s.len() == 0 {
        s
    } else if s[0] == c {
        Seq::empty()
    } else {
        seq![s[0]] + before_first(s.drop_first(), c)
    }
}

/// The last piece of `s` cut at `c` (`str::split(c).last()`): everything
/// after the last `c`, or all of `s` when it holds none.
pub open spec fn after_last(s: Seq<char>, c: char) -> Seq<char>
    decreases s.len(),
{
    if s.len() == 0 {
        s
    } else if s.last() == c {
        Seq::empty()
    } else {
        after_last(s.drop_last(), c).push(s.last())
    }
}

pub fn before_first_chars(v: &[char], c: char) -> (r: Vec<char>)
    ensures
        r@ == before_first(v@, c),
{
    let mut i: usize = 0;
    while i < v.len() && v[i] != c
        invariant
            i <= v@.len(),
            forall|j: int| 0 <= j < i ==> v@[j] != c,
        decreases v@.len() - i,
    {
        i = i + 1;
    }
    let r = slice_chars(v, 0, i);
    proof {
        lemma_before_first(v@, c, i as int);
    }
    r
}

proof fn lemma_before_first(s: Seq<char>, c: char, i: int)
    requires
        0 <= i <= s.len(),
        forall|j: int| 0 <= j < i ==> s[j] != c,
        i == s.len() || s[i] == c,
    ensures
        before_first(s, c) == s.take(i),
    decreases s.len(),
{
    if s.len() > 0 && i > 0 {
        lemma_before_first(s.drop_first(), c, i - 1);
        assert(s.take(i) =~= seq![s[0]] + s.drop_first().take(i - 1));
    } else if s.len() > 0 {
        assert(s.take(i) =~= Seq::<char>::empty());
    }
}

pub fn after_last_chars(v: &[char], c: char) -> (r: Vec<char>)
    ensures
        r@ == after_last(v@, c),
{
    let mut j: usize = v.len();
    while j > 0 && v[j - 1] != c
        invariant
            j <= v@.len(),
            forall|k: int| j <= k < v@.len() ==> v@[k] != c,
        decreases j,
    {
        j = j - 1;
    }
    let r = slice_chars(v, j, v.len());
    proof {
        lemma_after_last(v@, c, j as int);
    }
    r
}

proof fn lemma_after_last(s: Seq<char>, c: char, j: int)
    requires
        0 <= j <= s.len(),
        forall|k: int| j <= k < s.len() ==> s[k] != c,
        j == 0 || s[j - 1] == c,
    ensures
        after_last(s, c) == s.skip(j),
    decreases s.len(),
{
    if s.len() > 0 && j < s.len() {
        lemma_after_last(s.drop_last(), c, j);
        assert(s.skip(j) =~= s.drop_last().skip(j).push(s.last()));
    } else if s.len() > 0 {
        assert(s.skip(j) =~= Seq::<char>::empty());
    }
}


pub proof fn lemma_subrange_lacks(s: Seq<char>, a: int, b: int, c: char)
    requires
        0 <= a <= b <= s.len(),
        !s.contains(c),
    ensures
        !s.subrange(a, b).contains(c),
{
    if s.subrange(a, b).contains(c) {
        let j = choose|j: int| 0 <= j < s.subrange(a, b).len() && s.subrange(a, b)[j] == c;
        assert(s[a + j] == c);
    }
}

/// Joining in front: `a`, the separator, then the join of `q`.
pub proof fn lemma_join_front(a: Seq<char>, q: Seq<Seq<char>>, sep: Seq<char>)
    requires
        q.len() > 0,
    ensures
        join(seq![a] + q, sep) == a + sep + join(q, sep),
    decreases q.len(),
{
    let p = seq![a] + q;
    if q.len() == 1 {
        assert(p.drop_last() =~= seq![a]);
        assert(p.last() == q[0]);
        assert(join(seq![a], sep) == a);
        assert(join(q, sep) == q[0]);
    } else {
        lemma_join_front(a, q.drop_last(), sep);
        assert(p.drop_last() =~= seq![a] + q.drop_last());
        assert(p.last() == q.last());
        assert(a + sep + join(q.drop_last(), sep) + sep + q.last() =~= a + sep + (join(q.drop_last(), sep) + sep + q.last()));
    }
}

proof fn lemma_lines_without_newline(cur: Seq<char>, s: Seq<char>)
    requires
        !s.contains('\n'),
    ensures
        lines_from(cur, s) == field_if_any(cur + s),
    decreases s.len(),
{
    if s.len() == 0 {
        assert(cur + s =~= cur);
    } else {
        assert(s[0] != '\n');
        lemma_subrange_lacks(s, 1, s.len() as int, '\n');
        assert(s.drop_first() =~= s.subrange(1, s.len() as int));
        lemma_lines_without_newline(cur.push(s[0]), s.drop_first());
        assert(cur.push(s[0]) + s.drop_first() =~= cur + s);
    }
}

proof fn lemma_lines_split(cur: Seq<char>, s: Seq<char>, t: Seq<char>)
    requires
        !s.contains('\n'),
    ensures
        lines_from(cur, s + seq!['\n'] + t) == seq![strip_cr(cur + s)] + lines_from(Seq::empty(), t),
    decreases s.len(),
{
    let w = s + seq!['\n'] + t;
    if s.len() == 0 {
        assert(w[0] == '\n');
        assert(w.drop_first() =~= t);
        assert(cur + s =~= cur);
    } else {
        assert(s[0] != '\n');
        lemma_subrange_lacks(s, 1, s.len() as int, '\n');
        assert(s.drop_first() =~= s.subrange(1, s.len() as int));
        lemma_lines_split(cur.push(s[0]), s.drop_first(), t);
        assert(w[0] == s[0]);
        assert(w.drop_first() =~= s.drop_first() + seq!['\n'] + t);
        assert(cur.push(s[0]) + s.drop_first() =~= cur + s);
    }
}

/// Every piece holds neither `\n` nor `\r`.
pub open spec fn pieces_plain(p: Seq<Seq<char>>) -> bool {
    forall|i: int| 0 <= i < p.len() ==> !(#[trigger] p[i]).contains('\n') && !p[i].contains('\r')
}

/// Cutting into lines undoes joining with `\n`, for pieces without line
/// breaks of which the last is not empty.
pub proof fn lemma_lines_of_join(p: Seq<Seq<char>>)
    requires
        p.len() > 0,
        p.last().len() > 0,
        pieces_plain(p),
    ensures
        lines(join(p, seq!['\n'])) == p,
    decreases p.len(),
{
    let p0 = p[0];
    assert(!p0.contains('\n') && !p0.contains('\r'));
    if p.len() == 1 {
        lemma_lines_without_newline(Seq::empty(), p0);
        assert(Seq::<char>::empty() + p0 =~= p0);
        assert(p =~= seq![p0]);
    } else {
        let q = p.drop_first();
        assert(p =~= seq![p0] + q);
        lemma_join_front(p0, q, seq!['\n']);
        assert forall|i: int| 0 <= i < q.len() implies !(#[trigger] q[i]).contains('\n') && !q[i].contains('\r') by {
            assert(q[i] == p[i + 1]);
        }
        assert(q.last() == p.last());
        lemma_lines_of_join(q);
        lemma_lines_split(Seq::empty(), p0, join(q, seq!['\n']));
        assert(Seq::<char>::empty() + p0 =~= p0);
        if p0.len() > 0 {
            assert(p0.contains(p0.last()));
        }
        assert(strip_cr(p0) == p0);
    }
}

/// Text that is not empty has at least one line.
pub proof fn lemma_lines_nonempty(cur: Seq<char>, rest: Seq<char>)
    requires
        rest.len() > 0,
    ensures
        lines_from(cur, rest).len() > 0,
    decreases rest.len(),
{
    if rest[0] != '\n' {
        if rest.len() > 1 {
            lemma_lines_nonempty(cur.push(rest[0]), rest.drop_first());
        } else {
            assert(rest.drop_first().len() == 0);
            assert(cur.push(rest[0]).len() > 0);
            assert(lines_from(cur.push(rest[0]), rest.drop_first()).len() > 0);
        }
    }
}

/// Joining the lines with `\n` gives the text back, for text without `\r`
/// that does not end with `\n`.
pub proof fn lemma_join_of_lines(cur: Seq<char>, rest: Seq<char>)
    requires
        !cur.contains('\n'),
        !cur.contains('\r'),
        !rest.contains('\r'),
        rest.len() == 0 || rest.last() != '\n',
    ensures
        join(lines_from(cur, rest), seq!['\n']) == cur + rest,
    decreases rest.len(),
{
    if rest.len() == 0 {
        assert(cur + rest =~= cur);
        if cur.len() > 0 {
            assert(seq![cur].len() == 1);
        }
    } else {
        let r = rest.drop_first();
        lemma_subrange_lacks(rest, 1, rest.len() as int, '\r');
        assert(r =~= rest.subrange(1, rest.len() as int));
        if rest[0] == '\n' {
            assert(rest.len() > 1);
            assert(r.last() == rest.last());
            lemma_join_of_lines(Seq::empty(), r);
            lemma_lines_nonempty(Seq::empty(), r);
            if cur.len() > 0 {
                assert(cur.contains(cur.last()));
            }
            assert(strip_cr(cur) == cur);
            let q = lines_from(Seq::empty(), r);
            lemma_join_front(cur, q, seq!['\n']);
            assert(Seq::<char>::empty() + r =~= r);
            assert(cur + seq!['\n'] + r =~= cur + rest);
        } else {
            let c2 = cur.push(rest[0]);
            assert(!c2.contains('\n')) by {
                if c2.contains('\n') {
                    let j = choose|j: int| 0 <= j < c2.len() && c2[j] == '\n';
                    if j < cur.len() {
                        assert(cur[j] == '\n');
                    }
                }
            }
            assert(!c2.contains('\r')) by {
                if c2.contains('\r') {
                    let j = choose|j: int| 0 <= j < c2.len() && c2[j] == '\r';
                    if j < cur.len() {
                        assert(cur[j] == '\r');
                    } else {
                        assert(rest[0] == '\r');
                    }
                }
            }
            if r.len() > 0 {
                assert(r.last() == rest.last());
            }
            lemma_join_of_lines(c2, r);
            assert(c2 + r =~= cur + rest);
        }
    }
}

/// The lines hold no `\n`, and no `\r` when the text holds none.
pub proof fn lemma_lines_plain(cur: Seq<char>, rest: Seq<char>)
    requires
        !cur.contains('\n'),
        !cur.contains('\r'),
        !rest.contains('\r'),
    ensures
        pieces_plain(lines_from(cur, rest)),
    decreases rest.len(),
{
    if rest.len() == 0 {
    } else {
        let r = rest.drop_first();
        lemma_subrange_lacks(rest, 1, rest.len() as int, '\r');
        assert(r =~= rest.subrange(1, rest.len() as int));
        if rest[0] == '\n' {
            lemma_lines_plain(Seq::empty(), r);
            let q = lines_from(Seq::empty(), r);
            let p = seq![strip_cr(cur)] + q;
            assert(!strip_cr(cur).contains('\n') && !strip_cr(cur).contains('\r')) by {
                if cur.len() > 0 {
                    lemma_subrange_lacks(cur, 0, cur.len() - 1, '\n');
                    lemma_subrange_lacks(cur, 0, cur.len() - 1, '\r');
                    assert(cur.drop_last() =~= cur.subrange(0, cur.len() - 1));
                }
            }
            assert forall|i: int| 0 <= i < p.len() implies !(#[trigger] p[i]).contains('\n') && !p[i].contains('\r') by {
                if i > 0 {
                    assert(p[i] == q[i - 1]);
                }
            }
        } else {
            let c2 = cur.push(rest[0]);
            assert(!c2.contains('\n')) by {
                if c2.contains('\n') {
                    let j = choose|j: int| 0 <= j < c2.len() && c2[j] == '\n';
                    if j < cur.len() {
                        assert(cur[j] == '\n');
                    }
                }
            }
            assert(!c2.contains('\r')) by {
                if c2.contains('\r') {
                    let j = choose|j: int| 0 <= j < c2.len() && c2[j] == '\r';
                    if j < cur.len() {
                        assert(cur[j] == '\r');
                    } else {
                        assert(rest[0] == '\r');
                    }
                }
            }
            lemma_lines_plain(c2, r);
        }
    }
}

/// `trim_start` drops a leading run of whitespace, and what is left, if
/// anything, begins with a character that is not whitespace.
pub proof fn lemma_trim_start_shape(s: Seq<char>)
    ensures
        trim_start(s).len() <= s.len(),
        trim_start(s) == s.skip(s.len() - trim_start(s).len()),
        forall|j: int| 0 <= j < s.len() - trim_start(s).len() ==> is_whitespace(#[trigger] s[j]),
        trim_start(s).len() > 0 ==> !is_whitespace(trim_start(s)[0]),
    decreases s.len(),
{
    if s.len() > 0 && is_whitespace(s[0]) {
        lemma_trim_start_shape(s.drop_first());
        let t = trim_start(s);
        assert(s.drop_first().skip(s.drop_first().len() - t.len()) =~= s.skip(s.len() - t.len()));
        assert forall|j: int| 0 <= j < s.len() - t.len() implies is_whitespace(#[trigger] s[j]) by {
            if j > 0 {
                assert(s[j] == s.drop_first()[j - 1]);
            }
        }
    } else {
        assert(s.skip(0) =~= s);
    }
}

/// `trim_end` drops a trailing run of whitespace, and what is left, if
/// anything, ends with a character that is not whitespace.
pub proof fn lemma_trim_end_shape(s: Seq<char>)
    ensures
        trim_end(s).len() <= s.len(),
        trim_end(s) == s.take(trim_end(s).len() as int),
        trim_end(s).len() > 0 ==> !is_whitespace(trim_end(s).last()),
    decreases s.len(),
{
    if s.len() > 0 && is_whitespace(s.last()) {
        lemma_trim_end_shape(s.drop_last());
        let t = trim_end(s);
        assert(s.drop_last().take(t.len() as int) =~= s.take(t.len() as int));
    } else {
        assert(s.take(s.len() as int) =~= s);
    }
}

/// Text that begins with a character that is not whitespace keeps it all
/// under `trim_start`.
pub proof fn lemma_trim_start_keeps(s: Seq<char>)
    requires
        s.len() == 0 || !is_whitespace(s[0]),
    ensures
        trim_start(s) == s,
{
}

/// Text that ends with a character that is not whitespace keeps it all
/// under `trim_end`.
pub proof fn lemma_trim_end_keeps(s: Seq<char>)
    requires
        s.len() == 0 || !is_whitespace(s.last()),
    ensures
        trim_end(s) == s,
{
}


/// The last piece of `s` cut at `c` holds no `c`, ends `s`, and is all of
/// `s` or follows a `c` in it.
pub proof fn lemma_after_last_shape(s: Seq<char>, c: char)
    ensures
        !after_last(s, c).contains(c),
        after_last(s, c).len() <= s.len(),
        s.skip(s.len() - after_last(s, c).len()) == after_last(s, c),
        after_last(s, c).len() == s.len() || s[s.len() - after_last(s, c).len() - 1] == c,
    decreases s.len(),
{
    if s.len() > 0 && s.last() != c {
        let p = s.drop_last();
        lemma_after_last_shape(p, c);
        let a = after_last(p, c);
        let r = after_last(s, c);
        assert(r == a.push(s.last()));
        assert(s.skip(s.len() - r.len()) =~= p.skip(p.len() - a.len()).push(s.last()));
        assert(!r.contains(c)) by {
            if r.contains(c) {
                let j = choose|j: int| 0 <= j < r.len() && r[j] == c;
                if j < a.len() {
                    assert(a[j] == c);
                }
            }
        }
        if a.len() < p.len() {
            assert(s[s.len() - r.len() - 1] == p[p.len() - a.len() - 1]);
        }
    } else if s.len() > 0 {
        assert(s.skip(s.len() as int) =~= Seq::<char>::empty());
    }
}


/// Whether `w` occurs in `s` as a contiguous piece.
pub open spec fn has_infix(s: Seq<char>, w: Seq<char>) -> bool {
    exists|i: int| 0 <= i && i + w.len() <= s.len() && #[trigger] s.subrange(i, i + w.len()) == w
}

/// Whether `s` holds a character that is not whitespace.
pub open spec fn has_non_whitespace(s: Seq<char>) -> bool {
    exists|i: int| 0 <= i < s.len() && !is_whitespace(#[trigger] s[i])
}

pub proof fn lemma_infix_of_concat(a: Seq<char>, w: Seq<char>, b: Seq<char>)
    ensures
        has_infix(a + w + b, w),
{
    let s = a + w + b;
    assert(s.subrange(a.len() as int, a.len() + w.len() as int) =~= w);
}

pub proof fn lemma_infix_trans(s: Seq<char>, w: Seq<char>, v: Seq<char>)
    requires
        has_infix(s, w),
        has_infix(w, v),
    ensures
        has_infix(s, v),
{
    let i = choose|i: int| 0 <= i && i + w.len() <= s.len() && #[trigger] s.subrange(i, i + w.len()) == w;
    let j = choose|j: int| 0 <= j && j + v.len() <= w.len() && #[trigger] w.subrange(j, j + v.len()) == v;
    assert(s.subrange(i + j, i + j + v.len()) =~= v);
}

proof fn lemma_lines_concat(cur: Seq<char>, x: Seq<char>, r: Seq<char>)
    ensures
        lines_from(cur, x + seq!['\n'] + r) == lines_from(cur, x + seq!['\n']) + lines_from(Seq::empty(), r),
    decreases x.len(),
{
    let nl = seq!['\n'];
    if x.len() == 0 {
        assert(x + nl + r =~= nl + r);
        assert(x + nl =~= nl);
        assert((nl + r).drop_first() =~= r);
        assert(nl.drop_first() =~= Seq::<char>::empty());
        assert(lines_from(Seq::empty(), Seq::<char>::empty()) =~= Seq::<Seq<char>>::empty());
        assert(lines_from(cur, nl + r) == seq![strip_cr(cur)] + lines_from(Seq::empty(), r));
        assert(lines_from(cur, nl) == seq![strip_cr(cur)] + lines_from(Seq::empty(), Seq::<char>::empty()));
        assert(seq![strip_cr(cur)] + Seq::<Seq<char>>::empty() =~= seq![strip_cr(cur)]);
    } else {
        let xr = x.drop_first();
        assert((x + nl + r).drop_first() =~= xr + nl + r);
        assert((x + nl).drop_first() =~= xr + nl);
        assert((x + nl + r)[0] == x[0]);
        assert((x + nl)[0] == x[0]);
        if x[0] == '\n' {
            lemma_lines_concat(Seq::empty(), xr, r);
            let a = lines_from(Seq::empty(), xr + nl);
            let b = lines_from(Seq::empty(), r);
            assert(seq![strip_cr(cur)] + (a + b) =~= seq![strip_cr(cur)] + a + b);
        } else {
            lemma_lines_concat(cur.push(x[0]), xr, r);
        }
    }
}

proof fn lemma_lines_skip_plain(cur: Seq<char>, l: Seq<char>, r: Seq<char>)
    requires
        !l.contains('\n'),
    ensures
        lines_from(cur, l + r) == lines_from(cur + l, r),
    decreases l.len(),
{
    if l.len() == 0 {
        assert(l + r =~= r);
        assert(cur + l =~= cur);
    } else {
        assert(l[0] != '\n');
        lemma_subrange_lacks(l, 1, l.len() as int, '\n');
        assert(l.drop_first() =~= l.subrange(1, l.len() as int));
        assert((l + r).drop_first() =~= l.drop_first() + r);
        assert((l + r)[0] == l[0]);
        lemma_lines_skip_plain(cur.push(l[0]), l.drop_first(), r);
        assert(cur.push(l[0]) + l.drop_first() =~= cur + l);
    }
}

proof fn lemma_first_line_prefix(pre: Seq<char>, c: Seq<char>, r: Seq<char>)
    requires
        c.len() > 0,
        pre.len() <= c.len(),
        c.take(pre.len() as int) == pre,
        pre.len() < c.len() || pre.len() == 0 || pre.last() != '\r',
    ensures
        lines_from(c, r).len() > 0,
        pre.len() <= lines_from(c, r)[0].len(),
        lines_from(c, r)[0].take(pre.len() as int) == pre,
    decreases r.len(),
{
    if r.len() == 0 {
    } else if r[0] == '\n' {
        let s = strip_cr(c);
        if c.last() == '\r' {
            assert(s.take(pre.len() as int) =~= c.take(pre.len() as int));
        }
        assert(lines_from(c, r)[0] == s);
    } else {
        let c2 = c.push(r[0]);
        assert(c2.take(pre.len() as int) =~= c.take(pre.len() as int));
        lemma_first_line_prefix(pre, c2, r.drop_first());
    }
}

proof fn lemma_trim_start_concat(x: Seq<char>, r: Seq<char>)
    requires
        has_non_whitespace(x),
    ensures
        trim_start(x + r) == trim_start(x) + r,
    decreases x.len(),
{
    let i = choose|i: int| 0 <= i < x.len() && !is_whitespace(#[trigger] x[i]);
    assert((x + r)[0] == x[0]);
    if is_whitespace(x[0]) {
        let xr = x.drop_first();
        assert(xr[i - 1] == x[i]);
        assert(has_non_whitespace(xr));
        lemma_trim_start_concat(xr, r);
        assert((x + r).drop_first() =~= xr + r);
    }
}

proof fn lemma_trim_end_concat(s: Seq<char>, y: Seq<char>)
    requires
        has_non_whitespace(y),
    ensures
        trim_end(s + y) == s + trim_end(y),
    decreases y.len(),
{
    let i = choose|i: int| 0 <= i < y.len() && !is_whitespace(#[trigger] y[i]);
    assert((s + y).last() == y.last());
    if is_whitespace(y.last()) {
        let yp = y.drop_last();
        assert(i < y.len() - 1);
        assert(yp[i] == y[i]);
        assert(has_non_whitespace(yp));
        lemma_trim_end_concat(s, yp);
        assert((s + y).drop_last() =~= s + yp);
    }
}

proof fn lemma_trim_start_skips_whitespace(w: Seq<char>, s: Seq<char>)
    requires
        forall|i: int| 0 <= i < w.len() ==> is_whitespace(#[trigger] w[i]),
    ensures
        trim_start(w + s) == trim_start(s),
    decreases w.len(),
{
    if w.len() > 0 {
        assert((w + s)[0] == w[0]);
        assert((w + s).drop_first() =~= w.drop_first() + s);
        assert forall|i: int| 0 <= i < w.drop_first().len() implies is_whitespace(#[trigger] w.drop_first()[i]) by {
            assert(w.drop_first()[i] == w[i + 1]);
        }
        lemma_trim_start_skips_whitespace(w.drop_first(), s);
    } else {
        assert(w + s =~= s);
    }
}

proof fn lemma_join_has_piece(p: Seq<Seq<char>>, m: int, sep: Seq<char>)
    requires
        0 <= m < p.len(),
    ensures
        has_infix(join(p, sep), p[m]),
    decreases p.len(),
{
    if m == p.len() - 1 {
        if p.len() == 1 {
            lemma_infix_of_concat(Seq::empty(), p[m], Seq::empty());
            assert(Seq::<char>::empty() + p[m] + Seq::<char>::empty() =~= p[m]);
        } else {
            lemma_infix_of_concat(join(p.drop_last(), sep) + sep, p[m], Seq::empty());
            assert(join(p.drop_last(), sep) + sep + p[m] + Seq::<char>::empty() =~= join(p, sep));
        }
    } else {
        lemma_join_has_piece(p.drop_last(), m, sep);
        assert(p.drop_last()[m] == p[m]);
        let a = join(p.drop_last(), sep);
        let i = choose|i: int| 0 <= i && i + p[m].len() <= a.len() && #[trigger] a.subrange(i, i + p[m].len()) == p[m];
        let j = join(p, sep);
        assert(j == a + sep + p.last());
        assert(j.subrange(i, i + p[m].len()) =~= a.subrange(i, i + p[m].len()));
    }
}

/// A line of text keeps everything from its first character that is not
/// whitespace when its indentation is removed: for text `x`, a line break,
/// whitespace `w` and a piece `h` (no line break, beginning with a
/// character that is not whitespace, not ending in `\r`), then `r`, where
/// `x` and `r` are not all whitespace, the stripped text holds `h`.
pub proof fn lemma_strip_keeps_line(x: Seq<char>, w: Seq<char>, h: Seq<char>, r: Seq<char>)
    requires
        has_non_whitespace(x),
        forall|i: int| 0 <= i < w.len() ==> #[trigger] w[i] != '\n' && is_whitespace(w[i]),
        h.len() > 0,
        !is_whitespace(h[0]),
        !h.contains('\n'),
        h.last() != '\r',
        has_non_whitespace(r),
    ensures
        has_infix(join(lines(trim(x + seq!['\n'] + w + h + r)).map_values(|l: Seq<char>| trim_start(l)), seq!['\n']), h),
{
    let nl = seq!['\n'];
    let wh = w + h;
    let t0 = x + nl + w + h + r;
    assert(t0 =~= x + (nl + wh + r));
    lemma_trim_start_concat(x, nl + wh + r);
    let xs = trim_start(x);
    let rs = trim_end(r);
    assert(trim_start(t0) =~= (xs + nl + wh) + r);
    lemma_trim_end_concat(xs + nl + wh, r);
    let t = trim(t0);
    assert(t == xs + nl + wh + rs);
    assert(t =~= xs + nl + (wh + rs));
    lemma_lines_concat(Seq::empty(), xs, wh + rs);
    assert(!wh.contains('\n')) by {
        if wh.contains('\n') {
            let j = choose|j: int| 0 <= j < wh.len() && wh[j] == '\n';
            if j < w.len() {
                assert(w[j] == '\n');
            } else {
                assert(h[j - w.len()] == '\n');
            }
        }
    }
    lemma_lines_skip_plain(Seq::empty(), wh, rs);
    assert(Seq::<char>::empty() + wh =~= wh);
    assert(wh.take(wh.len() as int) =~= wh);
    assert(wh.last() == h.last());
    lemma_first_line_prefix(wh, wh, rs);
    let a = lines_from(Seq::empty(), xs + nl);
    let b = lines_from(wh, rs);
    let ls = lines(t);
    assert(ls == a + b);
    let m = a.len() as int;
    let e = b[0];
    assert(ls[m] == e);
    // the line begins with w + h; dropping w leaves h at its front
    let sk = e.skip(wh.len() as int);
    assert(e.take(wh.len() as int) == wh);
    assert(e =~= e.take(wh.len() as int) + sk);
    assert(wh + sk =~= w + (h + sk));
    assert(e == w + (h + sk));
    lemma_trim_start_skips_whitespace(w, h + e.skip(wh.len() as int));
    lemma_trim_start_keeps(h + e.skip(wh.len() as int));
    let te = trim_start(e);
    assert(te == h + e.skip(wh.len() as int));
    let pieces = ls.map_values(|l: Seq<char>| trim_start(l));
    assert(pieces[m] == te);
    lemma_join_has_piece(pieces, m, nl);
    lemma_infix_of_concat(Seq::empty(), h, e.skip(wh.len() as int));
    assert(Seq::<char>::empty() + h + e.skip(wh.len() as int) =~= te);
    lemma_infix_trans(join(pieces, nl), te, h);
}


pub proof fn lemma_concat_lacks(a: Seq<char>, b: Seq<char>, c: char)
    requires
        !a.contains(c),
        !b.contains(c),
    ensures
        !(a + b).contains(c),
{
    if (a + b).contains(c) {
        let j = choose|j: int| 0 <= j < (a + b).len() && (a + b)[j] == c;
        if j < a.len() {
            assert(a[j] == c);
        } else {
            assert(b[j - a.len()] == c);
        }
    }
}


/// The first piece of `s` cut at `c` holds no `c`, begins `s`, and is all
/// of `s` or is followed by a `c` in it.
pub proof fn lemma_before_first_shape(s: Seq<char>, c: char)
    ensures
        !before_first(s, c).contains(c),
        before_first(s, c).len() <= s.len(),
        s.take(before_first(s, c).len() as int) == before_first(s, c),
        before_first(s, c).len() == s.len() || s[before_first(s, c).len() as int] == c,
    decreases s.len(),
{
    if s.len() > 0 && s[0] != c {
        let r = s.drop_first();
        lemma_before_first_shape(r, c);
        let b = before_first(r, c);
        let a = before_first(s, c);
        assert(a == seq![s[0]] + b);
        assert(s.take(a.len() as int) =~= seq![s[0]] + r.take(b.len() as int));
        assert(!a.contains(c)) by {
            if a.contains(c) {
                let j = choose|j: int| 0 <= j < a.len() && a[j] == c;
                if j > 0 {
                    assert(b[j - 1] == c);
                }
            }
        }
        if b.len() < r.len() {
            assert(s[a.len() as int] == r[b.len() as int]);
        }
    } else if s.len() > 0 {
        assert(s.take(0) =~= Seq::<char>::empty());
    }
}

} // verus!
