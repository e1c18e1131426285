//! The mathematical model of the document text: a sequence of characters in
//! which only a line feed breaks lines (a CR before it belongs to the break).

use vstd::prelude::*;

verus! {

/// Number of line feeds in `s`.
pub open spec fn count_nl(s: Seq<char>) -> nat
    decreases s.len(),
{
    if s.len() == 0 {
        0
    } else {
        count_nl(s.drop_last()) + if s.last() == '\n' { 1nat } else { 0nat }
    }
}

/// Number of lines of `s`: one more than its line feeds.
pub open spec fn nlines(s: Seq<char>) -> nat {
    count_nl(s) + 1
}

/// Index of the first line feed at or after `from`, or `s.len()` if there is none.
pub open spec fn next_nl(s: Seq<char>, from: int) -> int
    decreases s.len() - from,
{
    if from >= s.len() {
        s.len() as int
    } else if s[from] == '\n' {
        from
    } else {
        next_nl(s, from + 1)
    }
}

/// Index of the first character of line `k`; `s.len()` for every line past the last.
pub open spec fn line_start(s: Seq<char>, k: nat) -> int
    decreases k,
{
    if k == 0 {
        0
    } else {
        let p = next_nl(s, line_start(s, (k - 1) as nat));
        if p >= s.len() {
            s.len() as int
        } else {
            p + 1
        }
    }
}

/// Index of the line feed that ends line `k` (or `s.len()` for the last line).
pub open spec fn line_end(s: Seq<char>, k: nat) -> int {
    next_nl(s, line_start(s, k))
}

/// Line `k` with its terminator, as the text stores it.
pub open spec fn raw_line(s: Seq<char>, k: nat) -> Seq<char> {
    s.subrange(line_start(s, k), line_start(s, k + 1))
}

/// `t` without its trailing run of CR / LF characters.
pub open spec fn trim_eol(t: Seq<char>) -> Seq<char>
    decreases t.len(),
{
    if t.len() > 0 && (t.last() == '\n' || t.last() == '\r') {
        trim_eol(t.drop_last())
    } else {
        t
    }
}

/// The text of line `k` without its line ending; empty past the last line.
pub open spec fn line_text(s: Seq<char>, k: int) -> Seq<char> {
    if 0 <= k < nlines(s) {
        trim_eol(raw_line(s, k as nat))
    } else {
        Seq::empty()
    }
}

/// Character length of line `k` without its line ending.
pub open spec fn line_len(s: Seq<char>, k: int) -> int {
    line_text(s, k).len() as int
}

/// The kind of terminator line `k` ends with: 0 for none (the last line, or
/// past it), 1 for "\n", 2 for "\r\n".
pub open spec fn ending_kind(s: Seq<char>, k: int) -> int {
    if 0 <= k < nlines(s) {
        let r = raw_line(s, k as nat);
        if r.len() == 0 || r.last() != '\n' {
            0
        } else if r.len() >= 2 && r[r.len() - 2] == '\r' {
            2
        } else {
            1
        }
    } else {
        0
    }
}

/// The characters of a terminator kind.
pub open spec fn ending_chars(kind: int) -> Seq<char> {
    if kind == 2 {
        seq!['\r', '\n']
    } else if kind == 1 {
        seq!['\n']
    } else {
        Seq::empty()
    }
}

/// The terminator of line `k`: "\r\n", "\n", or "" for the last line.
pub open spec fn line_ending(s: Seq<char>, k: int) -> Seq<char> {
    ending_chars(ending_kind(s, k))
}

/// Number of UTF-16 code units that encode `s`.
pub open spec fn utf16_len(s: Seq<char>) -> nat
    decreases s.len(),
{
    if s.len() == 0 {
        0
    } else {
        utf16_len(s.drop_last()) + if (s.last() as u32) >= 0x10000 { 2nat } else { 1nat }
    }
}

// ----- lemmas -----

pub proof fn lemma_count_take_step(s: Seq<char>, i: int)
    requires
        0 <= i < s.len(),
    ensures
        count_nl(s.take(i + 1)) == count_nl(s.take(i)) + if s[i] == '\n' { 1nat } else { 0nat },
{
    assert(s.take(i + 1).drop_last() =~= s.take(i));
}

pub proof fn lemma_count_full(s: Seq<char>)
    ensures
        count_nl(s.take(s.len() as int)) == count_nl(s),
{
    assert(s.take(s.len() as int) =~= s);
}

/// The line-feed count of a prefix grows with the prefix.
pub proof fn lemma_count_mono(s: Seq<char>, i: int, j: int)
    requires
        0 <= i <= j <= s.len(),
    ensures
        count_nl(s.take(i)) <= count_nl(s.take(j)),
    decreases j - i,
{
    if i < j {
        lemma_count_mono(s, i, j - 1);
        lemma_count_take_step(s, j - 1);
    }
}

/// Without a line feed in `[a, b)`, the prefixes up to `a` and `b` have the same count.
pub proof fn lemma_count_flat(s: Seq<char>, a: int, b: int)
    requires
        0 <= a <= b <= s.len(),
        forall|j: int| a <= j < b ==> s[j] != '\n',
    ensures
        count_nl(s.take(a)) == count_nl(s.take(b)),
    decreases b - a,
{
    if a < b {
        lemma_count_flat(s, a, b - 1);
        lemma_count_take_step(s, b - 1);
    }
}

pub proof fn lemma_next_nl(s: Seq<char>, from: int)
    requires
        0 <= from <= s.len(),
    ensures
        from <= next_nl(s, from) <= s.len(),
        forall|j: int| from <= j < next_nl(s, from) ==> s[j] != '\n',
        next_nl(s, from) < s.len() ==> s[next_nl(s, from)] == '\n',
    decreases s.len() - from,
{
    if from < s.len() && s[from] != '\n' {
        lemma_next_nl(s, from + 1);
    }
}

/// Where line `k` starts and ends, and how it meets line `k + 1`.
pub proof fn lemma_line(s: Seq<char>, k: nat)
    requires
        k < nlines(s),
    ensures
        0 <= line_start(s, k) <= line_end(s, k) <= s.len(),
        count_nl(s.take(line_start(s, k))) == k,
        count_nl(s.take(line_end(s, k))) == k,
        k > 0 ==> s[line_start(s, k) - 1] == '\n',
        forall|j: int| line_start(s, k) <= j < line_end(s, k) ==> s[j] != '\n',
        k + 1 < nlines(s) ==> line_end(s, k) < s.len() && s[line_end(s, k)] == '\n'
            && line_start(s, k + 1) == line_end(s, k) + 1,
        k + 1 == nlines(s) ==> line_end(s, k) == s.len() && line_start(s, k + 1) == s.len(),
    decreases k,
{
    if k > 0 {
        lemma_line(s, (k - 1) as nat);
        lemma_count_take_step(s, line_end(s, (k - 1) as nat));
    } else {
        assert(s.take(0) =~= Seq::<char>::empty());
    }
    let st = line_start(s, k);
    lemma_next_nl(s, st);
    let en = line_end(s, k);
    lemma_count_flat(s, st, en);
    lemma_count_full(s);
    if en < s.len() {
        lemma_count_take_step(s, en);
        lemma_count_mono(s, en + 1, s.len() as int);
    } else {
        assert(count_nl(s) == k);
    }
}

/// Every position lies on the line that its prefix's line-feed count names.
pub proof fn lemma_pos_line(s: Seq<char>, idx: int)
    requires
        0 <= idx <= s.len(),
    ensures
        count_nl(s.take(idx)) < nlines(s),
        line_start(s, count_nl(s.take(idx))) <= idx <= line_end(s, count_nl(s.take(idx))),
    decreases idx,
{
    lemma_count_full(s);
    lemma_count_mono(s, idx, s.len() as int);
    if idx > 0 {
        lemma_pos_line(s, idx - 1);
        let k = count_nl(s.take(idx - 1));
        lemma_line(s, k);
        lemma_count_take_step(s, idx - 1);
        if s[idx - 1] == '\n' {
            assert(idx - 1 == line_end(s, k));
            lemma_line(s, k + 1);
        }
    } else {
        assert(s.take(0) =~= Seq::<char>::empty());
        lemma_line(s, 0);
    }
}

/// Line starts grow with the line number and never pass the end of the text.
pub proof fn lemma_line_start_mono(s: Seq<char>, a: nat, b: nat)
    requires
        a <= b,
    ensures
        0 <= line_start(s, a) <= line_start(s, b) <= s.len(),
    decreases b,
{
    if b > 0 {
        if a < b {
            lemma_line_start_mono(s, a, (b - 1) as nat);
        } else {
            lemma_line_start_mono(s, (b - 1) as nat, (b - 1) as nat);
        }
        lemma_next_nl(s, line_start(s, (b - 1) as nat));
    }
}

/// The raw line is the text between the line start and its end, plus the line feed.
pub proof fn lemma_raw_line(s: Seq<char>, k: nat)
    requires
        k < nlines(s),
    ensures
        raw_line(s, k) =~= if k + 1 < nlines(s) {
            s.subrange(line_start(s, k), line_end(s, k)).push('\n')
        } else {
            s.subrange(line_start(s, k), line_end(s, k))
        },
{
    lemma_line(s, k);
}

/// Trimming line endings keeps a prefix.
pub proof fn lemma_trim_eol(t: Seq<char>)
    ensures
        text_prefix(trim_eol(t), t),
    decreases t.len(),
{
    if t.len() > 0 && (t.last() == '\n' || t.last() == '\r') {
        lemma_trim_eol(t.drop_last());
        let r = trim_eol(t.drop_last());
        assert(t.drop_last().take(r.len() as int) =~= t.take(r.len() as int));
    } else {
        assert(t.take(t.len() as int) =~= t);
    }
}

/// `a` is a prefix of `b`.
pub open spec fn text_prefix(a: Seq<char>, b: Seq<char>) -> bool {
    a.len() <= b.len() && a == b.take(a.len() as int)
}

/// Line `k`'s text is the text from its start, of its length, up to its end.
pub proof fn lemma_line_text(s: Seq<char>, k: nat)
    requires
        k < nlines(s),
    ensures
        line_start(s, k) + line_len(s, k as int) <= line_end(s, k),
        line_text(s, k as int) == s.subrange(line_start(s, k), line_start(s, k) + line_len(s, k as int)),
{
    lemma_raw_line(s, k);
    lemma_line(s, k);
    let content = s.subrange(line_start(s, k), line_end(s, k));
    if k + 1 < nlines(s) {
        assert(content.push('\n').drop_last() =~= content);
    }
    assert(trim_eol(raw_line(s, k)) == trim_eol(content));
    lemma_trim_eol(content);
    assert(content.take(line_len(s, k as int)) =~= s.subrange(line_start(s, k), line_start(s, k) + line_len(s, k as int)));
}

/// Every carriage return of `s` comes just before a line feed.
pub open spec fn cr_before_lf(s: Seq<char>) -> bool {
    forall|i: int| 0 <= i < s.len() && #[trigger] s[i] == '\r' ==> i + 1 < s.len() && s[i + 1] == '\n'
}

/// A run without line breaks keeps all of itself when trimmed.
proof fn lemma_trim_clean(t: Seq<char>)
    requires
        forall|j: int| 0 <= j < t.len() ==> #[trigger] t[j] != '\n' && t[j] != '\r',
    ensures
        trim_eol(t) == t,
{
    if t.len() > 0 {
        assert(t[t.len() - 1] == t.last());
    }
}

/// In a text whose carriage returns all come just before a line feed, each
/// line is its text followed by its terminator.
pub proof fn lemma_line_parts(s: Seq<char>, k: nat)
    requires
        cr_before_lf(s),
        k < nlines(s),
    ensures
        raw_line(s, k) == line_text(s, k as int) + line_ending(s, k as int),
{
    lemma_raw_line(s, k);
    lemma_line(s, k);
    let st = line_start(s, k);
    let en = line_end(s, k);
    let content = s.subrange(st, en);
    let r = raw_line(s, k);
    if content.len() > 0 && content.last() == '\r' {
        assert(s[en - 1] == '\r');
        assert(en < s.len() && s[en] == '\n');
        assert(k + 1 < nlines(s));
        let x = content.drop_last();
        assert forall|j: int| 0 <= j < x.len() implies #[trigger] x[j] != '\n' && x[j] != '\r' by {
            assert(x[j] == s[st + j]);
            if s[st + j] == '\r' {
                assert(s[st + j + 1] == '\n');
            }
        }
        lemma_trim_clean(x);
        assert(r =~= x.push('\r').push('\n'));
        assert(r.drop_last() =~= x.push('\r'));
        assert(x.push('\r').drop_last() =~= x);
        assert(r.last() == '\n');
        assert(trim_eol(r) == trim_eol(x.push('\r')));
        assert(x.push('\r').last() == '\r');
        assert(trim_eol(x.push('\r')) == trim_eol(x));
        assert(trim_eol(r) == x);
        assert(r[r.len() - 2] == '\r');
        assert(r =~= x + seq!['\r', '\n']);
    } else {
        assert forall|j: int| 0 <= j < content.len() implies #[trigger] content[j] != '\n' && content[j] != '\r' by {
            assert(content[j] == s[st + j]);
            if s[st + j] == '\r' {
                assert(s[st + j + 1] == '\n');
                assert(st + j + 1 == en);
                assert(content.last() == '\r');
            }
        }
        lemma_trim_clean(content);
        if k + 1 < nlines(s) {
            assert(r.drop_last() =~= content);
            if r.len() >= 2 {
                assert(r[r.len() - 2] == content.last());
            }
            assert(r =~= content + seq!['\n']);
        } else {
            if r.len() > 0 {
                assert(r.last() == content[content.len() - 1]);
            }
            assert(r =~= content + Seq::<char>::empty());
        }
    }
}

pub proof fn lemma_utf16_append(a: Seq<char>, b: Seq<char>)
    ensures
        utf16_len(a + b) == utf16_len(a) + utf16_len(b),
    decreases b.len(),
{
    if b.len() > 0 {
        lemma_utf16_append(a, b.drop_last());
        assert((a + b).drop_last() =~= a + b.drop_last());
    } else {
        assert(a + b =~= a);
    }
}

pub proof fn lemma_utf16_take_mono(s: Seq<char>, i: int, j: int)
    requires
        0 <= i <= j <= s.len(),
    ensures
        utf16_len(s.take(i)) <= utf16_len(s.take(j)),
        utf16_len(s.take(j)) == utf16_len(s.take(i)) + utf16_len(s.subrange(i, j)),
{
    lemma_utf16_append(s.take(i), s.subrange(i, j));
    assert(s.take(i) + s.subrange(i, j) =~= s.take(j));
}

/// Every character takes at least one UTF-16 code unit.
pub proof fn lemma_utf16_ge_len(s: Seq<char>)
    ensures
        utf16_len(s) >= s.len(),
    decreases s.len(),
{
    if s.len() > 0 {
        lemma_utf16_ge_len(s.drop_last());
    }
}

/// The line feeds of two texts joined are those of each.
pub proof fn lemma_count_concat(a: Seq<char>, b: Seq<char>)
    ensures
        count_nl(a + b) == count_nl(a) + count_nl(b),
    decreases b.len(),
{
    if b.len() > 0 {
        lemma_count_concat(a, b.drop_last());
        assert((a + b).drop_last() =~= a + b.drop_last());
    } else {
        assert(a + b =~= a);
    }
}

/// A text without a line feed counts none.
pub proof fn lemma_count_none(s: Seq<char>)
    requires
        !s.contains('\n'),
    ensures
        count_nl(s) == 0,
    decreases s.len(),
{
    if s.len() > 0 {
        assert(!s.drop_last().contains('\n')) by {
            if s.drop_last().contains('\n') {
                let i = choose|i: int| 0 <= i < s.drop_last().len() && s.drop_last()[i] == '\n';
                assert(s[i] == '\n');
            }
        }
        lemma_count_none(s.drop_last());
        assert(s[s.len() - 1] != '\n');
    }
}

/// Searching for a line feed inside `q` of `p + q` finds what searching `q` finds.
pub proof fn lemma_next_nl_concat(p: Seq<char>, q: Seq<char>, i: int)
    requires
        0 <= i <= q.len(),
    ensures
        next_nl(p + q, p.len() + i) == p.len() + next_nl(q, i),
    decreases q.len() - i,
{
    if i < q.len() {
        assert((p + q)[p.len() + i] == q[i]);
        if q[i] != '\n' {
            lemma_next_nl_concat(p, q, i + 1);
        }
    }
}

/// A text that is empty or ends with a line feed starts a new line right
/// after itself.
pub proof fn lemma_line_start_after(p: Seq<char>, q: Seq<char>)
    requires
        p.len() == 0 || p.last() == '\n',
    ensures
        line_start(p + q, count_nl(p)) == p.len(),
{
    let t = p + q;
    assert(t.take(p.len() as int) =~= p);
    lemma_pos_line(t, p.len() as int);
    let c = count_nl(p);
    lemma_line(t, c);
    if line_start(t, c) < p.len() {
        assert(t[p.len() - 1] == '\n');
    }
}

/// One line further into `p + q` is one line further into `q`.
proof fn lemma_line_start_step(p: Seq<char>, q: Seq<char>, k: nat, j: nat)
    requires
        line_start(p + q, k) == p.len() + line_start(q, j),
    ensures
        line_start(p + q, k + 1) == p.len() + line_start(q, j + 1),
{
    let t = p + q;
    let lq = line_start(q, j);
    lemma_line_start_mono(q, j, j + 1);
    lemma_next_nl_concat(p, q, lq);
    lemma_next_nl(q, lq);
    assert(((k + 1) - 1) as nat == k);
    assert(((j + 1) - 1) as nat == j);
    assert(line_start(t, k + 1) == {
        let n = next_nl(t, line_start(t, k));
        if n >= t.len() { t.len() as int } else { n + 1 }
    });
    assert(line_start(q, j + 1) == {
        let n = next_nl(q, line_start(q, j));
        if n >= q.len() { q.len() as int } else { n + 1 }
    });
}

/// After a text that ends a line, the lines of `p + q` are those of `q`.
pub proof fn lemma_lines_after(p: Seq<char>, q: Seq<char>, j: nat)
    requires
        p.len() == 0 || p.last() == '\n',
    ensures
        line_start(p + q, count_nl(p) + j) == p.len() + line_start(q, j),
        nlines(p + q) == count_nl(p) + nlines(q),
        j < nlines(q) ==> raw_line(p + q, count_nl(p) + j) == raw_line(q, j),
        j < nlines(q) ==> line_text(p + q, (count_nl(p) + j) as int) == line_text(q, j as int),
        j < nlines(q) ==> ending_kind(p + q, (count_nl(p) + j) as int) == ending_kind(q, j as int),
    decreases j,
{
    let t = p + q;
    let c = count_nl(p);
    lemma_count_concat(p, q);
    if j == 0 {
        lemma_line_start_after(p, q);
    } else {
        lemma_lines_after(p, q, (j - 1) as nat);
        lemma_line_start_step(p, q, (c + j - 1) as nat, (j - 1) as nat);
    }
    lemma_line_start_step(p, q, c + j, j);
    lemma_line_start_mono(q, j, j + 1);
    assert(t.subrange(p.len() + line_start(q, j), p.len() + line_start(q, j + 1)) =~= q.subrange(
        line_start(q, j),
        line_start(q, j + 1),
    ));
}

/// `trim_eol` leaves nothing to trim.
pub proof fn lemma_trim_eol_idem(t: Seq<char>)
    ensures
        trim_eol(trim_eol(t)) == trim_eol(t),
        trim_eol(t).len() == 0 || (trim_eol(t).last() != '\n' && trim_eol(t).last() != '\r'),
    decreases t.len(),
{
    if t.len() > 0 && (t.last() == '\n' || t.last() == '\r') {
        lemma_trim_eol_idem(t.drop_last());
    }
}

/// The first line of `l + e + rest`, for a line text `l` (no line feed, no
/// trailing CR) and a terminator `e`, is `l` ending in `e`.
pub proof fn lemma_first_line(l: Seq<char>, e: Seq<char>, rest: Seq<char>)
    requires
        !l.contains('\n'),
        trim_eol(l) == l,
        e == seq!['\n'] || e == seq!['\r', '\n'],
    ensures
        count_nl(l + e) == 1,
        (l + e).last() == '\n',
        line_start(l + e + rest, 1) == (l + e).len(),
        line_text(l + e + rest, 0) == l,
        ending_chars(ending_kind(l + e + rest, 0)) == e,
        raw_line(l + e + rest, 0) == l + e,
{
    let t = l + e + rest;
    let le = l + e;
    lemma_count_none(l);
    lemma_count_concat(l, e);
    if e.len() == 2 {
        assert(e.drop_last() =~= seq!['\r']);
        assert(seq!['\r'].drop_last() =~= Seq::<char>::empty());
        assert(count_nl(seq!['\r']) == count_nl(Seq::<char>::empty()) + 0);
        assert(count_nl(e) == count_nl(e.drop_last()) + 1);
    } else {
        assert(e.drop_last() =~= Seq::<char>::empty());
        assert(count_nl(e) == count_nl(e.drop_last()) + 1);
    }
    assert(count_nl(le) == 1);
    assert(t =~= le + rest);
    lemma_line_start_after(le, rest);
    lemma_count_concat(le, rest);
    assert(line_start(t, 0) == 0);
    lemma_line(t, 0);
    assert(raw_line(t, 0) =~= le);
    lemma_trim_eol_idem(l);
    if e.len() == 2 {
        assert(le.drop_last() =~= l.push('\r'));
        assert(l.push('\r').drop_last() =~= l);
        assert(trim_eol(le) == trim_eol(l.push('\r')));
    } else {
        assert(le.drop_last() =~= l);
        if l.len() > 0 {
            assert(le[le.len() - 2] == l.last());
        }
    }
}

/// Searching `a + b` from inside `a` finds what searching `a` finds, or, when
/// `a` holds no further line feed, what searching `b` finds.
pub proof fn lemma_next_nl_prefix(a: Seq<char>, b: Seq<char>, i: int)
    requires
        0 <= i <= a.len(),
    ensures
        next_nl(a, i) < a.len() ==> next_nl(a + b, i) == next_nl(a, i),
        next_nl(a, i) >= a.len() ==> next_nl(a + b, i) == a.len() + next_nl(b, 0),
    decreases a.len() - i,
{
    if i < a.len() {
        assert((a + b)[i] == a[i]);
        if a[i] != '\n' {
            lemma_next_nl_prefix(a, b, i + 1);
        }
    } else {
        lemma_next_nl_concat(a, b, 0);
    }
}

/// The lines of `a` start at the same places in `a + b`; each but the last
/// ends there too, and the last ends where `b` starts when `b` opens with a
/// line feed.
pub proof fn lemma_lines_prefix(a: Seq<char>, b: Seq<char>, k: nat)
    requires
        k < nlines(a),
    ensures
        line_start(a + b, k) == line_start(a, k),
        k + 1 < nlines(a) ==> line_end(a + b, k) == line_end(a, k),
        k + 1 == nlines(a) && b.len() > 0 && b[0] == '\n' ==> line_end(a + b, k) == a.len(),
    decreases k,
{
    lemma_line(a, k);
    if k > 0 {
        lemma_lines_prefix(a, b, (k - 1) as nat);
        lemma_line(a, (k - 1) as nat);
        lemma_next_nl_prefix(a, b, line_start(a, (k - 1) as nat));
    }
    lemma_next_nl_prefix(a, b, line_start(a, k));
    if k + 1 == nlines(a) && b.len() > 0 && b[0] == '\n' {
        assert(next_nl(b, 0) == 0);
    }
}

} // verus!
