//! Preparing pasted text: re-indenting a multi-line block to the line it lands
//! on, and recognising a minified JSON blob worth pretty-printing.

use serde_json::Value;
use vstd::prelude::*;
use crate::buffer;
use crate::chars;
use crate::text;

verus! {

/// Shortest paste `pretty_print_json` will reformat.
pub const MIN_JSON_PASTE: usize = 64;

/// Whether `v[a..b]` is all whitespace.
fn range_all_ws(v: &Vec<char>, a: usize, b: usize) -> (r: bool)
    requires
        a <= b <= v@.len(),
    ensures
        r == chars::all_ws(v@.subrange(a as int, b as int)),
{
    let ghost p = v@.subrange(a as int, b as int);
    let mut i = a;
    while i < b
        invariant
            a <= i <= b <= v@.len(),
            p == v@.subrange(a as int, b as int),
            forall|j: int| 0 <= j < i - a ==> chars::is_ws(#[trigger] p[j]),
        decreases b - i,
    {
        if !chars::char_is_whitespace(v[i]) {
            assert(p[i - a] == v@[i as int]);
            return false;
        }
        i += 1;
    }
    true
}

/// Number of leading spaces and tabs of `v[a..b]`.
fn range_lead_blank(v: &Vec<char>, a: usize, b: usize) -> (r: usize)
    requires
        a <= b <= v@.len(),
    ensures
        r == buffer::lead_blank(v@.subrange(a as int, b as int)),
{
    let ghost p = v@.subrange(a as int, b as int);
    let mut i = a;
    while i < b && (v[i] == ' ' || v[i] == '\t')
        invariant
            a <= i <= b <= v@.len(),
            p == v@.subrange(a as int, b as int),
            buffer::lead_blank_from(p, i - a) == buffer::lead_blank(p),
        decreases b - i,
    {
        i += 1;
    }
    i - a
}

// ----- splitting at line feeds -----

/// Piece `k` of `s` split at its line feeds (`str::split('\n')`); a CR stays in
/// the piece.
pub open spec fn piece(s: Seq<char>, k: int) -> Seq<char> {
    s.subrange(text::line_start(s, k as nat), text::line_end(s, k as nat))
}

/// Start and end of every piece of `v` split at its line feeds.
fn piece_bounds(v: &Vec<char>) -> (r: Vec<(usize, usize)>)
    ensures
        r@.len() == text::nlines(v@),
        forall|k: int|
            0 <= k < r@.len() ==> (#[trigger] r@[k]).0 == text::line_start(v@, k as nat) && r@[k].1
                == text::line_end(v@, k as nat),
{
    let ghost s = v@;
    let mut r: Vec<(usize, usize)> = Vec::new();
    let mut start: usize = 0;
    loop
        invariant_except_break
            r@.len() < text::nlines(s),
            start == text::line_start(s, r@.len() as nat),
        invariant
            v@ == s,
            forall|k: int|
                0 <= k < r@.len() ==> (#[trigger] r@[k]).0 == text::line_start(s, k as nat) && r@[k].1
                    == text::line_end(s, k as nat),
        ensures
            r@.len() == text::nlines(s),
        decreases s.len() - start,
    {
        let ghost k = r@.len() as nat;
        proof {
            text::lemma_line(s, k);
            text::lemma_next_nl(s, start as int);
        }
        let mut e = start;
        while e < v.len() && v[e] != '\n'
            invariant
                v@ == s,
                start <= e <= s.len(),
                text::next_nl(s, e as int) == text::next_nl(s, start as int),
            decreases s.len() - e,
        {
            e += 1;
        }
        r.push((start, e));
        if e == v.len() {
            break;
        }
        start = e + 1;
    }
    r
}

// ----- re-indenting a block -----

/// The least indentation among the non-blank pieces `1..n` of `s`; `None` when
/// all of them are blank. The first piece does not count: it often starts mid-line.
pub open spec fn common_indent(s: Seq<char>, n: int) -> Option<int>
    decreases n,
{
    if n <= 1 {
        None
    } else {
        let prev = common_indent(s, n - 1);
        let p = piece(s, n - 1);
        if chars::all_ws(p) {
            prev
        } else {
            let w = buffer::lead_blank(p);
            match prev {
                None => Some(w),
                Some(m) => Some(if w < m { w } else { m }),
            }
        }
    }
}

/// `p` without its first `n` characters; empty when it has no more than `n`.
pub open spec fn drop_chars(p: Seq<char>, n: int) -> Seq<char> {
    if n < p.len() { p.skip(n) } else { Seq::empty() }
}

/// The first `n` pieces of `s`, re-indented: the first verbatim, every later
/// one on a new line as `base` followed by the piece less `common` characters,
/// or empty when blank.
pub open spec fn reindent_lines(s: Seq<char>, n: int, base: Seq<char>, common: int) -> Seq<char>
    decreases n,
{
    if n <= 0 {
        Seq::empty()
    } else if n == 1 {
        piece(s, 0)
    } else {
        let p = piece(s, n - 1);
        reindent_lines(s, n - 1, base, common).push('\n') + if chars::all_ws(p) {
            Seq::empty()
        } else {
            base + drop_chars(p, common)
        }
    }
}

/// `s` re-indented onto `base`: the continuation lines lose their shared
/// indentation and take `base` instead.
pub open spec fn reindent_spec(s: Seq<char>, base: Seq<char>) -> Seq<char> {
    let n = text::nlines(s) as int;
    reindent_lines(s, n, base, match common_indent(s, n) { Some(m) => m, None => 0 })
}

proof fn lemma_reindent_prefix(s: Seq<char>, n: int, base: Seq<char>, common: int)
    requires
        n >= 1,
    ensures
        reindent_lines(s, n, base, common).len() >= piece(s, 0).len(),
        reindent_lines(s, n, base, common).take(piece(s, 0).len() as int) == piece(s, 0),
    decreases n,
{
    if n > 1 {
        lemma_reindent_prefix(s, n - 1, base, common);
        let prev = reindent_lines(s, n - 1, base, common);
        let k = piece(s, 0).len() as int;
        let p = piece(s, n - 1);
        let tail = if chars::all_ws(p) { Seq::<char>::empty() } else { base + drop_chars(p, common) };
        assert(reindent_lines(s, n, base, common) == prev.push('\n') + tail);
        assert((prev.push('\n') + tail).take(k) =~= prev.take(k));
    } else {
        assert(reindent_lines(s, 1, base, common) == piece(s, 0));
        assert(piece(s, 0).take(piece(s, 0).len() as int) =~= piece(s, 0));
    }
}

/// Law: re-indenting a paste leaves its first line as it is, so a paste of a
/// single line goes in unchanged.
pub proof fn law_reindent_keeps_first_line(s: Seq<char>, base: Seq<char>)
    ensures
        reindent_spec(s, base).take(piece(s, 0).len() as int) == piece(s, 0),
        !s.contains('\n') ==> reindent_spec(s, base) == s,
{
    let n = text::nlines(s) as int;
    let common = match common_indent(s, n) { Some(m) => m, None => 0 };
    lemma_reindent_prefix(s, n, base, common);
    if !s.contains('\n') {
        text::lemma_line(s, 0);
        if text::count_nl(s) > 0 {
            text::lemma_line(s, 1);
            assert(s[text::line_start(s, 1) - 1] == '\n');
        }
        assert(n == 1);
        assert(text::line_start(s, 0) == 0);
        assert(piece(s, 0) =~= s);
    }
}

proof fn lemma_lead_blank_from(t: Seq<char>, i: int)
    ensures
        buffer::lead_blank_from(t, i) >= i,
    decreases t.len() - i,
{
    if 0 <= i < t.len() && buffer::is_blank(t[i]) {
        lemma_lead_blank_from(t, i + 1);
    }
}

proof fn lemma_common_indent_nonneg(s: Seq<char>, n: int)
    ensures
        common_indent(s, n) matches Some(m) ==> m >= 0,
    decreases n,
{
    if n > 1 {
        lemma_common_indent_nonneg(s, n - 1);
        lemma_lead_blank_from(piece(s, n - 1), 0);
    }
}

proof fn lemma_reindent_count(s: Seq<char>, n: int, base: Seq<char>, common: int)
    requires
        1 <= n <= text::nlines(s),
        !base.contains('\n'),
        common >= 0,
    ensures
        text::count_nl(reindent_lines(s, n, base, common)) == n - 1,
    decreases n,
{
    let k = (n - 1) as nat;
    text::lemma_line(s, k);
    let p = piece(s, n - 1);
    assert(!p.contains('\n')) by {
        if p.contains('\n') {
            let i = choose|i: int| 0 <= i < p.len() && p[i] == '\n';
            assert(s[text::line_start(s, k) + i] == '\n');
        }
    }
    if n == 1 {
        text::lemma_count_none(p);
    } else {
        lemma_reindent_count(s, n - 1, base, common);
        let prev = reindent_lines(s, n - 1, base, common);
        let tail = if chars::all_ws(p) { Seq::<char>::empty() } else { base + drop_chars(p, common) };
        assert(!tail.contains('\n')) by {
            if tail.contains('\n') {
                let i = choose|i: int| 0 <= i < tail.len() && tail[i] == '\n';
                if i < base.len() {
                    assert(base[i] == '\n');
                } else {
                    assert(p[i - base.len() + common] == '\n');
                }
            }
        }
        text::lemma_count_none(tail);
        text::lemma_count_concat(prev.push('\n'), tail);
        assert(prev.push('\n').drop_last() =~= prev);
    }
}

/// Law: the indentation a paste's later lines share is the least indentation
/// among those that hold more than whitespace (the first line, which the
/// cursor indents, does not count); there is none when every later line is
/// blank.
pub proof fn law_common_indent(s: Seq<char>, n: int)
    requires
        n >= 1,
    ensures
        common_indent(s, n) is None <==> forall|k: int| 1 <= k < n ==> chars::all_ws(#[trigger] piece(s, k)),
        common_indent(s, n) matches Some(m) ==> forall|k: int|
            1 <= k < n && !chars::all_ws(#[trigger] piece(s, k)) ==> m <= buffer::lead_blank(piece(s, k)),
        common_indent(s, n) matches Some(m) ==> exists|k: int|
            1 <= k < n && !chars::all_ws(#[trigger] piece(s, k)) && buffer::lead_blank(piece(s, k)) == m,
    decreases n,
{
    if n > 1 {
        law_common_indent(s, n - 1);
        let p = piece(s, n - 1);
        if !chars::all_ws(p) {
            assert(!chars::all_ws(piece(s, n - 1)));
        }
        if common_indent(s, n) is None {
            assert forall|k: int| 1 <= k < n implies chars::all_ws(#[trigger] piece(s, k)) by {
                if k < n - 1 {
                } else {
                }
            }
        }
        if let Some(m) = common_indent(s, n) {
            match common_indent(s, n - 1) {
                Some(m0) => {
                    let k0 = choose|k: int|
                        1 <= k < n - 1 && !chars::all_ws(#[trigger] piece(s, k)) && buffer::lead_blank(piece(s, k)) == m0;
                    if !chars::all_ws(p) && buffer::lead_blank(p) < m0 {
                        assert(1 <= n - 1 < n && !chars::all_ws(piece(s, n - 1)) && buffer::lead_blank(piece(s, n - 1)) == m);
                    } else {
                        assert(1 <= k0 < n && !chars::all_ws(piece(s, k0)) && buffer::lead_blank(piece(s, k0)) == m);
                    }
                },
                None => {
                    assert(1 <= n - 1 < n && !chars::all_ws(piece(s, n - 1)) && buffer::lead_blank(piece(s, n - 1)) == m);
                },
            }
        }
    }
}

proof fn lemma_piece_no_nl(s: Seq<char>, k: int)
    requires
        0 <= k < text::nlines(s),
    ensures
        !piece(s, k).contains('\n'),
{
    text::lemma_line(s, k as nat);
    if piece(s, k).contains('\n') {
        let i = choose|i: int| 0 <= i < piece(s, k).len() && piece(s, k)[i] == '\n';
        assert(s[text::line_start(s, k as nat) + i] == '\n');
    }
}

/// A text without a line feed is its own single line.
proof fn lemma_piece_single(t: Seq<char>)
    requires
        !t.contains('\n'),
    ensures
        text::line_start(t, 0) == 0,
        text::line_end(t, 0) == t.len(),
        piece(t, 0) == t,
{
    text::lemma_next_nl(t, 0);
    if text::next_nl(t, 0) < t.len() {
        assert(t[text::next_nl(t, 0)] == '\n');
    }
    assert(t.subrange(0, t.len() as int) =~= t);
}

proof fn lemma_reindent_pieces(s: Seq<char>, n: int, base: Seq<char>, common: int)
    requires
        1 <= n <= text::nlines(s),
        !base.contains('\n'),
        common >= 0,
    ensures
        text::nlines(reindent_lines(s, n, base, common)) == n,
        piece(reindent_lines(s, n, base, common), 0) == piece(s, 0),
        forall|k: int|
            1 <= k < n ==> #[trigger] piece(reindent_lines(s, n, base, common), k) == if chars::all_ws(piece(s, k)) {
                Seq::<char>::empty()
            } else {
                base + drop_chars(piece(s, k), common)
            },
    decreases n,
{
    lemma_reindent_count(s, n, base, common);
    let r = reindent_lines(s, n, base, common);
    if n == 1 {
        lemma_piece_no_nl(s, 0);
        lemma_piece_single(piece(s, 0));
    } else {
        lemma_reindent_pieces(s, n - 1, base, common);
        let prev = reindent_lines(s, n - 1, base, common);
        let p = piece(s, n - 1);
        let tail = if chars::all_ws(p) { Seq::<char>::empty() } else { base + drop_chars(p, common) };
        lemma_piece_no_nl(s, n - 1);
        assert(!tail.contains('\n')) by {
            if tail.contains('\n') {
                let i = choose|i: int| 0 <= i < tail.len() && tail[i] == '\n';
                if i < base.len() {
                    assert(base[i] == '\n');
                } else {
                    assert(p[i - base.len() + common] == '\n');
                }
            }
        }
        let b = seq!['\n'] + tail;
        assert(r =~= prev + b);
        assert(r =~= prev.push('\n') + tail);
        assert forall|k: int| 0 <= k < n - 1 implies #[trigger] piece(r, k) == piece(prev, k) by {
            text::lemma_lines_prefix(prev, b, k as nat);
            text::lemma_line(prev, k as nat);
        }
        // The new last line.
        let q = prev.push('\n');
        text::lemma_count_concat(prev, seq!['\n']);
        assert(prev + seq!['\n'] =~= q);
        let one = seq!['\n'];
        assert(one.drop_last() =~= Seq::<char>::empty());
        assert(one.last() == '\n');
        assert(text::count_nl(Seq::<char>::empty()) == 0);
        assert(text::count_nl(one) == text::count_nl(one.drop_last()) + 1);
        assert(text::count_nl(one) == 1);
        text::lemma_lines_after(q, tail, 0);
        assert(text::line_start(r, (n - 1) as nat) == q.len());
        text::lemma_next_nl_concat(q, tail, 0);
        lemma_piece_single(tail);
        assert(text::line_end(r, (n - 1) as nat) == q.len() + tail.len());
        assert(piece(r, n - 1) =~= tail);
    }
}

/// Law: each later line of a re-indented paste is that line of the paste
/// with the indentation the later lines share taken off and the indentation
/// of the landing line put in front; a blank line comes out empty. With the
/// kept first line, this is every line of the result.
pub proof fn law_reindent_lines(s: Seq<char>, base: Seq<char>, k: int)
    requires
        !base.contains('\n'),
        1 <= k < text::nlines(s),
    ensures
        piece(reindent_spec(s, base), k) == if chars::all_ws(piece(s, k)) {
            Seq::<char>::empty()
        } else {
            base + piece(s, k).skip(
                match common_indent(s, text::nlines(s) as int) {
                    Some(m) => m,
                    None => 0,
                },
            )
        },
{
    let n = text::nlines(s) as int;
    let m = match common_indent(s, n) { Some(m) => m, None => 0 };
    lemma_common_indent_nonneg(s, n);
    lemma_reindent_pieces(s, n, base, m);
    assert(piece(reindent_lines(s, n, base, m), k) == if chars::all_ws(piece(s, k)) {
        Seq::<char>::empty()
    } else {
        base + drop_chars(piece(s, k), m)
    });
    if !chars::all_ws(piece(s, k)) {
        law_common_indent(s, n);
        buffer::law_lead_blank(piece(s, k));
        assert(common_indent(s, n) is Some);
        assert(m <= buffer::lead_blank(piece(s, k)));
        if m == piece(s, k).len() {
            assert(piece(s, k).skip(m) =~= Seq::<char>::empty());
        }
    }
}

/// Law: re-indenting a paste keeps its number of lines (no line is merged
/// into another, none is added), as long as the indentation it lands on is
/// itself one line.
pub proof fn law_reindent_keeps_line_count(s: Seq<char>, base: Seq<char>)
    requires
        !base.contains('\n'),
    ensures
        text::nlines(reindent_spec(s, base)) == text::nlines(s),
{
    let n = text::nlines(s) as int;
    let common = match common_indent(s, n) { Some(m) => m, None => 0 };
    lemma_common_indent_nonneg(s, n);
    lemma_reindent_count(s, n, base, common);
}

/// Re-indents a multi-line paste. The first line is left verbatim (the cursor
/// already supplies its indent). Every continuation line has the block's shared
/// minimum indentation stripped and `base` — the indentation of the line the
/// paste lands on — prefixed instead. Blank lines stay empty.
pub fn reindent_paste(text: &str, base: &str) -> (r: String)
    ensures
        r@ == reindent_spec(text@, base@),
{
    let v = chars::str_chars(text);
    let ghost s = v@;
    let bounds = piece_bounds(&v);
    let n = bounds.len();
    proof {
        assert forall|k: int| 0 <= k < n implies (#[trigger] bounds@[k]).0 <= bounds@[k].1 <= s.len() by {
            text::lemma_line(s, k as nat);
        }
    }
    // Shared indentation is measured across the continuation lines only.
    let mut common: Option<usize> = None;
    let mut k: usize = 1;
    while k < n
        invariant
            v@ == s,
            1 <= k <= n,
            n == bounds@.len(),
            n == text::nlines(s),
            forall|j: int| 0 <= j < n ==> (#[trigger] bounds@[j]).0 <= bounds@[j].1 <= s.len(),
            forall|j: int|
                0 <= j < n ==> (#[trigger] bounds@[j]).0 == text::line_start(s, j as nat) && bounds@[j].1
                    == text::line_end(s, j as nat),
            match common {
                None => common_indent(s, k as int) is None,
                Some(m) => common_indent(s, k as int) == Some(m as int),
            },
        decreases n - k,
    {
        let (a, b) = bounds[k];
        if !range_all_ws(&v, a, b) {
            let w = range_lead_blank(&v, a, b);
            common = match common {
                None => Some(w),
                Some(m) => Some(if w < m { w } else { m }),
            };
        }
        k += 1;
    }
    let c: usize = match common {
        Some(m) => m,
        None => 0,
    };
    let ghost cs = c as int;
    assert(cs == match common_indent(s, n as int) { Some(m) => m, None => 0 });
    let mut out = String::new();
    let mut k: usize = 0;
    while k < n
        invariant
            v@ == s,
            k <= n,
            n == bounds@.len(),
            n == text::nlines(s),
            forall|j: int| 0 <= j < n ==> (#[trigger] bounds@[j]).0 <= bounds@[j].1 <= s.len(),
            forall|j: int|
                0 <= j < n ==> (#[trigger] bounds@[j]).0 == text::line_start(s, j as nat) && bounds@[j].1
                    == text::line_end(s, j as nat),
            out@ == reindent_lines(s, k as int, base@, c as int),
        decreases n - k,
    {
        let (a, b) = bounds[k];
        assert(v@.subrange(a as int, b as int) == piece(s, k as int));
        if k > 0 {
            chars::string_push(&mut out, '\n');
        }
        if k == 0 {
            chars::push_range(&mut out, &v, a, b);
        } else if range_all_ws(&v, a, b) {
            assert(out@ =~= reindent_lines(s, k + 1, base@, c as int));
        } else {
            chars::string_push_str(&mut out, base);
            let st = if c < b - a { a + c } else { b };
            chars::push_range(&mut out, &v, st, b);
            assert(v@.subrange(st as int, b as int) =~= drop_chars(piece(s, k as int), c as int));
            assert(out@ =~= reindent_lines(s, k + 1, base@, c as int));
        }
        k += 1;
    }
    out
}

/// A block holding a line feed re-indents to a non-empty text.
pub proof fn lemma_reindent_nonempty(s: Seq<char>, base: Seq<char>)
    requires
        s.contains('\n'),
    ensures
        reindent_spec(s, base).len() > 0,
{
    let i = choose|i: int| 0 <= i < s.len() && s[i] == '\n';
    text::lemma_count_take_step(s, i);
    text::lemma_count_mono(s, i + 1, s.len() as int);
    text::lemma_count_full(s);
    let n = text::nlines(s) as int;
    assert(n >= 2);
    let common = match common_indent(s, n) { Some(m) => m, None => 0 };
    let p = piece(s, n - 1);
    let rest = if chars::all_ws(p) { Seq::<char>::empty() } else { base + drop_chars(p, common) };
    assert(reindent_lines(s, n, base, common) == reindent_lines(s, n - 1, base, common).push('\n') + rest);
}

// ----- JSON -----

/// One step of the scan that drops whitespace outside string literals: the
/// output so far, whether inside a string, and whether the previous character
/// was an escaping backslash.
pub open spec fn strip_step(st: (Seq<char>, bool, bool), c: char) -> (Seq<char>, bool, bool) {
    let (o, in_str, esc) = st;
    if in_str {
        if esc {
            (o.push(c), true, false)
        } else if c == '\\' {
            (o.push(c), true, true)
        } else if c == '"' {
            (o.push(c), false, false)
        } else {
            (o.push(c), true, false)
        }
    } else if c == '"' {
        (o.push(c), true, esc)
    } else if !chars::is_ws(c) {
        (o.push(c), false, esc)
    } else {
        (o, false, esc)
    }
}

/// The scan over all of `s`.
pub open spec fn strip_scan(s: Seq<char>) -> (Seq<char>, bool, bool)
    decreases s.len(),
{
    if s.len() == 0 {
        (Seq::empty(), false, false)
    } else {
        strip_step(strip_scan(s.drop_last()), s.last())
    }
}

/// `s` with every whitespace character outside JSON string literals removed.
pub open spec fn strip_json_ws(s: Seq<char>) -> Seq<char> {
    strip_scan(s).0
}

/// `text` with every whitespace char outside JSON string literals removed.
pub fn strip_json_whitespace(text: &str) -> (r: String)
    ensures
        r@ == strip_json_ws(text@),
{
    let v = chars::str_chars(text);
    let ghost s = v@;
    let mut out = String::new();
    let mut in_str = false;
    let mut escaped = false;
    let mut i: usize = 0;
    while i < v.len()
        invariant
            v@ == s,
            i <= s.len(),
            (out@, in_str, escaped) == strip_scan(s.take(i as int)),
        decreases v.len() - i,
    {
        let c = v[i];
        assert(s.take(i + 1).drop_last() =~= s.take(i as int));
        if in_str {
            chars::string_push(&mut out, c);
            if escaped {
                escaped = false;
            } else if c == '\\' {
                escaped = true;
            } else if c == '"' {
                in_str = false;
            }
        } else if c == '"' {
            in_str = true;
            chars::string_push(&mut out, c);
        } else if !chars::char_is_whitespace(c) {
            chars::string_push(&mut out, c);
        }
        i += 1;
    }
    assert(s.take(s.len() as int) =~= s);
    out
}

/// The kind of a JSON value.
#[derive(Clone, Copy, Debug, PartialEq, Eq, Structural)]
pub enum JsonKind {
    Null,
    Bool,
    Number,
    String,
    Array,
    Object,
}

/// What `serde_json::from_str::<Value>` makes of `text`, by kind: `None` when
/// it rejects the text, else the kind of the value and, for an array, the
/// kinds of its elements (empty for any other value).
pub uninterp spec fn json_kinds_of(text: Seq<char>) -> Option<(JsonKind, Seq<JsonKind>)>;

/// Whether `serde_json::from_str::<Value>` accepts `text`.
pub open spec fn json_parses(text: Seq<char>) -> bool {
    json_kinds_of(text) is Some
}

/// `serde_json::from_str::<Value>`, the value told apart by its variants (and
/// an array's elements by theirs). The result is named `json_kinds_of`.
#[verifier::external_body]
fn json_kinds(text: &str) -> (r: Option<(JsonKind, Vec<JsonKind>)>)
    ensures
        r is Some == json_kinds_of(text@) is Some,
        r matches Some((k, v)) ==> json_kinds_of(text@) == Some((k, v@)),
{
    let kind = |v: &Value| match v {
        Value::Null => JsonKind::Null,
        Value::Bool(_) => JsonKind::Bool,
        Value::Number(_) => JsonKind::Number,
        Value::String(_) => JsonKind::String,
        Value::Array(_) => JsonKind::Array,
        Value::Object(_) => JsonKind::Object,
    };
    let value: Value = serde_json::from_str(text).ok()?;
    let items = match &value { Value::Array(a) => a.iter().map(kind).collect(), _ => Vec::new() };
    Some((kind(&value), items))
}

/// What `serde_json::to_string` writes of the value `serde_json::from_str`
/// reads from `text` (`None` when either fails).
pub uninterp spec fn json_compact_of(text: Seq<char>) -> Option<Seq<char>>;

/// `serde_json::to_string` of the value parsed from `text`, named
/// `json_compact_of`.
#[verifier::external_body]
fn json_compact(text: &str) -> (r: Option<String>)
    ensures
        r.is_some() == json_compact_of(text@) is Some,
        r matches Some(c) ==> json_compact_of(text@) == Some(c@),
{
    let value: Value = serde_json::from_str(text).ok()?;
    serde_json::to_string(&value).ok()
}

/// What `serde_json::to_string_pretty` writes of the value
/// `serde_json::from_str` reads from `text` (`None` when either fails).
pub uninterp spec fn json_pretty_of(text: Seq<char>) -> Option<Seq<char>>;

/// `serde_json::to_string_pretty` of the value parsed from `text`, named
/// `json_pretty_of`.
#[verifier::external_body]
fn json_pretty(text: &str) -> (r: Option<String>)
    ensures
        r.is_some() == json_pretty_of(text@) is Some,
        r matches Some(c) ==> json_pretty_of(text@) == Some(c@),
{
    let value: Value = serde_json::from_str(text).ok()?;
    serde_json::to_string_pretty(&value).ok()
}

/// A JSON object, or a non-empty array of objects.
pub open spec fn shape_ok_spec(kinds: (JsonKind, Seq<JsonKind>)) -> bool {
    kinds.0 == JsonKind::Object || (kinds.0 == JsonKind::Array && kinds.1.len() > 0 && forall|i: int|
        0 <= i < kinds.1.len() ==> kinds.1[i] == JsonKind::Object)
}

/// Whether a parsed value has the shape a pasted blob is reformatted for.
pub fn json_shape_ok(kind: JsonKind, items: &Vec<JsonKind>) -> (r: bool)
    ensures
        r == shape_ok_spec((kind, items@)),
{
    if kind == JsonKind::Object {
        return true;
    }
    if kind != JsonKind::Array || items.len() == 0 {
        return false;
    }
    let mut i: usize = 0;
    while i < items.len()
        invariant
            kind == JsonKind::Array,
            items@.len() > 0,
            i <= items@.len(),
            forall|j: int| 0 <= j < i ==> items@[j] == JsonKind::Object,
        decreases items.len() - i,
    {
        if items[i] != JsonKind::Object {
            assert(items@[i as int] != JsonKind::Object);
            return false;
        }
        i += 1;
    }
    true
}

/// The text a paste is replaced by: its pretty form when the trimmed paste is
/// a candidate, parses to an object or a non-empty array of objects, and
/// re-serializes compactly to itself minus insignificant whitespace.
pub open spec fn pretty_spec(text: Seq<char>) -> Option<Seq<char>> {
    let t = chars::trim_ws(text);
    if json_candidate(text) && json_parses(t) && accept_spec(text, shape_ok_spec(json_kinds_of(t)->0), json_compact_of(t)) {
        json_pretty_of(t)
    } else {
        None
    }
}

/// Whether a paste is shaped like a minified JSON blob before any parsing: once
/// trimmed, a single line of at least `MIN_JSON_PASTE` characters opening with
/// `{` or `[`.
pub open spec fn json_candidate(text: Seq<char>) -> bool {
    let t = chars::trim_ws(text);
    &&& !t.contains('\n')
    &&& t.len() >= MIN_JSON_PASTE
    &&& (t[0] == '{' || t[0] == '[')
}

/// Whether a paste shaped like a JSON blob (`json_candidate`) is turned
/// into pretty JSON, given what parsing it showed: `shape_ok` when the value
/// is an object or a non-empty array of objects, and `compact`, its compact
/// re-serialization. It is only when that reproduces the trimmed paste minus
/// its insignificant whitespace, so nothing of the paste is lost.
pub open spec fn accept_spec(text: Seq<char>, shape_ok: bool, compact: Option<Seq<char>>) -> bool {
    &&& json_candidate(text)
    &&& shape_ok
    &&& compact == Some(strip_json_ws(chars::trim_ws(text)))
}

/// Decides, from the paste and what parsing it gave, whether the paste is
/// replaced by its pretty form.
pub fn accept_json_paste(text: &str, shape_ok: bool, compact: Option<&str>) -> (r: bool)
    ensures
        r == accept_spec(text@, shape_ok, match compact { Some(c) => Some(c@), None => None }),
{
    if !is_json_candidate(text) || !shape_ok {
        return false;
    }
    match compact {
        Some(c) => {
            let trimmed = chars::trim_text(text);
            let stripped = strip_json_whitespace(trimmed.as_str());
            chars::same_text(c, stripped.as_str())
        },
        None => false,
    }
}

/// Whether `text` is shaped like a minified JSON blob (`json_candidate`).
pub fn is_json_candidate(text: &str) -> (r: bool)
    ensures
        r == json_candidate(text@),
{
    let trimmed = chars::trim_text(text);
    let n = chars::char_count(trimmed.as_str());
    if chars::has_newline(trimmed.as_str()) || n < MIN_JSON_PASTE {
        return false;
    }
    let v = chars::str_chars(trimmed.as_str());
    v[0] == '{' || v[0] == '['
}

/// Pretty-prints a pasted minified JSON blob so it lands readable instead of
/// as one giant line. Fires only when the paste is, as a whole: a single line
/// of at least `MIN_JSON_PASTE` characters; a JSON object, or a non-empty
/// array of objects; and losslessly representable — re-serializing the parsed
/// value compactly must reproduce the input minus insignificant whitespace.
pub fn pretty_print_json(text: &str) -> (r: Option<String>)
    ensures
        match r {
            Some(p) => pretty_spec(text@) == Some(p@),
            None => pretty_spec(text@) is None,
        },
{
    if !is_json_candidate(text) {
        return None;
    }
    let trimmed = chars::trim_text(text);
    let (kind, items) = match json_kinds(trimmed.as_str()) {
        Some(k) => k,
        None => return None,
    };
    let shape_ok = json_shape_ok(kind, &items);
    let compact = if shape_ok { json_compact(trimmed.as_str()) } else { None };
    let accepted = match &compact {
        Some(c) => accept_json_paste(text, shape_ok, Some(c.as_str())),
        None => accept_json_paste(text, shape_ok, None),
    };
    if accepted {
        json_pretty(trimmed.as_str())
    } else {
        None
    }
}

/// Law: a paste shaped like minified JSON whose compact form reproduces it is
/// pretty-printed exactly when its value is an object or a non-empty array
/// whose items are all objects; an empty array, or an array holding anything
/// but objects, or any other value, is pasted as it is.
pub proof fn law_json_blob_shapes(text: Seq<char>, kind: JsonKind, items: Seq<JsonKind>)
    requires
        json_candidate(text),
        json_kinds_of(chars::trim_ws(text)) == Some((kind, items)),
        json_compact_of(chars::trim_ws(text)) == Some(strip_json_ws(chars::trim_ws(text))),
    ensures
        kind == JsonKind::Object ==> pretty_spec(text) == json_pretty_of(chars::trim_ws(text)),
        kind == JsonKind::Array && items.len() > 0 && (forall|i: int|
            0 <= i < items.len() ==> items[i] == JsonKind::Object) ==> pretty_spec(text) == json_pretty_of(
            chars::trim_ws(text),
        ),
        kind == JsonKind::Array && items.len() == 0 ==> pretty_spec(text) is None,
        kind == JsonKind::Array && (exists|i: int| 0 <= i < items.len() && items[i] != JsonKind::Object)
            ==> pretty_spec(text) is None,
        kind != JsonKind::Object && kind != JsonKind::Array ==> pretty_spec(text) is None,
{
}

} // verus!
