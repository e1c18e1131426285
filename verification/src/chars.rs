//! Character classes and string building blocks from the standard library.

use vstd::prelude::*;

verus! {

/// Unicode `White_Space`, the property `char::is_whitespace` tests.
pub open spec fn is_ws(c: char) -> bool {
    let u = c as u32;
    (0x9 <= u <= 0xD) || u == 0x20 || u == 0x85 || u == 0xA0 || u == 0x1680 || (0x2000 <= u
        <= 0x200A) || u == 0x2028 || u == 0x2029 || u == 0x202F || u == 0x205F || u == 0x3000
}

/// General category `Cc`, the property `char::is_control` tests.
pub open spec fn is_ctrl(c: char) -> bool {
    let u = c as u32;
    u <= 0x1F || (0x7F <= u <= 0x9F)
}

/// What `char::is_alphanumeric` returns (Unicode `Alphabetic` or `Numeric`).
pub uninterp spec fn is_alnum(c: char) -> bool;

/// `char::is_whitespace`: true exactly for the `White_Space` characters.
#[verifier::external_body]
pub(crate) fn char_is_whitespace(c: char) -> (b: bool)
    ensures
        b == is_ws(c),
{
    c.is_whitespace()
}

/// `char::is_control`: true exactly for the `Cc` characters.
#[verifier::external_body]
pub(crate) fn char_is_control(c: char) -> (b: bool)
    ensures
        b == is_ctrl(c),
{
    c.is_control()
}

/// `char::is_alphanumeric`, named `is_alnum`; on ASCII its documentation
/// fixes the answer: the letters `A`-`Z`, `a`-`z` and the digits `0`-`9`.
#[verifier::external_body]
pub(crate) fn char_is_alphanumeric(c: char) -> (b: bool)
    ensures
        b == is_alnum(c),
        (c as u32) < 128 ==> (b <==> (0x41 <= (c as u32) <= 0x5A || 0x61 <= (c as u32) <= 0x7A || 0x30 <= (c
            as u32) <= 0x39)),
{
    c.is_alphanumeric()
}

/// `String::push`: appends one character.
#[verifier::external_body]
pub(crate) fn string_push(s: &mut String, c: char)
    ensures
        final(s)@ == old(s)@.push(c),
{
    s.push(c)
}

/// `str::chars`, collected: the characters of `s` in order.
#[verifier::external_body]
pub(crate) fn str_chars(s: &str) -> (v: Vec<char>)
    ensures
        v@ == s@,
{
    s.chars().collect()
}

/// A `String` holding the characters of `v` (`FromIterator<&char>`).
#[verifier::external_body]
pub(crate) fn chars_to_string(v: &[char]) -> (s: String)
    ensures
        s@ == v@,
{
    v.iter().collect()
}

/// A `String` holding the characters of `s` (`str::to_string`).
#[verifier::external_body]
pub(crate) fn str_to_string(s: &str) -> (r: String)
    ensures
        r@ == s@,
{
    s.to_string()
}

} // verus!

verus! {

/// `String::push_str`: appends the characters of `t`.
#[verifier::external_body]
pub(crate) fn string_push_str(s: &mut String, t: &str)
    ensures
        final(s)@ == old(s)@ + t@,
{
    s.push_str(t)
}

/// Number of characters of `s` (`str::chars().count()`).
pub fn char_count(s: &str) -> (n: usize)
    ensures
        n == s@.len(),
{
    let v = str_chars(s);
    v.len()
}

/// Whether `s` holds a line feed.
pub fn has_newline(s: &str) -> (b: bool)
    ensures
        b == s@.contains('\n'),
{
    let v = str_chars(s);
    let mut i: usize = 0;
    while i < v.len()
        invariant
            v@ == s@,
            i <= v@.len(),
            forall|j: int| 0 <= j < i ==> v@[j] != '\n',
        decreases v.len() - i,
    {
        if v[i] == '\n' {
            assert(s@[i as int] == '\n');
            return true;
        }
        i += 1;
    }
    false
}

/// Whether `a` and `b` hold the same characters.
pub fn same_text(a: &str, b: &str) -> (r: bool)
    ensures
        r == (a@ == b@),
{
    let x = str_chars(a);
    let y = str_chars(b);
    if x.len() != y.len() {
        return false;
    }
    let mut i: usize = 0;
    while i < x.len()
        invariant
            x@ == a@,
            y@ == b@,
            x@.len() == y@.len(),
            i <= x@.len(),
            forall|j: int| 0 <= j < i ==> x@[j] == y@[j],
        decreases x.len() - i,
    {
        if x[i] != y[i] {
            return false;
        }
        i += 1;
    }
    assert(x@ =~= y@);
    true
}

/// Appends the characters `v[a..b]` to `out`.
pub fn push_range(out: &mut String, v: &Vec<char>, a: usize, b: usize)
    requires
        a <= b <= v@.len(),
    ensures
        final(out)@ == old(out)@ + v@.subrange(a as int, b as int),
{
    let ghost start = out@;
    let mut i = a;
    while i < b
        invariant
            a <= i <= b <= v@.len(),
            out@ == start + v@.subrange(a as int, i as int),
        decreases b - i,
    {
        string_push(out, v[i]);
        assert(v@.subrange(a as int, i + 1) =~= v@.subrange(a as int, i as int).push(v@[i as int]));
        i += 1;
    }
}

/// A `String` holding the characters `v[a..b]`.
pub fn range_string(v: &Vec<char>, a: usize, b: usize) -> (r: String)
    requires
        a <= b <= v@.len(),
    ensures
        r@ == v@.subrange(a as int, b as int),
{
    let mut out = String::new();
    push_range(&mut out, v, a, b);
    out
}


/// Index of the first non-whitespace character of `s` at or after `i`.
pub open spec fn ws_end(s: Seq<char>, i: int) -> int
    decreases s.len() - i,
{
    if 0 <= i < s.len() && is_ws(s[i]) { ws_end(s, i + 1) } else { i }
}

/// Index just past the last non-whitespace character of `s` before `j`,
/// going back no further than `lo`.
pub open spec fn ws_back(s: Seq<char>, j: int, lo: int) -> int
    decreases j - lo,
{
    if lo < j <= s.len() && is_ws(s[j - 1]) { ws_back(s, j - 1, lo) } else { j }
}

/// `s` without its leading and trailing whitespace (`str::trim`).
pub open spec fn trim_ws(s: Seq<char>) -> Seq<char> {
    let a = ws_end(s, 0);
    s.subrange(a, ws_back(s, s.len() as int, a))
}

pub proof fn lemma_ws_end(s: Seq<char>, i: int)
    requires
        0 <= i <= s.len(),
    ensures
        i <= ws_end(s, i) <= s.len(),
    decreases s.len() - i,
{
    if i < s.len() && is_ws(s[i]) {
        lemma_ws_end(s, i + 1);
    }
}

pub proof fn lemma_ws_back(s: Seq<char>, j: int, lo: int)
    requires
        0 <= lo <= j <= s.len(),
    ensures
        lo <= ws_back(s, j, lo) <= j,
    decreases j - lo,
{
    if lo < j && is_ws(s[j - 1]) {
        lemma_ws_back(s, j - 1, lo);
    }
}

/// `text` without leading and trailing whitespace.
pub fn trim_text(text: &str) -> (r: String)
    ensures
        r@ == trim_ws(text@),
{
    let v = str_chars(text);
    let ghost s = v@;
    let mut a: usize = 0;
    while a < v.len() && char_is_whitespace(v[a])
        invariant
            a <= v@.len(),
            v@ == s,
            ws_end(s, a as int) == ws_end(s, 0),
        decreases v.len() - a,
    {
        a += 1;
    }
    let mut b: usize = v.len();
    while b > a && char_is_whitespace(v[b - 1])
        invariant
            a <= b <= v@.len(),
            v@ == s,
            ws_back(s, b as int, a as int) == ws_back(s, s.len() as int, a as int),
        decreases b - a,
    {
        b -= 1;
    }
    range_string(&v, a, b)
}

/// Every character of `p` is whitespace (`p.trim().is_empty()`).
pub open spec fn all_ws(p: Seq<char>) -> bool {
    forall|i: int| 0 <= i < p.len() ==> is_ws(#[trigger] p[i])
}

/// ASCII lower-casing of one character (`char::to_ascii_lowercase`).
pub open spec fn lower_char(c: char) -> char {
    if 'A' <= c <= 'Z' { ((c as u32) + 32) as char } else { c }
}

/// ASCII lower-casing of a text (`str::to_ascii_lowercase`).
pub open spec fn lower_text(s: Seq<char>) -> Seq<char> {
    s.map_values(|c: char| lower_char(c))
}

/// `name` in ASCII lower case.
pub fn to_lower(name: &str) -> (r: String)
    ensures
        r@ == lower_text(name@),
{
    let v = str_chars(name);
    let mut out = String::new();
    let mut i: usize = 0;
    while i < v.len()
        invariant
            i <= v@.len(),
            v@ == name@,
            out@ == lower_text(v@.take(i as int)),
        decreases v.len() - i,
    {
        let c = v[i];
        let l = if 'A' <= c && c <= 'Z' { ((c as u8) + 32) as char } else { c };
        assert(l == lower_char(c)) by {
            if 'A' <= c <= 'Z' {
                assert((c as u8) as u32 == c as u32);
            }
        }
        string_push(&mut out, l);
        assert(lower_text(v@.take(i + 1)) =~= lower_text(v@.take(i as int)).push(lower_char(c)));
        i += 1;
    }
    assert(v@.take(v@.len() as int) =~= v@);
    out
}


/// `s` split at every `sep` (`str::split`): always at least one piece.
pub open spec fn split_by(s: Seq<char>, sep: char) -> Seq<Seq<char>>
    decreases s.len(),
{
    if s.len() == 0 {
        seq![Seq::empty()]
    } else {
        let r = split_by(s.drop_last(), sep);
        if s.last() == sep {
            r.push(Seq::empty())
        } else {
            r.update(r.len() - 1, r.last().push(s.last()))
        }
    }
}

pub proof fn lemma_split_nonempty(s: Seq<char>, sep: char)
    ensures
        split_by(s, sep).len() >= 1,
    decreases s.len(),
{
    if s.len() > 0 {
        lemma_split_nonempty(s.drop_last(), sep);
    }
}

/// The pieces of `s` between the occurrences of `sep`.
pub fn split_text(s: &str, sep: char) -> (r: Vec<String>)
    ensures
        r.deep_view() == split_by(s@, sep),
{
    let v = str_chars(s);
    let ghost t = v@;
    let mut pieces: Vec<String> = Vec::new();
    let mut cur = String::new();
    let mut i: usize = 0;
    proof {
        assert(t.take(0) =~= Seq::<char>::empty());
        assert(pieces.deep_view().push(cur@) =~= split_by(t.take(0), sep));
    }
    while i < v.len()
        invariant
            v@ == t,
            i <= t.len(),
            pieces.deep_view().push(cur@) == split_by(t.take(i as int), sep),
        decreases v.len() - i,
    {
        let c = v[i];
        let ghost before = pieces.deep_view();
        assert(t.take(i + 1).drop_last() =~= t.take(i as int));
        proof {
            lemma_split_nonempty(t.take(i as int), sep);
        }
        if c == sep {
            pieces.push(cur);
            cur = String::new();
            assert(pieces.deep_view() =~= before.push(split_by(t.take(i as int), sep).last()));
            assert(pieces.deep_view().push(cur@) =~= split_by(t.take(i + 1), sep));
        } else {
            string_push(&mut cur, c);
            assert(pieces.deep_view() =~= before);
            assert(pieces.deep_view().push(cur@) =~= split_by(t.take(i + 1), sep));
        }
        i += 1;
    }
    let ghost before = pieces.deep_view();
    pieces.push(cur);
    assert(pieces.deep_view() =~= before.push(cur@));
    assert(t.take(t.len() as int) =~= t);
    pieces
}

/// Index of the last `c` of `s` before `i`, or -1 when there is none.
pub open spec fn last_index(s: Seq<char>, c: char, i: int) -> int
    decreases i,
{
    if i <= 0 {
        -1
    } else if s[i - 1] == c {
        i - 1
    } else {
        last_index(s, c, i - 1)
    }
}

pub proof fn lemma_last_index(s: Seq<char>, c: char, i: int)
    requires
        0 <= i <= s.len(),
    ensures
        -1 <= last_index(s, c, i) < i,
        last_index(s, c, i) >= 0 ==> s[last_index(s, c, i)] == c,
    decreases i,
{
    if i > 0 && s[i - 1] != c {
        lemma_last_index(s, c, i - 1);
    }
}

/// Index of the last `c` in `v`, if any.
pub fn find_last(v: &Vec<char>, c: char) -> (r: Option<usize>)
    ensures
        match r {
            Some(k) => k == last_index(v@, c, v@.len() as int) && k < v@.len(),
            None => last_index(v@, c, v@.len() as int) == -1,
        },
{
    let mut i: usize = v.len();
    while i > 0 && v[i - 1] != c
        invariant
            i <= v@.len(),
            last_index(v@, c, i as int) == last_index(v@, c, v@.len() as int),
        decreases i,
    {
        i -= 1;
    }
    if i == 0 {
        None
    } else {
        Some(i - 1)
    }
}

/// What `char::to_uppercase` yields for `c` (Unicode case mapping; one to
/// three characters).
pub uninterp spec fn upper_of(c: char) -> Seq<char>;

/// `char::to_uppercase`, collected into a `String`, named `upper_of`.
#[verifier::external_body]
pub(crate) fn char_to_uppercase(c: char) -> (r: String)
    ensures
        r@ == upper_of(c),
{
    c.to_uppercase().collect()
}

/// The character of decimal digit `k`.
pub open spec fn digit_of(k: int) -> char {
    (k + 48) as char
}

/// The decimal digits of `n` (`u8`'s `Display`).
pub open spec fn decimal(n: u8) -> Seq<char> {
    if n < 10 {
        seq![digit_of(n as int)]
    } else if n < 100 {
        seq![digit_of(n as int / 10), digit_of(n as int % 10)]
    } else {
        seq![digit_of(n as int / 100), digit_of((n as int / 10) % 10), digit_of(n as int % 10)]
    }
}

fn digit_char(k: u8) -> (c: char)
    requires
        k < 10,
    ensures
        c == digit_of(k as int),
{
    ((k + 48) as char)
}

/// `n` in decimal.
pub fn decimal_string(n: u8) -> (r: String)
    ensures
        r@ == decimal(n),
{
    let mut out = String::new();
    if n >= 100 {
        string_push(&mut out, digit_char(n / 100));
    }
    if n >= 10 {
        string_push(&mut out, digit_char((n / 10) % 10));
    }
    string_push(&mut out, digit_char(n % 10));
    proof {
        if n < 10 {
            assert(out@ =~= decimal(n));
        } else if n < 100 {
            assert(n / 10 < 10);
            assert(out@ =~= decimal(n));
        } else {
            assert(out@ =~= decimal(n));
        }
    }
    out
}


/// `char::to_ascii_lowercase`.
pub fn ascii_lower(c: char) -> (r: char)
    ensures
        r == lower_char(c),
{
    if 'A' <= c && c <= 'Z' {
        assert((c as u8) as u32 == c as u32);
        ((c as u8) + 32) as char
    } else {
        c
    }
}


/// The decimal digits of `n`.
pub open spec fn dec_str(n: nat) -> Seq<char>
    decreases n,
{
    if n < 10 {
        seq![digit_of(n as int)]
    } else {
        dec_str(n / 10).push(digit_of((n % 10) as int))
    }
}

/// `n` in decimal (`usize`'s `Display`).
pub fn usize_string(n: usize) -> (r: String)
    ensures
        r@ == dec_str(n as nat),
    decreases n,
{
    if n < 10 {
        let mut s = String::new();
        string_push(&mut s, digit_char(n as u8));
        assert(s@ =~= seq![digit_of(n as int)]);
        s
    } else {
        let mut s = usize_string(n / 10);
        string_push(&mut s, digit_char((n % 10) as u8));
        s
    }
}

/// `n` spaces.
pub fn spaces(n: usize) -> (r: String)
    ensures
        r@ == Seq::new(n as nat, |i: int| ' '),
{
    let mut s = String::new();
    let mut i: usize = 0;
    while i < n
        invariant
            i <= n,
            s@ == Seq::new(i as nat, |k: int| ' '),
        decreases n - i,
    {
        string_push(&mut s, ' ');
        assert(s@ =~= Seq::new((i + 1) as nat, |k: int| ' '));
        i += 1;
    }
    s
}

} // verus!
