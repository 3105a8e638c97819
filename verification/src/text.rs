//! Character scanning over strings: whitespace, searching, trimming,
//! word splitting, separator splitting, and the Tcl item tokenizer.
//!
//! Every scan is specified as a recursive spec function over a window
//! `[from, to)` of a character sequence, and each executable function is
//! proved to return exactly what the spec function names.

use vstd::prelude::*;

verus! {

/// The Unicode white-space characters: the set that `str::trim` and
/// `str::split_whitespace` go by.
pub open spec fn is_space(c: char) -> bool {
    ||| c == ' '
    ||| c == '\t'
    ||| c == '\n'
    ||| c == '\u{0B}'
    ||| c == '\u{0C}'
    ||| c == '\r'
    ||| c == '\u{85}'
    ||| c == '\u{A0}'
    ||| c == '\u{1680}'
    ||| (0x2000 <= c as u32 && c as u32 <= 0x200A)
    ||| c == '\u{2028}'
    ||| c == '\u{2029}'
    ||| c == '\u{202F}'
    ||| c == '\u{205F}'
    ||| c == '\u{3000}'
}

/// Decides white space, matching `is_space`.
fn is_space_char(c: char) -> (r: bool)
    ensures
        r == is_space(c),
{
    let u = c as u32;
    u == 0x20 || (0x09 <= u && u <= 0x0D) || u == 0x85 || u == 0xA0 || u == 0x1680 || (0x2000 <= u
        && u <= 0x200A) || u == 0x2028 || u == 0x2029 || u == 0x202F || u == 0x205F || u == 0x3000
}

/// The first index in `[from, to)` holding `c`, or `to` when there is none.
pub open spec fn find_char(s: Seq<char>, from: int, to: int, c: char) -> int
    decreases to - from,
{
    if from < 0 || from >= to {
        to
    } else if s[from] == c {
        from
    } else {
        find_char(s, from + 1, to, c)
    }
}

pub proof fn lemma_find_char_bounds(s: Seq<char>, from: int, to: int, c: char)
    requires
        0 <= from <= to,
    ensures
        from <= find_char(s, from, to, c) <= to,
    decreases to - from,
{
    if from < to && s[from] != c {
        lemma_find_char_bounds(s, from + 1, to, c);
    }
}

/// The first index in `[from, to)` holding a non-space character,
/// or `to` when the window is all spaces.
pub open spec fn skip_spaces(s: Seq<char>, from: int, to: int) -> int
    decreases to - from,
{
    if from < 0 || from >= to {
        to
    } else if !is_space(s[from]) {
        from
    } else {
        skip_spaces(s, from + 1, to)
    }
}

pub proof fn lemma_skip_spaces_bounds(s: Seq<char>, from: int, to: int)
    requires
        0 <= from <= to,
    ensures
        from <= skip_spaces(s, from, to) <= to,
    decreases to - from,
{
    if from < to && is_space(s[from]) {
        lemma_skip_spaces_bounds(s, from + 1, to);
    }
}

pub proof fn lemma_skip_spaces_nonspace(s: Seq<char>, from: int, to: int)
    requires
        0 <= from <= to,
    ensures
        skip_spaces(s, from, to) < to ==> !is_space(s[skip_spaces(s, from, to)]),
    decreases to - from,
{
    if from < to && is_space(s[from]) {
        lemma_skip_spaces_nonspace(s, from + 1, to);
    }
}

/// The first index in `[from, to)` holding a space, or `to` when there is none.
pub open spec fn scan_word(s: Seq<char>, from: int, to: int) -> int
    decreases to - from,
{
    if from < 0 || from >= to {
        to
    } else if is_space(s[from]) {
        from
    } else {
        scan_word(s, from + 1, to)
    }
}

pub proof fn lemma_scan_word_bounds(s: Seq<char>, from: int, to: int)
    requires
        0 <= from <= to,
    ensures
        from <= scan_word(s, from, to) <= to,
    decreases to - from,
{
    if from < to && !is_space(s[from]) {
        lemma_scan_word_bounds(s, from + 1, to);
    }
}

/// The end of the window `[from, to)` once trailing spaces are dropped:
/// `from` when the window is all spaces.
pub open spec fn rskip_spaces(s: Seq<char>, from: int, to: int) -> int
    decreases to - from,
{
    if to <= from {
        from
    } else if !is_space(s[to - 1]) {
        to
    } else {
        rskip_spaces(s, from, to - 1)
    }
}

pub proof fn lemma_rskip_spaces_bounds(s: Seq<char>, from: int, to: int)
    requires
        from <= to,
    ensures
        from <= rskip_spaces(s, from, to) <= to,
    decreases to - from,
{
    if from < to && is_space(s[to - 1]) {
        lemma_rskip_spaces_bounds(s, from, to - 1);
    }
}

/// Finds `c` in the window `[from, to)` of `s`, matching `find_char`.
fn find_char_in(s: &str, from: usize, to: usize, c: char) -> (r: usize)
    requires
        from <= to,
        to <= s@.len(),
    ensures
        r == find_char(s@, from as int, to as int, c),
        from <= r <= to,
        r < to ==> s@[r as int] == c,
{
    let mut i = from;
    loop
        invariant
            from <= i <= to,
            to <= s@.len(),
            find_char(s@, from as int, to as int, c) == find_char(s@, i as int, to as int, c),
        ensures
            i as int == find_char(s@, from as int, to as int, c),
            i < to ==> s@[i as int] == c,
        decreases to - i,
    {
        if i == to {
            break ;
        }
        if s.get_char(i) == c {
            break ;
        }
        i = i + 1;
    }
    i
}

/// Skips spaces in the window `[from, to)` of `s`, matching `skip_spaces`.
fn skip_spaces_in(s: &str, from: usize, to: usize) -> (r: usize)
    requires
        from <= to,
        to <= s@.len(),
    ensures
        r == skip_spaces(s@, from as int, to as int),
        from <= r <= to,
        r < to ==> !is_space(s@[r as int]),
{
    let mut i = from;
    loop
        invariant
            from <= i <= to,
            to <= s@.len(),
            skip_spaces(s@, from as int, to as int) == skip_spaces(s@, i as int, to as int),
        ensures
            i as int == skip_spaces(s@, from as int, to as int),
            i < to ==> !is_space(s@[i as int]),
        decreases to - i,
    {
        if i == to {
            break ;
        }
        if !is_space_char(s.get_char(i)) {
            break ;
        }
        i = i + 1;
    }
    i
}

/// Scans to the end of a word in the window `[from, to)`, matching `scan_word`.
fn scan_word_in(s: &str, from: usize, to: usize) -> (r: usize)
    requires
        from <= to,
        to <= s@.len(),
    ensures
        r == scan_word(s@, from as int, to as int),
        from <= r <= to,
{
    let mut i = from;
    loop
        invariant
            from <= i <= to,
            to <= s@.len(),
            scan_word(s@, from as int, to as int) == scan_word(s@, i as int, to as int),
        ensures
            i as int == scan_word(s@, from as int, to as int),
        decreases to - i,
    {
        if i == to {
            break ;
        }
        if is_space_char(s.get_char(i)) {
            break ;
        }
        i = i + 1;
    }
    i
}

/// Drops trailing spaces of the window `[from, to)`, matching `rskip_spaces`.
fn rskip_spaces_in(s: &str, from: usize, to: usize) -> (r: usize)
    requires
        from <= to,
        to <= s@.len(),
    ensures
        r == rskip_spaces(s@, from as int, to as int),
        from <= r <= to,
{
    let mut j = to;
    loop
        invariant
            from <= j <= to,
            to <= s@.len(),
            rskip_spaces(s@, from as int, to as int) == rskip_spaces(s@, from as int, j as int),
        ensures
            j as int == rskip_spaces(s@, from as int, to as int),
        decreases j,
    {
        if j == from {
            break ;
        }
        if !is_space_char(s.get_char(j - 1)) {
            break ;
        }
        j = j - 1;
    }
    j
}

/// The start of the window `[from, to)` once leading spaces are dropped.
pub open spec fn trim_lo(s: Seq<char>, from: int, to: int) -> int {
    skip_spaces(s, from, to)
}

/// The end of the window `[from, to)` once leading and trailing spaces are
/// dropped; equals `trim_lo` when the window is all spaces.
pub open spec fn trim_hi(s: Seq<char>, from: int, to: int) -> int {
    let a = skip_spaces(s, from, to);
    if a >= to {
        a
    } else {
        rskip_spaces(s, a, to)
    }
}

/// What `str::trim` leaves of `s`.
pub open spec fn trim_view(s: Seq<char>) -> Seq<char> {
    s.subrange(trim_lo(s, 0, s.len() as int), trim_hi(s, 0, s.len() as int))
}

pub proof fn lemma_trim_window_bounds(s: Seq<char>, from: int, to: int)
    requires
        0 <= from <= to,
    ensures
        from <= trim_lo(s, from, to) <= trim_hi(s, from, to) <= to,
{
    lemma_skip_spaces_bounds(s, from, to);
    let a = skip_spaces(s, from, to);
    if a < to {
        lemma_rskip_spaces_bounds(s, a, to);
    }
}

/// Narrows the window `[from, to)` of `s` to its trimmed part.
pub(crate) fn trim_range(s: &str, from: usize, to: usize) -> (r: (usize, usize))
    requires
        from <= to,
        to <= s@.len(),
    ensures
        r.0 == trim_lo(s@, from as int, to as int),
        r.1 == trim_hi(s@, from as int, to as int),
        from <= r.0 <= r.1 <= to,
{
    let lo = skip_spaces_in(s, from, to);
    if lo == to {
        (lo, lo)
    } else {
        let hi = rskip_spaces_in(s, lo, to);
        proof {
            lemma_trim_window_bounds(s@, from as int, to as int);
        }
        (lo, hi)
    }
}

/// Trims surrounding white space from `s`, matching `str::trim`.
pub fn trimmed(s: &str) -> (r: String)
    ensures
        r@ == trim_view(s@),
{
    let n = s.unicode_len();
    let (lo, hi) = trim_range(s, 0, n);
    s.substring_char(lo, hi).to_owned()
}

/// The words of the window `[from, to)`: the maximal runs of non-space
/// characters, in order, as `str::split_whitespace` yields them.
pub open spec fn words_in(s: Seq<char>, from: int, to: int) -> Seq<Seq<char>>
    decreases to - from,
    via words_in_dec
{
    let a = skip_spaces(s, from, to);
    if a >= to {
        Seq::empty()
    } else {
        let b = scan_word(s, a, to);
        seq![s.subrange(a, b)] + words_in(s, b, to)
    }
}

#[via_fn]
proof fn words_in_dec(s: Seq<char>, from: int, to: int) {
    if 0 <= from && from <= to {
        lemma_skip_spaces_bounds(s, from, to);
        lemma_skip_spaces_nonspace(s, from, to);
        let a = skip_spaces(s, from, to);
        if a < to {
            lemma_scan_word_bounds(s, a + 1, to);
        }
    }
}

/// Pushes the words of the window `[from, to)` of `s` onto `out`.
fn append_words(s: &str, from: usize, to: usize, out: &mut Vec<String>)
    requires
        from <= to,
        to <= s@.len(),
    ensures
        final(out).deep_view() == old(out).deep_view() + words_in(s@, from as int, to as int),
{
    let mut i = from;
    loop
        invariant
            from <= i <= to,
            to <= s@.len(),
            out.deep_view() + words_in(s@, i as int, to as int) == old(out).deep_view()
                + words_in(s@, from as int, to as int),
        ensures
            out.deep_view() == old(out).deep_view() + words_in(s@, from as int, to as int),
        decreases to - i,
    {
        let a = skip_spaces_in(s, i, to);
        if a == to {
            proof {
                assert(words_in(s@, i as int, to as int) =~= Seq::<Seq<char>>::empty());
                assert(out.deep_view() =~= out.deep_view() + Seq::<Seq<char>>::empty());
            }
            break ;
        }
        let b = scan_word_in(s, a, to);
        proof {
            assert(scan_word(s@, a as int, to as int) == scan_word(s@, a + 1, to as int));
            lemma_scan_word_bounds(s@, a + 1, to as int);
        }
        let ghost prev = out.deep_view();
        let word = s.substring_char(a, b).to_owned();
        out.push(word);
        proof {
            assert(out.deep_view() =~= prev + seq![s@.subrange(a as int, b as int)]);
            assert(words_in(s@, i as int, to as int) == seq![s@.subrange(a as int, b as int)]
                + words_in(s@, b as int, to as int));
            assert(out.deep_view() + words_in(s@, b as int, to as int) =~= old(out).deep_view()
                + words_in(s@, from as int, to as int));
        }
        i = b;
    }
}

/// The pieces of `s` from `from` on, split at every occurrence of `sep`,
/// empty pieces kept, as `str::split` yields them.
pub open spec fn split_from(s: Seq<char>, from: int, sep: char) -> Seq<Seq<char>>
    decreases s.len() - from,
    via split_from_dec
{
    let i = find_char(s, from, s.len() as int, sep);
    if i >= s.len() {
        seq![s.subrange(from, s.len() as int)]
    } else {
        seq![s.subrange(from, i)] + split_from(s, i + 1, sep)
    }
}

#[via_fn]
proof fn split_from_dec(s: Seq<char>, from: int, sep: char) {
    if 0 <= from && from <= s.len() {
        lemma_find_char_bounds(s, from, s.len() as int, sep);
    }
}

/// All pieces of `s` split at `sep`.
pub open spec fn split_all(s: Seq<char>, sep: char) -> Seq<Seq<char>> {
    split_from(s, 0, sep)
}

/// Splits `s` at every occurrence of `sep`, matching `str::split`.
pub(crate) fn split_char(s: &str, sep: char) -> (r: Vec<String>)
    ensures
        r.deep_view() == split_all(s@, sep),
{
    let n = s.unicode_len();
    let mut out: Vec<String> = Vec::new();
    let mut from: usize = 0;
    proof {
        assert(out.deep_view() + split_from(s@, 0, sep) =~= split_from(s@, 0, sep));
    }
    loop
        invariant_except_break
            out.deep_view() + split_from(s@, from as int, sep) == split_from(s@, 0, sep),
        invariant
            from <= n,
            n == s@.len(),
        ensures
            out.deep_view() == split_from(s@, 0, sep),
        decreases n - from + 1,
    {
        let i = find_char_in(s, from, n, sep);
        let ghost prev = out.deep_view();
        let piece = s.substring_char(from, i).to_owned();
        out.push(piece);
        proof {
            assert(out.deep_view() =~= prev + seq![s@.subrange(from as int, i as int)]);
        }
        if i == n {
            proof {
                assert(out.deep_view() =~= split_from(s@, 0, sep));
            }
            break ;
        }
        proof {
            assert(out.deep_view() + split_from(s@, i + 1, sep) =~= split_from(s@, 0, sep));
        }
        from = i + 1;
    }
    out
}

/// `p` is a prefix of `s`.
pub open spec fn starts_with(s: Seq<char>, p: Seq<char>) -> bool {
    p.len() <= s.len() && s.subrange(0, p.len() as int) == p
}

/// Decides whether `p` is a prefix of `s`, matching `starts_with`.
pub(crate) fn has_prefix(s: &str, p: &str) -> (r: bool)
    ensures
        r == starts_with(s@, p@),
{
    let pn = p.unicode_len();
    let sn = s.unicode_len();
    if pn > sn {
        return false;
    }
    let mut i: usize = 0;
    loop
        invariant
            0 <= i <= pn <= sn,
            pn == p@.len(),
            sn == s@.len(),
            forall|j: int| 0 <= j < i ==> s@[j] == p@[j],
        ensures
            i == pn,
            forall|j: int| 0 <= j < i ==> s@[j] == p@[j],
        decreases pn - i,
    {
        if i == pn {
            break ;
        }
        if s.get_char(i) != p.get_char(i) {
            proof {
                assert(s@.subrange(0, pn as int)[i as int] != p@[i as int]);
            }
            return false;
        }
        i = i + 1;
    }
    proof {
        assert(s@.subrange(0, pn as int) =~= p@);
    }
    true
}

/// Decides character-for-character equality of two strings.
pub(crate) fn str_eq(a: &str, b: &str) -> (r: bool)
    ensures
        r == (a@ == b@),
{
    let n = a.unicode_len();
    if n != b.unicode_len() {
        return false;
    }
    let mut i: usize = 0;
    loop
        invariant
            0 <= i <= n,
            n == a@.len(),
            n == b@.len(),
            forall|j: int| 0 <= j < i ==> a@[j] == b@[j],
        ensures
            i == n,
            forall|j: int| 0 <= j < i ==> a@[j] == b@[j],
        decreases n - i,
    {
        if i == n {
            break ;
        }
        if a.get_char(i) != b.get_char(i) {
            return false;
        }
        i = i + 1;
    }
    proof {
        assert(a@ =~= b@);
    }
    true
}

/// `sub` occurs somewhere inside `s`.
pub open spec fn contains_sub(s: Seq<char>, sub: Seq<char>) -> bool {
    exists|i: int|
        0 <= i && i + sub.len() <= s.len() && #[trigger] s.subrange(i, i + sub.len()) == sub
}

/// The characters of `[i, i + m)` in `s` match `sub`, where `m` is `sub`'s length.
fn match_at(s: &str, n: usize, i: usize, sub: &str, m: usize) -> (r: bool)
    requires
        n == s@.len(),
        m == sub@.len(),
        i + m <= n,
    ensures
        r == (s@.subrange(i as int, i + m) == sub@),
{
    let mut j: usize = 0;
    loop
        invariant
            0 <= j <= m,
            i + m <= n,
            n == s@.len(),
            m == sub@.len(),
            forall|l: int| 0 <= l < j ==> s@[i + l] == sub@[l],
        decreases m - j,
    {
        if j == m {
            proof {
                assert(s@.subrange(i as int, i + m as int) =~= sub@);
            }
            return true;
        }
        if s.get_char(i + j) != sub.get_char(j) {
            proof {
                assert(s@.subrange(i as int, i + m as int)[j as int] != sub@[j as int]);
            }
            return false;
        }
        j = j + 1;
    }
}

/// Decides whether `sub` occurs inside `s`, matching `contains_sub` and
/// `str::contains`.
pub(crate) fn contains_str(s: &str, sub: &str) -> (r: bool)
    ensures
        r == contains_sub(s@, sub@),
{
    let m = sub.unicode_len();
    let n = s.unicode_len();
    if m > n {
        return false;
    }
    if m == 0 {
        proof {
            assert(s@.subrange(0int, 0int + sub@.len()) =~= sub@);
        }
        return true;
    }
    let mut i: usize = 0;
    loop
        invariant
            0 <= i <= n - m + 1,
            1 <= m <= n,
            m == sub@.len(),
            n == s@.len(),
            forall|k: int| 0 <= k < i ==> #[trigger] s@.subrange(k, k + sub@.len()) != sub@,
        ensures
            forall|k: int| 0 <= k < n - m + 1 ==> #[trigger] s@.subrange(k, k + sub@.len()) != sub@,
        decreases n - m + 1 - i,
    {
        if i == n - m + 1 {
            break ;
        }
        if match_at(s, n, i, sub, m) {
            return true;
        }
        i = i + 1;
    }
    proof {
        assert forall|k: int| 0 <= k && k + sub@.len() <= s@.len() implies #[trigger] s@.subrange(
            k,
            k + sub@.len(),
        ) != sub@ by {
            assert(k < n - m + 1);
        }
    }
    false
}

/// The items of the window `[from, to)` read as a Tcl list fragment:
/// bare words split at white space, and `{...}` groups taken verbatim.
/// The window is expected trimmed; after a group, scanning resumes at the
/// trimmed remainder. When a `{` has no closing `}`, the words before the
/// `{` are kept and the rest is dropped.
pub open spec fn split_rec(s: Seq<char>, from: int, to: int) -> Seq<Seq<char>>
    decreases to - from,
    via split_rec_dec
{
    if from >= to {
        Seq::empty()
    } else {
        let start = find_char(s, from, to, '{');
        if start >= to {
            words_in(s, from, to)
        } else {
            let close = find_char(s, from, to, '}');
            if close >= to {
                words_in(s, from, start)
            } else {
                let a = trim_lo(s, close + 1, to);
                let b = trim_hi(s, close + 1, to);
                words_in(s, from, start) + seq![s.subrange(start + 1, close)] + split_rec(s, a, b)
            }
        }
    }
}

#[via_fn]
proof fn split_rec_dec(s: Seq<char>, from: int, to: int) {
    if 0 <= from && from < to {
        lemma_find_char_bounds(s, from, to, '}');
        let close = find_char(s, from, to, '}');
        if close < to {
            lemma_trim_window_bounds(s, close + 1, to);
        }
    }
}

/// Every `{` group in the window is well formed: whenever both a `{` and a
/// `}` are in view, the first `}` comes after the first `{`.
pub open spec fn split_ok_at(s: Seq<char>, from: int, to: int) -> bool
    decreases to - from,
    via split_ok_at_dec
{
    if from >= to {
        true
    } else {
        let start = find_char(s, from, to, '{');
        if start >= to {
            true
        } else {
            let close = find_char(s, from, to, '}');
            if close >= to {
                true
            } else {
                start < close && split_ok_at(
                    s,
                    trim_lo(s, close + 1, to),
                    trim_hi(s, close + 1, to),
                )
            }
        }
    }
}

#[via_fn]
proof fn split_ok_at_dec(s: Seq<char>, from: int, to: int) {
    if 0 <= from && from < to {
        lemma_find_char_bounds(s, from, to, '}');
        let close = find_char(s, from, to, '}');
        if close < to {
            lemma_trim_window_bounds(s, close + 1, to);
        }
    }
}

/// The grouping in `s` is well formed, so that `split_items` accepts it.
pub open spec fn split_ok(s: Seq<char>) -> bool {
    split_ok_at(s, trim_lo(s, 0, s.len() as int), trim_hi(s, 0, s.len() as int))
}

/// What `split_items` yields on `s`.
pub open spec fn split_items_view(s: Seq<char>) -> Seq<Seq<char>> {
    split_rec(s, trim_lo(s, 0, s.len() as int), trim_hi(s, 0, s.len() as int))
}

/// Decides `split_ok`: whether `split_items` accepts `text`. A caller that
/// gets its string from outside can test this before calling `split_items`.
pub fn splittable(text: &str) -> (r: bool)
    ensures
        r == split_ok(text@),
{
    let n = text.unicode_len();
    let tr = trim_range(text, 0, n);
    let mut lo = tr.0;
    let mut hi = tr.1;
    loop
        invariant_except_break
            split_ok(text@) == split_ok_at(text@, lo as int, hi as int),
        invariant
            lo <= hi <= n,
            n == text@.len(),
        ensures
            split_ok(text@),
        decreases hi - lo,
    {
        if lo == hi {
            break ;
        }
        let start = find_char_in(text, lo, hi, '{');
        if start == hi {
            break ;
        }
        let close = find_char_in(text, lo, hi, '}');
        if close == hi {
            break ;
        }
        if close <= start {
            return false;
        }
        let t2 = trim_range(text, close + 1, hi);
        lo = t2.0;
        hi = t2.1;
    }
    true
}

/// Splits a Tcl string into its items: single words, split at white space,
/// or groups braced as `{...}`, taken verbatim without the braces.
pub fn split_items(text: &str) -> (r: Vec<String>)
    requires
        split_ok(text@),
    ensures
        r.deep_view() == split_items_view(text@),
{
    let n = text.unicode_len();
    let mut result: Vec<String> = Vec::new();
    let tr = trim_range(text, 0, n);
    let mut lo = tr.0;
    let mut hi = tr.1;
    proof {
        assert(result.deep_view() + split_rec(text@, lo as int, hi as int) =~= split_items_view(
            text@,
        ));
    }
    loop
        invariant_except_break
            result.deep_view() + split_rec(text@, lo as int, hi as int) == split_items_view(text@),
            split_ok_at(text@, lo as int, hi as int),
        invariant
            lo <= hi <= n,
            n == text@.len(),
        ensures
            result.deep_view() == split_items_view(text@),
        decreases hi - lo,
    {
        if lo == hi {
            proof {
                assert(split_rec(text@, lo as int, hi as int) =~= Seq::<Seq<char>>::empty());
                assert(result.deep_view() =~= result.deep_view() + Seq::<Seq<char>>::empty());
            }
            break ;
        }
        let start = find_char_in(text, lo, hi, '{');
        if start == hi {
            append_words(text, lo, hi, &mut result);
            proof {
                assert(result.deep_view() =~= split_items_view(text@));
            }
            break ;
        }
        let close = find_char_in(text, lo, hi, '}');
        append_words(text, lo, start, &mut result);
        if close == hi {
            proof {
                assert(result.deep_view() =~= split_items_view(text@));
            }
            break ;
        }
        let piece = text.substring_char(start + 1, close).to_owned();
        let ghost prev1 = result.deep_view();
        result.push(piece);
        let t2 = trim_range(text, close + 1, hi);
        proof {
            assert(result.deep_view() =~= prev1 + seq![text@.subrange(start + 1, close as int)]);
            assert(result.deep_view() + split_rec(text@, t2.0 as int, t2.1 as int)
                =~= split_items_view(text@));
        }
        lo = t2.0;
        hi = t2.1;
    }
    result
}

} // verus!
