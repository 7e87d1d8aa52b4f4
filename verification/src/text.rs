//! Character-level text operations used throughout the crate.
//!
//! Strings are modelled by their view, a `Seq<char>`; the functions here are
//! specified over that view.
use vstd::prelude::*;

verus! {

broadcast use vstd::string::group_string_axioms;

// ---------------------------------------------------------------------------
// Conversions
// ---------------------------------------------------------------------------

/// The characters of `s` as a vector.
pub fn chars_of(s: &str) -> (v: Vec<char>)
    ensures
        v@ == s@,
{
    let mut v: Vec<char> = Vec::new();
    for c in it: s.chars()
        invariant
            it.seq() == s@,
            v@ == it.seq().take(it.index() as int),
    {
        v.push(c);
    }
    v
}

/// `String::from_iter`: the string made of the given characters, in order.
#[verifier::external_body]
pub(crate) fn string_of(v: &Vec<char>) -> (s: String)
    ensures
        s@ == v@,
{
    String::from_iter(v.iter())
}

/// The view of each string of a vector.
pub open spec fn views(v: Seq<String>) -> Seq<Seq<char>> {
    v.map_values(|s: String| s@)
}

/// Copies a string (its view is kept).
pub fn copy_string(s: &String) -> (r: String)
    ensures
        r@ == s@,
{
    s.clone()
}

/// The string made of the characters of a sequence literal.
pub fn string_from(s: &str) -> (r: String)
    ensures
        r@ == s@,
{
    s.to_owned()
}

/// Appends the characters of `s` to `out`.
pub fn push_str(out: &mut Vec<char>, s: &str)
    ensures
        final(out)@ == old(out)@ + s@,
{
    let cs = chars_of(s);
    push_all(out, &cs);
}

/// Appends the characters of `v` to `out`.
pub fn push_all(out: &mut Vec<char>, v: &Vec<char>)
    ensures
        final(out)@ == old(out)@ + v@,
{
    let ghost start = out@;
    let mut i: usize = 0;
    while i < v.len()
        invariant
            i <= v.len(),
            out@ == start + v@.take(i as int),
        decreases v.len() - i,
    {
        out.push(v[i]);
        i = i + 1;
        assert(v@.take(i as int) == v@.take(i - 1 as int).push(v@[i - 1]));
    }
    assert(v@.take(v.len() as int) == v@);
}

// ---------------------------------------------------------------------------
// Decimal rendering
// ---------------------------------------------------------------------------

/// The character of a decimal digit.
pub open spec fn digit_char(d: nat) -> char {
    if d == 0 { '0' }
    else if d == 1 { '1' }
    else if d == 2 { '2' }
    else if d == 3 { '3' }
    else if d == 4 { '4' }
    else if d == 5 { '5' }
    else if d == 6 { '6' }
    else if d == 7 { '7' }
    else if d == 8 { '8' }
    else { '9' }
}

/// The decimal rendering of a natural number, without leading zeros.
pub open spec fn decimal(n: nat) -> Seq<char>
    decreases n,
{
    if n < 10 {
        seq![digit_char(n)]
    } else {
        decimal(n / 10).push(digit_char(n % 10))
    }
}

fn digit(d: usize) -> (c: char)
    requires
        d < 10,
    ensures
        c == digit_char(d as nat),
{
    if d == 0 { '0' }
    else if d == 1 { '1' }
    else if d == 2 { '2' }
    else if d == 3 { '3' }
    else if d == 4 { '4' }
    else if d == 5 { '5' }
    else if d == 6 { '6' }
    else if d == 7 { '7' }
    else if d == 8 { '8' }
    else { '9' }
}

/// The decimal characters of `n`.
pub fn decimal_chars(n: usize) -> (v: Vec<char>)
    ensures
        v@ == decimal(n as nat),
    decreases n,
{
    if n < 10 {
        let mut v: Vec<char> = Vec::new();
        v.push(digit(n));
        v
    } else {
        let mut v = decimal_chars(n / 10);
        v.push(digit(n % 10));
        v
    }
}

/// The decimal characters of a 64-bit number.
pub fn decimal_u64(n: u64) -> (v: Vec<char>)
    ensures
        v@ == decimal(n as nat),
    decreases n,
{
    if n < 10 {
        decimal_chars(n as usize)
    } else {
        let mut v = decimal_u64(n / 10);
        let d = decimal_chars((n % 10) as usize);
        push_all(&mut v, &d);
        v
    }
}

/// The decimal rendering of `n` as a string.
pub fn decimal_string(n: usize) -> (s: String)
    ensures
        s@ == decimal(n as nat),
{
    string_of(&decimal_chars(n))
}

// ---------------------------------------------------------------------------
// Character classes
// ---------------------------------------------------------------------------

/// Unicode `White_Space`, the property that `char::is_whitespace` tests.
pub open spec fn is_white(c: char) -> bool {
    ||| ('\u{9}' <= c && c <= '\u{d}')
    ||| c == ' '
    ||| c == '\u{85}'
    ||| c == '\u{a0}'
    ||| c == '\u{1680}'
    ||| ('\u{2000}' <= c && c <= '\u{200a}')
    ||| c == '\u{2028}'
    ||| c == '\u{2029}'
    ||| c == '\u{202f}'
    ||| c == '\u{205f}'
    ||| c == '\u{3000}'
}

/// Whether `c` is a Unicode white-space character.
pub fn is_whitespace(c: char) -> (r: bool)
    ensures
        r == is_white(c),
{
    ('\u{9}' <= c && c <= '\u{d}') || c == ' ' || c == '\u{85}' || c == '\u{a0}' || c
        == '\u{1680}' || ('\u{2000}' <= c && c <= '\u{200a}') || c == '\u{2028}' || c
        == '\u{2029}' || c == '\u{202f}' || c == '\u{205f}' || c == '\u{3000}'
}

pub open spec fn is_ascii_alpha(c: char) -> bool {
    ('a' <= c && c <= 'z') || ('A' <= c && c <= 'Z')
}

pub open spec fn is_ascii_digit(c: char) -> bool {
    '0' <= c && c <= '9'
}

pub open spec fn is_ascii_alnum(c: char) -> bool {
    is_ascii_alpha(c) || is_ascii_digit(c)
}

/// Whether `c` is an ASCII character.
pub open spec fn is_ascii(c: char) -> bool {
    (c as u32) < 128
}

/// Whether every character of `s` is ASCII.
pub open spec fn all_ascii(s: Seq<char>) -> bool {
    forall|i: int| 0 <= i < s.len() ==> is_ascii(#[trigger] s[i])
}

/// The ASCII lowercase of a character: `A`..`Z` become `a`..`z`, any other
/// character stays.
pub open spec fn ascii_lower(c: char) -> char {
    if 'A' <= c && c <= 'Z' {
        ((c as u32) + 32) as char
    } else {
        c
    }
}

/// The ASCII lowercase of a text.
pub open spec fn ascii_lowercase(s: Seq<char>) -> Seq<char> {
    s.map_values(|c: char| ascii_lower(c))
}

/// What `char::is_alphanumeric` returns: the Unicode `Alphabetic` or
/// `Numeric` property of the character.
pub uninterp spec fn char_is_alphanumeric(c: char) -> bool;

/// `char::is_alphanumeric`. The contract names its result, and states it
/// for ASCII characters, where it holds of `A`..`Z`, `a`..`z` and `0`..`9`
/// only; the Unicode tables behind the other characters are not restated.
#[verifier::external_body]
pub(crate) fn is_alphanumeric(c: char) -> (r: bool)
    ensures
        r == char_is_alphanumeric(c),
        is_ascii(c) ==> (r <==> is_ascii_alnum(c)),
{
    c.is_alphanumeric()
}

/// What `str::to_lowercase` returns for a string: the Unicode lowercase
/// mapping of each character, with the final-sigma rule applied.
pub uninterp spec fn lowercase(s: Seq<char>) -> Seq<char>;

/// `str::to_lowercase`. The contract names its result, and states it for
/// ASCII text, where it maps `A`..`Z` to `a`..`z` and keeps every other
/// character; the Unicode case tables behind the other characters are not
/// restated here.
#[verifier::external_body]
pub(crate) fn to_lowercase(s: &str) -> (r: String)
    ensures
        r@ == lowercase(s@),
        all_ascii(s@) ==> r@ == ascii_lowercase(s@),
{
    s.to_lowercase()
}

// ---------------------------------------------------------------------------
// Trimming
// ---------------------------------------------------------------------------

/// `s` without its leading white space.
pub open spec fn trim_start(s: Seq<char>) -> Seq<char>
    decreases s.len(),
{
    if s.len() > 0 && is_white(s[0]) {
        trim_start(s.drop_first())
    } else {
        s
    }
}

/// `s` without its trailing white space.
pub open spec fn trim_end(s: Seq<char>) -> Seq<char>
    decreases s.len(),
{
    if s.len() > 0 && is_white(s.last()) {
        trim_end(s.drop_last())
    } else {
        s
    }
}

/// `str::trim`: `s` without leading and trailing white space.
pub open spec fn trim(s: Seq<char>) -> Seq<char> {
    trim_end(trim_start(s))
}

proof fn lemma_trim_start(s: Seq<char>)
    ensures
        exists|a: int|
            0 <= a <= s.len() && trim_start(s) == #[trigger] s.skip(a) && (forall|k: int| 0 <= k < a ==> is_white(s[k]))
                && (a < s.len() ==> !is_white(s[a])),
    decreases s.len(),
{
    if s.len() > 0 && is_white(s[0]) {
        let t = s.drop_first();
        lemma_trim_start(t);
        let a = choose|a: int|
            0 <= a <= t.len() && trim_start(t) == #[trigger] t.skip(a) && (forall|k: int| 0 <= k < a ==> is_white(t[k]))
                && (a < t.len() ==> !is_white(t[a]));
        assert(t.skip(a) =~= s.skip(a + 1));
        assert forall|k: int| 0 <= k < a + 1 implies is_white(s[k]) by {
            if k > 0 {
                assert(s[k] == t[k - 1]);
            }
        }
        assert(a + 1 < s.len() ==> s[a + 1] == t[a]);
    } else {
        assert(s.skip(0) =~= s);
    }
}

proof fn lemma_trim_end(s: Seq<char>)
    ensures
        exists|b: int|
            0 <= b <= s.len() && trim_end(s) == #[trigger] s.take(b) && (forall|k: int| b <= k < s.len() ==> is_white(s[k]))
                && (b > 0 ==> !is_white(s[b - 1])),
    decreases s.len(),
{
    if s.len() > 0 && is_white(s.last()) {
        let t = s.drop_last();
        lemma_trim_end(t);
        let b = choose|b: int|
            0 <= b <= t.len() && trim_end(t) == #[trigger] t.take(b) && (forall|k: int| b <= k < t.len() ==> is_white(t[k]))
                && (b > 0 ==> !is_white(t[b - 1]));
        assert(t.take(b) =~= s.take(b));
        assert forall|k: int| b <= k < s.len() implies is_white(s[k]) by {
            if k < s.len() - 1 {
                assert(s[k] == t[k]);
            }
        }
    } else {
        assert(s.take(s.len() as int) =~= s);
    }
}

/// Trimming keeps the part of the text between its leading and its trailing
/// white space: a contiguous piece `s[a..b]` that neither starts nor ends
/// with white space, everything before `a` and from `b` on being white space.
pub proof fn law_trim_keeps_the_middle(s: Seq<char>)
    ensures
        exists|a: int, b: int|
            0 <= a <= b <= s.len() && trim(s) == #[trigger] s.subrange(a, b) && (forall|k: int| 0 <= k < a ==> is_white(s[k]))
                && (forall|k: int| b <= k < s.len() ==> is_white(s[k])) && (a < b ==> !is_white(s[a]) && !is_white(
                s[b - 1],
            )),
{
    lemma_trim_start(s);
    let a = choose|a: int|
        0 <= a <= s.len() && trim_start(s) == #[trigger] s.skip(a) && (forall|k: int| 0 <= k < a ==> is_white(s[k]))
            && (a < s.len() ==> !is_white(s[a]));
    let t = s.skip(a);
    lemma_trim_end(t);
    let b = choose|b: int|
        0 <= b <= t.len() && trim_end(t) == #[trigger] t.take(b) && (forall|k: int| b <= k < t.len() ==> is_white(t[k]))
            && (b > 0 ==> !is_white(t[b - 1]));
    assert(t.take(b) =~= s.subrange(a, a + b));
    assert forall|k: int| a + b <= k < s.len() implies is_white(s[k]) by {
        assert(s[k] == t[k - a]);
    }
    if b > 0 {
        assert(s[a] == t[0]);
        assert(s[a + b - 1] == t[b - 1]);
    }
    assert(trim(s) == s.subrange(a, a + b));
}

/// `str::trim`.
pub fn trim_chars(s: &Vec<char>) -> (r: Vec<char>)
    ensures
        r@ == trim(s@),
{
    let n = s.len();
    let mut i: usize = 0;
    assert(s@.skip(0) == s@);
    while i < n && is_whitespace(s[i])
        invariant
            n == s.len(),
            i <= n,
            trim_start(s@) == trim_start(s@.skip(i as int)),
        decreases n - i,
    {
        assert(s@.skip(i as int).drop_first() == s@.skip(i + 1 as int));
        i = i + 1;
    }
    assert(trim_start(s@) == s@.skip(i as int));
    let ghost mid = s@.skip(i as int);
    let mut j: usize = n;
    while j > i && is_whitespace(s[j - 1])
        invariant
            n == s.len(),
            i <= j <= n,
            mid == s@.skip(i as int),
            trim_end(mid) == trim_end(s@.subrange(i as int, j as int)),
        decreases j,
    {
        assert(s@.subrange(i as int, j as int).drop_last() == s@.subrange(i as int, j - 1 as int));
        j = j - 1;
    }
    let mut r: Vec<char> = Vec::new();
    let mut k: usize = i;
    while k < j
        invariant
            i <= k <= j <= n,
            n == s.len(),
            r@ == s@.subrange(i as int, k as int),
        decreases j - k,
    {
        r.push(s[k]);
        k = k + 1;
    }
    r
}

/// `str::trim` on a string.
pub fn trim_string(s: &str) -> (r: String)
    ensures
        r@ == trim(s@),
{
    string_of(&trim_chars(&chars_of(s)))
}

// ---------------------------------------------------------------------------
// Prefixes and splitting
// ---------------------------------------------------------------------------

/// Whether `p` is a prefix of `s`.
pub open spec fn starts_with(s: Seq<char>, p: Seq<char>) -> bool {
    p.len() <= s.len() && s.take(p.len() as int) == p
}

/// Whether `p` is a prefix of `s`.
pub fn has_prefix(s: &Vec<char>, p: &str) -> (r: bool)
    ensures
        r == starts_with(s@, p@),
{
    let pv = chars_of(p);
    assert(s@.skip(0) == s@);
    has_prefix_at(s, 0, &pv)
}

/// Whether `p` occurs in `s` at position `at`.
pub fn has_prefix_at(s: &Vec<char>, at: usize, p: &Vec<char>) -> (r: bool)
    requires
        at <= s.len(),
    ensures
        r == starts_with(s@.skip(at as int), p@),
{
    if p.len() > s.len() - at {
        return false;
    }
    let mut k: usize = 0;
    while k < p.len()
        invariant
            at <= s.len(),
            p.len() <= s.len() - at,
            k <= p.len(),
            forall|m: int| 0 <= m < k ==> s@[at + m] == p@[m],
        decreases p.len() - k,
    {
        if s[at + k] != p[k] {
            assert(s@.skip(at as int).take(p.len() as int)[k as int] != p@[k as int]);
            return false;
        }
        k = k + 1;
    }
    assert(s@.skip(at as int).take(p.len() as int) =~= p@);
    true
}

/// The characters of `s` from position `from` on.
pub fn suffix_from(s: &Vec<char>, from: usize) -> (r: Vec<char>)
    requires
        from <= s.len(),
    ensures
        r@ == s@.skip(from as int),
{
    let mut r: Vec<char> = Vec::new();
    let mut k: usize = from;
    while k < s.len()
        invariant
            from <= k <= s.len(),
            r@ == s@.subrange(from as int, k as int),
        decreases s.len() - k,
    {
        r.push(s[k]);
        k = k + 1;
    }
    r
}

/// The characters of `s` before position `to`.
pub fn prefix_to(s: &Vec<char>, to: usize) -> (r: Vec<char>)
    requires
        to <= s.len(),
    ensures
        r@ == s@.take(to as int),
{
    let mut r: Vec<char> = Vec::new();
    let mut k: usize = 0;
    while k < to
        invariant
            k <= to <= s.len(),
            r@ == s@.take(k as int),
        decreases to - k,
    {
        r.push(s[k]);
        k = k + 1;
        assert(s@.take(k as int) == s@.take(k - 1 as int).push(s@[k - 1]));
    }
    r
}

/// `str::strip_prefix`: `s` without the prefix `p`, if it has it.
pub open spec fn strip_prefix(s: Seq<char>, p: Seq<char>) -> Option<Seq<char>> {
    if starts_with(s, p) {
        Some(s.skip(p.len() as int))
    } else {
        None
    }
}

/// `str::strip_prefix`.
pub fn strip_prefix_chars(s: &Vec<char>, p: &str) -> (r: Option<Vec<char>>)
    ensures
        r matches Some(v) ==> strip_prefix(s@, p@) == Some(v@),
        r is None ==> strip_prefix(s@, p@) is None,
{
    let pv = chars_of(p);
    if has_prefix_at(s, 0, &pv) {
        assert(s@.skip(0) == s@);
        Some(suffix_from(s, pv.len()))
    } else {
        assert(s@.skip(0) == s@);
        None
    }
}

/// `i` is the position of the first `c` in `s`.
pub open spec fn is_first_of(s: Seq<char>, c: char, i: int) -> bool {
    0 <= i < s.len() && s[i] == c && forall|j: int| 0 <= j < i ==> s[j] != c
}

/// `str::split_once` with a character: the parts of `s` before and after the
/// first `c`, if there is one.
pub open spec fn split_once(s: Seq<char>, c: char) -> Option<(Seq<char>, Seq<char>)> {
    if s.contains(c) {
        let i = choose|i: int| is_first_of(s, c, i);
        Some((s.take(i), s.skip(i + 1)))
    } else {
        None
    }
}

/// `str::split_once` with a character.
pub fn split_once_chars(s: &Vec<char>, c: char) -> (r: Option<(Vec<char>, Vec<char>)>)
    ensures
        r matches Some((a, b)) ==> split_once(s@, c) == Some((a@, b@)),
        r is None ==> split_once(s@, c) is None,
{
    let mut i: usize = 0;
    while i < s.len()
        invariant
            i <= s.len(),
            forall|j: int| 0 <= j < i ==> s@[j] != c,
        decreases s.len() - i,
    {
        if s[i] == c {
            assert(is_first_of(s@, c, i as int));
            let ghost k = choose|k: int| is_first_of(s@, c, k);
            assert(k == i);
            return Some((prefix_to(s, i), suffix_from(s, i + 1)));
        }
        i = i + 1;
    }
    None
}

/// Whether `c` occurs in `s`.
pub fn contains_char(s: &Vec<char>, c: char) -> (r: bool)
    ensures
        r == s@.contains(c),
{
    let mut i: usize = 0;
    while i < s.len()
        invariant
            i <= s.len(),
            forall|j: int| 0 <= j < i ==> s@[j] != c,
        decreases s.len() - i,
    {
        if s[i] == c {
            return true;
        }
        i = i + 1;
    }
    false
}

// ---------------------------------------------------------------------------
// Replacing
// ---------------------------------------------------------------------------

/// `str::replace`: every non-overlapping occurrence of `pat`, scanning from
/// the left, replaced by `rep`.
pub open spec fn replace(s: Seq<char>, pat: Seq<char>, rep: Seq<char>) -> Seq<char>
    decreases s.len(),
{
    if s.len() == 0 || pat.len() == 0 {
        s
    } else if starts_with(s, pat) {
        rep + replace(s.skip(pat.len() as int), pat, rep)
    } else {
        seq![s[0]] + replace(s.drop_first(), pat, rep)
    }
}

/// `str::replace` with a non-empty pattern.
pub fn replace_chars(s: &Vec<char>, pat: &str, rep: &str) -> (r: Vec<char>)
    requires
        pat@.len() > 0,
    ensures
        r@ == replace(s@, pat@, rep@),
{
    let pv = chars_of(pat);
    let rv = chars_of(rep);
    let mut out: Vec<char> = Vec::new();
    let mut i: usize = 0;
    assert(s@.skip(0) == s@);
    while i < s.len()
        invariant
            i <= s.len(),
            pv@ == pat@,
            rv@ == rep@,
            pv@.len() > 0,
            replace(s@, pv@, rv@) == out@ + replace(s@.skip(i as int), pv@, rv@),
        decreases s.len() - i,
    {
        let ghost rest = s@.skip(i as int);
        if has_prefix_at(s, i, &pv) {
            assert(rest.skip(pv@.len() as int) == s@.skip(i + pv.len()));
            push_all(&mut out, &rv);
            i = i + pv.len();
        } else {
            assert(rest.drop_first() == s@.skip(i + 1));
            out.push(s[i]);
            i = i + 1;
        }
    }
    assert(s@.skip(i as int).len() == 0);
    out
}

/// `str::replace` on a string, with a non-empty pattern.
pub fn replace_string(s: &str, pat: &str, rep: &str) -> (r: String)
    requires
        pat@.len() > 0,
    ensures
        r@ == replace(s@, pat@, rep@),
{
    string_of(&replace_chars(&chars_of(s), pat, rep))
}

// ---------------------------------------------------------------------------
// Tokens
// ---------------------------------------------------------------------------

/// The maximal runs of alphanumeric characters of `s`, in order: what
/// splitting `s` at every non-alphanumeric character and dropping the empty
/// pieces gives.
pub open spec fn words(s: Seq<char>) -> Seq<Seq<char>>
    decreases s.len(),
{
    if s.len() == 0 {
        seq![]
    } else if !char_is_alphanumeric(s.last()) {
        words(s.drop_last())
    } else if s.len() >= 2 && char_is_alphanumeric(s[s.len() - 2]) {
        let w = words(s.drop_last());
        w.update(w.len() - 1, w.last().push(s.last()))
    } else {
        words(s.drop_last()).push(seq![s.last()])
    }
}

/// The words of an ASCII text: its maximal runs of ASCII letters and digits.
pub open spec fn ascii_words(s: Seq<char>) -> Seq<Seq<char>>
    decreases s.len(),
{
    if s.len() == 0 {
        seq![]
    } else if !is_ascii_alnum(s.last()) {
        ascii_words(s.drop_last())
    } else if s.len() >= 2 && is_ascii_alnum(s[s.len() - 2]) {
        let w = ascii_words(s.drop_last());
        w.update(w.len() - 1, w.last().push(s.last()))
    } else {
        ascii_words(s.drop_last()).push(seq![s.last()])
    }
}

/// On text whose characters are alphanumeric exactly when they are ASCII
/// letters or digits, the words are the runs of ASCII letters and digits.
proof fn lemma_ascii_words(s: Seq<char>)
    requires
        forall|i: int| 0 <= i < s.len() ==> (char_is_alphanumeric(#[trigger] s[i]) <==> is_ascii_alnum(s[i])),
    ensures
        words(s) == ascii_words(s),
    decreases s.len(),
{
    if s.len() > 0 {
        let t = s.drop_last();
        assert forall|i: int| 0 <= i < t.len() implies (char_is_alphanumeric(#[trigger] t[i]) <==> is_ascii_alnum(
            t[i],
        )) by {
            assert(t[i] == s[i]);
        }
        lemma_ascii_words(t);
        assert(char_is_alphanumeric(s[s.len() - 1]) <==> is_ascii_alnum(s[s.len() - 1]));
        if s.len() >= 2 {
            assert(char_is_alphanumeric(s[s.len() - 2]) <==> is_ascii_alnum(s[s.len() - 2]));
        }
    }
}

/// The tokens of a text: the words of its lowercase form.
pub open spec fn tokens(text: Seq<char>) -> Seq<Seq<char>> {
    words(lowercase(text))
}

proof fn lemma_words_nonempty_last(s: Seq<char>)
    requires
        s.len() > 0,
        char_is_alphanumeric(s.last()),
    ensures
        words(s).len() > 0,
    decreases s.len(),
{
    if s.len() >= 2 && char_is_alphanumeric(s[s.len() - 2]) {
        lemma_words_nonempty_last(s.drop_last());
    }
}

/// Splits `s` into its words.
pub fn split_words(s: &Vec<char>) -> (r: Vec<String>)
    ensures
        views(r@) == words(s@),
        all_ascii(s@) ==> views(r@) == ascii_words(s@),
{
    let mut done: Vec<String> = Vec::new();
    let mut cur: Vec<char> = Vec::new();
    let mut i: usize = 0;
    while i < s.len()
        invariant
            i <= s.len(),
            cur@.len() > 0 ==> views(done@).push(cur@) == words(s@.take(i as int)),
            cur@.len() == 0 ==> views(done@) == words(s@.take(i as int)),
            cur@.len() > 0 <==> (i > 0 && char_is_alphanumeric(s@[i - 1])),
            forall|j: int|
                0 <= j < i && is_ascii(#[trigger] s@[j]) ==> (char_is_alphanumeric(s@[j]) <==> is_ascii_alnum(s@[j])),
        decreases s.len() - i,
    {
        let c = s[i];
        let ghost pre = s@.take(i as int);
        let ghost next = s@.take(i + 1 as int);
        assert(next.drop_last() == pre);
        assert(next.last() == c);
        if is_alphanumeric(c) {
            if cur.len() > 0 {
                assert(pre.len() >= 1 && pre.last() == s@[i - 1]);
                assert(next[next.len() - 2] == s@[i - 1]);
                let ghost w = words(pre);
                assert(w == views(done@).push(cur@));
                assert(words(next) == w.update(w.len() - 1, w.last().push(c)));
                assert(views(done@).push(cur@.push(c)) =~= w.update(w.len() - 1, w.last().push(c)));
            } else {
                assert(!(i > 0 && char_is_alphanumeric(s@[i - 1])));
                assert(next.len() >= 2 ==> next[next.len() - 2] == s@[i - 1]);
                assert(words(next) == words(pre).push(seq![c]));
            }
            cur.push(c);
            assert(cur@.len() == 1 ==> cur@ =~= seq![c]);
        } else {
            if cur.len() > 0 {
                let w = string_of(&cur);
                done.push(w);
                assert(views(done@) == views(done@.drop_last()).push(w@));
                cur = Vec::new();
            }
        }
        i = i + 1;
    }
    if cur.len() > 0 {
        let w = string_of(&cur);
        done.push(w);
        assert(views(done@) == views(done@.drop_last()).push(w@));
    }
    assert(s@.take(s.len() as int) == s@);
    proof {
        if all_ascii(s@) {
            assert forall|j: int| 0 <= j < s@.len() implies (char_is_alphanumeric(#[trigger] s@[j]) <==> is_ascii_alnum(
                s@[j],
            )) by {
                assert(is_ascii(s@[j]));
            }
            lemma_ascii_words(s@);
        }
    }
    done
}

/// Tokenizes a text: lowercase it, split it at every non-alphanumeric
/// character and drop the empty pieces.
pub fn tokenize(text: &str) -> (r: Vec<String>)
    ensures
        views(r@) == tokens(text@),
        all_ascii(text@) ==> tokens(text@) == ascii_words(ascii_lowercase(text@)),
{
    let lower = to_lowercase(text);
    proof {
        if all_ascii(text@) {
            assert forall|i: int| 0 <= i < lower@.len() implies is_ascii(#[trigger] lower@[i]) by {
                assert(is_ascii(text@[i]));
            }
        }
    }
    split_words(&chars_of(lower.as_str()))
}

/// Every word is non-empty and made of alphanumeric characters only: what
/// splitting at the non-alphanumeric characters and dropping the empty
/// pieces leaves.
pub proof fn law_words_are_alphanumeric(s: Seq<char>)
    ensures
        forall|i: int| 0 <= i < words(s).len() ==> (#[trigger] words(s)[i]).len() > 0,
        forall|i: int, j: int|
            0 <= i < words(s).len() && 0 <= j < words(s)[i].len() ==> char_is_alphanumeric(
                #[trigger] words(s)[i][j],
            ),
    decreases s.len(),
{
    if s.len() > 0 {
        law_words_are_alphanumeric(s.drop_last());
        let w = words(s.drop_last());
        if char_is_alphanumeric(s.last()) && s.len() >= 2 && char_is_alphanumeric(s[s.len() - 2]) {
            lemma_words_nonempty_last(s.drop_last());
            let last = w.last().push(s.last());
            assert forall|i: int, j: int|
                0 <= i < words(s).len() && 0 <= j < words(s)[i].len() implies char_is_alphanumeric(
                #[trigger] words(s)[i][j],
            ) by {
                if i == w.len() - 1 {
                    if j < w.last().len() {
                        assert(words(s)[i][j] == w[w.len() - 1][j]);
                    }
                } else {
                    assert(words(s)[i] == w[i]);
                }
            }
        } else if char_is_alphanumeric(s.last()) {
            assert forall|i: int, j: int|
                0 <= i < words(s).len() && 0 <= j < words(s)[i].len() implies char_is_alphanumeric(
                #[trigger] words(s)[i][j],
            ) by {
                if i < w.len() {
                    assert(words(s)[i] == w[i]);
                }
            }
        }
    }
}

/// Replacing never brings in a character that neither the text nor the
/// replacement holds, and replacing a one-character pattern by a text
/// without it leaves none of it.
pub proof fn lemma_replace_absent(s: Seq<char>, pat: Seq<char>, rep: Seq<char>, c: char)
    requires
        !rep.contains(c),
        !s.contains(c) || pat == seq![c],
    ensures
        !replace(s, pat, rep).contains(c),
    decreases s.len(),
{
    if s.len() > 0 && pat.len() > 0 {
        let r = replace(s, pat, rep);
        if starts_with(s, pat) {
            let rest = s.skip(pat.len() as int);
            assert forall|k: int| 0 <= k < rest.len() implies rest[k] != c || pat == seq![c] by {
                assert(rest[k] == s[k + pat.len()]);
            }
            lemma_replace_absent(rest, pat, rep, c);
            assert(r == rep + replace(rest, pat, rep));
            if r.contains(c) {
                let k = choose|k: int| 0 <= k < r.len() && r[k] == c;
                if k < rep.len() {
                    assert(rep[k] == c);
                } else {
                    assert(replace(rest, pat, rep)[k - rep.len()] == c);
                }
            }
        } else {
            let rest = s.drop_first();
            assert forall|k: int| 0 <= k < rest.len() implies rest[k] != c || pat == seq![c] by {
                assert(rest[k] == s[k + 1]);
            }
            lemma_replace_absent(rest, pat, rep, c);
            if pat == seq![c] {
                assert(s[0] != c) by {
                    if s[0] == c {
                        assert(s.take(1) =~= seq![c]);
                    }
                }
            }
            assert(r == seq![s[0]] + replace(rest, pat, rep));
            if r.contains(c) {
                let k = choose|k: int| 0 <= k < r.len() && r[k] == c;
                if k > 0 {
                    assert(replace(rest, pat, rep)[k - 1] == c);
                }
            }
        }
    }
}

} // verus!
