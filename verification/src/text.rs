//! Character-level text handling shared by the Steam file parsers and the
//! list filter: whitespace trimming, line splitting, quoted key/value lines,
//! decimal numbers and substring search, all stated over `Seq<char>`.
use vstd::prelude::*;

verus! {

/// An element is in `s.push(x)` exactly when it is in `s` or is `x`.
pub proof fn lemma_push_contains<A>(s: Seq<A>, x: A, y: A)
    ensures
        s.push(x).contains(y) <==> (s.contains(y) || y == x),
{
    if s.push(x).contains(y) {
        let k = choose|k: int| 0 <= k < s.len() + 1 && s.push(x)[k] == y;
        if k < s.len() {
            assert(s[k] == y);
        }
    }
    if s.contains(y) {
        let k = choose|k: int| 0 <= k < s.len() && s[k] == y;
        assert(s.push(x)[k] == y);
    }
    if y == x {
        assert(s.push(x)[s.len() as int] == y);
    }
}

// ─── Whitespace and trimming ─────────────────────────────────────────────────

/// `char::is_whitespace`: the characters with the Unicode `White_Space` property.
pub open spec fn is_space(c: char) -> bool {
    ||| '\t' <= c <= '\r'
    ||| c == ' '
    ||| c == '\u{85}'
    ||| c == '\u{a0}'
    ||| c == '\u{1680}'
    ||| '\u{2000}' <= c <= '\u{200a}'
    ||| c == '\u{2028}'
    ||| c == '\u{2029}'
    ||| c == '\u{202f}'
    ||| c == '\u{205f}'
    ||| c == '\u{3000}'
}

/// Whether `c` is Unicode whitespace.
pub fn char_is_space(c: char) -> (r: bool)
    ensures
        r == is_space(c),
{
    ('\t' <= c && c <= '\r') || c == ' ' || c == '\u{85}' || c == '\u{a0}' || c == '\u{1680}'
        || ('\u{2000}' <= c && c <= '\u{200a}') || c == '\u{2028}' || c == '\u{2029}' || c
        == '\u{202f}' || c == '\u{205f}' || c == '\u{3000}'
}

/// The first index at or after `i` that does not hold whitespace (or the length).
pub open spec fn skip_spaces(s: Seq<char>, i: int) -> int
    decreases s.len() - i,
{
    if 0 <= i < s.len() && is_space(s[i]) {
        skip_spaces(s, i + 1)
    } else {
        i
    }
}

/// Walking back from `j` towards `lo`, the end of the text once trailing
/// whitespace is dropped.
pub open spec fn back_spaces(s: Seq<char>, lo: int, j: int) -> int
    decreases j - lo,
{
    if lo < j && j <= s.len() && is_space(s[j - 1]) {
        back_spaces(s, lo, j - 1)
    } else {
        j
    }
}

pub open spec fn trim_lo(s: Seq<char>) -> int {
    skip_spaces(s, 0)
}

pub open spec fn trim_hi(s: Seq<char>) -> int {
    back_spaces(s, trim_lo(s), s.len() as int)
}

/// `str::trim`: the text without leading and trailing whitespace.
pub open spec fn trimmed(s: Seq<char>) -> Seq<char> {
    s.subrange(trim_lo(s), trim_hi(s))
}

pub proof fn lemma_skip_spaces_bounds(s: Seq<char>, i: int)
    requires
        0 <= i <= s.len(),
    ensures
        i <= skip_spaces(s, i) <= s.len(),
    decreases s.len() - i,
{
    if i < s.len() && is_space(s[i]) {
        lemma_skip_spaces_bounds(s, i + 1);
    }
}

pub proof fn lemma_back_spaces_bounds(s: Seq<char>, lo: int, j: int)
    requires
        0 <= lo <= j <= s.len(),
    ensures
        lo <= back_spaces(s, lo, j) <= j,
    decreases j - lo,
{
    if lo < j && is_space(s[j - 1]) {
        lemma_back_spaces_bounds(s, lo, j - 1);
    }
}

pub proof fn lemma_trim_bounds(s: Seq<char>)
    ensures
        0 <= trim_lo(s) <= trim_hi(s) <= s.len(),
{
    lemma_skip_spaces_bounds(s, 0);
    lemma_back_spaces_bounds(s, trim_lo(s), s.len() as int);
}

/// The bounds `[lo, hi)` of `s` once surrounding whitespace is trimmed.
pub fn trim_bounds(s: &Vec<char>) -> (r: (usize, usize))
    ensures
        r.0 == trim_lo(s@),
        r.1 == trim_hi(s@),
        r.0 <= r.1 <= s.len(),
{
    proof {
        lemma_trim_bounds(s@);
    }
    let mut lo: usize = 0;
    while lo < s.len() && char_is_space(s[lo])
        invariant
            lo <= s.len(),
            skip_spaces(s@, lo as int) == trim_lo(s@),
        decreases s.len() - lo,
    {
        lo = lo + 1;
    }
    let mut hi: usize = s.len();
    while lo < hi && char_is_space(s[hi - 1])
        invariant
            lo <= hi <= s.len(),
            lo == trim_lo(s@),
            back_spaces(s@, lo as int, hi as int) == trim_hi(s@),
        decreases hi - lo,
    {
        hi = hi - 1;
    }
    (lo, hi)
}

// ─── Character vectors and strings ───────────────────────────────────────────

/// The characters of `s`, in order.
pub fn to_chars(s: &str) -> (r: Vec<char>)
    ensures
        r@ == s@,
{
    let mut r: Vec<char> = Vec::new();
    for c in it: s.chars()
        invariant
            r@ == it.seq().take(it.index() as int),
            it.seq() == s@,
    {
        r.push(c);
    }
    r
}

/// `String::push`: appends one character.
#[verifier::external_body]
pub(crate) fn push_char(s: &mut String, c: char)
    ensures
        final(s)@ == old(s)@.push(c),
{
    s.push(c);
}

/// The text without its last character (unchanged when empty).
pub fn without_last_char(s: &str) -> (r: String)
    ensures
        s@.len() > 0 ==> r@ == s@.drop_last(),
        s@.len() == 0 ==> r@ == s@,
{
    let chars = to_chars(s);
    let end = if chars.len() > 0 {
        chars.len() - 1
    } else {
        0
    };
    let r = string_of_range(&chars, 0, end);
    assert(r@ =~= (if s@.len() > 0 {
        s@.drop_last()
    } else {
        s@
    }));
    r
}

/// The string made of the characters `s[lo..hi]`.
pub fn string_of_range(s: &Vec<char>, lo: usize, hi: usize) -> (r: String)
    requires
        lo <= hi <= s.len(),
    ensures
        r@ == s@.subrange(lo as int, hi as int),
{
    let mut r = String::new();
    let mut i = lo;
    while i < hi
        invariant
            lo <= i <= hi <= s.len(),
            r@ == s@.subrange(lo as int, i as int),
        decreases hi - i,
    {
        push_char(&mut r, s[i]);
        i = i + 1;
        assert(r@ =~= s@.subrange(lo as int, i as int));
    }
    r
}

/// The string made of all the characters of `s`.
pub fn string_of_chars(s: &Vec<char>) -> (r: String)
    ensures
        r@ == s@,
{
    let r = string_of_range(s, 0, s.len());
    assert(s@.subrange(0, s@.len() as int) =~= s@);
    r
}

/// A copy of `s[lo..hi]`.
pub fn copy_range(s: &Vec<char>, lo: usize, hi: usize) -> (r: Vec<char>)
    requires
        lo <= hi <= s.len(),
    ensures
        r@ == s@.subrange(lo as int, hi as int),
{
    let mut r: Vec<char> = Vec::new();
    let mut i = lo;
    while i < hi
        invariant
            lo <= i <= hi <= s.len(),
            r@ == s@.subrange(lo as int, i as int),
        decreases hi - i,
    {
        r.push(s[i]);
        i = i + 1;
        assert(r@ =~= s@.subrange(lo as int, i as int));
    }
    r
}

/// Whether `s[at..at + lit.len()]` equals `lit`.
pub fn matches_at(s: &Vec<char>, at: usize, lit: &Vec<char>) -> (r: bool)
    requires
        at <= s.len(),
    ensures
        r == (at + lit.len() <= s.len() && s@.subrange(at as int, at + lit.len()) == lit@),
{
    if lit.len() > s.len() - at {
        return false;
    }
    let mut k: usize = 0;
    while k < lit.len()
        invariant
            at + lit.len() <= s.len(),
            k <= lit.len(),
            forall|j: int| 0 <= j < k ==> s@[at + j] == lit@[j],
        decreases lit.len() - k,
    {
        if s[at + k] != lit[k] {
            assert(s@.subrange(at as int, at + lit.len())[k as int] != lit@[k as int]);
            return false;
        }
        k = k + 1;
    }
    assert(s@.subrange(at as int, at + lit.len()) =~= lit@);
    true
}

/// Whether two character vectors are equal.
pub fn chars_equal(a: &Vec<char>, b: &Vec<char>) -> (r: bool)
    ensures
        r == (a@ == b@),
{
    if a.len() != b.len() {
        return false;
    }
    let r = matches_at(a, 0, b);
    assert(a@.subrange(0, a@.len() as int) =~= a@);
    r
}

// ─── Case folding ────────────────────────────────────────────────────────────

// The Unicode lowercase mapping of a text, as `str::to_lowercase` gives it.
pub uninterp spec fn lowercase(s: Seq<char>) -> Seq<char>;

/// Every character of `s` is ASCII.
pub open spec fn ascii_text(s: Seq<char>) -> bool {
    forall|i: int| 0 <= i < s.len() ==> (s[i] as u32) < 128
}

/// An ASCII character in lowercase: `A`..`Z` become `a`..`z`, the others stay.
pub open spec fn ascii_lower(c: char) -> char {
    if 'A' <= c <= 'Z' {
        ((c as u32) + 32) as char
    } else {
        c
    }
}

/// The text with `ascii_lower` applied to each character.
pub open spec fn ascii_lowercase(s: Seq<char>) -> Seq<char> {
    s.map_values(|c: char| ascii_lower(c))
}

/// `str::to_lowercase`: the text in lowercase, by Unicode's lowercase
/// mapping. The contract names the result (`lowercase`), a function of the
/// text alone, and states what the mapping does to ASCII text: the letters
/// `A`..`Z` become `a`..`z` and every other character stays (so the empty
/// text stays empty). What it does to other characters (Unicode's tables)
/// is not stated.
#[verifier::external_body]
pub(crate) fn to_lowercase(s: &str) -> (r: String)
    ensures
        r@ == lowercase(s@),
        s@.len() == 0 ==> r@.len() == 0,
        ascii_text(s@) ==> r@ == ascii_lowercase(s@),
{
    s.to_lowercase()
}

// ─── Searching ───────────────────────────────────────────────────────────────

/// The first index at or after `i` that holds `c`, or the length if none does.
pub open spec fn find_char(s: Seq<char>, c: char, i: int) -> int
    decreases s.len() - i,
{
    if !(0 <= i < s.len()) {
        s.len() as int
    } else if s[i] == c {
        i
    } else {
        find_char(s, c, i + 1)
    }
}

pub proof fn lemma_find_char_bounds(s: Seq<char>, c: char, i: int)
    requires
        0 <= i,
    ensures
        i <= s.len() ==> i <= find_char(s, c, i) <= s.len(),
        i > s.len() ==> find_char(s, c, i) == s.len(),
        find_char(s, c, i) < s.len() ==> s[find_char(s, c, i)] == c,
        forall|k: int| i <= k < find_char(s, c, i) ==> s[k] != c,
    decreases s.len() - i,
{
    if 0 <= i < s.len() && s[i] != c {
        lemma_find_char_bounds(s, c, i + 1);
    }
}

/// The first index at or after `i` holding `c`, or `s.len()`.
pub fn find_char_from(s: &Vec<char>, c: char, i: usize) -> (r: usize)
    requires
        i <= s.len(),
    ensures
        r == find_char(s@, c, i as int),
        i <= r <= s.len(),
{
    proof {
        lemma_find_char_bounds(s@, c, i as int);
    }
    let mut k = i;
    while k < s.len() && s[k] != c
        invariant
            i <= k <= s.len(),
            find_char(s@, c, k as int) == find_char(s@, c, i as int),
        decreases s.len() - k,
    {
        k = k + 1;
    }
    k
}

/// `str::contains`: `needle` occurs as a contiguous part of `hay`.
pub open spec fn has_substring(hay: Seq<char>, needle: Seq<char>) -> bool {
    exists|i: int|
        0 <= i && i + needle.len() <= hay.len() && #[trigger] hay.subrange(i, i + needle.len())
            == needle
}

/// Whether `needle` occurs in `hay`.
pub fn contains_chars(hay: &Vec<char>, needle: &Vec<char>) -> (r: bool)
    ensures
        r == has_substring(hay@, needle@),
{
    if needle.len() == 0 {
        assert(hay@.subrange(0, 0 + needle.len()) =~= needle@);
        return true;
    }
    if needle.len() > hay.len() {
        return false;
    }
    let last = hay.len() - needle.len();
    let mut i: usize = 0;
    while i <= last
        invariant
            last + needle.len() == hay.len(),
            needle.len() >= 1,
            i <= last + 1,
            forall|j: int|
                0 <= j < i ==> #[trigger] hay@.subrange(j, j + needle.len()) != needle@,
        decreases last + 1 - i,
    {
        if matches_at(hay, i, needle) {
            return true;
        }
        i = i + 1;
    }
    false
}

// ─── Lines ───────────────────────────────────────────────────────────────────

/// A line without the carriage return of a `\r\n` ending.
pub open spec fn strip_cr(l: Seq<char>) -> Seq<char> {
    if l.len() > 0 && l.last() == '\r' {
        l.drop_last()
    } else {
        l
    }
}

/// The lines of `s` from index `pos` on, as `str::lines` gives them: split at
/// `\n`, a `\r` before the `\n` dropped, no empty line after a final `\n`.
pub open spec fn lines_from(s: Seq<char>, pos: int) -> Seq<Seq<char>>
    decreases s.len() - pos,
{
    if !(0 <= pos < s.len()) {
        Seq::empty()
    } else {
        let e = find_char(s, '\n', pos);
        proof {
            lemma_find_char_bounds(s, '\n', pos);
        }
        if e >= s.len() {
            seq![s.subrange(pos, s.len() as int)]
        } else {
            seq![strip_cr(s.subrange(pos, e))] + lines_from(s, e + 1)
        }
    }
}

/// `str::lines`.
pub open spec fn text_lines(s: Seq<char>) -> Seq<Seq<char>> {
    lines_from(s, 0)
}

/// The views of a vector of character vectors.
pub open spec fn char_rows(v: Seq<Vec<char>>) -> Seq<Seq<char>> {
    v.map_values(|l: Vec<char>| l@)
}

/// The lines of `s`.
pub fn split_lines(s: &Vec<char>) -> (r: Vec<Vec<char>>)
    ensures
        char_rows(r@) == text_lines(s@),
{
    let mut r: Vec<Vec<char>> = Vec::new();
    let mut pos: usize = 0;
    while pos < s.len()
        invariant
            pos <= s.len(),
            text_lines(s@) == char_rows(r@) + lines_from(s@, pos as int),
        decreases s.len() - pos,
    {
        let e = find_char_from(s, '\n', pos);
        let ghost before = r@;
        if e >= s.len() {
            let line = copy_range(s, pos, s.len());
            r.push(line);
            assert(char_rows(r@) =~= char_rows(before) + seq![s@.subrange(pos as int, s.len() as int)]);
            assert(lines_from(s@, s.len() as int) =~= Seq::<Seq<char>>::empty());
            pos = s.len();
        } else {
            let mut line = copy_range(s, pos, e);
            if line.len() > 0 && line[line.len() - 1] == '\r' {
                line.pop();
                assert(line@ =~= s@.subrange(pos as int, e as int).drop_last());
            }
            r.push(line);
            assert(char_rows(r@) =~= char_rows(before) + seq![strip_cr(s@.subrange(pos as int, e as int))]);
            pos = e + 1;
        }
    }
    assert(lines_from(s@, pos as int) =~= Seq::<Seq<char>>::empty());
    assert(char_rows(r@) + Seq::<Seq<char>>::empty() =~= char_rows(r@));
    r
}

// ─── Quoted key/value lines ──────────────────────────────────────────────────

/// What a VDF text line such as `\t"key"\t\t"value"` holds: after trimming,
/// the line starts with `"`; the key is the text up to the second `"`, the
/// value the text between the third `"` and the fourth (or the end). A line
/// with fewer than three quotes, or with an empty key, holds nothing.
pub open spec fn kv_parts(line: Seq<char>) -> Option<(Seq<char>, Seq<char>)> {
    let t = trimmed(line);
    if t.len() == 0 || t[0] != '"' {
        None
    } else {
        let q2 = find_char(t, '"', 1);
        let q3 = find_char(t, '"', q2 + 1);
        if q3 >= t.len() {
            None
        } else {
            let q4 = find_char(t, '"', q3 + 1);
            let key = t.subrange(1, q2);
            if key.len() == 0 {
                None
            } else {
                Some((key, t.subrange(q3 + 1, q4)))
            }
        }
    }
}

/// The positions in `line` of the key and of the value of a quoted
/// key/value line: `(key_lo, key_hi, val_lo, val_hi)`.
pub fn kv_bounds(line: &Vec<char>) -> (r: Option<(usize, usize, usize, usize)>)
    ensures
        r is None <==> kv_parts(line@) is None,
        r matches Some((a, b, c, d)) ==> {
            &&& a <= b <= line.len()
            &&& c <= d <= line.len()
            &&& kv_parts(line@) == Some(
                (line@.subrange(a as int, b as int), line@.subrange(c as int, d as int)),
            )
        },
{
    let (lo, hi) = trim_bounds(line);
    let t = copy_range(line, lo, hi);
    assert(t@ == trimmed(line@));
    if t.len() == 0 || t[0] != '"' {
        return None;
    }
    let q2 = find_char_from(&t, '"', 1);
    if q2 >= t.len() {
        proof {
            lemma_find_char_bounds(t@, '"', q2 + 1);
        }
        return None;
    }
    let q3 = find_char_from(&t, '"', q2 + 1);
    if q3 >= t.len() {
        return None;
    }
    let q4 = find_char_from(&t, '"', q3 + 1);
    if q2 == 1 {
        return None;
    }
    assert(line@.subrange(lo + 1, lo + q2) =~= t@.subrange(1, q2 as int));
    assert(line@.subrange(lo + q3 + 1, lo + q4) =~= t@.subrange(q3 + 1, q4 as int));
    Some((lo + 1, lo + q2, lo + q3 + 1, lo + q4))
}

// ─── Decimal numbers ─────────────────────────────────────────────────────────

pub open spec fn is_digit(c: char) -> bool {
    '0' <= c <= '9'
}

pub open spec fn digit_value(c: char) -> nat {
    (c as int - '0' as int) as nat
}

/// The number that a run of decimal digits spells.
pub open spec fn decimal_value(d: Seq<char>) -> nat
    decreases d.len(),
{
    if d.len() == 0 {
        0
    } else {
        decimal_value(d.drop_last()) * 10 + digit_value(d.last())
    }
}

/// The digits that `from_str` reads: the text without one leading `+`.
pub open spec fn unsigned_digits(s: Seq<char>) -> Seq<char> {
    if s.len() > 0 && s[0] == '+' {
        s.drop_first()
    } else {
        s
    }
}

/// `<uN as FromStr>::from_str` for an unsigned type whose largest value is
/// `max`: an optional `+`, then at least one decimal digit and nothing else,
/// and a value no larger than `max`.
pub open spec fn parse_unsigned(s: Seq<char>, max: nat) -> Option<nat> {
    let d = unsigned_digits(s);
    if d.len() > 0 && (forall|i: int| 0 <= i < d.len() ==> is_digit(#[trigger] d[i]))
        && decimal_value(d) <= max {
        Some(decimal_value(d))
    } else {
        None
    }
}

/// Reads an unsigned decimal number no larger than `max`, as `str::parse`
/// does for the unsigned integer type whose largest value is `max`.
pub fn parse_unsigned_chars(s: &Vec<char>, max: u64) -> (r: Option<u64>)
    ensures
        r is None <==> parse_unsigned(s@, max as nat) is None,
        r matches Some(x) ==> parse_unsigned(s@, max as nat) == Some(x as nat),
{
    let start: usize = if s.len() > 0 && s[0] == '+' {
        1
    } else {
        0
    };
    let ghost d = unsigned_digits(s@);
    assert(d =~= s@.subrange(start as int, s@.len() as int));
    if start >= s.len() {
        assert(d.len() == 0);
        return None;
    }
    let mut acc: u64 = 0;
    let mut over = false;
    let mut i = start;
    while i < s.len()
        invariant
            start <= i <= s.len(),
            d == unsigned_digits(s@),
            d =~= s@.subrange(start as int, s@.len() as int),
            forall|k: int| 0 <= k < i - start ==> is_digit(#[trigger] d[k]),
            !over ==> acc == decimal_value(d.take(i - start)) && acc <= max,
            over ==> decimal_value(d.take(i - start)) > max,
        decreases s.len() - i,
    {
        let c = s[i];
        if !('0' <= c && c <= '9') {
            assert(d[i - start] == c);
            assert(!is_digit(d[i - start]));
            return None;
        }
        let ghost k = i - start;
        assert(d.take(k + 1).drop_last() =~= d.take(k));
        assert(d.take(k + 1).last() == c);
        let dv = (c as u32 - '0' as u32) as u64;
        if !over {
            if (acc as u128) * 10 + (dv as u128) > (max as u128) {
                over = true;
            } else {
                acc = acc * 10 + dv;
            }
        } else {
            assert(decimal_value(d.take(k + 1)) >= decimal_value(d.take(k)) * 10);
        }
        i = i + 1;
    }
    assert(d.take(d.len() as int) =~= d);
    if over {
        None
    } else {
        Some(acc)
    }
}

pub open spec fn digit_char(d: nat) -> char {
    ('0' as int + d) as char
}

/// The decimal digits of `n`, as `to_string` writes an unsigned integer.
pub open spec fn decimal_text(n: nat) -> Seq<char>
    decreases n,
{
    if n < 10 {
        seq![digit_char(n)]
    } else {
        decimal_text(n / 10).push(digit_char(n % 10))
    }
}

/// The decimal text of `n`, as characters.
pub fn decimal_chars(n: u64) -> (r: Vec<char>)
    ensures
        r@ == decimal_text(n as nat),
{
    // digits from the lowest up
    let mut rev: Vec<char> = Vec::new();
    let mut m = n;
    let ghost mut suffix: Seq<char> = Seq::empty();
    while m >= 10
        invariant
            decimal_text(n as nat) == decimal_text(m as nat) + suffix,
            rev@ == suffix.reverse(),
        decreases m,
    {
        let c = (((m % 10) as u8) + 48u8) as char;
        assert(c == digit_char((m % 10) as nat));
        rev.push(c);
        proof {
            assert(decimal_text(m as nat) == decimal_text((m / 10) as nat).push(c));
            assert(decimal_text(m as nat) + suffix =~= decimal_text((m / 10) as nat) + (seq![c]
                + suffix));
            suffix = seq![c] + suffix;
            assert(rev@ =~= suffix.reverse());
        }
        m = m / 10;
    }
    let c = ((m as u8) + 48u8) as char;
    assert(c == digit_char(m as nat));
    rev.push(c);
    proof {
        assert(decimal_text(m as nat) == seq![c]);
        suffix = seq![c] + suffix;
        assert(rev@ =~= suffix.reverse());
    }
    let mut r: Vec<char> = Vec::new();
    let mut k = rev.len();
    while k > 0
        invariant
            k <= rev.len(),
            rev@ == suffix.reverse(),
            r@ =~= suffix.take(rev.len() - k),
        decreases k,
    {
        k = k - 1;
        r.push(rev[k]);
        assert(suffix.take(rev.len() - k) =~= suffix.take(rev.len() - k - 1).push(
            suffix[rev.len() - k - 1],
        ));
    }
    assert(suffix.take(suffix.len() as int) =~= suffix);
    assert(decimal_text(n as nat) =~= suffix);
    r
}

/// The decimal text of `n`, as a string.
pub fn decimal_string(n: u64) -> (r: String)
    ensures
        r@ == decimal_text(n as nat),
{
    let c = decimal_chars(n);
    string_of_chars(&c)
}

/// `find_char` stops at the first `c` from `i` on.
pub proof fn lemma_find_char_at(s: Seq<char>, c: char, i: int, m: int)
    requires
        0 <= i <= m < s.len(),
        s[m] == c,
        forall|j: int| i <= j < m ==> s[j] != c,
    ensures
        find_char(s, c, i) == m,
    decreases m - i,
{
    if i < m {
        lemma_find_char_at(s, c, i + 1, m);
    }
}

/// A key/value line written as `\t"key"\t\t"value"` reads back as that key
/// and value, for a non-empty key and texts without quotes.
pub proof fn lemma_kv_line_round_trip(k: Seq<char>, v: Seq<char>)
    requires
        k.len() > 0,
        forall|i: int| 0 <= i < k.len() ==> k[i] != '"',
        forall|i: int| 0 <= i < v.len() ==> v[i] != '"',
    ensures
        kv_parts(seq!['\t', '"'] + k + seq!['"', '\t', '\t', '"'] + v + seq!['"']) == Some((k, v)),
{
    let line = seq!['\t', '"'] + k + seq!['"', '\t', '\t', '"'] + v + seq!['"'];
    let kl = k.len() as int;
    let vl = v.len() as int;
    let n = line.len() as int;
    assert(n == 7 + kl + vl);
    assert(line[0] == '\t');
    assert(line[1] == '"');
    assert(line[n - 1] == '"');
    assert(skip_spaces(line, 1) == 1);
    assert(trim_lo(line) == 1);
    assert(back_spaces(line, 1, n) == n);
    let t = trimmed(line);
    assert(t =~= line.subrange(1, n));
    assert(t.len() == 6 + kl + vl);
    assert(t[0] == '"');
    assert forall|j: int| 1 <= j < 1 + kl implies t[j] != '"' by {
        assert(t[j] == k[j - 1]);
    }
    assert(t[1 + kl] == '"');
    lemma_find_char_at(t, '"', 1, 1 + kl);
    assert(t[2 + kl] == '\t');
    assert(t[3 + kl] == '\t');
    assert(t[4 + kl] == '"');
    lemma_find_char_at(t, '"', 2 + kl, 4 + kl);
    assert forall|j: int| 5 + kl <= j < 5 + kl + vl implies t[j] != '"' by {
        assert(t[j] == v[j - 5 - kl]);
    }
    assert(t[5 + kl + vl] == '"');
    lemma_find_char_at(t, '"', 5 + kl, 5 + kl + vl);
    assert(t.subrange(1, 1 + kl) =~= k);
    assert(t.subrange(5 + kl, 5 + kl + vl) =~= v);
}

/// The value of the decimal digits of `n` is `n`.
pub proof fn lemma_decimal_value_of_text(n: nat)
    ensures
        decimal_value(decimal_text(n)) == n,
        decimal_text(n).len() > 0,
        forall|i: int| 0 <= i < decimal_text(n).len() ==> is_digit(#[trigger] decimal_text(n)[i]),
    decreases n,
{
    if n >= 10 {
        lemma_decimal_value_of_text(n / 10);
        let s = decimal_text(n / 10);
        let c = digit_char(n % 10);
        assert(decimal_text(n) == s.push(c));
        assert(s.push(c).drop_last() =~= s);
        assert((n / 10) * 10 + n % 10 == n) by (nonlinear_arith);
        assert(c as int == '0' as int + n % 10);
        assert(digit_value(c) == n % 10);
        assert(s.push(c).last() == c);
        assert(decimal_value(s.push(c)) == decimal_value(s) * 10 + digit_value(c));
        assert forall|i: int| 0 <= i < decimal_text(n).len() implies is_digit(#[trigger] decimal_text(n)[i]) by {
            if i < s.len() {
                assert(decimal_text(n)[i] == s[i]);
            }
        }
    } else {
        assert(decimal_text(n) == seq![digit_char(n)]);
        assert(digit_char(n) as int == '0' as int + n);
        assert(seq![digit_char(n)].drop_last() =~= Seq::<char>::empty());
        assert(decimal_value(seq![digit_char(n)]) == decimal_value(Seq::<char>::empty()) * 10 + digit_value(digit_char(n)));
    }
}

/// A number written in decimal reads back as itself (when it fits).
pub proof fn lemma_decimal_round_trip(n: nat, max: nat)
    requires
        n <= max,
    ensures
        parse_unsigned(decimal_text(n), max) == Some(n),
{
    lemma_decimal_value_of_text(n);
    let d = decimal_text(n);
    assert(is_digit(d[0]));
    assert(unsigned_digits(d) == d);
}

} // verus!
