//! Character-level building blocks shared by the detectors and extractors:
//! whitespace, decimal digits, trimming, prefixes, ordering and number
//! formatting, all stated over `Seq<char>`.
use vstd::prelude::*;

verus! {

/// `String::push` appends one character.
pub assume_specification[ String::push ](s: &mut String, ch: char)
    ensures
        final(s)@ == old(s)@.push(ch),
;

/// Unicode `White_Space`, the set that `char::is_whitespace` and the `\s`
/// class both denote.
pub open spec fn is_white_space(c: char) -> bool {
    let u = c as u32;
    ||| 0x9 <= u <= 0xD
    ||| u == 0x20
    ||| u == 0x85
    ||| u == 0xA0
    ||| u == 0x1680
    ||| 0x2000 <= u <= 0x200A
    ||| u == 0x2028
    ||| u == 0x2029
    ||| u == 0x202F
    ||| u == 0x205F
    ||| u == 0x3000
}

pub fn is_whitespace_char(c: char) -> (r: bool)
    ensures
        r == is_white_space(c),
{
    let u = c as u32;
    (0x9 <= u && u <= 0xD) || u == 0x20 || u == 0x85 || u == 0xA0 || u == 0x1680 || (0x2000 <= u
        && u <= 0x200A) || u == 0x2028 || u == 0x2029 || u == 0x202F || u == 0x205F || u == 0x3000
}

/// Bytes of a character in UTF-8.
pub open spec fn utf8_width(c: char) -> int {
    if (c as u32) < 0x80 {
        1
    } else if (c as u32) < 0x800 {
        2
    } else if (c as u32) < 0x10000 {
        3
    } else {
        4
    }
}

/// Bytes of a text in UTF-8 (what `str::len` gives).
pub open spec fn utf8_len(s: Seq<char>) -> int
    decreases s.len(),
{
    if s.len() == 0 {
        0
    } else {
        utf8_len(s.drop_last()) + utf8_width(s.last())
    }
}

pub fn utf8_width_exec(c: char) -> (r: usize)
    ensures
        r as int == utf8_width(c),
{
    let u = c as u32;
    if u < 0x80 {
        1
    } else if u < 0x800 {
        2
    } else if u < 0x10000 {
        3
    } else {
        4
    }
}

pub proof fn lemma_utf8_len_prefix(s: Seq<char>, i: int)
    requires
        0 <= i <= s.len(),
    ensures
        utf8_len(s.take(i)) <= utf8_len(s),
    decreases s.len(),
{
    if i < s.len() {
        assert(s.drop_last().take(i) =~= s.take(i));
        lemma_utf8_len_prefix(s.drop_last(), i);
    } else {
        assert(s.take(i) =~= s);
    }
}

/// A text has at least as many bytes as characters.
pub proof fn lemma_utf8_len_ge_len(s: Seq<char>)
    ensures
        utf8_len(s) >= s.len(),
    decreases s.len(),
{
    if s.len() > 0 {
        lemma_utf8_len_ge_len(s.drop_last());
    }
}

/// The length of the text in UTF-8 bytes, or `cap` when it is at least `cap`.
pub fn utf8_len_upto(d: &[char], cap: usize) -> (r: usize)
    requires
        cap <= 1024,
    ensures
        r == (if utf8_len(d@) < cap {
            utf8_len(d@)
        } else {
            cap as int
        }),
{
    let mut sum: usize = 0;
    let mut i: usize = 0;
    while i < d.len() && sum < cap
        invariant
            i <= d.len(),
            cap <= 1024,
            sum as int == utf8_len(d@.take(i as int)),
            sum <= cap + 4,
        decreases d.len() - i,
    {
        assert(d@.take(i + 1).drop_last() =~= d@.take(i as int));
        sum = sum + utf8_width_exec(d[i]);
        i = i + 1;
    }
    proof {
        lemma_utf8_len_prefix(d@, i as int);
        if i == d.len() {
            assert(d@.take(i as int) =~= d@);
        }
    }
    if sum >= cap {
        cap
    } else {
        sum
    }
}

/// ASCII text has as many bytes as characters.
pub proof fn lemma_ascii_utf8_len(s: Seq<char>)
    requires
        forall|k: int| 0 <= k < s.len() ==> (#[trigger] s[k] as u32) < 0x80,
    ensures
        utf8_len(s) == s.len(),
    decreases s.len(),
{
    if s.len() > 0 {
        assert forall|k: int| 0 <= k < s.drop_last().len() implies (#[trigger] s.drop_last()[k]
            as u32) < 0x80 by {
            assert(s.drop_last()[k] == s[k]);
        }
        lemma_ascii_utf8_len(s.drop_last());
        assert((s[s.len() - 1] as u32) < 0x80);
    }
}

pub open spec fn is_ascii_digit(c: char) -> bool {
    '0' <= c <= '9'
}

/// Value of an ASCII digit (what `to_digit(10)` gives for it).
pub open spec fn ascii_digit_value(c: char) -> int {
    (c as u32) - ('0' as u32)
}

/// The character of a digit value `d < 10`.
pub open spec fn digit_char(d: nat) -> char {
    ((d + 48) as u8) as char
}

/// Pattern whose matches are exactly the one-character texts in the
/// regular-expression class `\d`.
pub const DIGIT_CLASS: &'static str = "^\\d$";

/// Whether `regex::Regex::new(pattern)` compiles and then matches somewhere in
/// `text`.
pub uninterp spec fn regex_is_match(pattern: Seq<char>, text: Seq<char>) -> bool;

/// Calls `regex::Regex::new` and `Regex::is_match`; the contract only names the
/// outcome, which depends on the two strings alone.
#[verifier::external_body]
fn regex_matches(pattern: &str, text: &str) -> (r: bool)
    ensures
        r == regex_is_match(pattern@, text@),
{
    regex::Regex::new(pattern).map(|re| re.is_match(text)).unwrap_or(false)
}

/// A character of the class `\d`, a Unicode decimal digit (`\p{Nd}`): among
/// ASCII characters `0` to `9`; beyond ASCII, as the regular expression
/// engine's Unicode tables say.
pub open spec fn is_decimal_digit(c: char) -> bool {
    if (c as u32) < 0x80 {
        is_ascii_digit(c)
    } else {
        regex_is_match(DIGIT_CLASS@, seq![c])
    }
}

pub fn decimal_digit(c: char) -> (r: bool)
    ensures
        r == is_decimal_digit(c),
{
    if (c as u32) < 0x80 {
        '0' <= c && c <= '9'
    } else {
        let mut s = String::new();
        s.push(c);
        regex_matches(DIGIT_CLASS, s.as_str())
    }
}

/// The characters of a string slice, in order.
pub fn chars_of(s: &str) -> (r: Vec<char>)
    ensures
        r@ == s@,
{
    let mut v: Vec<char> = Vec::new();
    for c in it: s.chars()
        invariant
            v@ == it.seq().take(it.index() as int),
            it.seq() == s@,
    {
        v.push(c);
    }
    v
}

/// A string holding exactly the given characters.
pub fn string_of(v: &[char]) -> (r: String)
    ensures
        r@ == v@,
{
    let mut s = String::new();
    let mut i: usize = 0;
    while i < v.len()
        invariant
            i <= v.len(),
            s@ == v@.take(i as int),
        decreases v.len() - i,
    {
        s.push(v[i]);
        i = i + 1;
        assert(v@.take(i as int) == v@.take(i - 1).push(v@[i - 1]));
    }
    assert(v@.take(i as int) == v@);
    s
}

/// A copy of `v[a..b]`.
pub fn sub_chars(v: &[char], a: usize, b: usize) -> (r: Vec<char>)
    requires
        a <= b <= v.len(),
    ensures
        r@ == v@.subrange(a as int, b as int),
{
    let mut out: Vec<char> = Vec::new();
    let mut i: usize = a;
    while i < b
        invariant
            a <= i <= b,
            b <= v.len(),
            out@ == v@.subrange(a as int, i as int),
        decreases b - i,
    {
        out.push(v[i]);
        i = i + 1;
        assert(v@.subrange(a as int, i as int) == v@.subrange(a as int, i - 1).push(v@[i - 1]));
    }
    out
}

/// Appends `src` to `dst`.
pub fn append_chars(dst: &mut Vec<char>, src: &[char])
    ensures
        final(dst)@ == old(dst)@ + src@,
{
    let mut i: usize = 0;
    while i < src.len()
        invariant
            i <= src.len(),
            dst@ == old(dst)@ + src@.take(i as int),
        decreases src.len() - i,
    {
        dst.push(src[i]);
        i = i + 1;
        assert(src@.take(i as int) == src@.take(i - 1).push(src@[i - 1]));
    }
    assert(src@.take(i as int) == src@);
}

/// Leading whitespace removed.
pub open spec fn trim_start(s: Seq<char>) -> Seq<char>
    decreases s.len(),
{
    if s.len() > 0 && is_white_space(s[0]) {
        trim_start(s.drop_first())
    } else {
        s
    }
}

/// Trailing whitespace removed.
pub open spec fn trim_end(s: Seq<char>) -> Seq<char>
    decreases s.len(),
{
    if s.len() > 0 && is_white_space(s.last()) {
        trim_end(s.drop_last())
    } else {
        s
    }
}

/// What `str::trim` gives: whitespace removed at both ends.
pub open spec fn trim(s: Seq<char>) -> Seq<char> {
    trim_end(trim_start(s))
}

/// `s` with leading and trailing whitespace removed.
pub fn trimmed(s: &[char]) -> (r: Vec<char>)
    ensures
        r@ == trim(s@),
{
    let n = s.len();
    let mut a: usize = 0;
    assert(s@.subrange(0, n as int) =~= s@);
    while a < n && is_whitespace_char(s[a])
        invariant
            a <= n,
            n == s@.len(),
            trim_start(s@) == trim_start(s@.subrange(a as int, n as int)),
        decreases n - a,
    {
        assert(s@.subrange(a as int, n as int).drop_first() == s@.subrange(a + 1, n as int));
        a = a + 1;
    }
    assert(trim_start(s@.subrange(a as int, n as int)) == s@.subrange(a as int, n as int));
    let mut b: usize = n;
    while b > a && is_whitespace_char(s[b - 1])
        invariant
            a <= b <= n,
            n == s@.len(),
            trim(s@) == trim_end(s@.subrange(a as int, b as int)),
        decreases b,
    {
        assert(s@.subrange(a as int, b as int).drop_last() == s@.subrange(a as int, b - 1));
        b = b - 1;
    }
    sub_chars(s, a, b)
}

/// `str::trim().to_string()` on a string slice.
pub fn trim_string(s: &str) -> (r: String)
    ensures
        r@ == trim(s@),
{
    let cs = chars_of(s);
    let t = trimmed(cs.as_slice());
    string_of(t.as_slice())
}

/// Whether `s` has `p` as a prefix.
pub open spec fn starts_with(s: Seq<char>, p: Seq<char>) -> bool {
    p.len() <= s.len() && s.subrange(0, p.len() as int) == p
}

/// Whether `s` holds `p` at position `i`.
pub open spec fn occurs_at(s: Seq<char>, p: Seq<char>, i: int) -> bool {
    0 <= i && i + p.len() <= s.len() && s.subrange(i, i + p.len()) == p
}

/// Whether `p` occurs anywhere in `s`.
pub open spec fn contains_seq(s: Seq<char>, p: Seq<char>) -> bool {
    exists|i: int| occurs_at(s, p, i)
}

pub fn occurs_at_exec(s: &[char], p: &[char], i: usize) -> (r: bool)
    ensures
        r == occurs_at(s@, p@, i as int),
{
    if i > s.len() || p.len() > s.len() - i {
        return false;
    }
    let mut j: usize = 0;
    while j < p.len()
        invariant
            j <= p.len(),
            i + p.len() <= s.len(),
            s@.subrange(i as int, i + j) == p@.take(j as int),
        decreases p.len() - j,
    {
        if s[i + j] != p[j] {
            assert(s@.subrange(i as int, i + p.len())[j as int] != p@[j as int]);
            return false;
        }
        j = j + 1;
        assert(s@.subrange(i as int, i + j) == s@.subrange(i as int, i + j - 1).push(s@[i + j - 1]));
        assert(p@.take(j as int) == p@.take(j - 1).push(p@[j - 1]));
    }
    assert(p@.take(j as int) == p@);
    true
}

pub fn starts_with_exec(s: &[char], p: &[char]) -> (r: bool)
    ensures
        r == starts_with(s@, p@),
{
    occurs_at_exec(s, p, 0)
}

pub fn contains_exec(s: &[char], p: &[char]) -> (r: bool)
    ensures
        r == contains_seq(s@, p@),
{
    let mut i: usize = 0;
    while i < s.len()
        invariant
            i <= s.len(),
            forall|k: int| 0 <= k < i ==> !occurs_at(s@, p@, k),
        decreases s.len() - i,
    {
        if occurs_at_exec(s, p, i) {
            return true;
        }
        i = i + 1;
    }
    if occurs_at_exec(s, p, s.len()) {
        return true;
    }
    assert forall|k: int| !occurs_at(s@, p@, k) by {
        if 0 <= k < i {
        } else if k < 0 {
        } else if k == i {
        } else {
            assert(k + p@.len() > s@.len());
        }
    }
    false
}

/// Lexicographic order on characters by code point, the order that `String`
/// comparison gives (UTF-8 keeps code point order).
pub open spec fn lex_le(a: Seq<char>, b: Seq<char>) -> bool
    decreases a.len(),
{
    if a.len() == 0 {
        true
    } else if b.len() == 0 {
        false
    } else if a[0] == b[0] {
        lex_le(a.drop_first(), b.drop_first())
    } else {
        a[0] < b[0]
    }
}

pub proof fn lemma_lex_total(a: Seq<char>, b: Seq<char>)
    ensures
        lex_le(a, b) || lex_le(b, a),
    decreases a.len(),
{
    if a.len() > 0 && b.len() > 0 && a[0] == b[0] {
        lemma_lex_total(a.drop_first(), b.drop_first());
    }
}

pub proof fn lemma_lex_trans(a: Seq<char>, b: Seq<char>, c: Seq<char>)
    requires
        lex_le(a, b),
        lex_le(b, c),
    ensures
        lex_le(a, c),
    decreases a.len(),
{
    if a.len() > 0 && b.len() > 0 && c.len() > 0 && a[0] == b[0] && b[0] == c[0] {
        lemma_lex_trans(a.drop_first(), b.drop_first(), c.drop_first());
    }
}

pub fn lex_le_exec(a: &[char], b: &[char]) -> (r: bool)
    ensures
        r == lex_le(a@, b@),
{
    let mut i: usize = 0;
    assert(a@.skip(0) =~= a@);
    assert(b@.skip(0) =~= b@);
    while i < a.len() && i < b.len() && a[i] == b[i]
        invariant
            i <= a.len(),
            i <= b.len(),
            lex_le(a@, b@) == lex_le(a@.skip(i as int), b@.skip(i as int)),
        decreases a.len() - i,
    {
        assert(a@.skip(i as int).drop_first() == a@.skip(i + 1));
        assert(b@.skip(i as int).drop_first() == b@.skip(i + 1));
        i = i + 1;
    }
    if i == a.len() {
        true
    } else if i == b.len() {
        false
    } else {
        assert(a@.skip(i as int)[0] == a@[i as int]);
        assert(b@.skip(i as int)[0] == b@[i as int]);
        a[i] < b[i]
    }
}

/// Decimal digits of a natural number, most significant first.
pub open spec fn nat_digits(n: nat) -> Seq<char>
    decreases n,
{
    if n < 10 {
        seq![digit_char(n)]
    } else {
        nat_digits(n / 10).push(digit_char(n % 10))
    }
}

/// What `i64::to_string` gives: a minus sign for negatives, then the digits.
pub open spec fn int_decimal(n: int) -> Seq<char> {
    if n < 0 {
        seq!['-'] + nat_digits((-n) as nat)
    } else {
        nat_digits(n as nat)
    }
}

fn push_digits(m: u64, out: &mut Vec<char>)
    ensures
        final(out)@ == old(out)@ + nat_digits(m as nat),
    decreases m,
{
    if m >= 10 {
        push_digits(m / 10, out);
    }
    let d: u8 = (m % 10) as u8;
    let c: char = (d + 48) as char;
    out.push(c);
}

/// The decimal text of an `i64`.
pub fn i64_decimal(n: i64) -> (r: Vec<char>)
    ensures
        r@ == int_decimal(n as int),
{
    let mut out: Vec<char> = Vec::new();
    if n < 0 {
        out.push('-');
        let m: u64 = (0 - (n as i128)) as u64;
        push_digits(m, &mut out);
    } else {
        push_digits(n as u64, &mut out);
    }
    out
}

} // verus!
