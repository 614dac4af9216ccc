//! Identifier detection for DOIs, ISBNs, PMIDs, and arXiv IDs.
//!
//! Each identifier has a small grammar:
//! - DOI: `10.` then at least four digits, `/`, then a run of characters other
//!   than whitespace, `]`, `>`, `"` and `'`; trailing `.`, `,` and `;` are cut.
//! - ISBN: `ISBN`, an optional `:`, `-` or whitespace, an optional `978`/`979`
//!   prefix (with an optional `-` or space), nine digits each optionally
//!   followed by `-` or space, and a final digit, `X` or `x`.
//! - PMID: `PMID`, any run of `:` and whitespace, then digits (the identifier).
//! - arXiv: `arXiv:` then either `dddd.dddd[d][vN]` or `letters-and-dashes/ddddddd`.
//!
//! Matches are found left to right without overlap, and at each position the
//! preferred alternative is the one the grammar lists first (greedy runs,
//! optional parts taken when they lead to a match).
use vstd::prelude::*;
use crate::text::{
    append_chars, ascii_digit_value, chars_of, decimal_digit, is_ascii_digit, is_decimal_digit,
    is_white_space, is_whitespace_char, lemma_ascii_utf8_len, lemma_lex_total, lemma_lex_trans,
    lemma_utf8_len_ge_len, lex_le, lex_le_exec, string_of, sub_chars, utf8_len, utf8_len_upto,
};

verus! {

/// A detected identifier from text
#[derive(Debug, Clone)]
pub enum Identifier {
    Doi(String),
    Isbn(String),
    Pmid(String),
    Arxiv(String),
}

/// The mathematical value of an [`Identifier`].
pub enum IdView {
    Doi(Seq<char>),
    Isbn(Seq<char>),
    Pmid(Seq<char>),
    Arxiv(Seq<char>),
}

impl View for Identifier {
    type V = IdView;

    open spec fn view(&self) -> IdView {
        match self {
            Identifier::Doi(s) => IdView::Doi(s@),
            Identifier::Isbn(s) => IdView::Isbn(s@),
            Identifier::Pmid(s) => IdView::Pmid(s@),
            Identifier::Arxiv(s) => IdView::Arxiv(s@),
        }
    }
}

impl PartialEq for Identifier {
    fn eq(&self, other: &Self) -> (r: bool) {
        match (self, other) {
            (Identifier::Doi(a), Identifier::Doi(b)) => *a == *b,
            (Identifier::Isbn(a), Identifier::Isbn(b)) => *a == *b,
            (Identifier::Pmid(a), Identifier::Pmid(b)) => *a == *b,
            (Identifier::Arxiv(a), Identifier::Arxiv(b)) => *a == *b,
            _ => false,
        }
    }
}

impl vstd::std_specs::cmp::PartialEqSpecImpl for Identifier {
    open spec fn obeys_eq_spec() -> bool {
        true
    }

    open spec fn eq_spec(&self, other: &Self) -> bool {
        self@ == other@
    }
}

impl Identifier {
    /// A copy with the same value.
    fn duplicate(&self) -> (r: Identifier)
        ensures
            r@ == self@,
    {
        match self {
            Identifier::Doi(s) => Identifier::Doi(s.clone()),
            Identifier::Isbn(s) => Identifier::Isbn(s.clone()),
            Identifier::Pmid(s) => Identifier::Pmid(s.clone()),
            Identifier::Arxiv(s) => Identifier::Arxiv(s.clone()),
        }
    }
}

/// The character classes that the grammars use for runs.
#[derive(Clone, Copy)]
pub enum Class {
    /// `\d`
    Digit,
    /// `[^\s\]>"']`, the body of a DOI suffix
    DoiBody,
    /// `[:\s]`, between `PMID` and its number
    PmidGap,
    /// `[a-z-]`, an old-style arXiv archive name
    LowerDash,
    /// `\s`
    Space,
}

pub open spec fn in_class(k: Class, c: char) -> bool {
    match k {
        Class::Digit => is_decimal_digit(c),
        Class::DoiBody => !(is_white_space(c) || c == ']' || c == '>' || c == '"' || c == '\''),
        Class::PmidGap => c == ':' || is_white_space(c),
        Class::LowerDash => ('a' <= c && c <= 'z') || c == '-',
        Class::Space => is_white_space(c),
    }
}

fn class_test(k: Class, c: char) -> (r: bool)
    ensures
        r == in_class(k, c),
{
    match k {
        Class::Digit => decimal_digit(c),
        Class::DoiBody => !(is_whitespace_char(c) || c == ']' || c == '>' || c == '"' || c == '\''),
        Class::PmidGap => c == ':' || is_whitespace_char(c),
        Class::LowerDash => ('a' <= c && c <= 'z') || c == '-',
        Class::Space => is_whitespace_char(c),
    }
}

/// End of the longest run of class `k` that starts at `i`.
pub open spec fn run_end(k: Class, t: Seq<char>, i: int) -> int
    decreases t.len() - i,
{
    if 0 <= i < t.len() && in_class(k, t[i]) {
        run_end(k, t, i + 1)
    } else {
        i
    }
}

pub proof fn lemma_run_end(k: Class, t: Seq<char>, i: int)
    requires
        0 <= i <= t.len(),
    ensures
        i <= run_end(k, t, i) <= t.len(),
        forall|j: int| i <= j < run_end(k, t, i) ==> in_class(k, #[trigger] t[j]),
        run_end(k, t, i) < t.len() ==> !in_class(k, t[run_end(k, t, i)]),
    decreases t.len() - i,
{
    if i < t.len() && in_class(k, t[i]) {
        lemma_run_end(k, t, i + 1);
    }
}

pub fn run_end_exec(k: Class, t: &[char], i: usize) -> (r: usize)
    requires
        i <= t.len(),
    ensures
        r as int == run_end(k, t@, i as int),
        i <= r <= t.len(),
{
    let mut j = i;
    while j < t.len() && class_test(k, t[j])
        invariant
            i <= j <= t.len(),
            run_end(k, t@, i as int) == run_end(k, t@, j as int),
        decreases t.len() - j,
    {
        j = j + 1;
    }
    j
}

/// `k` decimal digits at `t[i..i + k]`.
pub open spec fn digits_at(t: Seq<char>, i: int, k: int) -> bool {
    0 <= i && i + k <= t.len() && forall|j: int| i <= j < i + k ==> is_decimal_digit(#[trigger] t[j])
}

pub fn digits_at_exec(t: &[char], i: usize, k: usize) -> (r: bool)
    ensures
        r == digits_at(t@, i as int, k as int),
{
    if i > t.len() || k > t.len() - i {
        return false;
    }
    let mut j: usize = 0;
    while j < k
        invariant
            j <= k,
            i + k <= t.len(),
            forall|m: int| i <= m < i + j ==> is_decimal_digit(#[trigger] t@[m]),
        decreases k - j,
    {
        if !decimal_digit(t[i + j]) {
            return false;
        }
        j = j + 1;
    }
    true
}

/// A separator inside an ISBN: `-` or a space.
pub open spec fn isbn_sep(c: char) -> bool {
    c == '-' || c == ' '
}

/// Where `k` more ISBN digits (each optionally followed by a separator) end.
pub open spec fn isbn_digits_end(t: Seq<char>, q: int, k: nat) -> Option<int>
    decreases k,
{
    if k == 0 {
        Some(q)
    } else if 0 <= q < t.len() && is_decimal_digit(t[q]) {
        let q1 = if q + 1 < t.len() && isbn_sep(t[q + 1]) {
            q + 2
        } else {
            q + 1
        };
        isbn_digits_end(t, q1, (k - 1) as nat)
    } else {
        None
    }
}

/// Nine separated digits then a check character `[\dXx]`.
pub open spec fn isbn_block_end(t: Seq<char>, q: int) -> Option<int> {
    match isbn_digits_end(t, q, 9) {
        Some(r) => if 0 <= r < t.len() && (is_decimal_digit(t[r]) || t[r] == 'X' || t[r] == 'x') {
            Some(r + 1)
        } else {
            None
        },
        None => None,
    }
}

pub open spec fn has_978_prefix(t: Seq<char>, p: int) -> bool {
    0 <= p && p + 3 <= t.len() && t[p] == '9' && t[p + 1] == '7' && (t[p + 2] == '8' || t[p + 2]
        == '9')
}

/// The match of each grammar at a start position: the start of the captured
/// identifier and the end of the match.
pub open spec fn doi_match_at(t: Seq<char>, s: int) -> Option<(int, int)> {
    if 0 <= s && s + 3 <= t.len() && t[s] == '1' && t[s + 1] == '0' && t[s + 2] == '.' {
        let d = run_end(Class::Digit, t, s + 3);
        if d - (s + 3) >= 4 && d < t.len() && t[d] == '/' {
            let e = run_end(Class::DoiBody, t, d + 1);
            if e > d + 1 {
                Some((s, e))
            } else {
                None
            }
        } else {
            None
        }
    } else {
        None
    }
}

pub open spec fn isbn_match_at(t: Seq<char>, s: int) -> Option<(int, int)> {
    if 0 <= s && s + 4 <= t.len() && t[s] == 'I' && t[s + 1] == 'S' && t[s + 2] == 'B' && t[s + 3]
        == 'N' {
        let p = if s + 4 < t.len() && (t[s + 4] == ':' || t[s + 4] == '-' || is_white_space(
            t[s + 4],
        )) {
            s + 5
        } else {
            s + 4
        };
        let prefixed = if has_978_prefix(t, p) {
            let q = if p + 3 < t.len() && isbn_sep(t[p + 3]) {
                p + 4
            } else {
                p + 3
            };
            isbn_block_end(t, q)
        } else {
            None
        };
        match prefixed {
            Some(e) => Some((s, e)),
            None => match isbn_block_end(t, p) {
                Some(e) => Some((s, e)),
                None => None,
            },
        }
    } else {
        None
    }
}

pub open spec fn pmid_match_at(t: Seq<char>, s: int) -> Option<(int, int)> {
    if 0 <= s && s + 4 <= t.len() && t[s] == 'P' && t[s + 1] == 'M' && t[s + 2] == 'I' && t[s + 3]
        == 'D' {
        let p = run_end(Class::PmidGap, t, s + 4);
        let d = run_end(Class::Digit, t, p);
        if d > p {
            Some((p, d))
        } else {
            None
        }
    } else {
        None
    }
}

pub open spec fn arxiv_prefix_at(t: Seq<char>, s: int) -> bool {
    0 <= s && s + 6 <= t.len() && t[s] == 'a' && t[s + 1] == 'r' && t[s + 2] == 'X' && t[s + 3]
        == 'i' && t[s + 4] == 'v' && t[s + 5] == ':'
}

pub open spec fn arxiv_match_at(t: Seq<char>, s: int) -> Option<(int, int)> {
    if arxiv_prefix_at(t, s) {
        let p = s + 6;
        if digits_at(t, p, 4) && p + 4 < t.len() && t[p + 4] == '.' && digits_at(t, p + 5, 4) {
            let q = if digits_at(t, p + 9, 1) {
                p + 10
            } else {
                p + 9
            };
            let e = if q + 1 < t.len() && t[q] == 'v' && is_decimal_digit(t[q + 1]) {
                run_end(Class::Digit, t, q + 1)
            } else {
                q
            };
            Some((p, e))
        } else {
            let l = run_end(Class::LowerDash, t, p);
            if l > p && l < t.len() && t[l] == '/' && digits_at(t, l + 1, 7) {
                Some((p, l + 8))
            } else {
                None
            }
        }
    } else {
        None
    }
}

/// The four identifier grammars.
#[derive(Clone, Copy)]
pub enum Pattern {
    Doi,
    Isbn,
    Pmid,
    Arxiv,
}

pub open spec fn match_at(k: Pattern, t: Seq<char>, s: int) -> Option<(int, int)> {
    match k {
        Pattern::Doi => doi_match_at(t, s),
        Pattern::Isbn => isbn_match_at(t, s),
        Pattern::Pmid => pmid_match_at(t, s),
        Pattern::Arxiv => arxiv_match_at(t, s),
    }
}

proof fn lemma_isbn_digits_end(t: Seq<char>, q: int, k: nat)
    requires
        0 <= q <= t.len(),
    ensures
        isbn_digits_end(t, q, k) matches Some(r) ==> q + k <= r <= t.len(),
    decreases k,
{
    if k > 0 && 0 <= q < t.len() && is_decimal_digit(t[q]) {
        let q1 = if q + 1 < t.len() && isbn_sep(t[q + 1]) {
            q + 2
        } else {
            q + 1
        };
        lemma_isbn_digits_end(t, q1, (k - 1) as nat);
    }
}

/// A match starts where it is looked for, is not empty, and its capture lies
/// inside it.
pub proof fn lemma_match_bounds(k: Pattern, t: Seq<char>, s: int)
    requires
        0 <= s,
    ensures
        match_at(k, t, s) matches Some((c, e)) ==> s <= c && c < e && s < e && e <= t.len(),
{
    match k {
        Pattern::Doi => {
            if s + 3 <= t.len() {
                lemma_run_end(Class::Digit, t, s + 3);
                let d = run_end(Class::Digit, t, s + 3);
                if d < t.len() {
                    lemma_run_end(Class::DoiBody, t, d + 1);
                }
            }
        },
        Pattern::Isbn => {
            if s + 4 <= t.len() {
                let p = if s + 4 < t.len() && (t[s + 4] == ':' || t[s + 4] == '-' || is_white_space(
                    t[s + 4],
                )) {
                    s + 5
                } else {
                    s + 4
                };
                lemma_isbn_digits_end(t, p, 9);
                if has_978_prefix(t, p) {
                    let q = if p + 3 < t.len() && isbn_sep(t[p + 3]) {
                        p + 4
                    } else {
                        p + 3
                    };
                    lemma_isbn_digits_end(t, q, 9);
                }
            }
        },
        Pattern::Pmid => {
            if s + 4 <= t.len() {
                lemma_run_end(Class::PmidGap, t, s + 4);
                let p = run_end(Class::PmidGap, t, s + 4);
                lemma_run_end(Class::Digit, t, p);
            }
        },
        Pattern::Arxiv => {
            if s + 6 <= t.len() {
                lemma_run_end(Class::LowerDash, t, s + 6);
                let p = s + 6;
                if digits_at(t, p, 4) && p + 4 < t.len() && t[p + 4] == '.' && digits_at(t, p + 5, 4) {
                    let q = if digits_at(t, p + 9, 1) {
                        p + 10
                    } else {
                        p + 9
                    };
                    if q + 1 < t.len() {
                        lemma_run_end(Class::Digit, t, q + 1);
                    }
                }
            }
        },
    }
}

/// All matches of grammar `k` from position `p` on, left to right and without
/// overlap: `(capture start, match end)` pairs.
pub open spec fn matches_from(k: Pattern, t: Seq<char>, p: int) -> Seq<(int, int)>
    decreases t.len() - p,
{
    if p < 0 || p >= t.len() {
        seq![]
    } else {
        match match_at(k, t, p) {
            Some(m) => {
                proof {
                    lemma_match_bounds(k, t, p);
                }
                seq![m] + matches_from(k, t, m.1)
            },
            None => matches_from(k, t, p + 1),
        }
    }
}

pub open spec fn pairs_int(s: Seq<(usize, usize)>) -> Seq<(int, int)> {
    s.map_values(|m: (usize, usize)| (m.0 as int, m.1 as int))
}

pub open spec fn opt_pair_int(r: Option<(usize, usize)>) -> Option<(int, int)> {
    match r {
        Some(m) => Some((m.0 as int, m.1 as int)),
        None => None,
    }
}

fn isbn_digits_end_exec(t: &[char], q: usize, k: usize) -> (r: Option<usize>)
    requires
        q <= t.len(),
    ensures
        isbn_digits_end(t@, q as int, k as nat) == match r {
            Some(x) => Some(x as int),
            None => None,
        },
        r matches Some(x) ==> x <= t.len(),
    decreases k,
{
    if k == 0 {
        Some(q)
    } else if q < t.len() && decimal_digit(t[q]) {
        let q1 = if q + 1 < t.len() && (t[q + 1] == '-' || t[q + 1] == ' ') {
            q + 2
        } else {
            q + 1
        };
        isbn_digits_end_exec(t, q1, k - 1)
    } else {
        None
    }
}

fn isbn_block_end_exec(t: &[char], q: usize) -> (r: Option<usize>)
    requires
        q <= t.len(),
    ensures
        isbn_block_end(t@, q as int) == match r {
            Some(x) => Some(x as int),
            None => None,
        },
        r matches Some(x) ==> x <= t.len(),
{
    match isbn_digits_end_exec(t, q, 9) {
        Some(r) => {
            if r < t.len() && (decimal_digit(t[r]) || t[r] == 'X' || t[r] == 'x') {
                Some(r + 1)
            } else {
                None
            }
        },
        None => None,
    }
}

fn doi_match_exec(t: &[char], s: usize) -> (r: Option<(usize, usize)>)
    requires
        s < t.len(),
    ensures
        opt_pair_int(r) == doi_match_at(t@, s as int),
{
    let n = t.len();
    if n - s >= 3 && t[s] == '1' && t[s + 1] == '0' && t[s + 2] == '.' {
        let d = run_end_exec(Class::Digit, t, s + 3);
        if d - (s + 3) >= 4 && d < n && t[d] == '/' {
            let e = run_end_exec(Class::DoiBody, t, d + 1);
            if e > d + 1 {
                return Some((s, e));
            }
        }
    }
    None
}

fn isbn_match_exec(t: &[char], s: usize) -> (r: Option<(usize, usize)>)
    requires
        s < t.len(),
    ensures
        opt_pair_int(r) == isbn_match_at(t@, s as int),
{
    let n = t.len();
    if n - s >= 4 && t[s] == 'I' && t[s + 1] == 'S' && t[s + 2] == 'B' && t[s + 3] == 'N' {
        let p = if n - s > 4 && (t[s + 4] == ':' || t[s + 4] == '-' || is_whitespace_char(
            t[s + 4],
        )) {
            s + 5
        } else {
            s + 4
        };
        if n - p >= 3 && t[p] == '9' && t[p + 1] == '7' && (t[p + 2] == '8' || t[p + 2] == '9') {
            let q = if n - p > 3 && (t[p + 3] == '-' || t[p + 3] == ' ') {
                p + 4
            } else {
                p + 3
            };
            if let Some(e) = isbn_block_end_exec(t, q) {
                return Some((s, e));
            }
        }
        match isbn_block_end_exec(t, p) {
            Some(e) => Some((s, e)),
            None => None,
        }
    } else {
        None
    }
}

fn pmid_match_exec(t: &[char], s: usize) -> (r: Option<(usize, usize)>)
    requires
        s < t.len(),
    ensures
        opt_pair_int(r) == pmid_match_at(t@, s as int),
{
    let n = t.len();
    if n - s >= 4 && t[s] == 'P' && t[s + 1] == 'M' && t[s + 2] == 'I' && t[s + 3] == 'D' {
        let p = run_end_exec(Class::PmidGap, t, s + 4);
        let d = run_end_exec(Class::Digit, t, p);
        if d > p {
            Some((p, d))
        } else {
            None
        }
    } else {
        None
    }
}

fn arxiv_match_exec(t: &[char], s: usize) -> (r: Option<(usize, usize)>)
    requires
        s < t.len(),
    ensures
        opt_pair_int(r) == arxiv_match_at(t@, s as int),
{
    let n = t.len();
    if n - s >= 6 && t[s] == 'a' && t[s + 1] == 'r' && t[s + 2] == 'X' && t[s + 3] == 'i' && t[s
        + 4] == 'v' && t[s + 5] == ':' {
        let p = s + 6;
        if digits_at_exec(t, p, 4) && n - p > 4 && t[p + 4] == '.' && digits_at_exec(t, p + 5, 4) {
            let q = if digits_at_exec(t, p + 9, 1) {
                p + 10
            } else {
                p + 9
            };
            let e = if n - q > 1 && t[q] == 'v' && decimal_digit(t[q + 1]) {
                run_end_exec(Class::Digit, t, q + 1)
            } else {
                q
            };
            Some((p, e))
        } else {
            let l = run_end_exec(Class::LowerDash, t, p);
            if l > p && l < n && t[l] == '/' && digits_at_exec(t, l + 1, 7) {
                Some((p, l + 8))
            } else {
                None
            }
        }
    } else {
        None
    }
}

fn match_at_exec(k: Pattern, t: &[char], s: usize) -> (r: Option<(usize, usize)>)
    requires
        s < t.len(),
    ensures
        opt_pair_int(r) == match_at(k, t@, s as int),
        r matches Some(m) ==> s <= m.0 && m.0 < m.1 && s < m.1 && m.1 <= t.len(),
{
    proof {
        lemma_match_bounds(k, t@, s as int);
    }
    match k {
        Pattern::Doi => doi_match_exec(t, s),
        Pattern::Isbn => isbn_match_exec(t, s),
        Pattern::Pmid => pmid_match_exec(t, s),
        Pattern::Arxiv => arxiv_match_exec(t, s),
    }
}

/// Every match of grammar `k` in `t`.
fn find_matches(k: Pattern, t: &[char]) -> (r: Vec<(usize, usize)>)
    ensures
        pairs_int(r@) == matches_from(k, t@, 0),
        forall|i: int| 0 <= i < r@.len() ==> r@[i].0 <= r@[i].1 && r@[i].1 <= t@.len(),
{
    let mut out: Vec<(usize, usize)> = Vec::new();
    let mut p: usize = 0;
    while p < t.len()
        invariant
            p <= t.len(),
            matches_from(k, t@, 0) == pairs_int(out@) + matches_from(k, t@, p as int),
            forall|i: int| 0 <= i < out@.len() ==> out@[i].0 <= out@[i].1 && out@[i].1 <= t@.len(),
        decreases t.len() - p,
    {
        match match_at_exec(k, t, p) {
            Some(m) => {
                assert(pairs_int(out@.push(m)) =~= pairs_int(out@).push((m.0 as int, m.1 as int)));
                assert(matches_from(k, t@, p as int) == seq![(m.0 as int, m.1 as int)]
                    + matches_from(k, t@, m.1 as int));
                out.push(m);
                p = m.1;
            },
            None => {
                p = p + 1;
            },
        }
    }
    assert(pairs_int(out@) + seq![] =~= pairs_int(out@));
    out
}

/// The first match of grammar `k` in `t`.
fn find_first(k: Pattern, t: &[char]) -> (r: Option<(usize, usize)>)
    ensures
        match r {
            Some(m) => matches_from(k, t@, 0).len() > 0 && matches_from(k, t@, 0)[0] == (
                m.0 as int,
                m.1 as int,
            ) && m.0 <= m.1 <= t.len(),
            None => matches_from(k, t@, 0).len() == 0,
        },
{
    let mut p: usize = 0;
    while p < t.len()
        invariant
            p <= t.len(),
            matches_from(k, t@, 0) == matches_from(k, t@, p as int),
        decreases t.len() - p,
    {
        match match_at_exec(k, t, p) {
            Some(m) => {
                return Some(m);
            },
            None => {
                p = p + 1;
            },
        }
    }
    None
}

/// What `trim_end_matches(['.', ',', ';'])` leaves.
pub open spec fn trim_doi_end(s: Seq<char>) -> Seq<char>
    decreases s.len(),
{
    if s.len() > 0 && (s.last() == '.' || s.last() == ',' || s.last() == ';') {
        trim_doi_end(s.drop_last())
    } else {
        s
    }
}

fn trim_doi_end_exec(s: &[char]) -> (r: Vec<char>)
    ensures
        r@ == trim_doi_end(s@),
{
    let mut b = s.len();
    assert(s@.subrange(0, b as int) =~= s@);
    while b > 0 && (s[b - 1] == '.' || s[b - 1] == ',' || s[b - 1] == ';')
        invariant
            b <= s.len(),
            trim_doi_end(s@) == trim_doi_end(s@.subrange(0, b as int)),
        decreases b,
    {
        assert(s@.subrange(0, b as int).drop_last() =~= s@.subrange(0, b - 1));
        b = b - 1;
    }
    sub_chars(s, 0, b)
}

/// Characters that ISBN normalization keeps.
pub open spec fn isbn_char(c: char) -> bool {
    is_ascii_digit(c) || c == 'X' || c == 'x'
}

pub open spec fn ascii_upper(c: char) -> char {
    if c == 'x' {
        'X'
    } else {
        c
    }
}

/// ISBN normalization: keep ASCII digits and `X`/`x`, then upper-case.
pub open spec fn normalize_isbn_spec(s: Seq<char>) -> Seq<char>
    decreases s.len(),
{
    if s.len() == 0 {
        seq![]
    } else if isbn_char(s.last()) {
        normalize_isbn_spec(s.drop_last()).push(ascii_upper(s.last()))
    } else {
        normalize_isbn_spec(s.drop_last())
    }
}

fn normalize_isbn_chars(s: &[char]) -> (r: Vec<char>)
    ensures
        r@ == normalize_isbn_spec(s@),
        normalized_isbn_text(r@),
{
    proof {
        lemma_normalize_chars(s@);
    }
    let mut out: Vec<char> = Vec::new();
    let mut i: usize = 0;
    while i < s.len()
        invariant
            i <= s.len(),
            out@ == normalize_isbn_spec(s@.take(i as int)),
        decreases s.len() - i,
    {
        let c = s[i];
        assert(s@.take(i + 1).drop_last() =~= s@.take(i as int));
        if ('0' <= c && c <= '9') || c == 'X' || c == 'x' {
            if c == 'x' {
                out.push('X');
            } else {
                out.push(c);
            }
        }
        i = i + 1;
    }
    assert(s@.take(i as int) =~= s@);
    out
}

/// Keeps the ASCII digits and `X`/`x` of the text, upper-cased.
pub fn normalize_isbn(isbn: &str) -> (r: String)
    ensures
        r@ == normalize_isbn_spec(isbn@),
        normalized_isbn_text(r@),
{
    let c = chars_of(isbn);
    let n = normalize_isbn_chars(c.as_slice());
    string_of(n.as_slice())
}

/// Value of a character in an ISBN-10 checksum: `X` is ten, ASCII digits
/// their value, anything else nothing.
pub open spec fn isbn10_value(c: char) -> int {
    if c == 'X' {
        10
    } else if is_ascii_digit(c) {
        ascii_digit_value(c)
    } else {
        0
    }
}

/// Value of a character in an ISBN-13 checksum.
pub open spec fn isbn13_value(c: char) -> int {
    if is_ascii_digit(c) {
        ascii_digit_value(c)
    } else {
        0
    }
}

/// The weighted ISBN-10 sum: position `i` weighs `10 - i`.
pub open spec fn isbn10_sum(s: Seq<char>) -> int
    decreases s.len(),
{
    if s.len() == 0 {
        0
    } else {
        isbn10_sum(s.drop_last()) + isbn10_value(s.last()) * (10 - (s.len() - 1))
    }
}

/// The weighted ISBN-13 sum: even positions weigh 1, odd ones 3.
pub open spec fn isbn13_sum(s: Seq<char>) -> int
    decreases s.len(),
{
    if s.len() == 0 {
        0
    } else {
        isbn13_sum(s.drop_last()) + isbn13_value(s.last()) * (if (s.len() - 1) % 2 == 0 {
            1int
        } else {
            3int
        })
    }
}

/// A checksum-valid ISBN-10 or ISBN-13, told apart by the length of the text
/// in UTF-8 bytes.
pub open spec fn isbn_valid(s: Seq<char>) -> bool {
    ||| utf8_len(s) == 10 && isbn10_sum(s) % 11 == 0
    ||| utf8_len(s) == 13 && isbn13_sum(s) % 10 == 0
}

/// Text as normalization leaves it: ASCII digits and `X` only.
pub open spec fn normalized_isbn_text(s: Seq<char>) -> bool {
    forall|k: int| 0 <= k < s.len() ==> is_ascii_digit(#[trigger] s[k]) || s[k] == 'X'
}

fn is_valid_isbn10(s: &[char]) -> (r: bool)
    requires
        s.len() <= 10,
    ensures
        r == (isbn10_sum(s@) % 11 == 0),
{
    let mut sum: i32 = 0;
    let mut i: usize = 0;
    while i < s.len()
        invariant
            i <= s.len(),
            s.len() <= 10,
            sum == isbn10_sum(s@.take(i as int)),
            0 <= sum <= 100 * i,
        decreases s.len() - i,
    {
        let c = s[i];
        let digit: i32 = if c == 'X' {
            10
        } else if '0' <= c && c <= '9' {
            (c as u32 - '0' as u32) as i32
        } else {
            0
        };
        assert(s@.take(i + 1).drop_last() =~= s@.take(i as int));
        let w: i32 = 10 - i as i32;
        assert(0 <= digit * w <= 100) by (nonlinear_arith)
            requires
                0 <= digit <= 10,
                1 <= w <= 10,
        ;
        sum = sum + digit * w;
        i = i + 1;
    }
    assert(s@.take(i as int) =~= s@);
    sum % 11 == 0
}

fn is_valid_isbn13(s: &[char]) -> (r: bool)
    requires
        s.len() <= 13,
    ensures
        r == (isbn13_sum(s@) % 10 == 0),
{
    let mut sum: i32 = 0;
    let mut i: usize = 0;
    while i < s.len()
        invariant
            i <= s.len(),
            s.len() <= 13,
            sum == isbn13_sum(s@.take(i as int)),
            0 <= sum <= 27 * i,
        decreases s.len() - i,
    {
        let c = s[i];
        let digit: i32 = if '0' <= c && c <= '9' {
            (c as u32 - '0' as u32) as i32
        } else {
            0
        };
        assert(s@.take(i + 1).drop_last() =~= s@.take(i as int));
        sum = sum + digit * if i % 2 == 0 {
            1
        } else {
            3
        };
        i = i + 1;
    }
    assert(s@.take(i as int) =~= s@);
    sum % 10 == 0
}

fn isbn_valid_chars(s: &[char]) -> (r: bool)
    ensures
        r == isbn_valid(s@),
{
    let n = utf8_len_upto(s, 14);
    proof {
        lemma_utf8_len_ge_len(s@);
    }
    if n == 10 {
        is_valid_isbn10(s)
    } else if n == 13 {
        is_valid_isbn13(s)
    } else {
        false
    }
}

/// Whether the text is a checksum-valid ISBN-10 or ISBN-13, by its length in
/// bytes.
pub fn is_valid_isbn(isbn: &str) -> (r: bool)
    ensures
        r == isbn_valid(isbn@),
{
    let c = chars_of(isbn);
    isbn_valid_chars(c.as_slice())
}

/// The identifier that one match `c` of grammar `k` gives: the trimmed DOI,
/// the normalized ISBN when its checksum holds (else none), the captured PMID
/// or arXiv ID.
pub open spec fn id_from(k: Pattern, t: Seq<char>, c: (int, int)) -> Option<IdView> {
    let sub = t.subrange(c.0, c.1);
    match k {
        Pattern::Doi => Some(IdView::Doi(trim_doi_end(sub))),
        Pattern::Isbn => if isbn_valid(normalize_isbn_spec(sub)) {
            Some(IdView::Isbn(normalize_isbn_spec(sub)))
        } else {
            None
        },
        Pattern::Pmid => Some(IdView::Pmid(sub)),
        Pattern::Arxiv => Some(IdView::Arxiv(sub)),
    }
}

/// The identifiers that the matches `caps` of grammar `k` give, in order.
pub open spec fn ids_of(k: Pattern, t: Seq<char>, caps: Seq<(int, int)>) -> Seq<IdView>
    decreases caps.len(),
{
    if caps.len() == 0 {
        seq![]
    } else {
        let rest = ids_of(k, t, caps.drop_last());
        match id_from(k, t, caps.last()) {
            Some(x) => rest.push(x),
            None => rest,
        }
    }
}

/// Every identifier that the text holds, in the order the grammars find them:
/// DOIs, then valid ISBNs, then PMIDs, then arXiv IDs.
pub open spec fn found_ids(t: Seq<char>) -> Seq<IdView> {
    ids_of(Pattern::Doi, t, matches_from(Pattern::Doi, t, 0)) + ids_of(
        Pattern::Isbn,
        t,
        matches_from(Pattern::Isbn, t, 0),
    ) + ids_of(Pattern::Pmid, t, matches_from(Pattern::Pmid, t, 0)) + ids_of(
        Pattern::Arxiv,
        t,
        matches_from(Pattern::Arxiv, t, 0),
    )
}

pub open spec fn ids_view(s: Seq<Identifier>) -> Seq<IdView> {
    s.map_values(|i: Identifier| i@)
}

fn ids_for(k: Pattern, t: &[char], caps: &Vec<(usize, usize)>) -> (r: Vec<Identifier>)
    requires
        forall|i: int| 0 <= i < caps@.len() ==> caps@[i].0 <= caps@[i].1 && caps@[i].1 <= t@.len(),
    ensures
        ids_view(r@) == ids_of(k, t@, pairs_int(caps@)),
{
    let mut out: Vec<Identifier> = Vec::new();
    let mut i: usize = 0;
    while i < caps.len()
        invariant
            i <= caps.len(),
            forall|j: int| 0 <= j < caps@.len() ==> caps@[j].0 <= caps@[j].1 && caps@[j].1 <= t@.len(),
            ids_view(out@) == ids_of(k, t@, pairs_int(caps@.take(i as int))),
        decreases caps.len() - i,
    {
        let (a, b) = caps[i];
        let sub = sub_chars(t, a, b);
        assert(pairs_int(caps@.take(i + 1)).drop_last() =~= pairs_int(caps@.take(i as int)));
        assert(pairs_int(caps@.take(i + 1)).last() == (a as int, b as int));
        match k {
            Pattern::Doi => {
                let d = trim_doi_end_exec(sub.as_slice());
                let id = Identifier::Doi(string_of(d.as_slice()));
                assert(ids_view(out@.push(id)) =~= ids_view(out@).push(id@));
                out.push(id);
            },
            Pattern::Isbn => {
                let n = normalize_isbn_chars(sub.as_slice());
                if isbn_valid_chars(n.as_slice()) {
                    let id = Identifier::Isbn(string_of(n.as_slice()));
                    assert(ids_view(out@.push(id)) =~= ids_view(out@).push(id@));
                    out.push(id);
                }
            },
            Pattern::Pmid => {
                let id = Identifier::Pmid(string_of(sub.as_slice()));
                assert(ids_view(out@.push(id)) =~= ids_view(out@).push(id@));
                out.push(id);
            },
            Pattern::Arxiv => {
                let id = Identifier::Arxiv(string_of(sub.as_slice()));
                assert(ids_view(out@.push(id)) =~= ids_view(out@).push(id@));
                out.push(id);
            },
        }
        i = i + 1;
    }
    assert(caps@.take(i as int) =~= caps@);
    out
}

/// What `format!("{:?}", s)` gives for a string: the text quoted and escaped.
pub uninterp spec fn str_debug(s: Seq<char>) -> Seq<char>;

/// Printable ASCII text without `"` or `\`, which `Debug` shows unescaped.
pub open spec fn plain_text(s: Seq<char>) -> bool {
    forall|k: int|
        0 <= k < s.len() ==> 0x20 <= (#[trigger] s[k] as u32) <= 0x7E && s[k] != '"' && s[k]
            != '\\'
}

/// Calls the `Debug` formatting of `str`. The contract names its result and
/// states two facts of it: text of printable ASCII characters other than `"`
/// and `\` is shown as itself between double quotes; and no other text is
/// shown the same way, since every character is either written as itself
/// (never `\`) or as an escape that starts with `\` and reads back uniquely.
#[verifier::external_body]
fn debug_text(s: &str) -> (r: String)
    ensures
        r@ == str_debug(s@),
        plain_text(s@) ==> r@ == seq!['"'] + s@ + seq!['"'],
        forall|t: Seq<char>| t != s@ ==> #[trigger] str_debug(t) != r@,
{
    format!("{:?}", s)
}

pub open spec fn id_text(id: IdView) -> Seq<char> {
    match id {
        IdView::Doi(s) => s,
        IdView::Isbn(s) => s,
        IdView::Pmid(s) => s,
        IdView::Arxiv(s) => s,
    }
}

pub open spec fn id_kind_name(id: IdView) -> Seq<char> {
    match id {
        IdView::Doi(_) => seq!['D', 'o', 'i'],
        IdView::Isbn(_) => seq!['I', 's', 'b', 'n'],
        IdView::Pmid(_) => seq!['P', 'm', 'i', 'd'],
        IdView::Arxiv(_) => seq!['A', 'r', 'x', 'i', 'v'],
    }
}

/// The `Debug` text of an identifier, such as `Doi("10.1000/x")`, by which
/// the detected identifiers are ordered.
pub open spec fn debug_key(id: IdView) -> Seq<char> {
    id_kind_name(id) + seq!['('] + str_debug(id_text(id)) + seq![')']
}

/// The `Debug` text of an identifier whose text is plain: the kind, then the
/// text in double quotes in parentheses.
pub open spec fn plain_key(id: IdView) -> Seq<char> {
    id_kind_name(id) + seq!['(', '"'] + id_text(id) + seq!['"', ')']
}

/// What is known of an identifier's `Debug` text beyond its name: its form
/// for plain text, and that no other text has the same `Debug` text.
pub open spec fn key_known(id: IdView) -> bool {
    &&& plain_text(id_text(id)) ==> debug_key(id) == plain_key(id)
    &&& forall|t: Seq<char>| t != id_text(id) ==> #[trigger] str_debug(t) != str_debug(id_text(id))
}

/// Different identifiers have different `Debug` texts.
proof fn lemma_debug_key_injective(a: IdView, b: IdView)
    requires
        a != b,
        key_known(a),
    ensures
        debug_key(a) != debug_key(b),
{
    let ka = debug_key(a);
    let kb = debug_key(b);
    if id_kind_name(a) != id_kind_name(b) {
        assert(ka[0] == id_kind_name(a)[0]);
        assert(kb[0] == id_kind_name(b)[0]);
    } else {
        let da = str_debug(id_text(a));
        let db = str_debug(id_text(b));
        assert(id_text(a) != id_text(b));
        assert(db != da);
        let n = id_kind_name(a).len();
        if da.len() == db.len() {
            assert(!(da =~= db));
            let m = choose|m: int| 0 <= m < da.len() && da[m] != db[m];
            assert(ka[n + 1 + m] == da[m]);
            assert(kb[n + 1 + m] == db[m]);
        } else {
            assert(ka.len() != kb.len());
        }
    }
}

fn id_key(id: &Identifier) -> (r: Vec<char>)
    ensures
        r@ == debug_key(id@),
        key_known(id@),
{
    let mut out: Vec<char> = Vec::new();
    let payload: &String = match id {
        Identifier::Doi(s) => {
            out.push('D');
            out.push('o');
            out.push('i');
            s
        },
        Identifier::Isbn(s) => {
            out.push('I');
            out.push('s');
            out.push('b');
            out.push('n');
            s
        },
        Identifier::Pmid(s) => {
            out.push('P');
            out.push('m');
            out.push('i');
            out.push('d');
            s
        },
        Identifier::Arxiv(s) => {
            out.push('A');
            out.push('r');
            out.push('x');
            out.push('i');
            out.push('v');
            s
        },
    };
    assert(out@ == id_kind_name(id@));
    out.push('(');
    let d = debug_text(payload.as_str());
    proof {
        if plain_text(id_text(id@)) {
            assert(debug_key(id@) =~= plain_key(id@));
        }
    }
    let dc = chars_of(d.as_str());
    append_chars(&mut out, dc.as_slice());
    out.push(')');
    out
}

/// Whether some element of `s` has the value `x`.
pub open spec fn has_view(s: Seq<Identifier>, x: IdView) -> bool {
    exists|j: int| 0 <= j < s.len() && (#[trigger] s[j])@ == x
}

fn contains_id(s: &Vec<Identifier>, id: &Identifier) -> (r: bool)
    ensures
        r == has_view(s@, id@),
{
    let mut j: usize = 0;
    while j < s.len()
        invariant
            j <= s.len(),
            forall|m: int| 0 <= m < j ==> s@[m]@ != id@,
        decreases s.len() - j,
    {
        if s[j] == *id {
            return true;
        }
        j = j + 1;
    }
    false
}

/// Sorted by their `Debug` text, strictly increasing, each value once.
pub open spec fn sorted_distinct(r: Seq<Identifier>) -> bool {
    &&& forall|i: int, j: int| 0 <= i < j < r.len() ==> lex_le(debug_key(r[i]@), debug_key(r[j]@))
    &&& forall|i: int, j: int| 0 <= i < j < r.len() ==> debug_key(r[i]@) != debug_key(r[j]@)
    &&& forall|i: int, j: int| 0 <= i < j < r.len() ==> r[i]@ != r[j]@
}

/// `found` ordered by `Debug` text, with repeats dropped.
fn sort_dedup(found: &Vec<Identifier>) -> (r: Vec<Identifier>)
    ensures
        sorted_distinct(r@),
        forall|x: IdView| has_view(r@, x) <==> has_view(found@, x),
        forall|k: int| 0 <= k < r@.len() ==> key_known(#[trigger] r@[k]@),
{
    let mut res: Vec<Identifier> = Vec::new();
    let mut keys: Vec<Vec<char>> = Vec::new();
    let mut i: usize = 0;
    while i < found.len()
        invariant
            i <= found.len(),
            res@.len() == keys@.len(),
            forall|j: int| 0 <= j < res@.len() ==> (#[trigger] keys@[j])@ == debug_key(res@[j]@),
            forall|j: int| 0 <= j < res@.len() ==> key_known(#[trigger] res@[j]@),
            sorted_distinct(res@),
            forall|x: IdView| has_view(res@, x) <==> has_view(found@.take(i as int), x),
        decreases found.len() - i,
    {
        let id = found[i].duplicate();
        let ghost pre = res@;
        assert(forall|x: IdView| has_view(pre, x) <==> has_view(found@.take(i as int), x));
        proof {
            assert forall|x: IdView| has_view(found@.take(i + 1), x) <==> (has_view(
                found@.take(i as int),
                x,
            ) || x == id@) by {
                if has_view(found@.take(i + 1), x) {
                    let j = choose|j: int| 0 <= j < i + 1 && (#[trigger] found@.take(i + 1)[j])@ == x;
                    if j < i {
                        assert(found@.take(i as int)[j] == found@.take(i + 1)[j]);
                    }
                }
                if has_view(found@.take(i as int), x) {
                    let j = choose|j: int| 0 <= j < i && (#[trigger] found@.take(i as int)[j])@ == x;
                    assert(found@.take(i + 1)[j] == found@.take(i as int)[j]);
                }
                if x == id@ {
                    assert(found@.take(i + 1)[i as int] == found@[i as int]);
                }
            }
        }
        if contains_id(&res, &id) {
            proof {
                assert forall|x: IdView| has_view(res@, x) <==> has_view(found@.take(i + 1), x) by {
                    assert(has_view(found@.take(i + 1), x) <==> (has_view(found@.take(i as int), x)
                        || x == id@));
                    assert(has_view(pre, x) <==> has_view(found@.take(i as int), x));
                    if x == id@ {
                    }
                }
            }
        } else {
            let key = id_key(&id);
            let mut pos: usize = 0;
            while pos < keys.len() && lex_le_exec(keys[pos].as_slice(), key.as_slice())
                invariant
                    pos <= keys@.len(),
                    forall|j: int| 0 <= j < pos ==> lex_le((#[trigger] keys@[j])@, key@),
                decreases keys.len() - pos,
            {
                pos = pos + 1;
            }
            let ghost old_res = res@;
            let ghost old_keys = keys@;
            proof {
                if pos < keys@.len() {
                    lemma_lex_total(keys@[pos as int]@, key@);
                }
                assert forall|j: int| pos <= j < old_keys.len() implies lex_le(
                    key@,
                    (#[trigger] old_keys[j])@,
                ) by {
                    if pos < j {
                        assert(lex_le(debug_key(old_res[pos as int]@), debug_key(old_res[j]@)));
                        lemma_lex_trans(key@, old_keys[pos as int]@, old_keys[j]@);
                    }
                }
            }
            res.insert(pos, id);
            keys.insert(pos, key);
            proof {
                assert forall|a: int, b: int| 0 <= a < b < res@.len() implies lex_le(
                    debug_key(res@[a]@),
                    debug_key(res@[b]@),
                ) by {
                    assert(keys@[a]@ == debug_key(res@[a]@));
                    assert(keys@[b]@ == debug_key(res@[b]@));
                    if a < pos && b < pos {
                    } else if a < pos && b == pos {
                    } else if a < pos && b > pos {
                        assert(keys@[b] == old_keys[b - 1]);
                        lemma_lex_trans(keys@[a]@, key@, keys@[b]@);
                    } else if a == pos {
                        assert(keys@[b] == old_keys[b - 1]);
                    } else {
                        assert(keys@[a] == old_keys[a - 1]);
                        assert(keys@[b] == old_keys[b - 1]);
                        assert(lex_le(debug_key(old_res[a - 1]@), debug_key(old_res[b - 1]@)));
                    }
                }
                assert forall|a: int, b: int| 0 <= a < b < res@.len() implies debug_key(res@[a]@)
                    != debug_key(res@[b]@) by {
                    if a == pos {
                        assert(res@[b] == old_res[b - 1]);
                        lemma_debug_key_injective(id@, res@[b]@);
                    } else if b == pos {
                        assert(res@[a] == old_res[a]);
                        lemma_debug_key_injective(id@, res@[a]@);
                    } else {
                        let a0 = if a < pos {
                            a
                        } else {
                            a - 1
                        };
                        let b0 = if b < pos {
                            b
                        } else {
                            b - 1
                        };
                        assert(res@[a] == old_res[a0]);
                        assert(res@[b] == old_res[b0]);
                    }
                }
                assert forall|a: int, b: int| 0 <= a < b < res@.len() implies res@[a]@
                    != res@[b]@ by {
                    if a == pos {
                        assert(res@[b] == old_res[b - 1]);
                    } else if b == pos {
                        assert(res@[a] == old_res[a]);
                    } else {
                        let a0 = if a < pos {
                            a
                        } else {
                            a - 1
                        };
                        let b0 = if b < pos {
                            b
                        } else {
                            b - 1
                        };
                        assert(res@[a] == old_res[a0]);
                        assert(res@[b] == old_res[b0]);
                    }
                }
                assert forall|x: IdView| has_view(res@, x) <==> (has_view(old_res, x) || x
                    == id@) by {
                    if has_view(res@, x) {
                        let j = choose|j: int| 0 <= j < res@.len() && (#[trigger] res@[j])@ == x;
                        if j < pos {
                            assert(res@[j] == old_res[j]);
                        } else if j > pos {
                            assert(res@[j] == old_res[j - 1]);
                        }
                    }
                    if has_view(old_res, x) {
                        let j = choose|j: int| 0 <= j < old_res.len() && (#[trigger] old_res[j])@ == x;
                        if j < pos {
                            assert(res@[j] == old_res[j]);
                        } else {
                            assert(res@[j + 1] == old_res[j]);
                        }
                    }
                    if x == id@ {
                        assert(res@[pos as int] == id);
                    }
                }
                assert forall|x: IdView| has_view(res@, x) <==> has_view(found@.take(i + 1), x) by {
                    assert(has_view(found@.take(i + 1), x) <==> (has_view(found@.take(i as int), x)
                        || x == id@));
                    assert(has_view(pre, x) <==> has_view(found@.take(i as int), x));
                    if x == id@ {
                    }
                }
                assert forall|j: int| 0 <= j < res@.len() implies key_known(#[trigger] res@[j]@) by {
                    if j < pos {
                        assert(res@[j] == old_res[j]);
                    } else if j > pos {
                        assert(res@[j] == old_res[j - 1]);
                    }
                }
                assert forall|j: int| 0 <= j < res@.len() implies (#[trigger] keys@[j])@
                    == debug_key(res@[j]@) by {
                    if j < pos {
                        assert(keys@[j] == old_keys[j]);
                        assert(res@[j] == old_res[j]);
                    } else if j > pos {
                        assert(keys@[j] == old_keys[j - 1]);
                        assert(res@[j] == old_res[j - 1]);
                    }
                }
            }
        }
        i = i + 1;
    }
    assert(found@.take(i as int) =~= found@);
    res
}

/// Every identifier in the text, ordered by `Debug` text, each once.
pub fn detect_all(text: &str) -> (r: Vec<Identifier>)
    ensures
        sorted_distinct(r@),
        forall|x: IdView| has_view(r@, x) <==> found_ids(text@).contains(x),
        forall|k: int| 0 <= k < r@.len() ==> key_known(#[trigger] r@[k]@),
{
    let t = chars_of(text);
    let ts = t.as_slice();
    let mut found = ids_for(Pattern::Doi, ts, &find_matches(Pattern::Doi, ts));
    let mut isbns = ids_for(Pattern::Isbn, ts, &find_matches(Pattern::Isbn, ts));
    let mut pmids = ids_for(Pattern::Pmid, ts, &find_matches(Pattern::Pmid, ts));
    let mut arxivs = ids_for(Pattern::Arxiv, ts, &find_matches(Pattern::Arxiv, ts));
    let ghost g0 = found@;
    let ghost g1 = isbns@;
    let ghost g2 = pmids@;
    let ghost g3 = arxivs@;
    found.append(&mut isbns);
    found.append(&mut pmids);
    found.append(&mut arxivs);
    proof {
        assert(found@ == g0 + g1 + g2 + g3);
        assert(ids_view(found@) =~= ids_view(g0) + ids_view(g1) + ids_view(g2) + ids_view(g3));
        assert forall|x: IdView| has_view(found@, x) <==> found_ids(t@).contains(x) by {
            if has_view(found@, x) {
                let j = choose|j: int| 0 <= j < found@.len() && (#[trigger] found@[j])@ == x;
                assert(ids_view(found@)[j] == x);
            }
            if found_ids(t@).contains(x) {
                let j = choose|j: int| 0 <= j < found_ids(t@).len() && #[trigger] found_ids(t@)[j] == x;
                assert(ids_view(found@)[j] == x);
                assert(found@[j]@ == x);
            }
        }
    }
    sort_dedup(&found)
}

/// The first DOI in the text, trailing `.`, `,` and `;` removed.
pub open spec fn first_doi(t: Seq<char>) -> Option<Seq<char>> {
    let m = matches_from(Pattern::Doi, t, 0);
    if m.len() > 0 {
        Some(trim_doi_end(t.subrange(m[0].0, m[0].1)))
    } else {
        None
    }
}

/// Detect DOIs specifically
pub fn detect_doi(text: &str) -> (r: Option<String>)
    ensures
        r.deep_view() == first_doi(text@),
{
    let t = chars_of(text);
    match find_first(Pattern::Doi, t.as_slice()) {
        Some((a, b)) => {
            let sub = sub_chars(t.as_slice(), a, b);
            let d = trim_doi_end_exec(sub.as_slice());
            Some(string_of(d.as_slice()))
        },
        None => None,
    }
}

/// The first ISBN match, normalized, when its checksum holds; a later match
/// is not looked at.
pub open spec fn first_isbn(t: Seq<char>) -> Option<Seq<char>> {
    let m = matches_from(Pattern::Isbn, t, 0);
    if m.len() > 0 && isbn_valid(normalize_isbn_spec(t.subrange(m[0].0, m[0].1))) {
        Some(normalize_isbn_spec(t.subrange(m[0].0, m[0].1)))
    } else {
        None
    }
}

/// Detect ISBN specifically
pub fn detect_isbn(text: &str) -> (r: Option<String>)
    ensures
        r.deep_view() == first_isbn(text@),
{
    let t = chars_of(text);
    match find_first(Pattern::Isbn, t.as_slice()) {
        Some((a, b)) => {
            let sub = sub_chars(t.as_slice(), a, b);
            let n = normalize_isbn_chars(sub.as_slice());
            if isbn_valid_chars(n.as_slice()) {
                Some(string_of(n.as_slice()))
            } else {
                None
            }
        },
        None => None,
    }
}

/// Different identifiers have different plain `Debug` texts.
proof fn lemma_plain_key_injective(a: IdView, b: IdView)
    requires
        a != b,
    ensures
        plain_key(a) != plain_key(b),
{
    let ka = plain_key(a);
    let kb = plain_key(b);
    if id_kind_name(a) != id_kind_name(b) {
        assert(ka[0] == id_kind_name(a)[0]);
        assert(kb[0] == id_kind_name(b)[0]);
    } else {
        let ta = id_text(a);
        let tb = id_text(b);
        assert(ta != tb);
        let n = id_kind_name(a).len();
        if ta.len() == tb.len() {
            assert(!(ta =~= tb));
            let m = choose|m: int| 0 <= m < ta.len() && ta[m] != tb[m];
            assert(ka[n + 2 + m] == ta[m]);
            assert(kb[n + 2 + m] == tb[m]);
        } else {
            assert(ka.len() != kb.len());
        }
    }
}

/// Detected identifiers whose text is printable ASCII without `"` or `\`
/// come in strictly increasing order of their `Debug` text, which for them is
/// the kind, then the text in double quotes in parentheses.
pub proof fn law_plain_ids_strictly_ordered(r: Seq<Identifier>)
    requires
        sorted_distinct(r),
        forall|k: int| 0 <= k < r.len() ==> key_known(#[trigger] r[k]@),
    ensures
        forall|i: int, j: int|
            0 <= i < j < r.len() && plain_text(id_text(r[i]@)) && plain_text(id_text(r[j]@))
                ==> lex_le(plain_key(#[trigger] r[i]@), plain_key(#[trigger] r[j]@)) && plain_key(
                r[i]@,
            ) != plain_key(r[j]@),
{
    assert forall|i: int, j: int|
        0 <= i < j < r.len() && plain_text(id_text(r[i]@)) && plain_text(id_text(r[j]@)) implies lex_le(
        plain_key(#[trigger] r[i]@),
        plain_key(#[trigger] r[j]@),
    ) && plain_key(r[i]@) != plain_key(r[j]@) by {
        assert(key_known(r[i]@));
        assert(key_known(r[j]@));
        lemma_plain_key_injective(r[i]@, r[j]@);
    }
}

/// A match that grammar `k` has at some start position.
pub open spec fn is_match_of(k: Pattern, t: Seq<char>, m: (int, int)) -> bool {
    exists|q: int| 0 <= q && #[trigger] match_at(k, t, q) == Some(m)
}

proof fn lemma_matches_are_matches(k: Pattern, t: Seq<char>, p: int)
    requires
        0 <= p,
    ensures
        forall|i: int|
            0 <= i < matches_from(k, t, p).len() ==> is_match_of(
                k,
                t,
                #[trigger] matches_from(k, t, p)[i],
            ),
    decreases t.len() - p,
{
    if p < t.len() {
        match match_at(k, t, p) {
            Some(m) => {
                lemma_match_bounds(k, t, p);
                lemma_matches_are_matches(k, t, m.1);
                let ms = matches_from(k, t, p);
                assert(ms == seq![m] + matches_from(k, t, m.1));
                assert forall|i: int| 0 <= i < ms.len() implies is_match_of(
                    k,
                    t,
                    #[trigger] ms[i],
                ) by {
                    if i == 0 {
                        assert(match_at(k, t, p) == Some(ms[0]));
                    } else {
                        assert(ms[i] == matches_from(k, t, m.1)[i - 1]);
                    }
                }
            },
            None => {
                lemma_matches_are_matches(k, t, p + 1);
                assert(matches_from(k, t, p) == matches_from(k, t, p + 1));
            },
        }
    }
}

proof fn lemma_ids_of_from(k: Pattern, t: Seq<char>, caps: Seq<(int, int)>, x: IdView)
    requires
        ids_of(k, t, caps).contains(x),
    ensures
        exists|i: int| 0 <= i < caps.len() && id_from(k, t, #[trigger] caps[i]) == Some(x),
    decreases caps.len(),
{
    let rest = ids_of(k, t, caps.drop_last());
    let all = ids_of(k, t, caps);
    let j = choose|j: int| 0 <= j < all.len() && all[j] == x;
    if j < rest.len() {
        assert(rest[j] == x);
        lemma_ids_of_from(k, t, caps.drop_last(), x);
        let i = choose|i: int|
            0 <= i < caps.drop_last().len() && id_from(k, t, #[trigger] caps.drop_last()[i])
                == Some(x);
        assert(caps.drop_last()[i] == caps[i]);
    } else {
        assert(id_from(k, t, caps[caps.len() - 1]) == Some(x));
    }
}

proof fn lemma_ids_of_has(k: Pattern, t: Seq<char>, caps: Seq<(int, int)>, j: int)
    requires
        0 <= j < caps.len(),
        id_from(k, t, caps[j]) is Some,
    ensures
        ids_of(k, t, caps).contains(id_from(k, t, caps[j]).unwrap()),
    decreases caps.len(),
{
    let x = id_from(k, t, caps[j]).unwrap();
    let rest = ids_of(k, t, caps.drop_last());
    if j == caps.len() - 1 {
        assert(ids_of(k, t, caps) == rest.push(x));
        assert(ids_of(k, t, caps)[rest.len() as int] == x);
    } else {
        assert(caps.drop_last()[j] == caps[j]);
        lemma_ids_of_has(k, t, caps.drop_last(), j);
        let i = choose|i: int| 0 <= i < rest.len() && rest[i] == x;
        assert(ids_of(k, t, caps)[i] == x);
    }
}

proof fn lemma_contains_concat(a: Seq<IdView>, b: Seq<IdView>, x: IdView)
    requires
        (a + b).contains(x),
    ensures
        a.contains(x) || b.contains(x),
{
    let j = choose|j: int| 0 <= j < (a + b).len() && (a + b)[j] == x;
    if j < a.len() {
        assert(a[j] == x);
    } else {
        assert(b[j - a.len()] == x);
    }
}

proof fn lemma_trim_doi_end(s: Seq<char>, k: int)
    requires
        0 <= k < s.len(),
        !(s[k] == '.' || s[k] == ',' || s[k] == ';'),
    ensures
        k < trim_doi_end(s).len() <= s.len(),
        trim_doi_end(s) == s.take(trim_doi_end(s).len() as int),
        !(trim_doi_end(s).last() == '.' || trim_doi_end(s).last() == ',' || trim_doi_end(s).last()
            == ';'),
    decreases s.len(),
{
    if s.last() == '.' || s.last() == ',' || s.last() == ';' {
        lemma_trim_doi_end(s.drop_last(), k);
        let r = trim_doi_end(s.drop_last());
        assert(s.drop_last().take(r.len() as int) =~= s.take(r.len() as int));
    } else {
        assert(s.take(s.len() as int) =~= s);
    }
}

proof fn lemma_normalize_chars(s: Seq<char>)
    ensures
        forall|k: int|
            0 <= k < normalize_isbn_spec(s).len() ==> is_ascii_digit(
                #[trigger] normalize_isbn_spec(s)[k],
            ) || normalize_isbn_spec(s)[k] == 'X',
    decreases s.len(),
{
    if s.len() > 0 {
        lemma_normalize_chars(s.drop_last());
        let rest = normalize_isbn_spec(s.drop_last());
        let n = normalize_isbn_spec(s);
        if isbn_char(s.last()) {
            assert(n == rest.push(ascii_upper(s.last())));
            assert forall|k: int| 0 <= k < n.len() implies is_ascii_digit(#[trigger] n[k]) || n[k]
                == 'X' by {
                if k < rest.len() {
                    assert(n[k] == rest[k]);
                }
            }
        }
    }
}

/// A run of class `k` from `i` that stops at `e` ends at `e`.
proof fn lemma_run_end_exact(k: Class, u: Seq<char>, i: int, e: int)
    requires
        0 <= i <= e <= u.len(),
        forall|j: int| i <= j < e ==> in_class(k, #[trigger] u[j]),
        e < u.len() ==> !in_class(k, u[e]),
    ensures
        run_end(k, u, i) == e,
    decreases e - i,
{
    if i < e {
        lemma_run_end_exact(k, u, i + 1, e);
    }
}

/// Some `/` of the text has a character after it.
pub open spec fn slash_before_end(d: Seq<char>) -> bool {
    exists|i: int| 0 <= i < d.len() - 1 && #[trigger] d[i] == '/'
}

/// A DOI that detection reports, and that keeps a character after its first
/// `/`, is reported unchanged when detection runs on it.
pub proof fn law_detect_doi_fixed_point(text: Seq<char>)
    ensures
        first_doi(text) matches Some(d) ==> (slash_before_end(d) ==> first_doi(d) == Some(d)),
{
    if let Some(d) = first_doi(text) {
        if slash_before_end(d) {
            let caps = matches_from(Pattern::Doi, text, 0);
            lemma_matches_are_matches(Pattern::Doi, text, 0);
            let m = caps[0];
            assert(is_match_of(Pattern::Doi, text, m));
            let q = choose|q: int| 0 <= q && #[trigger] match_at(Pattern::Doi, text, q) == Some(m);
            let dd = run_end(Class::Digit, text, q + 3);
            lemma_run_end(Class::Digit, text, q + 3);
            let e = run_end(Class::DoiBody, text, dd + 1);
            lemma_run_end(Class::DoiBody, text, dd + 1);
            assert(m == (q, e));
            let u = text.subrange(q, e);
            let w = dd - q;
            assert(u[w] == '/');
            lemma_trim_doi_end(u, w);
            assert(d == trim_doi_end(u));
            assert(d == u.take(d.len() as int));
            // The first `/` of `d` is at `w`.
            let i = choose|i: int| 0 <= i < d.len() - 1 && d[i] == '/';
            if i < w {
                assert(d[i] == text[q + i]);
                if i >= 3 {
                    assert(is_decimal_digit(text[q + i]));
                }
                assert(false);
            }
            assert forall|j: int| 3 <= j < w implies in_class(Class::Digit, #[trigger] d[j]) by {
                assert(d[j] == text[q + j]);
            }
            assert(d[w] == text[dd]);
            lemma_run_end_exact(Class::Digit, d, 3, w);
            assert forall|j: int| w + 1 <= j < d.len() implies in_class(
                Class::DoiBody,
                #[trigger] d[j],
            ) by {
                assert(d[j] == text[q + j]);
            }
            lemma_run_end_exact(Class::DoiBody, d, w + 1, d.len() as int);
            assert(d[0] == '1' && d[1] == '0' && d[2] == '.');
            assert(doi_match_at(d, 0) == Some((0int, d.len() as int)));
            assert(matches_from(Pattern::Doi, d, 0)[0] == (0int, d.len() as int));
            assert(d.subrange(0, d.len() as int) =~= d);
        }
    }
}

/// Normalized ISBN text normalizes to itself.
proof fn lemma_normalized_fixed(s: Seq<char>)
    requires
        normalized_isbn_text(s),
    ensures
        normalize_isbn_spec(s) == s,
    decreases s.len(),
{
    if s.len() > 0 {
        assert forall|k: int| 0 <= k < s.drop_last().len() implies is_ascii_digit(
            #[trigger] s.drop_last()[k],
        ) || s.drop_last()[k] == 'X' by {
            assert(s.drop_last()[k] == s[k]);
        }
        lemma_normalized_fixed(s.drop_last());
        assert(is_ascii_digit(s[s.len() - 1]) || s[s.len() - 1] == 'X');
        assert(s.drop_last().push(s.last()) =~= s);
    }
}

/// ISBN normalization (what [`normalize_isbn`] computes) yields ASCII digits
/// and `X` only, and normalizing again changes nothing.
pub proof fn law_normalize_isbn_idempotent(s: Seq<char>)
    ensures
        normalized_isbn_text(normalize_isbn_spec(s)),
        normalize_isbn_spec(normalize_isbn_spec(s)) == normalize_isbn_spec(s),
{
    lemma_normalize_chars(s);
    lemma_normalized_fixed(normalize_isbn_spec(s));
}

/// Plain digits (no separators) are read as a run of ISBN digits.
proof fn lemma_isbn_digits_plain(t: Seq<char>, q: int, k: nat)
    requires
        0 <= q,
        q + k < t.len(),
        forall|j: int| q <= j < q + k ==> is_ascii_digit(#[trigger] t[j]),
        !isbn_sep(t[q + k]),
    ensures
        isbn_digits_end(t, q, k) == Some(q + k),
    decreases k,
{
    if k > 0 {
        assert(is_ascii_digit(t[q]));
        if k > 1 {
            assert(is_ascii_digit(t[q + 1]));
        }
        lemma_isbn_digits_plain(t, q + 1, (k - 1) as nat);
    }
}

proof fn lemma_normalize_concat(a: Seq<char>, b: Seq<char>)
    ensures
        normalize_isbn_spec(a + b) == normalize_isbn_spec(a) + normalize_isbn_spec(b),
    decreases b.len(),
{
    if b.len() == 0 {
        assert(a + b =~= a);
        assert(normalize_isbn_spec(a) + normalize_isbn_spec(b) =~= normalize_isbn_spec(a));
    } else {
        assert((a + b).drop_last() =~= a + b.drop_last());
        assert((a + b).last() == b.last());
        lemma_normalize_concat(a, b.drop_last());
        if isbn_char(b.last()) {
            assert(normalize_isbn_spec(a) + normalize_isbn_spec(b.drop_last()).push(
                ascii_upper(b.last()),
            ) =~= (normalize_isbn_spec(a) + normalize_isbn_spec(b.drop_last())).push(
                ascii_upper(b.last()),
            ));
        }
    }
}

proof fn lemma_normalize_none(s: Seq<char>)
    requires
        forall|k: int| 0 <= k < s.len() ==> !isbn_char(#[trigger] s[k]),
    ensures
        normalize_isbn_spec(s) == Seq::<char>::empty(),
    decreases s.len(),
{
    if s.len() > 0 {
        assert forall|k: int| 0 <= k < s.drop_last().len() implies !isbn_char(
            #[trigger] s.drop_last()[k],
        ) by {
            assert(s.drop_last()[k] == s[k]);
        }
        lemma_normalize_none(s.drop_last());
        assert(!isbn_char(s[s.len() - 1]));
    }
}

/// Digits and `X`s (no separators) that run out before `k` ISBN digits are
/// read give no run.
proof fn lemma_isbn_digits_short(t: Seq<char>, q: int, k: nat)
    requires
        0 <= q <= t.len(),
        t.len() - q < k,
        forall|j: int| q <= j < t.len() ==> is_ascii_digit(#[trigger] t[j]) || t[j] == 'X',
    ensures
        isbn_digits_end(t, q, k) is None,
    decreases k,
{
    if q < t.len() {
        assert(is_ascii_digit(t[q]) || t[q] == 'X');
        if q + 1 < t.len() {
            assert(is_ascii_digit(t[q + 1]) || t[q + 1] == 'X');
        }
        if is_ascii_digit(t[q]) {
            lemma_isbn_digits_short(t, q + 1, (k - 1) as nat);
        }
    }
}

/// Every checksum-valid ISBN-10 (nine digits and a digit or `X`), written
/// after `ISBN `, is the ISBN that detection reports.
pub proof fn law_isbn10_detected(d: Seq<char>)
    requires
        d.len() == 10,
        forall|k: int| 0 <= k < 9 ==> is_ascii_digit(#[trigger] d[k]),
        is_ascii_digit(d[9]) || d[9] == 'X',
        isbn10_sum(d) % 11 == 0,
    ensures
        first_isbn(seq!['I', 'S', 'B', 'N', ' '] + d) == Some(d),
{
    let pre = seq!['I', 'S', 'B', 'N', ' '];
    let t = pre + d;
    assert(t.len() == 15);
    assert forall|k: int| 0 <= k < 10 implies t[5 + k] == d[k] by {}
    assert(t[0] == 'I' && t[1] == 'S' && t[2] == 'B' && t[3] == 'N' && t[4] == ' ');
    assert(is_white_space(t[4]));
    if has_978_prefix(t, 5) {
        assert(is_ascii_digit(d[3]));
        assert(!isbn_sep(t[8]));
        assert forall|j: int| 8 <= j < 15 implies is_ascii_digit(#[trigger] t[j]) || t[j]
            == 'X' by {
            assert(t[j] == d[j - 5]);
        }
        lemma_isbn_digits_short(t, 8, 9);
    }
    assert forall|j: int| 5 <= j < 14 implies is_ascii_digit(#[trigger] t[j]) by {
        assert(t[j] == d[j - 5]);
    }
    assert(t[14] == d[9]);
    lemma_isbn_digits_plain(t, 5, 9);
    assert(isbn_block_end(t, 5) == Some(15int));
    assert(isbn_match_at(t, 0) == Some((0int, 15int)));
    assert(matches_from(Pattern::Isbn, t, 0)[0] == (0int, 15int));
    assert(t.subrange(0, 15) =~= t);
    lemma_normalize_concat(pre, d);
    assert forall|k: int| 0 <= k < pre.len() implies !isbn_char(#[trigger] pre[k]) by {}
    lemma_normalize_none(pre);
    assert(normalized_isbn_text(d));
    lemma_normalized_fixed(d);
    assert(normalize_isbn_spec(t) =~= d);
    assert forall|k: int| 0 <= k < d.len() implies (#[trigger] d[k] as u32) < 0x80 by {
        assert(is_ascii_digit(d[k]) || d[k] == 'X');
    }
    lemma_ascii_utf8_len(d);
}

/// Every checksum-valid ISBN-13 whose prefix is `978` or `979`, written as
/// thirteen digits after `ISBN `, is the ISBN that detection reports.
pub proof fn law_isbn13_detected(d: Seq<char>)
    requires
        d.len() == 13,
        forall|k: int| 0 <= k < 13 ==> is_ascii_digit(#[trigger] d[k]),
        d[0] == '9' && d[1] == '7' && (d[2] == '8' || d[2] == '9'),
        isbn13_sum(d) % 10 == 0,
    ensures
        first_isbn(seq!['I', 'S', 'B', 'N', ' '] + d) == Some(d),
{
    let pre = seq!['I', 'S', 'B', 'N', ' '];
    let t = pre + d;
    assert(t.len() == 18);
    assert forall|k: int| 0 <= k < 13 implies t[5 + k] == d[k] by {}
    assert(t[0] == 'I' && t[1] == 'S' && t[2] == 'B' && t[3] == 'N' && t[4] == ' ');
    assert(is_white_space(t[4]));
    assert(has_978_prefix(t, 5));
    assert(is_ascii_digit(d[3]));
    assert(!isbn_sep(t[8]));
    assert forall|j: int| 8 <= j <= 17 implies is_ascii_digit(#[trigger] t[j]) by {
        assert(t[j] == d[j - 5]);
    }
    lemma_isbn_digits_plain(t, 8, 9);
    assert(is_decimal_digit(t[17]));
    assert(isbn_block_end(t, 8) == Some(18int));
    assert(isbn_match_at(t, 0) == Some((0int, 18int)));
    assert(matches_from(Pattern::Isbn, t, 0)[0] == (0int, 18int));
    assert(t.subrange(0, 18) =~= t);
    lemma_normalize_concat(pre, d);
    assert forall|k: int| 0 <= k < pre.len() implies !isbn_char(#[trigger] pre[k]) by {}
    lemma_normalize_none(pre);
    assert(normalized_isbn_text(d));
    lemma_normalized_fixed(d);
    assert(normalize_isbn_spec(t) =~= d);
    assert forall|k: int| 0 <= k < d.len() implies (#[trigger] d[k] as u32) < 0x80 by {
        assert(is_ascii_digit(d[k]));
    }
    lemma_ascii_utf8_len(d);
}

/// A DOI as detection reports it: `10.`, at least four digits and a `/` (so
/// eight characters at least), with no `.`, `,` or `;` at the end.
pub open spec fn doi_shaped(d: Seq<char>) -> bool {
    &&& d.len() >= 8
    &&& d[0] == '1' && d[1] == '0' && d[2] == '.'
    &&& !(d.last() == '.' || d.last() == ',' || d.last() == ';')
}

/// An ISBN as detection reports it: checksum-valid, ten or thirteen
/// ASCII characters, each a digit or `X`.
pub open spec fn isbn_shaped(i: Seq<char>) -> bool {
    &&& isbn_valid(i)
    &&& forall|k: int| 0 <= k < i.len() ==> is_ascii_digit(#[trigger] i[k]) || i[k] == 'X'
}

/// A well-formed identifier of its kind; a PMID is a run of digits and an
/// arXiv ID takes at least nine characters.
pub open spec fn well_formed_id(x: IdView) -> bool {
    match x {
        IdView::Doi(d) => doi_shaped(d),
        IdView::Isbn(i) => isbn_shaped(i),
        IdView::Pmid(p) => p.len() > 0 && forall|k: int|
            0 <= k < p.len() ==> is_decimal_digit(#[trigger] p[k]),
        IdView::Arxiv(a) => a.len() >= 9,
    }
}

proof fn lemma_id_from_match(k: Pattern, t: Seq<char>, m: (int, int))
    requires
        is_match_of(k, t, m),
        id_from(k, t, m) is Some,
    ensures
        well_formed_id(id_from(k, t, m).unwrap()),
{
    let q = choose|q: int| 0 <= q && #[trigger] match_at(k, t, q) == Some(m);
    lemma_match_bounds(k, t, q);
    let sub = t.subrange(m.0, m.1);
    match k {
        Pattern::Doi => {
            lemma_run_end(Class::Digit, t, q + 3);
            let d = run_end(Class::Digit, t, q + 3);
            lemma_run_end(Class::DoiBody, t, d + 1);
            assert(sub[d - q] == '/');
            lemma_trim_doi_end(sub, d - q);
            let r = trim_doi_end(sub);
            assert(r == sub.take(r.len() as int));
            assert(sub.take(r.len() as int)[0] == sub[0]);
            assert(sub.take(r.len() as int)[1] == sub[1]);
            assert(sub.take(r.len() as int)[2] == sub[2]);
            assert(sub[0] == t[q] && sub[1] == t[q + 1] && sub[2] == t[q + 2]);
        },
        Pattern::Isbn => {
            lemma_normalize_chars(sub);
        },
        Pattern::Pmid => {
            lemma_run_end(Class::PmidGap, t, q + 4);
            let p = run_end(Class::PmidGap, t, q + 4);
            lemma_run_end(Class::Digit, t, p);
            assert forall|j: int| 0 <= j < sub.len() implies is_decimal_digit(#[trigger] sub[j]) by {
                assert(sub[j] == t[p + j]);
                assert(in_class(Class::Digit, t[p + j]));
            }
        },
        Pattern::Arxiv => {
            let p = q + 6;
            if digits_at(t, p, 4) && p + 4 < t.len() && t[p + 4] == '.' && digits_at(t, p + 5, 4) {
                let q2 = if digits_at(t, p + 9, 1) {
                    p + 10
                } else {
                    p + 9
                };
                if q2 + 1 < t.len() {
                    lemma_run_end(Class::Digit, t, q2 + 1);
                }
            }
        },
    }
}

/// Every identifier that detection reports is well formed for its kind (see
/// [`well_formed_id`]): a DOI starts with `10.` and keeps no trailing `.`,
/// `,` or `;`; an ISBN passes its checksum; a PMID is digits.
pub proof fn law_detected_ids_well_formed(text: Seq<char>)
    ensures
        forall|x: IdView| #[trigger] found_ids(text).contains(x) ==> well_formed_id(x),
{
    assert forall|x: IdView| found_ids(text).contains(x) implies well_formed_id(x) by {
        let a = ids_of(Pattern::Doi, text, matches_from(Pattern::Doi, text, 0));
        let b = ids_of(Pattern::Isbn, text, matches_from(Pattern::Isbn, text, 0));
        let c = ids_of(Pattern::Pmid, text, matches_from(Pattern::Pmid, text, 0));
        let d = ids_of(Pattern::Arxiv, text, matches_from(Pattern::Arxiv, text, 0));
        lemma_contains_concat(a + b + c, d, x);
        if (a + b + c).contains(x) {
            lemma_contains_concat(a + b, c, x);
            if (a + b).contains(x) {
                lemma_contains_concat(a, b, x);
            }
        }
        let k = if a.contains(x) {
            Pattern::Doi
        } else if b.contains(x) {
            Pattern::Isbn
        } else if c.contains(x) {
            Pattern::Pmid
        } else {
            Pattern::Arxiv
        };
        let caps = matches_from(k, text, 0);
        lemma_ids_of_from(k, text, caps, x);
        let i = choose|i: int| 0 <= i < caps.len() && id_from(k, text, #[trigger] caps[i]) == Some(x);
        lemma_matches_are_matches(k, text, 0);
        assert(is_match_of(k, text, caps[i]));
        lemma_id_from_match(k, text, caps[i]);
    }
}

/// The DOI that `detect_doi` reports is among those that `detect_all`
/// reports, and is well formed.
pub proof fn law_first_doi_detected(text: Seq<char>)
    ensures
        first_doi(text) matches Some(d) ==> found_ids(text).contains(IdView::Doi(d)) && doi_shaped(d),
{
    if let Some(d) = first_doi(text) {
        let caps = matches_from(Pattern::Doi, text, 0);
        let a = ids_of(Pattern::Doi, text, caps);
        let b = ids_of(Pattern::Isbn, text, matches_from(Pattern::Isbn, text, 0));
        let c = ids_of(Pattern::Pmid, text, matches_from(Pattern::Pmid, text, 0));
        let e = ids_of(Pattern::Arxiv, text, matches_from(Pattern::Arxiv, text, 0));
        assert(id_from(Pattern::Doi, text, caps[0]) == Some(IdView::Doi(d)));
        lemma_ids_of_has(Pattern::Doi, text, caps, 0);
        let i = choose|i: int| 0 <= i < a.len() && a[i] == IdView::Doi(d);
        assert((a + b)[i] == a[i]);
        assert((a + b + c)[i] == a[i]);
        assert((a + b + c + e)[i] == IdView::Doi(d));
        assert(found_ids(text) == a + b + c + e);
        assert(found_ids(text).contains(IdView::Doi(d)));
        law_detected_ids_well_formed(text);
        assert(well_formed_id(IdView::Doi(d)));
    }
}

/// The ISBN that `detect_isbn` reports is among those that `detect_all`
/// reports, and is well formed.
pub proof fn law_first_isbn_detected(text: Seq<char>)
    ensures
        first_isbn(text) matches Some(n) ==> found_ids(text).contains(IdView::Isbn(n))
            && isbn_shaped(n),
{
    if let Some(n) = first_isbn(text) {
        let caps = matches_from(Pattern::Isbn, text, 0);
        let a = ids_of(Pattern::Doi, text, matches_from(Pattern::Doi, text, 0));
        let b = ids_of(Pattern::Isbn, text, caps);
        let c = ids_of(Pattern::Pmid, text, matches_from(Pattern::Pmid, text, 0));
        let e = ids_of(Pattern::Arxiv, text, matches_from(Pattern::Arxiv, text, 0));
        assert(id_from(Pattern::Isbn, text, caps[0]) == Some(IdView::Isbn(n)));
        lemma_ids_of_has(Pattern::Isbn, text, caps, 0);
        let i = choose|i: int| 0 <= i < b.len() && b[i] == IdView::Isbn(n);
        assert((a + b)[a.len() + i] == b[i]);
        assert((a + b + c)[a.len() + i] == b[i]);
        assert((a + b + c + e)[a.len() + i] == IdView::Isbn(n));
        assert(found_ids(text) == a + b + c + e);
        assert(found_ids(text).contains(IdView::Isbn(n)));
        law_detected_ids_well_formed(text);
        assert(well_formed_id(IdView::Isbn(n)));
    }
}

} // verus!
