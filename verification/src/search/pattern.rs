//! Regular expressions, through the `regex` crate.
//!
//! A pattern is carried as its source text together with its case flag; each
//! search compiles it with `regex::RegexBuilder` and runs the search on the
//! compiled expression. Compilation and matching are the crate's: the names
//! below stand for their results, and the only facts stated beside them are
//! the ones the crate documents (matches lie on character boundaries, spans
//! are ordered).

use vstd::prelude::*;
use crate::text::{
    char_len_utf8, first_index, lemma_first_index, lemma_first_index_unique, lemma_utf8_len_ge_len,
    lemma_utf8_len_take_le, lemma_utf8_len_take_mono, lemma_utf8_len_take_step, str_to_chars,
    utf8_len,
};

verus! {

/// Whether `RegexBuilder::new(pattern).case_insensitive(case_insensitive).build()` succeeds.
pub uninterp spec fn regex_compiles(pattern: Seq<char>, case_insensitive: bool) -> bool;

/// The text shown for the error of `RegexBuilder::new(pattern)
/// .case_insensitive(case_insensitive).build()` (its `Display` form) when
/// the pattern does not compile.
pub uninterp spec fn regex_error_text(pattern: Seq<char>, case_insensitive: bool) -> Seq<char>;

/// The byte span of the leftmost-first match of the regex built from
/// `pattern` and `case_insensitive`, in `haystack` (`Regex::find`).
pub uninterp spec fn regex_first_match(
    pattern: Seq<char>,
    case_insensitive: bool,
    haystack: Seq<char>,
) -> Option<(usize, usize)>;

/// The byte spans of the successive non-overlapping matches of that regex in
/// `haystack`, in order (`Regex::find_iter`).
pub uninterp spec fn regex_all_matches(
    pattern: Seq<char>,
    case_insensitive: bool,
    haystack: Seq<char>,
) -> Seq<(usize, usize)>;

/// The character index at which byte offset `b` falls in `s`, when `b` is a
/// character boundary of the UTF-8 encoding of `s`.
pub open spec fn char_index_at_byte(s: Seq<char>, b: int) -> Option<int> {
    first_index(|k: int| utf8_len(s.take(k)) == b, 0, s.len() + 1int)
}

/// `b` is a character boundary of the UTF-8 encoding of `s`.
pub open spec fn is_char_boundary_in(s: Seq<char>, b: int) -> bool {
    char_index_at_byte(s, b) is Some
}

/// A byte span that starts and ends on character boundaries, in order.
pub open spec fn is_span_in(s: Seq<char>, span: (usize, usize)) -> bool {
    &&& span.0 <= span.1
    &&& is_char_boundary_in(s, span.0 as int)
    &&& is_char_boundary_in(s, span.1 as int)
}

/// The spans come in order and do not overlap: each ends at or before the
/// start of every later one.
pub open spec fn spans_ordered(spans: Seq<(usize, usize)>) -> bool {
    forall|i: int, j: int|
        #![trigger spans[i], spans[j]]
        0 <= i < j < spans.len() ==> spans[i].1 <= spans[j].0
}

/// The byte offset of the `k`-th character boundary falls at character index `k`.
pub proof fn lemma_char_index_of_take(s: Seq<char>, k: int)
    requires
        0 <= k <= s.len(),
    ensures
        char_index_at_byte(s, utf8_len(s.take(k)) as int) == Some(k),
{
    let b = utf8_len(s.take(k)) as int;
    let p = |j: int| utf8_len(s.take(j)) == b;
    assert forall|j: int| 0 <= j < k implies !#[trigger] p(j) by {
        lemma_utf8_len_take_mono(s, j, k);
    }
    lemma_first_index_unique(p, 0, s.len() + 1int, k);
}

/// A character boundary lies within the encoding, and the character index
/// found for it has exactly that many bytes before it.
pub proof fn lemma_boundary_facts(s: Seq<char>, b: int)
    requires
        is_char_boundary_in(s, b),
    ensures
        0 <= char_index_at_byte(s, b).unwrap() <= s.len(),
        utf8_len(s.take(char_index_at_byte(s, b).unwrap())) == b,
        0 <= b <= utf8_len(s),
{
    let p = |j: int| utf8_len(s.take(j)) == b;
    lemma_first_index(p, 0, s.len() + 1int);
    let k = char_index_at_byte(s, b).unwrap();
    lemma_utf8_len_take_le(s, k);
}

/// Tries to compile `pattern` with `RegexBuilder` (case flag as given).
/// Claimed: `Ok` exactly when `regex_compiles(pattern, case_insensitive)`;
/// on failure the error's display text, named `regex_error_text` of the
/// arguments. Its wording is not stated.
#[verifier::external_body]
pub fn regex_check(pattern: &str, case_insensitive: bool) -> (res: Result<(), String>)
    ensures
        res is Ok <==> regex_compiles(pattern@, case_insensitive),
        res matches Err(e) ==> e@ == regex_error_text(pattern@, case_insensitive),
{
    match regex::RegexBuilder::new(pattern).case_insensitive(case_insensitive).build() {
        Ok(_) => Ok(()),
        Err(e) => Err(e.to_string()),
    }
}

/// Compiles `pattern` and calls `Regex::find` on `haystack`, returning the
/// match's byte span. Claimed: the result is `regex_first_match(..)` of the
/// arguments, and a span starts and ends on character boundaries with
/// start <= end (the crate documents that `Match` offsets of a `Regex`
/// always fall on UTF-8 boundaries of the haystack).
#[verifier::external_body]
pub fn regex_find(pattern: &str, case_insensitive: bool, haystack: &str) -> (res: Option<
    (usize, usize),
>)
    requires
        regex_compiles(pattern@, case_insensitive),
    ensures
        res == regex_first_match(pattern@, case_insensitive, haystack@),
        res matches Some(span) ==> is_span_in(haystack@, span),
{
    let re = regex::RegexBuilder::new(pattern).case_insensitive(case_insensitive).build().unwrap();
    re.find(haystack).map(|m| (m.start(), m.end()))
}

/// Compiles `pattern` and collects `Regex::find_iter` on `haystack` as byte
/// spans. Claimed: the result is `regex_all_matches(..)` of the arguments,
/// every span starts and ends on character boundaries with start <= end, and
/// the spans come in order without overlapping (the crate documents
/// `find_iter` as yielding "all non-overlapping successive" matches).
#[verifier::external_body]
pub fn regex_find_all(pattern: &str, case_insensitive: bool, haystack: &str) -> (res: Vec<
    (usize, usize),
>)
    requires
        regex_compiles(pattern@, case_insensitive),
    ensures
        res@ == regex_all_matches(pattern@, case_insensitive, haystack@),
        forall|i: int| 0 <= i < res@.len() ==> is_span_in(haystack@, #[trigger] res@[i]),
        spans_ordered(res@),
{
    let re = regex::RegexBuilder::new(pattern).case_insensitive(case_insensitive).build().unwrap();
    re.find_iter(haystack).map(|m| (m.start(), m.end())).collect()
}

/// Whether the (case-insensitive) regex `pattern` matches somewhere in `haystack`.
pub open spec fn regex_matches(pattern: Seq<char>, haystack: Seq<char>) -> bool {
    regex_first_match(pattern, true, haystack) is Some
}

/// Whether the case-insensitive regex `pattern` matches somewhere in `haystack`
/// (`Regex::is_match`, which reports whether `Regex::find` finds a match).
pub fn regex_is_match(pattern: &str, haystack: &str) -> (res: bool)
    requires
        regex_compiles(pattern@, true),
    ensures
        res == regex_matches(pattern@, haystack@),
{
    regex_find(pattern, true, haystack).is_some()
}

/// Character index of byte offset `b` in `line`, plus one (a 1-based column).
pub fn column_from_byte(line: &str, b: usize) -> (col: usize)
    requires
        is_char_boundary_in(line@, b as int),
    ensures
        col == char_index_at_byte(line@, b as int).unwrap() + 1,
        1 <= col <= line@.len() + 1,
{
    let cs = str_to_chars(line);
    let ghost s = cs@;
    let ghost p = |k: int| utf8_len(s.take(k)) == b;
    proof {
        lemma_first_index(p, 0, s.len() + 1int);
        lemma_utf8_len_ge_len(s);
    }
    let mut k: usize = 0;
    let mut off: usize = 0;
    while k < cs.len()
        invariant
            s == cs@,
            s == line@,
            s.len() <= isize::MAX,
            p == (|k: int| utf8_len(s.take(k)) == b),
            k <= s.len(),
            off == utf8_len(s.take(k as int)),
            off <= b,
            first_index(p, 0, s.len() + 1int) == first_index(p, k as int, s.len() + 1int),
            first_index(p, 0, s.len() + 1int) is Some,
        decreases s.len() - k,
    {
        if off == b {
            assert(p(k as int));
            assert(first_index(p, k as int, s.len() + 1int) == Some(k as int));
            return k + 1;
        }
        proof {
            lemma_utf8_len_take_step(s, k as int);
            let i = first_index(p, 0, s.len() + 1int).unwrap();
            lemma_first_index(p, k as int, s.len() + 1int);
            // The boundary lies beyond k, so the next prefix still fits.
            lemma_utf8_len_take_mono(s, k + 1, i);
        }
        off = off + char_len_utf8(cs[k]);
        k = k + 1;
    }
    proof {
        lemma_first_index(p, k as int, s.len() + 1int);
    }
    k + 1
}

/// The characters that `regex::escape` puts a backslash before.
pub open spec fn is_escaped_meta(c: char) -> bool {
    c == '\\' || c == '.' || c == '+' || c == '*' || c == '?' || c == '(' || c == ')' || c == '|'
        || c == '[' || c == ']' || c == '{' || c == '}' || c == '^' || c == '$' || c == '#'
        || c == '&' || c == '-' || c == '~'
}

/// `s` with a backslash before each meta character, so that it matches itself
/// as a regular expression.
pub open spec fn escaped(s: Seq<char>) -> Seq<char>
    decreases s.len(),
{
    if s.len() == 0 {
        seq![]
    } else {
        escaped(s.drop_last()) + (if is_escaped_meta(s.last()) {
            seq!['\\', s.last()]
        } else {
            seq![s.last()]
        })
    }
}

/// Calls `regex::escape`. Claimed (its source in regex-syntax: each
/// character is copied, with a backslash first when `is_meta_character`
/// holds, for exactly the characters of `is_escaped_meta`): the result is
/// `escaped(text)`.
#[verifier::external_body]
pub fn regex_escape(text: &str) -> (res: String)
    ensures
        res@ == escaped(text@),
{
    regex::escape(text)
}

} // verus!
