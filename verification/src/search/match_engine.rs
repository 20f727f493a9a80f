//! Line matchers: literal (case-sensitive or not) and regular expression.
//!
//! A hit reports the 1-based character column of the first match and its
//! byte span in the line's UTF-8 encoding. Case-insensitive literal search
//! on ASCII text compares the line's and the needle's bytes folded with
//! ASCII lowercase; otherwise each character of the line must have the same
//! Unicode lowercase mapping as the corresponding character of the needle,
//! so a line always matches a needle that it holds verbatim.

use vstd::prelude::*;
use vstd::string::*;
use vstd::utf8::*;
use crate::text::{
    byte_offset_of, char_lowercase, chars_equal, str_byte_len, char_to_lowercase, first_index,
    lemma_first_index, lemma_first_index_unique, lemma_str_len, lemma_utf8_len_ascii,
    lemma_utf8_len_encode, lemma_utf8_len_ge_len, lemma_utf8_len_take_le, lemma_utf8_len_take_mono,
    str_lowercase, str_to_chars, str_to_lowercase, str_to_string, to_ascii_lower, ascii_lower,
    utf8_len,
};
use crate::search::pattern::{
    char_index_at_byte, column_from_byte, is_char_boundary_in, lemma_boundary_facts,
    lemma_char_index_of_take, regex_check, regex_compiles, regex_error_text, regex_find,
    regex_first_match,
};

verus! {

/// A match found in a line.
#[derive(Debug, Clone, Copy, PartialEq, Eq, Structural)]
pub struct MatchHit {
    /// 1-based character column of the start of the match.
    pub column_chars: usize,
    /// Byte offset of the start of the match.
    pub byte_start: usize,
    /// Byte offset just past the end of the match.
    pub byte_end: usize,
}

/// A line matcher.
pub enum Matcher {
    /// A literal needle; when not case sensitive, `needle_lower` holds the
    /// needle's lowercase form (matching folds the needle character by
    /// character instead).
    Literal { needle: String, case_sensitive: bool, needle_lower: Option<String> },
    /// A regular expression, kept as its source text and case flag.
    Regex { pattern: String, case_insensitive: bool },
}

/// The hit with the given column and byte span.
pub open spec fn hit(col: int, bs: int, be: int) -> MatchHit {
    MatchHit { column_chars: col as usize, byte_start: bs as usize, byte_end: be as usize }
}

/// `needle` occurs in `line` at character index `k`.
pub open spec fn literal_at(line: Seq<char>, needle: Seq<char>, k: int) -> bool {
    line.subrange(k, k + needle.len()) == needle
}

/// First character index at which `needle` occurs in `line`.
pub open spec fn literal_first(line: Seq<char>, needle: Seq<char>) -> Option<int> {
    first_index(|k: int| literal_at(line, needle, k), 0, line.len() - needle.len() + 1)
}

/// The case-sensitive literal hit (`str::find`).
pub open spec fn literal_hit(line: Seq<char>, needle: Seq<char>) -> Option<MatchHit> {
    match literal_first(line, needle) {
        Some(k) => Some(
            hit(k + 1, utf8_len(line.take(k)) as int, utf8_len(line.take(k + needle.len())) as int),
        ),
        None => None,
    }
}

/// The bytes `hay[i..]` equal `nb` after ASCII lowercasing.
pub open spec fn ascii_ci_at(hay: Seq<u8>, nb: Seq<u8>, i: int) -> bool {
    forall|j: int| 0 <= j < nb.len() ==> ascii_lower(hay[i + j]) == #[trigger] nb[j]
}

/// `b` with each ASCII capital letter lowercased.
pub open spec fn ascii_lower_bytes(b: Seq<u8>) -> Seq<u8> {
    b.map_values(|x: u8| ascii_lower(x))
}

/// Each character of `line[i..]` has the same lowercase mapping as the
/// matching character of `needle`.
pub open spec fn lower_at(line: Seq<char>, needle: Seq<char>, i: int) -> bool {
    forall|j: int|
        0 <= j < needle.len() ==> char_lowercase(line[i + j]) == char_lowercase(#[trigger] needle[j])
}

/// The case-insensitive literal hit of `needle` in `line`: on ASCII text the
/// first place where the line's bytes equal the needle's bytes after ASCII
/// lowercasing; otherwise the first place where each line character has the
/// same lowercase mapping as the matching needle character.
pub open spec fn ci_hit(line: Seq<char>, needle: Seq<char>) -> Option<MatchHit> {
    if needle.len() == 0 {
        Some(hit(1, 0, 0))
    } else if line.len() < needle.len() {
        None
    } else if is_ascii_chars(line) && is_ascii_chars(needle) {
        let lb = encode_utf8(line);
        let nb = ascii_lower_bytes(encode_utf8(needle));
        match first_index(|i: int| ascii_ci_at(lb, nb, i), 0, lb.len() - nb.len() + 1) {
            Some(i) => Some(hit(i + 1, i, i + nb.len())),
            None => None,
        }
    } else {
        match first_index(|i: int| lower_at(line, needle, i), 0, line.len() - needle.len() + 1) {
            Some(i) => Some(
                hit(i + 1, utf8_len(line.take(i)) as int, utf8_len(line.take(i + needle.len())) as int),
            ),
            None => None,
        }
    }
}

/// A hit lies within `line`: its byte span is in order, inside the line's
/// UTF-8 encoding and on character boundaries, and its column is one more
/// than the number of characters before its start.
pub open spec fn hit_in_line(line: Seq<char>, h: MatchHit) -> bool {
    &&& h.byte_start <= h.byte_end <= utf8_len(line)
    &&& is_char_boundary_in(line, h.byte_start as int)
    &&& is_char_boundary_in(line, h.byte_end as int)
    &&& h.column_chars == char_index_at_byte(line, h.byte_start as int).unwrap() + 1
}

/// The regular-expression hit: the first match's span, with the column of its start.
pub open spec fn regex_hit(pattern: Seq<char>, ci: bool, line: Seq<char>) -> Option<MatchHit> {
    match regex_first_match(pattern, ci, line) {
        Some(span) => Some(
            hit(char_index_at_byte(line, span.0 as int).unwrap() + 1, span.0 as int, span.1 as int),
        ),
        None => None,
    }
}

impl Matcher {
    /// The matcher is usable: a literal needle is non-empty and carries its
    /// (non-empty) lowercase form exactly when the search ignores case; a
    /// regular expression compiles.
    pub open spec fn wf(&self) -> bool {
        match self {
            Matcher::Literal { needle, case_sensitive, needle_lower } => {
                &&& needle@.len() > 0
                &&& if *case_sensitive {
                    needle_lower is None
                } else {
                    needle_lower matches Some(l) && l@ == str_lowercase(needle@) && l@.len() >= 1
                }
            },
            Matcher::Regex { pattern, case_insensitive } => regex_compiles(
                pattern@,
                *case_insensitive,
            ),
        }
    }

    /// The first hit of this matcher in `line`.
    pub open spec fn find_spec(&self, line: Seq<char>) -> Option<MatchHit> {
        match self {
            Matcher::Literal { needle, case_sensitive, needle_lower } => {
                if *case_sensitive {
                    literal_hit(line, needle@)
                } else {
                    match needle_lower {
                        Some(_) => ci_hit(line, needle@),
                        None => None,
                    }
                }
            },
            Matcher::Regex { pattern, case_insensitive } => regex_hit(
                pattern@,
                *case_insensitive,
                line,
            ),
        }
    }

    /// A literal matcher for `query`; fails with "empty query" when `query` is empty.
    pub fn literal(query: &str, case_sensitive: bool) -> (res: Result<Matcher, String>)
        ensures
            res is Err <==> query@.len() == 0,
            res matches Err(e) ==> e@ == "empty query"@,
            res matches Ok(m) ==> m.wf() && (m matches Matcher::Literal {
                needle,
                case_sensitive: cs,
                needle_lower,
            } && needle@ == query@ && cs == case_sensitive),
    {
        if query.is_empty() {
            return Err(str_to_string("empty query"));
        }
        let needle_lower = if case_sensitive {
            None
        } else {
            Some(str_to_lowercase(query))
        };
        Ok(Matcher::Literal { needle: str_to_string(query), case_sensitive, needle_lower })
    }

    /// A regular-expression matcher for `query`, case-insensitive unless
    /// `case_sensitive`; fails with the compiler's message when `query` does
    /// not compile.
    pub fn regex(query: &str, case_sensitive: bool) -> (res: Result<Matcher, String>)
        ensures
            res is Ok <==> regex_compiles(query@, !case_sensitive),
            res matches Err(e) ==> e@ == regex_error_text(query@, !case_sensitive),
            res matches Ok(m) ==> m.wf() && (m matches Matcher::Regex { pattern, case_insensitive }
                && pattern@ == query@ && case_insensitive == !case_sensitive),
    {
        match regex_check(query, !case_sensitive) {
            Ok(()) => Ok(Matcher::Regex { pattern: str_to_string(query), case_insensitive: !case_sensitive }),
            Err(e) => Err(e),
        }
    }

    /// The first hit of this matcher in `line`, if any.
    pub fn find_in_line(&self, line: &str) -> (res: Option<MatchHit>)
        requires
            self.wf(),
        ensures
            res == self.find_spec(line@),
            res matches Some(h) ==> 1 <= h.column_chars <= line@.len() + 1 && hit_in_line(line@, h),
    {
        let _n = str_byte_len(line);
        proof {
            lemma_find_spec_column(self, line@);
        }
        match self {
            Matcher::Literal { needle, case_sensitive, needle_lower } => {
                if *case_sensitive {
                    find_literal(line, needle.as_str())
                } else {
                    match needle_lower {
                        Some(_) => find_literal_case_insensitive(line, needle.as_str()),
                        None => None,
                    }
                }
            },
            Matcher::Regex { pattern, case_insensitive } => {
                match regex_find(pattern.as_str(), *case_insensitive, line) {
                    Some((s, e)) => {
                        proof {
                            lemma_boundary_facts(line@, s as int);
                            lemma_boundary_facts(line@, e as int);
                        }
                        Some(
                            MatchHit { column_chars: column_from_byte(line, s), byte_start: s, byte_end: e },
                        )
                    },
                    None => None,
                }
            },
        }
    }

    /// Whether this matcher finds a hit in `line`.
    pub fn is_match_line(&self, line: &str) -> (res: bool)
        requires
            self.wf(),
        ensures
            res == self.find_spec(line@) is Some,
    {
        self.find_in_line(line).is_some()
    }
}

/// Hits of literal searches lie within the line: their column is at most
/// one past the last character, and their span is on character boundaries.
pub proof fn lemma_find_spec_column(m: &Matcher, line: Seq<char>)
    requires
        utf8_len(line) <= isize::MAX,
    ensures
        (m matches Matcher::Literal { .. }) ==> (m.find_spec(line) matches Some(h) ==> 1
            <= h.column_chars <= line.len() + 1 && hit_in_line(line, h)),
{
    lemma_utf8_len_ge_len(line);
    match m {
        Matcher::Literal { needle, case_sensitive, needle_lower } => {
            let nd = needle@;
            if *case_sensitive {
                lemma_first_index(|k: int| literal_at(line, nd, k), 0, line.len() - nd.len() + 1);
                match literal_first(line, nd) {
                    Some(k) => lemma_span_of_chars(line, k, k + nd.len()),
                    None => {},
                }
            } else if needle_lower is Some && nd.len() > 0 && line.len() >= nd.len() {
                if is_ascii_chars(line) && is_ascii_chars(nd) {
                    let lb = encode_utf8(line);
                    let nb = ascii_lower_bytes(encode_utf8(nd));
                    lemma_utf8_len_encode(line);
                    lemma_utf8_len_ascii(line);
                    lemma_utf8_len_encode(nd);
                    lemma_utf8_len_ascii(nd);
                    lemma_first_index(|i: int| ascii_ci_at(lb, nb, i), 0, lb.len() - nb.len() + 1);
                    match first_index(|i: int| ascii_ci_at(lb, nb, i), 0, lb.len() - nb.len() + 1) {
                        Some(i) => {
                            lemma_ascii_take(line, i);
                            lemma_ascii_take(line, i + nb.len());
                            lemma_span_of_chars(line, i, i + nb.len());
                        },
                        None => {},
                    }
                } else {
                    lemma_first_index(|i: int| lower_at(line, nd, i), 0, line.len() - nd.len() + 1);
                    match first_index(|i: int| lower_at(line, nd, i), 0, line.len() - nd.len() + 1) {
                        Some(i) => lemma_span_of_chars(line, i, i + nd.len()),
                        None => {},
                    }
                }
            }
        },
        Matcher::Regex { .. } => {},
    }
}

/// In an ASCII line every prefix is as long in bytes as in characters.
proof fn lemma_ascii_take(line: Seq<char>, k: int)
    requires
        is_ascii_chars(line),
        0 <= k <= line.len(),
    ensures
        utf8_len(line.take(k)) == k,
{
    assert(is_ascii_chars(line.take(k)));
    lemma_utf8_len_ascii(line.take(k));
}

/// The byte span of the characters `line[a..b]` lies on character boundaries
/// within the line.
proof fn lemma_span_of_chars(line: Seq<char>, a: int, b: int)
    requires
        0 <= a <= b <= line.len(),
        utf8_len(line) <= isize::MAX,
    ensures
        hit_in_line(line, hit(a + 1, utf8_len(line.take(a)) as int, utf8_len(line.take(b)) as int)),
{
    lemma_utf8_len_ge_len(line);
    lemma_utf8_len_take_mono(line, a, b);
    lemma_utf8_len_take_le(line, b);
    lemma_char_index_of_take(line, a);
    lemma_char_index_of_take(line, b);
}

/// A line that holds the needle verbatim is matched, whether case matters
/// or not, at or before that occurrence.
pub proof fn law_verbatim_occurrence_found(m: &Matcher, line: Seq<char>, k: int)
    requires
        m.wf(),
        m matches Matcher::Literal { needle, .. } && 0 <= k && k + needle@.len() <= line.len()
            && literal_at(line, needle@, k),
    ensures
        m.find_spec(line) matches Some(h) && h.column_chars <= k + 1,
{
    match m {
        Matcher::Literal { needle, case_sensitive, needle_lower } => {
            let nd = needle@;
            assert forall|j: int| 0 <= j < nd.len() implies line[k + j] == #[trigger] nd[j] by {
                assert(line.subrange(k, k + nd.len())[j] == line[k + j]);
            }
            if *case_sensitive {
                let p = |i: int| literal_at(line, nd, i);
                lemma_first_index(p, 0, line.len() - nd.len() + 1);
                assert(p(k));
            } else if is_ascii_chars(line) && is_ascii_chars(nd) {
                let lb = encode_utf8(line);
                let nb = ascii_lower_bytes(encode_utf8(nd));
                is_ascii_chars_encode_utf8(line);
                is_ascii_chars_encode_utf8(nd);
                let p = |i: int| ascii_ci_at(lb, nb, i);
                assert forall|j: int| 0 <= j < nb.len() implies ascii_lower(lb[k + j]) == #[trigger] nb[j] by {
                    assert(line[k + j] == nd[j]);
                    assert(lb[k + j] == line[k + j] as u8);
                    assert(encode_utf8(nd)[j] == nd[j] as u8);
                }
                assert(p(k));
                lemma_first_index(p, 0, lb.len() - nb.len() + 1);
            } else {
                let p = |i: int| lower_at(line, nd, i);
                assert forall|j: int| 0 <= j < nd.len() implies char_lowercase(line[k + j])
                    == char_lowercase(#[trigger] nd[j]) by {
                    assert(line[k + j] == nd[j]);
                }
                assert(p(k));
                lemma_first_index(p, 0, line.len() - nd.len() + 1);
            }
        },
        Matcher::Regex { .. } => {},
    }
}

/// Whether `needle` occurs in `line` at character index `k`.
fn chars_match_at(line: &[char], needle: &[char], k: usize) -> (r: bool)
    requires
        k + needle@.len() <= line@.len(),
    ensures
        r == literal_at(line@, needle@, k as int),
{
    let mut j: usize = 0;
    while j < needle.len()
        invariant
            k + needle@.len() <= line@.len(),
            line@.len() == line.len(),
            j <= needle@.len(),
            forall|t: int| 0 <= t < j ==> line@[k + t] == needle@[t],
        decreases needle@.len() - j,
    {
        if line[k + j] != needle[j] {
            assert(line@.subrange(k as int, k + needle@.len())[j as int] != needle@[j as int]);
            return false;
        }
        j = j + 1;
    }
    assert(line@.subrange(k as int, k + needle@.len()) =~= needle@);
    true
}

/// Case-sensitive literal search: the first occurrence of `needle` in `line`.
pub fn find_literal(line: &str, needle: &str) -> (res: Option<MatchHit>)
    ensures
        res == literal_hit(line@, needle@),
{
    let lc = str_to_chars(line);
    let nc = str_to_chars(needle);
    proof {
        lemma_utf8_len_ge_len(lc@);
    }
    if nc.len() > lc.len() {
        proof {
            lemma_first_index(|k: int| literal_at(lc@, nc@, k), 0, lc@.len() - nc@.len() + 1);
        }
        return None;
    }
    let ghost p = |k: int| literal_at(lc@, nc@, k);
    let last = lc.len() - nc.len();
    let mut k: usize = 0;
    while k <= last
        invariant
            last == lc@.len() - nc@.len(),
            k <= last + 1,
            p == (|k: int| literal_at(lc@, nc@, k)),
            first_index(p, 0, last + 1) == first_index(p, k as int, last + 1),
            lc@ == line@,
            nc@ == needle@,
            utf8_len(lc@) <= isize::MAX,
            lc@.len() <= isize::MAX,
        decreases last + 1 - k,
    {
        if chars_match_at(lc.as_slice(), nc.as_slice(), k) {
            assert(first_index(p, k as int, last + 1) == Some(k as int));
            proof {
                lemma_utf8_len_take_le(lc@, k + nc@.len());
            }
            let bs = byte_offset_of(lc.as_slice(), k);
            let be = byte_offset_of(lc.as_slice(), k + nc.len());
            return Some(MatchHit { column_chars: k + 1, byte_start: bs, byte_end: be });
        }
        k = k + 1;
    }
    None
}

/// The bytes of `b` with each ASCII capital letter lowercased.
pub fn ascii_lowercase_bytes(b: &[u8]) -> (res: Vec<u8>)
    ensures
        res@ == ascii_lower_bytes(b@),
{
    let mut out: Vec<u8> = Vec::new();
    let mut i: usize = 0;
    while i < b.len()
        invariant
            i <= b@.len(),
            out@ == ascii_lower_bytes(b@.take(i as int)),
        decreases b@.len() - i,
    {
        out.push(to_ascii_lower(b[i]));
        proof {
            assert(ascii_lower_bytes(b@.take(i + 1)) =~= ascii_lower_bytes(b@.take(i as int)).push(
                ascii_lower(b@[i as int]),
            ));
        }
        i = i + 1;
    }
    assert(b@.take(b@.len() as int) =~= b@);
    out
}

/// Case-insensitive literal search. ASCII text is compared byte by byte
/// after ASCII lowercasing of both sides; anything else falls back to
/// comparing the Unicode lowercase mapping of each character of the line
/// with that of the needle's character.
pub fn find_literal_case_insensitive(line: &str, needle: &str) -> (res: Option<MatchHit>)
    ensures
        res == ci_hit(line@, needle@),
{
    let lc = str_to_chars(line);
    let nc = str_to_chars(needle);
    if nc.len() == 0 {
        return Some(MatchHit { column_chars: 1, byte_start: 0, byte_end: 0 });
    }
    if lc.len() < nc.len() {
        return None;
    }
    if line.is_ascii() && needle.is_ascii() {
        let hay = line.as_bytes();
        let nb = ascii_lowercase_bytes(needle.as_bytes());
        let nlen = nb.len();
        let ghost p = |i: int| ascii_ci_at(encode_utf8(line@), ascii_lower_bytes(encode_utf8(needle@)), i);
        proof {
            lemma_utf8_len_encode(line@);
            lemma_utf8_len_ascii(line@);
            lemma_utf8_len_encode(needle@);
            lemma_utf8_len_ascii(needle@);
        }
        assert(hay@ == encode_utf8(line@));
        assert(nb@ == ascii_lower_bytes(encode_utf8(needle@)));
        let last = hay.len() - nlen;
        let mut i: usize = 0;
        while i <= last
            invariant
                last == hay@.len() - nb@.len(),
                nlen == nb@.len(),
                nlen >= 1,
                hay@.len() == hay.len(),
                i <= last + 1,
                p == (|i: int| ascii_ci_at(encode_utf8(line@), ascii_lower_bytes(encode_utf8(needle@)), i)),
                hay@ == encode_utf8(line@),
                nb@ == ascii_lower_bytes(encode_utf8(needle@)),
                first_index(p, 0, last + 1) == first_index(p, i as int, last + 1),
                is_ascii_chars(line@) && is_ascii_chars(needle@),
                lc@ == line@,
                nc@ == needle@,
                lc@.len() >= nc@.len() && nc@.len() > 0,
            decreases last + 1 - i,
        {
            let mut j: usize = 0;
            let mut ok = true;
            while j < nlen && ok
                invariant
                    i <= last,
                    last == hay@.len() - nb@.len(),
                    nlen == nb@.len(),
                    hay@.len() == hay.len(),
                    j <= nlen,
                    ok ==> forall|t: int| 0 <= t < j ==> ascii_lower(hay@[i + t]) == #[trigger] nb@[t],
                    !ok ==> !ascii_ci_at(hay@, nb@, i as int),
                decreases nlen - j + (if ok { 1int } else { 0int }),
            {
                if to_ascii_lower(hay[i + j]) != nb[j] {
                    ok = false;
                    assert(!(ascii_lower(hay@[i + j as int]) == nb@[j as int]));
                } else {
                    j = j + 1;
                }
            }
            if ok {
                assert(ascii_ci_at(hay@, nb@, i as int));
                assert(p(i as int));
                assert(first_index(p, i as int, last + 1) == Some(i as int));
                assert(ci_hit(line@, needle@) == Some(hit(i + 1, i as int, i + nlen)));
                return Some(MatchHit { column_chars: i + 1, byte_start: i, byte_end: i + nlen });
            }
            i = i + 1;
        }
        return None;
    }
    find_literal_case_insensitive_unicode(line, needle)
}

/// The lowercase mappings of the characters of `cs`, one per character.
fn lowercase_each(cs: &[char]) -> (res: Vec<Vec<char>>)
    ensures
        res@.len() == cs@.len(),
        forall|u: int| 0 <= u < cs@.len() ==> (#[trigger] res@[u])@ == char_lowercase(cs@[u]),
{
    let mut out: Vec<Vec<char>> = Vec::new();
    let mut t: usize = 0;
    while t < cs.len()
        invariant
            t <= cs@.len(),
            out@.len() == t,
            forall|u: int| 0 <= u < t ==> (#[trigger] out@[u])@ == char_lowercase(cs@[u]),
        decreases cs@.len() - t,
    {
        out.push(char_to_lowercase(cs[t]));
        t = t + 1;
    }
    out
}

/// Per-character case-insensitive search: the first position where every
/// character of `line` has the same Unicode lowercase mapping as the
/// corresponding character of `needle`.
pub fn find_literal_case_insensitive_unicode(line: &str, needle: &str) -> (res: Option<MatchHit>)
    ensures
        res == (if needle@.len() == 0 {
            Some(hit(1, 0, 0))
        } else if line@.len() < needle@.len() {
            None
        } else {
            match first_index(|i: int| lower_at(line@, needle@, i), 0, line@.len() - needle@.len() + 1) {
                Some(i) => Some(
                    hit(
                        i + 1,
                        utf8_len(line@.take(i)) as int,
                        utf8_len(line@.take(i + needle@.len())) as int,
                    ),
                ),
                None => None,
            }
        }),
{
    let nc = str_to_chars(needle);
    let nlen = nc.len();
    if nlen == 0 {
        return Some(MatchHit { column_chars: 1, byte_start: 0, byte_end: 0 });
    }
    let lc = str_to_chars(line);
    proof {
        lemma_utf8_len_ge_len(lc@);
    }
    if lc.len() < nlen {
        return None;
    }
    let lower_line = lowercase_each(lc.as_slice());
    let lower_needle = lowercase_each(nc.as_slice());
    let ghost p = |i: int| lower_at(lc@, nc@, i);
    let last = lc.len() - nlen;
    let mut i: usize = 0;
    while i <= last
        invariant
            last == lc@.len() - nc@.len(),
            nlen == nc@.len(),
            nlen >= 1,
            lc@.len() <= isize::MAX,
            lower_line@.len() == lc@.len(),
            lower_needle@.len() == nc@.len(),
            forall|u: int| 0 <= u < lc@.len() ==> (#[trigger] lower_line@[u])@ == char_lowercase(lc@[u]),
            forall|u: int| 0 <= u < nc@.len() ==> (#[trigger] lower_needle@[u])@ == char_lowercase(nc@[u]),
            i <= last + 1,
            p == (|i: int| lower_at(lc@, nc@, i)),
            first_index(p, 0, last + 1) == first_index(p, i as int, last + 1),
            lc@ == line@,
            nc@ == needle@,
            utf8_len(lc@) <= isize::MAX,
        decreases last + 1 - i,
    {
        let mut j: usize = 0;
        let mut ok = true;
        while j < nlen && ok
            invariant
                i <= last,
                last == lc@.len() - nc@.len(),
                nlen == nc@.len(),
                lc@.len() <= isize::MAX,
                lower_line@.len() == lc@.len(),
                lower_needle@.len() == nc@.len(),
                forall|u: int| 0 <= u < lc@.len() ==> (#[trigger] lower_line@[u])@ == char_lowercase(lc@[u]),
                forall|u: int| 0 <= u < nc@.len() ==> (#[trigger] lower_needle@[u])@ == char_lowercase(nc@[u]),
                j <= nlen,
                ok ==> forall|t: int|
                    0 <= t < j ==> char_lowercase(lc@[i + t]) == char_lowercase(#[trigger] nc@[t]),
                !ok ==> !lower_at(lc@, nc@, i as int),
            decreases nlen - j + (if ok { 1int } else { 0int }),
        {
            let same = chars_equal(lower_line[i + j].as_slice(), lower_needle[j].as_slice());
            if !same {
                ok = false;
                assert(char_lowercase(lc@[i + j as int]) != char_lowercase(nc@[j as int]));
            } else {
                j = j + 1;
            }
        }
        if ok {
            assert(lower_at(lc@, nc@, i as int));
            assert(p(i as int));
            assert(first_index(p, i as int, last + 1) == Some(i as int));
            proof {
                lemma_utf8_len_take_le(lc@, i + nlen);
            }
            let bs = byte_offset_of(lc.as_slice(), i);
            let be = byte_offset_of(lc.as_slice(), i + nlen);
            return Some(MatchHit { column_chars: i + 1, byte_start: bs, byte_end: be });
        }
        i = i + 1;
    }
    None
}

} // verus!
