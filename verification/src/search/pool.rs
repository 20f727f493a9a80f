//! Per-file search: the work each search worker does on a file's bytes.
//!
//! Literal ASCII needles are searched directly in the raw bytes, line by
//! line (lines end at `\n`; a `\r` before it is not part of the line); the
//! column of a hit counts the characters that the line's bytes before it
//! decode to. Other matchers fall back to decoding the file and searching its
//! text line by line. Columns are 1-based character columns either way. Result lines are
//! trimmed and, when longer than 120 characters, cut to 40 characters before
//! and 60 after the match, with `...` marking each cut.

use vstd::prelude::*;
use vstd::utf8::encode_utf8;
use vstd::slice::slice_subrange;
use crate::text::{
    chars_to_string, first_index, lemma_first_index, lemma_first_index_unique,
    lemma_first_index_none, slice_range_to_vec, split_lines, str_to_chars, str_to_string,
    text_lines, trim, trim_chars, ascii_lower, ascii_upper, to_ascii_lower, to_ascii_upper,
    lemma_utf8_len_ge_len, lemma_first_index_shift, lemma_first_index_ext,
};
use crate::search::{SearchResultItem, ItemView, item_views};
use crate::search::match_engine::{Matcher, MatchHit, ascii_lower_bytes, ascii_lowercase_bytes};
use crate::search::pattern::{regex_compiles, regex_error_text};
use crate::search::decode::{decode_content, decoded_text, looks_binary, is_binary, utf8_lossy, utf8_to_string_lossy};

verus! {

/// Lines longer than this many characters are shortened around the match.
pub const MAX_LINE_CHARS: usize = 120;

/// Characters kept before the match in a shortened line.
pub const CONTEXT_BEFORE: usize = 40;

/// Characters kept from the match on in a shortened line.
pub const CONTEXT_AFTER: usize = 60;

/// Matches are handed on in batches of this size.
pub const MATCH_BATCH: usize = 32;

/// Progress is reported every this many scanned files.
pub const PROGRESS_EVERY: usize = 50;

/// `...`, marking a cut.
pub open spec fn ellipsis() -> Seq<char> {
    seq!['.', '.', '.']
}

/// The 0-based character index of the matcher's first hit in `t`, or 0.
pub open spec fn hit_index(m: &Matcher, t: Seq<char>) -> int {
    match m.find_spec(t) {
        Some(h) => if h.column_chars >= 1 {
            h.column_chars - 1
        } else {
            0
        },
        None => 0,
    }
}

/// The displayed form of a result line (see the module description).
pub open spec fn truncated_line(line: Seq<char>, m: &Matcher) -> Seq<char> {
    let t = trim(line);
    if t.len() <= MAX_LINE_CHARS {
        t
    } else {
        let idx = hit_index(m, t);
        let start = if idx >= CONTEXT_BEFORE {
            idx - CONTEXT_BEFORE
        } else {
            0
        };
        let end = if idx + CONTEXT_AFTER < t.len() {
            idx + CONTEXT_AFTER
        } else {
            t.len() as int
        };
        (if start > 0 {
            ellipsis()
        } else {
            seq![]
        }) + t.subrange(start, end) + (if end < t.len() {
            ellipsis()
        } else {
            seq![]
        })
    }
}

/// The displayed form of a result line: trimmed, and when longer than
/// `MAX_LINE_CHARS` characters, cut around the matcher's first hit.
pub fn truncate_line(line: &str, matcher: &Matcher) -> (res: String)
    requires
        matcher.wf(),
    ensures
        res@ == truncated_line(line@, matcher),
        res@.len() <= MAX_LINE_CHARS,
        trim(line@).len() > MAX_LINE_CHARS ==> res@.len() <= CONTEXT_BEFORE + CONTEXT_AFTER + 6,
{
    let cs = str_to_chars(line);
    proof {
        lemma_utf8_len_ge_len(cs@);
    }
    let (a, b) = crate::text::trim_bounds(cs.as_slice());
    let t = slice_range_to_vec(cs.as_slice(), a, b);
    let total = t.len();
    if total <= MAX_LINE_CHARS {
        return chars_to_string(t.as_slice());
    }
    let ts = chars_to_string(t.as_slice());
    let idx: usize = match matcher.find_in_line(ts.as_str()) {
        Some(h) => if h.column_chars >= 1 {
            h.column_chars - 1
        } else {
            0
        },
        None => 0,
    };
    let start: usize = if idx >= CONTEXT_BEFORE {
        idx - CONTEXT_BEFORE
    } else {
        0
    };
    let end: usize = if idx + CONTEXT_AFTER < total {
        idx + CONTEXT_AFTER
    } else {
        total
    };
    let mut out: Vec<char> = Vec::new();
    if start > 0 {
        out.push('.');
        out.push('.');
        out.push('.');
    }
    let ghost pre = out@;
    let mid = slice_range_to_vec(t.as_slice(), start, end);
    let mut i: usize = 0;
    while i < mid.len()
        invariant
            i <= mid@.len(),
            out@ == pre + mid@.take(i as int),
        decreases mid@.len() - i,
    {
        out.push(mid[i]);
        proof {
            assert(mid@.take(i + 1) =~= mid@.take(i as int).push(mid@[i as int]));
        }
        i = i + 1;
    }
    let ghost mid_done = out@;
    if end < total {
        out.push('.');
        out.push('.');
        out.push('.');
    }
    proof {
        assert(mid@.take(mid@.len() as int) =~= mid@);
        if start > 0 {
            assert(pre =~= ellipsis());
        } else {
            assert(pre =~= Seq::<char>::empty());
        }
        if end < total {
            assert(out@ =~= mid_done + ellipsis());
        } else {
            assert(out@ =~= mid_done + Seq::<char>::empty());
        }
    }
    chars_to_string(out.as_slice())
}


// ---------------------------------------------------------------------------
// Byte searches (memchr)
// ---------------------------------------------------------------------------

/// Byte `i` of `hay` is `b`.
pub open spec fn byte_pred(hay: Seq<u8>, b: u8) -> spec_fn(int) -> bool {
    |i: int| hay[i] == b
}

/// Byte `i` of `hay` is `b1` or `b2`.
pub open spec fn byte2_pred(hay: Seq<u8>, b1: u8, b2: u8) -> spec_fn(int) -> bool {
    |i: int| hay[i] == b1 || hay[i] == b2
}

/// Index of the first byte of `hay` equal to `b`.
pub open spec fn first_byte(hay: Seq<u8>, b: u8) -> Option<int> {
    first_index(byte_pred(hay, b), 0, hay.len() as int)
}

/// Index of the first byte of `hay` equal to `b1` or `b2`.
pub open spec fn first_byte2(hay: Seq<u8>, b1: u8, b2: u8) -> Option<int> {
    first_index(byte2_pred(hay, b1, b2), 0, hay.len() as int)
}

/// `nd` occurs in `hay` at byte index `i`.
pub open spec fn occurs_at(hay: Seq<u8>, nd: Seq<u8>, i: int) -> bool {
    0 <= i && i + nd.len() <= hay.len() && hay.subrange(i, i + nd.len()) == nd
}

/// `nd` occurs in `hay` at byte index `i`, as a predicate on `i`.
pub open spec fn occurs_pred(hay: Seq<u8>, nd: Seq<u8>) -> spec_fn(int) -> bool {
    |i: int| occurs_at(hay, nd, i)
}

/// Index of the first occurrence of `nd` in `hay`.
pub open spec fn first_occurrence(hay: Seq<u8>, nd: Seq<u8>) -> Option<int> {
    first_index(occurs_pred(hay, nd), 0, hay.len() + 1int)
}

/// Calls `memchr::memchr`. Claimed (the crate's documentation): the index
/// of the first byte equal to `b`, or `None` when there is none.
#[verifier::external_body]
fn memchr_find(b: u8, hay: &[u8]) -> (res: Option<usize>)
    ensures
        match res {
            Some(i) => first_byte(hay@, b) == Some(i as int),
            None => first_byte(hay@, b) is None,
        },
{
    memchr::memchr(b, hay)
}

/// Calls `memchr::memchr2`. Claimed (the crate's documentation): the index
/// of the first byte equal to `b1` or `b2`, or `None` when there is none.
#[verifier::external_body]
fn memchr2_find(b1: u8, b2: u8, hay: &[u8]) -> (res: Option<usize>)
    ensures
        match res {
            Some(i) => first_byte2(hay@, b1, b2) == Some(i as int),
            None => first_byte2(hay@, b1, b2) is None,
        },
{
    memchr::memchr2(b1, b2, hay)
}

/// Calls `memchr::memmem::Finder::find`. Claimed (the crate's
/// documentation): the index of the first occurrence of `nd` in `hay`, or
/// `None` when there is none.
#[verifier::external_body]
fn memmem_find(hay: &[u8], nd: &[u8]) -> (res: Option<usize>)
    ensures
        match res {
            Some(i) => first_occurrence(hay@, nd@) == Some(i as int),
            None => first_occurrence(hay@, nd@) is None,
        },
{
    memchr::memmem::Finder::new(nd).find(hay)
}

// ---------------------------------------------------------------------------
// Lines of a byte buffer
// ---------------------------------------------------------------------------

/// End of the line starting at `pos`: the index of the next `\n`, or the
/// end of the buffer.
pub open spec fn line_end_from(buf: Seq<u8>, pos: int) -> int {
    match first_index(byte_pred(buf, 10u8), pos, buf.len() as int) {
        Some(i) => i,
        None => buf.len() as int,
    }
}

/// The `(start, end)` spans of the lines from `pos` on; `end` is the index
/// of the terminating `\n` or the buffer's end. A final `\n` does not start
/// another line.
pub open spec fn byte_line_spans(buf: Seq<u8>, pos: int) -> Seq<(int, int)>
    decreases buf.len() + 1 - pos,
{
    if pos < 0 || pos >= buf.len() {
        seq![]
    } else {
        let e = line_end_from(buf, pos);
        if pos <= e <= buf.len() {
            seq![(pos, e)] + byte_line_spans(buf, e + 1)
        } else {
            seq![]
        }
    }
}

/// End of a line's content: a `\r` just before the line end is left out.
pub open spec fn content_end(buf: Seq<u8>, s: int, e: int) -> int {
    if e > s && buf[e - 1] == 13u8 {
        e - 1
    } else {
        e
    }
}

proof fn lemma_line_end_from(buf: Seq<u8>, pos: int)
    requires
        0 <= pos <= buf.len(),
    ensures
        pos <= line_end_from(buf, pos) <= buf.len(),
        forall|k: int| pos <= k < line_end_from(buf, pos) ==> buf[k] != 10u8,
        line_end_from(buf, pos) < buf.len() ==> buf[line_end_from(buf, pos)] == 10u8,
{
    let p = byte_pred(buf, 10u8);
    lemma_first_index(p, pos, buf.len() as int);
    assert forall|k: int| pos <= k < line_end_from(buf, pos) implies buf[k] != 10u8 by {
        assert(!p(k));
    }
}

/// End of the line starting at `pos`.
fn find_line_end(buf: &[u8], pos: usize) -> (e: usize)
    requires
        pos <= buf@.len(),
    ensures
        e == line_end_from(buf@, pos as int),
{
    let sub = slice_subrange(buf, pos, buf.len());
    let ghost p = byte_pred(buf@, 10u8);
    let ghost q = byte_pred(sub@, 10u8);
    proof {
        assert forall|i: int| 0 <= i < buf@.len() - pos implies #[trigger] q(i) == p(i + pos) by {
            assert(sub@[i] == buf@[i + pos]);
        }
        lemma_first_index_shift(p, q, pos as int, buf@.len() as int, 0);
        lemma_first_index(q, 0, sub@.len() as int);
    }
    match memchr_find(10u8, sub) {
        Some(off) => {
            proof {
                lemma_first_index(byte_pred(sub@, 10u8), 0, sub@.len() as int);
            }
            pos + off
        },
        None => buf.len(),
    }
}

// ---------------------------------------------------------------------------
// Case-insensitive byte search
// ---------------------------------------------------------------------------

/// A case-insensitive candidate at `i`: the first byte equals the needle's
/// first byte or its ASCII uppercase, and each later byte, ASCII-lowercased,
/// equals the needle's byte.
pub open spec fn ci_byte_at(hay: Seq<u8>, nb: Seq<u8>, i: int) -> bool {
    &&& hay[i] == nb[0] || hay[i] == ascii_upper(nb[0])
    &&& forall|j: int| 1 <= j < nb.len() ==> ascii_lower(hay[i + j]) == #[trigger] nb[j]
}

/// `ci_byte_at` as a predicate on the index.
pub open spec fn ci_pred(hay: Seq<u8>, nb: Seq<u8>) -> spec_fn(int) -> bool {
    |i: int| ci_byte_at(hay, nb, i)
}

/// First case-insensitive match of the lowercase needle `nb` in `hay`.
pub open spec fn ci_byte_hit(hay: Seq<u8>, nb: Seq<u8>) -> Option<int> {
    if hay.len() < nb.len() {
        None
    } else {
        first_index(ci_pred(hay, nb), 0, hay.len() - nb.len() + 1)
    }
}

/// Finds the lowercase needle `nb` in `hay`, ignoring ASCII case.
fn find_lowercase(hay: &[u8], nb: &[u8]) -> (res: Option<usize>)
    requires
        nb@.len() >= 1,
    ensures
        match res {
            Some(i) => ci_byte_hit(hay@, nb@) == Some(i as int),
            None => ci_byte_hit(hay@, nb@) is None,
        },
{
    let n = nb.len();
    if hay.len() < n {
        return None;
    }
    let first = nb[0];
    let upper = to_ascii_upper(first);
    let limit = hay.len() - n;
    assert(hay@.len() == hay.len());
    let ghost p = ci_pred(hay@, nb@);
    let mut search_pos: usize = 0;
    while search_pos <= limit
        invariant
            n == nb@.len(),
            n >= 1,
            limit == hay@.len() - n,
            hay@.len() <= usize::MAX,
            search_pos <= limit + 1,
            first == nb@[0],
            upper == ascii_upper(first),
            p == ci_pred(hay@, nb@),
            first_index(p, 0, limit + 1) == first_index(p, search_pos as int, limit + 1),
        decreases limit + 1 - search_pos,
    {
        let window = slice_subrange(hay, search_pos, limit + 1);
        let ghost cand = byte2_pred(hay@, first, upper);
        let ghost wcand = byte2_pred(window@, first, upper);
        proof {
            assert forall|i: int| 0 <= i < limit + 1 - search_pos implies #[trigger] wcand(i) == cand(i + search_pos) by {
                assert(window@[i] == hay@[i + search_pos]);
            }
            lemma_first_index_shift(cand, wcand, search_pos as int, limit + 1, 0);
            lemma_first_index(wcand, 0, window@.len() as int);
        }
        let found = if first != upper {
            memchr2_find(first, upper, window)
        } else {
            let r = memchr_find(first, window);
            proof {
                let wone = byte_pred(window@, first);
                assert forall|i: int| 0 <= i < window@.len() implies #[trigger] wone(i) == wcand(i) by {}
                lemma_first_index_ext(wone, wcand, 0, window@.len() as int);
            }
            r
        };
        match found {
            Some(offset) => {
                let hit = search_pos + offset;
                proof {
                    lemma_first_index(cand, search_pos as int, limit + 1);
                    assert forall|k: int| search_pos <= k < hit implies !#[trigger] p(k) by {
                        assert(!cand(k));
                    }
                    crate::text::lemma_first_index_skip(p, search_pos as int, hit as int, limit + 1);
                }
                let mut j: usize = 1;
                let mut ok = true;
                while j < n && ok
                    invariant
                        n == nb@.len(),
                        hit <= limit,
                        limit == hay@.len() - n,
                        hay@.len() <= usize::MAX,
                        1 <= j <= n,
                        ok ==> forall|t: int| 1 <= t < j ==> ascii_lower(hay@[hit + t]) == #[trigger] nb@[t],
                        !ok ==> !ci_byte_at(hay@, nb@, hit as int),
                    decreases n - j + (if ok { 1int } else { 0int }),
                {
                    if to_ascii_lower(hay[hit + j]) != nb[j] {
                        ok = false;
                    } else {
                        j = j + 1;
                    }
                }
                if ok {
                    assert(cand(hit as int));
                    assert(ci_byte_at(hay@, nb@, hit as int));
                    assert(first_index(p, hit as int, limit + 1) == Some(hit as int));
                    return Some(hit);
                }
                search_pos = hit + 1;
            },
            None => {
                proof {
                    lemma_first_index(cand, search_pos as int, limit + 1);
                    assert forall|k: int| search_pos <= k < limit + 1 implies !#[trigger] p(k) by {
                        assert(!cand(k));
                    }
                    lemma_first_index_none(p, search_pos as int, limit + 1);
                }
                return None;
            },
        }
    }
    None
}

// ---------------------------------------------------------------------------
// Successive occurrences (memmem's non-overlapping search)
// ---------------------------------------------------------------------------

/// The occurrences of `nd` in `hay` reported from `p` on: the first
/// occurrence at or after `p`, then the next one at or after its end, and
/// so on.
pub open spec fn occurrences_from(hay: Seq<u8>, nd: Seq<u8>, p: int) -> Seq<int>
    decreases hay.len() + 1 - p,
{
    if nd.len() == 0 || p < 0 || p > hay.len() {
        seq![]
    } else {
        match first_index(occurs_pred(hay, nd), p, hay.len() + 1int) {
            Some(i) => if p <= i && i + nd.len() <= hay.len() {
                seq![i] + occurrences_from(hay, nd, i + nd.len())
            } else {
                seq![]
            },
            None => seq![],
        }
    }
}

/// Reported occurrences are real occurrences, at or after `p`, in
/// increasing order and without overlap.
proof fn lemma_occurrences(hay: Seq<u8>, nd: Seq<u8>, p: int)
    ensures
        forall|i: int|
            0 <= i < occurrences_from(hay, nd, p).len() ==> p <= #[trigger] occurrences_from(
                hay,
                nd,
                p,
            )[i] && occurs_at(hay, nd, occurrences_from(hay, nd, p)[i]),
        forall|i: int, j: int|
            0 <= i < j < occurrences_from(hay, nd, p).len() ==> #[trigger] occurrences_from(
                hay,
                nd,
                p,
            )[i] + nd.len() <= #[trigger] occurrences_from(hay, nd, p)[j],
    decreases hay.len() + 1 - p,
{
    if nd.len() == 0 || p < 0 || p > hay.len() {
    } else {
        let f = occurs_pred(hay, nd);
        lemma_first_index(f, p, hay.len() + 1int);
        match first_index(f, p, hay.len() + 1int) {
            Some(i) => {
                if p <= i && i + nd.len() <= hay.len() {
                    assert(f(i));
                    lemma_occurrences(hay, nd, i + nd.len());
                    let rest = occurrences_from(hay, nd, i + nd.len());
                    let s = occurrences_from(hay, nd, p);
                    assert(s == seq![i] + rest);
                    assert forall|a: int| 0 <= a < s.len() implies p <= #[trigger] s[a] && occurs_at(hay, nd, s[a]) by {
                        if a > 0 {
                            assert(s[a] == rest[a - 1]);
                        }
                    }
                    assert forall|a: int, b: int| 0 <= a < b < s.len() implies #[trigger] s[a] + nd.len() <= #[trigger] s[b] by {
                        assert(s[b] == rest[b - 1]);
                        if a > 0 {
                            assert(s[a] == rest[a - 1]);
                        }
                    }
                }
            },
            None => {},
        }
    }
}

/// The first occurrence of `nd` in `hay` at or after byte `p`.
fn find_from(hay: &[u8], nd: &[u8], p: usize) -> (res: Option<usize>)
    requires
        p <= hay@.len(),
    ensures
        match res {
            Some(i) => first_index(occurs_pred(hay@, nd@), p as int, hay@.len() + 1int) == Some(i as int),
            None => first_index(occurs_pred(hay@, nd@), p as int, hay@.len() + 1int) is None,
        },
{
    let sub = slice_subrange(hay, p, hay.len());
    let ghost f = occurs_pred(hay@, nd@);
    let ghost g = occurs_pred(sub@, nd@);
    proof {
        assert forall|i: int| 0 <= i < hay@.len() + 1 - p implies #[trigger] g(i) == f(i + p) by {
            if i + nd@.len() <= sub@.len() {
                assert(sub@.subrange(i, i + nd@.len()) =~= hay@.subrange(i + p, i + p + nd@.len()));
            }
        }
        lemma_first_index_shift(f, g, p as int, hay@.len() + 1int, 0);
        assert(sub@.len() + 1 == hay@.len() + 1 - p);
    }
    match memmem_find(sub, nd) {
        Some(i) => {
            proof {
                lemma_first_index(g, 0, sub@.len() + 1int);
            }
            Some(p + i)
        },
        None => None,
    }
}

// ---------------------------------------------------------------------------
// Searching the raw bytes of a file
// ---------------------------------------------------------------------------

/// The content bytes of the line span `sp` (its `\r` before `\n` left out).
pub open spec fn span_content(buf: Seq<u8>, sp: (int, int)) -> Seq<u8> {
    buf.subrange(sp.0, content_end(buf, sp.0, sp.1))
}

/// The 1-based character column of byte offset `off` in the line content
/// `c`: one more than the number of characters that the bytes before it
/// decode to (invalid sequences decoding to replacement characters).
pub open spec fn byte_column(c: Seq<u8>, off: int) -> int {
    utf8_lossy(c.take(off)).len() + 1int
}

/// The result item for a line found by the byte search.
pub open spec fn byte_item(
    path: Seq<char>,
    line_number: int,
    column: int,
    content: Seq<u8>,
    m: &Matcher,
) -> ItemView {
    (path, line_number as usize, column as usize, truncated_line(utf8_lossy(content), m))
}

/// Items of the case-insensitive byte search over the line spans `spans`
/// (line `k` of `spans` has number `k + 1`): a line is reported when the
/// lowercase needle `nb` occurs in it ignoring ASCII case, at the character
/// column of the first such occurrence.
pub open spec fn ci_span_items(
    buf: Seq<u8>,
    nb: Seq<u8>,
    m: &Matcher,
    path: Seq<char>,
    spans: Seq<(int, int)>,
) -> Seq<ItemView>
    decreases spans.len(),
{
    if spans.len() == 0 {
        seq![]
    } else {
        let prev = ci_span_items(buf, nb, m, path, spans.drop_last());
        let c = span_content(buf, spans.last());
        match ci_byte_hit(c, nb) {
            Some(h) => prev.push(byte_item(path, spans.len() as int, byte_column(c, h), c, m)),
            None => prev,
        }
    }
}

/// The character column of byte offset `off` in the line content `c`.
fn column_at_byte(c: &[u8], off: usize) -> (col: usize)
    requires
        off <= c@.len(),
    ensures
        col == byte_column(c@, off as int),
{
    let prefix = slice_subrange(c, 0, off);
    let text = utf8_to_string_lossy(prefix);
    let chars = str_to_chars(text.as_str());
    proof {
        lemma_utf8_len_ge_len(chars@);
        assert(prefix@ =~= c@.take(off as int));
    }
    chars.len() + 1
}

/// The result item for a matching line.
fn make_byte_item(path: &str, line_number: usize, column: usize, content: &[u8], matcher: &Matcher) -> (it: SearchResultItem)
    requires
        matcher.wf(),
    ensures
        it@ == byte_item(path@, line_number as int, column as int, content@, matcher),
{
    let lossy = utf8_to_string_lossy(content);
    let line_content = truncate_line(lossy.as_str(), matcher);
    SearchResultItem { file_path: str_to_string(path), line_number, column_number: column, line_content }
}

/// Splitting off the line that starts at `pos`.
proof fn lemma_spans_step(buf: Seq<u8>, pos: int)
    requires
        0 <= pos < buf.len(),
    ensures
        byte_line_spans(buf, pos) == seq![(pos, line_end_from(buf, pos))] + byte_line_spans(
            buf,
            if line_end_from(buf, pos) < buf.len() {
                line_end_from(buf, pos) + 1
            } else {
                buf.len() as int
            },
        ),
{
    lemma_line_end_from(buf, pos);
    let e = line_end_from(buf, pos);
    if e == buf.len() {
        assert(byte_line_spans(buf, e + 1) =~= Seq::<(int, int)>::empty());
        assert(byte_line_spans(buf, buf.len() as int) =~= Seq::<(int, int)>::empty());
    }
}

/// The case-insensitive byte search of the lowercase needle `nb` in `buf`.
fn search_bytes_ci(buf: &[u8], nb: &[u8], matcher: &Matcher, path: &str) -> (res: Vec<SearchResultItem>)
    requires
        nb@.len() >= 1,
        matcher.wf(),
    ensures
        item_views(res@) == ci_span_items(buf@, nb@, matcher, path@, byte_line_spans(buf@, 0)),
{
    let mut items: Vec<SearchResultItem> = Vec::new();
    let mut line_idx: usize = 0;
    let mut pos: usize = 0;
    let ghost mut done: Seq<(int, int)> = seq![];
    proof {
        assert(item_views(items@) =~= Seq::<ItemView>::empty());
        assert(done + byte_line_spans(buf@, 0) =~= byte_line_spans(buf@, 0));
    }
    while pos < buf.len()
        invariant
            pos <= buf@.len(),
            line_idx == done.len(),
            line_idx <= pos,
            nb@.len() >= 1,
            matcher.wf(),
            byte_line_spans(buf@, 0) == done + byte_line_spans(buf@, pos as int),
            item_views(items@) == ci_span_items(buf@, nb@, matcher, path@, done),
        decreases buf@.len() - pos,
    {
        let line_start = pos;
        let line_end = find_line_end(buf, pos);
        proof {
            lemma_line_end_from(buf@, pos as int);
            lemma_spans_step(buf@, pos as int);
        }
        if line_end < buf.len() {
            pos = line_end + 1;
        } else {
            pos = buf.len();
        }
        let ce = if line_end > line_start && buf[line_end - 1] == 13u8 {
            line_end - 1
        } else {
            line_end
        };
        line_idx = line_idx + 1;
        let content = slice_subrange(buf, line_start, ce);
        let ghost sp = (line_start as int, line_end as int);
        let ghost prev_done = done;
        proof {
            done = done.push(sp);
            assert(done.drop_last() =~= prev_done);
            assert(content@ =~= span_content(buf@, sp));
            assert(byte_line_spans(buf@, 0) =~= done + byte_line_spans(buf@, pos as int));
        }
        let hit = find_lowercase(content, nb);
        match hit {
            Some(col) => {
                proof {
                    crate::text::lemma_first_index(ci_pred(content@, nb@), 0, content@.len() - nb@.len() + 1);
                }
                proof {
                    crate::text::lemma_first_index(ci_pred(content@, nb@), 0, content@.len() - nb@.len() + 1);
                }
                let column = column_at_byte(content, col);
                let it = make_byte_item(path, line_idx, column, content, matcher);
                let ghost before = items@;
                items.push(it);
                proof {
                    assert(items@ =~= before.push(it));
                    assert(item_views(items@) =~= item_views(before).push(it@));
                }
            },
            None => {},
        }
    }
    proof {
        assert(byte_line_spans(buf@, pos as int) =~= Seq::<(int, int)>::empty());
        assert(done + Seq::<(int, int)>::empty() =~= done);
    }
    items
}

/// Items of the case-sensitive byte search over the line spans `spans`,
/// given the reported occurrences `occ` of the needle `nd` in the whole
/// buffer: a line is reported when an occurrence starts at or after the end
/// of the previous line (the start of the buffer for the first line) and
/// before its own end. Its column is the character column of the first
/// occurrence of `nd` in the line's content, or 1 when the content holds none.
pub open spec fn cs_span_items(
    buf: Seq<u8>,
    nd: Seq<u8>,
    occ: Seq<int>,
    m: &Matcher,
    path: Seq<char>,
    spans: Seq<(int, int)>,
) -> Seq<ItemView>
    decreases spans.len(),
{
    if spans.len() == 0 {
        seq![]
    } else {
        let prev = cs_span_items(buf, nd, occ, m, path, spans.drop_last());
        let lo = if spans.len() >= 2 {
            spans[spans.len() - 2].1
        } else {
            0
        };
        let sp = spans.last();
        let c = span_content(buf, sp);
        if exists|k: int| 0 <= k < occ.len() && lo <= #[trigger] occ[k] < sp.1 {
            let col = match first_occurrence(c, nd) {
                Some(i) => byte_column(c, i),
                None => 1,
            };
            prev.push(byte_item(path, spans.len() as int, col, c, m))
        } else {
            prev
        }
    }
}

/// With no occurrence at all, no line is reported.
proof fn lemma_cs_span_items_empty(
    buf: Seq<u8>,
    nd: Seq<u8>,
    occ: Seq<int>,
    m: &Matcher,
    path: Seq<char>,
    spans: Seq<(int, int)>,
)
    requires
        occ.len() == 0,
    ensures
        cs_span_items(buf, nd, occ, m, path, spans) == Seq::<ItemView>::empty(),
    decreases spans.len(),
{
    if spans.len() > 0 {
        lemma_cs_span_items_empty(buf, nd, occ, m, path, spans.drop_last());
    }
}

/// The case-sensitive byte search of the needle `nd` in `buf`.
fn search_bytes_cs(buf: &[u8], nd: &[u8], matcher: &Matcher, path: &str) -> (res: Vec<SearchResultItem>)
    requires
        nd@.len() >= 1,
        matcher.wf(),
    ensures
        item_views(res@) == cs_span_items(
            buf@,
            nd@,
            occurrences_from(buf@, nd@, 0),
            matcher,
            path@,
            byte_line_spans(buf@, 0),
        ),
{
    let ghost occ = occurrences_from(buf@, nd@, 0);
    proof {
        lemma_occurrences(buf@, nd@, 0);
    }
    let mut next = find_from(buf, nd, 0);
    let mut items: Vec<SearchResultItem> = Vec::new();
    if next.is_none() {
        proof {
            assert(occ =~= Seq::<int>::empty());
            lemma_cs_span_items_empty(buf@, nd@, occ, matcher, path@, byte_line_spans(buf@, 0));
            assert(item_views(items@) =~= Seq::<ItemView>::empty());
        }
        return items;
    }
    let mut line_idx: usize = 0;
    let mut pos: usize = 0;
    let ghost mut done: Seq<(int, int)> = seq![];
    let ghost mut c: int = 0;
    let ghost mut lo: int = 0;
    proof {
        let f = occurs_pred(buf@, nd@);
        lemma_first_index(f, 0, buf@.len() + 1int);
        let x = next->0 as int;
        assert(f(x));
        lemma_first_index_unique(f, x, buf@.len() + 1int, x);
        assert(occ =~= seq![x] + occurrences_from(buf@, nd@, x + nd@.len()));
        assert(occurrences_from(buf@, nd@, x) =~= seq![x] + occurrences_from(buf@, nd@, x + nd@.len()));
        assert(item_views(items@) =~= Seq::<ItemView>::empty());
        assert(done + byte_line_spans(buf@, 0) =~= byte_line_spans(buf@, 0));
        assert(occ.skip(0) =~= occ);
    }
    while pos < buf.len()
        invariant
            pos <= buf@.len(),
            line_idx == done.len(),
            line_idx <= pos,
            nd@.len() >= 1,
            matcher.wf(),
            occ == occurrences_from(buf@, nd@, 0),
            forall|i: int| 0 <= i < occ.len() ==> occurs_at(buf@, nd@, #[trigger] occ[i]),
            forall|i: int, j: int| 0 <= i < j < occ.len() ==> #[trigger] occ[i] + nd@.len() <= #[trigger] occ[j],
            0 <= c <= occ.len(),
            lo == (if done.len() == 0 { 0 } else { done.last().1 }),
            lo <= pos,
            forall|k: int| 0 <= k < c ==> #[trigger] occ[k] < lo,
            match next {
                Some(mm) => c < occ.len() && occ[c] == mm,
                None => c == occ.len(),
            },
            c < occ.len() ==> occurrences_from(buf@, nd@, occ[c]) == occ.skip(c),
            c < occ.len() ==> lo <= occ[c],
            byte_line_spans(buf@, 0) == done + byte_line_spans(buf@, pos as int),
            item_views(items@) == cs_span_items(buf@, nd@, occ, matcher, path@, done),
        decreases buf@.len() - pos,
    {
        let line_start = pos;
        let line_end = find_line_end(buf, pos);
        proof {
            lemma_line_end_from(buf@, pos as int);
            lemma_spans_step(buf@, pos as int);
        }
        if line_end < buf.len() {
            pos = line_end + 1;
        } else {
            pos = buf.len();
        }
        let ce = if line_end > line_start && buf[line_end - 1] == 13u8 {
            line_end - 1
        } else {
            line_end
        };
        line_idx = line_idx + 1;
        let ghost sp = (line_start as int, line_end as int);
        let ghost prev_done = done;
        let ghost prev_lo = lo;
        let ghost cc = ce as int;
        proof {
            done = done.push(sp);
            assert(done.drop_last() =~= prev_done);
            assert(byte_line_spans(buf@, 0) =~= done + byte_line_spans(buf@, pos as int));
            if prev_done.len() >= 1 {
                assert(done[done.len() - 2] == prev_done.last());
            }
        }
        let record = match next {
            Some(mm) => mm < line_end,
            None => false,
        };
        proof {
            if record {
                assert(prev_lo <= occ[c] < line_end);
            } else {
                assert forall|k: int| 0 <= k < occ.len() implies !(prev_lo <= #[trigger] occ[k] < line_end) by {
                    if k >= c && k > c {
                        assert(occ[c] + nd@.len() <= occ[k]);
                    }
                }
            }
        }
        if record {
            let content = slice_subrange(buf, line_start, ce);
            proof {
                assert(content@ =~= span_content(buf@, sp));
            }
            let column = match memmem_find(content, nd) {
                Some(i) => {
                    proof {
                        crate::text::lemma_first_index(occurs_pred(content@, nd@), 0, content@.len() + 1int);
                    }
                    column_at_byte(content, i)
                },
                None => 1,
            };
            let it = make_byte_item(path, line_idx, column, content, matcher);
            let ghost before = items@;
            items.push(it);
            proof {
                assert(items@ =~= before.push(it));
                assert(item_views(items@) =~= item_views(before).push(it@));
            }
        }
        let mut more = record;
        while more
            invariant
                nd@.len() >= 1,
                occ == occurrences_from(buf@, nd@, 0),
                forall|i: int| 0 <= i < occ.len() ==> occurs_at(buf@, nd@, #[trigger] occ[i]),
                forall|i: int, j: int| 0 <= i < j < occ.len() ==> #[trigger] occ[i] + nd@.len() <= #[trigger] occ[j],
                0 <= c <= occ.len(),
                prev_lo <= line_end,
                forall|k: int| 0 <= k < c ==> #[trigger] occ[k] < line_end,
                match next {
                    Some(mm) => c < occ.len() && occ[c] == mm,
                    None => c == occ.len(),
                },
                c < occ.len() ==> occurrences_from(buf@, nd@, occ[c]) == occ.skip(c),
                more ==> c < occ.len() && occ[c] < line_end,
                !more ==> (c < occ.len() ==> line_end <= occ[c]),
            decreases occ.len() - c,
        {
            let mm = next.unwrap();
            let ghost f = occurs_pred(buf@, nd@);
            assert(buf@.len() == buf.len());
            proof {
                assert(mm == occ[c]);
                assert(occurs_at(buf@, nd@, occ[c]));
                assert(f(occ[c]));
                lemma_first_index_unique(f, occ[c], buf@.len() + 1int, occ[c]);
                assert(occurrences_from(buf@, nd@, occ[c]) =~= seq![occ[c]] + occurrences_from(buf@, nd@, occ[c] + nd@.len()));
                assert(occ.skip(c + 1) =~= occ.skip(c).drop_first());
                assert(occ.skip(c + 1) =~= occurrences_from(buf@, nd@, mm + nd@.len()));
            }
            next = find_from(buf, nd, mm + nd.len());
            proof {
                let q = mm + nd@.len();
                lemma_first_index(f, q, buf@.len() + 1int);
                c = c + 1;
                match next {
                    Some(x) => {
                        assert(f(x as int));
                        assert(occurrences_from(buf@, nd@, q) =~= seq![x as int] + occurrences_from(buf@, nd@, x + nd@.len()));
                        assert(occ.skip(c)[0] == occ[c]);
                        lemma_first_index_unique(f, x as int, buf@.len() + 1int, x as int);
                        assert(occurrences_from(buf@, nd@, x as int) =~= seq![x as int] + occurrences_from(buf@, nd@, x + nd@.len()));
                    },
                    None => {
                        assert(occurrences_from(buf@, nd@, q) =~= Seq::<int>::empty());
                        assert(occ.skip(c).len() == 0);
                    },
                }
            }
            more = match next {
                Some(m2) => m2 < line_end,
                None => false,
            };
        }
        proof {
            lo = line_end as int;
            assert(done.last() == sp);
        }
    }
    proof {
        assert(byte_line_spans(buf@, pos as int) =~= Seq::<(int, int)>::empty());
        assert(done + Seq::<(int, int)>::empty() =~= done);
    }
    items
}

/// Every byte is ASCII.
pub open spec fn all_ascii(b: Seq<u8>) -> bool {
    forall|i: int| 0 <= i < b.len() ==> #[trigger] b[i] < 128
}

/// Whether every byte of `b` is ASCII.
fn is_all_ascii(b: &[u8]) -> (r: bool)
    ensures
        r == all_ascii(b@),
{
    let mut i: usize = 0;
    while i < b.len()
        invariant
            i <= b@.len(),
            forall|k: int| 0 <= k < i ==> #[trigger] b@[k] < 128,
        decreases b@.len() - i,
    {
        if b[i] >= 128 {
            return false;
        }
        i = i + 1;
    }
    true
}

/// The items of the raw-byte search, which applies to a literal matcher
/// whose needle is ASCII; `None` for other matchers. Case-sensitive search
/// looks for the needle's bytes, case-insensitive search for its bytes with
/// ASCII case ignored on both sides.
pub open spec fn byte_search_items(buf: Seq<u8>, m: &Matcher, path: Seq<char>) -> Option<Seq<ItemView>> {
    match m {
        Matcher::Literal { needle, case_sensitive, .. } => {
            let nd = encode_utf8(needle@);
            if !all_ascii(nd) {
                None
            } else if *case_sensitive {
                Some(cs_span_items(buf, nd, occurrences_from(buf, nd, 0), m, path, byte_line_spans(buf, 0)))
            } else {
                Some(ci_span_items(buf, ascii_lower_bytes(nd), m, path, byte_line_spans(buf, 0)))
            }
        },
        Matcher::Regex { .. } => None,
    }
}

/// Searches the raw bytes of a file for a literal ASCII needle, line by
/// line; `None` when the matcher is not such a literal, and the text must
/// be decoded and searched instead.
pub fn search_bytes(buf: &[u8], matcher: &Matcher, file_path: &str) -> (res: Option<Vec<SearchResultItem>>)
    requires
        matcher.wf(),
    ensures
        match res {
            Some(v) => byte_search_items(buf@, matcher, file_path@) == Some(item_views(v@)),
            None => byte_search_items(buf@, matcher, file_path@) is None,
        },
{
    match matcher {
        Matcher::Literal { needle, case_sensitive, .. } => {
            let nd = needle.as_str().as_bytes();
            proof {
                crate::text::lemma_utf8_len_encode(needle@);
                lemma_utf8_len_ge_len(needle@);
            }
            if !is_all_ascii(nd) {
                return None;
            }
            if *case_sensitive {
                Some(search_bytes_cs(buf, nd, matcher, file_path))
            } else {
                let nb = ascii_lowercase_bytes(nd);
                Some(search_bytes_ci(buf, nb.as_slice(), matcher, file_path))
            }
        },
        Matcher::Regex { .. } => None,
    }
}

// ---------------------------------------------------------------------------
// Searching decoded text
// ---------------------------------------------------------------------------

/// Items of the text search over `lines` (line `k` has number `k + 1`): a
/// line is reported when the matcher finds a hit in it, at the hit's column.
pub open spec fn text_items(lines: Seq<Seq<char>>, m: &Matcher, path: Seq<char>) -> Seq<ItemView>
    decreases lines.len(),
{
    if lines.len() == 0 {
        seq![]
    } else {
        let prev = text_items(lines.drop_last(), m, path);
        match m.find_spec(lines.last()) {
            Some(h) => prev.push(
                (path, lines.len() as usize, h.column_chars, truncated_line(lines.last(), m)),
            ),
            None => prev,
        }
    }
}

/// Searches the lines of `text` (as `str::lines` splits them) with the matcher.
pub fn search_text(text: &str, matcher: &Matcher, file_path: &str) -> (res: Vec<SearchResultItem>)
    requires
        matcher.wf(),
    ensures
        item_views(res@) == text_items(text_lines(text@), matcher, file_path@),
{
    let cs = str_to_chars(text);
    let lines = split_lines(cs.as_slice());
    let ghost all = lines@.map_values(|l: Vec<char>| l@);
    let mut items: Vec<SearchResultItem> = Vec::new();
    let mut i: usize = 0;
    proof {
        assert(all.take(0) =~= Seq::<Seq<char>>::empty());
        assert(item_views(items@) =~= Seq::<ItemView>::empty());
    }
    while i < lines.len()
        invariant
            i <= lines@.len(),
            all == lines@.map_values(|l: Vec<char>| l@),
            all == text_lines(text@),
            matcher.wf(),
            item_views(items@) == text_items(all.take(i as int), matcher, file_path@),
        decreases lines@.len() - i,
    {
        let line = chars_to_string(lines[i].as_slice());
        proof {
            assert(all.take(i + 1).drop_last() =~= all.take(i as int));
            assert(all.take(i + 1).last() == line@);
        }
        match matcher.find_in_line(line.as_str()) {
            Some(h) => {
                let line_content = truncate_line(line.as_str(), matcher);
                let it = SearchResultItem {
                    file_path: str_to_string(file_path),
                    line_number: i + 1,
                    column_number: h.column_chars,
                    line_content,
                };
                let ghost before = items@;
                items.push(it);
                proof {
                    assert(items@ =~= before.push(it));
                    assert(item_views(items@) =~= item_views(before).push(it@));
                }
            },
            None => {},
        }
        i = i + 1;
    }
    proof {
        assert(all.take(lines@.len() as int) =~= all);
    }
    items
}

// ---------------------------------------------------------------------------
// Searching one file
// ---------------------------------------------------------------------------

/// The items a search reports for a file with contents `buf`: nothing for
/// binary content; the raw-byte search where it applies; otherwise the
/// text search over the decoded content.
pub open spec fn file_items(buf: Seq<u8>, m: &Matcher, path: Seq<char>, auto_detect: bool) -> Seq<ItemView> {
    if is_binary(buf) {
        seq![]
    } else {
        match byte_search_items(buf, m, path) {
            Some(v) => v,
            None => match decoded_text(buf, auto_detect) {
                Some(t) => text_items(text_lines(t), m, path),
                None => seq![],
            },
        }
    }
}

/// Searches the contents `buf` of the file `file_path`.
pub fn search_file(buf: &[u8], matcher: &Matcher, file_path: &str, auto_detect: bool) -> (res: Vec<SearchResultItem>)
    requires
        matcher.wf(),
        buf@.len() <= usize::MAX / 8,
    ensures
        item_views(res@) == file_items(buf@, matcher, file_path@, auto_detect),
{
    if looks_binary(buf) {
        let v: Vec<SearchResultItem> = Vec::new();
        assert(item_views(v@) =~= Seq::<ItemView>::empty());
        return v;
    }
    match search_bytes(buf, matcher, file_path) {
        Some(v) => v,
        None => match decode_content(buf, auto_detect) {
            Some(text) => search_text(text.as_str(), matcher, file_path),
            None => {
                let v: Vec<SearchResultItem> = Vec::new();
                assert(item_views(v@) =~= Seq::<ItemView>::empty());
                v
            },
        },
    }
}

// ---------------------------------------------------------------------------
// Running a search
// ---------------------------------------------------------------------------

/// The matcher of a search: a regular expression, or a literal; an error
/// message ("Invalid regex: ..." or "Invalid query: ...") when it cannot be
/// built.
pub fn build_matcher(query: &str, case_sensitive: bool, is_regex: bool) -> (res: Result<Matcher, String>)
    ensures
        is_regex ==> (res is Ok <==> regex_compiles(query@, !case_sensitive)),
        !is_regex ==> (res is Ok <==> query@.len() > 0),
        !is_regex ==> (res matches Err(e) ==> e@ == "Invalid query: empty query"@),
        is_regex ==> (res matches Err(e) ==> e@ == "Invalid regex: "@ + regex_error_text(
            query@,
            !case_sensitive,
        )),
        res matches Ok(m) ==> m.wf() && (if is_regex {
            m matches Matcher::Regex { pattern, case_insensitive } && pattern@ == query@ && case_insensitive == !case_sensitive
        } else {
            m matches Matcher::Literal { needle, case_sensitive: cs, .. } && needle@ == query@ && cs == case_sensitive
        }),
{
    if is_regex {
        match Matcher::regex(query, case_sensitive) {
            Ok(m) => Ok(m),
            Err(e) => {
                let msg = crate::text::str_concat("Invalid regex: ", e.as_str());
                Err(msg)
            },
        }
    } else {
        match Matcher::literal(query, case_sensitive) {
            Ok(m) => Ok(m),
            Err(e) => {
                let msg = crate::text::str_concat("Invalid query: ", e.as_str());
                proof {
                    reveal_strlit("Invalid query: ");
                    reveal_strlit("empty query");
                    reveal_strlit("Invalid query: empty query");
                    assert(msg@ =~= "Invalid query: empty query"@);
                }
                Err(msg)
            },
        }
    }
}

/// Most search workers started.
pub const MAX_WORKERS: usize = 8;

/// Workers used when the machine's parallelism is unknown.
pub const FALLBACK_WORKERS: usize = 4;

/// The number of search workers: the available parallelism, at most 8 (4
/// when it is unknown), and at least 1.
pub fn worker_count(available_parallelism: Option<usize>) -> (n: usize)
    ensures
        n == (match available_parallelism {
            Some(p) => if p > MAX_WORKERS { MAX_WORKERS } else if p < 1 { 1 } else { p },
            None => FALLBACK_WORKERS,
        }),
{
    match available_parallelism {
        Some(p) => if p > MAX_WORKERS {
            MAX_WORKERS
        } else if p < 1 {
            1
        } else {
            p
        },
        None => FALLBACK_WORKERS,
    }
}

/// Progress is reported after every `PROGRESS_EVERY`-th scanned file.
pub fn is_progress_point(scanned: usize) -> (r: bool)
    ensures
        r == (scanned % PROGRESS_EVERY == 0),
{
    scanned % PROGRESS_EVERY == 0
}

/// A batch of matches is handed on once it holds `MATCH_BATCH` of them.
pub fn batch_is_full(len: usize) -> (r: bool)
    ensures
        r == (len >= MATCH_BATCH),
{
    len >= MATCH_BATCH
}


// ---------------------------------------------------------------------------
// Laws
// ---------------------------------------------------------------------------

/// Binary files yield no results.
pub proof fn law_binary_files_yield_nothing(buf: Seq<u8>, m: &Matcher, path: Seq<char>, auto_detect: bool)
    requires
        is_binary(buf),
    ensures
        file_items(buf, m, path, auto_detect).len() == 0,
{
}

/// A displayed result line never exceeds `MAX_LINE_CHARS` characters, and a
/// shortened one holds at most 100 characters of the line and two `...`,
/// whenever the match column lies within the trimmed line (always the case
/// for the hits that `find_in_line` returns; see also `truncate_line`).
pub proof fn law_displayed_line_fits(line: Seq<char>, m: &Matcher)
    requires
        hit_index(m, trim(line)) <= trim(line).len(),
    ensures
        truncated_line(line, m).len() <= MAX_LINE_CHARS,
        trim(line).len() > MAX_LINE_CHARS ==> truncated_line(line, m).len() <= CONTEXT_BEFORE
            + CONTEXT_AFTER + 6,
{
}

/// For literal matchers the match column always lies within the trimmed line.
pub proof fn law_literal_hits_lie_in_line(line: Seq<char>, m: &Matcher)
    requires
        m matches Matcher::Literal { .. },
        crate::text::utf8_len(line) <= isize::MAX,
    ensures
        hit_index(m, line) <= line.len(),
{
    crate::search::match_engine::lemma_find_spec_column(m, line);
}

} // verus!
