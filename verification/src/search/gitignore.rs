//! Ignore files (`.gitignore`, `.ignore`, `.rgignore`) and search masks.
//!
//! Each non-blank, non-comment line of an ignore file becomes a rule: a
//! case-insensitive regular expression built from the gitignore glob,
//! plus the flags for negation (`!` prefix) and directory-only (`/` suffix).
//! For a given path, the last rule that applies and matches decides whether
//! the path is ignored.
//!
//! A search mask is a list of such globs separated by `;`, `,` or spaces;
//! globs prefixed with `!` exclude, the others include.
//!
//! Paths are strings; a backslash counts as a separator like `/`.

use vstd::prelude::*;
use crate::text::{
    chars_to_string, first_index, is_whitespace, lemma_first_index, lemma_first_index_none,
    lemma_first_index_unique, lemma_leading_ws, slice_range_to_vec, split_lines, str_to_chars, text_lines, trim,
    trim_chars, trim_start, utf8_len, leading_ws,
};
use crate::search::pattern::{regex_check, regex_compiles, regex_is_match, regex_matches};

verus! {

// ---------------------------------------------------------------------------
// Splitting mask strings
// ---------------------------------------------------------------------------

/// Separators between the globs of a mask string.
pub open spec fn is_mask_sep(c: char) -> bool {
    c == ';' || c == ',' || c == ' '
}

/// `p` as a one-element list when it is non-empty, else the empty list.
pub open spec fn keep_nonempty(p: Seq<char>) -> Seq<Seq<char>> {
    if p.len() > 0 {
        seq![p]
    } else {
        seq![]
    }
}

/// The globs of a mask string: the pieces between separators, each trimmed
/// of white space, with empty pieces dropped.
pub open spec fn mask_parts(s: Seq<char>) -> Seq<Seq<char>>
    decreases s.len(),
{
    match first_index(|i: int| is_mask_sep(s[i]), 0, s.len() as int) {
        Some(k) => if 0 <= k < s.len() {
            keep_nonempty(trim(s.take(k))) + mask_parts(s.skip(k + 1))
        } else {
            seq![]
        },
        None => keep_nonempty(trim(s)),
    }
}

/// A glob as the mask splitter yields it: non-empty, without separators,
/// and without white space at either end.
pub open spec fn is_mask_part(p: Seq<char>) -> bool {
    &&& p.len() > 0
    &&& forall|i: int| 0 <= i < p.len() ==> !is_mask_sep(#[trigger] p[i])
    &&& !is_whitespace(p[0])
    &&& !is_whitespace(p.last())
}

/// Globs joined into one mask string with `;` between them.
pub open spec fn join_masks(parts: Seq<Seq<char>>) -> Seq<char>
    decreases parts.len(),
{
    if parts.len() == 0 {
        seq![]
    } else if parts.len() == 1 {
        parts[0]
    } else {
        parts[0] + seq![';'] + join_masks(parts.drop_first())
    }
}

/// A glob without white space at its ends is its own trimmed form.
proof fn lemma_trim_of_part(p: Seq<char>)
    requires
        p.len() > 0,
        !is_whitespace(p[0]),
        !is_whitespace(p.last()),
    ensures
        trim(p) == p,
{
    let f = |i: int| !is_whitespace(p[i]);
    lemma_first_index_unique(f, 0, p.len() as int, 0);
    let rest = p.skip(0);
    assert(rest =~= p);
    let r = rest.reverse();
    let g = |i: int| !is_whitespace(r[i]);
    assert(r[0] == p.last());
    lemma_first_index_unique(g, 0, r.len() as int, 0);
    assert(rest.take(rest.len() - 0) =~= p);
}

/// The trimmed form of a piece without separators is a glob, when not empty.
proof fn lemma_trim_is_part(x: Seq<char>)
    requires
        forall|i: int| 0 <= i < x.len() ==> !is_mask_sep(#[trigger] x[i]),
        trim(x).len() > 0,
    ensures
        is_mask_part(trim(x)),
{
    lemma_leading_ws(x);
    let a = leading_ws(x);
    let rest = x.skip(a);
    let r = rest.reverse();
    lemma_leading_ws(r);
    let b = leading_ws(r);
    let t = trim(x);
    assert(t == rest.take(rest.len() - b));
    assert(t[0] == x[a]);
    assert(r[b] == rest[rest.len() - 1 - b]);
    assert(t.last() == rest[rest.len() - 1 - b]);
    assert forall|i: int| 0 <= i < t.len() implies !is_mask_sep(#[trigger] t[i]) by {
        assert(t[i] == x[a + i]);
    }
}

/// `p` is a piece of `s`: the characters of `s` between two positions.
pub open spec fn is_substring_of(p: Seq<char>, s: Seq<char>) -> bool {
    exists|a: int, b: int| 0 <= a <= b <= s.len() && #[trigger] s.subrange(a, b) == p
}

/// A piece of a piece of `s` is a piece of `s`.
proof fn lemma_substring_trans(p: Seq<char>, x: Seq<char>, s: Seq<char>)
    requires
        is_substring_of(p, x),
        is_substring_of(x, s),
    ensures
        is_substring_of(p, s),
{
    let (a, b) = choose|a: int, b: int| 0 <= a <= b <= x.len() && #[trigger] x.subrange(a, b) == p;
    let (c, d) = choose|c: int, d: int| 0 <= c <= d <= s.len() && #[trigger] s.subrange(c, d) == x;
    assert(s.subrange(c + a, c + b) =~= p);
}

/// The trimmed form of `x` is a piece of `x`.
proof fn lemma_trim_substring(x: Seq<char>)
    ensures
        is_substring_of(trim(x), x),
{
    lemma_leading_ws(x);
    let a = leading_ws(x);
    let rest = x.skip(a);
    lemma_leading_ws(rest.reverse());
    let b = leading_ws(rest.reverse());
    assert(x.subrange(a, x.len() - b) =~= trim(x));
}

/// A mask string splits into globs, each a piece of the string.
pub proof fn law_mask_parts_are_globs(s: Seq<char>)
    ensures
        forall|i: int| 0 <= i < mask_parts(s).len() ==> is_mask_part(#[trigger] mask_parts(s)[i]),
        forall|i: int| 0 <= i < mask_parts(s).len() ==> is_substring_of(#[trigger] mask_parts(s)[i], s),
    decreases s.len(),
{
    let f = |i: int| is_mask_sep(s[i]);
    lemma_first_index(f, 0, s.len() as int);
    match first_index(f, 0, s.len() as int) {
        Some(k) => {
            let head = s.take(k);
            assert forall|i: int| 0 <= i < head.len() implies !is_mask_sep(#[trigger] head[i]) by {
                assert(!f(i));
            }
            if trim(head).len() > 0 {
                lemma_trim_is_part(head);
            }
            law_mask_parts_are_globs(s.skip(k + 1));
            let l = keep_nonempty(trim(head));
            let r = mask_parts(s.skip(k + 1));
            assert forall|i: int| 0 <= i < (l + r).len() implies is_mask_part(#[trigger] (l + r)[i]) by {
                if i >= l.len() {
                    assert((l + r)[i] == r[i - l.len()]);
                }
            }
            assert(s.subrange(0, k) == head);
            assert(s.subrange(k + 1, s.len() as int) == s.skip(k + 1));
            lemma_trim_substring(head);
            lemma_substring_trans(trim(head), head, s);
            assert forall|i: int| 0 <= i < (l + r).len() implies is_substring_of(#[trigger] (l + r)[i], s) by {
                if i >= l.len() {
                    assert((l + r)[i] == r[i - l.len()]);
                    lemma_substring_trans(r[i - l.len()], s.skip(k + 1), s);
                }
            }
        },
        None => {
            assert forall|i: int| 0 <= i < s.len() implies !is_mask_sep(#[trigger] s[i]) by {
                assert(!f(i));
            }
            if trim(s).len() > 0 {
                lemma_trim_is_part(s);
            }
            lemma_trim_substring(s);
        },
    }
}

/// Splitting globs joined with `;` gives the same globs back.
pub proof fn law_mask_split_join(parts: Seq<Seq<char>>)
    requires
        forall|i: int| 0 <= i < parts.len() ==> is_mask_part(#[trigger] parts[i]),
    ensures
        mask_parts(join_masks(parts)) == parts,
    decreases parts.len(),
{
    let j = join_masks(parts);
    let f = |i: int| is_mask_sep(j[i]);
    if parts.len() == 0 {
        lemma_first_index_none(f, 0, 0);
        assert(trim(j).len() == 0);
        assert(mask_parts(j) =~= parts);
    } else if parts.len() == 1 {
        let p = parts[0];
        assert(is_mask_part(p));
        assert forall|k: int| 0 <= k < j.len() implies !#[trigger] f(k) by {
            assert(!is_mask_sep(p[k]));
        }
        lemma_first_index_none(f, 0, j.len() as int);
        lemma_trim_of_part(p);
        assert(mask_parts(j) =~= parts);
    } else {
        let p = parts[0];
        let tail = parts.drop_first();
        assert(is_mask_part(p));
        assert forall|i: int| 0 <= i < tail.len() implies is_mask_part(#[trigger] tail[i]) by {
            assert(tail[i] == parts[i + 1]);
        }
        law_mask_split_join(tail);
        let n = p.len() as int;
        assert forall|k: int| 0 <= k < n implies !#[trigger] f(k) by {
            assert(j[k] == p[k]);
            assert(!is_mask_sep(p[k]));
        }
        assert(j[n] == ';');
        assert(f(n));
        lemma_first_index_unique(f, 0, j.len() as int, n);
        assert(j.take(n) =~= p);
        assert(j.skip(n + 1) =~= join_masks(tail));
        lemma_trim_of_part(p);
        assert(seq![p] + tail =~= parts);
    }
}

/// Splitting a mask string, joining its globs with `;` and splitting again
/// gives the same globs.
pub proof fn law_mask_resplit(s: Seq<char>)
    ensures
        mask_parts(join_masks(mask_parts(s))) == mask_parts(s),
{
    law_mask_parts_are_globs(s);
    law_mask_split_join(mask_parts(s));
}

/// Splits a mask string at `;`, `,` and spaces, trims each piece and drops
/// the empty ones.
pub fn split_masks(s: &str) -> (res: Vec<Vec<char>>)
    ensures
        res@.map_values(|p: Vec<char>| p@) == mask_parts(s@),
{
    let cs = str_to_chars(s);
    let mut out: Vec<Vec<char>> = Vec::new();
    let mut start: usize = 0;
    let mut i: usize = 0;
    proof {
        assert(cs@.skip(0) =~= cs@);
        assert(out@.map_values(|p: Vec<char>| p@) + mask_parts(cs@) =~= mask_parts(cs@));
    }
    while i < cs.len()
        invariant
            start <= i <= cs@.len(),
            cs@ == s@,
            forall|j: int| start <= j < i ==> !is_mask_sep(cs@[j]),
            out@.map_values(|p: Vec<char>| p@) + mask_parts(cs@.skip(start as int)) == mask_parts(
                cs@,
            ),
        decreases cs@.len() - i,
    {
        let c = cs[i];
        if c == ';' || c == ',' || c == ' ' {
            let ghost rest = cs@.skip(start as int);
            let k = i - start;
            proof {
                lemma_first_index_unique(
                    |j: int| is_mask_sep(rest[j]),
                    0,
                    rest.len() as int,
                    k as int,
                );
                assert(rest.skip(k + 1) =~= cs@.skip(i + 1));
            }
            let piece = slice_range_to_vec(cs.as_slice(), start, i);
            proof {
                assert(piece@ =~= rest.take(k as int));
            }
            let t = trim_chars(piece.as_slice());
            let ghost before = out@.map_values(|p: Vec<char>| p@);
            if t.len() > 0 {
                out.push(t);
                proof {
                    assert(out@.map_values(|p: Vec<char>| p@) =~= before + keep_nonempty(t@));
                }
            } else {
                proof {
                    assert(keep_nonempty(t@) =~= Seq::<Seq<char>>::empty());
                    assert(before + keep_nonempty(t@) =~= before);
                }
            }
            proof {
                assert(before + keep_nonempty(t@) + mask_parts(cs@.skip(i + 1)) =~= before + (
                keep_nonempty(t@) + mask_parts(cs@.skip(i + 1))));
            }
            start = i + 1;
        }
        i = i + 1;
    }
    let ghost rest = cs@.skip(start as int);
    proof {
        lemma_first_index_none(|j: int| is_mask_sep(rest[j]), 0, rest.len() as int);
    }
    let piece = slice_range_to_vec(cs.as_slice(), start, cs.len());
    proof {
        assert(piece@ =~= rest);
    }
    let t = trim_chars(piece.as_slice());
    let ghost before = out@.map_values(|p: Vec<char>| p@);
    if t.len() > 0 {
        out.push(t);
        proof {
            assert(out@.map_values(|p: Vec<char>| p@) =~= before + keep_nonempty(t@));
        }
    } else {
        proof {
            assert(before + keep_nonempty(t@) =~= before);
        }
    }
    out
}

// ---------------------------------------------------------------------------
// Parsing ignore-file lines
// ---------------------------------------------------------------------------

/// Number of consecutive backslashes directly before index `k` of `s`.
pub open spec fn backslashes_before(s: Seq<char>, k: int) -> nat
    decreases k,
{
    if k <= 0 || k > s.len() {
        0
    } else if s[k - 1] == '\\' {
        1 + backslashes_before(s, k - 1)
    } else {
        0
    }
}

/// `s.take(end)` with trailing spaces removed, except a space escaped by an
/// odd number of backslashes (which, with everything before it, stays).
pub open spec fn strip_unescaped_trailing_spaces(s: Seq<char>, end: int) -> Seq<char>
    decreases end,
{
    if end <= 0 || end > s.len() {
        s.take(if end <= 0 {
            0
        } else {
            s.len() as int
        })
    } else if s[end - 1] == ' ' && backslashes_before(s, end - 1) % 2 == 0 {
        strip_unescaped_trailing_spaces(s, end - 1)
    } else {
        s.take(end)
    }
}

/// The pattern of an ignore-file line: blank lines and lines starting with
/// `#` have none; otherwise unescaped trailing spaces are dropped, and an
/// empty remainder has none.
pub open spec fn parse_line_spec(line: Seq<char>) -> Option<Seq<char>> {
    if trim_start(line).len() == 0 {
        None
    } else if line[0] == '#' {
        None
    } else {
        let s = strip_unescaped_trailing_spaces(line, line.len() as int);
        if s.len() == 0 {
            None
        } else {
            Some(s)
        }
    }
}

/// Counts the backslashes directly before index `k`.
fn count_backslashes_before(s: &[char], k: usize) -> (n: usize)
    requires
        k <= s@.len(),
    ensures
        n == backslashes_before(s@, k as int),
{
    let mut n: usize = 0;
    let mut idx: usize = k;
    while idx > 0 && s[idx - 1] == '\\'
        invariant
            idx <= k <= s@.len(),
            n == k - idx,
            backslashes_before(s@, k as int) == n + backslashes_before(s@, idx as int),
        decreases idx,
    {
        idx = idx - 1;
        n = n + 1;
    }
    n
}

/// The pattern of one ignore-file line, if it has one: blank lines and
/// comment lines (`#` first) have none; unescaped trailing spaces are dropped.
pub fn parse_line(line: &str) -> (res: Option<Vec<char>>)
    ensures
        res matches Some(v) ==> parse_line_spec(line@) == Some(v@),
        res is None ==> parse_line_spec(line@) is None,
{
    let cs = str_to_chars(line);
    let (a, _b) = crate::text::trim_bounds(cs.as_slice());
    if a == cs.len() {
        proof {
            assert(trim_start(cs@) =~= cs@.skip(a as int));
        }
        return None;
    }
    proof {
        assert(trim_start(cs@).len() > 0);
    }
    if cs[0] == '#' {
        return None;
    }
    let mut end: usize = cs.len();
    while end > 0 && cs[end - 1] == ' ' && count_backslashes_before(cs.as_slice(), end - 1) % 2 == 0
        invariant
            end <= cs@.len(),
            strip_unescaped_trailing_spaces(cs@, end as int) == strip_unescaped_trailing_spaces(
                cs@,
                cs@.len() as int,
            ),
        decreases end,
    {
        end = end - 1;
    }
    let s = slice_range_to_vec(cs.as_slice(), 0, end);
    proof {
        assert(s@ =~= cs@.take(end as int));
        if end == 0 {
            assert(strip_unescaped_trailing_spaces(cs@, 0) =~= cs@.take(0));
        }
    }
    if s.len() == 0 {
        return None;
    }
    Some(s)
}

// ---------------------------------------------------------------------------
// Translating gitignore globs to regular expressions
// ---------------------------------------------------------------------------

/// Characters that a backslash escapes literally in a glob.
pub open spec fn is_glob_escapable(c: char) -> bool {
    c == ' ' || c == '#' || c == '!' || c == '\\' || c == '/' || c == '*' || c == '?'
}

/// Regex metacharacters that a glob character stands for literally.
pub open spec fn is_regex_meta(c: char) -> bool {
    c == '.' || c == '+' || c == '(' || c == ')' || c == '[' || c == ']' || c == '{' || c == '}'
        || c == '^' || c == '$' || c == '|'
}

/// `(?:.*/)?`: any number of leading directories.
pub open spec fn any_dirs() -> Seq<char> {
    seq!['(', '?', ':', '.', '*', '/', ')', '?']
}

/// `[^/]*`: any run of characters within one path component.
pub open spec fn in_component_star() -> Seq<char> {
    seq!['[', '^', '/', ']', '*']
}

/// `[^/]`: one character within a path component.
pub open spec fn in_component_one() -> Seq<char> {
    seq!['[', '^', '/', ']']
}

/// The regex text that the glob `p` translates to (without anchors):
/// `**/` is any number of directories, `**` anything, `*` anything within a
/// component, `?` one character within a component; a backslash makes the
/// next character stand for itself (escaped in the regex where it is a
/// metacharacter there); regex metacharacters are escaped.
pub open spec fn glob_body(p: Seq<char>) -> Seq<char>
    decreases p.len(),
{
    if p.len() == 0 {
        seq![]
    } else {
        let c = p[0];
        if c == '\\' {
            if p.len() >= 2 {
                let n = p[1];
                (if is_glob_escapable(n) || is_regex_meta(n) {
                    seq!['\\', n]
                } else {
                    seq![n]
                }) + glob_body(p.skip(2))
            } else {
                seq!['\\', '\\']
            }
        } else if c == '*' {
            if p.len() >= 2 && p[1] == '*' {
                if p.len() >= 3 && p[2] == '/' {
                    any_dirs() + glob_body(p.skip(3))
                } else {
                    seq!['.', '*'] + glob_body(p.skip(2))
                }
            } else {
                in_component_star() + glob_body(p.skip(1))
            }
        } else if c == '?' {
            in_component_one() + glob_body(p.skip(1))
        } else if is_regex_meta(c) {
            seq!['\\', c] + glob_body(p.skip(1))
        } else {
            seq![c] + glob_body(p.skip(1))
        }
    }
}

/// The glob has no backslash and no `*`.
pub open spec fn no_escape_or_star(p: Seq<char>) -> bool {
    forall|i: int| 0 <= i < p.len() ==> #[trigger] p[i] != '\\' && p[i] != '*'
}

/// A glob without backslashes or stars translates piece by piece.
proof fn lemma_glob_body_concat(a: Seq<char>, r: Seq<char>)
    requires
        no_escape_or_star(a),
    ensures
        glob_body(a + r) == glob_body(a) + glob_body(r),
    decreases a.len(),
{
    if a.len() > 0 {
        let t = a.drop_first();
        assert(no_escape_or_star(t)) by {
            assert forall|i: int| 0 <= i < t.len() implies #[trigger] t[i] != '\\' && t[i] != '*' by {
                assert(t[i] == a[i + 1]);
            }
        }
        lemma_glob_body_concat(t, r);
        assert((a + r)[0] == a[0]);
        assert((a + r).skip(1) =~= t + r);
        assert(a.skip(1) =~= t);
        assert(a[0] != '\\' && a[0] != '*');
    } else {
        assert(a + r =~= r);
    }
}

/// A single `*` stays within one path component: between parts without
/// backslashes or other stars, it becomes `[^/]*`, a run of characters
/// other than `/`, and the parts around it translate on their own.
pub proof fn law_single_star_stays_in_component(a: Seq<char>, b: Seq<char>)
    requires
        no_escape_or_star(a),
        no_escape_or_star(b),
    ensures
        glob_body(a + seq!['*'] + b) == glob_body(a) + seq!['[', '^', '/', ']', '*'] + glob_body(b),
{
    lemma_glob_body_concat(a, seq!['*'] + b);
    assert(a + seq!['*'] + b =~= a + (seq!['*'] + b));
    let r = seq!['*'] + b;
    assert(r[0] == '*');
    assert(r.skip(1) =~= b);
    if r.len() >= 2 {
        assert(r[1] == b[0]);
    }
}

/// The glob holds a `/` that is not preceded by a backslash byte (the byte
/// at the character's index minus one, in the UTF-8 encoding).
pub open spec fn has_unescaped_slash(p: Seq<char>) -> bool {
    exists|i: int|
        0 <= i < p.len() && #[trigger] p[i] == '/' && (i == 0 || vstd::utf8::encode_utf8(p)[i
            - 1] != 0x5Cu8)
}

/// What a gitignore pattern becomes: its negation flag, its directory-only
/// flag, and the regex source (anchored at the start when the glob starts
/// with `/` or holds an unescaped `/`, else allowed after any directories;
/// always anchored at the end). `None` for an empty pattern.
pub open spec fn gitignore_parts(pattern: Seq<char>) -> Option<(Seq<char>, bool, bool)> {
    if pattern.len() == 0 {
        None
    } else {
        let neg = pattern[0] == '!';
        let p1 = if neg {
            pattern.skip(1)
        } else {
            pattern
        };
        let dir_only = p1.len() > 0 && p1.last() == '/' && !(p1.len() >= 2 && p1[p1.len() - 2]
            == '\\');
        let p2 = if dir_only {
            p1.take(p1.len() - 1)
        } else {
            p1
        };
        let rooted = p2.len() > 0 && p2[0] == '/';
        let p3 = if rooted {
            p2.skip(1)
        } else {
            p2
        };
        let anchored = rooted || has_unescaped_slash(p3);
        let prefix = if anchored {
            seq!['^']
        } else {
            seq!['^'] + any_dirs()
        };
        Some((prefix + glob_body(p3) + seq!['$'], neg, dir_only))
    }
}

/// The rule a gitignore pattern compiles to: its regex source and flags,
/// when the pattern is non-empty and the regex compiles (case-insensitively).
pub open spec fn gitignore_rule_spec(pattern: Seq<char>) -> Option<(Seq<char>, bool, bool)> {
    match gitignore_parts(pattern) {
        Some(t) => if regex_compiles(t.0, true) {
            Some(t)
        } else {
            None
        },
        None => None,
    }
}

/// Appends `piece` to `out`.
fn push_all(out: &mut Vec<char>, piece: &[char])
    ensures
        final(out)@ == old(out)@ + piece@,
{
    let mut i: usize = 0;
    while i < piece.len()
        invariant
            i <= piece@.len(),
            out@ == old(out)@ + piece@.take(i as int),
        decreases piece@.len() - i,
    {
        out.push(piece[i]);
        proof {
            assert(piece@.take(i + 1) =~= piece@.take(i as int).push(piece@[i as int]));
        }
        i = i + 1;
    }
    assert(piece@.take(piece@.len() as int) =~= piece@);
}

/// Translates the glob `p` to regex text (see `glob_body`).
fn translate_glob(p: &[char]) -> (res: Vec<char>)
    ensures
        res@ == glob_body(p@),
{
    let mut out: Vec<char> = Vec::new();
    let mut i: usize = 0;
    proof {
        assert(p@.skip(0) =~= p@);
    }
    while i < p.len()
        invariant
            i <= p@.len(),
            out@ + glob_body(p@.skip(i as int)) == glob_body(p@),
        decreases p@.len() - i,
    {
        let ghost rest = p@.skip(i as int);
        let c = p[i];
        let ghost before = out@;
        let step: usize;
        if c == '\\' {
            if i + 1 < p.len() {
                let n = p[i + 1];
                if n == ' ' || n == '#' || n == '!' || n == '\\' || n == '/' || n == '*' || n
                    == '?' || n == '.' || n == '+' || n == '(' || n == ')' || n == '[' || n == ']'
                    || n == '{' || n == '}' || n == '^' || n == '$' || n == '|' {
                    out.push('\\');
                    out.push(n);
                } else {
                    out.push(n);
                }
                step = 2;
            } else {
                out.push('\\');
                out.push('\\');
                step = 1;
            }
        } else if c == '*' {
            if i + 1 < p.len() && p[i + 1] == '*' {
                if i + 2 < p.len() && p[i + 2] == '/' {
                    push_all(&mut out, &['(', '?', ':', '.', '*', '/', ')', '?']);
                    step = 3;
                } else {
                    out.push('.');
                    out.push('*');
                    step = 2;
                }
            } else {
                push_all(&mut out, &['[', '^', '/', ']', '*']);
                step = 1;
            }
        } else if c == '?' {
            push_all(&mut out, &['[', '^', '/', ']']);
            step = 1;
        } else if c == '.' || c == '+' || c == '(' || c == ')' || c == '[' || c == ']' || c == '{'
            || c == '}' || c == '^' || c == '$' || c == '|' {
            out.push('\\');
            out.push(c);
            step = 1;
        } else {
            out.push(c);
            step = 1;
        }
        proof {
            assert(rest.skip(step as int) =~= p@.skip(i + step));
            assert(glob_body(rest) == (out@.subrange(before.len() as int, out@.len() as int))
                + glob_body(rest.skip(step as int))) by {
                if c == '\\' && i + 1 < p.len() {
                    let n = p@[i + 1];
                    if is_glob_escapable(n) || is_regex_meta(n) {
                        assert(out@.subrange(before.len() as int, out@.len() as int) =~= seq![
                            '\\',
                            n,
                        ]);
                    } else {
                        assert(out@.subrange(before.len() as int, out@.len() as int) =~= seq![n]);
                    }
                } else if c == '\\' {
                    assert(rest.skip(1) =~= Seq::<char>::empty());
                    assert(out@.subrange(before.len() as int, out@.len() as int) =~= seq![
                        '\\',
                        '\\',
                    ]);
                } else if c == '*' && i + 1 < p.len() && p@[i + 1] == '*' {
                    if i + 2 < p.len() && p@[i + 2] == '/' {
                        assert(out@.subrange(before.len() as int, out@.len() as int)
                            =~= any_dirs());
                    } else {
                        assert(out@.subrange(before.len() as int, out@.len() as int) =~= seq![
                            '.',
                            '*',
                        ]);
                    }
                } else if c == '*' {
                    assert(out@.subrange(before.len() as int, out@.len() as int)
                        =~= in_component_star());
                } else if c == '?' {
                    assert(out@.subrange(before.len() as int, out@.len() as int)
                        =~= in_component_one());
                } else if is_regex_meta(c) {
                    assert(out@.subrange(before.len() as int, out@.len() as int) =~= seq![
                        '\\',
                        c,
                    ]);
                } else {
                    assert(out@.subrange(before.len() as int, out@.len() as int) =~= seq![c]);
                }
            }
            assert(out@ =~= before + out@.subrange(before.len() as int, out@.len() as int));
            assert(before + glob_body(rest) == out@ + glob_body(rest.skip(step as int)));
        }
        i = i + step;
    }
    proof {
        assert(p@.skip(i as int) =~= Seq::<char>::empty());
        assert(out@ + Seq::<char>::empty() =~= out@);
    }
    out
}

/// Whether the glob holds a `/` not preceded by a backslash byte.
fn find_unescaped_slash(p: &[char]) -> (r: bool)
    ensures
        r == has_unescaped_slash(p@),
{
    let s = chars_to_string(p);
    let bytes = s.as_str().as_bytes();
    proof {
        crate::text::lemma_utf8_len_encode(p@);
        crate::text::lemma_utf8_len_ge_len(p@);
    }
    let mut i: usize = 0;
    while i < p.len()
        invariant
            i <= p@.len(),
            bytes@ == vstd::utf8::encode_utf8(p@),
            bytes@.len() >= p@.len(),
            forall|k: int|
                0 <= k < i ==> !(#[trigger] p@[k] == '/' && (k == 0 || bytes@[k - 1] != 0x5Cu8)),
        decreases p@.len() - i,
    {
        if p[i] == '/' && (i == 0 || bytes[i - 1] != 0x5C) {
            return true;
        }
        i = i + 1;
    }
    false
}

/// Translates a gitignore pattern to the source of a case-insensitive
/// regular expression, with its negation and directory-only flags. `None`
/// when the pattern is empty or the translation does not compile.
pub fn gitignore_to_regex(pattern: &[char]) -> (res: Option<(String, bool, bool)>)
    ensures
        match res {
            Some(t) => gitignore_rule_spec(pattern@) == Some((t.0@, t.1, t.2)),
            None => gitignore_rule_spec(pattern@) is None,
        },
{
    if pattern.len() == 0 {
        return None;
    }
    let neg = pattern[0] == '!';
    let p1: Vec<char> = if neg {
        slice_range_to_vec(pattern, 1, pattern.len())
    } else {
        slice_range_to_vec(pattern, 0, pattern.len())
    };
    proof {
        assert(pattern@.subrange(0, pattern@.len() as int) =~= pattern@);
        assert(pattern@.subrange(1, pattern@.len() as int) =~= pattern@.skip(1));
    }
    let n1 = p1.len();
    let dir_only = n1 > 0 && p1[n1 - 1] == '/' && !(n1 >= 2 && p1[n1 - 2] == '\\');
    let p2: Vec<char> = if dir_only {
        slice_range_to_vec(p1.as_slice(), 0, n1 - 1)
    } else {
        p1
    };
    proof {
        if dir_only {
            assert(p2@ =~= p1@.take(p1@.len() - 1));
        }
    }
    let rooted = p2.len() > 0 && p2[0] == '/';
    let p3: Vec<char> = if rooted {
        slice_range_to_vec(p2.as_slice(), 1, p2.len())
    } else {
        p2
    };
    proof {
        if rooted {
            assert(p3@ =~= p2@.skip(1));
        }
    }
    let anchored = rooted || find_unescaped_slash(p3.as_slice());
    let mut re: Vec<char> = Vec::new();
    if anchored {
        re.push('^');
    } else {
        push_all(&mut re, &['^', '(', '?', ':', '.', '*', '/', ')', '?']);
        assert(re@ =~= seq!['^'] + any_dirs());
    }
    let body = translate_glob(p3.as_slice());
    let ghost prefix = re@;
    push_all(&mut re, body.as_slice());
    re.push('$');
    proof {
        assert(re@ =~= prefix + glob_body(p3@) + seq!['$']);
        assert(anchored ==> prefix =~= seq!['^']);
    }
    let src = chars_to_string(re.as_slice());
    match regex_check(src.as_str(), true) {
        Ok(()) => Some((src, neg, dir_only)),
        Err(_) => None,
    }
}

// ---------------------------------------------------------------------------
// Rules and ignore files
// ---------------------------------------------------------------------------

/// One rule of an ignore file or search mask.
#[derive(Debug, Clone)]
pub struct GitIgnoreRule {
    /// Source of the rule's case-insensitive regular expression.
    pub regex: String,
    /// The rule re-includes what it matches (`!` prefix).
    pub is_negation: bool,
    /// The rule applies to directories only (`/` suffix).
    pub is_dir_only: bool,
    /// The line or mask piece the rule came from.
    pub raw_pattern: String,
}

/// The plain contents of a rule: regex source, negation, directory-only, raw pattern.
pub type RuleView = (Seq<char>, bool, bool, Seq<char>);

impl View for GitIgnoreRule {
    type V = RuleView;

    open spec fn view(&self) -> RuleView {
        (self.regex@, self.is_negation, self.is_dir_only, self.raw_pattern@)
    }
}

/// Every rule's regex compiles.
pub open spec fn rules_wf(rules: Seq<RuleView>) -> bool {
    forall|i: int| 0 <= i < rules.len() ==> regex_compiles(#[trigger] rules[i].0, true)
}

/// The views of a list of rules.
pub open spec fn rule_views(rules: Seq<GitIgnoreRule>) -> Seq<RuleView> {
    rules.map_values(|r: GitIgnoreRule| r@)
}

/// The rules of an ignore file's lines, in order: for each line with a
/// pattern whose translation compiles, one rule carrying the whole line.
pub open spec fn rules_of_lines(lines: Seq<Seq<char>>) -> Seq<RuleView>
    decreases lines.len(),
{
    if lines.len() == 0 {
        seq![]
    } else {
        let line = lines[0];
        let here: Seq<RuleView> = match parse_line_spec(line) {
            Some(p) => match gitignore_rule_spec(p) {
                Some(t) => seq![(t.0, t.1, t.2, line)],
                None => seq![],
            },
            None => seq![],
        };
        here + rules_of_lines(lines.drop_first())
    }
}

/// The rules under one base directory, from one ignore file.
#[derive(Debug, Clone)]
pub struct GitIgnore {
    /// The directory holding the ignore file.
    pub base_dir: String,
    /// The parsed rules, in file order.
    pub rules: Vec<GitIgnoreRule>,
}

impl GitIgnore {
    /// All rules compile.
    pub open spec fn wf(&self) -> bool {
        rules_wf(rule_views(self.rules@))
    }

    /// Parses the content of an ignore file found in `base_dir`.
    pub fn new(base_dir: String, content: &str) -> (res: GitIgnore)
        ensures
            res.base_dir@ == base_dir@,
            rule_views(res.rules@) == rules_of_lines(text_lines(content@)),
            res.wf(),
    {
        let cs = str_to_chars(content);
        let lines = split_lines(cs.as_slice());
        let ghost lv = lines@.map_values(|l: Vec<char>| l@);
        let mut rules: Vec<GitIgnoreRule> = Vec::new();
        let mut i: usize = 0;
        proof {
            assert(lv.skip(0) =~= lv);
            assert(rule_views(rules@) =~= Seq::<RuleView>::empty());
        }
        while i < lines.len()
            invariant
                i <= lines@.len(),
                lv == lines@.map_values(|l: Vec<char>| l@),
                lv == text_lines(content@),
                rule_views(rules@) + rules_of_lines(lv.skip(i as int)) == rules_of_lines(lv),
                rules_wf(rule_views(rules@)),
            decreases lines@.len() - i,
        {
            let ghost before = rule_views(rules@);
            let line_s = chars_to_string(lines[i].as_slice());
            proof {
                assert(lv.skip(i as int).drop_first() =~= lv.skip(i + 1));
                assert(lv.skip(i as int)[0] == line_s@);
            }
            match parse_line(line_s.as_str()) {
                Some(p) => {
                    match gitignore_to_regex(p.as_slice()) {
                        Some((regex, is_negation, is_dir_only)) => {
                            let rule = GitIgnoreRule {
                                regex,
                                is_negation,
                                is_dir_only,
                                raw_pattern: line_s,
                            };
                            let ghost rv = rule@;
                            rules.push(rule);
                            proof {
                                assert(rule_views(rules@) =~= before.push(rv));
                                assert(before.push(rv) + rules_of_lines(lv.skip(i + 1)) =~= before
                                    + (seq![rv] + rules_of_lines(lv.skip(i + 1))));
                            }
                        },
                        None => {
                            proof {
                                assert(Seq::<RuleView>::empty() + rules_of_lines(lv.skip(i + 1))
                                    =~= rules_of_lines(lv.skip(i + 1)));
                            }
                        },
                    }
                },
                None => {
                    proof {
                        assert(Seq::<RuleView>::empty() + rules_of_lines(lv.skip(i + 1))
                            =~= rules_of_lines(lv.skip(i + 1)));
                    }
                },
            }
            i = i + 1;
        }
        proof {
            assert(lv.skip(i as int) =~= Seq::<Seq<char>>::empty());
            assert(rule_views(rules@) + Seq::<RuleView>::empty() =~= rule_views(rules@));
        }
        GitIgnore { base_dir, rules }
    }
}


// ---------------------------------------------------------------------------
// Paths
// ---------------------------------------------------------------------------

/// `s` with every backslash replaced by `/`.
pub open spec fn normalize_seps(s: Seq<char>) -> Seq<char> {
    s.map_values(|c: char| if c == '\\' { '/' } else { c })
}

/// `c` is an ASCII letter.
pub open spec fn is_ascii_letter(c: char) -> bool {
    ('a' <= c && c <= 'z') || ('A' <= c && c <= 'Z')
}

/// `s` is an absolute path: it starts at a root (`/` or `\`), or with a
/// drive prefix followed by a root (`C:/`, `C:\`).
pub open spec fn is_absolute_path(s: Seq<char>) -> bool {
    ||| s.len() > 0 && (s[0] == '/' || s[0] == '\\')
    ||| s.len() >= 3 && is_ascii_letter(s[0]) && s[1] == ':' && (s[2] == '/' || s[2] == '\\')
}

/// Length of the root of a path with `/` separators: a drive and its root
/// (`C:/`), a root (`/`), or nothing.
pub open spec fn root_len(s: Seq<char>) -> int {
    if s.len() >= 3 && is_ascii_letter(s[0]) && s[1] == ':' && s[2] == '/' {
        3
    } else if s.len() >= 1 && s[0] == '/' {
        1
    } else {
        0
    }
}

/// `s` starts with a `.` piece (a `.` followed by `/` or by nothing).
pub open spec fn starts_with_dot_piece(s: Seq<char>) -> bool {
    s.len() > 0 && s[0] == '.' && (s.len() == 1 || s[1] == '/')
}

/// Number of leading characters of `s` that are separators or belong to
/// `.` pieces: what path-component parsing passes over before the next
/// component.
pub open spec fn lead_skip(s: Seq<char>) -> nat
    decreases s.len(),
{
    if s.len() > 0 && (s[0] == '/' || starts_with_dot_piece(s)) {
        1 + lead_skip(s.skip(1))
    } else {
        0
    }
}

/// Length of the first piece of `s`: the characters before the first `/`.
pub open spec fn piece_len(s: Seq<char>) -> nat
    decreases s.len(),
{
    if s.len() == 0 || s[0] == '/' {
        0
    } else {
        1 + piece_len(s.skip(1))
    }
}

/// `s` ends with a `.` piece (a `.` at the start or after a `/`).
pub open spec fn ends_with_dot_piece(s: Seq<char>) -> bool {
    s.len() > 0 && s.last() == '.' && (s.len() == 1 || s[s.len() - 2] == '/')
}

/// Length of `s` without its trailing separators and `.` pieces.
pub open spec fn trail_keep(s: Seq<char>) -> nat
    decreases s.len(),
{
    if s.len() > 0 && (s.last() == '/' || ends_with_dot_piece(s)) {
        trail_keep(s.drop_last())
    } else {
        s.len()
    }
}

pub proof fn lemma_lead_skip_le(s: Seq<char>)
    ensures
        lead_skip(s) <= s.len(),
        lead_skip(s) < s.len() ==> s[lead_skip(s) as int] != '/',
    decreases s.len(),
{
    if s.len() > 0 && (s[0] == '/' || starts_with_dot_piece(s)) {
        lemma_lead_skip_le(s.skip(1));
        if lead_skip(s) < s.len() {
            assert(s.skip(1)[lead_skip(s.skip(1)) as int] == s[lead_skip(s) as int]);
        }
    }
}

pub proof fn lemma_piece_len_le(s: Seq<char>)
    ensures
        piece_len(s) <= s.len(),
        s.len() > 0 && s[0] != '/' ==> piece_len(s) >= 1,
    decreases s.len(),
{
    if !(s.len() == 0 || s[0] == '/') {
        lemma_piece_len_le(s.skip(1));
    }
}

pub proof fn lemma_trail_keep_le(s: Seq<char>)
    ensures
        trail_keep(s) <= s.len(),
    decreases s.len(),
{
    if s.len() > 0 && (s.last() == '/' || ends_with_dot_piece(s)) {
        lemma_trail_keep_le(s.drop_last());
    }
}

/// The part of the path body `p` below the base body `b`, matching their
/// components one by one (separators repeated and `.` pieces passed over);
/// what remains of `p` loses its leading and trailing separators and `.`
/// pieces. `None` when a component differs or `p` ends first.
pub open spec fn strip_body(p: Seq<char>, b: Seq<char>) -> Option<Seq<char>>
    decreases b.len(),
{
    let p1 = p.skip(lead_skip(p) as int);
    let b1 = b.skip(lead_skip(b) as int);
    if b1.len() == 0 {
        Some(p1.take(trail_keep(p1) as int))
    } else {
        let kb = piece_len(b1) as int;
        let kp = piece_len(p1) as int;
        if p1.take(kp) == b1.take(kb) {
            proof {
                lemma_lead_skip_le(b);
                lemma_piece_len_le(b1);
                assert(b1[0] == b[lead_skip(b) as int]);
            }
            strip_body(p1.skip(kp), b1.skip(kb))
        } else {
            None
        }
    }
}

/// The part of `path` below `base` (both with `/` separators), compared
/// component by component as paths: the roots must be equal, then each
/// component of `base`; what remains of `path` is returned without its
/// leading and trailing separators and `.` pieces (empty when they name the
/// same directory). An empty `base` leaves `path` as it is, but for trailing
/// separators and `.` pieces. `None` when `path` is not `base` or below it.
pub open spec fn strip_base(path: Seq<char>, base: Seq<char>) -> Option<Seq<char>> {
    let rb = root_len(base);
    let rp = root_len(path);
    if rb == 0 {
        if base.len() == 0 {
            Some(path.take(rp + trail_keep(path.skip(rp))))
        } else {
            None
        }
    } else if rp == rb && path.take(rp) == base.take(rb) {
        strip_body(path.skip(rp), base.skip(rb))
    } else {
        None
    }
}

/// `path` relative to `base`, with `/` separators: an absolute path is taken
/// below `base` (`None` when it lies elsewhere); a relative path is kept.
pub open spec fn relative_to(path: Seq<char>, base: Seq<char>) -> Option<Seq<char>> {
    if is_absolute_path(path) {
        strip_base(normalize_seps(path), normalize_seps(base))
    } else {
        Some(normalize_seps(path))
    }
}

/// Replaces backslashes with `/`.
pub fn normalize_path(s: &str) -> (res: Vec<char>)
    ensures
        res@ == normalize_seps(s@),
{
    let cs = str_to_chars(s);
    let mut out: Vec<char> = Vec::new();
    let mut i: usize = 0;
    while i < cs.len()
        invariant
            i <= cs@.len(),
            out@ == normalize_seps(cs@.take(i as int)),
        decreases cs@.len() - i,
    {
        let c = cs[i];
        out.push(if c == '\\' { '/' } else { c });
        proof {
            assert(normalize_seps(cs@.take(i + 1)) =~= normalize_seps(cs@.take(i as int)).push(
                if c == '\\' { '/' } else { c },
            ));
        }
        i = i + 1;
    }
    assert(cs@.take(cs@.len() as int) =~= cs@);
    out
}

/// Whether `s` is an absolute path (see `is_absolute_path`).
pub fn path_is_absolute(s: &[char]) -> (r: bool)
    ensures
        r == is_absolute_path(s@),
{
    (s.len() > 0 && (s[0] == '/' || s[0] == '\\')) || (s.len() >= 3 && ascii_letter(s[0]) && s[1]
        == ':' && (s[2] == '/' || s[2] == '\\'))
}

/// Whether `c` is an ASCII letter.
fn ascii_letter(c: char) -> (r: bool)
    ensures
        r == is_ascii_letter(c),
{
    ('a' <= c && c <= 'z') || ('A' <= c && c <= 'Z')
}

/// Length of the root of `s` (see `root_len`).
fn root_length(s: &[char]) -> (n: usize)
    ensures
        n == root_len(s@),
{
    if s.len() >= 3 && ascii_letter(s[0]) && s[1] == ':' && s[2] == '/' {
        3
    } else if s.len() >= 1 && s[0] == '/' {
        1
    } else {
        0
    }
}

/// The index past the separators and `.` pieces that start at `from`.
fn skip_lead(s: &[char], from: usize) -> (k: usize)
    requires
        from <= s@.len(),
    ensures
        k == from + lead_skip(s@.skip(from as int)),
        k <= s@.len(),
{
    let mut i = from;
    while i < s.len() && (s[i] == '/' || (s[i] == '.' && (i + 1 == s.len() || s[i + 1] == '/')))
        invariant
            from <= i <= s@.len(),
            lead_skip(s@.skip(from as int)) == (i - from) + lead_skip(s@.skip(i as int)),
        decreases s@.len() - i,
    {
        proof {
            let t = s@.skip(i as int);
            assert(t.skip(1) =~= s@.skip(i + 1));
            assert(t[0] == s@[i as int]);
            if i + 1 < s@.len() {
                assert(t[1] == s@[i + 1]);
            }
        }
        i = i + 1;
    }
    proof {
        let t = s@.skip(i as int);
        if i < s@.len() {
            assert(t[0] == s@[i as int]);
            if i + 1 < s@.len() {
                assert(t[1] == s@[i + 1]);
            }
        }
    }
    i
}

/// The index of the first `/` at or after `from`, or the length.
fn piece_end(s: &[char], from: usize) -> (k: usize)
    requires
        from <= s@.len(),
    ensures
        k == from + piece_len(s@.skip(from as int)),
        k <= s@.len(),
{
    let mut i = from;
    while i < s.len() && s[i] != '/'
        invariant
            from <= i <= s@.len(),
            piece_len(s@.skip(from as int)) == (i - from) + piece_len(s@.skip(i as int)),
        decreases s@.len() - i,
    {
        proof {
            let t = s@.skip(i as int);
            assert(t.skip(1) =~= s@.skip(i + 1));
            assert(t[0] == s@[i as int]);
        }
        i = i + 1;
    }
    proof {
        if i < s@.len() {
            assert(s@.skip(i as int)[0] == s@[i as int]);
        }
    }
    i
}

/// The end of `s[from..]` without its trailing separators and `.` pieces.
fn trail_end(s: &[char], from: usize) -> (k: usize)
    requires
        from <= s@.len(),
    ensures
        k == from + trail_keep(s@.skip(from as int)),
{
    let mut j = s.len();
    proof {
        assert(s@.skip(from as int) =~= s@.subrange(from as int, s@.len() as int));
    }
    while j > from && (s[j - 1] == '/' || (s[j - 1] == '.' && (j - 1 == from || s[j - 2] == '/')))
        invariant
            from <= j <= s@.len(),
            trail_keep(s@.skip(from as int)) == trail_keep(s@.subrange(from as int, j as int)),
        decreases j,
    {
        proof {
            let t = s@.subrange(from as int, j as int);
            assert(t.drop_last() =~= s@.subrange(from as int, j - 1));
            assert(t.last() == s@[j - 1]);
            if j - 1 > from {
                assert(t[t.len() - 2] == s@[j - 2]);
            }
        }
        j = j - 1;
    }
    proof {
        let t = s@.subrange(from as int, j as int);
        if j > from {
            assert(t.last() == s@[j - 1]);
            if j - 1 > from {
                assert(t[t.len() - 2] == s@[j - 2]);
            }
        }
    }
    j
}

/// Whether `a[a0..a1]` and `b[b0..b1]` are equal.
fn ranges_equal(a: &[char], a0: usize, a1: usize, b: &[char], b0: usize, b1: usize) -> (r: bool)
    requires
        a0 <= a1 <= a@.len(),
        b0 <= b1 <= b@.len(),
    ensures
        r == (a@.subrange(a0 as int, a1 as int) == b@.subrange(b0 as int, b1 as int)),
{
    if a1 - a0 != b1 - b0 {
        assert(a@.subrange(a0 as int, a1 as int).len() != b@.subrange(b0 as int, b1 as int).len());
        return false;
    }
    let ghost sa = a@.subrange(a0 as int, a1 as int);
    let ghost sb = b@.subrange(b0 as int, b1 as int);
    let mut i: usize = 0;
    while i < a1 - a0
        invariant
            a0 <= a1 <= a@.len(),
            b0 <= b1 <= b@.len(),
            a1 - a0 == b1 - b0,
            sa == a@.subrange(a0 as int, a1 as int),
            sb == b@.subrange(b0 as int, b1 as int),
            i <= a1 - a0,
            forall|k: int| 0 <= k < i ==> #[trigger] sa[k] == sb[k],
        decreases a1 - a0 - i,
    {
        assert(sa[i as int] == a@[a0 + i]);
        assert(sb[i as int] == b@[b0 + i]);
        if a[a0 + i] != b[b0 + i] {
            return false;
        }
        i = i + 1;
    }
    assert(a@.subrange(a0 as int, a1 as int) =~= b@.subrange(b0 as int, b1 as int));
    true
}

/// The part of `path` below `base` (see `strip_base`).
pub fn strip_base_dir(path: &[char], base: &[char]) -> (res: Option<Vec<char>>)
    ensures
        match res {
            Some(v) => strip_base(path@, base@) == Some(v@),
            None => strip_base(path@, base@) is None,
        },
{
    let rb = root_length(base);
    let rp = root_length(path);
    if rb == 0 {
        if base.len() == 0 {
            let e = trail_end(path, rp);
            proof {
                lemma_trail_keep_le(path@.skip(rp as int));
            }
            let v = slice_range_to_vec(path, 0, e);
            assert(v@ =~= path@.take(e as int));
            return Some(v);
        }
        return None;
    }
    if rp != rb || !ranges_equal(path, 0, rp, base, 0, rb) {
        proof {
            assert(path@.subrange(0, rp as int) =~= path@.take(rp as int));
            assert(base@.subrange(0, rb as int) =~= base@.take(rb as int));
        }
        return None;
    }
    proof {
        assert(path@.subrange(0, rp as int) =~= path@.take(rp as int));
        assert(base@.subrange(0, rb as int) =~= base@.take(rb as int));
    }
    let ghost target = strip_body(path@.skip(rp as int), base@.skip(rb as int));
    let mut ip = rp;
    let mut ib = rb;
    loop
        invariant
            ip <= path@.len(),
            ib <= base@.len(),
            strip_body(path@.skip(ip as int), base@.skip(ib as int)) == target,
            target == strip_base(path@, base@),
        decreases base@.len() - ib,
    {
        let ghost p = path@.skip(ip as int);
        let ghost b = base@.skip(ib as int);
        let ip2 = skip_lead(path, ip);
        let ib2 = skip_lead(base, ib);
        proof {
            assert(p.skip(lead_skip(p) as int) =~= path@.skip(ip2 as int));
            assert(b.skip(lead_skip(b) as int) =~= base@.skip(ib2 as int));
        }
        if ib2 == base.len() {
            let e = trail_end(path, ip2);
            proof {
                lemma_trail_keep_le(path@.skip(ip2 as int));
            }
            let v = slice_range_to_vec(path, ip2, e);
            assert(v@ =~= path@.skip(ip2 as int).take(trail_keep(path@.skip(ip2 as int)) as int));
            return Some(v);
        }
        let kb = piece_end(base, ib2);
        let kp = piece_end(path, ip2);
        proof {
            let b1 = base@.skip(ib2 as int);
            let p1 = path@.skip(ip2 as int);
            assert(b1.take(kb - ib2) =~= base@.subrange(ib2 as int, kb as int));
            assert(p1.take(kp - ip2) =~= path@.subrange(ip2 as int, kp as int));
            assert(b1.skip(kb - ib2) =~= base@.skip(kb as int));
            assert(p1.skip(kp - ip2) =~= path@.skip(kp as int));
            lemma_lead_skip_le(b);
            lemma_piece_len_le(b1);
            assert(b1[0] == base@[ib2 as int]);
        }
        if !ranges_equal(path, ip2, kp, base, ib2, kb) {
            return None;
        }
        ip = kp;
        ib = kb;
    }
}

/// `k` is a separator position of `s` that has a parent path before it.
pub open spec fn is_parent_cut(s: Seq<char>, k: int) -> bool {
    0 <= k < s.len() - 1 && s[k] == '/'
}

/// The parent path ending at separator `k`; a root (`/`, `C:/`) keeps its separator.
pub open spec fn parent_at(s: Seq<char>, k: int) -> Seq<char> {
    if k == 0 || (k == 2 && s[1] == ':') {
        s.take(k + 1)
    } else {
        s.take(k)
    }
}

/// Some parent path of `s` (with `/` separators) matches the case-insensitive regex `re`.
pub open spec fn has_parent_match(s: Seq<char>, re: Seq<char>) -> bool {
    exists|k: int| #[trigger] is_parent_cut(s, k) && regex_matches(re, parent_at(s, k))
}

/// Whether some parent of the path `s` matches the case-insensitive regex `re`.
pub fn has_matching_parent(s: &[char], re: &str) -> (r: bool)
    requires
        regex_compiles(re@, true),
    ensures
        r == has_parent_match(s@, re@),
{
    if s.len() < 2 {
        assert(forall|k: int| !is_parent_cut(s@, k));
        return false;
    }
    let mut k: usize = s.len() - 1;
    while k > 0
        invariant
            k <= s@.len() - 1,
            s@.len() >= 2,
            regex_compiles(re@, true),
            forall|j: int| k <= j < s@.len() ==> !(#[trigger] is_parent_cut(s@, j) && regex_matches(re@, parent_at(s@, j))),
        decreases k,
    {
        k = k - 1;
        if s[k] == '/' {
            let end = if k == 0 || (k == 2 && s[1] == ':') { k + 1 } else { k };
            let parent = chars_to_string(slice_range_to_vec(s, 0, end).as_slice());
            proof {
                assert(parent@ =~= parent_at(s@, k as int));
            }
            if regex_is_match(re, parent.as_str()) {
                assert(is_parent_cut(s@, k as int));
                return true;
            }
        }
    }
    false
}

/// The last rule (in order) that applies to the path decides: a matching
/// rule ignores the path unless it is a negation; with no matching rule the
/// path is not ignored. Directory-only rules apply to directories only.
pub open spec fn rules_verdict(rules: Seq<RuleView>, rel: Seq<char>, is_dir: bool) -> bool
    decreases rules.len(),
{
    if rules.len() == 0 {
        false
    } else {
        let r = rules.last();
        if (!r.2 || is_dir) && regex_matches(r.0, rel) {
            !r.1
        } else {
            rules_verdict(rules.drop_last(), rel, is_dir)
        }
    }
}

/// Whether the rules under `base` ignore `path`.
pub open spec fn ignored_by(rules: Seq<RuleView>, base: Seq<char>, path: Seq<char>, is_dir: bool) -> bool {
    match relative_to(path, base) {
        Some(rel) => rel.len() > 0 && rules_verdict(rules, rel, is_dir),
        None => false,
    }
}

impl GitIgnore {
    /// Whether `path` (absolute, or relative to `base_dir`) is ignored.
    pub fn is_ignored(&self, path: &str, is_dir: bool) -> (res: bool)
        requires
            self.wf(),
        ensures
            res == ignored_by(rule_views(self.rules@), self.base_dir@, path@, is_dir),
    {
        let p = normalize_path(path);
        let rel = if path_is_absolute(str_to_chars(path).as_slice()) {
            let b = normalize_path(self.base_dir.as_str());
            match strip_base_dir(p.as_slice(), b.as_slice()) {
                Some(r) => r,
                None => {
                    return false;
                },
            }
        } else {
            p
        };
        if rel.len() == 0 {
            return false;
        }
        let rel_s = chars_to_string(rel.as_slice());
        let ghost rules = rule_views(self.rules@);
        let mut ignored = false;
        let mut i: usize = 0;
        while i < self.rules.len()
            invariant
                i <= self.rules@.len(),
                rules == rule_views(self.rules@),
                rules_wf(rules),
                ignored == rules_verdict(rules.take(i as int), rel_s@, is_dir),
            decreases self.rules@.len() - i,
        {
            let rule = &self.rules[i];
            proof {
                assert(rules.take(i + 1).drop_last() =~= rules.take(i as int));
                assert(rules[i as int] == rule@);
                assert(regex_compiles(rules[i as int].0, true));
            }
            if rule.is_dir_only && !is_dir {
            } else if regex_is_match(rule.regex.as_str(), rel_s.as_str()) {
                ignored = !rule.is_negation;
            }
            i = i + 1;
        }
        assert(rules.take(self.rules@.len() as int) =~= rules);
        ignored
    }
}

// ---------------------------------------------------------------------------
// Search masks
// ---------------------------------------------------------------------------

/// The include rules of the mask globs `parts`: each glob not starting with
/// `!` whose translation compiles, as a non-negated rule carrying the glob.
pub open spec fn include_rules_of(parts: Seq<Seq<char>>) -> Seq<RuleView>
    decreases parts.len(),
{
    if parts.len() == 0 {
        seq![]
    } else {
        let p = parts[0];
        let here: Seq<RuleView> = if p.len() > 0 && p[0] == '!' {
            seq![]
        } else {
            match gitignore_rule_spec(p) {
                Some(t) => seq![(t.0, false, t.2, p)],
                None => seq![],
            }
        };
        here + include_rules_of(parts.drop_first())
    }
}

/// The exclude rules of the mask globs `parts`: each glob `!g` whose `g`
/// translates to a compiling regex, as a non-negated rule carrying `!g`.
pub open spec fn exclude_rules_of(parts: Seq<Seq<char>>) -> Seq<RuleView>
    decreases parts.len(),
{
    if parts.len() == 0 {
        seq![]
    } else {
        let p = parts[0];
        let here: Seq<RuleView> = if p.len() > 0 && p[0] == '!' {
            match gitignore_rule_spec(p.skip(1)) {
                Some(t) => seq![(t.0, false, t.2, p)],
                None => seq![],
            }
        } else {
            seq![]
        };
        here + exclude_rules_of(parts.drop_first())
    }
}

/// Include and exclude rules built from a search-mask string.
#[derive(Debug, Clone)]
pub struct SearchFilter {
    /// Rules a file must match (when there are any).
    pub include_rules: Vec<GitIgnoreRule>,
    /// Rules that exclude files and directories (`!` globs).
    pub exclude_rules: Vec<GitIgnoreRule>,
}

/// A directory passes the excludes: neither it nor any parent matches an exclude rule.
pub open spec fn dir_allowed(excludes: Seq<RuleView>, rel: Seq<char>) -> bool {
    forall|i: int|
        0 <= i < excludes.len() ==> !(regex_matches(#[trigger] excludes[i].0, rel)
            || has_parent_match(rel, excludes[i].0))
}

/// A file passes: no exclude rule catches it (a directory-only exclude
/// through a parent, any other directly), and, when there are include rules,
/// some include rule that is not directory-only matches it.
pub open spec fn file_allowed(includes: Seq<RuleView>, excludes: Seq<RuleView>, rel: Seq<char>) -> bool {
    &&& forall|i: int|
        0 <= i < excludes.len() ==> !(if (#[trigger] excludes[i]).2 {
            has_parent_match(rel, excludes[i].0)
        } else {
            regex_matches(excludes[i].0, rel)
        })
    &&& includes.len() > 0 ==> exists|i: int|
        0 <= i < includes.len() && !(#[trigger] includes[i]).2 && regex_matches(includes[i].0, rel)
}

/// A file that an exclude rule which is not directory-only matches is never
/// allowed, whatever its folders and the include rules; one below a folder
/// that a directory-only exclude rule matches is not allowed either.
pub proof fn law_excluded_files_are_refused(
    includes: Seq<RuleView>,
    excludes: Seq<RuleView>,
    rel: Seq<char>,
    i: int,
)
    requires
        0 <= i < excludes.len(),
    ensures
        !excludes[i].2 && regex_matches(excludes[i].0, rel) ==> !file_allowed(includes, excludes, rel),
        excludes[i].2 && has_parent_match(rel, excludes[i].0) ==> !file_allowed(includes, excludes, rel),
{
    if !excludes[i].2 && regex_matches(excludes[i].0, rel) {
        assert((if excludes[i].2 {
            has_parent_match(rel, excludes[i].0)
        } else {
            regex_matches(excludes[i].0, rel)
        }));
    }
    if excludes[i].2 && has_parent_match(rel, excludes[i].0) {
        assert((if excludes[i].2 {
            has_parent_match(rel, excludes[i].0)
        } else {
            regex_matches(excludes[i].0, rel)
        }));
    }
}

impl SearchFilter {
    /// All rules compile.
    pub open spec fn wf(&self) -> bool {
        rules_wf(rule_views(self.include_rules@)) && rules_wf(rule_views(self.exclude_rules@))
    }

    /// Builds the filter of a mask string: globs split at `;`, `,` and
    /// spaces; `!glob` excludes, any other glob includes.
    pub fn new(mask_str: &str) -> (res: SearchFilter)
        ensures
            res.wf(),
            rule_views(res.include_rules@) == include_rules_of(mask_parts(mask_str@)),
            rule_views(res.exclude_rules@) == exclude_rules_of(mask_parts(mask_str@)),
    {
        let parts = split_masks(mask_str);
        let ghost pv = parts@.map_values(|p: Vec<char>| p@);
        let mut include_rules: Vec<GitIgnoreRule> = Vec::new();
        let mut exclude_rules: Vec<GitIgnoreRule> = Vec::new();
        let mut i: usize = 0;
        proof {
            assert(pv.skip(0) =~= pv);
            assert(rule_views(include_rules@) =~= Seq::<RuleView>::empty());
            assert(rule_views(exclude_rules@) =~= Seq::<RuleView>::empty());
        }
        while i < parts.len()
            invariant
                i <= parts@.len(),
                pv == parts@.map_values(|p: Vec<char>| p@),
                pv == mask_parts(mask_str@),
                rule_views(include_rules@) + include_rules_of(pv.skip(i as int)) == include_rules_of(pv),
                rule_views(exclude_rules@) + exclude_rules_of(pv.skip(i as int)) == exclude_rules_of(pv),
                rules_wf(rule_views(include_rules@)),
                rules_wf(rule_views(exclude_rules@)),
            decreases parts@.len() - i,
        {
            let ghost inc0 = rule_views(include_rules@);
            let ghost exc0 = rule_views(exclude_rules@);
            let part = &parts[i];
            proof {
                assert(pv.skip(i as int).drop_first() =~= pv.skip(i + 1));
                assert(pv.skip(i as int)[0] == part@);
            }
            let raw = chars_to_string(part.as_slice());
            if part.len() > 0 && part[0] == '!' {
                let ex = slice_range_to_vec(part.as_slice(), 1, part.len());
                proof {
                    assert(ex@ =~= part@.skip(1));
                }
                match gitignore_to_regex(ex.as_slice()) {
                    Some((regex, _neg, is_dir_only)) => {
                        let rule = GitIgnoreRule { regex, is_negation: false, is_dir_only, raw_pattern: raw };
                        let ghost rv = rule@;
                        exclude_rules.push(rule);
                        proof {
                            assert(rule_views(exclude_rules@) =~= exc0.push(rv));
                            assert(exc0.push(rv) + exclude_rules_of(pv.skip(i + 1)) =~= exc0 + (seq![rv]
                                + exclude_rules_of(pv.skip(i + 1))));
                        }
                    },
                    None => {
                        proof {
                            assert(Seq::<RuleView>::empty() + exclude_rules_of(pv.skip(i + 1))
                                =~= exclude_rules_of(pv.skip(i + 1)));
                        }
                    },
                }
                proof {
                    assert(Seq::<RuleView>::empty() + include_rules_of(pv.skip(i + 1))
                        =~= include_rules_of(pv.skip(i + 1)));
                }
            } else {
                match gitignore_to_regex(part.as_slice()) {
                    Some((regex, _neg, is_dir_only)) => {
                        let rule = GitIgnoreRule { regex, is_negation: false, is_dir_only, raw_pattern: raw };
                        let ghost rv = rule@;
                        include_rules.push(rule);
                        proof {
                            assert(rule_views(include_rules@) =~= inc0.push(rv));
                            assert(inc0.push(rv) + include_rules_of(pv.skip(i + 1)) =~= inc0 + (seq![rv]
                                + include_rules_of(pv.skip(i + 1))));
                        }
                    },
                    None => {
                        proof {
                            assert(Seq::<RuleView>::empty() + include_rules_of(pv.skip(i + 1))
                                =~= include_rules_of(pv.skip(i + 1)));
                        }
                    },
                }
                proof {
                    assert(Seq::<RuleView>::empty() + exclude_rules_of(pv.skip(i + 1))
                        =~= exclude_rules_of(pv.skip(i + 1)));
                }
            }
            i = i + 1;
        }
        proof {
            assert(pv.skip(i as int) =~= Seq::<Seq<char>>::empty());
            assert(rule_views(include_rules@) + Seq::<RuleView>::empty() =~= rule_views(include_rules@));
            assert(rule_views(exclude_rules@) + Seq::<RuleView>::empty() =~= rule_views(exclude_rules@));
        }
        SearchFilter { include_rules, exclude_rules }
    }

    /// Whether the walk may enter the directory `rel_path` (relative to the
    /// search root): neither it nor a parent matches an exclude rule.
    pub fn allow_dir(&self, rel_path: &str) -> (res: bool)
        requires
            self.wf(),
        ensures
            res == dir_allowed(rule_views(self.exclude_rules@), normalize_seps(rel_path@)),
    {
        let rel = normalize_path(rel_path);
        let rel_s = chars_to_string(rel.as_slice());
        let ghost ex = rule_views(self.exclude_rules@);
        let mut i: usize = 0;
        while i < self.exclude_rules.len()
            invariant
                i <= self.exclude_rules@.len(),
                ex == rule_views(self.exclude_rules@),
                rules_wf(ex),
                rel@ == rel_s@,
                rel@ == normalize_seps(rel_path@),
                forall|j: int| 0 <= j < i ==> !(regex_matches(#[trigger] ex[j].0, rel@)
                    || has_parent_match(rel@, ex[j].0)),
            decreases self.exclude_rules@.len() - i,
        {
            let rule = &self.exclude_rules[i];
            proof {
                assert(ex[i as int] == rule@);
                assert(regex_compiles(ex[i as int].0, true));
            }
            if regex_is_match(rule.regex.as_str(), rel_s.as_str()) || has_matching_parent(
                rel.as_slice(),
                rule.regex.as_str(),
            ) {
                assert(regex_matches(ex[i as int].0, rel@) || has_parent_match(rel@, ex[i as int].0));
                return false;
            }
            i = i + 1;
        }
        true
    }

    /// Whether the file `rel_path` (relative to the search root) passes the
    /// filter's exclude and include rules.
    pub fn allow_file(&self, rel_path: &str) -> (res: bool)
        requires
            self.wf(),
        ensures
            res == file_allowed(
                rule_views(self.include_rules@),
                rule_views(self.exclude_rules@),
                normalize_seps(rel_path@),
            ),
            forall|i: int|
                0 <= i < self.exclude_rules@.len() && !(#[trigger] self.exclude_rules@[i]).is_dir_only
                    && regex_matches(self.exclude_rules@[i].regex@, normalize_seps(rel_path@)) ==> !res,
    {
        let res = self.allow_file_checked(rel_path);
        proof {
            let ex = rule_views(self.exclude_rules@);
            let inc = rule_views(self.include_rules@);
            assert forall|i: int|
                0 <= i < self.exclude_rules@.len() && !(#[trigger] self.exclude_rules@[i]).is_dir_only
                    && regex_matches(self.exclude_rules@[i].regex@, normalize_seps(rel_path@)) implies !res by {
                assert(ex[i] == self.exclude_rules@[i]@);
                law_excluded_files_are_refused(inc, ex, normalize_seps(rel_path@), i);
            }
        }
        res
    }

    /// `allow_file`, computed rule by rule.
    fn allow_file_checked(&self, rel_path: &str) -> (res: bool)
        requires
            self.wf(),
        ensures
            res == file_allowed(
                rule_views(self.include_rules@),
                rule_views(self.exclude_rules@),
                normalize_seps(rel_path@),
            ),
    {
        let rel = normalize_path(rel_path);
        let rel_s = chars_to_string(rel.as_slice());
        let ghost ex = rule_views(self.exclude_rules@);
        let ghost inc = rule_views(self.include_rules@);
        let mut i: usize = 0;
        while i < self.exclude_rules.len()
            invariant
                i <= self.exclude_rules@.len(),
                ex == rule_views(self.exclude_rules@),
                rules_wf(ex),
                rel@ == rel_s@,
                rel@ == normalize_seps(rel_path@),
                forall|j: int| 0 <= j < i ==> !(if (#[trigger] ex[j]).2 {
                    has_parent_match(rel@, ex[j].0)
                } else {
                    regex_matches(ex[j].0, rel@)
                }),
            decreases self.exclude_rules@.len() - i,
        {
            let rule = &self.exclude_rules[i];
            proof {
                assert(ex[i as int] == rule@);
                assert(regex_compiles(ex[i as int].0, true));
            }
            if rule.is_dir_only {
                if has_matching_parent(rel.as_slice(), rule.regex.as_str()) {
                    assert(ex[i as int].2 && has_parent_match(rel@, ex[i as int].0));
                    return false;
                }
            } else {
                if regex_is_match(rule.regex.as_str(), rel_s.as_str()) {
                    assert(!ex[i as int].2 && regex_matches(ex[i as int].0, rel@));
                    return false;
                }
            }
            i = i + 1;
        }
        if self.include_rules.len() > 0 {
            let mut matched = false;
            let mut j: usize = 0;
            while j < self.include_rules.len() && !matched
                invariant
                    j <= self.include_rules@.len(),
                    inc == rule_views(self.include_rules@),
                    rules_wf(inc),
                    rel@ == rel_s@,
                    matched ==> exists|t: int| 0 <= t < inc.len() && !(#[trigger] inc[t]).2 && regex_matches(inc[t].0, rel@),
                    !matched ==> forall|t: int| 0 <= t < j ==> !(!(#[trigger] inc[t]).2 && regex_matches(inc[t].0, rel@)),
                decreases self.include_rules@.len() - j + (if matched { 0int } else { 1int }),
            {
                let rule = &self.include_rules[j];
                proof {
                    assert(inc[j as int] == rule@);
                    assert(regex_compiles(inc[j as int].0, true));
                }
                if !rule.is_dir_only && regex_is_match(rule.regex.as_str(), rel_s.as_str()) {
                    matched = true;
                } else {
                    j = j + 1;
                }
            }
            if !matched {
                return false;
            }
        }
        true
    }
}


// ---------------------------------------------------------------------------
// Laws
// ---------------------------------------------------------------------------

/// Of the rules, the last one that applies to a path and matches it decides:
/// it ignores the path unless it is a negation; a rule that does not apply
/// or does not match leaves the verdict of the rules before it.
pub proof fn law_last_matching_rule_decides(rules: Seq<RuleView>, r: RuleView, rel: Seq<char>, is_dir: bool)
    ensures
        ((!r.2 || is_dir) && regex_matches(r.0, rel)) ==> rules_verdict(rules.push(r), rel, is_dir) == !r.1,
        !((!r.2 || is_dir) && regex_matches(r.0, rel)) ==> rules_verdict(rules.push(r), rel, is_dir)
            == rules_verdict(rules, rel, is_dir),
{
    assert(rules.push(r).drop_last() =~= rules);
}

/// Directory-only rules never ignore a file.
pub proof fn law_directory_rules_spare_files(rules: Seq<RuleView>, rel: Seq<char>)
    requires
        forall|i: int| 0 <= i < rules.len() ==> (#[trigger] rules[i]).2,
    ensures
        !rules_verdict(rules, rel, false),
    decreases rules.len(),
{
    if rules.len() > 0 {
        let d = rules.drop_last();
        assert forall|i: int| 0 <= i < d.len() implies (#[trigger] d[i]).2 by {
            assert(d[i] == rules[i]);
        }
        law_directory_rules_spare_files(d, rel);
        assert(rules.last() == rules[rules.len() - 1]);
    }
}

/// A mask without globs lets every file and every directory through.
pub proof fn law_mask_without_globs_allows_all(mask: Seq<char>, rel: Seq<char>)
    requires
        mask_parts(mask).len() == 0,
    ensures
        include_rules_of(mask_parts(mask)).len() == 0,
        exclude_rules_of(mask_parts(mask)).len() == 0,
        file_allowed(include_rules_of(mask_parts(mask)), exclude_rules_of(mask_parts(mask)), rel),
        dir_allowed(exclude_rules_of(mask_parts(mask)), rel),
{
}

/// The empty mask has no globs.
pub proof fn law_empty_mask_has_no_globs()
    ensures
        mask_parts(Seq::<char>::empty()).len() == 0,
{
    let e = Seq::<char>::empty();
    crate::text::lemma_first_index_none(|i: int| is_mask_sep(e[i]), 0, 0);
    assert(e.skip(leading_ws(e)) =~= e);
    assert(trim(e).len() == 0);
}

} // verus!
