//! Character-level text utilities shared by the matchers and mask parsers:
//! UTF-8 byte lengths of characters, `str::lines`-style splitting, Unicode
//! whitespace trimming, ASCII case folding, and a generic "first index"
//! specification used by every search in the library.

use vstd::prelude::*;
use vstd::utf8::*;
use vstd::string::*;

verus! {

broadcast use vstd::utf8::char_is_scalar;

// ---------------------------------------------------------------------------
// Generic search specification
// ---------------------------------------------------------------------------

/// The smallest `i` in `[from, to)` for which `p(i)` holds, if any.
pub open spec fn first_index(p: spec_fn(int) -> bool, from: int, to: int) -> Option<int>
    decreases to - from,
{
    if from >= to {
        None
    } else if p(from) {
        Some(from)
    } else {
        first_index(p, from + 1, to)
    }
}

/// `first_index` really is the first index satisfying the predicate.
pub proof fn lemma_first_index(p: spec_fn(int) -> bool, from: int, to: int)
    ensures
        match first_index(p, from, to) {
            Some(i) => from <= i < to && p(i) && forall|k: int| from <= k < i ==> !#[trigger] p(k),
            None => forall|k: int| from <= k < to ==> !#[trigger] p(k),
        },
    decreases to - from,
{
    if from < to && !p(from) {
        lemma_first_index(p, from + 1, to);
    }
}

/// Any index characterised as "satisfies `p`, and nothing before it does" is
/// the value of `first_index`.
pub proof fn lemma_first_index_unique(p: spec_fn(int) -> bool, from: int, to: int, i: int)
    requires
        from <= i < to,
        p(i),
        forall|k: int| from <= k < i ==> !#[trigger] p(k),
    ensures
        first_index(p, from, to) == Some(i),
    decreases i - from,
{
    if from < i {
        lemma_first_index_unique(p, from + 1, to, i);
    }
}

/// When no index in `[from, to)` satisfies `p`, `first_index` is `None`.
pub proof fn lemma_first_index_none(p: spec_fn(int) -> bool, from: int, to: int)
    requires
        forall|k: int| from <= k < to ==> !#[trigger] p(k),
    ensures
        first_index(p, from, to) == None::<int>,
    decreases to - from,
{
    if from < to {
        lemma_first_index_none(p, from + 1, to);
    }
}

/// Searching a shifted range: if `q(i)` is `p(i + a)`, the first index of
/// `q` from `c` is that of `p` from `a + c`, shifted by `a`.
pub proof fn lemma_first_index_shift(
    p: spec_fn(int) -> bool,
    q: spec_fn(int) -> bool,
    a: int,
    b: int,
    c: int,
)
    requires
        0 <= c,
        forall|i: int| 0 <= i < b - a ==> #[trigger] q(i) == p(i + a),
    ensures
        match first_index(p, a + c, b) {
            Some(i) => first_index(q, c, b - a) == Some(i - a),
            None => first_index(q, c, b - a) is None,
        },
    decreases b - a - c,
{
    if a + c < b {
        assert(q(c) == p(c + a));
        if !p(a + c) {
            lemma_first_index_shift(p, q, a, b, c + 1);
            assert(a + (c + 1) == a + c + 1);
        }
    }
}

/// Predicates that agree on a range have the same first index there.
pub proof fn lemma_first_index_ext(p: spec_fn(int) -> bool, q: spec_fn(int) -> bool, from: int, to: int)
    requires
        forall|i: int| from <= i < to ==> #[trigger] p(i) == q(i),
    ensures
        first_index(p, from, to) == first_index(q, from, to),
    decreases to - from,
{
    if from < to {
        lemma_first_index_ext(p, q, from + 1, to);
    }
}

/// Skipping indices that fail `p` does not change the first index.
pub proof fn lemma_first_index_skip(p: spec_fn(int) -> bool, a: int, b: int, to: int)
    requires
        a <= b,
        forall|k: int| a <= k < b ==> !#[trigger] p(k),
    ensures
        first_index(p, a, to) == first_index(p, b, to),
    decreases b - a,
{
    if a < b {
        lemma_first_index_skip(p, a + 1, b, to);
    }
}

// ---------------------------------------------------------------------------
// UTF-8 lengths
// ---------------------------------------------------------------------------

/// Number of bytes in the UTF-8 encoding of `c`.
pub open spec fn char_utf8_len(c: char) -> nat {
    let v = c as u32;
    if v < 0x80 {
        1
    } else if v < 0x800 {
        2
    } else if v < 0x10000 {
        3
    } else {
        4
    }
}

/// Number of bytes in the UTF-8 encoding of the character sequence `s`.
pub open spec fn utf8_len(s: Seq<char>) -> nat
    decreases s.len(),
{
    if s.len() == 0 {
        0
    } else {
        char_utf8_len(s[0]) + utf8_len(s.drop_first())
    }
}

/// UTF-8 lengths add up over concatenation.
pub proof fn lemma_utf8_len_concat(a: Seq<char>, b: Seq<char>)
    ensures
        utf8_len(a + b) == utf8_len(a) + utf8_len(b),
    decreases a.len(),
{
    if a.len() == 0 {
        assert(a + b =~= b);
    } else {
        assert((a + b).drop_first() =~= a.drop_first() + b);
        lemma_utf8_len_concat(a.drop_first(), b);
    }
}

/// Extending a prefix by one character adds that character's length.
pub proof fn lemma_utf8_len_take_step(s: Seq<char>, i: int)
    requires
        0 <= i < s.len(),
    ensures
        utf8_len(s.take(i + 1)) == utf8_len(s.take(i)) + char_utf8_len(s[i]),
{
    assert(s.take(i + 1) =~= s.take(i) + seq![s[i]]);
    lemma_utf8_len_concat(s.take(i), seq![s[i]]);
    let x = seq![s[i]];
    assert(x.drop_first() =~= Seq::<char>::empty());
    assert(utf8_len(Seq::<char>::empty()) == 0);
    assert(utf8_len(x) == char_utf8_len(x[0]) + utf8_len(x.drop_first()));
}

/// UTF-8 length grows with the prefix.
pub proof fn lemma_utf8_len_take_mono(s: Seq<char>, i: int, j: int)
    requires
        0 <= i <= j <= s.len(),
    ensures
        utf8_len(s.take(i)) <= utf8_len(s.take(j)),
        i < j ==> utf8_len(s.take(i)) < utf8_len(s.take(j)),
    decreases j - i,
{
    if i < j {
        lemma_utf8_len_take_step(s, j - 1);
        lemma_utf8_len_take_mono(s, i, j - 1);
    }
}

/// The length of a prefix is at most the length of the whole sequence.
pub proof fn lemma_utf8_len_take_le(s: Seq<char>, i: int)
    requires
        0 <= i <= s.len(),
    ensures
        utf8_len(s.take(i)) <= utf8_len(s),
{
    lemma_utf8_len_take_mono(s, i, s.len() as int);
    assert(s.take(s.len() as int) =~= s);
}

/// Every character takes at least one byte.
pub proof fn lemma_utf8_len_ge_len(s: Seq<char>)
    ensures
        utf8_len(s) >= s.len(),
    decreases s.len(),
{
    if s.len() > 0 {
        lemma_utf8_len_ge_len(s.drop_first());
    }
}

/// An ASCII sequence takes exactly one byte per character.
pub proof fn lemma_utf8_len_ascii(s: Seq<char>)
    requires
        is_ascii_chars(s),
    ensures
        utf8_len(s) == s.len(),
    decreases s.len(),
{
    if s.len() > 0 {
        assert(is_ascii_chars(s.drop_first()));
        lemma_utf8_len_ascii(s.drop_first());
    }
}

/// `utf8_len` agrees with the length of vstd's `encode_utf8`.
pub proof fn lemma_utf8_len_encode(s: Seq<char>)
    ensures
        encode_utf8(s).len() == utf8_len(s),
    decreases s.len(),
{
    if s.len() > 0 {
        let v = s[0] as u32;
        char_is_scalar(s[0]);
        assert(is_scalar(v));
        assert(encode_scalar(v).len() == char_utf8_len(s[0]));
        lemma_utf8_len_encode(s.drop_first());
    }
}

/// The UTF-8 length of a string slice is its byte length.
pub proof fn lemma_str_len(s: &str)
    ensures
        s.spec_bytes().len() == utf8_len(s@),
{
    lemma_utf8_len_encode(s@);
}

/// Number of bytes in the UTF-8 encoding of `c`.
pub fn char_len_utf8(c: char) -> (n: usize)
    ensures
        n == char_utf8_len(c),
        1 <= n <= 4,
{
    let v: u32 = c as u32;
    if v < 0x80 {
        1
    } else if v < 0x800 {
        2
    } else if v < 0x10000 {
        3
    } else {
        4
    }
}

// ---------------------------------------------------------------------------
// Conversions between strings and character vectors
// ---------------------------------------------------------------------------

/// The characters of `s`, in order (`str::chars` collected into a `Vec`).
/// Also claimed: their UTF-8 length, the byte length of `s`, is at most
/// `isize::MAX` (std guarantees that no slice exceeds `isize::MAX` bytes).
#[verifier::external_body]
pub fn str_to_chars(s: &str) -> (res: Vec<char>)
    ensures
        res@ == s@,
        utf8_len(res@) <= isize::MAX,
{
    s.chars().collect()
}

/// The byte length of `s` (`str::len`). Also claimed: it is at most
/// `isize::MAX` (std guarantees that no slice exceeds `isize::MAX` bytes).
#[verifier::external_body]
pub fn str_byte_len(s: &str) -> (n: usize)
    ensures
        n == utf8_len(s@),
        n <= isize::MAX,
{
    s.len()
}

/// The string made of the characters `cs`, in order (`String: FromIterator<char>`).
#[verifier::external_body]
pub fn chars_to_string(cs: &[char]) -> (res: String)
    ensures
        res@ == cs@,
{
    cs.iter().collect()
}

/// A copy of `s` as an owned string.
pub fn str_to_string(s: &str) -> (res: String)
    ensures
        res@ == s@,
{
    s.to_owned()
}

/// Byte offset of character index `k` in `cs`, i.e. the byte length of `cs[..k]`.
pub fn byte_offset_of(cs: &[char], k: usize) -> (n: usize)
    requires
        k <= cs@.len(),
        utf8_len(cs@) <= usize::MAX,
    ensures
        n == utf8_len(cs@.take(k as int)),
{
    let mut n: usize = 0;
    let mut i: usize = 0;
    while i < k
        invariant
            i <= k <= cs@.len(),
            utf8_len(cs@) <= usize::MAX,
            n == utf8_len(cs@.take(i as int)),
        decreases k - i,
    {
        proof {
            lemma_utf8_len_take_step(cs@, i as int);
            lemma_utf8_len_take_le(cs@, i + 1);
        }
        n = n + char_len_utf8(cs[i]);
        i = i + 1;
    }
    n
}

// ---------------------------------------------------------------------------
// Case folding
// ---------------------------------------------------------------------------

/// The Unicode lowercase mapping of one character, as `char::to_lowercase` yields it.
pub uninterp spec fn char_lowercase(c: char) -> Seq<char>;

/// The lowercase mapping of a whole string, as `str::to_lowercase` computes it.
pub uninterp spec fn str_lowercase(s: Seq<char>) -> Seq<char>;

/// Calls `char::to_lowercase` and collects the characters it yields.
/// Claimed: the result is `char_lowercase(c)`, and it holds at least one
/// character (std documents that the iterator yields "one or more" chars).
/// Which characters it holds is not stated beyond the name.
#[verifier::external_body]
pub fn char_to_lowercase(c: char) -> (res: Vec<char>)
    ensures
        res@ == char_lowercase(c),
        res@.len() >= 1,
{
    c.to_lowercase().collect()
}

/// Calls `str::to_lowercase`. Claimed: the result is `str_lowercase(s)`,
/// and it has at least as many characters as `s` (each character maps to
/// "one or more" characters, as `char::to_lowercase` documents). Which
/// characters it holds is not stated beyond the name.
#[verifier::external_body]
pub fn str_to_lowercase(s: &str) -> (res: String)
    ensures
        res@ == str_lowercase(s@),
        res@.len() >= s@.len(),
{
    s.to_lowercase()
}

/// ASCII lowercase of a byte (`u8::to_ascii_lowercase`).
pub open spec fn ascii_lower(b: u8) -> u8 {
    if 65 <= b <= 90 {
        (b + 32) as u8
    } else {
        b
    }
}

/// ASCII uppercase of a byte (`u8::to_ascii_uppercase`).
pub open spec fn ascii_upper(b: u8) -> u8 {
    if 97 <= b <= 122 {
        (b - 32) as u8
    } else {
        b
    }
}

/// ASCII lowercase of a byte.
pub fn to_ascii_lower(b: u8) -> (r: u8)
    ensures
        r == ascii_lower(b),
{
    if 65 <= b && b <= 90 {
        b + 32
    } else {
        b
    }
}

/// ASCII uppercase of a byte.
pub fn to_ascii_upper(b: u8) -> (r: u8)
    ensures
        r == ascii_upper(b),
{
    if 97 <= b && b <= 122 {
        b - 32
    } else {
        b
    }
}

/// ASCII lowercase of a character (`char::to_ascii_lowercase`).
pub open spec fn ascii_lower_char(c: char) -> char {
    if 'A' <= c <= 'Z' {
        ((c as u32) + 32) as char
    } else {
        c
    }
}

/// True when the two character sequences are equal ignoring ASCII case
/// (`str::eq_ignore_ascii_case`).
pub open spec fn eq_ignore_ascii_case(a: Seq<char>, b: Seq<char>) -> bool {
    a.len() == b.len() && forall|i: int|
        0 <= i < a.len() ==> ascii_lower_char(#[trigger] a[i]) == ascii_lower_char(b[i])
}

/// ASCII lowercase of a character.
pub fn to_ascii_lower_char(c: char) -> (r: char)
    ensures
        r == ascii_lower_char(c),
{
    if 'A' <= c && c <= 'Z' {
        let v: u32 = (c as u32) + 32;
        proof {
            assert(is_scalar(v));
        }
        char_from_u32_scalar(v)
    } else {
        c
    }
}

/// Converts a scalar value in the ASCII range back to its character.
fn char_from_u32_scalar(v: u32) -> (c: char)
    requires
        v < 0x80,
    ensures
        c == v as char,
{
    let b: u8 = v as u8;
    b as char
}

/// Compares two character slices ignoring ASCII case.
pub fn chars_eq_ignore_ascii_case(a: &[char], b: &[char]) -> (r: bool)
    ensures
        r == eq_ignore_ascii_case(a@, b@),
{
    if a.len() != b.len() {
        return false;
    }
    let mut i: usize = 0;
    while i < a.len()
        invariant
            a@.len() == b@.len(),
            i <= a@.len(),
            forall|k: int| 0 <= k < i ==> ascii_lower_char(#[trigger] a@[k]) == ascii_lower_char(b@[k]),
        decreases a@.len() - i,
    {
        if to_ascii_lower_char(a[i]) != to_ascii_lower_char(b[i]) {
            return false;
        }
        i = i + 1;
    }
    true
}

// ---------------------------------------------------------------------------
// Whitespace and trimming
// ---------------------------------------------------------------------------

/// Unicode `White_Space` characters, as `char::is_whitespace` defines them.
pub open spec fn is_whitespace(c: char) -> bool {
    let v = c as u32;
    ||| 0x09 <= v <= 0x0D
    ||| v == 0x20
    ||| v == 0x85
    ||| v == 0xA0
    ||| v == 0x1680
    ||| 0x2000 <= v <= 0x200A
    ||| v == 0x2028
    ||| v == 0x2029
    ||| v == 0x202F
    ||| v == 0x205F
    ||| v == 0x3000
}

/// Whether `c` is Unicode white space.
pub fn char_is_whitespace(c: char) -> (r: bool)
    ensures
        r == is_whitespace(c),
{
    let v: u32 = c as u32;
    (0x09 <= v && v <= 0x0D) || v == 0x20 || v == 0x85 || v == 0xA0 || v == 0x1680 || (0x2000 <= v
        && v <= 0x200A) || v == 0x2028 || v == 0x2029 || v == 0x202F || v == 0x205F || v == 0x3000
}

/// Number of leading white-space characters of `s`.
pub open spec fn leading_ws(s: Seq<char>) -> int {
    match first_index(|i: int| !is_whitespace(s[i]), 0, s.len() as int) {
        Some(i) => i,
        None => s.len() as int,
    }
}

/// `s` with leading and trailing white space removed (`str::trim`).
pub open spec fn trim(s: Seq<char>) -> Seq<char> {
    let a = leading_ws(s);
    let rest = s.skip(a);
    let b = leading_ws(rest.reverse());
    rest.take(rest.len() - b)
}

/// `s` with leading white space removed (`str::trim_start`).
pub open spec fn trim_start(s: Seq<char>) -> Seq<char> {
    s.skip(leading_ws(s))
}

pub proof fn lemma_leading_ws(s: Seq<char>)
    ensures
        0 <= leading_ws(s) <= s.len(),
        forall|k: int| 0 <= k < leading_ws(s) ==> is_whitespace(#[trigger] s[k]),
        leading_ws(s) < s.len() ==> !is_whitespace(s[leading_ws(s)]),
{
    let p = |i: int| !is_whitespace(s[i]);
    lemma_first_index(p, 0, s.len() as int);
    assert forall|k: int| 0 <= k < leading_ws(s) implies is_whitespace(#[trigger] s[k]) by {
        assert(!p(k));
    }
}

/// Counts leading white space of a character slice.
fn count_leading_ws(cs: &[char]) -> (n: usize)
    ensures
        n == leading_ws(cs@),
{
    let ghost p = |i: int| !is_whitespace(cs@[i]);
    let mut i: usize = 0;
    while i < cs.len()
        invariant
            i <= cs@.len(),
            p == (|i: int| !is_whitespace(cs@[i])),
            first_index(p, 0, cs@.len() as int) == first_index(p, i as int, cs@.len() as int),
        decreases cs@.len() - i,
    {
        if !char_is_whitespace(cs[i]) {
            assert(first_index(p, i as int, cs@.len() as int) == Some(i as int));
            return i;
        }
        i = i + 1;
    }
    i
}

/// Counts trailing white space of a character slice, looking no further
/// left than index `lo`.
fn count_trailing_ws(cs: &[char], lo: usize) -> (n: usize)
    requires
        lo <= cs@.len(),
    ensures
        n == leading_ws(cs@.skip(lo as int).reverse()),
{
    let ghost r = cs@.skip(lo as int).reverse();
    let ghost p = |i: int| !is_whitespace(r[i]);
    let mut n: usize = 0;
    while n < cs.len() - lo
        invariant
            lo <= cs@.len(),
            n <= cs@.len() - lo,
            r == cs@.skip(lo as int).reverse(),
            r.len() == cs@.len() - lo,
            p == (|i: int| !is_whitespace(r[i])),
            first_index(p, 0, r.len() as int) == first_index(p, n as int, r.len() as int),
        decreases cs@.len() - lo - n,
    {
        assert(r[n as int] == cs@[cs@.len() - 1 - n]);
        if !char_is_whitespace(cs[cs.len() - 1 - n]) {
            assert(first_index(p, n as int, r.len() as int) == Some(n as int));
            return n;
        }
        n = n + 1;
    }
    n
}

/// The bounds `[a, b)` of `trim(cs)` inside `cs`.
pub fn trim_bounds(cs: &[char]) -> (r: (usize, usize))
    ensures
        r.0 <= r.1 <= cs@.len(),
        cs@.subrange(r.0 as int, r.1 as int) == trim(cs@),
        r.0 == leading_ws(cs@),
{
    let a = count_leading_ws(cs);
    proof {
        lemma_leading_ws(cs@);
    }
    let b = count_trailing_ws(cs, a);
    proof {
        lemma_leading_ws(cs@.skip(a as int).reverse());
        assert(cs@.skip(a as int).take(cs@.len() - a - b) =~= cs@.subrange(
            a as int,
            cs@.len() - b,
        ));
    }
    (a, cs.len() - b)
}

/// `cs` with leading and trailing white space removed.
pub fn trim_chars(cs: &[char]) -> (res: Vec<char>)
    ensures
        res@ == trim(cs@),
{
    let (a, b) = trim_bounds(cs);
    slice_range_to_vec(cs, a, b)
}

/// Copies `cs[a..b]` into a new vector.
pub fn slice_range_to_vec<T: Copy>(cs: &[T], a: usize, b: usize) -> (res: Vec<T>)
    requires
        a <= b <= cs@.len(),
    ensures
        res@ == cs@.subrange(a as int, b as int),
{
    let mut out: Vec<T> = Vec::new();
    let mut i: usize = a;
    while i < b
        invariant
            a <= i <= b <= cs@.len(),
            out@ == cs@.subrange(a as int, i as int),
        decreases b - i,
    {
        out.push(cs[i]);
        proof {
            assert(cs@.subrange(a as int, i + 1) =~= cs@.subrange(a as int, i as int).push(
                cs@[i as int],
            ));
        }
        i = i + 1;
    }
    out
}

/// `s` with leading and trailing white space removed (`str::trim`).
pub fn trim_str(s: &str) -> (res: String)
    ensures
        res@ == trim(s@),
{
    let cs = str_to_chars(s);
    let t = trim_chars(cs.as_slice());
    chars_to_string(t.as_slice())
}

// ---------------------------------------------------------------------------
// Line splitting
// ---------------------------------------------------------------------------

/// Index of the first `'\n'` in `s`, if any.
pub open spec fn first_newline(s: Seq<char>) -> Option<int> {
    first_index(|i: int| s[i] == '\n', 0, s.len() as int)
}

/// The lines of `s` as `str::lines` yields them: split after each `'\n'`,
/// a `'\r'` directly before a `'\n'` is dropped with it, and a final line
/// terminator does not start an extra empty line.
pub open spec fn text_lines(s: Seq<char>) -> Seq<Seq<char>>
    decreases s.len(),
{
    if s.len() == 0 {
        seq![]
    } else {
        match first_newline(s) {
            Some(k) => {
                let piece = s.take(k);
                let line = if k > 0 && piece[k - 1] == '\r' {
                    piece.take(k - 1)
                } else {
                    piece
                };
                if 0 <= k < s.len() {
                    seq![line] + text_lines(s.skip(k + 1))
                } else {
                    seq![]
                }
            },
            None => seq![s],
        }
    }
}

/// The lines of the character sequence `cs`, as `str::lines` yields them.
pub fn split_lines(cs: &[char]) -> (res: Vec<Vec<char>>)
    ensures
        res@.map_values(|l: Vec<char>| l@) == text_lines(cs@),
{
    let mut out: Vec<Vec<char>> = Vec::new();
    let mut start: usize = 0;
    let mut i: usize = 0;
    proof {
        assert(cs@.skip(0) =~= cs@);
        assert(out@.map_values(|l: Vec<char>| l@) =~= Seq::<Seq<char>>::empty());
        assert(Seq::<Seq<char>>::empty() + text_lines(cs@) =~= text_lines(cs@));
    }
    // Invariant: lines before `start` are in `out`; cs[start..i] holds no '\n'.
    while i < cs.len()
        invariant
            start <= i <= cs@.len(),
            forall|j: int| start <= j < i ==> cs@[j] != '\n',
            out@.map_values(|l: Vec<char>| l@) + text_lines(cs@.skip(start as int)) == text_lines(
                cs@,
            ),
        decreases cs@.len() - i,
    {
        if cs[i] == '\n' {
            let ghost rest = cs@.skip(start as int);
            let k = i - start;
            proof {
                lemma_first_index_unique(|j: int| rest[j] == '\n', 0, rest.len() as int, k as int);
                assert(rest.skip(k + 1) =~= cs@.skip(i + 1));
            }
            let end = if k > 0 && cs[i - 1] == '\r' {
                i - 1
            } else {
                i
            };
            let line = slice_range_to_vec(cs, start, end);
            proof {
                let piece = rest.take(k as int);
                if k > 0 && piece[k - 1] == '\r' {
                    assert(piece.take(k - 1) =~= line@);
                } else {
                    assert(piece =~= line@);
                }
            }
            let ghost before = out@.map_values(|l: Vec<char>| l@);
            out.push(line);
            proof {
                assert(out@.map_values(|l: Vec<char>| l@) =~= before.push(line@));
                assert(before.push(line@) + text_lines(cs@.skip(i + 1)) =~= before + (seq![line@]
                    + text_lines(cs@.skip(i + 1))));
            }
            start = i + 1;
        }
        i = i + 1;
    }
    if start < cs.len() {
        let ghost rest = cs@.skip(start as int);
        proof {
            lemma_first_index_none(|j: int| rest[j] == '\n', 0, rest.len() as int);
        }
        let line = slice_range_to_vec(cs, start, cs.len());
        let ghost before = out@.map_values(|l: Vec<char>| l@);
        out.push(line);
        proof {
            assert(line@ =~= rest);
            assert(out@.map_values(|l: Vec<char>| l@) =~= before + seq![line@]);
            assert(cs@.skip(cs@.len() as int) =~= Seq::<char>::empty());
        }
    } else {
        proof {
            assert(cs@.skip(start as int) =~= Seq::<char>::empty());
            assert(out@.map_values(|l: Vec<char>| l@) + Seq::<Seq<char>>::empty() =~= out@.map_values(|l: Vec<char>| l@));
        }
    }
    out
}

// ---------------------------------------------------------------------------
// Equality
// ---------------------------------------------------------------------------

/// Whether the character sequences `a` and `b` are equal.
pub fn chars_equal(a: &[char], b: &[char]) -> (r: bool)
    ensures
        r == (a@ == b@),
{
    if a.len() != b.len() {
        return false;
    }
    let mut i: usize = 0;
    while i < a.len()
        invariant
            a@.len() == b@.len(),
            i <= a@.len(),
            forall|k: int| 0 <= k < i ==> a@[k] == b@[k],
        decreases a@.len() - i,
    {
        if a[i] != b[i] {
            return false;
        }
        i = i + 1;
    }
    assert(a@ =~= b@);
    true
}

/// Whether the strings `a` and `b` hold the same characters (`str == str`).
pub fn str_eq(a: &str, b: &str) -> (r: bool)
    ensures
        r == (a@ == b@),
{
    let x = str_to_chars(a);
    let y = str_to_chars(b);
    chars_equal(x.as_slice(), y.as_slice())
}

// ---------------------------------------------------------------------------
// Decimal numbers
// ---------------------------------------------------------------------------

/// The character of the decimal digit `d` (`d < 10`).
pub open spec fn digit_char(d: nat) -> char {
    (48 + d) as char
}

/// The decimal representation of `n`, without leading zeros (`to_string`).
pub open spec fn decimal(n: nat) -> Seq<char>
    decreases n,
{
    if n < 10 {
        seq![digit_char(n)]
    } else {
        decimal(n / 10) + seq![digit_char(n % 10)]
    }
}

/// The character of the decimal digit `d`.
fn digit_to_char(d: usize) -> (c: char)
    requires
        d < 10,
    ensures
        c == digit_char(d as nat),
{
    let b: u8 = 48u8 + d as u8;
    b as char
}

/// The decimal representation of `n` (`usize::to_string`).
pub fn usize_to_decimal(n: usize) -> (res: String)
    ensures
        res@ == decimal(n as nat),
{
    u64_to_decimal(n as u64)
}

/// The decimal representation of `n` (`u64::to_string`).
pub fn u64_to_decimal(n: u64) -> (res: String)
    ensures
        res@ == decimal(n as nat),
{
    let mut suffix: Vec<char> = Vec::new();
    let mut m: u64 = n;
    while m >= 10
        invariant
            decimal(n as nat) == decimal(m as nat) + suffix@,
        decreases m,
    {
        let d = m % 10;
        let c = digit_to_char(d as usize);
        let ghost before = suffix@;
        suffix.insert(0, c);
        proof {
            assert(suffix@ =~= seq![c] + before);
            assert(decimal(m as nat) == decimal((m / 10) as nat) + seq![c]);
            assert(decimal((m / 10) as nat) + seq![c] + before =~= decimal((m / 10) as nat) + suffix@);
        }
        m = m / 10;
    }
    let c = digit_to_char(m as usize);
    suffix.insert(0, c);
    chars_to_string(suffix.as_slice())
}

/// The concatenation of `a` and `b`.
pub fn str_concat(a: &str, b: &str) -> (res: String)
    ensures
        res@ == a@ + b@,
{
    let mut cs = str_to_chars(a);
    let bs = str_to_chars(b);
    let ghost first = cs@;
    let mut i: usize = 0;
    while i < bs.len()
        invariant
            i <= bs@.len(),
            cs@ == first + bs@.take(i as int),
        decreases bs@.len() - i,
    {
        cs.push(bs[i]);
        proof {
            assert(bs@.take(i + 1) =~= bs@.take(i as int).push(bs@[i as int]));
        }
        i = i + 1;
    }
    assert(bs@.take(bs@.len() as int) =~= bs@);
    chars_to_string(cs.as_slice())
}

// ---------------------------------------------------------------------------
// UTF-16
// ---------------------------------------------------------------------------

/// A UTF-16 leading (high) surrogate.
pub open spec fn is_high_surrogate(u: u16) -> bool {
    0xD800 <= u <= 0xDBFF
}

/// A UTF-16 trailing (low) surrogate.
pub open spec fn is_low_surrogate(u: u16) -> bool {
    0xDC00 <= u <= 0xDFFF
}

/// The character that a surrogate pair encodes.
pub open spec fn surrogate_pair_char(hi: u16, lo: u16) -> char {
    (0x10000 + (hi - 0xD800) * 0x400 + (lo - 0xDC00)) as char
}

/// The UTF-16 decoding of `units`: a unit that is no surrogate is the
/// character of that value, a leading surrogate followed by a trailing one
/// is the character the pair encodes; `None` when any other surrogate occurs.
pub open spec fn utf16_decoded(units: Seq<u16>) -> Option<Seq<char>>
    decreases units.len(),
{
    if units.len() == 0 {
        Some(seq![])
    } else if !is_high_surrogate(units[0]) && !is_low_surrogate(units[0]) {
        match utf16_decoded(units.skip(1)) {
            Some(r) => Some(seq![units[0] as char] + r),
            None => None,
        }
    } else if is_high_surrogate(units[0]) && units.len() >= 2 && is_low_surrogate(units[1]) {
        match utf16_decoded(units.skip(2)) {
            Some(r) => Some(seq![surrogate_pair_char(units[0], units[1])] + r),
            None => None,
        }
    } else {
        None
    }
}

/// The lossy UTF-16 decoding of `units`: as `utf16_decoded`, with each
/// surrogate that is not part of a pair decoded as U+FFFD.
pub open spec fn utf16_lossy(units: Seq<u16>) -> Seq<char>
    decreases units.len(),
{
    if units.len() == 0 {
        seq![]
    } else if !is_high_surrogate(units[0]) && !is_low_surrogate(units[0]) {
        seq![units[0] as char] + utf16_lossy(units.skip(1))
    } else if is_high_surrogate(units[0]) && units.len() >= 2 && is_low_surrogate(units[1]) {
        seq![surrogate_pair_char(units[0], units[1])] + utf16_lossy(units.skip(2))
    } else {
        seq!['\u{FFFD}'] + utf16_lossy(units.skip(1))
    }
}

/// Calls `String::from_utf16`. Claimed (std documents it as decoding UTF-16,
/// returning an error "if `v` contains any invalid data", and
/// `char::decode_utf16` pairs surrogates as above): the result is
/// `utf16_decoded(units)`.
#[verifier::external_body]
pub fn utf16_to_string(units: &[u16]) -> (res: Option<String>)
    ensures
        match res {
            Some(s) => utf16_decoded(units@) == Some(s@),
            None => utf16_decoded(units@) is None,
        },
{
    String::from_utf16(units).ok()
}

/// Calls `String::from_utf16_lossy`. Claimed (std documents it as decoding
/// UTF-16 "replacing invalid data with the replacement character (U+FFFD)",
/// one for each unpaired surrogate as `char::decode_utf16` reports them):
/// the result is `utf16_lossy(units)`.
#[verifier::external_body]
pub fn utf16_to_string_lossy(units: &[u16]) -> (res: String)
    ensures
        res@ == utf16_lossy(units@),
{
    String::from_utf16_lossy(units)
}

/// Index of the first NUL unit of `units`, if any.
pub open spec fn first_nul(units: Seq<u16>) -> Option<int> {
    first_index(|i: int| units[i] == 0u16, 0, units.len() as int)
}

/// The part of `units` before its first NUL (all of it when there is none).
pub open spec fn before_nul(units: Seq<u16>) -> Seq<u16> {
    match first_nul(units) {
        Some(k) => units.take(k),
        None => units,
    }
}

/// Index of the first NUL unit of `units` at or after `from`, or the length.
pub fn find_nul(units: &[u16], from: usize) -> (k: usize)
    requires
        from <= units@.len(),
    ensures
        from <= k <= units@.len(),
        forall|j: int| from <= j < k ==> units@[j] != 0u16,
        k < units@.len() ==> units@[k as int] == 0u16,
{
    let mut k: usize = from;
    while k < units.len()
        invariant
            from <= k <= units@.len(),
            forall|j: int| from <= j < k ==> units@[j] != 0u16,
        decreases units@.len() - k,
    {
        if units[k] == 0 {
            return k;
        }
        k = k + 1;
    }
    k
}

/// The text of a NUL-terminated UTF-16 buffer: the units before the first
/// NUL, decoded with invalid units replaced.
pub fn wide_to_string(buf: &[u16]) -> (res: String)
    ensures
        res@ == utf16_lossy(before_nul(buf@)),
{
    let k = find_nul(buf, 0);
    let ghost p = |i: int| buf@[i] == 0u16;
    proof {
        if k < buf@.len() {
            lemma_first_index_unique(p, 0, buf@.len() as int, k as int);
        } else {
            lemma_first_index_none(p, 0, buf@.len() as int);
        }
    }
    let part = vstd::slice::slice_subrange(buf, 0, k);
    proof {
        if k == buf@.len() {
            assert(part@ =~= buf@);
        } else {
            assert(part@ =~= buf@.take(k as int));
        }
    }
    utf16_to_string_lossy(part)
}

} // verus!
