//! The settings dialog's choices: font families and sizes read from its
//! lists, and the font actually built from a family and size.

use vstd::prelude::*;
use crate::config::{
    DEFAULT_LIST_FONT_FAMILY, DEFAULT_LIST_FONT_SIZE, DEFAULT_UI_FONT_FAMILY, DEFAULT_UI_FONT_SIZE,
};
use crate::text::{str_to_chars, str_to_string, trim, trim_str};

verus! {

/// Smallest font size used.
pub const MIN_FONT_SIZE: u32 = 10;
/// Largest font size used.
pub const MAX_FONT_SIZE: u32 = 28;

/// `c` is a decimal digit.
pub open spec fn is_digit(c: char) -> bool {
    '0' <= c <= '9'
}

/// The value of the decimal digits `s`.
pub open spec fn digits_value(s: Seq<char>) -> nat
    decreases s.len(),
{
    if s.len() == 0 {
        0
    } else {
        digits_value(s.drop_last()) * 10 + ((s.last() as u32) - 48) as nat
    }
}

/// `s` without a leading `+`.
pub open spec fn unsigned_body(s: Seq<char>) -> Seq<char> {
    if s.len() > 0 && s[0] == '+' {
        s.drop_first()
    } else {
        s
    }
}

/// What `str::parse::<u32>` gives for `s`: an optional `+`, then one or
/// more decimal digits whose value fits in `u32`; anything else fails.
pub open spec fn parse_u32_spec(s: Seq<char>) -> Option<u32> {
    let body = unsigned_body(s);
    if body.len() > 0 && (forall|i: int| 0 <= i < body.len() ==> is_digit(#[trigger] body[i]))
        && digits_value(body) <= u32::MAX {
        Some(digits_value(body) as u32)
    } else {
        None
    }
}

/// Parses a decimal `u32` (`str::parse::<u32>`).
pub fn parse_u32(s: &str) -> (res: Option<u32>)
    ensures
        res == parse_u32_spec(s@),
{
    let cs = str_to_chars(s);
    let start: usize = if cs.len() > 0 && cs[0] == '+' {
        1
    } else {
        0
    };
    let ghost body = cs@.skip(start as int);
    proof {
        if start == 1 {
            assert(body =~= cs@.drop_first());
        } else {
            assert(body =~= cs@);
        }
    }
    if start >= cs.len() {
        return None;
    }
    let mut value: u64 = 0;
    let mut i: usize = start;
    proof {
        assert(body.take(0) =~= Seq::<char>::empty());
    }
    while i < cs.len()
        invariant
            start <= i <= cs@.len(),
            start < cs@.len(),
            cs@ == s@,
            body == cs@.skip(start as int),
            body == unsigned_body(s@),
            forall|k: int| 0 <= k < i - start ==> is_digit(#[trigger] body[k]),
            value == digits_value(body.take(i - start)),
            value <= u32::MAX,
        decreases cs@.len() - i,
    {
        let c = cs[i];
        assert(body[i - start] == c);
        if !('0' <= c && c <= '9') {
            assert(!is_digit(body[i - start]));
            return None;
        }
        let d = (c as u32 - 48) as u64;
        proof {
            assert(body.take(i - start + 1).drop_last() =~= body.take(i - start));
            assert(body.take(i - start + 1).last() == c);
        }
        if value > (u32::MAX as u64 - d) / 10 {
            proof {
                assert(value * 10 + d > u32::MAX) by (nonlinear_arith)
                    requires
                        value > (u32::MAX - d) / 10,
                        0 <= d <= 9,
                ;
                assert(digits_value(body.take(i - start + 1)) == value * 10 + d);
                if forall|k: int| 0 <= k < body.len() ==> is_digit(#[trigger] body[k]) {
                    lemma_digits_value_prefix(body, i - start + 1);
                }
            }
            return None;
        }
        value = value * 10 + d;
        i = i + 1;
    }
    proof {
        assert(body.take(cs@.len() - start) =~= body);
    }
    Some(value as u32)
}

/// The value of a longer run of digits is at least that of its prefix.
proof fn lemma_digits_value_prefix(s: Seq<char>, k: int)
    requires
        0 <= k <= s.len(),
        forall|i: int| 0 <= i < s.len() ==> is_digit(#[trigger] s[i]),
    ensures
        digits_value(s.take(k)) <= digits_value(s),
    decreases s.len() - k,
{
    if k < s.len() {
        lemma_digits_value_prefix(s, k + 1);
        let t = s.take(k + 1);
        assert(t.drop_last() =~= s.take(k));
        assert(is_digit(s[k]));
    } else {
        assert(s.take(k) =~= s);
    }
}

/// `v` within `[MIN_FONT_SIZE, MAX_FONT_SIZE]`.
pub open spec fn clamp_font_size(v: u32) -> u32 {
    if v < MIN_FONT_SIZE {
        MIN_FONT_SIZE
    } else if v > MAX_FONT_SIZE {
        MAX_FONT_SIZE
    } else {
        v
    }
}

/// The font size of a size-list selection: the selected number, or
/// `default` when nothing is selected or it is not a number, kept within
/// 10 to 28.
pub fn font_size_from_selection(selection: Option<&str>, default: u32) -> (res: u32)
    ensures
        res == clamp_font_size(
            match selection {
                Some(s) => match parse_u32_spec(s@) {
                    Some(v) => v,
                    None => default,
                },
                None => default,
            },
        ),
{
    let v = match selection {
        Some(s) => match parse_u32(s) {
            Some(v) => v,
            None => default,
        },
        None => default,
    };
    if v < MIN_FONT_SIZE {
        MIN_FONT_SIZE
    } else if v > MAX_FONT_SIZE {
        MAX_FONT_SIZE
    } else {
        v
    }
}

/// The UI font size of the size-list selection.
pub fn selected_font_size(selection: Option<&str>) -> (res: u32)
    ensures
        res == clamp_font_size(
            match selection {
                Some(s) => match parse_u32_spec(s@) {
                    Some(v) => v,
                    None => DEFAULT_UI_FONT_SIZE,
                },
                None => DEFAULT_UI_FONT_SIZE,
            },
        ),
{
    font_size_from_selection(selection, DEFAULT_UI_FONT_SIZE)
}

/// The result-list font size of the size-list selection.
pub fn selected_list_font_size(selection: Option<&str>) -> (res: u32)
    ensures
        res == clamp_font_size(
            match selection {
                Some(s) => match parse_u32_spec(s@) {
                    Some(v) => v,
                    None => DEFAULT_LIST_FONT_SIZE,
                },
                None => DEFAULT_LIST_FONT_SIZE,
            },
        ),
{
    font_size_from_selection(selection, DEFAULT_LIST_FONT_SIZE)
}

/// The UI font family of the family-list selection, or the default.
pub fn selected_font_family(selection: Option<String>) -> (res: String)
    ensures
        res@ == (match selection {
            Some(s) => s@,
            None => DEFAULT_UI_FONT_FAMILY@,
        }),
{
    match selection {
        Some(s) => s,
        None => str_to_string(DEFAULT_UI_FONT_FAMILY),
    }
}

/// The result-list font family of the family-list selection, or the default.
pub fn selected_list_font_family(selection: Option<String>) -> (res: String)
    ensures
        res@ == (match selection {
            Some(s) => s@,
            None => DEFAULT_LIST_FONT_FAMILY@,
        }),
{
    match selection {
        Some(s) => s,
        None => str_to_string(DEFAULT_LIST_FONT_FAMILY),
    }
}

/// The family and size a font is built with: the family trimmed, or
/// `fallback` when it is blank; the size kept within 10 to 28.
pub fn font_request(family: &str, size: u32, fallback: &str) -> (res: (String, u32))
    ensures
        res.0@ == (if trim(family@).len() == 0 { fallback@ } else { trim(family@) }),
        res.1 == clamp_font_size(size),
{
    let t = trim_str(family);
    let f = if t.as_str().is_empty() {
        str_to_string(fallback)
    } else {
        t
    };
    let s = if size < MIN_FONT_SIZE {
        MIN_FONT_SIZE
    } else if size > MAX_FONT_SIZE {
        MAX_FONT_SIZE
    } else {
        size
    };
    (f, s)
}

/// A font size from the settings: the configured size, or `default` when
/// the settings hold 0.
pub fn configured_font_size(configured: u32, default: u32) -> (res: u32)
    ensures
        res == (if configured == 0 { default } else { configured }),
{
    if configured == 0 {
        default
    } else {
        configured
    }
}

/// The list position of the configured font family: its first position
/// among `choices`, or 0 when it is not there.
pub fn font_family_index(choices: &[String], family: &str) -> (res: usize)
    ensures
        (exists|i: int| 0 <= i < choices@.len() && choices@[i]@ == family@) ==> (res < choices@.len()
            && choices@[res as int]@ == family@ && forall|j: int| 0 <= j < res ==> choices@[j]@ != family@),
        !(exists|i: int| 0 <= i < choices@.len() && choices@[i]@ == family@) ==> res == 0,
{
    let mut i: usize = 0;
    while i < choices.len()
        invariant
            i <= choices@.len(),
            forall|j: int| 0 <= j < i ==> choices@[j]@ != family@,
        decreases choices@.len() - i,
    {
        if crate::text::str_eq(choices[i].as_str(), family) {
            return i;
        }
        i = i + 1;
    }
    0
}

} // verus!
