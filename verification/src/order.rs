//! Stable sorting by a text-and-number key, as used to sort the result list
//! by a column and the folder tree by name.
//!
//! Texts compare character by character by code point (the order of `str`,
//! whose byte-wise comparison of UTF-8 agrees with it), a shorter text
//! before any longer text it starts. Keys compare by text, then by number.
//! Sorting is stable: items with equal keys keep their order.

use vstd::prelude::*;

verus! {

/// `a` comes before `b` in code-point order.
pub open spec fn chars_lt(a: Seq<char>, b: Seq<char>) -> bool
    decreases a.len(),
{
    if a.len() == 0 {
        b.len() > 0
    } else if b.len() == 0 {
        false
    } else if a[0] != b[0] {
        (a[0] as u32) < (b[0] as u32)
    } else {
        chars_lt(a.drop_first(), b.drop_first())
    }
}

proof fn lemma_chars_lt_irreflexive(a: Seq<char>)
    ensures
        !chars_lt(a, a),
    decreases a.len(),
{
    if a.len() > 0 {
        lemma_chars_lt_irreflexive(a.drop_first());
    }
}

proof fn lemma_chars_lt_transitive(a: Seq<char>, b: Seq<char>, c: Seq<char>)
    requires
        chars_lt(a, b),
        chars_lt(b, c),
    ensures
        chars_lt(a, c),
    decreases a.len(),
{
    if a.len() > 0 && b.len() > 0 && c.len() > 0 {
        if a[0] == b[0] && b[0] == c[0] {
            lemma_chars_lt_transitive(a.drop_first(), b.drop_first(), c.drop_first());
        }
    }
}

proof fn lemma_chars_lt_total(a: Seq<char>, b: Seq<char>)
    ensures
        a == b || chars_lt(a, b) || chars_lt(b, a),
    decreases a.len(),
{
    if a.len() > 0 && b.len() > 0 {
        if a[0] == b[0] {
            lemma_chars_lt_total(a.drop_first(), b.drop_first());
            if a.drop_first() == b.drop_first() {
                assert(a =~= seq![a[0]] + a.drop_first());
                assert(b =~= seq![b[0]] + b.drop_first());
            }
        } else {
            vstd::utf8::char_u32_cast(a[0], a[0] as u32);
            vstd::utf8::char_u32_cast(b[0], b[0] as u32);
        }
    } else if a.len() == 0 && b.len() == 0 {
        assert(a =~= b);
    }
}

/// Whether `a` comes before `b` in code-point order.
pub fn chars_less(a: &[char], b: &[char]) -> (r: bool)
    ensures
        r == chars_lt(a@, b@),
{
    let mut i: usize = 0;
    proof {
        assert(a@.skip(0) =~= a@);
        assert(b@.skip(0) =~= b@);
    }
    while i < a.len() && i < b.len()
        invariant
            i <= a@.len(),
            i <= b@.len(),
            chars_lt(a@, b@) == chars_lt(a@.skip(i as int), b@.skip(i as int)),
        decreases a@.len() - i,
    {
        let ghost sa = a@.skip(i as int);
        let ghost sb = b@.skip(i as int);
        assert(sa[0] == a@[i as int]);
        assert(sb[0] == b@[i as int]);
        if a[i] != b[i] {
            return (a[i] as u32) < (b[i] as u32);
        }
        assert(sa.drop_first() =~= a@.skip(i + 1));
        assert(sb.drop_first() =~= b@.skip(i + 1));
        i = i + 1;
    }
    a.len() == i && i < b.len()
}

/// A sort key: a text, then a number.
pub struct SortKey {
    pub text: Vec<char>,
    pub number: usize,
}

/// The plain contents of a sort key.
pub type KeyView = (Seq<char>, usize);

impl View for SortKey {
    type V = KeyView;

    open spec fn view(&self) -> KeyView {
        (self.text@, self.number)
    }
}

/// The views of a list of keys.
pub open spec fn key_views(keys: Seq<SortKey>) -> Seq<KeyView> {
    keys.map_values(|k: SortKey| k@)
}

/// `a` comes before `b`: by text, then by number.
pub open spec fn key_lt(a: KeyView, b: KeyView) -> bool {
    chars_lt(a.0, b.0) || (a.0 == b.0 && a.1 < b.1)
}

/// `a` is sorted before `b` in the given direction.
pub open spec fn goes_before(a: KeyView, b: KeyView, ascending: bool) -> bool {
    if ascending {
        key_lt(a, b)
    } else {
        key_lt(b, a)
    }
}

proof fn lemma_key_order(a: KeyView, b: KeyView, c: KeyView)
    ensures
        !key_lt(a, a),
        key_lt(a, b) && key_lt(b, c) ==> key_lt(a, c),
        a == b || key_lt(a, b) || key_lt(b, a),
{
    lemma_chars_lt_irreflexive(a.0);
    lemma_chars_lt_total(a.0, b.0);
    if key_lt(a, b) && key_lt(b, c) {
        if chars_lt(a.0, b.0) && chars_lt(b.0, c.0) {
            lemma_chars_lt_transitive(a.0, b.0, c.0);
        }
    }
    if a.0 == b.0 && a.1 == b.1 {
        assert(a == b);
    }
}

/// `p` lists the indices of `keys` in stable sorted order: each index once,
/// no key after one it goes before, and indices of equal keys in increasing
/// order.
pub open spec fn is_stable_order(keys: Seq<KeyView>, ascending: bool, p: Seq<usize>) -> bool {
    &&& p.len() == keys.len()
    &&& forall|i: int| 0 <= i < p.len() ==> #[trigger] p[i] < keys.len()
    &&& forall|i: int, j: int| 0 <= i < j < p.len() ==> #[trigger] p[i] != #[trigger] p[j]
    &&& forall|i: int, j: int|
        0 <= i < j < p.len() ==> !goes_before(keys[#[trigger] p[j] as int], keys[#[trigger] p[i] as int], ascending)
    &&& forall|i: int, j: int|
        0 <= i < j < p.len() && keys[#[trigger] p[i] as int] == keys[#[trigger] p[j] as int] ==> p[i] < p[j]
}

/// Whether key `a` is sorted before key `b`.
pub fn key_goes_before(a: &SortKey, b: &SortKey, ascending: bool) -> (r: bool)
    ensures
        r == goes_before(a@, b@, ascending),
{
    let (x, y) = if ascending {
        (a, b)
    } else {
        (b, a)
    };
    if chars_less(x.text.as_slice(), y.text.as_slice()) {
        true
    } else if crate::text::chars_equal(x.text.as_slice(), y.text.as_slice()) {
        x.number < y.number
    } else {
        false
    }
}

/// The stable sorted order of `keys`: the indices of the keys, smallest key
/// first (largest first when not `ascending`), equal keys in their order.
pub fn stable_order(keys: &[SortKey], ascending: bool) -> (p: Vec<usize>)
    ensures
        is_stable_order(key_views(keys@), ascending, p@),
{
    let ghost kv = key_views(keys@);
    let mut out: Vec<usize> = Vec::new();
    let mut i: usize = 0;
    while i < keys.len()
        invariant
            i <= keys@.len(),
            kv == key_views(keys@),
            kv.len() == keys@.len(),
            out@.len() == i,
            forall|a: int| 0 <= a < out@.len() ==> #[trigger] out@[a] < i,
            forall|a: int, b: int| 0 <= a < b < out@.len() ==> #[trigger] out@[a] != #[trigger] out@[b],
            forall|a: int, b: int|
                0 <= a < b < out@.len() ==> !goes_before(kv[#[trigger] out@[b] as int], kv[#[trigger] out@[a] as int], ascending),
            forall|a: int, b: int|
                0 <= a < b < out@.len() && kv[#[trigger] out@[a] as int] == kv[#[trigger] out@[b] as int] ==> out@[a] < out@[b],
        decreases keys@.len() - i,
    {
        let ghost x = kv[i as int];
        assert(keys@[i as int]@ == x);
        let mut pos: usize = 0;
        while pos < out.len() && !key_goes_before(&keys[i], &keys[out[pos]], ascending)
            invariant
                i < keys@.len(),
                kv == key_views(keys@),
                kv.len() == keys@.len(),
                x == kv[i as int],
                pos <= out@.len(),
                forall|a: int| 0 <= a < out@.len() ==> #[trigger] out@[a] < i,
                forall|a: int| 0 <= a < pos ==> !goes_before(x, kv[#[trigger] out@[a] as int], ascending),
            decreases out@.len() - pos,
        {
            assert(keys@[out@[pos as int] as int]@ == kv[out@[pos as int] as int]);
            pos = pos + 1;
        }
        proof {
            if pos < out@.len() {
                assert(keys@[out@[pos as int] as int]@ == kv[out@[pos as int] as int]);
                assert(goes_before(x, kv[out@[pos as int] as int], ascending));
            }
        }
        let ghost before = out@;
        out.insert(pos, i);
        proof {
            assert(out@ =~= before.take(pos as int).push(i) + before.skip(pos as int));
            assert forall|a: int| 0 <= a < out@.len() implies #[trigger] out@[a] < i + 1 by {
                if a < pos {
                    assert(out@[a] == before[a]);
                } else if a > pos {
                    assert(out@[a] == before[a - 1]);
                }
            }
            assert forall|a: int, b: int| 0 <= a < b < out@.len() implies #[trigger] out@[a] != #[trigger] out@[b] by {
                if a < pos {
                    assert(out@[a] == before[a]);
                }
                if a > pos {
                    assert(out@[a] == before[a - 1]);
                }
                if b < pos {
                    assert(out@[b] == before[b]);
                }
                if b > pos {
                    assert(out@[b] == before[b - 1]);
                }
            }
            assert forall|a: int, b: int|
                0 <= a < b < out@.len() implies !goes_before(kv[#[trigger] out@[b] as int], kv[#[trigger] out@[a] as int], ascending)
                    && (kv[out@[a] as int] == kv[out@[b] as int] ==> out@[a] < out@[b]) by {
                let ka = kv[out@[a] as int];
                let kb = kv[out@[b] as int];
                if a == pos {
                    // b comes after the new key: it was at or after `pos`.
                    assert(out@[b] == before[b - 1]);
                    let kp = kv[before[pos as int] as int];
                    if b - 1 > pos {
                        assert(!goes_before(kv[before[b - 1] as int], kv[before[pos as int] as int], ascending));
                    }
                    lemma_key_order(x, kp, kb);
                    lemma_key_order(kb, kp, x);
                    lemma_key_order(kp, kb, x);
                    lemma_key_order(x, kb, kp);
                    lemma_key_order(kb, x, kp);
                    lemma_key_order(kp, x, kb);
                } else if b == pos {
                    assert(out@[a] == before[a]);
                    assert(!goes_before(x, ka, ascending));
                    assert(out@[a] < i);
                } else {
                    if a < pos {
                        assert(out@[a] == before[a]);
                    } else {
                        assert(out@[a] == before[a - 1]);
                    }
                    if b < pos {
                        assert(out@[b] == before[b]);
                    } else {
                        assert(out@[b] == before[b - 1]);
                    }
                }
            }
        }
        i = i + 1;
    }
    out
}

} // verus!
