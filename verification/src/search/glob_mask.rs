//! Simple file-name and directory-name masks (`*.rs;*.toml`, `src;!.git`).
//!
//! Each glob becomes a case-insensitive regex anchored at both ends, where
//! `*` is any run of characters and `?` any one character.

use vstd::prelude::*;
use crate::text::chars_to_string;
use crate::search::gitignore::{mask_parts, split_masks};
use crate::search::pattern::{regex_check, regex_compiles, regex_is_match, regex_matches};

verus! {

/// Regex metacharacters escaped when they appear in a mask glob.
pub open spec fn is_mask_meta(c: char) -> bool {
    c == '.' || c == '+' || c == '(' || c == ')' || c == '[' || c == ']' || c == '{' || c == '}'
        || c == '^' || c == '$' || c == '\\' || c == '|'
}

/// The regex text of one glob character.
pub open spec fn mask_char_regex(c: char) -> Seq<char> {
    if c == '*' {
        seq!['.', '*']
    } else if c == '?' {
        seq!['.']
    } else if is_mask_meta(c) {
        seq!['\\', c]
    } else {
        seq![c]
    }
}

/// The regex text of a glob body, character by character.
pub open spec fn mask_body(p: Seq<char>) -> Seq<char>
    decreases p.len(),
{
    if p.len() == 0 {
        seq![]
    } else {
        mask_char_regex(p[0]) + mask_body(p.drop_first())
    }
}

/// The anchored regex source of a mask glob.
pub open spec fn mask_regex(p: Seq<char>) -> Seq<char> {
    seq!['^'] + mask_body(p) + seq!['$']
}

proof fn lemma_mask_body_push(p: Seq<char>, c: char)
    ensures
        mask_body(p.push(c)) == mask_body(p) + mask_char_regex(c),
    decreases p.len(),
{
    if p.len() == 0 {
        assert(p.push(c).drop_first() =~= Seq::<char>::empty());
        assert(mask_body(p.push(c)) =~= mask_char_regex(c) + mask_body(Seq::<char>::empty()));
        assert(mask_body(p) + mask_char_regex(c) =~= mask_char_regex(c));
    } else {
        assert(p.push(c).drop_first() =~= p.drop_first().push(c));
        lemma_mask_body_push(p.drop_first(), c);
        assert(mask_body(p.push(c)) =~= mask_char_regex(p[0]) + (mask_body(p.drop_first())
            + mask_char_regex(c)));
    }
}

/// Translates a mask glob to the source of its anchored regex.
pub fn glob_to_regex(p: &[char]) -> (res: String)
    ensures
        res@ == mask_regex(p@),
{
    let mut out: Vec<char> = Vec::new();
    out.push('^');
    let mut i: usize = 0;
    while i < p.len()
        invariant
            i <= p@.len(),
            out@ == seq!['^'] + mask_body(p@.take(i as int)),
        decreases p@.len() - i,
    {
        let c = p[i];
        let ghost before = out@;
        if c == '*' {
            out.push('.');
            out.push('*');
        } else if c == '?' {
            out.push('.');
        } else if c == '.' || c == '+' || c == '(' || c == ')' || c == '[' || c == ']' || c == '{'
            || c == '}' || c == '^' || c == '$' || c == '\\' || c == '|' {
            out.push('\\');
            out.push(c);
        } else {
            out.push(c);
        }
        proof {
            assert(p@.take(i + 1) =~= p@.take(i as int).push(c));
            lemma_mask_body_push(p@.take(i as int), c);
            assert(out@ =~= before + mask_char_regex(c));
        }
        i = i + 1;
    }
    out.push('$');
    assert(p@.take(p@.len() as int) =~= p@);
    chars_to_string(out.as_slice())
}

/// File-name masks: the anchored regex sources of the globs.
pub struct FileMasks {
    patterns: Vec<String>,
}

/// Directory-name masks: include and exclude regex sources.
pub struct DirMaskSet {
    includes: Vec<String>,
    excludes: Vec<String>,
}

/// The regex sources of a list of regex-source strings.
pub open spec fn sources(v: Seq<String>) -> Seq<Seq<char>> {
    v.map_values(|s: String| s@)
}

/// Every regex source compiles case-insensitively.
pub open spec fn all_compile(v: Seq<Seq<char>>) -> bool {
    forall|i: int| 0 <= i < v.len() ==> regex_compiles(#[trigger] v[i], true)
}

impl FileMasks {
    /// The regex sources, in mask order.
    pub closed spec fn patterns_spec(&self) -> Seq<Seq<char>> {
        sources(self.patterns@)
    }

    /// All patterns compile.
    pub open spec fn wf(&self) -> bool {
        all_compile(self.patterns_spec())
    }
}

impl DirMaskSet {
    /// The include regex sources, in mask order.
    pub closed spec fn includes_spec(&self) -> Seq<Seq<char>> {
        sources(self.includes@)
    }

    /// The exclude regex sources, in mask order.
    pub closed spec fn excludes_spec(&self) -> Seq<Seq<char>> {
        sources(self.excludes@)
    }

    /// All patterns compile.
    pub open spec fn wf(&self) -> bool {
        all_compile(self.includes_spec()) && all_compile(self.excludes_spec())
    }

    /// Whether the walk may enter a directory named `name`: no exclude
    /// matches, and, when there are includes, one of them matches.
    pub fn allow_dir(&self, name: &str) -> (res: bool)
        requires
            self.wf(),
        ensures
            res == dir_name_allowed(self.includes_spec(), self.excludes_spec(), name@),
    {
        let ghost ex = self.excludes_spec();
        let ghost inc = self.includes_spec();
        let mut i: usize = 0;
        while i < self.excludes.len()
            invariant
                i <= self.excludes@.len(),
                ex == sources(self.excludes@),
                all_compile(ex),
                forall|j: int| 0 <= j < i ==> !regex_matches(#[trigger] ex[j], name@),
            decreases self.excludes@.len() - i,
        {
            proof {
                assert(ex[i as int] == self.excludes@[i as int]@);
                assert(regex_compiles(ex[i as int], true));
            }
            if regex_is_match(self.excludes[i].as_str(), name) {
                return false;
            }
            i = i + 1;
        }
        if self.includes.len() == 0 {
            return true;
        }
        let mut j: usize = 0;
        while j < self.includes.len()
            invariant
                j <= self.includes@.len(),
                inc == sources(self.includes@),
                ex == sources(self.excludes@),
                forall|t: int| 0 <= t < ex.len() ==> !regex_matches(#[trigger] ex[t], name@),
                all_compile(inc),
                forall|t: int| 0 <= t < j ==> !regex_matches(#[trigger] inc[t], name@),
            decreases self.includes@.len() - j,
        {
            proof {
                assert(inc[j as int] == self.includes@[j as int]@);
                assert(regex_compiles(inc[j as int], true));
            }
            if regex_is_match(self.includes[j].as_str(), name) {
                return true;
            }
            j = j + 1;
        }
        false
    }
}

/// A file name passes: no masks, or some mask matches.
pub open spec fn file_name_allowed(patterns: Seq<Seq<char>>, name: Seq<char>) -> bool {
    patterns.len() == 0 || exists|i: int| 0 <= i < patterns.len() && regex_matches(#[trigger] patterns[i], name)
}

/// A directory name passes: no exclude matches, and no includes or some include matches.
pub open spec fn dir_name_allowed(
    includes: Seq<Seq<char>>,
    excludes: Seq<Seq<char>>,
    name: Seq<char>,
) -> bool {
    &&& forall|i: int| 0 <= i < excludes.len() ==> !regex_matches(#[trigger] excludes[i], name)
    &&& includes.len() == 0 || exists|i: int|
        0 <= i < includes.len() && regex_matches(#[trigger] includes[i], name)
}

/// The regex sources of the globs of a file-mask string.
pub open spec fn file_mask_sources(parts: Seq<Seq<char>>) -> Seq<Seq<char>> {
    parts.map_values(|p: Seq<char>| mask_regex(p))
}

/// Include globs of a directory-mask string: pieces other than `**` that do
/// not start with `!`.
pub open spec fn dir_include_globs(parts: Seq<Seq<char>>) -> Seq<Seq<char>>
    decreases parts.len(),
{
    if parts.len() == 0 {
        seq![]
    } else {
        let p = parts[0];
        let here: Seq<Seq<char>> = if p == seq!['*', '*'] || (p.len() > 0 && p[0] == '!') {
            seq![]
        } else {
            seq![p]
        };
        here + dir_include_globs(parts.drop_first())
    }
}

/// Exclude globs of a directory-mask string: for each piece `!g` (other
/// than `**`), `g` trimmed, when non-empty.
pub open spec fn dir_exclude_globs(parts: Seq<Seq<char>>) -> Seq<Seq<char>>
    decreases parts.len(),
{
    if parts.len() == 0 {
        seq![]
    } else {
        let p = parts[0];
        let here: Seq<Seq<char>> = if p != seq!['*', '*'] && p.len() > 0 && p[0] == '!' {
            let e = crate::text::trim(p.skip(1));
            if e.len() > 0 {
                seq![e]
            } else {
                seq![]
            }
        } else {
            seq![]
        };
        here + dir_exclude_globs(parts.drop_first())
    }
}

/// Parses a file-mask string (globs separated by `;`, `,` or spaces). An
/// empty mask matches every name. Fails when some glob's regex does not
/// compile (the error carries the compiler's message).
pub fn parse_file_masks(s: &str) -> (res: Result<FileMasks, String>)
    ensures
        res is Ok <==> all_compile(file_mask_sources(mask_parts(s@))),
        res matches Ok(m) ==> m.wf() && m.patterns_spec() == file_mask_sources(mask_parts(s@)),
{
    let parts = split_masks(s);
    let ghost pv = parts@.map_values(|p: Vec<char>| p@);
    let mut patterns: Vec<String> = Vec::new();
    let mut i: usize = 0;
    while i < parts.len()
        invariant
            i <= parts@.len(),
            pv == parts@.map_values(|p: Vec<char>| p@),
            pv == mask_parts(s@),
            sources(patterns@) == file_mask_sources(pv.take(i as int)),
            all_compile(sources(patterns@)),
        decreases parts@.len() - i,
    {
        let src = glob_to_regex(parts[i].as_slice());
        match regex_check(src.as_str(), true) {
            Ok(()) => {
                let ghost before = sources(patterns@);
                patterns.push(src);
                proof {
                    assert(sources(patterns@) =~= before.push(src@));
                    assert(file_mask_sources(pv.take(i + 1)) =~= file_mask_sources(pv.take(i as int)).push(mask_regex(pv[i as int])));
                }
            },
            Err(e) => {
                proof {
                    assert(file_mask_sources(pv)[i as int] == src@);
                    assert(!all_compile(file_mask_sources(pv)));
                }
                return Err(e);
            },
        }
        i = i + 1;
    }
    assert(pv.take(pv.len() as int) =~= pv);
    Ok(FileMasks { patterns })
}

/// Whether `filename` passes the file masks: no masks, or some mask matches.
pub fn matches_file_masks(filename: &str, masks: &FileMasks) -> (res: bool)
    requires
        masks.wf(),
    ensures
        res == file_name_allowed(masks.patterns_spec(), filename@),
{
    if masks.patterns.len() == 0 {
        return true;
    }
    let ghost ps = masks.patterns_spec();
    let mut i: usize = 0;
    while i < masks.patterns.len()
        invariant
            i <= masks.patterns@.len(),
            ps == sources(masks.patterns@),
            all_compile(ps),
            forall|j: int| 0 <= j < i ==> !regex_matches(#[trigger] ps[j], filename@),
        decreases masks.patterns@.len() - i,
    {
        proof {
            assert(ps[i as int] == masks.patterns@[i as int]@);
            assert(regex_compiles(ps[i as int], true));
        }
        if regex_is_match(masks.patterns[i].as_str(), filename) {
            return true;
        }
        i = i + 1;
    }
    false
}

/// Whether the piece is the wildcard `**`.
fn is_double_star(p: &[char]) -> (r: bool)
    ensures
        r == (p@ == seq!['*', '*']),
{
    let r = p.len() == 2 && p[0] == '*' && p[1] == '*';
    proof {
        if r {
            assert(p@ =~= seq!['*', '*']);
        }
    }
    r
}

/// Parses a directory-mask string: `**` pieces are ignored, `!name`
/// excludes, other pieces include. Fails when a glob's regex does not
/// compile (the error carries the compiler's message).
pub fn parse_dir_masks(s: &str) -> (res: Result<DirMaskSet, String>)
    ensures
        res is Ok <==> (all_compile(
            dir_include_globs(mask_parts(s@)).map_values(|p: Seq<char>| mask_regex(p)),
        ) && all_compile(dir_exclude_globs(mask_parts(s@)).map_values(|p: Seq<char>| mask_regex(p)))),
        res matches Ok(m) ==> m.wf() && m.includes_spec() == dir_include_globs(mask_parts(s@)).map_values(
            |p: Seq<char>| mask_regex(p),
        ) && m.excludes_spec() == dir_exclude_globs(mask_parts(s@)).map_values(
            |p: Seq<char>| mask_regex(p),
        ),
{
    let parts = split_masks(s);
    let ghost pv = parts@.map_values(|p: Vec<char>| p@);
    let ghost all_inc = dir_include_globs(pv).map_values(|p: Seq<char>| mask_regex(p));
    let ghost all_exc = dir_exclude_globs(pv).map_values(|p: Seq<char>| mask_regex(p));
    let mut includes: Vec<String> = Vec::new();
    let mut excludes: Vec<String> = Vec::new();
    let mut i: usize = 0;
    proof {
        lemma_dir_globs_split(pv, 0);
    }
    while i < parts.len()
        invariant
            i <= parts@.len(),
            pv == parts@.map_values(|p: Vec<char>| p@),
            pv == mask_parts(s@),
            all_inc == dir_include_globs(pv).map_values(|p: Seq<char>| mask_regex(p)),
            all_exc == dir_exclude_globs(pv).map_values(|p: Seq<char>| mask_regex(p)),
            sources(includes@) == dir_include_globs(pv.take(i as int)).map_values(|p: Seq<char>| mask_regex(p)),
            sources(excludes@) == dir_exclude_globs(pv.take(i as int)).map_values(|p: Seq<char>| mask_regex(p)),
            all_compile(sources(includes@)),
            all_compile(sources(excludes@)),
        decreases parts@.len() - i,
    {
        let part = &parts[i];
        let ghost inc0 = sources(includes@);
        let ghost exc0 = sources(excludes@);
        proof {
            lemma_dir_globs_split(pv, i as int);
            lemma_dir_globs_split(pv, i + 1);
            lemma_dir_globs_step(pv, i as int);
            lemma_dir_globs_single(pv[i as int]);
            assert(pv[i as int] == part@);
            lemma_map_concat(dir_include_globs(pv.take(i as int)), dir_include_globs(seq![pv[i as int]]));
            lemma_map_concat(dir_exclude_globs(pv.take(i as int)), dir_exclude_globs(seq![pv[i as int]]));
        }
        if is_double_star(part.as_slice()) {
            proof {
                assert(sources(includes@) =~= inc0 + Seq::<Seq<char>>::empty());
                assert(sources(excludes@) =~= exc0 + Seq::<Seq<char>>::empty());
            }
        } else if part.len() > 0 && part[0] == '!' {
            let rest = crate::text::slice_range_to_vec(part.as_slice(), 1, part.len());
            let ex = crate::text::trim_chars(rest.as_slice());
            proof {
                assert(rest@ =~= part@.skip(1));
            }
            if ex.len() > 0 {
                let src = glob_to_regex(ex.as_slice());
                match regex_check(src.as_str(), true) {
                    Ok(()) => {
                        let ghost before = sources(excludes@);
                        excludes.push(src);
                        proof {
                            assert(sources(excludes@) =~= before.push(src@));
                            assert(sources(excludes@) =~= exc0 + seq![ex@].map_values(|p: Seq<char>| mask_regex(p)));
                        }
                    },
                    Err(e) => {
                        proof {
                            lemma_not_all_compile_exc(pv, i as int, src@);
                        }
                        return Err(e);
                    },
                }
            } else {
                proof {
                    assert(sources(excludes@) =~= exc0 + Seq::<Seq<char>>::empty());
                }
            }
            proof {
                assert(sources(includes@) =~= inc0 + Seq::<Seq<char>>::empty());
            }
        } else {
            let src = glob_to_regex(part.as_slice());
            match regex_check(src.as_str(), true) {
                Ok(()) => {
                    let ghost before = sources(includes@);
                    includes.push(src);
                    proof {
                        assert(sources(includes@) =~= before.push(src@));
                        assert(sources(includes@) =~= inc0 + seq![part@].map_values(|p: Seq<char>| mask_regex(p)));
                        assert(sources(excludes@) =~= exc0 + Seq::<Seq<char>>::empty());
                    }
                },
                Err(e) => {
                    proof {
                        lemma_not_all_compile_inc(pv, i as int, src@);
                    }
                    return Err(e);
                },
            }
        }
        i = i + 1;
    }
    assert(pv.take(pv.len() as int) =~= pv);
    Ok(DirMaskSet { includes, excludes })
}

proof fn lemma_map_concat(a: Seq<Seq<char>>, b: Seq<Seq<char>>)
    ensures
        (a + b).map_values(|p: Seq<char>| mask_regex(p)) == a.map_values(|p: Seq<char>| mask_regex(p))
            + b.map_values(|p: Seq<char>| mask_regex(p)),
{
    assert((a + b).map_values(|p: Seq<char>| mask_regex(p)) =~= a.map_values(|p: Seq<char>| mask_regex(p))
        + b.map_values(|p: Seq<char>| mask_regex(p)));
}

/// The globs of a single piece.
proof fn lemma_dir_globs_single(p: Seq<char>)
    ensures
        dir_include_globs(seq![p]) == (if p == seq!['*', '*'] || (p.len() > 0 && p[0] == '!') {
            Seq::<Seq<char>>::empty()
        } else {
            seq![p]
        }),
        dir_exclude_globs(seq![p]) == (if p != seq!['*', '*'] && p.len() > 0 && p[0] == '!'
            && crate::text::trim(p.skip(1)).len() > 0 {
            seq![crate::text::trim(p.skip(1))]
        } else {
            Seq::<Seq<char>>::empty()
        }),
{
    let one = seq![p];
    assert(one.drop_first() =~= Seq::<Seq<char>>::empty());
    assert(one[0] == p);
    assert(dir_include_globs(Seq::<Seq<char>>::empty()) =~= Seq::<Seq<char>>::empty());
    assert(dir_exclude_globs(Seq::<Seq<char>>::empty()) =~= Seq::<Seq<char>>::empty());
    assert(dir_include_globs(one) =~= (if p == seq!['*', '*'] || (p.len() > 0 && p[0] == '!') {
            Seq::<Seq<char>>::empty()
        } else {
            seq![p]
        }));
    assert(dir_exclude_globs(one) =~= (if p != seq!['*', '*'] && p.len() > 0 && p[0] == '!'
            && crate::text::trim(p.skip(1)).len() > 0 {
            seq![crate::text::trim(p.skip(1))]
        } else {
            Seq::<Seq<char>>::empty()
        }));
}

proof fn lemma_dir_globs_concat(a: Seq<Seq<char>>, b: Seq<Seq<char>>)
    ensures
        dir_include_globs(a + b) == dir_include_globs(a) + dir_include_globs(b),
        dir_exclude_globs(a + b) == dir_exclude_globs(a) + dir_exclude_globs(b),
    decreases a.len(),
{
    if a.len() == 0 {
        assert(a + b =~= b);
        assert(dir_include_globs(a) + dir_include_globs(b) =~= dir_include_globs(b));
        assert(dir_exclude_globs(a) + dir_exclude_globs(b) =~= dir_exclude_globs(b));
    } else {
        assert((a + b).drop_first() =~= a.drop_first() + b);
        lemma_dir_globs_concat(a.drop_first(), b);
        assert(dir_include_globs(a + b) =~= dir_include_globs(a) + dir_include_globs(b));
        assert(dir_exclude_globs(a + b) =~= dir_exclude_globs(a) + dir_exclude_globs(b));
    }
}

/// The globs of a prefix extended by one piece.
proof fn lemma_dir_globs_step(pv: Seq<Seq<char>>, i: int)
    requires
        0 <= i < pv.len(),
    ensures
        dir_include_globs(pv.take(i + 1)) == dir_include_globs(pv.take(i)) + dir_include_globs(seq![pv[i]]),
        dir_exclude_globs(pv.take(i + 1)) == dir_exclude_globs(pv.take(i)) + dir_exclude_globs(seq![pv[i]]),
{
    assert(pv.take(i + 1) =~= pv.take(i) + seq![pv[i]]);
    lemma_dir_globs_concat(pv.take(i), seq![pv[i]]);
    assert(seq![pv[i]].drop_first() =~= Seq::<Seq<char>>::empty());
}

/// The globs of the whole list are those of the prefix followed by those of the rest.
proof fn lemma_dir_globs_split(pv: Seq<Seq<char>>, i: int)
    requires
        0 <= i <= pv.len(),
    ensures
        dir_include_globs(pv) == dir_include_globs(pv.take(i)) + dir_include_globs(pv.skip(i)),
        dir_exclude_globs(pv) == dir_exclude_globs(pv.take(i)) + dir_exclude_globs(pv.skip(i)),
{
    assert(pv =~= pv.take(i) + pv.skip(i));
    lemma_dir_globs_concat(pv.take(i), pv.skip(i));
}

proof fn lemma_not_all_compile_inc(pv: Seq<Seq<char>>, i: int, src: Seq<char>)
    requires
        0 <= i < pv.len(),
        dir_include_globs(seq![pv[i]]) == seq![pv[i]],
        mask_regex(pv[i]) == src,
        !regex_compiles(src, true),
    ensures
        !all_compile(dir_include_globs(pv).map_values(|p: Seq<char>| mask_regex(p))),
{
    lemma_dir_globs_split(pv, i + 1);
    lemma_dir_globs_step(pv, i);
    let k = dir_include_globs(pv.take(i)).len() as int;
    assert(dir_include_globs(pv)[k] == pv[i]);
    assert(dir_include_globs(pv).map_values(|p: Seq<char>| mask_regex(p))[k] == src);
}

proof fn lemma_not_all_compile_exc(pv: Seq<Seq<char>>, i: int, src: Seq<char>)
    requires
        0 <= i < pv.len(),
        dir_exclude_globs(seq![pv[i]]).len() == 1,
        mask_regex(dir_exclude_globs(seq![pv[i]])[0]) == src,
        !regex_compiles(src, true),
    ensures
        !all_compile(dir_exclude_globs(pv).map_values(|p: Seq<char>| mask_regex(p))),
{
    lemma_dir_globs_split(pv, i + 1);
    lemma_dir_globs_step(pv, i);
    let k = dir_exclude_globs(pv.take(i)).len() as int;
    assert(dir_exclude_globs(pv)[k] == dir_exclude_globs(seq![pv[i]])[0]);
    assert(dir_exclude_globs(pv).map_values(|p: Seq<char>| mask_regex(p))[k] == src);
}


/// Without file masks, every file name passes.
pub proof fn law_no_file_masks_allow_all(name: Seq<char>)
    ensures
        file_name_allowed(Seq::<Seq<char>>::empty(), name),
{
}

} // verus!
