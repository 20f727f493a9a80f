//! Opening a search result in an external editor: the argument template
//! with its placeholders, and the command line used for a result.
//!
//! A template is split into words at spaces and tabs outside double quotes;
//! the quotes themselves are dropped and empty words are skipped. In each
//! word `%FILENAME%` and `%FILE%` become the file, `%LINE%` the line number,
//! `%COLUMN%` and `%COL%` the column, replaced in that order.

use vstd::prelude::*;
use crate::text::{
    chars_to_string, decimal, str_to_chars, str_to_string, str_lowercase, str_to_lowercase, trim,
    trim_str, usize_to_decimal,
};
use crate::search::match_engine::{find_literal, literal_first};

verus! {

/// Scanner state while splitting a template: words so far, the current
/// word, and whether a quote is open.
pub type SplitState = (Seq<Seq<char>>, Seq<char>, bool);

/// One character of the template scanned.
pub open spec fn split_step(st: SplitState, c: char) -> SplitState {
    if c == '"' {
        (st.0, st.1, !st.2)
    } else if (c == ' ' || c == '\t') && !st.2 {
        if st.1.len() > 0 {
            (st.0.push(st.1), seq![], st.2)
        } else {
            st
        }
    } else {
        (st.0, st.1.push(c), st.2)
    }
}

/// The scanner state after the whole of `t`.
pub open spec fn split_scan(t: Seq<char>) -> SplitState
    decreases t.len(),
{
    if t.len() == 0 {
        (seq![], seq![], false)
    } else {
        split_step(split_scan(t.drop_last()), t.last())
    }
}

/// The words of the template `t`.
pub open spec fn template_words(t: Seq<char>) -> Seq<Seq<char>> {
    let st = split_scan(t);
    if st.1.len() > 0 {
        st.0.push(st.1)
    } else {
        st.0
    }
}

/// `s` with every occurrence of `from` replaced by `to`, scanning left to
/// right without overlap (`str::replace`).
pub open spec fn replace_all(s: Seq<char>, from: Seq<char>, to: Seq<char>) -> Seq<char>
    decreases s.len(),
{
    if from.len() == 0 || s.len() < from.len() {
        s
    } else if s.take(from.len() as int) == from {
        to + replace_all(s.skip(from.len() as int), from, to)
    } else {
        seq![s[0]] + replace_all(s.skip(1), from, to)
    }
}

/// A word with its placeholders filled in.
pub open spec fn fill_placeholders(w: Seq<char>, file: Seq<char>, line: nat, column: nat) -> Seq<char> {
    let a = replace_all(w, "%FILENAME%"@, file);
    let b = replace_all(a, "%FILE%"@, file);
    let c = replace_all(b, "%LINE%"@, decimal(line));
    let d = replace_all(c, "%COLUMN%"@, decimal(column));
    replace_all(d, "%COL%"@, decimal(column))
}

/// The views of a list of strings.
pub open spec fn views(v: Seq<String>) -> Seq<Seq<char>> {
    v.map_values(|s: String| s@)
}

/// Replaces every occurrence of `from` in `s` by `to`.
pub fn replace_str(s: &str, from: &str, to: &str) -> (res: String)
    ensures
        res@ == replace_all(s@, from@, to@),
{
    let cs = str_to_chars(s);
    let fs = str_to_chars(from);
    let ts = str_to_chars(to);
    let n = fs.len();
    if n == 0 {
        return str_to_string(s);
    }
    let mut out: Vec<char> = Vec::new();
    let mut i: usize = 0;
    proof {
        assert(cs@.skip(0) =~= cs@);
        assert(out@ + replace_all(cs@.skip(0), fs@, ts@) =~= replace_all(cs@, fs@, ts@));
    }
    while i < cs.len()
        invariant
            n == fs@.len(),
            n > 0,
            i <= cs@.len(),
            out@ + replace_all(cs@.skip(i as int), fs@, ts@) == replace_all(cs@, fs@, ts@),
        decreases cs@.len() - i,
    {
        let ghost rest = cs@.skip(i as int);
        let mut hit = n <= cs.len() - i;
        let mut j: usize = 0;
        while hit && j < n
            invariant
                n == fs@.len(),
                i <= cs@.len(),
                cs@.len() <= usize::MAX,
                rest == cs@.skip(i as int),
                j <= n,
                hit ==> i + n <= cs@.len(),
                hit ==> forall|k: int| 0 <= k < j ==> cs@[i + k] == fs@[k],
                !hit ==> !(rest.len() >= n && rest.take(n as int) == fs@),
            decreases n - j + (if hit { 1int } else { 0int }),
        {
            if cs[i + j] != fs[j] {
                hit = false;
                proof {
                    assert(rest.take(n as int)[j as int] == cs@[i + j]);
                }
            } else {
                j = j + 1;
            }
        }
        if hit {
            proof {
                assert(rest.take(n as int) =~= fs@);
                assert(rest.skip(n as int) =~= cs@.skip(i + n));
            }
            let ghost before = out@;
            let mut k: usize = 0;
            while k < ts.len()
                invariant
                    k <= ts@.len(),
                    out@ == before + ts@.take(k as int),
                decreases ts@.len() - k,
            {
                out.push(ts[k]);
                proof {
                    assert(ts@.take(k + 1) =~= ts@.take(k as int).push(ts@[k as int]));
                }
                k = k + 1;
            }
            proof {
                assert(ts@.take(ts@.len() as int) =~= ts@);
                assert(before + (ts@ + replace_all(cs@.skip(i + n), fs@, ts@)) =~= out@ + replace_all(cs@.skip(i + n), fs@, ts@));
            }
            i = i + n;
        } else {
            proof {
                if rest.len() >= n {
                    assert(rest.skip(1) =~= cs@.skip(i + 1));
                } else {
                    assert(replace_all(rest, fs@, ts@) == rest);
                    assert(rest =~= seq![cs@[i as int]] + cs@.skip(i + 1));
                    if cs@.skip(i + 1).len() < n {
                        assert(replace_all(cs@.skip(i + 1), fs@, ts@) == cs@.skip(i + 1));
                    }
                }
                assert(rest[0] == cs@[i as int]);
            }
            let ghost before = out@;
            out.push(cs[i]);
            proof {
                assert(before + (seq![cs@[i as int]] + replace_all(cs@.skip(i + 1), fs@, ts@)) =~= out@ + replace_all(cs@.skip(i + 1), fs@, ts@));
            }
            i = i + 1;
        }
    }
    proof {
        assert(cs@.skip(cs@.len() as int) =~= Seq::<char>::empty());
        assert(out@ + Seq::<char>::empty() =~= out@);
    }
    chars_to_string(out.as_slice())
}

/// Splits an argument template into words (see the module description).
pub fn split_template(template: &str) -> (res: Vec<String>)
    ensures
        views(res@) == template_words(template@),
{
    let cs = str_to_chars(template);
    let mut words: Vec<String> = Vec::new();
    let mut cur: Vec<char> = Vec::new();
    let mut in_quotes = false;
    let mut i: usize = 0;
    proof {
        assert(cs@.take(0) =~= Seq::<char>::empty());
        assert(views(words@) =~= Seq::<Seq<char>>::empty());
        assert(cur@ =~= Seq::<char>::empty());
    }
    while i < cs.len()
        invariant
            i <= cs@.len(),
            cs@ == template@,
            (views(words@), cur@, in_quotes) == split_scan(cs@.take(i as int)),
        decreases cs@.len() - i,
    {
        let c = cs[i];
        proof {
            assert(cs@.take(i + 1).drop_last() =~= cs@.take(i as int));
            assert(cs@.take(i + 1).last() == c);
        }
        if c == '"' {
            in_quotes = !in_quotes;
        } else if (c == ' ' || c == '\t') && !in_quotes {
            if cur.len() > 0 {
                let ghost before = views(words@);
                let ghost w = cur@;
                words.push(chars_to_string(cur.as_slice()));
                cur = Vec::new();
                proof {
                    assert(views(words@) =~= before.push(w));
                    assert(cur@ =~= Seq::<char>::empty());
                }
            }
        } else {
            cur.push(c);
        }
        i = i + 1;
    }
    proof {
        assert(cs@.take(cs@.len() as int) =~= cs@);
    }
    if cur.len() > 0 {
        let ghost before = views(words@);
        words.push(chars_to_string(cur.as_slice()));
        proof {
            assert(views(words@) =~= before.push(cur@));
        }
    }
    words
}

/// The template with its placeholders filled in, word by word.
pub open spec fn expanded_args(t: Seq<char>, file: Seq<char>, line: nat, column: nat) -> Seq<Seq<char>> {
    template_words(t).map_values(|w: Seq<char>| fill_placeholders(w, file, line, column))
}

/// How many arguments the editor gets depends on the template alone: a file
/// name with blanks or quotes, or any line and column, neither splits nor
/// merges arguments.
pub proof fn law_argument_count_from_template(
    t: Seq<char>,
    file1: Seq<char>,
    line1: nat,
    column1: nat,
    file2: Seq<char>,
    line2: nat,
    column2: nat,
)
    ensures
        expanded_args(t, file1, line1, column1).len() == template_words(t).len(),
        expanded_args(t, file1, line1, column1).len() == expanded_args(t, file2, line2, column2).len(),
{
}

/// The words of `template` with their placeholders filled in for a result
/// at `line` and `column` of `file`.
pub fn expand_editor_args(template: &str, file: &str, line: usize, column: usize) -> (res: Vec<String>)
    ensures
        views(res@) == expanded_args(template@, file@, line as nat, column as nat),
{
    let line_s = usize_to_decimal(line);
    let col_s = usize_to_decimal(column);
    let words = split_template(template);
    let ghost ws = views(words@);
    let mut out: Vec<String> = Vec::new();
    let mut i: usize = 0;
    proof {
        assert(views(out@) =~= ws.take(0).map_values(
            |w: Seq<char>| fill_placeholders(w, file@, line as nat, column as nat),
        ));
    }
    while i < words.len()
        invariant
            i <= words@.len(),
            ws == views(words@),
            line_s@ == decimal(line as nat),
            col_s@ == decimal(column as nat),
            views(out@) == ws.take(i as int).map_values(
                |w: Seq<char>| fill_placeholders(w, file@, line as nat, column as nat),
            ),
        decreases words@.len() - i,
    {
        let w = words[i].as_str();
        let a = replace_str(w, "%FILENAME%", file);
        let b = replace_str(a.as_str(), "%FILE%", file);
        let c = replace_str(b.as_str(), "%LINE%", line_s.as_str());
        let d = replace_str(c.as_str(), "%COLUMN%", col_s.as_str());
        let e = replace_str(d.as_str(), "%COL%", col_s.as_str());
        let ghost before = views(out@);
        out.push(e);
        proof {
            assert(ws[i as int] == w@);
            assert(views(out@) =~= before.push(e@));
            assert(ws.take(i + 1).map_values(
                |w: Seq<char>| fill_placeholders(w, file@, line as nat, column as nat),
            ) =~= ws.take(i as int).map_values(
                |w: Seq<char>| fill_placeholders(w, file@, line as nat, column as nat),
            ).push(fill_placeholders(ws[i as int], file@, line as nat, column as nat)));
        }
        i = i + 1;
    }
    proof {
        assert(ws.take(ws.len() as int) =~= ws);
    }
    out
}

/// `file:line:column`, the location argument of Visual Studio Code's `-g`.
pub open spec fn location_arg(file: Seq<char>, line: nat, column: nat) -> Seq<char> {
    file + ":"@ + decimal(line) + ":"@ + decimal(column)
}

/// `pat` occurs in `s`.
pub open spec fn contains_text(s: Seq<char>, pat: Seq<char>) -> bool {
    literal_first(s, pat) is Some
}

/// Arguments for an editor configured without an argument template,
/// chosen by the editor's lowercased program path: Visual Studio Code,
/// Sakura Editor, Hidemaru and Notepad++ get their own line and column
/// options; any other editor just gets the file.
pub open spec fn known_editor_args(lower_path: Seq<char>, file: Seq<char>, line: nat, column: nat) -> Seq<Seq<char>> {
    if contains_text(lower_path, "code"@) {
        seq!["-g"@, location_arg(file, line, column)]
    } else if contains_text(lower_path, "sakura"@) {
        seq!["-Y="@ + decimal(line), "-X="@ + decimal(column), file]
    } else if contains_text(lower_path, "hidemaru"@) {
        seq!["/j"@ + decimal(line), ","@ + decimal(column), file]
    } else if contains_text(lower_path, "notepad++"@) {
        seq!["-n"@ + decimal(line), "-c"@ + decimal(column), file]
    } else {
        seq![file]
    }
}

/// The `cmd` arguments that open a result, and whether the console window is
/// hidden. With an editor configured, `cmd /c` runs it with the filled-in
/// template, or with the known options when the template is blank. Without
/// one, Visual Studio Code opens the file when it is available, else the
/// system's default handler (`start`).
pub open spec fn editor_command_spec(
    editor_path: Seq<char>,
    editor_args: Seq<char>,
    file: Seq<char>,
    line: nat,
    column: nat,
    vscode_available: bool,
) -> (Seq<Seq<char>>, bool) {
    if trim(editor_path).len() > 0 {
        let rest = if trim(editor_args).len() > 0 {
            template_words(editor_args).map_values(|w: Seq<char>| fill_placeholders(w, file, line, column))
        } else {
            known_editor_args(str_lowercase(editor_path), file, line, column)
        };
        (seq!["/c"@, editor_path] + rest, true)
    } else if vscode_available {
        (seq!["/c"@, "code"@, "-g"@, location_arg(file, line, column)], true)
    } else {
        (seq!["/c"@, "start"@, ""@, file], false)
    }
}

/// How to start the editor for a result.
pub struct EditorLaunch {
    /// Arguments for `cmd`.
    pub args: Vec<String>,
    /// Start without a console window.
    pub hide_window: bool,
}

/// Whether `pat` occurs in `s`.
fn contains_str(s: &str, pat: &str) -> (r: bool)
    ensures
        r == contains_text(s@, pat@),
{
    match find_literal(s, pat) {
        Some(_) => true,
        None => false,
    }
}

/// `file:line:column`.
fn location_string(file: &str, line: usize, column: usize) -> (res: String)
    ensures
        res@ == location_arg(file@, line as nat, column as nat),
{
    let a = crate::text::str_concat(file, ":");
    let b = crate::text::str_concat(a.as_str(), usize_to_decimal(line).as_str());
    let c = crate::text::str_concat(b.as_str(), ":");
    crate::text::str_concat(c.as_str(), usize_to_decimal(column).as_str())
}

/// `prefix` followed by the decimal form of `n`.
fn prefixed_number(prefix: &str, n: usize) -> (res: String)
    ensures
        res@ == prefix@ + decimal(n as nat),
{
    crate::text::str_concat(prefix, usize_to_decimal(n).as_str())
}

/// The known options of the editor whose lowercased path is `lower_path`.
fn known_editor_arg_list(lower_path: &str, file: &str, line: usize, column: usize) -> (res: Vec<String>)
    ensures
        views(res@) == known_editor_args(lower_path@, file@, line as nat, column as nat),
{
    let mut v: Vec<String> = Vec::new();
    if contains_str(lower_path, "code") {
        v.push(str_to_string("-g"));
        v.push(location_string(file, line, column));
    } else if contains_str(lower_path, "sakura") {
        v.push(prefixed_number("-Y=", line));
        v.push(prefixed_number("-X=", column));
        v.push(str_to_string(file));
    } else if contains_str(lower_path, "hidemaru") {
        v.push(prefixed_number("/j", line));
        v.push(prefixed_number(",", column));
        v.push(str_to_string(file));
    } else if contains_str(lower_path, "notepad++") {
        v.push(prefixed_number("-n", line));
        v.push(prefixed_number("-c", column));
        v.push(str_to_string(file));
    } else {
        v.push(str_to_string(file));
    }
    assert(views(v@) =~= known_editor_args(lower_path@, file@, line as nat, column as nat));
    v
}

/// The command that opens `file` at `line` and `column` in the configured
/// editor (see `editor_command_spec`).
pub fn editor_command(
    editor_path: &str,
    editor_args: &str,
    file: &str,
    line: usize,
    column: usize,
    vscode_available: bool,
) -> (res: EditorLaunch)
    ensures
        (views(res.args@), res.hide_window) == editor_command_spec(
            editor_path@,
            editor_args@,
            file@,
            line as nat,
            column as nat,
            vscode_available,
        ),
{
    let mut args: Vec<String> = Vec::new();
    if trim_str(editor_path).as_str().is_empty() {
        if vscode_available {
            args.push(str_to_string("/c"));
            args.push(str_to_string("code"));
            args.push(str_to_string("-g"));
            args.push(location_string(file, line, column));
            assert(views(args@) =~= seq!["/c"@, "code"@, "-g"@, location_arg(file@, line as nat, column as nat)]);
            return EditorLaunch { args, hide_window: true };
        } else {
            args.push(str_to_string("/c"));
            args.push(str_to_string("start"));
            args.push(str_to_string(""));
            args.push(str_to_string(file));
            assert(views(args@) =~= seq!["/c"@, "start"@, ""@, file@]);
            return EditorLaunch { args, hide_window: false };
        }
    }
    args.push(str_to_string("/c"));
    args.push(str_to_string(editor_path));
    let ghost head = views(args@);
    assert(head =~= seq!["/c"@, editor_path@]);
    let rest = if trim_str(editor_args).as_str().is_empty() {
        let lower = str_to_lowercase(editor_path);
        known_editor_arg_list(lower.as_str(), file, line, column)
    } else {
        expand_editor_args(editor_args, file, line, column)
    };
    let mut i: usize = 0;
    while i < rest.len()
        invariant
            i <= rest@.len(),
            views(args@) == head + views(rest@).take(i as int),
        decreases rest@.len() - i,
    {
        let ghost before = views(args@);
        args.push(str_to_string(rest[i].as_str()));
        proof {
            assert(views(args@) =~= before.push(rest@[i as int]@));
            assert(views(rest@).take(i + 1) =~= views(rest@).take(i as int).push(rest@[i as int]@));
        }
        i = i + 1;
    }
    assert(views(rest@).take(rest@.len() as int) =~= views(rest@));
    EditorLaunch { args, hide_window: true }
}

} // verus!
