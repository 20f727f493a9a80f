use jgrep3::search::decode::{decode_content, looks_binary};
use jgrep3::search::gitignore::{GitIgnore, SearchFilter, parse_line, split_masks};
use jgrep3::search::glob_mask::{matches_file_masks, parse_dir_masks, parse_file_masks};
use jgrep3::search::match_engine::{
    MatchHit, Matcher, find_literal_case_insensitive, find_literal_case_insensitive_unicode,
};
use jgrep3::search::pattern::column_from_byte;
use jgrep3::search::pool::{
    batch_is_full, build_matcher, is_progress_point, search_bytes, search_file, search_text,
    truncate_line, worker_count,
};
use jgrep3::search::SearchResultItem;

const BASE: &str = "/project";

fn p(rel: &str) -> String {
    let mut base = String::from(BASE);
    for part in rel.split('/') {
        if !part.is_empty() {
            base.push('/');
            base.push_str(part);
        }
    }
    base
}

#[test]
fn detects_nul_binary() {
    assert!(looks_binary(b"abc\0def"));
    assert!(!looks_binary(b"hello world"));
}

#[test]
fn test_basic_ignore() {
    let gi = GitIgnore::new(String::from(BASE), "*.log\n/temp/\n!important.log");

    assert!(gi.is_ignored(&p("a.log"), false));
    assert!(gi.is_ignored(&p("src/b.log"), false));

    assert!(!gi.is_ignored(&p("important.log"), false));
    assert!(!gi.is_ignored(&p("src/important.log"), false));

    assert!(gi.is_ignored(&p("temp"), true));
    assert!(!gi.is_ignored(&p("temp"), false));
    assert!(!gi.is_ignored(&p("src/temp"), true));
}

#[test]
fn test_wildcard_gitignore() {
    let gi = GitIgnore::new(String::from(BASE), "**/build/\nsrc/**/test.rs");

    assert!(gi.is_ignored(&p("build"), true));
    assert!(gi.is_ignored(&p("foo/build"), true));
    assert!(!gi.is_ignored(&p("build"), false));

    assert!(gi.is_ignored(&p("src/test.rs"), false));
    assert!(gi.is_ignored(&p("src/foo/test.rs"), false));
    assert!(gi.is_ignored(&p("src/foo/bar/test.rs"), false));
    assert!(!gi.is_ignored(&p("test.rs"), false));
}

#[test]
fn test_search_filter() {
    let sf = SearchFilter::new("*.rs; !target/; !node_modules/");

    assert!(sf.allow_dir(&p("src")));
    assert!(!sf.allow_dir(&p("target")));
    assert!(!sf.allow_dir(&p("foo/node_modules")));

    assert!(sf.allow_file(&p("src/main.rs")));
    assert!(!sf.allow_file(&p("src/README.md")));
    assert!(!sf.allow_file(&p("target/main.rs")));
}

#[test]
fn file_mask_glob_star() {
    let masks = parse_file_masks("*.rs;*.toml").unwrap();
    assert!(matches_file_masks("main.rs", &masks));
    assert!(!matches_file_masks("readme.md", &masks));
}

#[test]
fn dir_mask_exclude() {
    let set = parse_dir_masks("**;!.git;!node_modules").unwrap();
    assert!(!set.allow_dir(".git"));
    assert!(set.allow_dir("src"));
}

#[test]
fn file_mask_empty_matches_all() {
    let masks = parse_file_masks("").unwrap();
    assert!(matches_file_masks("anything.txt", &masks));
}

#[test]
fn file_mask_case_insensitive() {
    let masks = parse_file_masks("*.RS").unwrap();
    assert!(matches_file_masks("main.rs", &masks));
}

#[test]
fn dir_mask_include_filter() {
    let set = parse_dir_masks("src;lib").unwrap();
    assert!(set.allow_dir("src"));
    assert!(!set.allow_dir("target"));
}

#[test]
fn ascii_case_insensitive_finds_correct_column() {
    let m = Matcher::literal("Foo", false).unwrap();
    let hit = m.find_in_line("xxFOOyy").unwrap();
    assert_eq!(hit.column_chars, 3);
    assert_eq!(hit.byte_start, 2);
    assert_eq!(hit.byte_end, 5);
    assert!(m.is_match_line("xxFOOyy"));
}

#[test]
fn case_sensitive_no_match_on_wrong_case() {
    let m = Matcher::literal("Foo", true).unwrap();
    assert!(m.find_in_line("foo").is_none());
    assert!(!m.is_match_line("foo"));
    let hit = m.find_in_line("xxFooyy").unwrap();
    assert_eq!(hit.column_chars, 3);
}

#[test]
fn regex_works_case_insensitive() {
    let m = Matcher::regex(r"f.o", false).unwrap();
    let hit = m.find_in_line("xxFAOyy").unwrap();
    assert_eq!(hit.column_chars, 3);
    assert!(m.is_match_line("xxFAOyy"));
    assert!(!m.is_match_line("xxFByy"));
}

// ---------------------------------------------------------------------------
// Further cases
// ---------------------------------------------------------------------------

#[test]
fn binary_detection_only_looks_at_the_start() {
    let mut buf = vec![b'a'; 8192];
    buf.push(0);
    assert!(!looks_binary(&buf));
    buf[8191] = 0;
    assert!(looks_binary(&buf));
    assert!(!looks_binary(b""));
}

#[test]
fn decode_utf8_bom_and_shift_jis() {
    assert_eq!(decode_content(b"abc", true), Some(String::from("abc")));
    assert_eq!(decode_content(b"\xEF\xBB\xBFabc", true), Some(String::from("\u{FEFF}abc")));
    // Shift_JIS for "日本"
    assert_eq!(decode_content(b"\x93\xfa\x96\x7b", true), Some(String::from("日本")));
    // Without detection, invalid UTF-8 is replaced.
    assert_eq!(decode_content(b"\x93\xfa", false), Some(String::from("\u{FFFD}\u{FFFD}")));
    assert_eq!(decode_content(b"a\0b", true), None);
}

#[test]
fn empty_literal_is_rejected() {
    assert_eq!(Matcher::literal("", true).err(), Some(String::from("empty query")));
    assert!(Matcher::regex("(", true).is_err());
}

#[test]
fn unicode_case_insensitive_literal() {
    let m = Matcher::literal("ÄB", false).unwrap();
    let hit = m.find_in_line("xäb").unwrap();
    assert_eq!(hit.column_chars, 2);
    assert_eq!(hit.byte_start, 1);
    assert_eq!(hit.byte_end, 4);
    assert_eq!(find_literal_case_insensitive("xäb", "ÄB").map(|h| h.column_chars), Some(2));
    assert_eq!(find_literal_case_insensitive_unicode("xyäb", "äb").map(|h| h.byte_start), Some(2));
}

#[test]
fn case_insensitive_finds_the_needle_itself() {
    // Lowercase "ⱥ" is longer in UTF-8 than "Ⱥ": the line still matches.
    assert_eq!(
        find_literal_case_insensitive("Ⱥ", "Ⱥ"),
        Some(MatchHit { column_chars: 1, byte_start: 0, byte_end: 2 })
    );
    let m = Matcher::literal("Ⱥ", false).unwrap();
    assert_eq!(m.find_in_line("xȺ").map(|h| h.column_chars), Some(2));
    // A final capital sigma matches itself.
    let g = Matcher::literal("ΟΔΟΣ", false).unwrap();
    assert_eq!(g.find_in_line("ΟΔΟΣ").map(|h| h.column_chars), Some(1));
    assert_eq!(g.find_in_line("η οδος").map(|h| h.column_chars), None);
    assert_eq!(g.find_in_line("η οδοσ").map(|h| h.column_chars), Some(3));
}

#[test]
fn hits_lie_on_character_boundaries() {
    let r = Matcher::regex("b+", true).unwrap();
    let h = r.find_in_line("日本 bb").unwrap();
    assert_eq!(h, MatchHit { column_chars: 4, byte_start: 7, byte_end: 9 });
    let l = Matcher::literal("本", true).unwrap();
    assert_eq!(l.find_in_line("日本").unwrap(), MatchHit { column_chars: 2, byte_start: 3, byte_end: 6 });
}

#[test]
fn column_of_byte_offset() {
    assert_eq!(column_from_byte("aé b", 0), 1);
    assert_eq!(column_from_byte("aé b", 3), 3);
    assert_eq!(column_from_byte("aé b", 5), 5);
}

#[test]
fn split_and_parse_masks() {
    let parts: Vec<String> = split_masks("*.rs; *.toml,,!target/ ")
        .into_iter()
        .map(|p| p.into_iter().collect())
        .collect();
    assert_eq!(parts, vec!["*.rs", "*.toml", "!target/"]);
    assert_eq!(parse_line("# comment"), None);
    assert_eq!(parse_line(""), None);
    assert_eq!(parse_line("foo\\ ").map(|v| v.into_iter().collect::<String>()), Some(String::from("foo\\ ")));
    assert_eq!(parse_line("foo  ").map(|v| v.into_iter().collect::<String>()), Some(String::from("foo")));
}

#[test]
fn empty_filter_allows_everything() {
    let sf = SearchFilter::new("");
    assert!(sf.allow_dir("any/where"));
    assert!(sf.allow_file("any/where/file.bin"));
}

#[test]
fn last_matching_rule_wins() {
    let gi = GitIgnore::new(String::from(BASE), "!keep.txt\n*.txt");
    assert!(gi.is_ignored(&p("keep.txt"), false));
    let gi2 = GitIgnore::new(String::from(BASE), "*.txt\n!keep.txt");
    assert!(!gi2.is_ignored(&p("keep.txt"), false));
    assert!(!gi2.is_ignored("/elsewhere/a.txt", false));
}

fn item(path: &str, line: usize, col: usize, content: &str) -> (String, usize, usize, String) {
    (String::from(path), line, col, String::from(content))
}

fn views(items: &[SearchResultItem]) -> Vec<(String, usize, usize, String)> {
    items
        .iter()
        .map(|i| (i.file_path.clone(), i.line_number, i.column_number, i.line_content.clone()))
        .collect()
}

#[test]
fn byte_search_case_sensitive_lines_and_columns() {
    let m = Matcher::literal("foo", true).unwrap();
    let buf = b"a foo\r\nbar\n  xfoo foo \nfo";
    let res = search_bytes(buf, &m, "f.txt").unwrap();
    assert_eq!(
        views(&res),
        vec![item("f.txt", 1, 3, "a foo"), item("f.txt", 3, 4, "xfoo foo")]
    );
}

#[test]
fn byte_search_case_insensitive() {
    let m = Matcher::literal("FoO", false).unwrap();
    let res = search_bytes(b"xfOo\nnone\nFOO", &m, "g").unwrap();
    assert_eq!(views(&res), vec![item("g", 1, 2, "xfOo"), item("g", 3, 1, "FOO")]);
}

#[test]
fn byte_search_skips_regex_and_non_ascii() {
    let r = Matcher::regex("a", true).unwrap();
    assert!(search_bytes(b"a", &r, "x").is_none());
    let u = Matcher::literal("é", true).unwrap();
    assert!(search_bytes("é".as_bytes(), &u, "x").is_none());
}

#[test]
fn byte_search_reports_character_columns() {
    let m = Matcher::literal("Foo", true).unwrap();
    let res = search_bytes("ああFoo\n".as_bytes(), &m, "f.txt").unwrap();
    assert_eq!(views(&res), vec![item("f.txt", 1, 3, "ああFoo")]);
    let ci = Matcher::literal("foo", false).unwrap();
    let res2 = search_bytes("éxFOO".as_bytes(), &ci, "g").unwrap();
    assert_eq!(views(&res2), vec![item("g", 1, 3, "éxFOO")]);
}

#[test]
fn byte_search_needle_across_lines() {
    let m = Matcher::literal("a\na", true).unwrap();
    let res = search_bytes(b"a\na\na", &m, "x").unwrap();
    assert_eq!(views(&res), vec![item("x", 1, 1, "a")]);
}

#[test]
fn text_search_reports_character_columns() {
    let m = Matcher::literal("b", true).unwrap();
    let res = search_text("éb\r\nxx\nb", &m, "t");
    assert_eq!(views(&res), vec![item("t", 1, 2, "éb"), item("t", 3, 1, "b")]);
}

#[test]
fn file_search_paths() {
    let lit = Matcher::literal("x", true).unwrap();
    assert!(search_file(b"x\0", &lit, "bin", true).is_empty());
    let re = Matcher::regex("b+", true).unwrap();
    let res = search_file("日本 bb".as_bytes(), &re, "r", true);
    assert_eq!(views(&res), vec![item("r", 1, 4, "日本 bb")]);
    // Shift_JIS content is decoded before a regular-expression search.
    let res2 = search_file(b"\x93\xfa\x96\x7b", &Matcher::regex("本", true).unwrap(), "s", true);
    assert_eq!(views(&res2), vec![item("s", 1, 2, "日本")]);
}

#[test]
fn long_lines_are_cut_around_the_match() {
    let m = Matcher::literal("NEEDLE", true).unwrap();
    let line = format!("{}NEEDLE{}", "a".repeat(100), "b".repeat(100));
    let out = truncate_line(&line, &m);
    let expected = format!("...{}NEEDLE{}...", "a".repeat(40), "b".repeat(54));
    assert_eq!(out, expected);
    assert_eq!(truncate_line("  short  ", &m), "short");
    let start = format!("NEEDLE{}", "c".repeat(200));
    assert_eq!(truncate_line(&start, &m), format!("NEEDLE{}...", "c".repeat(54)));
}

#[test]
fn matcher_errors_and_worker_counts() {
    assert_eq!(build_matcher("", true, false).err(), Some(String::from("Invalid query: empty query")));
    assert!(build_matcher("(", true, true).err().unwrap().starts_with("Invalid regex: "));
    assert!(build_matcher("a(b)", true, true).is_ok());
    assert_eq!(worker_count(Some(16)), 8);
    assert_eq!(worker_count(Some(0)), 1);
    assert_eq!(worker_count(Some(3)), 3);
    assert_eq!(worker_count(None), 4);
    assert!(is_progress_point(100));
    assert!(!is_progress_point(101));
    assert!(batch_is_full(32));
    assert!(!batch_is_full(31));
}

#[test]
fn escaped_characters_stand_for_themselves() {
    let gi = GitIgnore::new(String::from(BASE), "foo\\.txt\nx\\y");
    assert!(gi.is_ignored(&p("foo.txt"), false));
    assert!(gi.is_ignored(&p("sub/foo.txt"), false));
    assert!(!gi.is_ignored(&p("fooatxt"), false));
    assert!(gi.is_ignored(&p("xy"), false));
}

#[test]
fn mask_parts_resplit_to_themselves() {
    let parts: Vec<String> = split_masks(" *.rs;; *.toml , !target/  src ")
        .into_iter()
        .map(|p| p.into_iter().collect())
        .collect();
    assert_eq!(parts, vec!["*.rs", "*.toml", "!target/", "src"]);
    let again: Vec<String> = split_masks(&parts.join(";"))
        .into_iter()
        .map(|p| p.into_iter().collect())
        .collect();
    assert_eq!(again, parts);
}

#[test]
fn paths_are_compared_by_component() {
    let gi = GitIgnore::new(String::from("/project/"), "/a.log\n*.tmp");
    assert!(gi.is_ignored("/project//a.log", false));
    assert!(gi.is_ignored("/project/./a.log", false));
    assert!(gi.is_ignored("/project/sub/x.tmp/", false));
    assert!(!gi.is_ignored("/projectx/a.log", false));
    assert!(!gi.is_ignored("/project", false));
    let win = GitIgnore::new(String::from("C:\\project"), "/a.log");
    assert!(win.is_ignored("C:\\project\\\\a.log", false));
    assert!(!win.is_ignored("D:\\project\\a.log", false));
}

#[test]
fn regex_errors_carry_the_compiler_message() {
    let e = regex::RegexBuilder::new("a(").case_insensitive(false).build().unwrap_err().to_string();
    assert_eq!(build_matcher("a(", true, true).err(), Some(format!("Invalid regex: {}", e)));
    let e2 = regex::RegexBuilder::new("[z-a]").case_insensitive(true).build().unwrap_err().to_string();
    assert_eq!(Matcher::regex("[z-a]", false).err(), Some(e2));
}
