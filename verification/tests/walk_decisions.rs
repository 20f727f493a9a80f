use jgrep3::search::gitignore::{GitIgnore, SearchFilter};
use jgrep3::search::walk::{EntryAction, WalkConfig, entry_action, ignore_file_names, is_ignored};
use jgrep3::text::{utf16_to_string, wide_to_string};

/// An in-memory directory tree: files with their contents, under a root.
struct Tree {
    files: Vec<(String, String)>,
}

impl Tree {
    fn children(&self, dir: &str) -> Vec<(String, bool)> {
        let prefix = format!("{}/", dir);
        let mut out: Vec<(String, bool)> = Vec::new();
        for (path, _) in &self.files {
            if let Some(rest) = path.strip_prefix(&prefix) {
                let (name, is_dir) = match rest.find('/') {
                    Some(i) => (&rest[..i], true),
                    None => (rest, false),
                };
                if !out.iter().any(|(n, _)| n == name) {
                    out.push((String::from(name), is_dir));
                }
            }
        }
        out.sort();
        out
    }

    fn content(&self, path: &str) -> Option<&String> {
        self.files.iter().find(|(p, _)| p == path).map(|(_, c)| c)
    }
}

fn load_ignores(tree: &Tree, dir: &str) -> Vec<GitIgnore> {
    let mut v = Vec::new();
    for name in ignore_file_names() {
        if let Some(c) = tree.content(&format!("{}/{}", dir, name)) {
            v.push(GitIgnore::new(String::from(dir), c));
        }
    }
    v
}

/// Walks `dir` as the search does: the ignore files of `dir` and of every
/// folder above it up to `root` apply.
fn walk(tree: &Tree, root: &str, dir: &str, cfg: &WalkConfig, out: &mut Vec<String>) {
    let mut ignores: Vec<GitIgnore> = Vec::new();
    let mut d = String::from(root);
    loop {
        if cfg.apply_ignore_files {
            ignores.extend(load_ignores(tree, &d));
        }
        if d == dir {
            break;
        }
        let rest = &dir[d.len() + 1..];
        let next = rest.split('/').next().unwrap();
        d = format!("{}/{}", d, next);
    }
    for (name, is_dir) in tree.children(dir) {
        let path = format!("{}/{}", dir, name);
        let rel = String::from(&path[root.len() + 1..]);
        match entry_action(cfg, &ignores, &name, &path, &rel, is_dir) {
            EntryAction::Descend => walk(tree, root, &path, cfg, out),
            EntryAction::Emit => out.push(rel),
            EntryAction::Skip => {}
        }
    }
}

fn collect(tree: &Tree, cfg: &WalkConfig) -> Vec<String> {
    let mut out = Vec::new();
    walk(tree, "/r", "/r", cfg, &mut out);
    out.sort();
    out
}

fn tree(paths: &[(&str, &str)]) -> Tree {
    Tree {
        files: paths.iter().map(|(p, c)| (format!("/r/{}", p), String::from(*c))).collect(),
    }
}

#[test]
fn collects_root_files_non_recursive() {
    let t = tree(&[("a.txt", "a"), ("b.rs", "b"), ("sub/c.txt", "c")]);
    let cfg = WalkConfig { recursive: false, filter: SearchFilter::new("*.txt"), apply_ignore_files: false };
    assert_eq!(collect(&t, &cfg), vec!["a.txt".to_string()]);
}

#[test]
fn recursive_respects_dir_masks() {
    let t = tree(&[
        ("root.txt", "r"),
        ("src/main.rs", "m"),
        (".git/config", "g"),
        ("src/nested/lib.rs", "l"),
    ]);
    let cfg = WalkConfig { recursive: true, filter: SearchFilter::new("!.git/"), apply_ignore_files: false };
    assert_eq!(
        collect(&t, &cfg),
        vec!["root.txt".to_string(), "src/main.rs".to_string(), "src/nested/lib.rs".to_string()]
    );
}

#[test]
fn parallel_collects_recursive() {
    let t = tree(&[
        ("root.txt", "r"),
        ("src/main.rs", "m"),
        (".git/config", "g"),
        ("lib/helper.rs", "h"),
    ]);
    let cfg = WalkConfig { recursive: true, filter: SearchFilter::new("*.rs; !.git/"), apply_ignore_files: false };
    assert_eq!(collect(&t, &cfg), vec!["lib/helper.rs".to_string(), "src/main.rs".to_string()]);
}

#[test]
fn recursive_respects_ignore_files() {
    let t = tree(&[
        ("root.txt", "r"),
        ("src/main.rs", "m"),
        ("src/nested/lib.rs", "l"),
        ("target/debug/app.exe", "e"),
        (".ignore", "target/\nsrc/nested/"),
    ]);
    let cfg = WalkConfig { recursive: true, filter: SearchFilter::new(""), apply_ignore_files: true };
    assert_eq!(
        collect(&t, &cfg),
        vec![".ignore".to_string(), "root.txt".to_string(), "src/main.rs".to_string()]
    );
}

#[test]
fn dot_entries_are_skipped() {
    let cfg = WalkConfig { recursive: true, filter: SearchFilter::new(""), apply_ignore_files: false };
    assert_eq!(entry_action(&cfg, &[], ".", "/r/.", ".", true), EntryAction::Skip);
    assert_eq!(entry_action(&cfg, &[], "..", "/r/..", "..", true), EntryAction::Skip);
    assert_eq!(entry_action(&cfg, &[], "...", "/r/...", "...", false), EntryAction::Emit);
}

#[test]
fn any_ignore_set_ignores() {
    let a = GitIgnore::new(String::from("/r"), "*.tmp");
    let b = GitIgnore::new(String::from("/r/sub"), "*.bak");
    let sets = vec![a, b];
    assert!(is_ignored("/r/x.tmp", false, &sets));
    assert!(is_ignored("/r/sub/y.bak", false, &sets));
    assert!(!is_ignored("/r/y.bak", false, &sets));
}

#[test]
fn ignore_file_order() {
    assert_eq!(ignore_file_names(), vec![".gitignore", ".ignore", ".rgignore"]);
}

#[test]
fn wide_strings_stop_at_nul() {
    let w: Vec<u16> = "C:\\dir".encode_utf16().chain([0u16, 65, 66]).collect();
    assert_eq!(wide_to_string(&w), "C:\\dir");
    let no_nul: Vec<u16> = "ab".encode_utf16().collect();
    assert_eq!(wide_to_string(&no_nul), "ab");
    assert_eq!(wide_to_string(&[0xD800u16, 0]), "\u{FFFD}");
}

#[test]
fn utf16_pairs_and_lone_surrogates() {
    assert_eq!(wide_to_string(&[0xD83D, 0xDE00, 0x41, 0xD800, 0x42, 0, 0x43]), "\u{1F600}A\u{FFFD}B");
    assert_eq!(utf16_to_string(&[0x61, 0xDC00]), None);
    assert_eq!(utf16_to_string(&[0xD83D, 0xDE00]), Some(String::from("\u{1F600}")));
}
