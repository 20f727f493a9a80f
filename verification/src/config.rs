//! Application settings: their model, defaults, history lists, font-size
//! choices, and where the settings file is read from and written to.
//!
//! Reading and writing the file, and its TOML form, belong to the caller;
//! this module decides which file's settings are used and where the next
//! save goes: a settings file in the working directory (portable use) wins
//! over the one in the user's application-data folder.

use vstd::prelude::*;
use crate::text::{str_eq, str_to_string, trim, trim_str};

verus! {

/// Name of the settings file.
pub const CONFIG_FILE_NAME: &'static str = "JGrep3.toml";

/// Name of the folder under the application-data folder that holds it.
pub const CONFIG_APP_DIR: &'static str = "JGrep3";

/// The file mask shown when the mask history is empty.
pub const DEFAULT_MASK: &'static str = "*.*; !.git/";

/// Longest history list kept.
pub const HISTORY_MAX: usize = 100;

/// Default UI font family.
pub const DEFAULT_UI_FONT_FAMILY: &'static str = "Meiryo UI";

/// Default UI font size.
pub const DEFAULT_UI_FONT_SIZE: u32 = 16;

/// Default result-list font family.
pub const DEFAULT_LIST_FONT_FAMILY: &'static str = "Cascadia Code";

/// Default result-list font size.
pub const DEFAULT_LIST_FONT_SIZE: u32 = 14;

/// Default width of the folder tree.
pub const DEFAULT_TREE_WIDTH: u32 = 240;

/// Default width of the file-name column.
pub const DEFAULT_COL_FILENAME_WIDTH: u32 = 350;

/// Default width of the line-number column.
pub const DEFAULT_COL_LINE_WIDTH: u32 = 60;

/// Default width of the line-content column.
pub const DEFAULT_COL_CONTENT_WIDTH: u32 = 450;

/// Default main-window width.
pub const DEFAULT_WINDOW_WIDTH: u32 = 1000;

/// Default main-window height.
pub const DEFAULT_WINDOW_HEIGHT: u32 = 680;

/// Default UI font family, as a new string.
pub fn default_font_family() -> (res: String)
    ensures
        res@ == DEFAULT_UI_FONT_FAMILY@,
{
    str_to_string(DEFAULT_UI_FONT_FAMILY)
}

/// Default UI font size.
pub fn default_font_size() -> (res: u32)
    ensures
        res == DEFAULT_UI_FONT_SIZE,
{
    DEFAULT_UI_FONT_SIZE
}

/// Default result-list font family, as a new string.
pub fn default_list_font_family() -> (res: String)
    ensures
        res@ == DEFAULT_LIST_FONT_FAMILY@,
{
    str_to_string(DEFAULT_LIST_FONT_FAMILY)
}

/// Default result-list font size.
pub fn default_list_font_size() -> (res: u32)
    ensures
        res == DEFAULT_LIST_FONT_SIZE,
{
    DEFAULT_LIST_FONT_SIZE
}

/// Default folder-tree width.
pub fn default_tree_width() -> (res: u32)
    ensures
        res == DEFAULT_TREE_WIDTH,
{
    DEFAULT_TREE_WIDTH
}

/// Default file-name column width.
pub fn default_col_filename_width() -> (res: u32)
    ensures
        res == DEFAULT_COL_FILENAME_WIDTH,
{
    DEFAULT_COL_FILENAME_WIDTH
}

/// Default line-number column width.
pub fn default_col_line_width() -> (res: u32)
    ensures
        res == DEFAULT_COL_LINE_WIDTH,
{
    DEFAULT_COL_LINE_WIDTH
}

/// Default line-content column width.
pub fn default_col_content_width() -> (res: u32)
    ensures
        res == DEFAULT_COL_CONTENT_WIDTH,
{
    DEFAULT_COL_CONTENT_WIDTH
}

/// Default main-window width.
pub fn default_window_width() -> (res: u32)
    ensures
        res == DEFAULT_WINDOW_WIDTH,
{
    DEFAULT_WINDOW_WIDTH
}

/// Default main-window height.
pub fn default_window_height() -> (res: u32)
    ensures
        res == DEFAULT_WINDOW_HEIGHT,
{
    DEFAULT_WINDOW_HEIGHT
}

// ---------------------------------------------------------------------------
// Font choices
// ---------------------------------------------------------------------------

/// The UI font families offered in the settings.
pub open spec fn ui_font_family_names() -> Seq<Seq<char>> {
    seq![
        "Meiryo UI"@,
        "Yu Gothic UI"@,
        "MS UI Gothic"@,
        "Segoe UI"@,
        "Meiryo"@,
        "Yu Gothic"@,
        "Consolas"@,
    ]
}

/// The result-list font families offered in the settings (monospace first).
pub open spec fn list_font_family_names() -> Seq<Seq<char>> {
    seq![
        "Cascadia Code"@,
        "Cascadia Mono"@,
        "Consolas"@,
        "Courier New"@,
        "Meiryo UI"@,
        "MS Gothic"@,
        "Segoe UI"@,
    ]
}

/// The views of a list of strings.
pub open spec fn string_views(v: Seq<String>) -> Seq<Seq<char>> {
    v.map_values(|s: String| s@)
}

/// The UI font families offered in the settings.
pub fn ui_font_families() -> (res: Vec<String>)
    ensures
        string_views(res@) == ui_font_family_names(),
{
    let mut v: Vec<String> = Vec::new();
    v.push(str_to_string("Meiryo UI"));
    v.push(str_to_string("Yu Gothic UI"));
    v.push(str_to_string("MS UI Gothic"));
    v.push(str_to_string("Segoe UI"));
    v.push(str_to_string("Meiryo"));
    v.push(str_to_string("Yu Gothic"));
    v.push(str_to_string("Consolas"));
    assert(string_views(v@) =~= ui_font_family_names());
    v
}

/// The result-list font families offered in the settings.
pub fn list_font_families() -> (res: Vec<String>)
    ensures
        string_views(res@) == list_font_family_names(),
{
    let mut v: Vec<String> = Vec::new();
    v.push(str_to_string("Cascadia Code"));
    v.push(str_to_string("Cascadia Mono"));
    v.push(str_to_string("Consolas"));
    v.push(str_to_string("Courier New"));
    v.push(str_to_string("Meiryo UI"));
    v.push(str_to_string("MS Gothic"));
    v.push(str_to_string("Segoe UI"));
    assert(string_views(v@) =~= list_font_family_names());
    v
}

/// The font sizes offered in the settings, in increasing order.
pub open spec fn font_size_choices() -> Seq<u32> {
    seq![10, 11, 12, 13, 14, 15, 16, 18, 20, 22, 24]
}

/// The font sizes offered in the settings.
pub fn font_sizes() -> (res: Vec<u32>)
    ensures
        res@ == font_size_choices(),
{
    let v: Vec<u32> = vec![10, 11, 12, 13, 14, 15, 16, 18, 20, 22, 24];
    assert(v@ =~= font_size_choices());
    v
}

/// `x` reduced to the `i32` range by one wrap-around of 2^32 (two's
/// complement), for `x` within one wrap of that range.
pub open spec fn wrap_i32(x: int) -> int {
    if x > i32::MAX {
        x - 0x1_0000_0000
    } else if x < i32::MIN {
        x + 0x1_0000_0000
    } else {
        x
    }
}

/// The distance between a size choice `s` and a requested `size`, computed
/// in `i32` as two's complement wraps it: `|(s as i32) - (size as i32)|`.
pub open spec fn size_distance(s: u32, size: u32) -> int {
    let d = wrap_i32(s - wrap_i32(size as int));
    if d < 0 {
        -d
    } else {
        d
    }
}

/// `i` is the first index of a size choice nearest to `size`.
pub open spec fn is_nearest_size_index(i: int, size: u32) -> bool {
    let c = font_size_choices();
    &&& 0 <= i < c.len()
    &&& forall|j: int| 0 <= j < c.len() ==> size_distance(c[i], size) <= size_distance(#[trigger] c[j], size)
    &&& forall|j: int| 0 <= j < i ==> size_distance(c[i], size) < size_distance(#[trigger] c[j], size)
}

/// The distance between choice `s` and `size`.
fn choice_distance(s: u32, size: u32) -> (d: i64)
    requires
        10 <= s <= 24,
    ensures
        d == size_distance(s, size),
{
    let a: i64 = if size > 0x7fff_ffffu32 {
        size as i64 - 0x1_0000_0000i64
    } else {
        size as i64
    };
    let mut d: i64 = s as i64 - a;
    if d > 0x7fff_ffffi64 {
        d = d - 0x1_0000_0000i64;
    }
    if d < 0 {
        -d
    } else {
        d
    }
}

/// Index of the font-size choice for `size`: its own index when it is a
/// choice, else the first nearest choice.
pub fn font_size_index(size: u32) -> (res: usize)
    ensures
        is_nearest_size_index(res as int, size),
        font_size_choices().contains(size) ==> font_size_choices()[res as int] == size,
{
    let sizes = font_sizes();
    let mut best: usize = 0;
    let mut best_d: i64 = choice_distance(sizes[0], size);
    let mut i: usize = 1;
    while i < sizes.len()
        invariant
            sizes@ == font_size_choices(),
            1 <= i <= sizes@.len(),
            best < i,
            best_d == size_distance(sizes@[best as int], size),
            forall|j: int| 0 <= j < i ==> best_d <= size_distance(#[trigger] sizes@[j], size),
            forall|j: int| 0 <= j < best ==> best_d < size_distance(#[trigger] sizes@[j], size),
        decreases sizes@.len() - i,
    {
        let d = choice_distance(sizes[i], size);
        if d < best_d {
            best = i;
            best_d = d;
        }
        i = i + 1;
    }
    proof {
        let c = font_size_choices();
        if c.contains(size) {
            let k = choose|k: int| 0 <= k < c.len() && c[k] == size;
            assert(size_distance(c[k], size) == 0);
            assert(best_d <= 0);
            if c[best as int] != size {
                assert(size_distance(c[best as int], size) > 0);
            }
        }
    }
    best
}

// ---------------------------------------------------------------------------
// Settings model
// ---------------------------------------------------------------------------

/// Recently used search texts, folders and masks, newest first.
#[derive(Debug, Clone)]
pub struct HistoryConfig {
    pub query: Vec<String>,
    pub dir: Vec<String>,
    pub mask: Vec<String>,
}

impl Default for HistoryConfig {
    fn default() -> (res: Self)
        ensures
            res.query@.len() == 0,
            res.dir@.len() == 0,
            res.mask@.len() == 0,
    {
        HistoryConfig { query: Vec::new(), dir: Vec::new(), mask: Vec::new() }
    }
}

/// Window and pane sizes, in logical (96-DPI) pixels.
#[derive(Debug, Clone)]
pub struct LayoutConfig {
    /// Folder-tree width.
    pub tree_width: u32,
    /// Result-list column widths.
    pub col_filename_width: u32,
    pub col_line_width: u32,
    pub col_content_width: u32,
    /// Main-window size.
    pub window_width: u32,
    pub window_height: u32,
    /// Main-window position; `None` leaves it to the system.
    pub window_x: Option<i32>,
    pub window_y: Option<i32>,
}

impl Default for LayoutConfig {
    fn default() -> (res: Self)
        ensures
            res.tree_width == DEFAULT_TREE_WIDTH,
            res.col_filename_width == DEFAULT_COL_FILENAME_WIDTH,
            res.col_line_width == DEFAULT_COL_LINE_WIDTH,
            res.col_content_width == DEFAULT_COL_CONTENT_WIDTH,
            res.window_width == DEFAULT_WINDOW_WIDTH,
            res.window_height == DEFAULT_WINDOW_HEIGHT,
            res.window_x is None,
            res.window_y is None,
    {
        LayoutConfig {
            tree_width: default_tree_width(),
            col_filename_width: default_col_filename_width(),
            col_line_width: default_col_line_width(),
            col_content_width: default_col_content_width(),
            window_width: default_window_width(),
            window_height: default_window_height(),
            window_x: None,
            window_y: None,
        }
    }
}

/// Default editor command.
pub fn default_editor_path() -> (res: String)
    ensures
        res@ == "code.exe"@,
{
    str_to_string("code.exe")
}

/// Default editor arguments (placeholders filled in per result).
pub fn default_editor_args() -> (res: String)
    ensures
        res@ == "-g %FILENAME%:%LINE%:%COL%"@,
{
    str_to_string("-g %FILENAME%:%LINE%:%COL%")
}

/// The external editor that opens a result.
#[derive(Debug, Clone)]
pub struct EditorConfig {
    /// Editor program.
    pub path: String,
    /// Argument template.
    pub args: String,
}

impl Default for EditorConfig {
    fn default() -> (res: Self)
        ensures
            res.path@ == "code.exe"@,
            res.args@ == "-g %FILENAME%:%LINE%:%COL%"@,
    {
        EditorConfig { path: default_editor_path(), args: default_editor_args() }
    }
}

/// Theme and fonts.
#[derive(Debug, Clone)]
pub struct AppearanceConfig {
    /// 0: follow the system, 1: light, 2: dark.
    pub theme: usize,
    pub font_family: String,
    pub font_size: u32,
    pub list_font_family: String,
    pub list_font_size: u32,
}

impl Default for AppearanceConfig {
    fn default() -> (res: Self)
        ensures
            res.theme == 0,
            res.font_family@ == DEFAULT_UI_FONT_FAMILY@,
            res.font_size == DEFAULT_UI_FONT_SIZE,
            res.list_font_family@ == DEFAULT_LIST_FONT_FAMILY@,
            res.list_font_size == DEFAULT_LIST_FONT_SIZE,
    {
        AppearanceConfig {
            theme: 0,
            font_family: default_font_family(),
            font_size: default_font_size(),
            list_font_family: default_list_font_family(),
            list_font_size: default_list_font_size(),
        }
    }
}

/// All settings.
#[derive(Debug, Clone)]
pub struct AppConfig {
    pub history: HistoryConfig,
    pub layout: LayoutConfig,
    pub editor: EditorConfig,
    pub appearance: AppearanceConfig,
}

/// The settings used when no settings file is read.
pub open spec fn is_default_config(c: AppConfig) -> bool {
    &&& c.history.query@.len() == 0
    &&& c.history.dir@.len() == 0
    &&& c.history.mask@.len() == 0
    &&& c.layout.tree_width == DEFAULT_TREE_WIDTH
    &&& c.layout.col_filename_width == DEFAULT_COL_FILENAME_WIDTH
    &&& c.layout.col_line_width == DEFAULT_COL_LINE_WIDTH
    &&& c.layout.col_content_width == DEFAULT_COL_CONTENT_WIDTH
    &&& c.layout.window_width == DEFAULT_WINDOW_WIDTH
    &&& c.layout.window_height == DEFAULT_WINDOW_HEIGHT
    &&& c.layout.window_x is None
    &&& c.layout.window_y is None
    &&& c.editor.path@ == "code.exe"@
    &&& c.editor.args@ == "-g %FILENAME%:%LINE%:%COL%"@
    &&& c.appearance.theme == 0
    &&& c.appearance.font_family@ == DEFAULT_UI_FONT_FAMILY@
    &&& c.appearance.font_size == DEFAULT_UI_FONT_SIZE
    &&& c.appearance.list_font_family@ == DEFAULT_LIST_FONT_FAMILY@
    &&& c.appearance.list_font_size == DEFAULT_LIST_FONT_SIZE
}

impl Default for AppConfig {
    fn default() -> (res: Self)
        ensures
            is_default_config(res),
    {
        AppConfig {
            history: HistoryConfig::default(),
            layout: LayoutConfig::default(),
            editor: EditorConfig::default(),
            appearance: AppearanceConfig::default(),
        }
    }
}

// ---------------------------------------------------------------------------
// History lists
// ---------------------------------------------------------------------------

/// The entries that differ from `v`.
pub open spec fn not_equal_to(v: Seq<char>) -> spec_fn(Seq<char>) -> bool {
    |x: Seq<char>| x != v
}

/// The history list after using `value`: the trimmed value moves to the
/// front, earlier copies of it are dropped, and the list is cut to
/// `HISTORY_MAX` entries. A value that is empty after trimming leaves the
/// list as it was.
pub open spec fn history_after(list: Seq<Seq<char>>, value: Seq<char>) -> Seq<Seq<char>> {
    let v = trim(value);
    if v.len() == 0 {
        list
    } else {
        let r = seq![v] + list.filter(not_equal_to(v));
        if r.len() > HISTORY_MAX {
            r.take(HISTORY_MAX as int)
        } else {
            r
        }
    }
}

/// Records `value` as the newest entry of the history `list`.
pub fn push_history(list: &mut Vec<String>, value: &str)
    ensures
        string_views(final(list)@) == history_after(string_views(old(list)@), value@),
{
    let v = trim_str(value);
    if v.as_str().is_empty() {
        return;
    }
    let ghost old_views = string_views(list@);
    let ghost pred = not_equal_to(v@);
    let mut out: Vec<String> = Vec::new();
    out.push(str_to_string(v.as_str()));
    let mut i: usize = 0;
    proof {
        assert(old_views.take(0) =~= Seq::<Seq<char>>::empty());
        reveal(Seq::filter);
        assert(Seq::<Seq<char>>::empty().filter(pred) =~= Seq::<Seq<char>>::empty());
        assert(string_views(out@) =~= seq![v@] + old_views.take(0).filter(pred));
    }
    while i < list.len()
        invariant
            i <= list@.len(),
            old_views == string_views(list@),
            pred == not_equal_to(v@),
            v@.len() > 0,
            string_views(out@) == seq![v@] + old_views.take(i as int).filter(pred),
        decreases list@.len() - i,
    {
        let same = str_eq(list[i].as_str(), v.as_str());
        let ghost before = string_views(out@);
        proof {
            reveal(Seq::filter);
            assert(old_views.take(i + 1).drop_last() =~= old_views.take(i as int));
            assert(old_views.take(i + 1).last() == list@[i as int]@);
        }
        if !same {
            out.push(str_to_string(list[i].as_str()));
            proof {
                assert(string_views(out@) =~= before.push(list@[i as int]@));
                assert(seq![v@] + old_views.take(i + 1).filter(pred) =~= (seq![v@] + old_views.take(i as int).filter(pred)).push(list@[i as int]@));
            }
        }
        i = i + 1;
    }
    proof {
        assert(old_views.take(list@.len() as int) =~= old_views);
    }
    if out.len() > HISTORY_MAX {
        out.truncate(HISTORY_MAX);
        proof {
            assert(string_views(out@) =~= (seq![v@] + old_views.filter(pred)).take(HISTORY_MAX as int));
        }
    }
    *list = out;
}

/// Filtering keeps a sequence whose entries all pass.
proof fn lemma_filter_all(s: Seq<Seq<char>>, p: spec_fn(Seq<char>) -> bool)
    requires
        forall|i: int| 0 <= i < s.len() ==> p(#[trigger] s[i]),
    ensures
        s.filter(p) == s,
    decreases s.len(),
{
    reveal(Seq::filter);
    if s.len() > 0 {
        lemma_filter_all(s.drop_last(), p);
        assert(s.drop_last().push(s.last()) =~= s);
    }
}

/// Entries of a filtered sequence come from the sequence and pass the filter.
proof fn lemma_filter_entries(s: Seq<Seq<char>>, p: spec_fn(Seq<char>) -> bool)
    ensures
        forall|i: int| 0 <= i < s.filter(p).len() ==> p(#[trigger] s.filter(p)[i]) && s.contains(s.filter(p)[i]),
        s.filter(p).len() <= s.len(),
    decreases s.len(),
{
    reveal(Seq::filter);
    if s.len() > 0 {
        lemma_filter_entries(s.drop_last(), p);
        let f = s.filter(p);
        let g = s.drop_last().filter(p);
        assert forall|i: int| 0 <= i < f.len() implies p(#[trigger] f[i]) && s.contains(f[i]) by {
            if i < g.len() {
                assert(f[i] == g[i]);
                let k = choose|k: int| 0 <= k < s.drop_last().len() && s.drop_last()[k] == g[i];
                assert(s[k] == f[i]);
            } else {
                assert(f[i] == s.last());
                assert(s[s.len() - 1] == f[i]);
            }
        }
    }
}

/// Filtering keeps distinct entries distinct.
proof fn lemma_filter_distinct(s: Seq<Seq<char>>, p: spec_fn(Seq<char>) -> bool)
    requires
        no_duplicates(s),
    ensures
        no_duplicates(s.filter(p)),
    decreases s.len(),
{
    reveal(Seq::filter);
    if s.len() > 0 {
        let d = s.drop_last();
        assert(no_duplicates(d));
        lemma_filter_distinct(d, p);
        lemma_filter_entries(d, p);
        let g = d.filter(p);
        if p(s.last()) {
            assert forall|i: int| 0 <= i < g.len() implies g[i] != s.last() by {
                let k = choose|k: int| 0 <= k < d.len() && d[k] == g[i];
                assert(s[k] == g[i]);
                assert(s[s.len() - 1] == s.last());
            }
            let f = g.push(s.last());
            assert forall|i: int, j: int| 0 <= i < j < f.len() implies f[i] != f[j] by {
                if j == f.len() - 1 {
                    assert(f[i] == g[i]);
                } else {
                    assert(f[i] == g[i] && f[j] == g[j]);
                }
            }
        }
    }
}

/// No entry occurs twice.
pub open spec fn no_duplicates(s: Seq<Seq<char>>) -> bool {
    forall|i: int, j: int| 0 <= i < j < s.len() ==> s[i] != s[j]
}

/// Using a value puts its trimmed form first, and nowhere else; the list
/// never grows beyond `HISTORY_MAX` entries; every other entry was in the
/// list before.
pub proof fn law_history_front(list: Seq<Seq<char>>, value: Seq<char>)
    requires
        trim(value).len() > 0,
    ensures
        history_after(list, value).len() >= 1,
        history_after(list, value)[0] == trim(value),
        forall|i: int| 1 <= i < history_after(list, value).len() ==> #[trigger] history_after(list, value)[i] != trim(value)
            && list.contains(history_after(list, value)[i]),
        history_after(list, value).len() <= HISTORY_MAX,
{
    let v = trim(value);
    let f = list.filter(not_equal_to(v));
    lemma_filter_entries(list, not_equal_to(v));
    let r = seq![v] + f;
    let h = history_after(list, value);
    assert forall|i: int| 1 <= i < h.len() implies #[trigger] h[i] != v && list.contains(h[i]) by {
        assert(h[i] == r[i]);
        assert(r[i] == f[i - 1]);
        assert(not_equal_to(v)(f[i - 1]));
    }
}

/// A value that is empty after trimming leaves the history unchanged.
pub proof fn law_history_blank_ignored(list: Seq<Seq<char>>, value: Seq<char>)
    requires
        trim(value).len() == 0,
    ensures
        history_after(list, value) == list,
{
}

/// Using the same value twice in a row gives the same history as using it once.
pub proof fn law_history_idempotent(list: Seq<Seq<char>>, value: Seq<char>)
    ensures
        history_after(history_after(list, value), value) == history_after(list, value),
{
    let v = trim(value);
    if v.len() > 0 {
        let p = not_equal_to(v);
        let h = history_after(list, value);
        law_history_front(list, value);
        let tail = h.drop_first();
        assert(h =~= seq![v] + tail);
        assert forall|i: int| 0 <= i < tail.len() implies p(#[trigger] tail[i]) by {
            assert(tail[i] == h[i + 1]);
        }
        lemma_filter_all(tail, p);
        reveal(Seq::filter);
        assert(seq![v].filter(p) =~= Seq::<Seq<char>>::empty()) by {
            reveal(Seq::filter);
            let one = seq![v];
            assert(one.drop_last() =~= Seq::<Seq<char>>::empty());
            assert(one.drop_last().filter(p) =~= Seq::<Seq<char>>::empty());
            assert(one.last() == v);
            assert(!p(v));
        }
        Seq::filter_distributes_over_add(seq![v], tail, p);
        assert(h.filter(p) =~= tail);
        assert(seq![v] + h.filter(p) =~= h);
    }
}

/// A history without repeated entries stays so.
pub proof fn law_history_distinct(list: Seq<Seq<char>>, value: Seq<char>)
    requires
        no_duplicates(list),
    ensures
        no_duplicates(history_after(list, value)),
{
    let v = trim(value);
    if v.len() > 0 {
        let p = not_equal_to(v);
        lemma_filter_distinct(list, p);
        lemma_filter_entries(list, p);
        let f = list.filter(p);
        let r = seq![v] + f;
        assert forall|i: int, j: int| 0 <= i < j < r.len() implies r[i] != r[j] by {
            assert(r[j] == f[j - 1]);
            assert(p(f[j - 1]));
            if i > 0 {
                assert(r[i] == f[i - 1]);
            }
        }
        let h = history_after(list, value);
        assert forall|i: int, j: int| 0 <= i < j < h.len() implies h[i] != h[j] by {
            assert(h[i] == r[i] && h[j] == r[j]);
        }
    }
}

// ---------------------------------------------------------------------------
// Where the settings file is
// ---------------------------------------------------------------------------

/// The settings file used in portable mode: `JGrep3.toml` in the working directory.
pub fn portable_config_path() -> (res: String)
    ensures
        res@ == CONFIG_FILE_NAME@,
{
    str_to_string(CONFIG_FILE_NAME)
}

/// Remembers the settings file last read or written.
pub struct ConfigStore {
    /// The remembered path, if any.
    pub path: Option<String>,
}

impl ConfigStore {
    /// A store that remembers no path yet.
    pub fn new() -> (res: ConfigStore)
        ensures
            res.path is None,
    {
        ConfigStore { path: None }
    }

    /// Remembers `path` as the settings file.
    pub fn set_config_path(&mut self, path: String)
        ensures
            final(self).path == Some(path),
    {
        self.path = Some(path);
    }

    /// Where the next save goes: the remembered file; else the portable file
    /// when it exists; else the file in the application-data folder.
    pub fn resolve_save_path(&self, portable_is_file: bool, appdata_path: &str) -> (res: String)
        ensures
            res@ == (match self.path {
                Some(p) => p@,
                None => if portable_is_file {
                    CONFIG_FILE_NAME@
                } else {
                    appdata_path@
                },
            }),
    {
        match &self.path {
            Some(p) => str_to_string(p.as_str()),
            None => if portable_is_file {
                portable_config_path()
            } else {
                str_to_string(appdata_path)
            },
        }
    }
}

/// Picks the settings to use: those of the portable file when it was read
/// and parsed (`portable`), else those of the application-data file
/// (`appdata`), else the defaults. The store remembers the file used, and
/// the application-data file when defaults are used, so that the first save
/// goes there.
pub fn load_config(
    store: &mut ConfigStore,
    portable: Option<AppConfig>,
    appdata: Option<AppConfig>,
    appdata_path: &str,
) -> (res: AppConfig)
    ensures
        match portable {
            Some(c) => res == c && (final(store).path matches Some(p) && p@ == CONFIG_FILE_NAME@),
            None => match appdata {
                Some(c) => res == c && (final(store).path matches Some(p) && p@ == appdata_path@),
                None => is_default_config(res) && (final(store).path matches Some(p) && p@ == appdata_path@),
            },
        },
{
    match portable {
        Some(c) => {
            store.set_config_path(portable_config_path());
            c
        },
        None => match appdata {
            Some(c) => {
                store.set_config_path(str_to_string(appdata_path));
                c
            },
            None => {
                store.set_config_path(str_to_string(appdata_path));
                AppConfig::default()
            },
        },
    }
}

/// The text a history field starts with: the newest entry, or `fallback`
/// when the history is empty.
pub fn history_text(history: &[String], fallback: &str) -> (res: String)
    ensures
        res@ == (if history@.len() > 0 { history@[0]@ } else { fallback@ }),
{
    if history.len() > 0 {
        str_to_string(history[0].as_str())
    } else {
        str_to_string(fallback)
    }
}

} // verus!
