//! The result list of the main window: sorting it by a column, following
//! the progress messages of a running search, the status-bar texts, and
//! the checks made before a search starts.

use vstd::prelude::*;
use crate::search::{SearchResultItem, SearchStatus, ItemView, item_views};
use crate::order::{SortKey, KeyView, chars_lt, is_stable_order, key_views, stable_order};
use crate::text::{decimal, str_concat, str_to_string, trim, trim_str, u64_to_decimal, usize_to_decimal};

verus! {

// ---------------------------------------------------------------------------
// Sorting by a column
// ---------------------------------------------------------------------------

/// The sort key of a result for column `col`: the file path (0), the line
/// number (1) or the line content (2); other columns do not order results.
pub open spec fn result_key(it: ItemView, col: usize) -> KeyView {
    if col == 0 {
        (it.0, 0usize)
    } else if col == 1 {
        (Seq::<char>::empty(), it.1)
    } else if col == 2 {
        (it.3, 0usize)
    } else {
        (Seq::<char>::empty(), 0usize)
    }
}

/// The sort keys of the results for column `col`.
pub open spec fn result_keys(items: Seq<ItemView>, col: usize) -> Seq<KeyView> {
    items.map_values(|it: ItemView| result_key(it, col))
}

/// `after` holds the entries of `before` in the order `p`.
pub open spec fn permuted(before: Seq<ItemView>, p: Seq<usize>, after: Seq<ItemView>) -> bool {
    &&& after.len() == p.len()
    &&& forall|i: int| 0 <= i < p.len() ==> after[i] == before[#[trigger] p[i] as int]
}

/// A copy of a result.
pub fn copy_item(it: &SearchResultItem) -> (res: SearchResultItem)
    ensures
        res@ == it@,
{
    SearchResultItem {
        file_path: str_to_string(it.file_path.as_str()),
        line_number: it.line_number,
        column_number: it.column_number,
        line_content: str_to_string(it.line_content.as_str()),
    }
}

/// The sort key of a result for column `col`.
fn result_sort_key(it: &SearchResultItem, col: usize) -> (k: SortKey)
    ensures
        k@ == result_key(it@, col),
{
    if col == 0 {
        SortKey { text: crate::text::str_to_chars(it.file_path.as_str()), number: 0 }
    } else if col == 1 {
        let k = SortKey { text: Vec::new(), number: it.line_number };
        assert(k.text@ =~= Seq::<char>::empty());
        k
    } else if col == 2 {
        SortKey { text: crate::text::str_to_chars(it.line_content.as_str()), number: 0 }
    } else {
        let k = SortKey { text: Vec::new(), number: 0 };
        assert(k.text@ =~= Seq::<char>::empty());
        k
    }
}

/// Sorts the results by column `col_idx`, stably, ascending or descending.
pub fn sort_results(results: &mut Vec<SearchResultItem>, col_idx: usize, ascending: bool)
    ensures
        exists|p: Seq<usize>|
            is_stable_order(result_keys(item_views(old(results)@), col_idx), ascending, p)
                && permuted(item_views(old(results)@), p, item_views(final(results)@)),
        sorted_by_column(item_views(final(results)@), col_idx, ascending),
{
    let ghost before = item_views(results@);
    let mut keys: Vec<SortKey> = Vec::new();
    let mut i: usize = 0;
    while i < results.len()
        invariant
            i <= results@.len(),
            before == item_views(results@),
            key_views(keys@) == result_keys(before, col_idx).take(i as int),
        decreases results@.len() - i,
    {
        let k = result_sort_key(&results[i], col_idx);
        let ghost kb = key_views(keys@);
        keys.push(k);
        proof {
            assert(key_views(keys@) =~= kb.push(k@));
            assert(result_keys(before, col_idx).take(i + 1) =~= result_keys(before, col_idx).take(i as int).push(result_key(before[i as int], col_idx)));
        }
        i = i + 1;
    }
    proof {
        assert(result_keys(before, col_idx).take(results@.len() as int) =~= result_keys(before, col_idx));
    }
    let p = stable_order(keys.as_slice(), ascending);
    let mut out: Vec<SearchResultItem> = Vec::new();
    let mut j: usize = 0;
    while j < p.len()
        invariant
            j <= p@.len(),
            before == item_views(results@),
            is_stable_order(result_keys(before, col_idx), ascending, p@),
            item_views(out@).len() == j,
            forall|a: int| 0 <= a < j ==> item_views(out@)[a] == before[#[trigger] p@[a] as int],
        decreases p@.len() - j,
    {
        assert(p@[j as int] < before.len());
        let it = copy_item(&results[p[j]]);
        let ghost ob = item_views(out@);
        out.push(it);
        proof {
            assert(item_views(out@) =~= ob.push(it@));
        }
        j = j + 1;
    }
    proof {
        assert(permuted(before, p@, item_views(out@)));
        law_sort_orders_by_column(before, p@, item_views(out@), col_idx, ascending);
    }
    *results = out;
}

/// `first` may stand before `second` when sorting by column `col` in the
/// given direction: by file path (0) or line content (2) in code-point
/// order, by line number (1); other columns put no order on results.
pub open spec fn column_in_order(first: ItemView, second: ItemView, col: usize, ascending: bool) -> bool {
    if col == 0 {
        if ascending { !chars_lt(second.0, first.0) } else { !chars_lt(first.0, second.0) }
    } else if col == 1 {
        if ascending { first.1 <= second.1 } else { first.1 >= second.1 }
    } else if col == 2 {
        if ascending { !chars_lt(second.3, first.3) } else { !chars_lt(first.3, second.3) }
    } else {
        true
    }
}

/// The results are sorted by column `col` in the given direction.
pub open spec fn sorted_by_column(items: Seq<ItemView>, col: usize, ascending: bool) -> bool {
    forall|i: int, j: int|
        0 <= i < j < items.len() ==> column_in_order(#[trigger] items[i], #[trigger] items[j], col, ascending)
}

/// Sorting by a column orders the results by that column's field: the file
/// path, the line number or the line content, ascending or descending.
pub proof fn law_sort_orders_by_column(
    before: Seq<ItemView>,
    p: Seq<usize>,
    after: Seq<ItemView>,
    col: usize,
    ascending: bool,
)
    requires
        is_stable_order(result_keys(before, col), ascending, p),
        permuted(before, p, after),
    ensures
        sorted_by_column(after, col, ascending),
{
    let keys = result_keys(before, col);
    assert forall|i: int, j: int| 0 <= i < j < after.len() implies column_in_order(
        #[trigger] after[i],
        #[trigger] after[j],
        col,
        ascending,
    ) by {
        assert(after[i] == before[p[i] as int]);
        assert(after[j] == before[p[j] as int]);
        assert(!crate::order::goes_before(keys[p[j] as int], keys[p[i] as int], ascending));
        assert(keys[p[i] as int] == result_key(before[p[i] as int], col));
        assert(keys[p[j] as int] == result_key(before[p[j] as int], col));
        assert(!chars_lt(Seq::<char>::empty(), Seq::<char>::empty()));
    }
}

/// The sort after a click on column `clicked`: the same column again flips
/// the direction, another column sorts by it ascending.
pub fn next_sort(current_col: usize, ascending: bool, clicked: usize) -> (res: (usize, bool))
    ensures
        res == (if current_col == clicked { (current_col, !ascending) } else { (clicked, true) }),
{
    if current_col == clicked {
        (current_col, !ascending)
    } else {
        (clicked, true)
    }
}

/// The sort arrow of column `col` in the header: up (`Some(true)`) or down
/// on the sorted column, none elsewhere.
pub fn sort_arrow(sorted_col: Option<usize>, ascending: bool, col: usize) -> (res: Option<bool>)
    ensures
        res == (if sorted_col == Some(col) { Some(ascending) } else { None::<bool> }),
{
    match sorted_col {
        Some(c) => if c == col {
            Some(ascending)
        } else {
            None
        },
        None => None,
    }
}

// ---------------------------------------------------------------------------
// Status texts
// ---------------------------------------------------------------------------

/// Status while a search runs, after `scanned` files.
pub open spec fn progress_text(scanned: nat) -> Seq<char> {
    "検索中... (走査済みファイル数: "@ + decimal(scanned) + ")"@
}

/// `r` (below 1000) with leading zeros to three digits.
pub open spec fn three_digits(r: nat) -> Seq<char> {
    if r < 10 {
        "00"@ + decimal(r)
    } else if r < 100 {
        "0"@ + decimal(r)
    } else {
        decimal(r)
    }
}

/// A duration in milliseconds as seconds with three decimals.
pub open spec fn seconds_text(ms: nat) -> Seq<char> {
    decimal(ms / 1000) + "."@ + three_digits(ms % 1000)
}

/// Status after a search: matches, files scanned and time taken.
pub open spec fn completed_text(elapsed_ms: nat, total_scanned: nat, match_count: nat) -> Seq<char> {
    "検索完了。"@ + decimal(match_count) + " 個のマッチ (走査: "@ + decimal(total_scanned) + ", 時間: "@
        + seconds_text(elapsed_ms) + "秒)"@
}

/// Status after a search stopped on an error.
pub open spec fn error_status_text() -> Seq<char> {
    "エラーにより検索を中止しました。"@
}

/// Status while a search runs, after `scanned` files.
pub fn progress_status(scanned: usize) -> (res: String)
    ensures
        res@ == progress_text(scanned as nat),
{
    let a = str_concat("検索中... (走査済みファイル数: ", usize_to_decimal(scanned).as_str());
    str_concat(a.as_str(), ")")
}

/// `r` with leading zeros to three digits.
fn three_digit_string(r: u64) -> (res: String)
    requires
        r < 1000,
    ensures
        res@ == three_digits(r as nat),
{
    let d = u64_to_decimal(r);
    if r < 10 {
        str_concat("00", d.as_str())
    } else if r < 100 {
        str_concat("0", d.as_str())
    } else {
        d
    }
}

/// Status after a search: matches, files scanned and time taken (seconds,
/// three decimals).
pub fn completed_status(elapsed_ms: u64, total_scanned: usize, match_count: usize) -> (res: String)
    ensures
        res@ == completed_text(elapsed_ms as nat, total_scanned as nat, match_count as nat),
{
    let secs = str_concat(
        str_concat(u64_to_decimal(elapsed_ms / 1000).as_str(), ".").as_str(),
        three_digit_string(elapsed_ms % 1000).as_str(),
    );
    let a = str_concat("検索完了。", usize_to_decimal(match_count).as_str());
    let b = str_concat(a.as_str(), " 個のマッチ (走査: ");
    let c = str_concat(b.as_str(), usize_to_decimal(total_scanned).as_str());
    let d = str_concat(c.as_str(), ", 時間: ");
    let e = str_concat(d.as_str(), secs.as_str());
    str_concat(e.as_str(), "秒)")
}

/// Status after a search stopped on an error.
pub fn error_status() -> (res: String)
    ensures
        res@ == error_status_text(),
{
    str_to_string("エラーにより検索を中止しました。")
}

/// Status when a search starts.
pub fn searching_status() -> (res: String)
    ensures
        res@ == "検索中..."@,
{
    str_to_string("検索中...")
}

/// Status while a search is being stopped.
pub fn stopping_status() -> (res: String)
    ensures
        res@ == "検索を停止しています..."@,
{
    str_to_string("検索を停止しています...")
}

/// Status after the results are cleared.
pub fn cleared_status() -> (res: String)
    ensures
        res@ == "結果をクリアしました。"@,
{
    str_to_string("結果をクリアしました。")
}

// ---------------------------------------------------------------------------
// Following a running search
// ---------------------------------------------------------------------------

/// The results shown and whether a search is running.
pub struct ResultList {
    pub items: Vec<SearchResultItem>,
    pub searching: bool,
}

/// What the window does after a progress message, besides showing the new
/// results.
pub struct NoticeOutcome {
    /// New status-bar text, if any.
    pub status_text: Option<String>,
    /// A message to show in a box, if any.
    pub error_message: Option<String>,
    /// The search ended: the controls are enabled again and the progress bar hidden.
    pub finished: bool,
}

impl ResultList {
    /// An empty list, with no search running.
    pub fn new() -> (res: ResultList)
        ensures
            res.items@.len() == 0,
            !res.searching,
    {
        ResultList { items: Vec::new(), searching: false }
    }

    /// Appends a result.
    fn push_item(&mut self, it: SearchResultItem)
        ensures
            item_views(final(self).items@) == item_views(old(self).items@).push(it@),
            final(self).searching == old(self).searching,
    {
        let ghost before = item_views(self.items@);
        self.items.push(it);
        assert(item_views(self.items@) =~= before.push(it@));
    }

    /// Follows one progress message: results are appended in order, progress
    /// and completion update the status text, and completion or an error end
    /// the search (an error is also shown in a box).
    pub fn apply_status(&mut self, status: SearchStatus) -> (out: NoticeOutcome)
        ensures
            status matches SearchStatus::Match(it) ==> item_views(final(self).items@)
                == item_views(old(self).items@).push(it@),
            status matches SearchStatus::Matches(v) ==> item_views(final(self).items@)
                == item_views(old(self).items@) + item_views(v@),
            !(status is Match || status is Matches) ==> item_views(final(self).items@)
                == item_views(old(self).items@),
            (status is Completed || status is Error) ==> !final(self).searching && out.finished,
            !(status is Completed || status is Error) ==> final(self).searching == old(self).searching
                && !out.finished,
            (status is Match || status is Matches) ==> out.status_text is None,
            status matches SearchStatus::Progress { scanned_files } ==> (out.status_text matches Some(t)
                && t@ == progress_text(scanned_files as nat)),
            status matches SearchStatus::Completed { elapsed_ms, total_scanned, match_count } ==> (
            out.status_text matches Some(t) && t@ == completed_text(
                elapsed_ms as nat,
                total_scanned as nat,
                match_count as nat,
            )),
            status matches SearchStatus::Error(e) ==> (out.status_text matches Some(t) && t@
                == error_status_text()) && (out.error_message matches Some(m) && m@ == e@),
            !(status is Error) ==> out.error_message is None,
    {
        match status {
            SearchStatus::Match(it) => {
                self.push_item(it);
                NoticeOutcome { status_text: None, error_message: None, finished: false }
            },
            SearchStatus::Matches(v) => {
                let ghost before = item_views(self.items@);
                let ghost added = item_views(v@);
                let mut i: usize = 0;
                let n = v.len();
                while i < n
                    invariant
                        n == v@.len(),
                        added == item_views(v@),
                        self.searching == old(self).searching,
                        i <= n,
                        item_views(self.items@) == before + added.take(i as int),
                    decreases n - i,
                {
                    let it = copy_item(&v[i]);
                    let ghost b2 = item_views(self.items@);
                    self.push_item(it);
                    proof {
                        assert(added.take(i + 1) =~= added.take(i as int).push(added[i as int]));
                        assert(before + added.take(i + 1) =~= (before + added.take(i as int)).push(it@));
                    }
                    i = i + 1;
                }
                proof {
                    assert(added.take(n as int) =~= added);
                }
                NoticeOutcome { status_text: None, error_message: None, finished: false }
            },
            SearchStatus::Progress { scanned_files } => {
                NoticeOutcome { status_text: Some(progress_status(scanned_files)), error_message: None, finished: false }
            },
            SearchStatus::Completed { elapsed_ms, total_scanned, match_count } => {
                self.searching = false;
                NoticeOutcome {
                    status_text: Some(completed_status(elapsed_ms, total_scanned, match_count)),
                    error_message: None,
                    finished: true,
                }
            },
            SearchStatus::Error(e) => {
                self.searching = false;
                NoticeOutcome { status_text: Some(error_status()), error_message: Some(e), finished: true }
            },
        }
    }
}

// ---------------------------------------------------------------------------
// Starting a search
// ---------------------------------------------------------------------------

/// Why a search cannot start.
#[derive(Debug, Clone, Copy, PartialEq, Eq, Structural)]
pub enum SearchRequestError {
    /// No folder was given.
    MissingDirectory,
    /// The folder does not exist or is not a folder.
    DirectoryNotFound,
    /// No search text was given.
    MissingQuery,
}

impl SearchRequestError {
    /// The message shown for this error.
    pub fn message(&self) -> (res: String)
        ensures
            res@ == (match self {
                SearchRequestError::MissingDirectory => "検索ディレクトリを指定してください。"@,
                SearchRequestError::DirectoryNotFound => "指定された検索ディレクトリが存在しないか、フォルダではありません。"@,
                SearchRequestError::MissingQuery => "検索文字列を指定してください。"@,
            }),
    {
        match self {
            SearchRequestError::MissingDirectory => str_to_string("検索ディレクトリを指定してください。"),
            SearchRequestError::DirectoryNotFound => str_to_string("指定された検索ディレクトリが存在しないか、フォルダではありません。"),
            SearchRequestError::MissingQuery => str_to_string("検索文字列を指定してください。"),
        }
    }
}

/// Checks a search request: a folder must be given and be an existing
/// folder (`dir_is_dir`), and a search text must be given; blank text counts
/// as none. The first failing check is reported.
pub fn check_search_request(dir_text: &str, dir_is_dir: bool, query: &str) -> (res: Result<(), SearchRequestError>)
    ensures
        res == (if trim(dir_text@).len() == 0 {
            Err(SearchRequestError::MissingDirectory)
        } else if !dir_is_dir {
            Err(SearchRequestError::DirectoryNotFound)
        } else if trim(query@).len() == 0 {
            Err(SearchRequestError::MissingQuery)
        } else {
            Ok(())
        }),
{
    if trim_str(dir_text).as_str().is_empty() {
        Err(SearchRequestError::MissingDirectory)
    } else if !dir_is_dir {
        Err(SearchRequestError::DirectoryNotFound)
    } else if trim_str(query).as_str().is_empty() {
        Err(SearchRequestError::MissingQuery)
    } else {
        Ok(())
    }
}

} // verus!
