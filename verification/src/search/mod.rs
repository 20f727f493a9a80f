//! The file-search engine: binary detection and decoding, matchers, masks
//! and ignore rules, directory-walk decisions and per-file search.

pub mod decode;
pub mod pattern;
pub mod match_engine;
pub mod gitignore;
pub mod glob_mask;
pub mod pool;
pub mod walk;

use vstd::prelude::*;

verus! {

/// One matching line of a search.
#[derive(Debug, Clone)]
pub struct SearchResultItem {
    /// Path of the file.
    pub file_path: String,
    /// 1-based line number.
    pub line_number: usize,
    /// 1-based column of the first match in the line.
    pub column_number: usize,
    /// The line, trimmed, and shortened around the match when long.
    pub line_content: String,
}

/// The plain contents of a result item: path, line, column, content.
pub type ItemView = (Seq<char>, usize, usize, Seq<char>);

impl View for SearchResultItem {
    type V = ItemView;

    open spec fn view(&self) -> ItemView {
        (self.file_path@, self.line_number, self.column_number, self.line_content@)
    }
}

/// The views of a list of result items.
pub open spec fn item_views(items: Seq<SearchResultItem>) -> Seq<ItemView> {
    items.map_values(|i: SearchResultItem| i@)
}

/// Progress and results reported by a running search.
#[derive(Debug, Clone)]
pub enum SearchStatus {
    /// One matching line.
    Match(SearchResultItem),
    /// A batch of matching lines.
    Matches(Vec<SearchResultItem>),
    /// Number of files scanned so far.
    Progress { scanned_files: usize },
    /// The search ended.
    Completed { elapsed_ms: u64, total_scanned: usize, match_count: usize },
    /// The search could not start.
    Error(String),
}

} // verus!
