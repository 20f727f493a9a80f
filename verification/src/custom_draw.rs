//! Custom drawing of the result list, its header, and the folder tree:
//! which parts of a result line are highlighted, how a line splits into
//! plain and highlighted segments, and what each custom-draw notification
//! stage answers and paints. The painting itself is the caller's.

use vstd::prelude::*;
use crate::search::pattern::{
    escaped, is_span_in, lemma_boundary_facts, regex_all_matches, regex_check, regex_compiles,
    regex_escape, regex_find_all, spans_ordered,
};
use crate::text::{str_to_string, utf8_len};
use crate::theme::{CLR_DARK_BG, CLR_DARK_FG, CLR_LIGHT_BG, CLR_LIGHT_FG};

verus! {

// ---------------------------------------------------------------------------
// Highlighted ranges
// ---------------------------------------------------------------------------

/// What the result list highlights: the search text, and how it was searched.
#[derive(Debug, Clone)]
pub struct HighlightState {
    pub pattern: String,
    pub case_sensitive: bool,
    pub is_regex: bool,
}

/// The regular expression that a highlight searches for: the pattern itself,
/// or, for a literal search, the pattern escaped.
pub open spec fn highlight_source(hl: &HighlightState) -> Seq<char> {
    if hl.is_regex {
        hl.pattern@
    } else {
        escaped(hl.pattern@)
    }
}

/// The byte ranges of `text` to highlight: every match of the highlight's
/// expression (case-insensitive unless the search was case sensitive);
/// nothing for an empty pattern or an expression that does not compile.
pub open spec fn highlight_ranges(text: Seq<char>, hl: &HighlightState) -> Seq<(usize, usize)> {
    let src = highlight_source(hl);
    if hl.pattern@.len() == 0 || !regex_compiles(src, !hl.case_sensitive) {
        seq![]
    } else {
        regex_all_matches(src, !hl.case_sensitive, text)
    }
}

/// The byte ranges of `text` that the highlight marks: in order, without
/// overlapping, each on character boundaries within the text.
pub fn find_highlight_ranges(text: &str, hl: &HighlightState) -> (res: Vec<(usize, usize)>)
    ensures
        res@ == highlight_ranges(text@, hl),
        spans_ordered(res@),
        forall|i: int| 0 <= i < res@.len() ==> is_span_in(text@, #[trigger] res@[i]),
        forall|i: int| 0 <= i < res@.len() ==> #[trigger] res@[i].1 <= utf8_len(text@),
{
    if hl.pattern.as_str().is_empty() {
        return Vec::new();
    }
    let src = if hl.is_regex {
        str_to_string(hl.pattern.as_str())
    } else {
        regex_escape(hl.pattern.as_str())
    };
    match regex_check(src.as_str(), !hl.case_sensitive) {
        Ok(()) => {
            let v = regex_find_all(src.as_str(), !hl.case_sensitive, text);
            proof {
                assert forall|i: int| 0 <= i < v@.len() implies #[trigger] v@[i].1 <= utf8_len(text@) by {
                    assert(is_span_in(text@, v@[i]));
                    lemma_boundary_facts(text@, v@[i].1 as int);
                }
            }
            v
        },
        Err(_) => Vec::new(),
    }
}

/// Escaping keeps every character and only adds backslashes.
proof fn lemma_escaped_len(s: Seq<char>)
    ensures
        escaped(s).len() >= s.len(),
    decreases s.len(),
{
    if s.len() > 0 {
        lemma_escaped_len(s.drop_last());
    }
}

/// A literal highlight marks exactly what a regular-expression highlight of
/// the escaped pattern marks with the same case setting: in particular a
/// case-sensitive literal highlight searches case-sensitively.
pub proof fn law_literal_highlight_is_escaped_regex(text: Seq<char>, lit: &HighlightState, re: &HighlightState)
    requires
        !lit.is_regex,
        re.is_regex,
        re.pattern@ == escaped(lit.pattern@),
        re.case_sensitive == lit.case_sensitive,
    ensures
        highlight_ranges(text, lit) == highlight_ranges(text, re),
{
    lemma_escaped_len(lit.pattern@);
    if lit.pattern@.len() == 0 {
        assert(lit.pattern@ =~= Seq::<char>::empty());
        assert(escaped(lit.pattern@) =~= Seq::<char>::empty());
    }
}

/// The case setting of a highlight decides how its expression is searched:
/// case-sensitively exactly when the search was case sensitive, for literal
/// and regular-expression highlights alike.
pub proof fn law_highlight_case_follows_search(text: Seq<char>, hl: &HighlightState)
    requires
        hl.pattern@.len() > 0,
        regex_compiles(highlight_source(hl), !hl.case_sensitive),
    ensures
        highlight_ranges(text, hl) == regex_all_matches(
            if hl.is_regex { hl.pattern@ } else { escaped(hl.pattern@) },
            !hl.case_sensitive,
            text,
        ),
{
}

// ---------------------------------------------------------------------------
// Segments of a highlighted line
// ---------------------------------------------------------------------------

/// A range can be drawn: it lies within a text of `len` bytes and is not empty.
pub open spec fn drawable_range(r: (usize, usize), len: usize) -> bool {
    r.0 < len && r.1 <= len && r.0 < r.1
}

/// Scanner state: segments so far and the end of the last highlighted range.
pub type SegmentScan = (Seq<(usize, usize, bool)>, usize);

/// The scanner state after the ranges `rs`: each drawable range adds the
/// plain text since the last range (when there is any) and then itself,
/// highlighted; other ranges are skipped.
pub open spec fn segment_scan(len: usize, rs: Seq<(usize, usize)>) -> SegmentScan
    decreases rs.len(),
{
    if rs.len() == 0 {
        (seq![], 0)
    } else {
        let st = segment_scan(len, rs.drop_last());
        let r = rs.last();
        if !drawable_range(r, len) {
            st
        } else {
            let segs = if st.1 < r.0 {
                st.0.push((st.1, r.0, false))
            } else {
                st.0
            };
            (segs.push((r.0, r.1, true)), r.1)
        }
    }
}

/// The segments of a line of `len` bytes with the highlighted `ranges`:
/// `(start, end, highlighted)`, the text after the last range closing the
/// line; a line without segments is one plain segment.
pub open spec fn highlight_segments_spec(len: usize, ranges: Seq<(usize, usize)>) -> Seq<(usize, usize, bool)> {
    let st = segment_scan(len, ranges);
    let segs = if st.1 < len {
        st.0.push((st.1, len, false))
    } else {
        st.0
    };
    if segs.len() == 0 {
        seq![(0usize, len, false)]
    } else {
        segs
    }
}

/// Splits a line of `len` bytes into plain and highlighted segments.
pub fn highlight_segments(len: usize, ranges: &[(usize, usize)]) -> (res: Vec<(usize, usize, bool)>)
    ensures
        res@ == highlight_segments_spec(len, ranges@),
{
    let mut segs: Vec<(usize, usize, bool)> = Vec::new();
    let mut pos: usize = 0;
    let mut i: usize = 0;
    proof {
        assert(ranges@.take(0) =~= Seq::<(usize, usize)>::empty());
    }
    while i < ranges.len()
        invariant
            i <= ranges@.len(),
            (segs@, pos) == segment_scan(len, ranges@.take(i as int)),
        decreases ranges@.len() - i,
    {
        let (s, e) = ranges[i];
        proof {
            assert(ranges@.take(i + 1).drop_last() =~= ranges@.take(i as int));
            assert(ranges@.take(i + 1).last() == (s, e));
        }
        if s < len && e <= len && s < e {
            if pos < s {
                segs.push((pos, s, false));
            }
            segs.push((s, e, true));
            pos = e;
        }
        i = i + 1;
    }
    proof {
        assert(ranges@.take(ranges@.len() as int) =~= ranges@);
    }
    if pos < len {
        segs.push((pos, len, false));
    }
    if segs.len() == 0 {
        segs.push((0, len, false));
    }
    segs
}

/// Ranges in order, drawable, and not overlapping.
pub open spec fn ordered_ranges(rs: Seq<(usize, usize)>, len: usize) -> bool {
    &&& forall|i: int| 0 <= i < rs.len() ==> drawable_range(#[trigger] rs[i], len)
    &&& forall|i: int, j: int| 0 <= i < j < rs.len() ==> #[trigger] rs[i].1 <= #[trigger] rs[j].0
}

/// The segments lie end to end from `from` to `to`.
pub open spec fn tiles(segs: Seq<(usize, usize, bool)>, from: int, to: int) -> bool {
    &&& segs.len() > 0 ==> segs[0].0 == from && segs.last().1 == to
    &&& segs.len() == 0 ==> from == to
    &&& forall|i: int| 0 <= i < segs.len() ==> (#[trigger] segs[i]).0 < segs[i].1
    &&& forall|i: int| 0 <= i < segs.len() - 1 ==> (#[trigger] segs[i]).1 == segs[i + 1].0
}

proof fn lemma_scan_tiles(len: usize, rs: Seq<(usize, usize)>)
    requires
        ordered_ranges(rs, len),
    ensures
        tiles(segment_scan(len, rs).0, 0, segment_scan(len, rs).1 as int),
        rs.len() > 0 ==> segment_scan(len, rs).1 == rs.last().1,
        rs.len() == 0 ==> segment_scan(len, rs).1 == 0,
        segment_scan(len, rs).1 <= len,
        segment_scan(len, rs).0.filter(|s: (usize, usize, bool)| s.2).len() == rs.len(),
    decreases rs.len(),
{
    reveal(Seq::filter);
    if rs.len() > 0 {
        let d = rs.drop_last();
        assert(ordered_ranges(d, len)) by {
            assert forall|i: int, j: int| 0 <= i < j < d.len() implies #[trigger] d[i].1 <= #[trigger] d[j].0 by {
                assert(d[i] == rs[i] && d[j] == rs[j]);
            }
            assert forall|i: int| 0 <= i < d.len() implies drawable_range(#[trigger] d[i], len) by {
                assert(d[i] == rs[i]);
            }
        }
        lemma_scan_tiles(len, d);
        let st = segment_scan(len, d);
        let r = rs.last();
        assert(drawable_range(rs[rs.len() - 1], len));
        if d.len() > 0 {
            assert(rs[rs.len() - 2].1 <= rs[rs.len() - 1].0);
            assert(d.last() == rs[rs.len() - 2]);
        }
        let p = |s: (usize, usize, bool)| s.2;
        let segs = if st.1 < r.0 {
            st.0.push((st.1, r.0, false))
        } else {
            st.0
        };
        if st.1 < r.0 {
            assert(segs.drop_last() =~= st.0);
        }
        let out = segs.push((r.0, r.1, true));
        assert(out.drop_last() =~= segs);
        assert(out.filter(p) == segs.filter(p).push((r.0, r.1, true)));
        if st.1 < r.0 {
            assert(segs.filter(p) == st.0.filter(p));
        }
        assert forall|i: int| 0 <= i < out.len() - 1 implies (#[trigger] out[i]).1 == out[i + 1].0 by {
            if i < st.0.len() - 1 {
                assert(out[i] == st.0[i] && out[i + 1] == st.0[i + 1]);
            } else if i == st.0.len() - 1 {
                assert(out[i] == st.0.last());
            }
        }
        assert forall|i: int| 0 <= i < out.len() implies (#[trigger] out[i]).0 < out[i].1 by {
            if i < st.0.len() {
                assert(out[i] == st.0[i]);
            }
        }
    }
}

/// With ranges in order, inside the line and apart, the segments lie end to
/// end over the whole line, and the highlighted ones are exactly the ranges.
pub proof fn law_segments_tile_line(len: usize, ranges: Seq<(usize, usize)>)
    requires
        ordered_ranges(ranges, len),
        len > 0,
    ensures
        tiles(highlight_segments_spec(len, ranges), 0, len as int),
        highlight_segments_spec(len, ranges).filter(|s: (usize, usize, bool)| s.2).len() == ranges.len(),
{
    reveal(Seq::filter);
    lemma_scan_tiles(len, ranges);
    let st = segment_scan(len, ranges);
    let p = |s: (usize, usize, bool)| s.2;
    if st.1 < len {
        let segs = st.0.push((st.1, len, false));
        assert(segs.drop_last() =~= st.0);
        assert(segs.filter(p) == st.0.filter(p));
        assert forall|i: int| 0 <= i < segs.len() - 1 implies (#[trigger] segs[i]).1 == segs[i + 1].0 by {
            if i < st.0.len() - 1 {
                assert(segs[i] == st.0[i] && segs[i + 1] == st.0[i + 1]);
            } else {
                assert(segs[i] == st.0.last());
            }
        }
        assert forall|i: int| 0 <= i < segs.len() implies (#[trigger] segs[i]).0 < segs[i].1 by {
            if i < st.0.len() {
                assert(segs[i] == st.0[i]);
            }
        }
    }
}

// ---------------------------------------------------------------------------
// Colours of a drawn line
// ---------------------------------------------------------------------------

/// Colours of the non-highlighted text of a line.
#[derive(Debug, Clone, Copy, PartialEq, Eq, Structural)]
pub enum LineColors {
    /// The system's selection colours (`COLOR_HIGHLIGHTTEXT` on `COLOR_HIGHLIGHT`).
    SystemSelection,
    /// The system's button colours (`COLOR_BTNTEXT` on `COLOR_BTNFACE`).
    SystemButton,
    /// Fixed colours: text, background.
    Fixed(u32, u32),
}

/// Background of a selected line in a list without focus, in dark mode.
pub const CLR_DARK_INACTIVE_SELECTION: u32 = 0x003F3F3F;

/// The colours of a line: a selected line in the focused list takes the
/// system's selection colours; one in an unfocused list a dim gray in dark
/// mode and the button colours in light mode; other lines the palette's.
pub fn line_colors(selected: bool, has_focus: bool, dark: bool) -> (c: LineColors)
    ensures
        c == (if selected {
            if has_focus {
                LineColors::SystemSelection
            } else if dark {
                LineColors::Fixed(CLR_DARK_FG, CLR_DARK_INACTIVE_SELECTION)
            } else {
                LineColors::SystemButton
            }
        } else if dark {
            LineColors::Fixed(CLR_DARK_FG, CLR_DARK_BG)
        } else {
            LineColors::Fixed(CLR_LIGHT_FG, CLR_LIGHT_BG)
        }),
{
    if selected {
        if has_focus {
            LineColors::SystemSelection
        } else if dark {
            LineColors::Fixed(CLR_DARK_FG, CLR_DARK_INACTIVE_SELECTION)
        } else {
            LineColors::SystemButton
        }
    } else if dark {
        LineColors::Fixed(CLR_DARK_FG, CLR_DARK_BG)
    } else {
        LineColors::Fixed(CLR_LIGHT_FG, CLR_LIGHT_BG)
    }
}

/// Colours of highlighted text: black on gold (dark) or on light yellow.
pub fn highlight_colors(dark: bool) -> (c: (u32, u32))
    ensures
        c == (if dark { (0x00000000u32, 0x0000D7FFu32) } else { (0x00000000u32, 0x0080FFFFu32) }),
{
    if dark {
        (0x00000000, 0x0000D7FF)
    } else {
        (0x00000000, 0x0080FFFF)
    }
}

/// The visual-style state drawn behind a selected list line: 3 (selected)
/// in the focused list, 5 (selected, not focused) otherwise.
pub fn selected_item_state(has_focus: bool) -> (s: i32)
    ensures
        s == (if has_focus { 3i32 } else { 5i32 }),
{
    if has_focus {
        3
    } else {
        5
    }
}

/// Left edge of a line's text: right-aligned text ends 6 pixels before the
/// right edge, left-aligned text starts 4 pixels after the left edge.
pub fn text_start_x(align_right: bool, left: i32, right: i32, text_width: i32) -> (x: i32)
    requires
        align_right ==> i32::MIN <= right - text_width <= i32::MAX,
        align_right ==> i32::MIN <= right - text_width - 6 <= i32::MAX,
        !align_right ==> left + 4 <= i32::MAX,
    ensures
        x == (if align_right { right - text_width - 6 } else { left + 4 }),
{
    if align_right {
        right - text_width - 6
    } else {
        left + 4
    }
}

// ---------------------------------------------------------------------------
// Custom-draw notifications
// ---------------------------------------------------------------------------

/// Draw stage: before painting the control.
pub const CDDS_PREPAINT: u32 = 0x00000001;
/// Draw stage: after painting the control.
pub const CDDS_POSTPAINT: u32 = 0x00000002;
/// Draw stage: before painting an item.
pub const CDDS_ITEMPREPAINT: u32 = 0x00010001;
/// Draw stage: before painting a sub-item.
pub const CDDS_SUBITEMPREPAINT: u32 = 0x00030001;
/// Draw stage: after painting a sub-item.
pub const CDDS_SUBITEMPOSTPAINT: u32 = 0x00030002;
/// Answer: paint as usual.
pub const CDRF_DODEFAULT: isize = 0x00000000;
/// Answer: new font or colours were set.
pub const CDRF_NEWFONT: isize = 0x00000002;
/// Answer: the item was painted here.
pub const CDRF_SKIPDEFAULT: isize = 0x00000004;
/// Answer: notify after painting.
pub const CDRF_NOTIFYPOSTPAINT: isize = 0x00000010;
/// Answer: notify for each item (and sub-item).
pub const CDRF_NOTIFYITEMDRAW: isize = 0x00000020;
/// Item state bit: the item is selected.
pub const CDIS_SELECTED: u32 = 0x0001;
/// The content column of the result list.
pub const CONTENT_COLUMN: i32 = 2;

/// What to paint during a result-list notification.
#[derive(Debug, Clone, Copy, PartialEq, Eq, Structural)]
pub enum ListPaint {
    /// Nothing.
    Nothing,
    /// The content cell, with its highlights, instead of the default painting.
    HighlightedContent,
    /// The highlights over the default painting of a selected content cell.
    HighlightOverlay,
    /// The grid lines between rows and columns.
    GridLines,
}

/// The answer to one result-list notification.
#[derive(Debug, Clone, Copy, PartialEq, Eq, Structural)]
pub struct ListDrawStep {
    /// The value returned to the list; `None` leaves the message unhandled.
    pub result: Option<isize>,
    /// Set the dark palette's text and background colours on the item.
    pub dark_colors: bool,
    /// What the caller paints.
    pub paint: ListPaint,
}

/// The answer to a result-list notification at `stage` for a sub-item
/// `sub_item` with item state `item_state`, when a search highlight is
/// active (`has_highlight`).
pub open spec fn list_draw_spec(stage: u32, item_state: u32, sub_item: i32, has_highlight: bool, dark: bool) -> ListDrawStep {
    let selected = (item_state & CDIS_SELECTED) != 0;
    let content = sub_item == CONTENT_COLUMN && has_highlight;
    if stage == CDDS_PREPAINT {
        ListDrawStep { result: Some(CDRF_NOTIFYITEMDRAW | CDRF_NOTIFYPOSTPAINT), dark_colors: false, paint: ListPaint::Nothing }
    } else if stage == CDDS_ITEMPREPAINT {
        ListDrawStep { result: Some(CDRF_NOTIFYITEMDRAW | CDRF_NEWFONT), dark_colors: dark, paint: ListPaint::Nothing }
    } else if stage == CDDS_SUBITEMPREPAINT {
        if selected {
            ListDrawStep {
                result: Some(if content { CDRF_DODEFAULT | CDRF_NOTIFYPOSTPAINT } else { CDRF_DODEFAULT }),
                dark_colors: dark,
                paint: ListPaint::Nothing,
            }
        } else if content {
            ListDrawStep { result: Some(CDRF_SKIPDEFAULT), dark_colors: false, paint: ListPaint::HighlightedContent }
        } else {
            ListDrawStep { result: Some(CDRF_NEWFONT), dark_colors: dark, paint: ListPaint::Nothing }
        }
    } else if stage == CDDS_SUBITEMPOSTPAINT {
        ListDrawStep {
            result: Some(CDRF_DODEFAULT),
            dark_colors: false,
            paint: if content { ListPaint::HighlightOverlay } else { ListPaint::Nothing },
        }
    } else if stage == CDDS_POSTPAINT {
        ListDrawStep { result: Some(CDRF_DODEFAULT), dark_colors: false, paint: ListPaint::GridLines }
    } else {
        ListDrawStep { result: None, dark_colors: false, paint: ListPaint::Nothing }
    }
}

/// Decides the answer to a result-list custom-draw notification.
pub fn list_draw_step(stage: u32, item_state: u32, sub_item: i32, has_highlight: bool, dark: bool) -> (res: ListDrawStep)
    ensures
        res == list_draw_spec(stage, item_state, sub_item, has_highlight, dark),
{
    let selected = (item_state & CDIS_SELECTED) != 0;
    let content = sub_item == CONTENT_COLUMN && has_highlight;
    if stage == CDDS_PREPAINT {
        ListDrawStep { result: Some(CDRF_NOTIFYITEMDRAW | CDRF_NOTIFYPOSTPAINT), dark_colors: false, paint: ListPaint::Nothing }
    } else if stage == CDDS_ITEMPREPAINT {
        ListDrawStep { result: Some(CDRF_NOTIFYITEMDRAW | CDRF_NEWFONT), dark_colors: dark, paint: ListPaint::Nothing }
    } else if stage == CDDS_SUBITEMPREPAINT {
        if selected {
            ListDrawStep {
                result: Some(if content { CDRF_DODEFAULT | CDRF_NOTIFYPOSTPAINT } else { CDRF_DODEFAULT }),
                dark_colors: dark,
                paint: ListPaint::Nothing,
            }
        } else if content {
            ListDrawStep { result: Some(CDRF_SKIPDEFAULT), dark_colors: false, paint: ListPaint::HighlightedContent }
        } else {
            ListDrawStep { result: Some(CDRF_NEWFONT), dark_colors: dark, paint: ListPaint::Nothing }
        }
    } else if stage == CDDS_SUBITEMPOSTPAINT {
        ListDrawStep {
            result: Some(CDRF_DODEFAULT),
            dark_colors: false,
            paint: if content { ListPaint::HighlightOverlay } else { ListPaint::Nothing },
        }
    } else if stage == CDDS_POSTPAINT {
        ListDrawStep { result: Some(CDRF_DODEFAULT), dark_colors: false, paint: ListPaint::GridLines }
    } else {
        ListDrawStep { result: None, dark_colors: false, paint: ListPaint::Nothing }
    }
}

/// Grid colour of the result list.
pub fn grid_color(dark: bool) -> (c: u32)
    ensures
        c == (if dark { 0x00404040u32 } else { 0x00C0C0C0u32 }),
{
    if dark {
        0x00404040
    } else {
        0x00C0C0C0
    }
}

/// One past the last row whose bottom line is drawn: the rows on the page
/// from `top_index`, and one more, but no further than `count`.
pub fn grid_rows_end(top_index: i32, per_page: i32, count: i32) -> (end: i32)
    requires
        i32::MIN <= top_index + per_page <= i32::MAX,
        i32::MIN <= top_index + per_page + 1 <= i32::MAX,
    ensures
        end == (if top_index + per_page + 1 < count { top_index + per_page + 1 } else { count as int }),
{
    let last = top_index + per_page + 1;
    if last < count {
        last
    } else {
        count
    }
}

/// A row's bottom line at `y` is drawn below the header and inside the list.
pub fn row_line_visible(y: i32, header_height: i32, client_bottom: i32) -> (v: bool)
    ensures
        v == (header_height < y && y < client_bottom),
{
    y > header_height && y < client_bottom
}

/// The x positions of the separators after the first two columns (widths
/// `w0`, `w1`): each column's right edge, stopping at a column without
/// width or at the list's right edge.
pub open spec fn column_separators_spec(w0: i32, w1: i32, right: i32) -> Seq<i32> {
    if w0 <= 0 || w0 >= right {
        seq![]
    } else if w1 <= 0 || w0 + w1 >= right {
        seq![w0]
    } else {
        seq![w0, (w0 + w1) as i32]
    }
}

/// The separator positions of the first two columns.
pub fn column_separators(w0: i32, w1: i32, right: i32) -> (res: Vec<i32>)
    requires
        w0 <= 0 || w1 <= 0 || w0 + w1 <= i32::MAX,
    ensures
        res@ == column_separators_spec(w0, w1, right),
{
    let mut out: Vec<i32> = Vec::new();
    if w0 <= 0 || w0 >= right {
        return out;
    }
    out.push(w0);
    if w1 <= 0 || w0 + w1 >= right {
        assert(out@ =~= seq![w0]);
        return out;
    }
    out.push(w0 + w1);
    assert(out@ =~= seq![w0, (w0 + w1) as i32]);
    out
}

/// The answer to one header notification.
#[derive(Debug, Clone, Copy, PartialEq, Eq, Structural)]
pub struct HeaderDrawStep {
    /// The value returned to the header.
    pub result: isize,
    /// Fill the notified rectangle with the background colour.
    pub fill_background: bool,
    /// Fill the space right of the last column with the background colour.
    pub fill_spacer: bool,
    /// Draw the item's right border.
    pub right_border: bool,
    /// Draw the item's bottom border.
    pub bottom_border: bool,
    /// Draw the item's text.
    pub draw_text: bool,
}

/// The answer to a header notification at `stage` for item `item`: the
/// header and each column are filled with the background; the three columns
/// get a bottom border, the first two a right border, and their text is
/// drawn here; items beyond them are left alone.
pub open spec fn header_draw_spec(stage: u32, item: usize) -> HeaderDrawStep {
    let none = HeaderDrawStep {
        result: CDRF_DODEFAULT,
        fill_background: false,
        fill_spacer: false,
        right_border: false,
        bottom_border: false,
        draw_text: false,
    };
    if stage == CDDS_PREPAINT {
        HeaderDrawStep { result: CDRF_NOTIFYITEMDRAW | CDRF_NOTIFYPOSTPAINT, fill_background: true, ..none }
    } else if stage == CDDS_POSTPAINT {
        HeaderDrawStep { fill_spacer: true, ..none }
    } else if stage == CDDS_ITEMPREPAINT {
        if item > 2 {
            HeaderDrawStep { fill_background: true, ..none }
        } else {
            HeaderDrawStep {
                result: CDRF_SKIPDEFAULT,
                fill_background: true,
                fill_spacer: false,
                right_border: item < 2,
                bottom_border: true,
                draw_text: true,
            }
        }
    } else {
        none
    }
}

/// Decides the answer to a header custom-draw notification.
pub fn header_draw_step(stage: u32, item: usize) -> (res: HeaderDrawStep)
    ensures
        res == header_draw_spec(stage, item),
{
    let none = HeaderDrawStep {
        result: CDRF_DODEFAULT,
        fill_background: false,
        fill_spacer: false,
        right_border: false,
        bottom_border: false,
        draw_text: false,
    };
    if stage == CDDS_PREPAINT {
        HeaderDrawStep { result: CDRF_NOTIFYITEMDRAW | CDRF_NOTIFYPOSTPAINT, fill_background: true, ..none }
    } else if stage == CDDS_POSTPAINT {
        HeaderDrawStep { fill_spacer: true, ..none }
    } else if stage == CDDS_ITEMPREPAINT {
        if item > 2 {
            HeaderDrawStep { fill_background: true, ..none }
        } else {
            HeaderDrawStep {
                result: CDRF_SKIPDEFAULT,
                fill_background: true,
                fill_spacer: false,
                right_border: item < 2,
                bottom_border: true,
                draw_text: true,
            }
        }
    } else {
        none
    }
}

/// Border colour of the header.
pub fn header_border_color(dark: bool) -> (c: u32)
    ensures
        c == (if dark { 0x00404040u32 } else { 0x00D0D0D0u32 }),
{
    if dark {
        0x00404040
    } else {
        0x00D0D0D0
    }
}

/// Text background and text colour of an item.
#[derive(Debug, Clone, Copy, PartialEq, Eq, Structural)]
pub struct ItemColors {
    pub back: u32,
    pub text: u32,
}

/// The answer to one folder-tree notification.
#[derive(Debug, Clone, Copy, PartialEq, Eq, Structural)]
pub struct TreeDrawStep {
    /// The value returned to the tree.
    pub result: isize,
    /// Text background and text colour to set on the item.
    pub colors: Option<ItemColors>,
    /// Clear the item's selected state so that the default highlight is not drawn.
    pub clear_selected: bool,
}

/// Colours of a folder-tree item: `(text background, text)`. A selected item
/// is steel blue with white text (dark, focused), charcoal with light gray
/// (dark), sky blue with black (light, focused) or light gray with medium
/// gray (light); other items take the palette's colours.
pub open spec fn tree_item_colors(selected: bool, has_focus: bool, dark: bool) -> ItemColors {
    if selected {
        if dark {
            if has_focus {
                ItemColors { back: 0x008E5B26u32, text: 0x00FFFFFFu32 }
            } else {
                ItemColors { back: 0x003A3A3Au32, text: 0x00CCCCCCu32 }
            }
        } else if has_focus {
            ItemColors { back: 0x00FAD7B4u32, text: 0x00000000u32 }
        } else {
            ItemColors { back: 0x00E1E1E1u32, text: 0x00555555u32 }
        }
    } else if dark {
        ItemColors { back: CLR_DARK_BG, text: CLR_DARK_FG }
    } else {
        ItemColors { back: CLR_LIGHT_BG, text: CLR_LIGHT_FG }
    }
}

/// Decides the answer to a folder-tree custom-draw notification at `stage`
/// for an item with state `item_state`.
pub fn tree_draw_step(stage: u32, item_state: u32, has_focus: bool, dark: bool) -> (res: TreeDrawStep)
    ensures
        res == (if stage == CDDS_PREPAINT {
            TreeDrawStep { result: CDRF_NOTIFYITEMDRAW, colors: None, clear_selected: false }
        } else if stage == CDDS_ITEMPREPAINT {
            TreeDrawStep {
                result: CDRF_NEWFONT,
                colors: Some(tree_item_colors((item_state & CDIS_SELECTED) != 0, has_focus, dark)),
                clear_selected: (item_state & CDIS_SELECTED) != 0,
            }
        } else {
            TreeDrawStep { result: CDRF_DODEFAULT, colors: None, clear_selected: false }
        }),
{
    if stage == CDDS_PREPAINT {
        TreeDrawStep { result: CDRF_NOTIFYITEMDRAW, colors: None, clear_selected: false }
    } else if stage == CDDS_ITEMPREPAINT {
        let selected = (item_state & CDIS_SELECTED) != 0;
        let colors = if selected {
            if dark {
                if has_focus {
                    ItemColors { back: 0x008E5B26u32, text: 0x00FFFFFFu32 }
                } else {
                    ItemColors { back: 0x003A3A3Au32, text: 0x00CCCCCCu32 }
                }
            } else if has_focus {
                ItemColors { back: 0x00FAD7B4u32, text: 0x00000000u32 }
            } else {
                ItemColors { back: 0x00E1E1E1u32, text: 0x00555555u32 }
            }
        } else if dark {
            ItemColors { back: CLR_DARK_BG, text: CLR_DARK_FG }
        } else {
            ItemColors { back: CLR_LIGHT_BG, text: CLR_LIGHT_FG }
        };
        TreeDrawStep { result: CDRF_NEWFONT, colors: Some(colors), clear_selected: selected }
    } else {
        TreeDrawStep { result: CDRF_DODEFAULT, colors: None, clear_selected: false }
    }
}

/// How a window paints itself for a colour message.
#[derive(Debug, Clone, Copy, PartialEq, Eq, Structural)]
pub enum ColorMsgAction {
    /// Fill the client area with the background brush; answer 1.
    EraseBackground,
    /// Set the text colour and an opaque background colour, and answer the
    /// background brush (`edit_brush`: the edit-field brush, else the plain one).
    Paint { text: u32, back: u32, edit_brush: bool },
}

/// The background-erase message.
pub const WM_ERASEBKGND: u32 = 0x0014;
/// Colour message of edit fields.
pub const WM_CTLCOLOREDIT: u32 = 0x0133;
/// Colour message of list boxes.
pub const WM_CTLCOLORLISTBOX: u32 = 0x0134;
/// Colour message of buttons.
pub const WM_CTLCOLORBTN: u32 = 0x0135;
/// Colour message of labels and check boxes.
pub const WM_CTLCOLORSTATIC: u32 = 0x0138;

/// How the window answers the colour message `msg` in the given palette;
/// `None` leaves it to the default handling.
pub fn color_msg_action(msg: u32, dark: bool) -> (res: Option<ColorMsgAction>)
    ensures
        res == (if msg == WM_ERASEBKGND {
            Some(ColorMsgAction::EraseBackground)
        } else if msg == WM_CTLCOLORSTATIC || msg == WM_CTLCOLORBTN {
            Some(ColorMsgAction::Paint {
                text: if dark { CLR_DARK_FG } else { CLR_LIGHT_FG },
                back: if dark { CLR_DARK_BG } else { CLR_LIGHT_BG },
                edit_brush: false,
            })
        } else if msg == WM_CTLCOLOREDIT || msg == WM_CTLCOLORLISTBOX {
            Some(ColorMsgAction::Paint {
                text: if dark { CLR_DARK_FG } else { CLR_LIGHT_FG },
                back: if dark { crate::theme::CLR_DARK_EDIT } else { crate::theme::CLR_LIGHT_EDIT },
                edit_brush: true,
            })
        } else {
            None
        }),
{
    let fg = crate::theme::text_color(dark);
    if msg == WM_ERASEBKGND {
        Some(ColorMsgAction::EraseBackground)
    } else if msg == WM_CTLCOLORSTATIC || msg == WM_CTLCOLORBTN {
        Some(ColorMsgAction::Paint { text: fg, back: crate::theme::background_color(dark), edit_brush: false })
    } else if msg == WM_CTLCOLOREDIT || msg == WM_CTLCOLORLISTBOX {
        Some(ColorMsgAction::Paint { text: fg, back: crate::theme::edit_color(dark), edit_brush: true })
    } else {
        None
    }
}

/// The progress animation advances two degrees per timer tick, around 360.
pub fn next_progress_phase(phase: u32) -> (next: u32)
    requires
        phase <= u32::MAX - 2,
    ensures
        next == (phase + 2) % 360,
{
    (phase + 2) % 360
}

/// The paint message.
pub const WM_PAINT: u32 = 0x000F;
/// The timer message.
pub const WM_TIMER: u32 = 0x0113;

/// What the progress bar does with a window message.
#[derive(Debug, Clone, Copy, PartialEq, Eq, Structural)]
pub enum ProgressStep {
    /// Leave the background alone (the bar paints all of it).
    SkipErase,
    /// Store `phase` as the animation phase and ask for a repaint.
    Advance { phase: u32 },
    /// Paint the bar at the current phase.
    Paint,
    /// Hand the message to the default handling.
    Default,
}

/// What the progress bar does with the message `msg` at animation phase `phase`.
pub open spec fn progress_step_spec(msg: u32, phase: u32) -> ProgressStep {
    if msg == WM_ERASEBKGND {
        ProgressStep::SkipErase
    } else if msg == WM_TIMER {
        ProgressStep::Advance { phase: ((phase + 2) % 360) as u32 }
    } else if msg == WM_PAINT {
        ProgressStep::Paint
    } else {
        ProgressStep::Default
    }
}

/// The answer to the message after a step: 1 for a skipped erase, 0 for a
/// tick or a paint; `None` when the default handling answers.
pub open spec fn progress_answer_spec(step: ProgressStep) -> Option<isize> {
    match step {
        ProgressStep::SkipErase => Some(1),
        ProgressStep::Advance { .. } => Some(0),
        ProgressStep::Paint => Some(0),
        ProgressStep::Default => None,
    }
}

/// What the progress bar does with the message `msg` at animation phase `phase`.
pub fn progress_step(msg: u32, phase: u32) -> (step: ProgressStep)
    requires
        phase <= u32::MAX - 2,
    ensures
        step == progress_step_spec(msg, phase),
{
    if msg == WM_ERASEBKGND {
        ProgressStep::SkipErase
    } else if msg == WM_TIMER {
        ProgressStep::Advance { phase: next_progress_phase(phase) }
    } else if msg == WM_PAINT {
        ProgressStep::Paint
    } else {
        ProgressStep::Default
    }
}

/// The answer to the message after `step`.
pub fn progress_answer(step: ProgressStep) -> (answer: Option<isize>)
    ensures
        answer == progress_answer_spec(step),
{
    match step {
        ProgressStep::SkipErase => Some(1),
        ProgressStep::Advance { .. } => Some(0),
        ProgressStep::Paint => Some(0),
        ProgressStep::Default => None,
    }
}

/// The progress bar's messages: a timer tick advances the phase by 2
/// around 360 and answers 0; an erase answers 1 and a paint 0, both leaving
/// the phase alone; other messages go to the default handling. A phase below
/// 360 stays below 360.
pub proof fn law_progress_messages(msg: u32, phase: u32)
    requires
        phase < 360,
    ensures
        msg == WM_TIMER ==> progress_step_spec(msg, phase) == (ProgressStep::Advance {
            phase: ((phase + 2) % 360) as u32,
        }) && progress_answer_spec(progress_step_spec(msg, phase)) == Some(0isize),
        msg == WM_ERASEBKGND ==> progress_step_spec(msg, phase) == ProgressStep::SkipErase
            && progress_answer_spec(progress_step_spec(msg, phase)) == Some(1isize),
        msg == WM_PAINT ==> progress_step_spec(msg, phase) == ProgressStep::Paint
            && progress_answer_spec(progress_step_spec(msg, phase)) == Some(0isize),
        msg != WM_TIMER && msg != WM_ERASEBKGND && msg != WM_PAINT ==> progress_answer_spec(
            progress_step_spec(msg, phase),
        ) is None,
        progress_step_spec(msg, phase) matches ProgressStep::Advance { phase: p } ==> p < 360,
{
}

/// Background and border colours of the progress bar.
pub fn progress_bar_colors(dark: bool) -> (c: (u32, u32))
    ensures
        c == (if dark { (0x001C1C1Cu32, 0x00282828u32) } else { (0x00E0E0E0u32, 0x00CCCCCCu32) }),
{
    if dark {
        (0x001C1C1C, 0x00282828)
    } else {
        (0x00E0E0E0, 0x00CCCCCC)
    }
}

} // verus!
