//! Layout of the main window, in logical (96-DPI) pixels: where each control
//! goes for a window size and folder-tree width, where the progress bar
//! sits, how the result-list columns are stretched to fill the list, and
//! the sizes kept in and restored from the settings.

use vstd::prelude::*;
use crate::config::wrap_i32;

verus! {

/// A control's position and size.
#[derive(Debug, Clone, Copy, PartialEq, Eq, Structural)]
pub struct Rect {
    pub x: i32,
    pub y: i32,
    pub cx: i32,
    pub cy: i32,
}

/// Where the controls of the main window go.
#[derive(Debug, Clone, Copy, PartialEq, Eq, Structural)]
pub struct MainLayout {
    pub tree: Rect,
    pub splitter: Rect,
    pub list: Rect,
    pub lbl_query: Rect,
    pub cb_query: Rect,
    pub btn_search: Rect,
    pub lbl_dir: Rect,
    pub cb_dir: Rect,
    pub btn_browse: Rect,
    pub lbl_mask: Rect,
    pub cb_mask: Rect,
    pub cb_recursive: Rect,
    pub cb_case_sensitive: Rect,
    pub cb_regex_disable: Rect,
    pub cb_auto_detect_encoding: Rect,
    pub cb_ignore_files: Rect,
}

/// Smallest window width that is laid out.
pub const MIN_LAYOUT_WIDTH: i32 = 600;
/// Smallest window height that is laid out.
pub const MIN_LAYOUT_HEIGHT: i32 = 450;

/// `a / d` rounded toward zero, as Rust divides integers (`d > 0`).
pub open spec fn quot_toward_zero(a: int, d: int) -> int {
    if a >= 0 {
        a / d
    } else {
        -((-a) / d)
    }
}

/// A rectangle from integers.
pub open spec fn rect(x: int, y: int, cx: int, cy: int) -> Rect {
    Rect { x: x as i32, y: y as i32, cx: cx as i32, cy: cy as i32 }
}

/// The layout of a `w` x `h` window whose folder tree is `left` wide: the
/// tree and splitter on the left, the three input rows (label, field,
/// button) and two rows of check boxes at the top right, the result list
/// below them, the status bar (25 high) at the bottom.
pub open spec fn main_layout_spec(w: int, h: int, left: int) -> MainLayout {
    let top = 5int;
    let main_height = h - top - 25;
    let right_x = left + 14;
    let right_width = w - right_x - 4;
    let list_y = top + 155 + 5;
    let list_height = main_height - 155 - 10;
    let lbl_w = 120int;
    let input_x = right_x + lbl_w + 5;
    let input_w = right_width - lbl_w - 5;
    let btn_w = 100int;
    let query_w = input_w - (btn_w + 5);
    let btn_br_w = 65int;
    let dir_w = input_w - btn_br_w - 5;
    let col_w = quot_toward_zero(right_width, 3);
    let cb_w = col_w - 10;
    let cb_y1 = top + 95;
    let cb_y2 = top + 125;
    MainLayout {
        tree: rect(4, top, left, main_height - 5),
        splitter: rect(left + 7, top, 4, main_height - 5),
        list: rect(right_x, list_y, right_width, list_height),
        lbl_query: rect(right_x, top, lbl_w, 25),
        cb_query: rect(input_x, top, query_w, 25),
        btn_search: rect(input_x + query_w + 5, top, btn_w, 25),
        lbl_dir: rect(right_x, top + 30, lbl_w, 25),
        cb_dir: rect(input_x, top + 30, dir_w, 25),
        btn_browse: rect(input_x + dir_w + 5, top + 30, btn_br_w, 25),
        lbl_mask: rect(right_x, top + 60, lbl_w, 25),
        cb_mask: rect(input_x, top + 60, input_w, 25),
        cb_recursive: rect(right_x, cb_y1, cb_w, 25),
        cb_case_sensitive: rect(right_x + col_w, cb_y1, cb_w, 25),
        cb_regex_disable: rect(right_x + col_w * 2, cb_y1, cb_w, 25),
        cb_auto_detect_encoding: rect(right_x, cb_y2, cb_w, 25),
        cb_ignore_files: rect(right_x + col_w, cb_y2, cb_w, 25),
    }
}

/// The layout of a `w` x `h` window with a folder tree `left_width` wide;
/// `None` for a window smaller than 600 x 450, which is left as it is.
pub fn main_layout(w: i32, h: i32, left_width: i32) -> (res: Option<MainLayout>)
    requires
        left_width <= i32::MAX - 139,
        w - left_width - 14 <= i32::MAX,
    ensures
        res is None <==> (w < MIN_LAYOUT_WIDTH || h < MIN_LAYOUT_HEIGHT),
        res matches Some(l) ==> l == main_layout_spec(w as int, h as int, left_width as int),
        res matches Some(l) ==> l.list.x + l.list.cx == w - 4 && l.btn_search.x + l.btn_search.cx == w - 4
            && l.btn_browse.x + l.btn_browse.cx == w - 4 && l.cb_mask.x + l.cb_mask.cx == w - 4
            && l.list.y + l.list.cy == h - 30,
{
    if w < MIN_LAYOUT_WIDTH || h < MIN_LAYOUT_HEIGHT {
        return None;
    }
    let top: i32 = 5;
    let main_height = h - top - 25;
    let right_x = left_width + 14;
    let right_width = w - right_x - 4;
    let list_y = top + 155 + 5;
    let list_height = main_height - 155 - 10;
    let lbl_w: i32 = 120;
    let input_x = right_x + lbl_w + 5;
    let input_w = right_width - lbl_w - 5;
    let btn_w: i32 = 100;
    let query_w = input_w - (btn_w + 5);
    let btn_br_w: i32 = 65;
    let dir_w = input_w - btn_br_w - 5;
    let col_w = if right_width >= 0 {
        right_width / 3
    } else {
        -((-right_width) / 3)
    };
    let cb_w = col_w - 10;
    let cb_y1 = top + 95;
    let cb_y2 = top + 125;
    Some(MainLayout {
        tree: Rect { x: 4, y: top, cx: left_width, cy: main_height - 5 },
        splitter: Rect { x: left_width + 7, y: top, cx: 4, cy: main_height - 5 },
        list: Rect { x: right_x, y: list_y, cx: right_width, cy: list_height },
        lbl_query: Rect { x: right_x, y: top, cx: lbl_w, cy: 25 },
        cb_query: Rect { x: input_x, y: top, cx: query_w, cy: 25 },
        btn_search: Rect { x: input_x + query_w + 5, y: top, cx: btn_w, cy: 25 },
        lbl_dir: Rect { x: right_x, y: top + 30, cx: lbl_w, cy: 25 },
        cb_dir: Rect { x: input_x, y: top + 30, cx: dir_w, cy: 25 },
        btn_browse: Rect { x: input_x + dir_w + 5, y: top + 30, cx: btn_br_w, cy: 25 },
        lbl_mask: Rect { x: right_x, y: top + 60, cx: lbl_w, cy: 25 },
        cb_mask: Rect { x: input_x, y: top + 60, cx: input_w, cy: 25 },
        cb_recursive: Rect { x: right_x, y: cb_y1, cx: cb_w, cy: 25 },
        cb_case_sensitive: Rect { x: right_x + col_w, y: cb_y1, cx: cb_w, cy: 25 },
        cb_regex_disable: Rect { x: right_x + col_w * 2, y: cb_y1, cx: cb_w, cy: 25 },
        cb_auto_detect_encoding: Rect { x: right_x, y: cb_y2, cx: cb_w, cy: 25 },
        cb_ignore_files: Rect { x: right_x + col_w, y: cb_y2, cx: cb_w, cy: 25 },
    })
}

/// The progress bar: 280 x 16, 20 pixels from the right edge, centred in
/// the status bar at the bottom of a `w` x `h` window.
pub fn progress_bar_rect(w: i32, h: i32) -> (r: Rect)
    requires
        i32::MIN <= w - 300,
        i32::MIN <= h - 25,
    ensures
        r == rect(w - 300, h - 25 + 4, 280, 16),
{
    let pb_w: i32 = 280;
    let pb_h: i32 = 16;
    Rect { x: w - pb_w - 20, y: h - 25 + (25 - pb_h) / 2, cx: pb_w, cy: pb_h }
}

/// `d / 2` rounded toward zero, as Rust divides integers.
pub open spec fn half_toward_zero(d: int) -> int {
    if d >= 0 {
        d / 2
    } else {
        -((-d) / 2)
    }
}

/// Where a dialog of size `dw` x `dh` goes to be centred on a window at
/// (`px`, `py`) of size `pw` x `ph`; sizes are taken as `i32` the way
/// two's complement wraps them.
pub fn centered_position(px: i32, py: i32, pw: u32, ph: u32, dw: u32, dh: u32) -> (res: (i32, i32))
    requires
        i32::MIN <= px + half_toward_zero(wrap_i32(wrap_i32(pw as int) - wrap_i32(dw as int))) <= i32::MAX,
        i32::MIN <= py + half_toward_zero(wrap_i32(wrap_i32(ph as int) - wrap_i32(dh as int))) <= i32::MAX,
    ensures
        res.0 == px + half_toward_zero(wrap_i32(wrap_i32(pw as int) - wrap_i32(dw as int))),
        res.1 == py + half_toward_zero(wrap_i32(wrap_i32(ph as int) - wrap_i32(dh as int))),
{
    let dx = half_difference(pw, dw);
    let dy = half_difference(ph, dh);
    (px + dx, py + dy)
}

/// `(a as i32 - b as i32) / 2` with two's-complement wrapping of the casts
/// and of the difference.
fn half_difference(a: u32, b: u32) -> (r: i32)
    ensures
        r == half_toward_zero(wrap_i32(wrap_i32(a as int) - wrap_i32(b as int))),
{
    let x: i64 = if a > 0x7fff_ffff {
        a as i64 - 0x1_0000_0000
    } else {
        a as i64
    };
    let y: i64 = if b > 0x7fff_ffff {
        b as i64 - 0x1_0000_0000
    } else {
        b as i64
    };
    let mut d: i64 = x - y;
    if d > 0x7fff_ffff {
        d = d - 0x1_0000_0000;
    } else if d < -0x8000_0000 {
        d = d + 0x1_0000_0000;
    }
    let h: i64 = if d >= 0 {
        d / 2
    } else {
        -((-d) / 2)
    };
    h as i32
}

// ---------------------------------------------------------------------------
// Sizes kept in the settings
// ---------------------------------------------------------------------------

/// Narrowest folder tree.
pub const MIN_TREE_WIDTH: u32 = 120;
/// Smallest window width restored or saved.
pub const MIN_WINDOW_WIDTH: u32 = 700;
/// Smallest window height restored or saved.
pub const MIN_WINDOW_HEIGHT: u32 = 500;
/// Narrowest result-list column saved.
pub const MIN_COLUMN_WIDTH: i32 = 20;

/// The folder-tree width restored from the settings: at least 120, taken
/// as `i32` the way two's complement wraps it.
pub fn restored_tree_width(tree_width: u32) -> (r: i32)
    ensures
        r == wrap_i32(if tree_width < MIN_TREE_WIDTH { MIN_TREE_WIDTH as int } else { tree_width as int }),
{
    let t = if tree_width < MIN_TREE_WIDTH {
        MIN_TREE_WIDTH
    } else {
        tree_width
    };
    if t > 0x7fff_ffff {
        (t as i64 - 0x1_0000_0000) as i32
    } else {
        t as i32
    }
}

/// A window size, at least 700 x 500.
pub fn clamped_window_size(w: u32, h: u32) -> (r: (u32, u32))
    ensures
        r.0 == (if w < MIN_WINDOW_WIDTH { MIN_WINDOW_WIDTH } else { w }),
        r.1 == (if h < MIN_WINDOW_HEIGHT { MIN_WINDOW_HEIGHT } else { h }),
{
    (if w < MIN_WINDOW_WIDTH {
        MIN_WINDOW_WIDTH
    } else {
        w
    }, if h < MIN_WINDOW_HEIGHT {
        MIN_WINDOW_HEIGHT
    } else {
        h
    })
}

/// The folder-tree width saved in the settings: at least 120.
pub fn saved_tree_width(left_width: i32) -> (r: u32)
    ensures
        r == (if left_width < 120 { 120 } else { left_width as int }),
{
    if left_width < 120 {
        120
    } else {
        left_width as u32
    }
}

/// A result-list column width saved in the settings (already in logical
/// pixels): at least 20, taken as `u32`.
pub fn saved_column_width(logical: i32) -> (r: u32)
    ensures
        r == (if logical < MIN_COLUMN_WIDTH { MIN_COLUMN_WIDTH as int } else { logical as int }),
{
    if logical < MIN_COLUMN_WIDTH {
        MIN_COLUMN_WIDTH as u32
    } else {
        logical as u32
    }
}

/// A result-list column width restored from the settings (logical
/// pixels): at least 20.
pub fn restored_column_width(saved: u32) -> (r: u32)
    ensures
        r == (if saved < MIN_COLUMN_WIDTH { MIN_COLUMN_WIDTH as int } else { saved as int }),
{
    if saved < MIN_COLUMN_WIDTH as u32 {
        MIN_COLUMN_WIDTH as u32
    } else {
        saved
    }
}

/// The folder-tree width while the splitter is dragged to `x` (physical
/// pixels, `offset` from where the drag started): at least `min_width`,
/// then at most `max_width`.
pub fn dragged_tree_width(x: i32, offset: i32, min_width: i32, max_width: i32) -> (r: i32)
    requires
        i32::MIN <= x - offset <= i32::MAX,
    ensures
        r == (if (if x - offset < min_width { min_width as int } else { x - offset }) > max_width {
            max_width as int
        } else if x - offset < min_width {
            min_width as int
        } else {
            x - offset
        }),
{
    let a = x - offset;
    let b = if a < min_width {
        min_width
    } else {
        a
    };
    if b > max_width {
        max_width
    } else {
        b
    }
}

// ---------------------------------------------------------------------------
// Result-list columns
// ---------------------------------------------------------------------------

/// Three column widths.
pub type Widths = (int, int, int);

/// The larger of two integers.
pub open spec fn imax(a: int, b: int) -> int {
    if a >= b {
        a
    } else {
        b
    }
}

/// The smaller of two integers.
pub open spec fn imin(a: int, b: int) -> int {
    if a <= b {
        a
    } else {
        b
    }
}

/// Width `i` of `t`.
pub open spec fn at(t: Widths, i: int) -> int {
    if i == 0 {
        t.0
    } else if i == 1 {
        t.1
    } else {
        t.2
    }
}

/// `t` with width `i` set to `v`.
pub open spec fn with(t: Widths, i: int, v: int) -> Widths {
    if i == 0 {
        (v, t.1, t.2)
    } else if i == 1 {
        (t.0, v, t.2)
    } else {
        (t.0, t.1, v)
    }
}

/// The two columns other than `f`, in order.
pub open spec fn others(f: int) -> (int, int) {
    if f == 0 {
        (1, 2)
    } else if f == 1 {
        (0, 2)
    } else {
        (0, 1)
    }
}

/// The width kept by a column `f` just resized by the user: its width,
/// within its minimum and what the other minimums leave of `a`.
pub open spec fn kept_width(a: int, w: Widths, m: Widths, f: int) -> int {
    let mf = at(m, f);
    let hi = imax(a - m.0 - m.1 - m.2 + mf, mf);
    if at(w, f) < mf {
        mf
    } else if at(w, f) > hi {
        hi
    } else {
        at(w, f)
    }
}

/// First share-out of `rest` pixels between two columns of widths `w0`,
/// `w1` and minimums `m0`, `m1`: in proportion, each at least its minimum,
/// halved when the minimums do not fit.
pub open spec fn first_share(rest: int, w0: int, w1: int, m0: int, m1: int) -> (int, int) {
    let ot = imax(w0 + w1, 1);
    let x0 = imax(rest * w0 / ot, m0);
    let x1 = imax(rest - x0, m1);
    if x0 + x1 > rest {
        (imax(rest / 2, 1), imax(rest - imax(rest / 2, 1), 1))
    } else {
        (x0, x1)
    }
}

/// Stretching with column `f` just resized by the user: it keeps its width
/// (`kept_width`, and no more than the other minimums leave), and the other
/// two share the rest in proportion to their shares of a first share-out.
pub open spec fn fixed_stretch(a: int, w: Widths, m: Widths, f: int) -> Widths {
    let fw = kept_width(a, w, m, f);
    let o0 = others(f).0;
    let o1 = others(f).1;
    let y = first_share(imax(a - fw, 1), at(w, o0), at(w, o1), at(m, o0), at(m, o1));
    let f2 = imin(fw, a - at(m, o0) - at(m, o1));
    let rest2 = a - f2;
    let z0 = imax(rest2 * y.0 / imax(y.0 + y.1, 1), at(m, o0));
    let z1 = imax(rest2 - z0, 1);
    with(with(with(w, f, f2), o0, z0), o1, z1)
}

/// Stretching all three columns in proportion to their widths, each at least
/// its minimum (the last at least 1); when the last falls below its minimum,
/// the wider of the first two (if above its own minimum) gives up width.
pub open spec fn proportional_stretch(a: int, w: Widths, m: Widths) -> Widths {
    let t = imax(w.0 + w.1 + w.2, 1);
    let x0 = imax(a * w.0 / t, m.0);
    let x1 = imax(a * w.1 / t, m.1);
    let x2 = imax(a - x0 - x1, 1);
    if x2 < m.2 {
        let need = m.2 - x2;
        let y0 = if x0 >= x1 && x0 > m.0 {
            x0 - imin(need, x0 - m.0)
        } else {
            x0
        };
        let y1 = if x0 >= x1 && x0 > m.0 {
            x1
        } else if x1 > m.1 {
            x1 - imin(need, x1 - m.1)
        } else {
            x1
        };
        (y0, y1, imax(a - y0 - y1, 1))
    } else {
        (x0, x1, x2)
    }
}

/// `v` kept within `lo` and `hi`.
pub open spec fn clamp_int(v: int, lo: int, hi: int) -> int {
    if v < lo {
        lo
    } else if v > hi {
        hi
    } else {
        v
    }
}

/// The widths `r` fitted to exactly `a` pixels, each column at least 1 wide:
/// the first kept within 1 and `a - 2`, the second within 1 and what the
/// first leaves minus 1, and the last takes the rest. Widths of at least 1
/// that already add up to `a` are left as they are.
pub open spec fn fit_widths(a: int, r: Widths) -> Widths {
    let c0 = clamp_int(r.0, 1, a - 2);
    let c1 = clamp_int(r.1, 1, a - c0 - 1);
    (c0, c1, a - c0 - c1)
}

/// The column widths after stretching to `a` pixels (see the two cases),
/// fitted so that they always fill the list exactly (`fit_widths`). `None`
/// when the list is narrower than 60 pixels.
pub open spec fn stretch_spec(a: int, w: Widths, m: Widths, fixed_col: Option<usize>) -> Option<Widths> {
    if a < 60 {
        None
    } else {
        let r = match fixed_col {
            Some(f) => if f < 3 {
                fixed_stretch(a, w, m, f as int)
            } else {
                proportional_stretch(a, w, m)
            },
            None => proportional_stretch(a, w, m),
        };
        Some(fit_widths(a, r))
    }
}

/// Inputs in the ranges the list control reports.
pub open spec fn stretch_inputs_ok(available: i64, widths: (i64, i64, i64), mins: (i64, i64, i64)) -> bool {
    &&& 0 <= available <= i32::MAX
    &&& 1 <= widths.0 <= i32::MAX && 1 <= widths.1 <= i32::MAX && 1 <= widths.2 <= i32::MAX
    &&& 0 <= mins.0 <= 0x4000_0000 && 0 <= mins.1 <= 0x4000_0000 && 0 <= mins.2 <= 0x4000_0000
}

/// The integer widths of a triple.
pub open spec fn as_widths(t: (i64, i64, i64)) -> Widths {
    (t.0 as int, t.1 as int, t.2 as int)
}

fn max64(a: i64, b: i64) -> (r: i64)
    ensures
        r == imax(a as int, b as int),
{
    if a >= b {
        a
    } else {
        b
    }
}

fn min64(a: i64, b: i64) -> (r: i64)
    ensures
        r == imin(a as int, b as int),
{
    if a <= b {
        a
    } else {
        b
    }
}

fn get3(t: (i64, i64, i64), i: usize) -> (r: i64)
    requires
        i < 3,
    ensures
        r == at(as_widths(t), i as int),
{
    if i == 0 {
        t.0
    } else if i == 1 {
        t.1
    } else {
        t.2
    }
}

fn set3(t: (i64, i64, i64), i: usize, v: i64) -> (r: (i64, i64, i64))
    requires
        i < 3,
    ensures
        as_widths(r) == with(as_widths(t), i as int, v as int),
{
    if i == 0 {
        (v, t.1, t.2)
    } else if i == 1 {
        (t.0, v, t.2)
    } else {
        (t.0, t.1, v)
    }
}

proof fn lemma_div_bounds(x: int, y: int, t: int)
    requires
        0 <= x <= 0xFFFF_FFFF,
        0 <= y <= 0x7FFF_FFFF,
        t >= 1,
    ensures
        0 <= x * y <= 0xFFFF_FFFF * 0x7FFF_FFFF,
        0 <= x * y / t,
        y <= t ==> x * y / t <= x,
{
    assert(0 <= x * y <= 0xFFFF_FFFF * 0x7FFF_FFFF) by (nonlinear_arith)
        requires
            0 <= x <= 0xFFFF_FFFF,
            0 <= y <= 0x7FFF_FFFF,
    ;
    assert(0 <= x * y / t) by (nonlinear_arith)
        requires
            0 <= x * y,
            t >= 1,
    ;
    if y <= t {
        assert(x * y / t <= x) by (nonlinear_arith)
            requires
                0 <= x,
                0 <= y <= t,
                t >= 1,
        {
            assert(x * y <= x * t);
            assert((x * t) / t == x);
        }
    }
}

fn kept_width_exec(a: i64, widths: (i64, i64, i64), mins: (i64, i64, i64), f: usize) -> (fw: i64)
    requires
        stretch_inputs_ok(a, widths, mins),
        f < 3,
    ensures
        fw == kept_width(a as int, as_widths(widths), as_widths(mins), f as int),
        0 <= fw <= 0x7FFF_FFFF,
{
    let mf = get3(mins, f);
    let hi = max64(a - mins.0 - mins.1 - mins.2 + mf, mf);
    let wf = get3(widths, f);
    if wf < mf {
        mf
    } else if wf > hi {
        hi
    } else {
        wf
    }
}

fn first_share_exec(rest: i64, w0: i64, w1: i64, m0: i64, m1: i64) -> (y: (i64, i64))
    requires
        1 <= rest <= 0x7FFF_FFFF,
        1 <= w0 <= 0x7FFF_FFFF,
        1 <= w1 <= 0x7FFF_FFFF,
        0 <= m0 <= 0x4000_0000,
        0 <= m1 <= 0x4000_0000,
    ensures
        (y.0 as int, y.1 as int) == first_share(rest as int, w0 as int, w1 as int, m0 as int, m1 as int),
        0 <= y.0 <= 0x7FFF_FFFF,
        0 <= y.1 <= 0x7FFF_FFFF,
{
    let ot = max64(w0 + w1, 1);
    proof {
        lemma_div_bounds(rest as int, w0 as int, ot as int);
    }
    let x0 = max64(rest * w0 / ot, m0);
    let x1 = max64(rest - x0, m1);
    if x0 + x1 > rest {
        let z = max64(rest / 2, 1);
        (z, max64(rest - z, 1))
    } else {
        (x0, x1)
    }
}

fn fixed_stretch_exec(a: i64, widths: (i64, i64, i64), mins: (i64, i64, i64), f: usize) -> (r: (i64, i64, i64))
    requires
        stretch_inputs_ok(a, widths, mins),
        f < 3,
    ensures
        as_widths(r) == fixed_stretch(a as int, as_widths(widths), as_widths(mins), f as int),
        r.0 + r.1 + r.2 <= 0x4_0000_0000,
        -0x4_0000_0000 <= r.0 + r.1 + r.2,
        -0x2_0000_0000 <= r.0 + r.1 <= 0x2_0000_0000,
{
    let fw = kept_width_exec(a, widths, mins, f);
    let (o0, o1): (usize, usize) = if f == 0 {
        (1, 2)
    } else if f == 1 {
        (0, 2)
    } else {
        (0, 1)
    };
    assert(o0 as int == others(f as int).0 && o1 as int == others(f as int).1);
    let rest = max64(a - fw, 1);
    let m0 = get3(mins, o0);
    let m1 = get3(mins, o1);
    let y = first_share_exec(rest, get3(widths, o0), get3(widths, o1), m0, m1);
    let f2 = min64(fw, a - m0 - m1);
    let rest2 = a - f2;
    let d = max64(y.0 + y.1, 1);
    proof {
        lemma_div_bounds(rest2 as int, y.0 as int, d as int);
    }
    let z0 = max64(rest2 * y.0 / d, m0);
    let z1 = max64(rest2 - z0, 1);
    let t1 = set3(widths, f, f2);
    let t2 = set3(t1, o0, z0);
    set3(t2, o1, z1)
}

fn proportional_stretch_exec(a: i64, widths: (i64, i64, i64), mins: (i64, i64, i64)) -> (r: (i64, i64, i64))
    requires
        stretch_inputs_ok(a, widths, mins),
    ensures
        as_widths(r) == proportional_stretch(a as int, as_widths(widths), as_widths(mins)),
        r.0 + r.1 + r.2 <= 0x4_0000_0000,
        -0x4_0000_0000 <= r.0 + r.1 + r.2,
        -0x2_0000_0000 <= r.0 + r.1 <= 0x2_0000_0000,
{
    let t = max64(widths.0 + widths.1 + widths.2, 1);
    proof {
        lemma_div_bounds(a as int, widths.0 as int, t as int);
        lemma_div_bounds(a as int, widths.1 as int, t as int);
    }
    let x0 = max64(a * widths.0 / t, mins.0);
    let x1 = max64(a * widths.1 / t, mins.1);
    let x2 = max64(a - x0 - x1, 1);
    if x2 < mins.2 {
        let need = mins.2 - x2;
        let (y0, y1) = if x0 >= x1 && x0 > mins.0 {
            (x0 - min64(need, x0 - mins.0), x1)
        } else if x1 > mins.1 {
            (x0, x1 - min64(need, x1 - mins.1))
        } else {
            (x0, x1)
        };
        (y0, y1, max64(a - y0 - y1, 1))
    } else {
        (x0, x1, x2)
    }
}

/// The result-list column widths after stretching the columns to fill
/// `available` pixels, with column `fixed_col` just resized by the user
/// (see `stretch_spec`); `None` when the list is too narrow.
pub fn stretch_columns(
    available: i64,
    widths: (i64, i64, i64),
    mins: (i64, i64, i64),
    fixed_col: Option<usize>,
) -> (res: Option<(i64, i64, i64)>)
    requires
        stretch_inputs_ok(available, widths, mins),
    ensures
        match res {
            Some(r) => stretch_spec(available as int, as_widths(widths), as_widths(mins), fixed_col) == Some(as_widths(r)),
            None => stretch_spec(available as int, as_widths(widths), as_widths(mins), fixed_col) is None,
        },
        res is None <==> available < 60,
        res matches Some(r) ==> r.0 >= 1 && r.1 >= 1 && r.2 >= 1 && r.0 + r.1 + r.2 == available,
{
    if available < 60 {
        return None;
    }
    let fixed: usize = match fixed_col {
        Some(f) => f,
        None => 3,
    };
    let r = if fixed < 3 {
        fixed_stretch_exec(available, widths, mins, fixed)
    } else {
        proportional_stretch_exec(available, widths, mins)
    };
    let c0 = clamp64(r.0, 1, available - 2);
    let c1 = clamp64(r.1, 1, available - c0 - 1);
    Some((c0, c1, available - c0 - c1))
}

fn clamp64(v: i64, lo: i64, hi: i64) -> (r: i64)
    requires
        lo <= hi,
    ensures
        r == clamp_int(v as int, lo as int, hi as int),
{
    if v < lo {
        lo
    } else if v > hi {
        hi
    } else {
        v
    }
}

/// Positive widths and minimums in the ranges the list control reports.
pub open spec fn positive_inputs(a: int, w: Widths, m: Widths) -> bool {
    &&& 0 <= a <= i32::MAX
    &&& 1 <= w.0 <= i32::MAX && 1 <= w.1 <= i32::MAX && 1 <= w.2 <= i32::MAX
    &&& 1 <= m.0 <= 0x4000_0000 && 1 <= m.1 <= 0x4000_0000 && 1 <= m.2 <= 0x4000_0000
}

proof fn lemma_share_below(x: int, y0: int, y1: int)
    requires
        x >= 1,
        y0 >= 0,
        y1 >= 1,
    ensures
        x * y0 / (y0 + y1) <= x - 1,
{
    assert(x * y0 / (y0 + y1) <= x - 1) by (nonlinear_arith)
        requires
            x >= 1,
            y0 >= 0,
            y1 >= 1,
    {
        assert(x * y0 < x * (y0 + y1));
        assert(x * (y0 + y1) / (y0 + y1) == x);
    }
}

proof fn lemma_shares_below(a: int, w0: int, w1: int, t: int)
    requires
        a >= 0,
        w0 >= 1,
        w1 >= 1,
        t >= w0 + w1 + 1,
    ensures
        a * w0 / t + a * w1 / t <= a - 1 || a == 0,
{
    if a > 0 {
        assert(a * w0 / t + a * w1 / t <= a - 1) by (nonlinear_arith)
            requires
                a >= 1,
                w0 >= 1,
                w1 >= 1,
                t >= w0 + w1 + 1,
        {
            assert((a * w0 / t) * t <= a * w0);
            assert((a * w1 / t) * t <= a * w1);
            assert((a * w0 / t + a * w1 / t) * t <= a * (w0 + w1));
            assert(a * (w0 + w1) < a * t);
        }
    }
}

/// Stretching always fills the list exactly, each column at least one pixel
/// wide, whenever the list is 60 pixels or wider.
pub proof fn law_stretch_always_fills(a: int, w: Widths, m: Widths, fixed_col: Option<usize>)
    requires
        a >= 60,
    ensures
        stretch_spec(a, w, m, fixed_col) matches Some(r) && r.0 >= 1 && r.1 >= 1 && r.2 >= 1
            && r.0 + r.1 + r.2 == a,
{
}

/// After the user resizes column `f`, when the list is wide enough for all
/// three minimum widths the columns fill the list exactly, and the resized
/// column keeps its width within its bounds.
pub proof fn law_stretch_fixed_fills(a: int, w: Widths, m: Widths, f: usize)
    requires
        positive_inputs(a, w, m),
        a >= 60,
        a >= m.0 + m.1 + m.2,
        f < 3,
    ensures
        stretch_spec(a, w, m, Some(f)) matches Some(r) && r.0 + r.1 + r.2 == a
            && at(r, f as int) == kept_width(a, w, m, f as int),
{
    let fi = f as int;
    let fw = kept_width(a, w, m, fi);
    let o0 = others(fi).0;
    let o1 = others(fi).1;
    let rest = imax(a - fw, 1);
    let y = first_share(rest, at(w, o0), at(w, o1), at(m, o0), at(m, o1));
    let ot = imax(at(w, o0) + at(w, o1), 1);
    let x0 = imax(rest * at(w, o0) / ot, at(m, o0));
    let x1 = imax(rest - x0, at(m, o1));
    assert(x1 >= 1);
    assert(y.1 >= 1);
    assert(y.0 >= 0) by {
        lemma_div_bounds(rest, at(w, o0), ot);
    }
    let f2 = imin(fw, a - at(m, o0) - at(m, o1));
    assert(f2 == fw);
    let rest2 = a - f2;
    assert(rest2 >= at(m, o0) + at(m, o1));
    lemma_share_below(rest2, y.0, y.1);
    let z0 = imax(rest2 * y.0 / imax(y.0 + y.1, 1), at(m, o0));
    assert(z0 <= rest2 - 1);
}

/// When neither of the first two columns' proportional shares falls below
/// its minimum, stretching all three columns fills the list exactly.
pub proof fn law_stretch_proportional_fills(a: int, w: Widths, m: Widths)
    requires
        positive_inputs(a, w, m),
        a >= 60,
        a * w.0 / (w.0 + w.1 + w.2) >= m.0,
        a * w.1 / (w.0 + w.1 + w.2) >= m.1,
    ensures
        stretch_spec(a, w, m, None) matches Some(r) && r.0 + r.1 + r.2 == a,
{
    let t = w.0 + w.1 + w.2;
    lemma_shares_below(a, w.0, w.1, t);
}

} // verus!
