//! Colour theme: the light and dark palettes, which palette a theme setting
//! selects, the visual-style names given to controls, and the menu-bar
//! structures used to paint the menu in dark mode.

use vstd::prelude::*;
use crate::text::str_to_string;

verus! {

/// Dark background (COLORREF, 0x00BBGGRR).
pub const CLR_DARK_BG: u32 = 0x00202020;
/// Dark edit-field background.
pub const CLR_DARK_EDIT: u32 = 0x002D2D2D;
/// Dark text colour.
pub const CLR_DARK_FG: u32 = 0x00F0F0F0;
/// Folder-tree lines on the dark background.
pub const CLR_DARK_LINE: u32 = 0x00A0A0A0;
/// Light background.
pub const CLR_LIGHT_BG: u32 = 0x00F0F0F0;
/// Light edit-field background.
pub const CLR_LIGHT_EDIT: u32 = 0x00FFFFFF;
/// Light text colour.
pub const CLR_LIGHT_FG: u32 = 0x00000000;
/// Folder-tree lines on the light background.
pub const CLR_LIGHT_LINE: u32 = 0x00707070;

/// Window message that paints the menu bar.
pub const WM_UAHDRAWMENU: u32 = 0x0091;
/// Window message that paints one menu-bar item.
pub const WM_UAHDRAWMENUITEM: u32 = 0x0092;
/// Window message that measures one menu-bar item.
pub const WM_UAHMEASUREMENUITEM: u32 = 0x0094;

/// Size of a menu item.
#[derive(Debug, Clone, Copy, PartialEq, Eq, Structural)]
pub struct UAHMENUITEMMETRICS {
    pub cx: u32,
    pub cy: u32,
}

/// Size of a popup menu.
#[derive(Debug, Clone, Copy, PartialEq, Eq, Structural)]
pub struct UAHMENUPOPUPMETRICS {
    pub cx: u32,
    pub cy: u32,
}

/// A menu-bar item: its position and metrics.
#[derive(Debug, Clone, Copy, PartialEq, Eq, Structural)]
pub struct UAHMENUITEM {
    pub i_position: i32,
    pub umim: UAHMENUITEMMETRICS,
    pub umpm: UAHMENUPOPUPMETRICS,
}

/// Whether a theme setting shows the dark palette: 0 follows the system,
/// 1 is light, 2 is dark, anything else light.
pub open spec fn theme_dark_spec(theme: usize, system_dark: bool) -> bool {
    if theme == 0 {
        system_dark
    } else {
        theme == 2
    }
}

/// Whether the theme setting `theme` shows the dark palette, given whether
/// the system uses dark mode.
pub fn theme_is_dark(theme: usize, system_dark: bool) -> (res: bool)
    ensures
        res == theme_dark_spec(theme, system_dark),
{
    match theme {
        0 => system_dark,
        1 => false,
        2 => true,
        _ => false,
    }
}

/// Background colour of the palette.
pub fn background_color(dark: bool) -> (c: u32)
    ensures
        c == (if dark { CLR_DARK_BG } else { CLR_LIGHT_BG }),
{
    if dark {
        CLR_DARK_BG
    } else {
        CLR_LIGHT_BG
    }
}

/// Text colour of the palette.
pub fn text_color(dark: bool) -> (c: u32)
    ensures
        c == (if dark { CLR_DARK_FG } else { CLR_LIGHT_FG }),
{
    if dark {
        CLR_DARK_FG
    } else {
        CLR_LIGHT_FG
    }
}

/// Edit-field background colour of the palette.
pub fn edit_color(dark: bool) -> (c: u32)
    ensures
        c == (if dark { CLR_DARK_EDIT } else { CLR_LIGHT_EDIT }),
{
    if dark {
        CLR_DARK_EDIT
    } else {
        CLR_LIGHT_EDIT
    }
}

/// Folder-tree line colour of the palette.
pub fn line_color(dark: bool) -> (c: u32)
    ensures
        c == (if dark { CLR_DARK_LINE } else { CLR_LIGHT_LINE }),
{
    if dark {
        CLR_DARK_LINE
    } else {
        CLR_LIGHT_LINE
    }
}

/// The "preferred app mode" passed to the system's theme service:
/// 2 forces dark menus, 3 forces light ones.
pub fn preferred_app_mode(dark: bool) -> (mode: i32)
    ensures
        mode == (if dark { 2i32 } else { 3i32 }),
{
    if dark {
        2
    } else {
        3
    }
}

/// The visual-style name given to trees, lists and scroll bars.
pub fn control_theme_name(dark: bool) -> (res: String)
    ensures
        res@ == (if dark { "DarkMode_Explorer"@ } else { "Explorer"@ }),
{
    if dark {
        str_to_string("DarkMode_Explorer")
    } else {
        str_to_string("Explorer")
    }
}

/// The one-pixel line under the menu bar, in window coordinates, from the
/// client origin on screen (`client_x`, `client_y`), the window's top-left
/// corner on screen and the client width: `(left, top, right, bottom)`.
pub fn menu_bottom_line_rect(
    client_x: i32,
    client_y: i32,
    window_left: i32,
    window_top: i32,
    client_width: i32,
) -> (r: (i32, i32, i32, i32))
    requires
        i32::MIN <= client_x - window_left <= i32::MAX,
        i32::MIN < client_y - window_top <= i32::MAX,
        i32::MIN <= client_x - window_left + client_width <= i32::MAX,
    ensures
        r.0 == client_x - window_left,
        r.1 == client_y - window_top - 1,
        r.2 == client_x - window_left + client_width,
        r.3 == client_y - window_top,
{
    let top = client_y - window_top;
    let left = client_x - window_left;
    (left, top - 1, left + client_width, top)
}

} // verus!
