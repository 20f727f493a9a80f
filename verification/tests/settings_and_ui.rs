use jgrep3::config::{
    AppConfig, ConfigStore, HISTORY_MAX, font_size_index, font_sizes, history_text, list_font_families,
    load_config, portable_config_path, push_history, ui_font_families, default_editor_args,
    default_editor_path, default_font_family, default_list_font_family, default_window_width,
};
use jgrep3::custom_draw::{
    HighlightState, ListPaint, find_highlight_ranges, header_draw_step, highlight_segments, list_draw_step,
    tree_draw_step, color_msg_action, ColorMsgAction, column_separators, grid_rows_end, next_progress_phase,
    line_colors, LineColors, ProgressStep, progress_answer, progress_step,
};
use jgrep3::drives::{dir_name_order, is_listed_dir_name, is_visible_dir_name, parse_logical_drives};
use jgrep3::editor::{editor_command, expand_editor_args, replace_str, split_template};
use jgrep3::layout::{
    centered_position, main_layout, progress_bar_rect, restored_column_width, restored_tree_width, stretch_columns,
};
use jgrep3::order::{SortKey, stable_order};
use jgrep3::results::{
    ResultList, SearchRequestError, check_search_request, completed_status, next_sort, progress_status,
    sort_results, sort_arrow,
};
use jgrep3::search::{SearchResultItem, SearchStatus};
use jgrep3::settings::{font_family_index, font_request, parse_u32, selected_font_size, selected_list_font_size};
use jgrep3::text::{u64_to_decimal, usize_to_decimal};
use jgrep3::theme::{
    background_color, control_theme_name, edit_color, line_color, menu_bottom_line_rect, preferred_app_mode,
    text_color, theme_is_dark,
};

#[test]
fn test_expand_editor_args() {
    let args = expand_editor_args("%FILENAME% --line %LINE% --col %COL%", "test.txt", 10, 5);
    assert_eq!(args, vec!["test.txt", "--line", "10", "--col", "5"]);

    let args_full = expand_editor_args("--file %FILE% --column %COLUMN%", "test.txt", 10, 5);
    assert_eq!(args_full, vec!["--file", "test.txt", "--column", "5"]);

    let quoted_args = expand_editor_args("\"%FILENAME%\" --args", "test.txt", 10, 5);
    assert_eq!(quoted_args, vec!["test.txt", "--args"]);
}

#[test]
fn template_words_and_replacement() {
    assert_eq!(split_template("a \"b c\"\td  \"\""), vec!["a", "b c", "d"]);
    assert_eq!(replace_str("aaa", "aa", "b"), "ba");
    assert_eq!(replace_str("x", "", "y"), "x");
    assert_eq!(expand_editor_args("-g %FILENAME%:%LINE%:%COL%", "a b.txt", 3, 7), vec!["-g", "a b.txt:3:7"]);
}

#[test]
fn argument_count_depends_on_the_template_only() {
    let t = "-g %FILENAME%:%LINE%:%COL% --x \"%FILE%\"";
    let a = expand_editor_args(t, "plain.rs", 1, 1);
    let b = expand_editor_args(t, "with \"quotes\" and blanks.rs", 12345, 678);
    assert_eq!(a.len(), b.len());
    assert_eq!(b, vec!["-g", "with \"quotes\" and blanks.rs:12345:678", "--x", "with \"quotes\" and blanks.rs"]);
    assert_eq!(expand_editor_args(&default_editor_args(), "a b.rs", 3, 7), vec!["-g", "a b.rs:3:7"]);
    // The old dollar placeholders are not replaced.
    assert_eq!(expand_editor_args("$f:$l", "x", 1, 2), vec!["$f:$l"]);
}

#[test]
fn editor_commands() {
    let c = editor_command("code.exe", "-g %FILENAME%:%LINE%:%COL%", "f.rs", 2, 3, false);
    assert_eq!(c.args, vec!["/c", "code.exe", "-g", "f.rs:2:3"]);
    assert!(c.hide_window);
    let s = editor_command("C:\\Sakura\\SAKURA.exe", " ", "f.rs", 2, 3, false);
    assert_eq!(s.args, vec!["/c", "C:\\Sakura\\SAKURA.exe", "-Y=2", "-X=3", "f.rs"]);
    let h = editor_command("hidemaru.exe", "", "f.rs", 2, 3, false);
    assert_eq!(h.args, vec!["/c", "hidemaru.exe", "/j2", ",3", "f.rs"]);
    let n = editor_command("notepad++.exe", "", "f.rs", 2, 3, false);
    assert_eq!(n.args, vec!["/c", "notepad++.exe", "-n2", "-c3", "f.rs"]);
    let o = editor_command("vim", "", "f.rs", 2, 3, false);
    assert_eq!(o.args, vec!["/c", "vim", "f.rs"]);
    let v = editor_command("  ", "", "f.rs", 2, 3, true);
    assert_eq!(v.args, vec!["/c", "code", "-g", "f.rs:2:3"]);
    let d = editor_command("", "", "f.rs", 2, 3, false);
    assert_eq!(d.args, vec!["/c", "start", "", "f.rs"]);
    assert!(!d.hide_window);
}

#[test]
fn history_moves_value_to_front() {
    let mut list = vec![String::from("b"), String::from("a"), String::from("c")];
    push_history(&mut list, "  a ");
    assert_eq!(list, vec!["a", "b", "c"]);
    push_history(&mut list, "a");
    assert_eq!(list, vec!["a", "b", "c"]);
    push_history(&mut list, "   ");
    assert_eq!(list, vec!["a", "b", "c"]);
}

#[test]
fn history_is_capped() {
    let mut list: Vec<String> = (0..HISTORY_MAX).map(|i| format!("v{}", i)).collect();
    push_history(&mut list, "new");
    assert_eq!(list.len(), HISTORY_MAX);
    assert_eq!(list[0], "new");
    assert_eq!(list[HISTORY_MAX - 1], format!("v{}", HISTORY_MAX - 2));
}

#[test]
fn font_sizes_nearest_first() {
    assert_eq!(font_sizes(), vec![10, 11, 12, 13, 14, 15, 16, 18, 20, 22, 24]);
    assert_eq!(font_size_index(16), 6);
    assert_eq!(font_size_index(17), 6);
    assert_eq!(font_size_index(19), 7);
    assert_eq!(font_size_index(100), 10);
    assert_eq!(font_size_index(0), 0);
    assert_eq!(font_size_index(u32::MAX), 0);
}

#[test]
fn config_defaults_and_sources() {
    let d = AppConfig::default();
    assert_eq!(d.layout.tree_width, 240);
    assert_eq!(d.layout.col_filename_width, 350);
    assert_eq!(d.layout.window_height, 680);
    assert_eq!(d.editor.path, "code.exe");
    assert_eq!(d.editor.args, "-g %FILENAME%:%LINE%:%COL%");
    assert_eq!(d.appearance.font_family, "Meiryo UI");
    assert_eq!(d.appearance.list_font_size, 14);
    assert_eq!(default_window_width(), 1000);
    assert_eq!(default_font_family(), "Meiryo UI");
    assert_eq!(default_list_font_family(), "Cascadia Code");
    assert_eq!(default_editor_path(), "code.exe");
    assert_eq!(default_editor_args(), "-g %FILENAME%:%LINE%:%COL%");
    assert_eq!(ui_font_families().len(), 7);
    assert_eq!(list_font_families()[0], "Cascadia Code");

    let mut store = ConfigStore::new();
    let mut portable = AppConfig::default();
    portable.appearance.theme = 2;
    let c = load_config(&mut store, Some(portable), Some(AppConfig::default()), "A\\JGrep3.toml");
    assert_eq!(c.appearance.theme, 2);
    assert_eq!(store.path.as_deref(), Some("JGrep3.toml"));
    let mut store2 = ConfigStore::new();
    let c2 = load_config(&mut store2, None, None, "A\\JGrep3.toml");
    assert_eq!(c2.appearance.theme, 0);
    assert_eq!(store2.resolve_save_path(true, "x"), "A\\JGrep3.toml");
    assert_eq!(ConfigStore::new().resolve_save_path(true, "x"), "JGrep3.toml");
    assert_eq!(ConfigStore::new().resolve_save_path(false, "x"), "x");
    assert_eq!(portable_config_path(), "JGrep3.toml");
    assert_eq!(history_text(&[], "*.*; !.git/"), "*.*; !.git/");
    assert_eq!(history_text(&[String::from("q")], ""), "q");
}

#[test]
fn settings_choices() {
    assert_eq!(parse_u32("+12"), Some(12));
    assert_eq!(parse_u32("4294967295"), Some(u32::MAX));
    assert_eq!(parse_u32("4294967296"), None);
    assert_eq!(parse_u32("1a"), None);
    assert_eq!(parse_u32("+"), None);
    assert_eq!(selected_font_size(Some("40")), 28);
    assert_eq!(selected_font_size(Some("x")), 16);
    assert_eq!(selected_list_font_size(None), 14);
    assert_eq!(font_request("  ", 3, "Meiryo UI"), (String::from("Meiryo UI"), 10));
    assert_eq!(font_request(" Consolas ", 12, "Meiryo UI"), (String::from("Consolas"), 12));
    let fams = ui_font_families();
    assert_eq!(font_family_index(&fams, "Segoe UI"), 3);
    assert_eq!(font_family_index(&fams, "Nope"), 0);
    assert!(theme_is_dark(2, false));
    assert!(!theme_is_dark(5, true));
    assert!(theme_is_dark(0, true));
    assert_eq!(preferred_app_mode(true), 2);
}

#[test]
fn highlight_ranges_and_segments() {
    let lit = HighlightState { pattern: String::from("a.b"), case_sensitive: false, is_regex: false };
    assert_eq!(find_highlight_ranges("xA.Bya.b axb", &lit), vec![(1, 4), (5, 8)]);
    let re = HighlightState { pattern: String::from("a.b"), case_sensitive: true, is_regex: true };
    assert_eq!(find_highlight_ranges("A.B axb", &re), vec![(4, 7)]);
    let bad = HighlightState { pattern: String::from("("), case_sensitive: true, is_regex: true };
    assert!(find_highlight_ranges("(", &bad).is_empty());
    let empty = HighlightState { pattern: String::new(), case_sensitive: true, is_regex: false };
    assert!(find_highlight_ranges("abc", &empty).is_empty());

    assert_eq!(
        highlight_segments(10, &[(2, 4), (6, 7)]),
        vec![(0, 2, false), (2, 4, true), (4, 6, false), (6, 7, true), (7, 10, false)]
    );
    assert_eq!(highlight_segments(5, &[(4, 9), (0, 5)]), vec![(0, 5, true)]);
    assert_eq!(highlight_segments(0, &[]), vec![(0, 0, false)]);
}

#[test]
fn custom_draw_answers() {
    let s = list_draw_step(0x00030001, 0, 2, true, true);
    assert_eq!(s.result, Some(4));
    assert_eq!(s.paint, ListPaint::HighlightedContent);
    let sel = list_draw_step(0x00030001, 1, 2, true, true);
    assert_eq!(sel.result, Some(0x10));
    assert!(sel.dark_colors);
    assert_eq!(list_draw_step(0x00000002, 0, 0, false, false).paint, ListPaint::GridLines);
    assert_eq!(list_draw_step(0x7, 0, 0, false, false).result, None);
    assert_eq!(list_draw_step(0x1, 0, 0, false, false).result, Some(0x30));
    let h = header_draw_step(0x00010001, 1);
    assert!(h.right_border && h.bottom_border && h.draw_text);
    assert_eq!(h.result, 4);
    let h2 = header_draw_step(0x00010001, 3);
    assert!(!h2.draw_text && h2.fill_background);
    let t = tree_draw_step(0x00010001, 1, true, true);
    let c = t.colors.unwrap();
    assert_eq!((c.back, c.text), (0x008E5B26, 0x00FFFFFF));
    assert!(t.clear_selected);
    assert_eq!(color_msg_action(0x0133, true), Some(ColorMsgAction::Paint { text: 0x00F0F0F0, back: 0x002D2D2D, edit_brush: true }));
    assert_eq!(color_msg_action(0x0001, true), None);
    assert_eq!(column_separators(100, 50, 140), vec![100]);
    assert_eq!(column_separators(100, 30, 140), vec![100, 130]);
    assert_eq!(column_separators(0, 30, 140), Vec::<i32>::new());
    assert_eq!(grid_rows_end(10, 20, 100), 31);
    assert_eq!(grid_rows_end(90, 20, 100), 100);
    assert_eq!(next_progress_phase(358), 0);
    assert_eq!(line_colors(true, false, true), LineColors::Fixed(0x00F0F0F0, 0x003F3F3F));
}

#[test]
fn drive_list_parsing() {
    let buf: Vec<u16> = "C:\\\0D:\\\0\0".encode_utf16().collect();
    assert_eq!(parse_logical_drives(&buf, buf.len() - 1), vec!["C:\\", "D:\\"]);
    assert_eq!(parse_logical_drives(&buf, 0), vec!["C:\\"]);
    let bad: Vec<u16> = vec![0xD800, 0, 69, 58, 0];
    assert_eq!(parse_logical_drives(&bad, 5), vec!["E:"]);
    assert!(!is_visible_dir_name(".git"));
    assert!(!is_visible_dir_name("$Recycle.Bin"));
    assert!(is_visible_dir_name("src"));
    assert!(!is_listed_dir_name("system volume information"));
    assert!(is_listed_dir_name("System"));
    let names = vec![String::from("b"), String::from("A"), String::from("a"), String::from("C")];
    assert_eq!(dir_name_order(&names), vec![1, 2, 0, 3]);
}

fn result(path: &str, line: usize, content: &str) -> SearchResultItem {
    SearchResultItem { file_path: String::from(path), line_number: line, column_number: 1, line_content: String::from(content) }
}

#[test]
fn result_sorting_is_stable() {
    let mut rs = vec![result("b", 2, "x"), result("a", 9, "y"), result("b", 1, "z")];
    sort_results(&mut rs, 0, true);
    let order: Vec<(String, usize)> = rs.iter().map(|r| (r.file_path.clone(), r.line_number)).collect();
    assert_eq!(order, vec![(String::from("a"), 9), (String::from("b"), 2), (String::from("b"), 1)]);
    sort_results(&mut rs, 0, false);
    let order: Vec<(String, usize)> = rs.iter().map(|r| (r.file_path.clone(), r.line_number)).collect();
    assert_eq!(order, vec![(String::from("b"), 2), (String::from("b"), 1), (String::from("a"), 9)]);
    sort_results(&mut rs, 1, true);
    let lines: Vec<usize> = rs.iter().map(|r| r.line_number).collect();
    assert_eq!(lines, vec![1, 2, 9]);
    assert_eq!(next_sort(0, true, 0), (0, false));
    assert_eq!(next_sort(0, false, 2), (2, true));
    assert_eq!(sort_arrow(Some(1), false, 1), Some(false));
    assert_eq!(sort_arrow(Some(1), false, 0), None);
    let keys = vec![
        SortKey { text: "é".chars().collect(), number: 0 },
        SortKey { text: "z".chars().collect(), number: 0 },
        SortKey { text: "".chars().collect(), number: 5 },
    ];
    assert_eq!(stable_order(&keys, true), vec![2, 1, 0]);
}

#[test]
fn following_a_search() {
    let mut list = ResultList::new();
    list.searching = true;
    let o = list.apply_status(SearchStatus::Matches(vec![result("a", 1, "x"), result("b", 2, "y")]));
    assert!(o.status_text.is_none() && !o.finished);
    list.apply_status(SearchStatus::Match(result("c", 3, "z")));
    assert_eq!(list.items.len(), 3);
    let p = list.apply_status(SearchStatus::Progress { scanned_files: 50 });
    assert_eq!(p.status_text.unwrap(), "検索中... (走査済みファイル数: 50)");
    let c = list.apply_status(SearchStatus::Completed { elapsed_ms: 1234, total_scanned: 80, match_count: 3 });
    assert_eq!(c.status_text.unwrap(), "検索完了。3 個のマッチ (走査: 80, 時間: 1.234秒)");
    assert!(c.finished && !list.searching);
    let e = list.apply_status(SearchStatus::Error(String::from("Invalid regex: x")));
    assert_eq!(e.error_message.unwrap(), "Invalid regex: x");
    assert_eq!(e.status_text.unwrap(), "エラーにより検索を中止しました。");
    assert_eq!(completed_status(5, 0, 0), "検索完了。0 個のマッチ (走査: 0, 時間: 0.005秒)");
    assert_eq!(completed_status(60050, 1, 1), "検索完了。1 個のマッチ (走査: 1, 時間: 60.050秒)");
    assert_eq!(progress_status(0), "検索中... (走査済みファイル数: 0)");
    assert_eq!(usize_to_decimal(1200), "1200");
    assert_eq!(u64_to_decimal(u64::MAX), u64::MAX.to_string());
}

#[test]
fn search_request_checks() {
    assert_eq!(check_search_request("  ", true, "q"), Err(SearchRequestError::MissingDirectory));
    assert_eq!(check_search_request("C:\\x", false, "q"), Err(SearchRequestError::DirectoryNotFound));
    assert_eq!(check_search_request("C:\\x", true, " "), Err(SearchRequestError::MissingQuery));
    assert_eq!(check_search_request("C:\\x", true, "q"), Ok(()));
    assert_eq!(SearchRequestError::MissingQuery.message(), "検索文字列を指定してください。");
}

#[test]
fn window_layout() {
    assert!(main_layout(599, 600, 240).is_none());
    let l = main_layout(1000, 680, 240).unwrap();
    assert_eq!((l.list.x, l.list.y, l.list.cx, l.list.cy), (254, 165, 742, 485));
    assert_eq!((l.btn_search.x, l.btn_search.cx), (896, 100));
    assert_eq!((l.cb_regex_disable.x, l.cb_regex_disable.cx), (254 + 494, 237));
    assert_eq!((l.tree.x, l.tree.cx, l.tree.cy), (4, 240, 645));
    let pb = progress_bar_rect(1000, 680);
    assert_eq!((pb.x, pb.y, pb.cx, pb.cy), (700, 659, 280, 16));
    assert_eq!(centered_position(100, 100, 800, 600, 600, 375), (200, 212));
    assert_eq!(centered_position(0, 0, 100, 100, 101, 103), (0, -1));
    assert_eq!(restored_tree_width(50), 120);
    assert_eq!(restored_tree_width(u32::MAX), -1);
}

#[test]
fn column_stretching() {
    // Proportional: 350/60/450 filling 860 pixels.
    let r = stretch_columns(860, (350, 60, 450), (40, 30, 40), None).unwrap();
    assert_eq!(r, (350, 60, 450));
    let r2 = stretch_columns(430, (350, 60, 450), (40, 30, 40), None).unwrap();
    assert_eq!(r2.0 + r2.1 + r2.2, 430);
    assert_eq!(r2, (175, 30, 225));
    // The resized column keeps its width.
    let r3 = stretch_columns(900, (500, 60, 450), (40, 30, 40), Some(0)).unwrap();
    assert_eq!(r3.0, 500);
    assert_eq!(r3.0 + r3.1 + r3.2, 900);
    assert!(stretch_columns(59, (1, 1, 1), (1, 1, 1), None).is_none());
    // Where the minimums do not fit, the widths are still fitted to the list.
    let r4 = stretch_columns(608, (127, 2896, 249), (199, 26, 19), None).unwrap();
    assert_eq!(r4, (199, 408, 1));
    let r5 = stretch_columns(60, (350, 60, 450), (40, 30, 40), None).unwrap();
    assert_eq!(r5, (40, 19, 1));
    assert_eq!(r5.0 + r5.1 + r5.2, 60);
}

#[test]
fn theme_palette_and_names() {
    assert_eq!(background_color(true), 0x00202020);
    assert_eq!(background_color(false), 0x00F0F0F0);
    assert_eq!(edit_color(true), 0x002D2D2D);
    assert_eq!(edit_color(false), 0x00FFFFFF);
    assert_eq!(text_color(true), 0x00F0F0F0);
    assert_eq!(text_color(false), 0x00000000);
    assert_eq!(line_color(true), 0x00A0A0A0);
    assert_eq!(line_color(false), 0x00707070);
    assert_eq!(control_theme_name(true), "DarkMode_Explorer");
    assert_eq!(control_theme_name(false), "Explorer");
    assert_eq!(menu_bottom_line_rect(108, 231, 100, 200, 640), (8, 30, 648, 31));
}

#[test]
fn restored_column_widths_have_a_minimum() {
    assert_eq!(restored_column_width(5), 20);
    assert_eq!(restored_column_width(20), 20);
    assert_eq!(restored_column_width(300), 300);
}

#[test]
fn progress_bar_messages() {
    assert_eq!(progress_step(0x0113, 358), ProgressStep::Advance { phase: 0 });
    assert_eq!(progress_step(0x0113, 10), ProgressStep::Advance { phase: 12 });
    assert_eq!(progress_answer(progress_step(0x0113, 10)), Some(0));
    assert_eq!(progress_answer(progress_step(0x0014, 10)), Some(1));
    assert_eq!(progress_answer(progress_step(0x000F, 10)), Some(0));
    assert_eq!(progress_step(0x0200, 10), ProgressStep::Default);
    assert_eq!(progress_answer(ProgressStep::Default), None);
}
