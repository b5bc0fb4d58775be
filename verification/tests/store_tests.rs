use egscribe::cmd::Command;
use egscribe::ctx::Ctx;
use egscribe::icon::{ImageInfo, LinkInfo};
use egscribe::mem::{
    goto_line, image_markdown, link_text, open_kind, parse_number, replace_text, trim_text,
    with_link_added, with_link_removed, with_link_renamed, OpenKind,
};

#[test]
fn how_a_name_is_opened() {
    assert!(matches!(open_kind(""), OpenKind::Nothing));
    assert!(matches!(open_kind("."), OpenKind::Nothing));
    assert!(matches!(open_kind("diary"), OpenKind::Note));
    match open_kind("C:\\dir\\file.txt") {
        OpenKind::File(p) => assert_eq!(p, "C:/dir/file.txt"),
        _ => panic!("a file"),
    }
    match open_kind("a/b") {
        OpenKind::File(p) => assert_eq!(p, "a/b"),
        _ => panic!("a file"),
    }
}

#[test]
fn numbers_are_read_from_decimal_digits() {
    assert_eq!(parse_number("0"), Some(0));
    assert_eq!(parse_number("042"), Some(42));
    assert_eq!(parse_number("+7"), Some(7));
    assert_eq!(parse_number(""), None);
    assert_eq!(parse_number("+"), None);
    assert_eq!(parse_number("-1"), None);
    assert_eq!(parse_number("12a"), None);
    assert_eq!(parse_number(&usize::MAX.to_string()), Some(usize::MAX));
    assert_eq!(parse_number(&format!("{}0", usize::MAX)), None);
    assert_eq!(parse_number("99999999999999999999999999"), None);
}

#[test]
fn a_request_for_a_line_starts_with_its_number() {
    assert_eq!(goto_line("12 some text"), Some(11));
    assert_eq!(goto_line("  3\n"), Some(2));
    assert_eq!(goto_line("1"), Some(0));
    assert_eq!(goto_line("0 zero"), None);
    assert_eq!(goto_line("x 3"), None);
    assert_eq!(goto_line(""), None);
    assert_eq!(trim_text(" \t a b \n"), "a b");
    assert_eq!(trim_text("   "), "");
}

#[test]
fn text_is_replaced_from_left_to_right() {
    assert_eq!(replace_text("aaaa", "aa", "b"), "bb");
    assert_eq!(replace_text("aaa", "aa", "b"), "ba");
    assert_eq!(replace_text("x-y-z", "-", "--"), "x--y--z");
    assert_eq!(replace_text("abc", "", "x"), "abc");
    assert_eq!(replace_text("abc", "abcd", "x"), "abc");
    assert_eq!(replace_text("a\r\nb\r\n", "\r\n", "\n"), "a\nb\n");
    assert_eq!(replace_text("\u{4e2d}a\u{4e2d}", "\u{4e2d}", "b"), "bab");
}

#[test]
fn links_in_the_text_of_a_note() {
    assert_eq!(link_text("n"), "[[n]]");
    assert_eq!(with_link_added("text", "new"), "text\n\n[[new]]");
    assert_eq!(with_link_renamed("a [[old]] b [[old]] [[other]]", "old", "new"), "a [[new]] b [[new]] [[other]]");
    assert_eq!(with_link_removed("a\n[[gone]]\n[[stay]] [[gone]]", "gone"), "a\n[[stay]] ");
    assert_eq!(image_markdown("notitle", "image_1.png"), "![notitle](image_1.png)");
}

#[test]
fn lines_with_carriage_returns_are_read_as_lines() {
    let ctx = Ctx::new("a\r\nb\r\n", false, None);
    assert_eq!(ctx.line_num(), 3);
    assert_eq!(ctx.get_line_text(0), "a");
    assert_eq!(ctx.get_line_text(1), "b");
    assert_eq!(ctx.get_line_text(2), "");
}

#[test]
fn a_clicked_link_asks_for_a_command() {
    let mut ctx = Ctx::new("", false, None);
    ctx.insert_link_click_command(LinkInfo::File("note".to_string()));
    ctx.insert_link_click_command(LinkInfo::Image(ImageInfo { alt: "a".to_string(), url: "u".to_string() }));
    ctx.insert_link_click_command(LinkInfo::Link("http://x".to_string()));
    assert!(matches!(ctx.pop_cmd(), Some(Command::OpenFile(f)) if f == "note"));
    assert!(matches!(ctx.pop_cmd(), Some(Command::OpenUrl(u)) if u == "http://x"));
    assert!(ctx.pop_cmd().is_none());
}

#[test]
fn what_is_laid_out_and_highlighted() {
    let text: Vec<String> = (0..100).map(|i| format!("line {}", i)).collect();
    let mut ctx = Ctx::new(&text.join("\n"), false, None);
    assert_eq!(ctx.patch_end(), 80);
    assert_eq!(ctx.current_range_clone().len(), 80);
    ctx.set_top_line(30);
    ctx.set_top_line(100);
    assert_eq!(ctx.top_line(), 30);
    assert_eq!(ctx.patch_end(), 100);
    let range = ctx.current_range_clone();
    assert_eq!(range.len(), 70);
    assert_eq!(range[0].0, 30);
    assert_eq!(range[0].1.get_text(), "line 30");
    let (top, source) = ctx.highlight_range_text();
    assert_eq!(top, 10);
    assert_eq!(source, text[10..100].join("\n"));
    ctx.set_bottom_line(20);
    assert_eq!(ctx.bottom_line(), 0);
    ctx.set_bottom_line(60);
    assert_eq!(ctx.bottom_line(), 60);
}

#[test]
fn lines_are_changed_directly() {
    let mut ctx = Ctx::new("abc\ndef", false, None);
    ctx.update_segment_text(1, 0, "xyz".to_string());
    ctx.update_segment_text(5, 0, "no".to_string());
    assert_eq!(ctx.get_line_text(1), "xyz");
    ctx.update_all_text(0, "all".to_string());
    assert_eq!(ctx.get_line_text(0), "all");
    ctx.truncate_segment(0, 0);
    assert_eq!(ctx.pgh_views[0].pgh.len(), 0);
    assert!(ctx.get_line(1).is_some());
    assert!(ctx.get_line(2).is_none());
    assert_eq!(ctx.get_line_clone(1).map(|p| p.get_text()), Some("xyz".to_string()));
}

#[test]
fn the_text_cursor_is_shown_and_hidden_in_turn() {
    let mut ctx = Ctx::new("", false, None);
    assert!(ctx.check_switch_cursor_show(100));
    assert!(ctx.check_switch_cursor_show(499));
    assert!(!ctx.check_switch_cursor_show(500));
    assert!(!ctx.check_switch_cursor_show(999));
    assert!(ctx.check_switch_cursor_show(1000));
    assert!(ctx.check_switch_cursor_show(50));
    let state = ctx.clone_state();
    ctx.mark_pointer_gone(true);
    ctx.mark_state_change(state);
    assert!(ctx.is_state_changed());
    assert!(ctx.check_switch_cursor_show(60));
}

#[test]
fn lines_count_their_changes() {
    let mut ctx = Ctx::new("a\nb", false, None);
    assert!(ctx.line_change_reset(0));
    assert!(!ctx.line_change_reset(0));
    assert!(ctx.line_change_reset(9));
    ctx.line_change_tick(0);
    assert!(ctx.line_change_reset(0));
    ctx.line_change_flash();
    assert_eq!(ctx.pgh_views[0].change_tick, 1);
    assert_eq!(ctx.pgh_views[1].change_tick, 2);
    ctx.mark_selecting(true);
    assert!(ctx.is_selecting());
    ctx.mark_selecting(false);
    assert_eq!(ctx.pgh_views[0].change_tick, 2);
    ctx.update_view_mode(false);
    assert_eq!(ctx.pgh_views[0].change_tick, 3);
    ctx.update_view_mode(false);
    assert_eq!(ctx.pgh_views[0].change_tick, 3);
}
