use egscribe::ctx::Ctx;
use egscribe::cursor::Cursor;
use egscribe::edit_enter::{enter_auto_pak_ctrl, prefix_for};
use egscribe::pgh::PghType;

fn at(line_no: usize, segment: usize, culumn: usize) -> Cursor {
    Cursor { line_no, segment, culumn }
}

fn lines(ctx: &Ctx) -> Vec<String> {
    (0..ctx.line_num()).map(|i| ctx.get_line_text(i)).collect()
}

fn put_cursor(ctx: &mut Ctx, c: Cursor) {
    ctx.set_cursor2(c);
    ctx.set_cursor1_reset();
}

#[test]
fn new_session_splits_plain_text_into_lines() {
    let ctx = Ctx::new("a\nb\n\nc", false, None);
    assert_eq!(lines(&ctx), vec!["a", "b", "", "c"]);
    assert_eq!(ctx.cursor1(), at(0, 0, 0));
    assert_eq!(ctx.cursor2(), at(0, 0, 0));
    assert!(!ctx.is_content_changed());
}

#[test]
fn new_session_of_empty_text_has_one_empty_paragraph() {
    let ctx = Ctx::new("", false, None);
    assert_eq!(lines(&ctx), vec![""]);
    assert_eq!(ctx.pgh_views[0].pgh.len(), 1);
    let ctx = Ctx::new("", true, None);
    assert_eq!(lines(&ctx), vec![""]);
}

#[test]
fn insert_puts_text_at_the_cursor() {
    let mut ctx = Ctx::new("hello\nworld", false, None);
    put_cursor(&mut ctx, at(0, 0, 5));
    ctx.insert(" there".to_string());
    assert_eq!(lines(&ctx), vec!["hello there", "world"]);
    assert_eq!(ctx.cursor2(), at(0, 0, 11));
    assert_eq!(ctx.cursor1(), at(0, 0, 11));
    assert!(ctx.is_content_changed());
}

#[test]
fn insert_with_line_feeds_makes_new_paragraphs() {
    let mut ctx = Ctx::new("hello", false, None);
    put_cursor(&mut ctx, at(0, 0, 2));
    ctx.insert("a\nb\nc".to_string());
    assert_eq!(lines(&ctx), vec!["hea", "b", "cllo"]);
    assert_eq!(ctx.cursor2(), at(2, 0, 1));
}

#[test]
fn insert_replaces_the_selection() {
    let mut ctx = Ctx::new("hello world", false, None);
    ctx.set_cursor1(at(0, 0, 6));
    ctx.set_cursor2(at(0, 0, 11));
    ctx.insert("there".to_string());
    assert_eq!(lines(&ctx), vec!["hello there"]);
    assert_eq!(ctx.cursor2(), at(0, 0, 11));
}

#[test]
fn undo_after_insert_restores_document_and_cursor() {
    let mut ctx = Ctx::new("hello\nworld", false, None);
    put_cursor(&mut ctx, at(1, 0, 2));
    let before = lines(&ctx);
    ctx.insert("x\ny\nz".to_string());
    assert_eq!(lines(&ctx), vec!["hello", "wox", "y", "zrld"]);
    ctx.undo();
    assert_eq!(lines(&ctx), before);
    assert_eq!(ctx.cursor2(), at(1, 0, 2));
    assert_eq!(ctx.cursor1(), at(1, 0, 2));
    ctx.redo();
    assert_eq!(lines(&ctx), vec!["hello", "wox", "y", "zrld"]);
    assert_eq!(ctx.cursor2(), at(3, 0, 1));
}

#[test]
fn undo_after_insert_over_a_selection_restores_the_document() {
    let mut ctx = Ctx::new("abc\ndef\nghi", false, None);
    ctx.set_cursor1(at(0, 0, 1));
    ctx.set_cursor2(at(2, 0, 2));
    ctx.insert("X".to_string());
    assert_eq!(lines(&ctx), vec!["aXi"]);
    ctx.undo();
    assert_eq!(lines(&ctx), vec!["abc", "def", "ghi"]);
    assert_eq!(ctx.cursor2(), at(2, 0, 2));
}

#[test]
fn delete_across_lines_joins_the_two_ends() {
    let mut ctx = Ctx::new("abc\ndef\nghi", false, None);
    ctx.set_cursor1(at(0, 0, 1));
    ctx.set_cursor2(at(2, 0, 2));
    ctx.delete();
    assert_eq!(lines(&ctx), vec!["ai"]);
    assert_eq!(ctx.cursor1(), at(0, 0, 1));
    assert_eq!(ctx.cursor2(), at(0, 0, 1));
}

#[test]
fn delete_with_the_cursors_the_other_way_round_is_the_same() {
    let mut ctx = Ctx::new("abc\ndef\nghi", false, None);
    ctx.set_cursor1(at(2, 0, 2));
    ctx.set_cursor2(at(0, 0, 1));
    ctx.delete();
    assert_eq!(lines(&ctx), vec!["ai"]);
    assert_eq!(ctx.cursor2(), at(0, 0, 1));
}

#[test]
fn undo_after_delete_restores_document_and_cursor() {
    let mut ctx = Ctx::new("abc\ndef\nghi\njkl", false, None);
    ctx.set_cursor1(at(0, 0, 1));
    ctx.set_cursor2(at(2, 0, 2));
    ctx.delete();
    assert_eq!(lines(&ctx), vec!["ai", "jkl"]);
    ctx.undo();
    assert_eq!(lines(&ctx), vec!["abc", "def", "ghi", "jkl"]);
    assert_eq!(ctx.cursor2(), at(2, 0, 2));
    ctx.redo();
    assert_eq!(lines(&ctx), vec!["ai", "jkl"]);
}

#[test]
fn delete_without_selection_changes_nothing() {
    let mut ctx = Ctx::new("abc", false, None);
    put_cursor(&mut ctx, at(0, 0, 1));
    ctx.delete();
    assert_eq!(lines(&ctx), vec!["abc"]);
    assert_eq!(ctx.cursor2(), at(0, 0, 1));
}

#[test]
fn delete_inside_one_line() {
    let mut ctx = Ctx::new("hello world", false, None);
    ctx.set_cursor1(at(0, 0, 5));
    ctx.set_cursor2(at(0, 0, 11));
    ctx.delete();
    assert_eq!(lines(&ctx), vec!["hello"]);
}

#[test]
fn deleting_all_of_a_single_paragraph_leaves_one_empty_paragraph() {
    let mut ctx = Ctx::new("only line", false, None);
    ctx.set_cursors_select_all();
    ctx.delete();
    assert_eq!(ctx.line_num(), 1);
    assert_eq!(ctx.get_line_text(0), "");
    assert_eq!(ctx.pgh_views[0].pgh_type, PghType::Text);
    assert_eq!(ctx.pgh_views[0].pgh.len(), 1);
    ctx.undo();
    assert_eq!(lines(&ctx), vec!["only line"]);
}

#[test]
fn deleting_all_of_several_paragraphs_leaves_one_empty_paragraph() {
    let mut ctx = Ctx::new("a\nb\nc", false, None);
    ctx.set_cursors_select_all();
    ctx.delete();
    assert_eq!(lines(&ctx), vec![""]);
    ctx.undo();
    assert_eq!(lines(&ctx), vec!["a", "b", "c"]);
}

#[test]
fn deleting_whole_lines_in_the_middle_keeps_the_rest() {
    let mut ctx = Ctx::new("a\nb\nc\nd", false, None);
    ctx.set_cursor1(at(1, 0, 0));
    ctx.set_cursor2(at(2, 0, 1));
    ctx.delete();
    assert_eq!(lines(&ctx), vec!["a", "", "d"]);
}

#[test]
fn a_new_edit_after_undo_leaves_nothing_to_redo() {
    let mut ctx = Ctx::new("x", false, None);
    put_cursor(&mut ctx, at(0, 0, 1));
    ctx.insert("a".to_string());
    ctx.insert("b".to_string());
    assert_eq!(lines(&ctx), vec!["xab"]);
    ctx.undo();
    ctx.undo();
    assert_eq!(lines(&ctx), vec!["x"]);
    put_cursor(&mut ctx, at(0, 0, 1));
    ctx.insert("c".to_string());
    assert_eq!(lines(&ctx), vec!["xc"]);
    assert_eq!(ctx.do_mngr.index, 1);
    assert_eq!(ctx.do_mngr.do_list.len(), 1);
    let cursor = ctx.cursor2();
    ctx.redo();
    assert_eq!(lines(&ctx), vec!["xc"]);
    assert_eq!(ctx.cursor2(), cursor);
    assert_eq!(ctx.do_mngr.index, 1);
}

#[test]
fn undo_on_an_empty_history_changes_nothing() {
    let mut ctx = Ctx::new("abc", false, None);
    put_cursor(&mut ctx, at(0, 0, 2));
    ctx.undo();
    assert_eq!(lines(&ctx), vec!["abc"]);
    assert_eq!(ctx.cursor2(), at(0, 0, 2));
    assert!(!ctx.is_content_changed());
    ctx.redo();
    assert_eq!(lines(&ctx), vec!["abc"]);
}

#[test]
fn undo_and_redo_walk_the_history() {
    let mut ctx = Ctx::new("", false, None);
    for s in ["a", "b", "c"] {
        ctx.insert(s.to_string());
    }
    assert_eq!(lines(&ctx), vec!["abc"]);
    ctx.undo();
    assert_eq!(lines(&ctx), vec!["ab"]);
    ctx.undo();
    assert_eq!(lines(&ctx), vec!["a"]);
    ctx.redo();
    assert_eq!(lines(&ctx), vec!["ab"]);
    ctx.redo();
    assert_eq!(lines(&ctx), vec!["abc"]);
    ctx.redo();
    assert_eq!(lines(&ctx), vec!["abc"]);
}

#[test]
fn enter_breaks_the_line_at_the_cursor() {
    let mut ctx = Ctx::new("hello world", false, None);
    put_cursor(&mut ctx, at(0, 0, 5));
    ctx.enter(false);
    assert_eq!(lines(&ctx), vec!["hello", " world"]);
    assert_eq!(ctx.cursor2(), at(1, 0, 0));
    ctx.undo();
    assert_eq!(lines(&ctx), vec!["hello world"]);
    assert_eq!(ctx.cursor2(), at(0, 0, 5));
}

#[test]
fn enter_continues_a_list_item() {
    let mut ctx = Ctx::new("- item", false, None);
    put_cursor(&mut ctx, at(0, 0, 6));
    ctx.enter(false);
    assert_eq!(lines(&ctx), vec!["- item", "- "]);
    assert_eq!(ctx.cursor2(), at(1, 0, 2));
}

#[test]
fn enter_after_a_check_box_starts_an_empty_check_box() {
    let mut ctx = Ctx::new("- [x] done", false, None);
    put_cursor(&mut ctx, at(0, 0, 10));
    ctx.enter(false);
    assert_eq!(lines(&ctx), vec!["- [x] done", "- [ ] "]);
    assert_eq!(ctx.cursor2(), at(1, 0, 6));
}

#[test]
fn enter_with_ctrl_opens_an_empty_line_below() {
    let mut ctx = Ctx::new("ab\ncd", false, None);
    put_cursor(&mut ctx, at(0, 0, 1));
    ctx.enter(true);
    assert_eq!(lines(&ctx), vec!["ab", "", "cd"]);
    assert_eq!(ctx.cursor2(), at(1, 0, 0));
    ctx.undo();
    assert_eq!(lines(&ctx), vec!["ab", "cd"]);
    assert_eq!(ctx.cursor2(), at(0, 0, 1));
}

#[test]
fn prefix_of_a_new_line() {
    assert_eq!(enter_auto_pak_ctrl("- [ ] task"), "- [ ] ");
    assert_eq!(enter_auto_pak_ctrl("- [x] task"), "- [ ] ");
    assert_eq!(enter_auto_pak_ctrl("-  \t[anything] x"), "- [ ] ");
    assert_eq!(enter_auto_pak_ctrl("- item"), "- ");
    assert_eq!(enter_auto_pak_ctrl("* item"), "* ");
    assert_eq!(enter_auto_pak_ctrl("> > quote"), "> > ");
    assert_eq!(enter_auto_pak_ctrl("-item"), "");
    assert_eq!(enter_auto_pak_ctrl("plain"), "");
    assert_eq!(enter_auto_pak_ctrl(""), "");
    assert_eq!(prefix_for("anything", true), "- [ ] ");
    assert_eq!(prefix_for("- [ab", false), "- [");
}

#[test]
fn update_line_text_replaces_a_line_and_can_be_undone() {
    let mut ctx = Ctx::new("a\nb", false, None);
    ctx.update_line_text(1, "new".to_string());
    assert_eq!(lines(&ctx), vec!["a", "new"]);
    ctx.undo();
    assert_eq!(lines(&ctx), vec!["a", "b"]);
    ctx.update_line_text(7, "nothing".to_string());
    assert_eq!(lines(&ctx), vec!["a", "b"]);
}

#[test]
fn change_counter_counts_edits_and_is_cleared() {
    let mut ctx = Ctx::new("a", false, None);
    assert!(!ctx.is_content_changed());
    ctx.insert("b".to_string());
    assert_eq!(ctx.state.content_change_tick, 1);
    ctx.undo();
    assert_eq!(ctx.state.content_change_tick, 2);
    ctx.clean_change_tick();
    assert!(!ctx.is_content_changed());
}

#[test]
fn saved_text_of_plain_lines_and_of_markdown() {
    let ctx = Ctx::new("a\nb\n\nc", false, None);
    assert_eq!(ctx.get_all_text(), "a\nb\n\nc");
    let ctx = Ctx::new("one\n\ntwo\n\n```rust\nfn a() {}\nlet x;\n```\n", true, None);
    assert_eq!(ctx.get_all_text(), "one\n\ntwo\n\n```rust\nfn a() {}\nlet x;\n```\n");
}

#[test]
fn selected_text_over_lines_is_joined_by_line_feeds() {
    let mut ctx = Ctx::new("abc\ndef\nghi", false, None);
    ctx.set_cursor1(at(0, 0, 1));
    ctx.set_cursor2(at(2, 0, 2));
    assert_eq!(ctx.get_selected_text(), "bc\ndef\ngh");
    assert_eq!(ctx.get_selected_raw_text(true), "bc\ndef\ngh");
}

#[test]
fn lines_with_bars_become_a_table() {
    let mut ctx = Ctx::new("|a|b|\n|--|--|\n", false, None);
    assert_eq!(ctx.line_num(), 3);
    put_cursor(&mut ctx, at(2, 0, 0));
    ctx.insert("|1|2|".to_string());
    assert_eq!(ctx.line_num(), 1);
    assert_eq!(ctx.pgh_views[0].pgh_type, PghType::Table);
    let info = ctx.pgh_views[0].table_info.unwrap();
    assert_eq!((info.row_count, info.col_count), (2, 2));
    assert_eq!(ctx.pgh_views[0].text_to_vec(), vec!["a", "b", "1", "2"]);
    assert_eq!(ctx.cursor2(), at(0, 0, 0));
    ctx.undo();
    assert_eq!(lines(&ctx), vec!["|a|b|", "|--|--|", "|1|2|"]);
    ctx.undo();
    assert_eq!(lines(&ctx), vec!["|a|b|", "|--|--|", ""]);
    assert_eq!(ctx.cursor2(), at(2, 0, 0));
}

#[test]
fn code_paragraph_takes_lines_as_segments() {
    let mut ctx = Ctx::new("```rust\nfn a() {}\nlet x;\n```\n", true, None);
    assert_eq!(ctx.line_num(), 1);
    assert_eq!(ctx.pgh_views[0].pgh_type, PghType::Code);
    assert_eq!(ctx.pgh_views[0].code_lang.as_deref(), Some("rust"));
    assert_eq!(ctx.pgh_views[0].text_to_vec(), vec!["fn a() {}", "let x;"]);
    put_cursor(&mut ctx, at(0, 0, 2));
    ctx.enter(false);
    assert_eq!(ctx.pgh_views[0].text_to_vec(), vec!["fn", " a() {}", "let x;"]);
    assert_eq!(ctx.cursor2(), at(0, 1, 0));
    ctx.insert("pub\nmod".to_string());
    assert_eq!(ctx.pgh_views[0].text_to_vec(), vec!["fn", "pub", "mod a() {}", "let x;"]);
    assert_eq!(ctx.cursor2(), at(0, 2, 3));
    ctx.undo();
    ctx.undo();
    assert_eq!(ctx.pgh_views[0].text_to_vec(), vec!["fn a() {}", "let x;"]);
}

#[test]
fn deleting_inside_code_joins_the_lines_touched() {
    let mut ctx = Ctx::new("```\nabc\n\ndef\nghi\n```\n", true, None);
    assert_eq!(ctx.pgh_views[0].text_to_vec(), vec!["abc", "", "def", "ghi"]);
    ctx.set_cursor1(at(0, 0, 1));
    ctx.set_cursor2(at(0, 2, 2));
    ctx.delete();
    assert_eq!(ctx.pgh_views[0].text_to_vec(), vec!["af", "ghi"]);
    ctx.undo();
    assert_eq!(ctx.pgh_views[0].text_to_vec(), vec!["abc", "", "def", "ghi"]);
}

#[test]
fn delete_func_without_selection_gives_commands_without_steps() {
    let mut ctx = Ctx::new("abc\ndef", false, None);
    put_cursor(&mut ctx, at(1, 0, 2));
    let (undo, redo) = ctx.delete_func();
    assert!(undo.items.is_empty());
    assert!(redo.items.is_empty());
    assert_eq!(lines(&ctx), vec!["abc", "def"]);
    assert_eq!(ctx.cursor1(), at(1, 0, 2));
    assert_eq!(ctx.cursor2(), at(1, 0, 2));
    ctx.set_cursor1(at(0, 0, 1));
    let (undo, redo) = ctx.delete_func();
    assert!(!undo.items.is_empty());
    assert!(!redo.items.is_empty());
}

#[test]
fn redo_after_a_table_was_made_puts_the_cursor_at_its_start() {
    let mut ctx = Ctx::new("x\n|a|b|\n|--|--|\n", false, None);
    put_cursor(&mut ctx, at(3, 0, 0));
    ctx.insert("|1|2|".to_string());
    assert_eq!(ctx.line_num(), 2);
    assert_eq!(ctx.cursor2(), at(1, 0, 0));
    ctx.undo();
    ctx.undo();
    assert_eq!(lines(&ctx), vec!["x", "|a|b|", "|--|--|", ""]);
    ctx.redo();
    assert_eq!(lines(&ctx), vec!["x", "|a|b|", "|--|--|", "|1|2|"]);
    assert_eq!(ctx.cursor2(), at(3, 0, 5));
    ctx.redo();
    assert_eq!(ctx.line_num(), 2);
    assert_eq!(ctx.pgh_views[1].pgh_type, PghType::Table);
    assert_eq!(ctx.cursor1(), at(1, 0, 0));
    assert_eq!(ctx.cursor2(), at(1, 0, 0));
}
