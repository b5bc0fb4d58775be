use egscribe::ctx::Ctx;
use egscribe::cursor::Cursor;
use egscribe::md::check_to_table_pghview;
use egscribe::pgh::{PghType, PghView, TableCell};

fn at(line_no: usize, segment: usize, culumn: usize) -> Cursor {
    Cursor { line_no, segment, culumn }
}

fn table(text: &str) -> PghView {
    check_to_table_pghview(text).expect("a table")
}

fn shape(p: &PghView) -> (usize, usize) {
    let t = p.table_info.unwrap();
    (t.row_count, t.col_count)
}

const TWO_BY_TWO: &str = "|a|b|\n|--|--|\n|c|d|\n";

#[test]
fn a_text_that_reads_as_a_table_gives_a_table() {
    let t = table(TWO_BY_TWO);
    assert_eq!(t.pgh_type, PghType::Table);
    assert_eq!(shape(&t), (2, 2));
    assert_eq!(t.text_to_vec(), vec!["a", "b", "c", "d"]);
    assert!(check_to_table_pghview("a|b").is_none());
    assert!(check_to_table_pghview("| not a table").is_none());
    assert!(check_to_table_pghview("").is_none());
}

#[test]
fn cells_and_segments() {
    let t = table("|a|b|c|\n|--|--|--|\n|d|e|f|\n");
    assert_eq!(shape(&t), (2, 3));
    assert_eq!(t.table_segment_to_cell(4), Some(TableCell { row: 1, col: 1, segment: 4 }));
    assert_eq!(t.table_cell_to_segment(&TableCell { row: 1, col: 2, segment: 0 }), 5);
    assert_eq!(
        t.table_range_to_cells(2, 3),
        Some((TableCell { row: 0, col: 0, segment: 0 }, TableCell { row: 1, col: 2, segment: 5 }))
    );
    assert!(t.is_segment_in_table_select(1, 0, 4));
    assert!(!t.is_segment_in_table_select(2, 0, 4));
    let plain = PghView::from_text("x".to_string());
    assert_eq!(plain.table_segment_to_cell(4), None);
    assert_eq!(plain.table_range_to_cells(0, 1), None);
}

#[test]
fn insert_and_delete_rows_and_columns() {
    let mut t = table(TWO_BY_TWO);
    assert_eq!(t.table_insert_row(1), 2);
    assert_eq!(shape(&t), (3, 2));
    assert_eq!(t.text_to_vec(), vec!["a", "b", "", "", "c", "d"]);
    assert!(t.table_is_empty_row(1));
    assert!(!t.table_is_empty_row(0));
    assert_eq!(t.table_insert_col(1), 3);
    assert_eq!(shape(&t), (3, 3));
    assert_eq!(t.text_to_vec(), vec!["a", "", "b", "", "", "", "c", "", "d"]);
    assert!(t.table_is_empty_col(1));
    assert!(!t.table_is_empty_col(2));
    t.table_delete_col(1);
    assert_eq!(t.text_to_vec(), vec!["a", "b", "", "", "c", "d"]);
    t.table_delete_row(1);
    assert_eq!(shape(&t), (2, 2));
    assert_eq!(t.text_to_vec(), vec!["a", "b", "c", "d"]);
}

#[test]
fn empty_rows_and_columns_go_only_with_a_full_selection() {
    let mut t = table(TWO_BY_TWO);
    t.table_insert_row(1);
    t.table_delete_empty_in_range(2, 2);
    assert_eq!(shape(&t), (3, 2));
    t.table_delete_empty_in_range(2, 3);
    assert_eq!(shape(&t), (2, 2));
    assert_eq!(t.text_to_vec(), vec!["a", "b", "c", "d"]);
    t.table_insert_col(2);
    t.table_delete_empty_in_range(2, 5);
    assert_eq!(shape(&t), (2, 2));
}

#[test]
fn the_last_row_and_column_stay() {
    let mut t = table("|a|\n|--|\n");
    assert_eq!(shape(&t), (1, 1));
    t.update_segment_text(0, String::new());
    t.table_delete_empty_in_range(0, 0);
    assert_eq!(shape(&t), (1, 1));
    assert_eq!(t.pgh.len(), 1);
}

#[test]
fn merge_writes_over_cells_and_grows_the_table() {
    let mut t = table(TWO_BY_TWO);
    let other = table("|1|2|\n|--|--|\n|3|4|\n");
    assert_eq!(t.table_merge(3, &other), 4);
    assert_eq!(shape(&t), (3, 3));
    assert_eq!(t.text_to_vec(), vec!["a", "b", "", "c", "1", "2", "", "3", "4"]);
    let mut t = table(TWO_BY_TWO);
    assert_eq!(t.table_merge(0, &other), 0);
    assert_eq!(shape(&t), (2, 2));
    assert_eq!(t.text_to_vec(), vec!["1", "2", "3", "4"]);
}

#[test]
fn a_selection_inside_a_table_deletes_only_cell_text() {
    let mut ctx = Ctx::new(TWO_BY_TWO, true, None);
    assert_eq!(ctx.line_num(), 1);
    ctx.set_cursor1(at(0, 0, 0));
    ctx.set_cursor2(at(0, 0, 1));
    ctx.delete();
    assert_eq!(ctx.pgh_views[0].text_to_vec(), vec!["", "b", "c", "d"]);
    assert_eq!(shape(&ctx.pgh_views[0]), (2, 2));
    ctx.undo();
    assert_eq!(ctx.pgh_views[0].text_to_vec(), vec!["a", "b", "c", "d"]);
}

#[test]
fn a_selection_of_cells_deletes_the_rectangle_and_leaves_the_rest() {
    let mut ctx = Ctx::new("|a|b|c|\n|--|--|--|\n|d|e|f|\n|g|h|i|\n", true, None);
    ctx.set_cursor1(at(0, 1, 0));
    ctx.set_cursor2(at(0, 4, 1));
    ctx.delete();
    assert_eq!(ctx.pgh_views[0].text_to_vec(), vec!["a", "", "c", "d", "", "f", "g", "h", "i"]);
    assert_eq!(shape(&ctx.pgh_views[0]), (3, 3));
}

#[test]
fn a_selection_of_whole_columns_removes_the_columns_it_emptied() {
    let mut ctx = Ctx::new("|a|b|c|\n|--|--|--|\n|d|e|f|\n", true, None);
    ctx.set_cursor1(at(0, 1, 0));
    ctx.set_cursor2(at(0, 5, 1));
    let (undo, _) = {
        let mut copy = Ctx::new("|a|b|c|\n|--|--|--|\n|d|e|f|\n", true, None);
        copy.set_cursor1(at(0, 1, 0));
        copy.set_cursor2(at(0, 5, 1));
        let cmds = copy.delete_func();
        assert_eq!(copy.pgh_views[0].text_to_vec(), vec!["a", "", "", "d", "", ""]);
        cmds
    };
    assert_eq!(undo.cursor, at(0, 5, 1));
    ctx.delete();
    assert_eq!(ctx.pgh_views[0].text_to_vec(), vec!["a", "d"]);
    assert_eq!(shape(&ctx.pgh_views[0]), (2, 1));
    ctx.undo();
    assert_eq!(ctx.pgh_views[0].text_to_vec(), vec!["a", "b", "c", "d", "e", "f"]);
    assert_eq!(shape(&ctx.pgh_views[0]), (2, 3));
}

#[test]
fn a_selection_of_a_whole_row_removes_the_row() {
    let mut ctx = Ctx::new("|a|b|\n|--|--|\n|c|d|\n|e|f|\n", true, None);
    ctx.set_cursor1(at(0, 2, 0));
    ctx.set_cursor2(at(0, 3, 1));
    ctx.delete();
    assert_eq!(shape(&ctx.pgh_views[0]), (2, 2));
    assert_eq!(ctx.pgh_views[0].text_to_vec(), vec!["a", "b", "e", "f"]);
    ctx.undo();
    assert_eq!(shape(&ctx.pgh_views[0]), (3, 2));
    assert_eq!(ctx.pgh_views[0].text_to_vec(), vec!["a", "b", "c", "d", "e", "f"]);
}

#[test]
fn a_selection_that_runs_into_a_table_deletes_by_rows() {
    let mut ctx = Ctx::new("intro\n\n|a|b|\n|--|--|\n|c|d|\n", true, None);
    assert_eq!(ctx.line_num(), 2);
    assert_eq!(ctx.get_line_text(0), "intro");
    ctx.set_cursor1(at(0, 0, 2));
    ctx.set_cursor2(at(1, 1, 1));
    ctx.delete();
    assert_eq!(ctx.line_num(), 2);
    assert_eq!(ctx.get_line_text(0), "in");
    assert_eq!(ctx.pgh_views[1].text_to_vec(), vec!["", "", "c", "d"]);
    assert_eq!(shape(&ctx.pgh_views[1]), (2, 2));
}

#[test]
fn enter_in_a_table_adds_a_row_below() {
    let mut ctx = Ctx::new(TWO_BY_TWO, true, None);
    ctx.set_cursor2(at(0, 1, 0));
    ctx.set_cursor1_reset();
    ctx.enter(false);
    assert_eq!(shape(&ctx.pgh_views[0]), (3, 2));
    assert_eq!(ctx.pgh_views[0].text_to_vec(), vec!["a", "b", "", "", "c", "d"]);
    assert_eq!(ctx.cursor2(), at(0, 3, 0));
}

#[test]
fn insert_in_a_table_goes_into_the_cell() {
    let mut ctx = Ctx::new(TWO_BY_TWO, true, None);
    ctx.set_cursor2(at(0, 2, 1));
    ctx.set_cursor1_reset();
    ctx.insert("xy".to_string());
    assert_eq!(ctx.pgh_views[0].text_to_vec(), vec!["a", "b", "cxy", "d"]);
    assert_eq!(ctx.cursor2(), at(0, 2, 3));
    ctx.insert("|1|2|\n|--|--|\n|3|4|\n".to_string());
    assert_eq!(shape(&ctx.pgh_views[0]), (3, 2));
    assert_eq!(ctx.pgh_views[0].text_to_vec(), vec!["a", "b", "1", "2", "3", "4"]);
}

#[test]
fn a_table_is_copied_as_markdown() {
    let mut ctx = Ctx::new(TWO_BY_TWO, true, None);
    ctx.set_cursor1(at(0, 0, 0));
    ctx.set_cursor2(at(0, 3, 1));
    assert_eq!(ctx.get_selected_text(), "|a|b|\n|--|--|\n|c|d|\n");
    assert_eq!(ctx.get_all_text(), "|a|b|\n|--|--|\n|c|d|\n");
    ctx.set_cursor1(at(0, 1, 0));
    ctx.set_cursor2(at(0, 1, 1));
    assert_eq!(ctx.get_selected_text(), "|b|\n|--|\n");
    assert_eq!(ctx.get_selected_raw_text(true), "b");
}

#[test]
fn rows_and_columns_are_put_in_at_the_cursor_and_can_be_undone() {
    let mut ctx = Ctx::new(TWO_BY_TWO, true, None);
    ctx.set_cursor2(at(0, 3, 1));
    ctx.set_cursor1_reset();
    ctx.table_insert(Some(1), None);
    assert_eq!(shape(&ctx.pgh_views[0]), (3, 2));
    assert_eq!(ctx.pgh_views[0].text_to_vec(), vec!["a", "b", "", "", "c", "d"]);
    assert_eq!(ctx.cursor2(), at(0, 3, 1));
    ctx.table_insert(None, Some(0));
    assert_eq!(shape(&ctx.pgh_views[0]), (3, 3));
    assert_eq!(ctx.pgh_views[0].text_to_vec(), vec!["", "a", "b", "", "", "", "", "c", "d"]);
    assert_eq!(ctx.cursor2(), at(0, 4, 1));
    ctx.table_insert(Some(9), None);
    ctx.table_insert(None, Some(9));
    assert_eq!(shape(&ctx.pgh_views[0]), (3, 3));
    assert_eq!(ctx.do_mngr.index, 2);
    ctx.undo();
    assert_eq!(shape(&ctx.pgh_views[0]), (3, 2));
    assert_eq!(ctx.cursor2(), at(0, 3, 1));
    ctx.undo();
    assert_eq!(ctx.pgh_views[0].text_to_vec(), vec!["a", "b", "c", "d"]);
    let mut plain = Ctx::new("text", false, None);
    plain.table_insert(Some(0), Some(0));
    assert_eq!(plain.do_mngr.index, 0);
}

#[test]
fn only_tables_that_fill_their_shape_are_well_formed() {
    let mut t = table(TWO_BY_TWO);
    assert!(t.is_wf());
    t.push_text("extra".to_string());
    assert!(!t.is_wf());
    t.remove_segment_from(4);
    assert!(t.is_wf());
    t.pgh_type = PghType::Text;
    assert!(!t.is_wf());
    let mut info = t.table_info.unwrap();
    t.pgh_type = PghType::Table;
    info.col_count = 0;
    t.table_info = Some(info);
    assert!(!t.is_wf());
    assert!(PghView::from_text("x".to_string()).is_wf());

    let mut ctx = Ctx::new(TWO_BY_TWO, true, None);
    assert!(ctx.is_wf());
    ctx.set_cursor1(at(0, 0, 0));
    ctx.set_cursor2(at(0, 0, 1));
    ctx.delete();
    assert!(ctx.is_wf());
    ctx.truncate_segment(0, 3);
    assert!(!ctx.is_wf());
    ctx.undo();
    assert!(ctx.is_wf());
    ctx.do_mngr.index = 9;
    assert!(!ctx.is_wf());
}

#[test]
fn merge_from_a_segment_below_the_table_grows_it_down_to_that_cell() {
    let mut t = table(TWO_BY_TWO);
    let other = table("|1|2|\n|--|--|\n|3|4|\n");
    assert_eq!(t.table_merge(7, &other), 10);
    assert_eq!(shape(&t), (5, 3));
    assert_eq!(
        t.text_to_vec(),
        vec!["a", "b", "", "c", "d", "", "", "", "", "", "1", "2", "", "3", "4"]
    );
}

#[test]
fn insert_of_a_table_with_the_cursor_behind_the_cells_starts_at_the_last_cell() {
    let mut ctx = Ctx::new(TWO_BY_TWO, true, None);
    ctx.state.cursor1 = at(0, 9, 0);
    ctx.state.cursor2 = at(0, 9, 0);
    ctx.insert("|1|2|\n|--|--|\n|3|4|\n".to_string());
    assert_eq!(shape(&ctx.pgh_views[0]), (3, 3));
    assert_eq!(
        ctx.pgh_views[0].text_to_vec(),
        vec!["a", "b", "", "c", "1", "2", "", "3", "4"]
    );
    assert_eq!(ctx.cursor2().segment, 4);
    ctx.undo();
    assert_eq!(shape(&ctx.pgh_views[0]), (2, 2));
    assert_eq!(ctx.pgh_views[0].text_to_vec(), vec!["a", "b", "c", "d"]);
}
