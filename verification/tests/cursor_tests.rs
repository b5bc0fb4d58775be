use egscribe::ctx::Ctx;
use egscribe::cursor::Cursor;

fn at(line_no: usize, segment: usize, culumn: usize) -> Cursor {
    Cursor { line_no, segment, culumn }
}

#[test]
fn cursor_orders_by_line_then_segment_then_column() {
    assert!(at(1, 5, 9) < at(2, 0, 0));
    assert!(at(1, 1, 9) < at(1, 2, 0));
    assert!(at(1, 1, 3) < at(1, 1, 4));
    assert!(at(2, 0, 0) > at(1, 5, 9));
    assert!(at(3, 2, 1) == at(3, 2, 1));
    assert!(!(at(3, 2, 1) < at(3, 2, 1)));
    assert!(!(at(3, 2, 1) > at(3, 2, 1)));
}

#[test]
fn cursor_order_is_total_on_a_grid_of_values() {
    let vals = [0usize, 1, 7, usize::MAX];
    for &a in &vals {
        for &b in &vals {
            for &c in &vals {
                for &d in &vals {
                    let x = at(a, b, c);
                    let y = at(a, d, b);
                    let held = [x < y, x == y, x > y].iter().filter(|h| **h).count();
                    assert_eq!(held, 1);
                    assert_eq!(x < y, (a, b, c) < (a, d, b));
                }
            }
        }
    }
}

#[test]
fn cursor_min_and_max_agree_with_the_order() {
    let a = at(1, 0, 4);
    let b = at(0, 9, 9);
    assert_eq!(Cursor::min_of(a, b), b);
    assert_eq!(Cursor::max_of(a, b), a);
    assert_eq!(std::cmp::min(a, b), b);
    assert_eq!(std::cmp::max(a, b), a);
}

#[test]
fn cursor_from_line_and_from_triple() {
    let c: Cursor = 4usize.into();
    assert_eq!(c, at(4, 0, 0));
    let d: Cursor = (1usize, 2usize, 3usize).into();
    assert_eq!(d, at(1, 2, 3));
    assert_eq!(Cursor::from_line(9), at(9, 0, 0));
    assert_eq!(d.line_no(), 1);
}

#[test]
fn cursor_moves_between_lines() {
    let c = at(3, 2, 5);
    assert_eq!(c.cursor_move_up(), at(2, 2, 5));
    assert_eq!(at(0, 2, 5).cursor_move_up(), at(0, 2, 5));
    assert_eq!(c.cursor_move_down(), at(4, 2, 5));
    assert_eq!(c.cursor_move_home(), at(3, 2, 0));
    assert_eq!(c.cursor_move_end(), at(3, 2, usize::MAX));
    assert_eq!(c.cursor_move_enter(), at(4, 0, 0));
}

#[test]
fn cursor_check_clamps_line_segment_and_column() {
    let ctx = Ctx::new("hello\nhi", false, None);
    assert_eq!(ctx.cursor_check(&at(9, 9, 9)), at(1, 0, 2));
    assert_eq!(ctx.cursor_check(&at(0, 3, 2)), at(0, 0, 2));
    assert_eq!(ctx.cursor_check(&at(0, 0, 99)), at(0, 0, 5));
    assert_eq!(ctx.cursor_check(&at(usize::MAX, usize::MAX, usize::MAX)), at(1, 0, 2));
}

#[test]
fn cursor_check_twice_is_cursor_check_once() {
    let ctx = Ctx::new("hello\nhi\n\nlast line", false, None);
    for line in [0usize, 1, 2, 3, 4, usize::MAX] {
        for seg in [0usize, 1, usize::MAX] {
            for col in [0usize, 2, 5, 9, 10, usize::MAX] {
                let once = ctx.cursor_check(&at(line, seg, col));
                assert_eq!(ctx.cursor_check(&once), once);
            }
        }
    }
}

#[test]
fn text_cursor_steps_forward_and_back_over_lines() {
    let mut ctx = Ctx::new("ab\ncd", false, None);
    ctx.set_cursor2(at(0, 0, 1));
    ctx.cursor2_move_next();
    assert_eq!(ctx.cursor2(), at(0, 0, 2));
    ctx.cursor2_move_next();
    assert_eq!(ctx.cursor2(), at(1, 0, 0));
    ctx.cursor2_move_prev();
    assert_eq!(ctx.cursor2(), at(0, 0, 2));
    ctx.cursor2_move_prev();
    assert_eq!(ctx.cursor2(), at(0, 0, 1));
}

#[test]
fn text_cursor_moves_up_down_home_end() {
    let mut ctx = Ctx::new("hello\nhi", false, None);
    ctx.set_cursor2(at(0, 0, 4));
    ctx.cursor2_move_down();
    assert_eq!(ctx.cursor2(), at(1, 0, 2));
    ctx.cursor2_move_down();
    assert_eq!(ctx.cursor2(), at(1, 0, 2));
    ctx.cursor2_move_home();
    assert_eq!(ctx.cursor2(), at(1, 0, 0));
    ctx.cursor2_move_up();
    assert_eq!(ctx.cursor2(), at(0, 0, 0));
    ctx.cursor2_move_end();
    assert_eq!(ctx.cursor2(), at(0, 0, 5));
}

#[test]
fn select_all_and_reset() {
    let mut ctx = Ctx::new("one\ntwo", false, None);
    ctx.set_cursors_select_all();
    assert_eq!(ctx.cursor1(), at(0, 0, 0));
    assert_eq!(ctx.cursor2(), at(1, 0, 3));
    assert!(ctx.is_selected());
    assert_eq!(ctx.select_direction(), Some(1));
    ctx.set_cursor_switch();
    assert_eq!(ctx.select_direction(), Some(-1));
    ctx.set_cursors_to_min();
    assert_eq!(ctx.cursor1(), at(0, 0, 0));
    assert_eq!(ctx.cursor2(), at(0, 0, 0));
    assert_eq!(ctx.select_direction(), None);
}

#[test]
fn select_word_stops_at_delimiters_and_at_a_change_of_script() {
    let mut ctx = Ctx::new("say hello_world, ok", false, None);
    ctx.set_cursor2(at(0, 0, 6));
    ctx.select_word_at_cursor();
    assert_eq!(ctx.cursor1(), at(0, 0, 4));
    assert_eq!(ctx.cursor2(), at(0, 0, 15));
    assert_eq!(ctx.get_selected_text(), "hello_world");

    let mut ctx = Ctx::new("abc\u{4e2d}\u{6587}def", false, None);
    ctx.set_cursor2(at(0, 0, 3));
    ctx.select_word_at_cursor();
    assert_eq!(ctx.cursor1(), at(0, 0, 3));
    assert_eq!(ctx.cursor2(), at(0, 0, 5));
}

#[test]
fn select_word_behind_the_text_changes_nothing() {
    let mut ctx = Ctx::new("abc", false, None);
    ctx.set_cursor1(at(0, 0, 1));
    ctx.set_cursor2(at(0, 0, 3));
    ctx.select_word_at_cursor();
    assert_eq!(ctx.cursor1(), at(0, 0, 1));
    assert_eq!(ctx.cursor2(), at(0, 0, 3));
}

#[test]
fn select_line_covers_the_paragraph() {
    let mut ctx = Ctx::new("first\nsecond line", false, None);
    ctx.set_cursor2(at(1, 0, 3));
    ctx.select_line_at_cursor();
    assert_eq!(ctx.cursor1(), at(1, 0, 0));
    assert_eq!(ctx.cursor2(), at(1, 0, 11));
    assert_eq!(ctx.get_selected_text(), "second line");
}
