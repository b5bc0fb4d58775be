use egscribe::cursor::Cursor;
use egscribe::icon::{IconName, LinkInfo};
use egscribe::pgh::{PghType, PghView};
use egscribe::segment::{PghText, SegmentType};
use egscribe::strings::{split_lines, text_cut, text_range};

fn at(line_no: usize, segment: usize, culumn: usize) -> Cursor {
    Cursor { line_no, segment, culumn }
}

fn mixed() -> PghView {
    let mut p = PghView::new_list_item();
    p.push_indent();
    p.push_checkbox();
    p.push_text("see ".to_string());
    p.push_icon(IconName::icon_external_link(LinkInfo::Link("http://x".to_string())));
    p.push_text("more".to_string());
    p
}

#[test]
fn text_helpers() {
    assert_eq!(text_range("hello", 1, 3), "el");
    assert_eq!(text_range("hello", 3, 99), "lo");
    assert_eq!(text_range("hello", 4, 2), "");
    assert_eq!(text_cut("hello", 1, 3), "hlo");
    assert_eq!(text_cut("hello", 4, 2), "hello");
    assert_eq!(split_lines("a\n\nb\n"), vec!["a", "", "b", ""]);
    assert_eq!(split_lines(""), vec![""]);
}

#[test]
fn segments_without_text_take_one_column_and_hold_no_text() {
    let p = mixed();
    assert_eq!(p.get_text(), "see more");
    assert_eq!(p.text_to_vec(), vec!["", "", "see ", "", "more"]);
    assert_eq!(p.max_segment(), 4);
    assert_eq!(p.max_culumn(&at(0, 0, 0)), 1);
    assert_eq!(p.max_culumn(&at(0, 2, 0)), 4);
    assert_eq!(p.max_culumn(&at(0, 9, 0)), 0);
    assert_eq!(p.get_segment_type(1), SegmentType::CheckBox);
    assert_eq!(p.get_segment_type(9), SegmentType::Text);
    assert_eq!(p.last_text_segment(), 4);
    assert!(p.is_last_text_segment(4));
    assert_eq!(p.get_segment_text(2), "see ");
    assert_eq!(p.get_segment_text(9), "");
    assert_eq!(PghView::new_text().max_segment(), 0);
}

#[test]
fn cursor_moves_skip_segments_without_text() {
    let p = mixed();
    assert_eq!(at(0, 2, 0).cursor_move_prev(&p), at(0, 0, 0));
    assert_eq!(at(0, 2, 1).cursor_move_prev(&p), at(0, 2, 0));
    assert_eq!(at(0, 4, 0).cursor_move_prev(&p), at(0, 2, 3));
    assert_eq!(at(3, 0, 0).cursor_move_prev(&p), at(2, usize::MAX, usize::MAX));
    assert_eq!(at(0, 0, 0).cursor_move_prev(&p), at(0, 0, 0));
    assert_eq!(at(0, 2, 3).cursor_move_next(&p), at(0, 2, 4));
    assert_eq!(at(0, 2, 4).cursor_move_next(&p), at(0, 3, 0));
    assert_eq!(at(0, 3, 0).cursor_move_next(&p), at(0, 4, 0));
    assert_eq!(at(0, 4, 4).cursor_move_next(&p), at(1, 0, 0));
}

#[test]
fn delete_and_select_on_one_paragraph() {
    let p = mixed();
    let c1 = at(0, 2, 1);
    let c2 = at(0, 4, 2);
    assert_eq!(p.delete(0, &c1, &c2), vec!["", "", "s", "", "re"]);
    assert_eq!(p.select_to_vec(0, &c1, &c2, false), vec!["", "", "ee ", "", "mo"]);
    assert_eq!(p.select_to_vec(0, &c1, &c2, true), vec!["", "", "ee ", "", "mo"]);
    let c3 = at(0, 4, 1);
    assert_eq!(p.select_to_vec(0, &c3, &c2, false), vec!["", "", "", "o"]);
    assert_eq!(p.select_to_vec(0, &c3, &c2, true), vec!["", "", "", "", "o"]);
    assert_eq!(p.delete(0, &c3, &c2), vec!["", "", "see ", "", "mre"]);
    assert_eq!(p.select(0, &c1, &c2, false), "ee mo");
    assert_eq!(p.select(0, &c2, &c1, true), "ee mo");
}

#[test]
fn delete_and_select_on_the_lines_of_a_longer_selection() {
    let p = PghView::from_text("abcdef".to_string());
    let c1 = at(2, 0, 2);
    let c2 = at(5, 0, 3);
    assert_eq!(p.delete(2, &c1, &c2), vec!["ab"]);
    assert_eq!(p.delete(3, &c1, &c2), vec![""]);
    assert_eq!(p.delete(5, &c1, &c2), vec!["def"]);
    assert_eq!(p.select(2, &c1, &c2, false), "cdef");
    assert_eq!(p.select(4, &c1, &c2, false), "abcdef");
    assert_eq!(p.select(5, &c1, &c2, false), "abc");
}

#[test]
fn split_at_a_cursor() {
    let p = mixed();
    assert_eq!(
        p.insert(&at(0, 2, 2), "XY"),
        ("se".to_string(), "e more".to_string(), "seXYe ".to_string())
    );
    assert_eq!(p.normal_enter(&at(0, 4, 1)), ("see m".to_string(), "ore".to_string()));
    assert_eq!(p.normal_enter(&at(0, 9, 1)), ("see more".to_string(), "".to_string()));
    assert_eq!(p.insert(&at(0, 1, 0), "XY"), ("".to_string(), "see more".to_string(), "XY".to_string()));
    assert_eq!(p.cursor_to_text_char_index(&at(0, 4, 2)), 6);
    assert_eq!(p.cursor_to_text_char_index(&at(0, 2, 99)), 4);
}

#[test]
fn from_an_offset_in_the_text_to_a_cursor() {
    let p = mixed();
    assert_eq!(p.text_char_index_to_cursor(0, 7), at(7, 2, 0));
    assert_eq!(p.text_char_index_to_cursor(4, 7), at(7, 4, 0));
    assert_eq!(p.text_char_index_to_cursor(5, 7), at(7, 4, 1));
    assert_eq!(p.text_char_index_to_cursor(99, 7), at(7, 4, 4));
    let q = PghView::from_text("a\u{4e2d}b".to_string());
    assert_eq!(q.text_char_index_to_cursor(2, 0), at(0, 0, 2));
    assert_eq!(q.text_byte_index_to_cursor(0, 0), at(0, 0, 0));
    assert_eq!(q.text_byte_index_to_cursor(1, 0), at(0, 0, 1));
    assert_eq!(q.text_byte_index_to_cursor(3, 0), at(0, 0, 1));
    assert_eq!(q.text_byte_index_to_cursor(4, 0), at(0, 0, 2));
    assert_eq!(q.text_byte_index_to_cursor(5, 0), at(0, 0, 3));
    assert_eq!(PghView::new_text().text_char_index_to_cursor(3, 2), at(2, 0, 0));
}

#[test]
fn update_and_truncate_segments() {
    let mut p = mixed();
    p.update_segment_text(2, "look ".to_string());
    p.update_segment_text(1, "ignored".to_string());
    assert_eq!(p.text_to_vec(), vec!["", "", "look ", "", "more"]);
    p.remove_segment_from(3);
    assert_eq!(p.pgh.len(), 3);
    p.update_text(0, "now text".to_string());
    assert_eq!(p.get_segment_text(0), "now text");
    assert_eq!(p.get_segment_type(0), SegmentType::Indent);
    p.insert_text(1, "in".to_string());
    assert_eq!(p.text_to_vec(), vec!["now text", "in", "", "look "]);
    p.update_all_text("all".to_string());
    assert_eq!(p.text_to_vec(), vec!["all"]);
    assert_eq!(p.pgh_type, PghType::ListItem);
}

#[test]
fn paragraphs_compare_by_kind_and_text() {
    let a = mixed();
    let mut b = mixed();
    assert!(PghView::is_pgh_view_eq(&a, &b));
    b.update_segment_text(4, "less".to_string());
    assert!(!PghView::is_pgh_view_eq(&a, &b));
    assert!(!PghView::is_pgh_view_eq(&a, &PghView::new_list_item()));
    let mut c = PghView::new_text();
    c.push_text("x".to_string());
    let mut d = PghView::new_heading();
    d.push_text("x".to_string());
    assert!(!PghView::is_pgh_view_eq(&c, &d));
}

#[test]
fn icons_have_their_glyphs() {
    assert_eq!(IconName::icon_chevron_left.to_char(), '\u{e900}');
    assert_eq!(IconName::icon_external_link(LinkInfo::File("n".to_string())).to_char(), '\u{e905}');
    assert_eq!(IconName::icon_close.to_char(), '\u{e90d}');
}

#[test]
fn a_text_segment_always_leaves_a_text() {
    let t = PghText::new("abcdef".to_string());
    let c1 = at(2, 0, 2);
    let c2 = at(5, 0, 3);
    for line in [0usize, 2, 3, 5, 9] {
        assert!(t.get_delete(line, 0, &c1, &c2).is_some());
        assert!(t.get_select(line, 0, &c1, &c2, true).is_some());
    }
    assert_eq!(t.get_delete(2, 0, &c1, &c2), Some("ab".to_string()));
    assert_eq!(t.get_delete(9, 0, &c1, &c2), Some("".to_string()));
    assert_eq!(t.get_select(2, 1, &c1, &c2, false), Some("abcdef".to_string()));
    assert_eq!(t.get_select(5, 1, &c1, &c2, false), None);
    assert_eq!(t.get_select(5, 1, &c1, &c2, true), Some("".to_string()));
    assert_eq!(t.get_cursors_range(2, 0, &c1, &c2), (c1, at(2, 0, 6)));
    assert_eq!(t.get_cursors_range(3, 4, &c1, &c2), (at(3, 0, 0), at(3, 4, 6)));
    assert_eq!(t.get_cursors_range(5, 0, &c1, &c2), (at(5, 0, 0), c2));
}
