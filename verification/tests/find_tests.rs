use egscribe::cmd::{FindCmd, FindReplaceCtx};
use egscribe::ctx::Ctx;
use egscribe::cursor::Cursor;
use egscribe::find::{
    char_is_whitespace, find_bytes, find_func, is_word_boundary, keep_word_bounded,
};

fn at(line_no: usize, segment: usize, culumn: usize) -> Cursor {
    Cursor { line_no, segment, culumn }
}

fn lines(ctx: &Ctx) -> Vec<String> {
    (0..ctx.line_num()).map(|i| ctx.get_line_text(i)).collect()
}

fn plain(find: &str) -> FindReplaceCtx {
    FindReplaceCtx::sample(find.to_string())
}

#[test]
fn test_is_word_boundary() {
    assert_eq!(Ctx::is_word_boundary("hello abc world", &(0..5)), true);
    assert_eq!(Ctx::is_word_boundary("hello abc world", &(6..9)), true);
    assert_eq!(Ctx::is_word_boundary("hello abc world", &(10..15)), true);
    assert_eq!(Ctx::is_word_boundary("hello abc world\u{4e2d}", &(10..15)), false);
    assert_eq!(Ctx::is_word_boundary("hello abc world\u{4e2d}", &(0..4)), false);
    assert_eq!(Ctx::is_word_boundary("hello abc world\u{4e2d}", &(1..5)), false);
}

#[test]
fn the_session_offers_the_searches_of_a_text() {
    assert_eq!(Ctx::find_func("a-b a", &plain("a")), vec![0..1, 4..5]);
    assert_eq!(Ctx::get_word_at_cursor("one two", 5), Some((4, 7)));
    assert_eq!(Ctx::get_word_at_cursor("one two", 3), Some((0, 3)));
    assert_eq!(Ctx::get_word_at_cursor("one  two", 4), Some((4, 4)));
    assert_eq!(Ctx::get_word_at_cursor("one two", 7), None);
    assert_eq!(Ctx::enter_auto_pak_ctrl("* x"), "* ");
    let ctx = Ctx::new("a\nb", false, None);
    assert!(ctx.check_to_table_pghview("|a|\n|--|\n").is_some());
    assert!(ctx.check_to_table_pghview("a").is_none());
    assert_eq!(ctx.bottom_pgh().get_text(), "a");
}

#[test]
fn word_boundary_of_ranges_outside_the_text() {
    assert_eq!(is_word_boundary("abc", &(0..4)), false);
    assert_eq!(is_word_boundary("abc", &(4..4)), false);
    assert_eq!(is_word_boundary("abc", &(0..3)), true);
    assert_eq!(is_word_boundary("", &(0..0)), true);
}

#[test]
fn word_boundary_minds_punctuation_but_not_the_underscore() {
    assert_eq!(is_word_boundary("(abc)", &(1..4)), true);
    assert_eq!(is_word_boundary("_abc_", &(1..4)), false);
    assert_eq!(is_word_boundary("a\tabc\nb", &(2..5)), true);
    assert_eq!(is_word_boundary("\u{4e2d} abc", &(4..7)), true);
    assert_eq!(is_word_boundary("\u{4e2d}abc", &(3..6)), false);
}

#[test]
fn find_bytes_finds_occurrences_that_do_not_overlap() {
    assert_eq!(find_bytes(b"aaaa", b"aa"), vec![(0, 2), (2, 4)]);
    assert_eq!(find_bytes(b"abcabc", b"bc"), vec![(1, 3), (4, 6)]);
    assert_eq!(find_bytes(b"abc", b""), vec![]);
    assert_eq!(find_bytes(b"ab", b"abc"), vec![]);
    assert_eq!(find_bytes(b"", b"a"), vec![]);
}

#[test]
fn keep_word_bounded_drops_matches_inside_words() {
    let spans = vec![(0, 3), (4, 7), (7, 10)];
    assert_eq!(keep_word_bounded(&spans, "foo foofoo"), vec![(0, 3)]);
}

#[test]
fn find_func_plain_and_without_regard_to_case() {
    let mut p = plain("foo");
    assert_eq!(find_func("a foo Foo", &p), vec![2..5]);
    p.is_case = false;
    assert_eq!(find_func("a foo Foo", &p), vec![2..5, 6..9]);
    p.find = "FOO".to_string();
    assert_eq!(find_func("a foo Foo", &p), vec![2..5, 6..9]);
    p.is_hole_word = true;
    assert_eq!(find_func("afoo foo", &p), vec![5..8]);
}

#[test]
fn find_func_by_regular_expression() {
    let mut p = plain("f.o");
    p.is_reg = true;
    assert_eq!(find_func("foo fxo", &p), Vec::<std::ops::Range<usize>>::new());
    p.regex_build();
    assert!(p.regex.is_some());
    assert_eq!(find_func("foo fxo FOO", &p), vec![0..3, 4..7]);
    p.is_case = false;
    p.regex_build();
    assert_eq!(find_func("foo fxo FOO", &p), vec![0..3, 4..7, 8..11]);
}

#[test]
fn an_invalid_pattern_finds_nothing() {
    let mut p = plain("(unclosed");
    p.is_reg = true;
    p.regex_build();
    assert!(p.regex.is_none());
    assert_eq!(find_func("(unclosed", &p), Vec::<std::ops::Range<usize>>::new());
    let mut ctx = Ctx::new("(unclosed", false, None);
    assert!(!ctx.find_and_select(&p));
}

#[test]
fn regex_build_for_a_plain_search_keeps_no_pattern() {
    let mut p = plain("abc");
    p.regex_build();
    assert!(p.regex.is_none());
}

#[test]
fn find_next_goes_round_at_the_end() {
    let mut ctx = Ctx::new("foo\nbar\nfoo", false, None);
    let p = plain("foo");
    assert!(ctx.find_and_select(&p));
    assert_eq!((ctx.cursor1(), ctx.cursor2()), (at(0, 0, 0), at(0, 0, 3)));
    assert!(ctx.find_and_select(&p));
    assert_eq!((ctx.cursor1(), ctx.cursor2()), (at(2, 0, 0), at(2, 0, 3)));
    assert!(ctx.find_and_select(&p));
    assert_eq!((ctx.cursor1(), ctx.cursor2()), (at(0, 0, 0), at(0, 0, 3)));
}

#[test]
fn find_next_from_the_last_line_wraps_to_the_first() {
    let mut ctx = Ctx::new("foo\nbar\nfoo", false, None);
    ctx.set_cursor2(at(2, 0, 3));
    ctx.set_cursor1_reset();
    assert_eq!(ctx.find_next_cursor(&plain("foo")), Some((at(0, 0, 0), at(0, 0, 3))));
}

#[test]
fn find_next_with_an_empty_pattern_or_without_a_match() {
    let mut ctx = Ctx::new("foo\nbar", false, None);
    assert!(!ctx.find_and_select(&plain("")));
    assert!(!ctx.find_and_select(&plain("zzz")));
    assert_eq!(ctx.cursor2(), at(0, 0, 0));
}

#[test]
fn find_next_counts_columns_in_characters() {
    let mut ctx = Ctx::new("\u{4e2d}\u{6587} abc", false, None);
    assert!(ctx.find_and_select(&plain("abc")));
    assert_eq!((ctx.cursor1(), ctx.cursor2()), (at(0, 0, 3), at(0, 0, 6)));
}

#[test]
fn find_all_collects_every_match_with_its_line() {
    let mut ctx = Ctx::new("foo foo\nbar\nfoo", false, None);
    ctx.find_all(&plain("foo"));
    let (cache, param) = ctx.get_find_cache();
    assert_eq!(param.find, "foo");
    let got: Vec<(Cursor, Cursor, Option<String>)> =
        cache.cache.iter().map(|i| (i.start, i.end, i.line_text.clone())).collect();
    assert_eq!(
        got,
        vec![
            (at(0, 0, 0), at(0, 0, 3), Some("foo foo".to_string())),
            (at(0, 0, 4), at(0, 0, 7), Some("foo foo".to_string())),
            (at(2, 0, 0), at(2, 0, 3), Some("foo".to_string())),
        ]
    );
}

#[test]
fn find_all_with_an_empty_pattern_keeps_the_old_matches() {
    let mut ctx = Ctx::new("foo", false, None);
    ctx.find_all(&plain("foo"));
    ctx.find_all(&plain(""));
    assert_eq!(ctx.get_find_cache().0.cache.len(), 1);
}

#[test]
fn replace_all_replaces_every_match_and_ends() {
    let mut ctx = Ctx::new("foo x foo\nfoo", false, None);
    let mut p = plain("foo");
    p.replace = "bar".to_string();
    assert_eq!(ctx.replace_all(&p), 3);
    assert_eq!(lines(&ctx), vec!["bar x bar", "bar"]);
    assert!(!ctx.find_and_select(&p));
    ctx.find_all(&p);
    assert_eq!(ctx.get_find_cache().0.cache.len(), 0);
}

#[test]
fn replace_all_with_a_shorter_replacement() {
    let mut ctx = Ctx::new("aXXbXXc", false, None);
    let mut p = plain("XX");
    p.replace = "".to_string();
    assert_eq!(ctx.replace_all(&p), 2);
    assert_eq!(lines(&ctx), vec!["abc"]);
}

#[test]
fn find_replace_carries_out_the_command() {
    let mut ctx = Ctx::new("one two one", false, None);
    let mut p = plain("one");
    p.replace = "1".to_string();
    p.cmd = Some(FindCmd::Find);
    assert!(!ctx.find_replace(&mut p));
    assert_eq!(ctx.get_selected_text(), "one");
    p.cmd = Some(FindCmd::Replace);
    assert!(!ctx.find_replace(&mut p));
    assert_eq!(lines(&ctx), vec!["1 two one"]);
    assert_eq!(ctx.get_selected_text(), "one");
    p.cmd = Some(FindCmd::ReplaceAll);
    ctx.find_replace(&mut p);
    assert_eq!(lines(&ctx), vec!["1 two 1"]);
    p.find = "two".to_string();
    p.cmd = Some(FindCmd::FindAll);
    assert!(ctx.find_replace(&mut p));
    assert_eq!(ctx.get_find_cache().0.cache.len(), 1);
}

#[test]
fn the_selected_word_is_marked_where_it_occurs_again() {
    let mut ctx = Ctx::new("foo bar foo\nfoo", false, None);
    ctx.set_bottom_line(1);
    ctx.set_cursor1(at(0, 0, 0));
    ctx.set_cursor2(at(0, 0, 3));
    ctx.flash_same_cache_with_seleted();
    assert_eq!(ctx.same_cache.cache.len(), 3);
    ctx.set_cursor1_reset();
    ctx.flash_same_cache_with_seleted();
    assert_eq!(ctx.same_cache.cache.len(), 0);
    ctx.flash_same_cache_with_param(&plain("bar"));
    assert_eq!(ctx.same_cache.cache.len(), 1);
    assert_eq!(ctx.same_cache.cache[0].start, at(0, 0, 4));
}

#[test]
fn white_space_is_what_the_standard_library_takes_for_it() {
    let mut count = 0;
    for v in 0..=0x10FFFFu32 {
        if let Some(c) = char::from_u32(v) {
            assert_eq!(char_is_whitespace(c), c.is_whitespace(), "U+{:04X}", v);
            if char_is_whitespace(c) {
                count += 1;
            }
        }
    }
    assert_eq!(count, 25);
    assert!(char_is_whitespace('\u{3000}'));
    assert!(char_is_whitespace('\u{85}'));
    assert!(!char_is_whitespace('\u{200B}'));
    assert!(is_word_boundary("a\u{3000}b\u{a0}c", &(4..5)));
}
