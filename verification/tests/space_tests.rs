use egscribe::ctx::FindCache;
use egscribe::md::markdown_get_links;
use egscribe::sitter::{
    dark_color, ext_to_lang, highlight, highlight_lines, light_color, support_lang, LightEvent,
    LightSlice, Rgb,
};
use egscribe::space::{CurFile, DirNote, IndexWind, NoteSpace, RenameWin};

fn entry(name: &str, links: &[&str]) -> (String, String) {
    let text: Vec<String> = links.iter().map(|l| format!("see [[{}]] here", l)).collect();
    (name.to_string(), text.join("\n\n"))
}

fn space() -> NoteSpace {
    let mut s = NoteSpace::new("/notes".to_string());
    s.flash_data(&vec![
        entry("b", &[]),
        entry("z", &["b"]),
        entry("a", &["b", "c", "b"]),
        entry("c", &["b"]),
    ]);
    s
}

fn names(dir: &[DirNote]) -> Vec<(usize, String)> {
    dir.iter().map(|d| (d.deep, d.name.clone())).collect()
}

#[test]
fn languages() {
    assert_eq!(support_lang(), vec!["C", "Rust", "Go", "Bash", "Json", "JavaScript"]);
    assert_eq!(ext_to_lang("c"), Some("c".to_string()));
    assert_eq!(ext_to_lang("cpp"), Some("c".to_string()));
    assert_eq!(ext_to_lang("js"), Some("javascript".to_string()));
    assert_eq!(ext_to_lang("rs"), Some("rust".to_string()));
    assert_eq!(ext_to_lang("go"), Some("go".to_string()));
    assert_eq!(ext_to_lang("sh"), Some("bash".to_string()));
    assert_eq!(ext_to_lang("json"), Some("json".to_string()));
    assert_eq!(ext_to_lang("md"), None);
    assert_eq!(ext_to_lang(""), None);
}

#[test]
fn a_new_cache_is_empty() {
    assert_eq!(FindCache::new().cache.len(), 0);
}

#[test]
fn a_name_is_a_note_unless_it_is_a_path() {
    let note = CurFile::from("diary");
    assert!(note.is_note());
    assert!(!note.is_file());
    assert_eq!(note.name(), "diary");
    assert_eq!(note.path(), "diary");
    assert_eq!(note.name4open(), "diary");
    let file = CurFile::from("src/main.rs");
    assert!(file.is_file());
    assert_eq!(file.name(), "main.rs");
    assert_eq!(file.path(), "src/main.rs");
    assert_eq!(file.name4open(), "src/main.rs");
    assert!(CurFile::from("/").is_note());
    assert!(CurFile::from_parts("a/b", None).is_note());
    assert_eq!(CurFile::from_parts("a/b", Some("b".to_string())).name(), "b");
    assert!(CurFile::from_parts("ab", Some("b".to_string())).is_note());
}

#[test]
fn windows_open_and_close() {
    let mut w = RenameWin::default();
    assert!(!w.is_show);
    w.active("old");
    assert!(w.is_show && w.need_focus);
    assert_eq!((w.org_name.as_str(), w.new_name.as_str()), ("old", "old"));
    w.close();
    assert!(!w.is_show && !w.need_focus);
    let i = IndexWind::default();
    assert!(!i.is_show && !i.must_at_top && !i.is_window);
    assert!(i.need_open.is_none() && i.delete_confirm.is_none());

    let mut s = space();
    assert!(!s.is_show_index_window());
    s.set_show_index_window(true);
    assert!(s.is_show_index_window());
    assert!(s.index_window.must_at_top);
    s.close_index_window();
    assert!(!s.is_show_index_window());
    s.active_index_window();
    assert!(s.is_show_index_window());
    s.set_show_index_window(false);
    assert!(!s.is_show_index_window());
    s.rename_window_active("a");
    assert_eq!(s.rename_from_to(), ("a".to_string(), "a".to_string()));
}

#[test]
fn the_open_file() {
    let mut s = space();
    assert_eq!(s.get_current_cur(), None);
    assert_eq!(s.get_current_name(), None);
    s.set_current_file(&CurFile::from("a"));
    assert_eq!(s.get_current_cur(), Some(CurFile::from("a")));
    assert_eq!(s.get_current_name(), Some("a".to_string()));
    assert_eq!(s.get_current_path(), Some("a".to_string()));
    assert_eq!(s.get_current_note(), Some("a".to_string()));
    assert_eq!(s.get_current_file(), None);
    s.set_current_file(&CurFile::from("x/y.c"));
    assert_eq!(s.get_current_note(), None);
    assert_eq!(s.get_current_file(), Some("y.c".to_string()));
    assert_eq!(s.get_current_path(), Some("x/y.c".to_string()));
}

#[test]
fn links_parents_and_roots() {
    let s = space();
    assert_eq!(s.get_child_links("a"), vec!["b", "c", "b"]);
    assert_eq!(s.get_child_links("b"), Vec::<String>::new());
    assert_eq!(s.get_child_links("nothing"), Vec::<String>::new());
    assert_eq!(s.get_parents("b"), vec!["z", "a", "c"]);
    assert_eq!(s.get_parents("c"), vec!["a"]);
    assert_eq!(s.get_parents("a"), Vec::<String>::new());
    assert_eq!(s.get_root_files(), vec!["a", "z"]);
    assert_eq!(s.get_child_links("."), vec!["a", "z"]);
}

#[test]
fn the_way_to_a_note() {
    let s = space();
    assert_eq!(s.get_path_from_link_parents("c"), vec!["a", "c"]);
    assert_eq!(s.get_path_from_link_parents("b"), vec!["z", "b"]);
    assert_eq!(s.get_path_from_link_parents("a"), vec!["a"]);
    let note = s.note_name_to_curfile("c");
    assert!(note.is_note());
    assert_eq!(note.name(), "c");
    assert_eq!(note.path(), "./a/c");
    let mut ring = NoteSpace::new("w".to_string());
    ring.flash_data(&vec![entry("p", &["q"]), entry("q", &["p"])]);
    assert_eq!(ring.get_path_from_link_parents("p"), vec!["q", "p"]);
    assert_eq!(ring.get_root_files(), Vec::<String>::new());
}

#[test]
fn the_tree_of_notes() {
    let s = space();
    assert_eq!(
        names(&s.directory),
        vec![
            (0, "a".to_string()),
            (1, "b".to_string()),
            (1, "c".to_string()),
            (2, "b".to_string()),
            (1, "b".to_string()),
            (0, "z".to_string()),
            (1, "b".to_string()),
        ]
    );
    let mut list = Vec::new();
    s.sub_directory("c", 4, &mut list);
    assert_eq!(names(&list), vec![(4, "c".to_string()), (5, "b".to_string())]);
    s.sub_directory("c", 5, &mut list);
    assert_eq!(list.len(), 3);
    s.sub_directory("c", 6, &mut list);
    assert_eq!(list.len(), 3);
    let mut small = NoteSpace::new("w".to_string());
    small.flash_data(&vec![entry("top", &["sub"])]);
    assert_eq!(small.get_root_markdown_text(), "== [[top]]  \n==== [[sub]]  \n");
}

#[test]
fn a_ring_of_notes_ends_at_depth_five() {
    let mut ring = NoteSpace::new("w".to_string());
    ring.flash_data(&vec![entry("r", &["p"]), entry("p", &["q"]), entry("q", &["p"])]);
    let deeps: Vec<usize> = ring.directory.iter().map(|d| d.deep).collect();
    assert_eq!(deeps, vec![0, 1, 2, 3, 4, 5]);
}

#[test]
fn paths_of_the_note_space() {
    let s = NoteSpace::new("C:\\notes".to_string());
    assert_eq!(s.name2path("diary"), "C:\\notes/diary.md");
    assert_eq!(s.config_file(), "C:\\notes/config.json");
    assert_eq!(s.image_path(), "C:/notes/images");
}

#[test]
fn links_are_the_names_in_double_brackets() {
    assert_eq!(
        markdown_get_links("# T\r\n\r\nsee [[one]] and [[two three]], not [x](y) or [[\u{4e2d}]]\n\n- [[in list]]"),
        vec!["one", "two three", "\u{4e2d}", "in list"]
    );
    assert_eq!(markdown_get_links("[[a]][[]]"), vec!["a", ""]);
    assert_eq!(markdown_get_links("nothing [here]"), Vec::<String>::new());
    assert_eq!(markdown_get_links("[text with [[inner]]](url)"), Vec::<String>::new());
}

#[test]
fn of_two_notes_of_one_name_the_later_counts() {
    let mut s = NoteSpace::new("w".to_string());
    s.flash_data(&vec![entry("a", &["x"]), entry("b", &[]), entry("a", &["y"])]);
    assert_eq!(s.get_child_links("a"), vec!["y"]);
    assert_eq!(s.file_links.len(), 2);
}

#[test]
fn a_name_for_a_new_note() {
    let s = NoteSpace::new("w".to_string());
    assert_eq!(s.new_file_name(&vec![]), Some("untitled_1".to_string()));
    let taken: Vec<String> = (1..=11).map(|i| format!("untitled_{}", i)).collect();
    assert_eq!(s.new_file_name(&taken), Some("untitled_12".to_string()));
    let all: Vec<String> = (1..999).map(|i| format!("untitled_{}", i)).collect();
    assert_eq!(s.new_file_name(&all), None);
    assert_eq!(egscribe::space::number_text(0), "0");
    assert_eq!(egscribe::space::number_text(9070), "9070");
}

#[test]
fn highlighted_pieces_take_the_kind_in_force() {
    let events = vec![
        LightEvent::Source { start: 0, end: 4 },
        LightEvent::HighlightStart(3),
        LightEvent::Source { start: 4, end: 9 },
        LightEvent::HighlightEnd,
        LightEvent::Source { start: 9, end: 10 },
        LightEvent::HighlightStart(77),
        LightEvent::Source { start: 10, end: 11 },
    ];
    let slices = highlight(&events);
    let kinds: Vec<(Option<usize>, usize, usize)> =
        slices.iter().map(|s| (s.type_id, s.start, s.end)).collect();
    assert_eq!(kinds, vec![(None, 0, 4), (Some(3), 4, 9), (None, 9, 10), (Some(77), 10, 11)]);
    assert_eq!(slices[0].dark_color, Rgb { r: 192, g: 192, b: 192 });
    assert_eq!(slices[0].light_color, Rgb { r: 0, g: 0, b: 0 });
    assert_eq!(slices[1].dark_color, Rgb { r: 100, g: 255, b: 100 });
    assert_eq!(slices[1].light_color, Rgb { r: 0, g: 150, b: 0 });
    assert_eq!(slices[3].dark_color, Rgb { r: 192, g: 192, b: 192 });
    assert_eq!(dark_color(0), Rgb { r: 100, g: 200, b: 255 });
    assert_eq!(light_color(11), Rgb { r: 128, g: 128, b: 128 });
    assert_eq!(light_color(12), Rgb { r: 0, g: 0, b: 0 });
}

#[test]
fn highlighted_pieces_are_cut_into_lines() {
    let source = b"int main() /*{\r\n    return 0;*/\r\n}\r\n\r\n";
    let plain = Rgb { r: 1, g: 2, b: 3 };
    let piece = |type_id, start, end| LightSlice { type_id, start, end, dark_color: plain, light_color: plain };
    let slices = vec![piece(Some(9), 0, 3), piece(None, 3, 11), piece(Some(11), 11, 32), piece(None, 32, 38)];
    let lines = highlight_lines(&slices, source);
    let got: Vec<Vec<(Option<usize>, usize, usize)>> =
        lines.iter().map(|l| l.iter().map(|s| (s.type_id, s.start, s.end)).collect()).collect();
    assert_eq!(
        got,
        vec![
            vec![(Some(9), 0, 3), (None, 3, 11), (Some(11), 11, 15)],
            vec![(Some(11), 16, 32)],
            vec![(None, 33, 35)],
            vec![(None, 36, 37)],
            vec![],
        ]
    );
    assert_eq!(highlight_lines(&vec![], source).len(), 1);
    assert_eq!(highlight_lines(&vec![piece(None, 5, 99)], source), vec![vec![]]);
}

#[test]
fn showing_the_index_window_leaves_the_rest() {
    let mut s = space();
    s.set_current_file(&CurFile::from("a"));
    s.rename_window_active("a");
    let links = s.file_links.clone();
    let parents = s.link_parents.clone();
    let tree = names(&s.directory);
    for show in [true, true, false, false, true] {
        s.set_show_index_window(show);
        assert_eq!(s.is_show_index_window(), show);
        assert_eq!(s.index_window.must_at_top, show);
        assert!(!s.index_window.is_window);
        assert_eq!(s.work_dir, "/notes");
        assert_eq!(s.file_links, links);
        assert_eq!(s.link_parents, parents);
        assert_eq!(names(&s.directory), tree);
        assert_eq!(s.get_current_name(), Some("a".to_string()));
        assert_eq!(s.rename_from_to(), ("a".to_string(), "a".to_string()));
        assert!(s.rename_window.is_show);
    }
}

#[test]
fn opening_a_file_leaves_the_notes_and_the_windows() {
    let mut s = space();
    s.set_show_index_window(true);
    let links = s.file_links.clone();
    let parents = s.link_parents.clone();
    let tree = names(&s.directory);
    s.set_current_file(&CurFile::from("x/y.c"));
    assert_eq!(s.get_current_cur(), Some(CurFile::from("x/y.c")));
    assert_eq!(s.work_dir, "/notes");
    assert_eq!(s.file_links, links);
    assert_eq!(s.link_parents, parents);
    assert_eq!(names(&s.directory), tree);
    assert!(s.is_show_index_window());
    assert!(!s.rename_window.is_show);
}

#[test]
fn no_root_is_listed_twice() {
    let mut s = NoteSpace::new("w".to_string());
    s.flash_data(&vec![
        entry("r", &["x"]),
        entry("q", &[]),
        entry("r", &["y"]),
        entry("q", &["y"]),
        entry("p", &[]),
    ]);
    assert_eq!(s.get_root_files(), vec!["p", "q", "r"]);
    assert_eq!(s.get_child_links("."), vec!["p", "q", "r"]);
    assert_eq!(s.get_child_links("r"), vec!["y"]);
}
