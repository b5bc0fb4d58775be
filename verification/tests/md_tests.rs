use egscribe::ctx::Ctx;
use egscribe::md::{
    block_of, cell_of, markdown_get_links, markdown_to_pgh_texts, paragraphs_of_block,
    paragraphs_of_tree, rows_of, source_of, table_from_rows, table_of_tree, MdBlock,
};
use egscribe::md_tree::{gfm_tree, source_between, text_values, MdKind, MdNode, MdSpan};
use egscribe::pgh::PghType;

fn kinds_and_texts(text: &str) -> Vec<(PghType, String)> {
    markdown_to_pgh_texts(text, true).iter().map(|p| (p.pgh_type, p.get_text())).collect()
}

#[test]
fn test_md() {
    let md = "\n![image](file://test1.png)\n";
    let found = markdown_to_pgh_texts(md, true);
    println!("{:?}", found);
    assert_eq!(found.len(), 1);
    assert_eq!(found[0].get_text(), "![image](file://test1.png)");
}

#[test]
fn markdown_blocks_become_paragraphs() {
    assert_eq!(
        kinds_and_texts("# Title\n\nsome\ntext\n\n- one\n- two\n\n> quoted\n> more\n"),
        vec![
            (PghType::Text, "# Title".to_string()),
            (PghType::Text, "sometext".to_string()),
            (PghType::Text, "- one".to_string()),
            (PghType::Text, "- two".to_string()),
            (PghType::BlockLine, ">quoted".to_string()),
            (PghType::BlockLine, "> more".to_string()),
        ]
    );
}

#[test]
fn blocks_given_by_hand() {
    let none = None;
    let texts = |b: &MdBlock| -> Vec<String> {
        paragraphs_of_block(b, &none).iter().map(|p| p.get_text()).collect()
    };
    assert_eq!(texts(&MdBlock::Text(Some("a\nb".to_string()))), vec!["ab"]);
    assert_eq!(texts(&MdBlock::Text(None)), Vec::<String>::new());
    assert_eq!(texts(&MdBlock::List(vec![Some("x".to_string()), None])), vec!["x"]);
    assert_eq!(texts(&MdBlock::Quote(None)), vec![">"]);
    assert_eq!(texts(&MdBlock::Quote(Some(None))), vec![">"]);
    assert_eq!(texts(&MdBlock::Quote(Some(Some("> a\nb".to_string())))), vec!["> a", ">b"]);
    assert_eq!(texts(&MdBlock::Table), vec![""]);
    let code = paragraphs_of_block(&MdBlock::Code(None, "x\ny".to_string()), &none);
    assert_eq!(code[0].text_to_vec(), vec!["x", "y"]);
    assert_eq!(code[0].pgh_type, PghType::Code);
}

#[test]
fn a_table_from_rows_is_filled_up_to_its_longest_row() {
    let cell = |s: &str| Some(Some(s.to_string()));
    let rows = vec![
        Some(vec![cell("a"), None, cell("b")]),
        None,
        Some(vec![cell("c"), Some(None), cell("d"), cell("e")]),
    ];
    let t = table_from_rows(&rows);
    let info = t.table_info.unwrap();
    assert_eq!((info.row_count, info.col_count, info.has_frame), (2, 4, true));
    assert_eq!(t.text_to_vec(), vec!["a", "b", "", "", "c", "", "d", "e"]);
    let nothing = table_from_rows(&vec![Some(vec![None])]);
    assert_eq!(nothing.table_info.unwrap().col_count, 0);
    let block = paragraphs_of_block(&MdBlock::Table, &Some(vec![Some(vec![None])]));
    assert_eq!(block[0].pgh_type, PghType::Text);
}

#[test]
fn a_session_over_markdown() {
    let ctx = Ctx::new("intro\n\n|a|b|\n|--|--|\n|c|d|\n", true, Some("img".to_string()));
    assert_eq!(ctx.line_num(), 2);
    assert!(ctx.is_table_line(1));
    assert!(!ctx.is_table_line(0));
    assert!(!ctx.is_table_line(2));
    assert!(ctx.cfg().is_markdown);
    assert_eq!(ctx.cfg().image_path.as_deref(), Some("img"));
}

fn node(kind: MdKind, span: Option<(usize, usize)>, children: Option<Vec<MdNode>>) -> MdNode {
    MdNode { kind, span: span.map(|(start, end)| MdSpan { start, end }), children }
}

fn leaf(start: usize, end: usize) -> MdNode {
    node(MdKind::Other, Some((start, end)), None)
}

#[test]
fn the_source_between_two_offsets() {
    let text = "a\u{e9}\u{4e2d}b";
    assert_eq!(source_between(text, 0, 7), Some(text.to_string()));
    assert_eq!(source_between(text, 1, 3), Some("\u{e9}".to_string()));
    assert_eq!(source_between(text, 3, 6), Some("\u{4e2d}".to_string()));
    assert_eq!(source_between(text, 3, 7), Some("\u{4e2d}b".to_string()));
    assert_eq!(source_between(text, 7, 7), Some(String::new()));
    assert_eq!(source_between(text, 0, 0), Some(String::new()));
    assert_eq!(source_between(text, 2, 3), None);
    assert_eq!(source_between(text, 1, 4), None);
    assert_eq!(source_between(text, 1, 5), None);
    assert_eq!(source_between(text, 3, 1), None);
    assert_eq!(source_between(text, 0, 8), None);
    assert_eq!(source_between(text, 8, 8), None);
    assert_eq!(source_between("", 0, 0), Some(String::new()));
}

#[test]
fn the_source_of_a_node_is_cut_at_its_place() {
    let text = "one two";
    assert_eq!(source_of(text, &leaf(4, 7)), Some("two".to_string()));
    assert_eq!(source_of(text, &leaf(4, 8)), None);
    assert_eq!(source_of(text, &node(MdKind::Other, None, None)), None);
}

#[test]
fn text_values_leave_out_what_stands_under_a_link() {
    let text = |s: &str| node(MdKind::Text(s.to_string()), None, None);
    let tree = node(
        MdKind::Other,
        None,
        Some(vec![
            node(MdKind::Other, None, Some(vec![text("a"), text("b")])),
            node(MdKind::Link, None, Some(vec![text("hidden")])),
            node(MdKind::List, None, Some(vec![node(MdKind::Other, None, Some(vec![text("c")]))])),
            node(MdKind::Other, None, None),
            node(MdKind::Text("d".to_string()), None, Some(vec![text("not read")])),
        ]),
    );
    assert_eq!(text_values(&tree), vec!["a", "b", "c", "d"]);
    assert_eq!(text_values(&text("x")), vec!["x"]);
    assert_eq!(text_values(&node(MdKind::Link, None, None)), Vec::<String>::new());
}

#[test]
fn blocks_are_read_off_the_nodes() {
    let text = "0123456789";
    let texts = |b: &MdBlock| -> Vec<String> {
        paragraphs_of_block(b, &None).iter().map(|p| p.get_text()).collect()
    };
    let list = node(
        MdKind::List,
        Some((0, 10)),
        Some(vec![leaf(0, 2), node(MdKind::Other, None, None), leaf(2, 5), leaf(9, 11)]),
    );
    assert_eq!(texts(&block_of(text, &list)), vec!["01", "234"]);
    let quote = node(MdKind::Quote, Some((0, 10)), Some(vec![leaf(3, 6), leaf(6, 9)]));
    assert_eq!(texts(&block_of(text, &quote)), vec![">345"]);
    let empty_quote = node(MdKind::Quote, Some((0, 10)), Some(vec![]));
    assert_eq!(texts(&block_of(text, &empty_quote)), vec![">"]);
    let code = node(MdKind::Code(Some("c".to_string()), "x\ny".to_string()), Some((0, 3)), None);
    let code = paragraphs_of_block(&block_of(text, &code), &None);
    assert_eq!(code[0].text_to_vec(), vec!["x", "y"]);
    assert_eq!(code[0].code_lang.as_deref(), Some("c"));
    assert_eq!(texts(&block_of(text, &leaf(7, 10))), vec!["789"]);
    assert_eq!(texts(&block_of(text, &leaf(7, 11))), Vec::<String>::new());
}

#[test]
fn rows_and_cells_are_read_off_a_table_node() {
    let text = "abcdef";
    let cell = |kids: Option<Vec<MdNode>>| node(MdKind::Other, None, kids);
    let row = |cells: Option<Vec<MdNode>>| node(MdKind::Other, None, cells);
    assert_eq!(cell_of(text, &cell(Some(vec![leaf(1, 3), leaf(3, 4)]))), Some(Some("bc".to_string())));
    assert_eq!(cell_of(text, &cell(Some(vec![]))), None);
    assert_eq!(cell_of(text, &cell(None)), None);
    assert_eq!(cell_of(text, &cell(Some(vec![node(MdKind::Other, None, None)]))), Some(None));
    let table = node(
        MdKind::Table,
        None,
        Some(vec![
            row(Some(vec![cell(Some(vec![leaf(0, 1)])), cell(Some(vec![leaf(1, 2)]))])),
            row(None),
            row(Some(vec![cell(Some(vec![leaf(2, 3)])), cell(None), cell(Some(vec![leaf(4, 6)]))])),
        ]),
    );
    let rows = rows_of(text, &table).unwrap();
    assert_eq!(rows.len(), 3);
    assert_eq!(rows[1], None);
    let t = table_from_rows(&rows);
    let info = t.table_info.unwrap();
    assert_eq!((info.row_count, info.col_count), (2, 2));
    assert_eq!(t.text_to_vec(), vec!["a", "b", "c", "ef"]);
    assert_eq!(rows_of(text, &leaf(0, 1)), None);
    assert_eq!(rows_of(text, &node(MdKind::Table, None, None)), Some(vec![]));

    let root = node(MdKind::Other, None, Some(vec![table, leaf(0, 3)]));
    let found = paragraphs_of_tree(text, &root);
    assert_eq!(found.len(), 2);
    assert_eq!(found[0].pgh_type, PghType::Table);
    assert_eq!(found[1].get_text(), "abc");
    assert_eq!(table_of_tree(text, &root).unwrap().text_to_vec(), vec!["a", "b", "c", "ef"]);
    assert!(table_of_tree(text, &node(MdKind::Other, None, Some(vec![leaf(0, 3)]))).is_none());
    assert!(table_of_tree(text, &node(MdKind::Other, None, Some(vec![]))).is_none());
    assert!(paragraphs_of_tree(text, &node(MdKind::Other, None, None)).is_empty());
}

#[test]
fn the_tree_of_a_text_holds_its_nodes_with_their_places() {
    let text = "see [[x]] and [t](u)\n\n- it\n";
    let root = gfm_tree(text).unwrap();
    let top = root.children.as_ref().unwrap();
    assert_eq!(top.len(), 2);
    assert!(matches!(top[0].kind, MdKind::Other));
    assert!(matches!(top[1].kind, MdKind::List));
    assert_eq!(source_of(text, &top[0]), Some("see [[x]] and [t](u)".to_string()));
    let span = top[1].span.unwrap();
    assert_eq!((span.start, span.end), (22, 26));
    let inline = top[0].children.as_ref().unwrap();
    assert!(matches!(&inline[0].kind, MdKind::Text(v) if v == "see [[x]] and "));
    assert!(matches!(inline[1].kind, MdKind::Link));
    assert_eq!(text_values(&root), vec!["see [[x]] and ", "it"]);
    assert_eq!(markdown_get_links(text), vec!["x"]);
    let code = gfm_tree("```rs\nlet a;\n```\n").unwrap();
    let block = &code.children.as_ref().unwrap()[0];
    assert!(matches!(&block.kind, MdKind::Code(Some(l), v) if l == "rs" && v == "let a;"));
    assert!(block.children.is_none());
}

#[test]
fn text_that_is_not_ascii_is_cut_at_bytes() {
    assert_eq!(
        kinds_and_texts("\u{4e2d}\u{6587} caf\u{e9}\n\n> \u{e9}t\u{e9}\n"),
        vec![
            (PghType::Text, "\u{4e2d}\u{6587} caf\u{e9}".to_string()),
            (PghType::BlockLine, ">\u{e9}t\u{e9}".to_string()),
        ]
    );
}
