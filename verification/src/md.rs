//! From markdown text to paragraphs: the blocks at the top of the tree
//! that the `markdown` crate reads become text, quote, table and code
//! paragraphs.

use crate::pgh::{PghModel, PghType, PghView, TableInfo};
use crate::segment::{PghSegment, SegModel};
use crate::md_tree::{
    gfm_tree, gfm_tree_of, lemma_children, node_source, opt_view, source_between, text_values,
    node_models, texts_outside_links, MdKind, MdKindModel, MdNode, MdNodeModel,
};
use crate::mem::{replace_text, replaced};
use crate::pgh_select::{byte_column, chars_within};
use crate::regex_call::{regex_find_all, regex_spans, regex_valid};
use crate::strings::{
    char_count, concat_all, concat_texts, lemma_texts_push, split_lines, split_on, sub_text,
    text_concat, text_range, texts,
};
use crate::table::{lemma_grid_index, lemma_grid_row_start};
use vstd::prelude::*;
use vstd::string::*;

verus! {

/// A block at the top of a markdown text, with the source texts that the
/// paragraphs are made from. A source text is missing where a node has no
/// place, or one that does not lie in the text between two characters.
#[derive(Debug)]
pub enum MdBlock {
    /// A paragraph, or any block not named below: its source text.
    Text(Option<String>),
    /// A list: the source text of each item.
    List(Vec<Option<String>>),
    /// A block quote: the source text of its first child, if it has one.
    Quote(Option<Option<String>>),
    /// A table; its cells are read apart.
    Table,
    /// A code block: its language and its content.
    Code(Option<String>, String),
}

pub enum MdBlockModel {
    Text(Option<Seq<char>>),
    List(Seq<Option<Seq<char>>>),
    Quote(Option<Option<Seq<char>>>),
    Table,
    Code(Option<Seq<char>>, Seq<char>),
}

/// A cell of a parsed table: the source text of its first child. The
/// outer option is empty for a cell without children, the inner one for a
/// child without a source text.
pub type MdCell = Option<Option<String>>;

pub type MdCellModel = Option<Option<Seq<char>>>;

/// A row of a parsed table: its cells, where it has children.
pub type MdRow = Option<Vec<MdCell>>;

pub type MdRowModel = Option<Seq<MdCellModel>>;

pub open spec fn cell_view(o: MdCell) -> MdCellModel {
    match o {
        Some(s) => Some(opt_view(s)),
        None => None,
    }
}

pub open spec fn row_view(o: MdRow) -> MdRowModel {
    match o {
        Some(cells) => Some(Seq::new(cells.len() as nat, |i: int| cell_view(cells[i]))),
        None => None,
    }
}

pub open spec fn rows_view(o: Option<Vec<MdRow>>) -> Option<Seq<MdRowModel>> {
    match o {
        Some(rows) => Some(Seq::new(rows.len() as nat, |i: int| row_view(rows[i]))),
        None => None,
    }
}

impl View for MdBlock {
    type V = MdBlockModel;

    open spec fn view(&self) -> MdBlockModel {
        match *self {
            MdBlock::Text(s) => MdBlockModel::Text(opt_view(s)),
            MdBlock::List(items) => MdBlockModel::List(
                Seq::new(items.len() as nat, |i: int| opt_view(items[i])),
            ),
            MdBlock::Quote(s) => MdBlockModel::Quote(cell_view(s)),
            MdBlock::Table => MdBlockModel::Table,
            MdBlock::Code(lang, value) => MdBlockModel::Code(opt_view(lang), value@),
        }
    }
}

/// The cell that a node of a table row gives: the source text of its
/// first child.
pub open spec fn cell_model(text: Seq<char>, c: MdNodeModel) -> MdCellModel {
    match c.children {
        Some(cs) => if cs.len() > 0 {
            Some(node_source(text, cs[0]))
        } else {
            None
        },
        None => None,
    }
}

/// The row that a node of a table gives: the cells of its children.
pub open spec fn row_model(text: Seq<char>, r: MdNodeModel) -> MdRowModel {
    match r.children {
        Some(cs) => Some(Seq::new(cs.len(), |i: int| cell_model(text, cs[i]))),
        None => None,
    }
}

/// The rows of a node that is a table, one for each child.
pub open spec fn rows_model(text: Seq<char>, n: MdNodeModel) -> Option<Seq<MdRowModel>> {
    if n.kind is Table {
        Some(
            match n.children {
                Some(rs) => Seq::new(rs.len(), |i: int| row_model(text, rs[i])),
                None => Seq::empty(),
            },
        )
    } else {
        None
    }
}

/// The block that a node at the top of a tree gives. A list gives the
/// source text of each child, a block quote that of its first child, a
/// code block its language and content, and a node of another kind its
/// own source text.
pub open spec fn block_model(text: Seq<char>, n: MdNodeModel) -> MdBlockModel {
    match n.kind {
        MdKindModel::List => MdBlockModel::List(
            match n.children {
                Some(cs) => Seq::new(cs.len(), |i: int| node_source(text, cs[i])),
                None => Seq::empty(),
            },
        ),
        MdKindModel::Quote => MdBlockModel::Quote(cell_model(text, n)),
        MdKindModel::Table => MdBlockModel::Table,
        MdKindModel::Code(lang, value) => MdBlockModel::Code(lang, value),
        _ => MdBlockModel::Text(node_source(text, n)),
    }
}

/// The texts of the first `n` cells of a row that have a child, in order;
/// a child without a source text gives the empty text.
pub open spec fn row_texts(cells: Seq<MdCellModel>, n: int) -> Seq<Seq<char>>
    decreases n,
{
    if n <= 0 || n > cells.len() {
        Seq::empty()
    } else {
        let rest = row_texts(cells, n - 1);
        match cells[n - 1] {
            Some(Some(t)) => rest.push(t),
            Some(None) => rest.push(Seq::empty()),
            None => rest,
        }
    }
}

/// The cell texts of the first `n` rows that have children.
pub open spec fn table_data(rows: Seq<MdRowModel>, n: int) -> Seq<Seq<Seq<char>>>
    decreases n,
{
    if n <= 0 || n > rows.len() {
        Seq::empty()
    } else {
        let rest = table_data(rows, n - 1);
        match rows[n - 1] {
            Some(cells) => rest.push(row_texts(cells, cells.len() as int)),
            None => rest,
        }
    }
}

/// The length of the longest of the first `n` rows.
pub open spec fn longest_row(data: Seq<Seq<Seq<char>>>, n: int) -> int
    decreases n,
{
    if n <= 0 || n > data.len() {
        0
    } else {
        let rest = longest_row(data, n - 1);
        if data[n - 1].len() > rest {
            data[n - 1].len() as int
        } else {
            rest
        }
    }
}

/// The table paragraph of parsed rows: as many columns as the longest row
/// has cells, shorter rows filled up with empty cells.
pub open spec fn table_model(rows: Seq<MdRowModel>) -> PghModel {
    let data = table_data(rows, rows.len() as int);
    let cols = longest_row(data, data.len() as int);
    PghModel {
        pgh_type: PghType::Table,
        segs: Seq::new(
            (data.len() * cols) as nat,
            |k: int|
                SegModel::of_text(
                    if cols > 0 && k % cols < data[k / cols].len() {
                        data[k / cols][k % cols]
                    } else {
                        Seq::empty()
                    },
                ),
        ),
        table_info: Some(
            TableInfo { row_count: data.len() as usize, col_count: cols as usize, has_frame: true },
        ),
        code_lang: None,
    }
}

/// A paragraph of the given kind with one text segment.
pub open spec fn line_model(pgh_type: PghType, t: Seq<char>) -> PghModel {
    PghModel { pgh_type, segs: seq![SegModel::of_text(t)], table_info: None, code_lang: None }
}

/// A text without its line feeds.
pub open spec fn unbroken(t: Seq<char>) -> Seq<char> {
    concat_all(split_on(t, '\n'))
}

/// The text paragraphs of the first `n` items of a list.
pub open spec fn list_paragraphs(items: Seq<Option<Seq<char>>>, n: int) -> Seq<PghModel>
    decreases n,
{
    if n <= 0 || n > items.len() {
        Seq::empty()
    } else {
        let rest = list_paragraphs(items, n - 1);
        match items[n - 1] {
            Some(t) => rest.push(line_model(PghType::Text, unbroken(t))),
            None => rest,
        }
    }
}

/// A line of a block quote, with the quote mark put in front where it
/// has none.
pub open spec fn quote_line(t: Seq<char>) -> Seq<char> {
    if t.len() > 0 && t[0] == '>' {
        t
    } else {
        ">"@ + t
    }
}

/// The paragraphs of the first `n` lines of a block quote.
pub open spec fn quote_paragraphs(lines: Seq<Seq<char>>, n: int) -> Seq<PghModel>
    decreases n,
{
    if n <= 0 || n > lines.len() {
        Seq::empty()
    } else {
        quote_paragraphs(lines, n - 1).push(line_model(PghType::BlockLine, quote_line(lines[n - 1])))
    }
}

/// A code paragraph with one text segment for each line.
pub open spec fn code_model(lang: Option<Seq<char>>, lines: Seq<Seq<char>>) -> PghModel {
    PghModel {
        pgh_type: PghType::Code,
        segs: Seq::new(lines.len(), |i: int| SegModel::of_text(lines[i])),
        table_info: None,
        code_lang: lang,
    }
}

/// The paragraphs that a block becomes. `rows` are the rows of the block
/// where it is a table; a table without a column becomes an empty text
/// paragraph.
pub open spec fn block_paragraphs(b: MdBlockModel, rows: Option<Seq<MdRowModel>>) -> Seq<PghModel> {
    match b {
        MdBlockModel::Text(Some(t)) => seq![line_model(PghType::Text, unbroken(t))],
        MdBlockModel::Text(None) => Seq::empty(),
        MdBlockModel::List(items) => list_paragraphs(items, items.len() as int),
        MdBlockModel::Quote(None) => seq![line_model(PghType::BlockLine, ">"@)],
        MdBlockModel::Quote(Some(child)) => {
            let lines = split_on(
                match child {
                    Some(t) => t,
                    None => Seq::empty(),
                },
                '\n',
            );
            quote_paragraphs(lines, lines.len() as int)
        },
        MdBlockModel::Table => match rows {
            Some(r) => if table_model(r).wf() {
                seq![table_model(r)]
            } else {
                seq![line_model(PghType::Text, Seq::empty())]
            },
            None => seq![line_model(PghType::Text, Seq::empty())],
        },
        MdBlockModel::Code(lang, value) => seq![code_model(lang, split_on(value, '\n'))],
    }
}

/// The models of a sequence of paragraphs.
pub open spec fn pgh_models(v: Seq<PghView>) -> Seq<PghModel> {
    Seq::new(v.len(), |i: int| v[i]@)
}

pub proof fn lemma_pgh_models_push(v: Seq<PghView>, p: PghView)
    ensures
        pgh_models(v.push(p)) == pgh_models(v).push(p@),
{
    assert(pgh_models(v.push(p)) =~= pgh_models(v).push(p@));
}

/// The paragraphs that a node at the top of a tree becomes.
pub open spec fn node_paragraphs(text: Seq<char>, n: MdNodeModel) -> Seq<PghModel> {
    block_paragraphs(block_model(text, n), rows_model(text, n))
}

/// The paragraphs of the first `n` of the nodes at the top of a tree.
pub open spec fn nodes_paragraphs(text: Seq<char>, nodes: Seq<MdNodeModel>, n: int) -> Seq<
    PghModel,
>
    decreases n,
{
    if n <= 0 || n > nodes.len() {
        Seq::empty()
    } else {
        nodes_paragraphs(text, nodes, n - 1) + node_paragraphs(text, nodes[n - 1])
    }
}

/// The paragraphs of a tree: those of the children of its root.
pub open spec fn tree_paragraphs(text: Seq<char>, root: MdNodeModel) -> Seq<PghModel> {
    match root.children {
        Some(cs) => nodes_paragraphs(text, cs, cs.len() as int),
        None => Seq::empty(),
    }
}

/// A text with a line feed for each carriage return followed by a line
/// feed.
pub open spec fn unix_lines(text: Seq<char>) -> Seq<char> {
    replaced(text, "\r\n"@, "\n"@)
}

/// The paragraphs of a text, with its line ends made line feeds. Read as
/// markdown, they are the paragraphs of its blocks; otherwise each line is
/// a text paragraph. A text that gives no paragraph gives one empty text
/// paragraph.
pub open spec fn text_paragraphs(raw: Seq<char>, is_markdown: bool) -> Seq<PghModel> {
    let text = unix_lines(raw);
    let found = if is_markdown {
        match gfm_tree_of(text) {
            Some(root) => tree_paragraphs(text, root),
            None => Seq::empty(),
        }
    } else {
        let lines = split_on(text, '\n');
        Seq::new(lines.len(), |i: int| line_model(PghType::Text, lines[i]))
    };
    if found.len() == 0 {
        seq![line_model(PghType::Text, Seq::empty())]
    } else {
        found
    }
}

/// The table that the first node of a tree gives, where it is a table
/// with at least one column.
pub open spec fn first_table(text: Seq<char>, root: MdNodeModel) -> Option<PghModel> {
    match root.children {
        Some(cs) => if cs.len() > 0 {
            match rows_model(text, cs[0]) {
                Some(rows) => if table_model(rows).wf() {
                    Some(table_model(rows))
                } else {
                    None
                },
                None => None,
            }
        } else {
            None
        },
        None => None,
    }
}

/// The table that a text gives where it starts with a bar and, with its
/// line ends made line feeds, its first block is a table with at least
/// one column.
pub open spec fn leading_table(raw: Seq<char>) -> Option<PghModel> {
    let text = unix_lines(raw);
    if raw.len() > 0 && raw[0] == '|' {
        match gfm_tree_of(text) {
            Some(root) => first_table(text, root),
            None => None,
        }
    } else {
        None
    }
}

/// A paragraph of the given kind with one text segment.
pub fn new_line(pgh_type: PghType, s: String) -> (r: PghView)
    ensures
        r@ == line_model(pgh_type, s@),
        r@.wf(),
{
    let mut p = PghView::new(pgh_type);
    p.push_text(s);
    proof {
        assert(p@.segs =~= seq![SegModel::of_text(s@)]);
    }
    p
}

/// A text without its line feeds.
pub fn strip_line_feeds(s: &str) -> (r: String)
    ensures
        r@ == unbroken(s@),
{
    let pieces = split_lines(s);
    concat_texts(&pieces)
}

/// The texts of the cells of a row that have a child.
fn row_cell_texts(cells: &Vec<MdCell>) -> (r: Vec<String>)
    ensures
        texts(r@) == row_texts(row_view(Some(*cells))->0, cells.len() as int),
{
    let ghost model = row_view(Some(*cells))->0;
    let mut out: Vec<String> = Vec::new();
    let mut i: usize = 0;
    while i < cells.len()
        invariant
            0 <= i <= cells.len(),
            model == row_view(Some(*cells))->0,
            texts(out@) =~= row_texts(model, i as int),
        decreases cells.len() - i,
    {
        proof {
            assert(model[i as int] == cell_view(cells[i as int]));
        }
        match &cells[i] {
            Some(Some(t)) => {
                let s = t.clone();
                proof {
                    lemma_texts_push(out@, s);
                }
                out.push(s);
            },
            Some(None) => {
                let s = String::new();
                proof {
                    lemma_texts_push(out@, s);
                }
                out.push(s);
            },
            None => {},
        }
        i += 1;
    }
    out
}

/// The table paragraph of parsed rows.
#[verifier::rlimit(50)]
pub fn table_from_rows(rows: &Vec<MdRow>) -> (r: PghView)
    ensures
        r@ == table_model(rows_view(Some(*rows))->0),
        r.table_info matches Some(t) && t.row_count * t.col_count == r.pgh.len(),
{
    let ghost model = rows_view(Some(*rows))->0;
    let mut data: Vec<Vec<String>> = Vec::new();
    let mut cols: usize = 0;
    let mut i: usize = 0;
    while i < rows.len()
        invariant
            0 <= i <= rows.len(),
            model == rows_view(Some(*rows))->0,
            data.len() == table_data(model, i as int).len(),
            forall|k: int| 0 <= k < data.len() ==> texts((#[trigger] data[k])@) == table_data(model, i as int)[k],
            cols == longest_row(table_data(model, i as int), data.len() as int),
        decreases rows.len() - i,
    {
        proof {
            assert(model[i as int] == row_view(rows[i as int]));
        }
        match &rows[i] {
            Some(cells) => {
                let row = row_cell_texts(cells);
                let ghost before = table_data(model, i as int);
                let ghost after = table_data(model, i + 1);
                proof {
                    assert(after == before.push(texts(row@)));
                    assert(after.drop_last() =~= before);
                    lemma_longest_row_prefix(after, before.len() as int);
                    assert(texts(row@).len() == row.len());
                }
                if row.len() > cols {
                    cols = row.len();
                }
                data.push(row);
            },
            None => {},
        }
        i += 1;
    }
    let ghost all = table_data(model, rows.len() as int);
    let ghost goal = table_model(model);
    let mut p = PghView::new_table();
    let mut r: usize = 0;
    proof {
        assert(p@.segs.len() == p.pgh@.len());
        assert(0 * cols == 0);
    }
    while r < data.len()
        invariant
            all == table_data(model, model.len() as int),
            goal == table_model(model),
            data.len() == all.len(),
            forall|k: int| 0 <= k < data.len() ==> texts((#[trigger] data[k])@) == all[k],
            cols == longest_row(all, all.len() as int),
            0 <= r <= data.len(),
            p.pgh.len() == r * cols,
            p.pgh_type == PghType::Table,
            p.table_info is None,
            p.code_lang is None,
            forall|k: int| 0 <= k < p.pgh.len() ==> (#[trigger] p.pgh@[k])@ == goal.segs[k],
        decreases data.len() - r,
    {
        let mut c: usize = 0;
        while c < cols
            invariant
                all == table_data(model, model.len() as int),
                goal == table_model(model),
                data.len() == all.len(),
                forall|k: int| 0 <= k < data.len() ==> texts((#[trigger] data[k])@) == all[k],
                cols == longest_row(all, all.len() as int),
                0 <= r < data.len(),
                0 <= c <= cols,
                p.pgh.len() == r * cols + c,
                p.pgh_type == PghType::Table,
                p.table_info is None,
                p.code_lang is None,
                forall|k: int| 0 <= k < p.pgh.len() ==> (#[trigger] p.pgh@[k])@ == goal.segs[k],
            decreases cols - c,
        {
            proof {
                lemma_grid_index(r as int, c as int, cols as int);
                lemma_grid_row_start(r as int + 1, data.len() as int, cols as int);
                assert(texts(data[r as int]@) == all[r as int]);
                assert(texts(data[r as int]@).len() == data[r as int].len());
            }
            let s = if c < data[r].len() {
                proof {
                    assert(texts(data[r as int]@)[c as int] == data[r as int]@[c as int]@);
                }
                data[r][c].clone()
            } else {
                String::new()
            };
            let seg = PghSegment::new_text(s);
            proof {
                assert(seg@ == goal.segs[p.pgh.len() as int]);
            }
            p.pgh.push(seg);
            c += 1;
        }
        proof {
            assert((r + 1) * cols == r * cols + cols) by (nonlinear_arith);
        }
        r += 1;
    }
    p.table_info = Some(TableInfo { row_count: data.len(), col_count: cols, has_frame: true });
    proof {
        assert(p@.segs =~= goal.segs);
    }
    p
}

pub proof fn lemma_longest_row_prefix(data: Seq<Seq<Seq<char>>>, n: int)
    requires
        0 <= n <= data.len(),
    ensures
        longest_row(data, n) == longest_row(data.take(n), n),
    decreases n,
{
    if n > 0 {
        lemma_longest_row_prefix(data, n - 1);
        lemma_longest_row_prefix(data.take(n), n - 1);
        assert(data.take(n).take(n - 1) =~= data.take(n - 1));
    }
}

/// The text paragraphs of the items of a list.
fn paragraphs_of_list(items: &Vec<Option<String>>) -> (r: Vec<PghView>)
    ensures
        pgh_models(r@) == list_paragraphs(
            Seq::new(items.len() as nat, |i: int| opt_view(items[i])),
            items.len() as int,
        ),
        forall|i: int| 0 <= i < r.len() ==> (#[trigger] r[i])@.wf(),
{
    let ghost model = Seq::new(items.len() as nat, |i: int| opt_view(items[i]));
    let mut out: Vec<PghView> = Vec::new();
    let mut i: usize = 0;
    while i < items.len()
        invariant
            0 <= i <= items.len(),
            model == Seq::new(items.len() as nat, |i: int| opt_view(items[i])),
            pgh_models(out@) =~= list_paragraphs(model, i as int),
            forall|k: int| 0 <= k < out.len() ==> (#[trigger] out[k])@.wf(),
        decreases items.len() - i,
    {
        proof {
            assert(model[i as int] == opt_view(items[i as int]));
        }
        match &items[i] {
            Some(t) => {
                let p = new_line(PghType::Text, strip_line_feeds(t.as_str()));
                proof {
                    lemma_pgh_models_push(out@, p);
                }
                out.push(p);
            },
            None => {},
        }
        i += 1;
    }
    out
}

/// The paragraphs of the lines of a block quote.
fn paragraphs_of_quote(child: &str) -> (r: Vec<PghView>)
    ensures
        pgh_models(r@) == quote_paragraphs(
            split_on(child@, '\n'),
            split_on(child@, '\n').len() as int,
        ),
        forall|i: int| 0 <= i < r.len() ==> (#[trigger] r[i])@.wf(),
{
    let lines = split_lines(child);
    let mut out: Vec<PghView> = Vec::new();
    let mut i: usize = 0;
    while i < lines.len()
        invariant
            0 <= i <= lines.len(),
            texts(lines@) == split_on(child@, '\n'),
            pgh_models(out@) =~= quote_paragraphs(texts(lines@), i as int),
            forall|k: int| 0 <= k < out.len() ==> (#[trigger] out[k])@.wf(),
        decreases lines.len() - i,
    {
        let line = lines[i].as_str();
        proof {
            assert(texts(lines@)[i as int] == line@);
        }
        let marked = if char_count(line) > 0 && line.get_char(0) == '>' {
            lines[i].clone()
        } else {
            text_concat(">", line)
        };
        let p = new_line(PghType::BlockLine, marked);
        proof {
            lemma_pgh_models_push(out@, p);
        }
        out.push(p);
        i += 1;
    }
    proof {
        assert(texts(lines@).len() == lines.len());
    }
    out
}

/// A code paragraph with one text segment for each line of `value`.
fn code_paragraph(lang: &Option<String>, value: &str) -> (r: PghView)
    ensures
        r@ == code_model(opt_view(*lang), split_on(value@, '\n')),
        r@.wf(),
{
    let lines = split_lines(value);
    let mut p = PghView::new_code();
    p.code_lang = match lang {
        Some(l) => Some(l.clone()),
        None => None,
    };
    let mut i: usize = 0;
    proof {
        assert(p@.segs.len() == p.pgh@.len());
    }
    while i < lines.len()
        invariant
            0 <= i <= lines.len(),
            texts(lines@) == split_on(value@, '\n'),
            p.pgh_type == PghType::Code,
            p.table_info is None,
            crate::pgh::opt_text(p.code_lang) == opt_view(*lang),
            p@.segs =~= Seq::new(i as nat, |k: int| SegModel::of_text(texts(lines@)[k])),
        decreases lines.len() - i,
    {
        proof {
            assert(texts(lines@)[i as int] == lines[i as int]@);
        }
        p.push_text(lines[i].clone());
        i += 1;
    }
    proof {
        assert(texts(lines@).len() == lines.len());
        assert(p@.segs =~= code_model(opt_view(*lang), split_on(value@, '\n')).segs);
    }
    p
}

/// The paragraphs that a block becomes; `rows` are its rows where it is a
/// table.
#[verifier::rlimit(50)]
pub fn paragraphs_of_block(block: &MdBlock, rows: &Option<Vec<MdRow>>) -> (r: Vec<PghView>)
    ensures
        pgh_models(r@) == block_paragraphs(block@, rows_view(*rows)),
        forall|i: int| 0 <= i < r.len() ==> (#[trigger] r[i])@.wf(),
{
    let mut out: Vec<PghView> = Vec::new();
    match block {
        MdBlock::Text(Some(t)) => {
            let p = new_line(PghType::Text, strip_line_feeds(t.as_str()));
            out.push(p);
            proof {
                assert(pgh_models(out@) =~= seq![p@]);
            }
            out
        },
        MdBlock::Text(None) => {
            proof {
                assert(pgh_models(out@) =~= Seq::<PghModel>::empty());
            }
            out
        },
        MdBlock::List(items) => paragraphs_of_list(items),
        MdBlock::Quote(None) => {
            let p = new_line(PghType::BlockLine, String::from_str(">"));
            out.push(p);
            proof {
                assert(pgh_models(out@) =~= seq![p@]);
            }
            out
        },
        MdBlock::Quote(Some(child)) => match child {
            Some(t) => paragraphs_of_quote(t.as_str()),
            None => {
                let empty = String::new();
                paragraphs_of_quote(empty.as_str())
            },
        },
        MdBlock::Table => {
            let p = match rows {
                Some(r) => {
                    let t = table_from_rows(r);
                    let usable = match t.table_info {
                        Some(info) => info.col_count >= 1,
                        None => false,
                    };
                    if usable {
                        t
                    } else {
                        new_line(PghType::Text, String::new())
                    }
                },
                None => new_line(PghType::Text, String::new()),
            };
            out.push(p);
            proof {
                assert(pgh_models(out@) =~= seq![p@]);
            }
            out
        },
        MdBlock::Code(lang, value) => {
            let p = code_paragraph(lang, value.as_str());
            out.push(p);
            proof {
                assert(pgh_models(out@) =~= seq![p@]);
            }
            out
        },
    }
}

/// The source text of a node.
pub fn source_of(text: &str, n: &MdNode) -> (r: Option<String>)
    ensures
        opt_view(r) == node_source(text@, n@),
{
    match n.span {
        Some(s) => source_between(text, s.start, s.end),
        None => None,
    }
}

/// The cell that a node of a table row gives.
pub fn cell_of(text: &str, c: &MdNode) -> (r: MdCell)
    ensures
        cell_view(r) == cell_model(text@, c@),
{
    proof {
        lemma_children(*c);
    }
    match &c.children {
        Some(cs) => if cs.len() > 0 {
            Some(source_of(text, &cs[0]))
        } else {
            None
        },
        None => None,
    }
}

/// The row that a node of a table gives.
pub fn row_of(text: &str, row: &MdNode) -> (r: MdRow)
    ensures
        row_view(r) == row_model(text@, row@),
{
    proof {
        lemma_children(*row);
    }
    match &row.children {
        Some(cs) => {
            let mut out: Vec<MdCell> = Vec::new();
            let mut i: usize = 0;
            while i < cs.len()
                invariant
                    0 <= i <= cs.len(),
                    out.len() == i,
                    forall|k: int|
                        0 <= k < i ==> cell_view(#[trigger] out[k]) == cell_model(text@, cs[k]@),
                decreases cs.len() - i,
            {
                out.push(cell_of(text, &cs[i]));
                i += 1;
            }
            proof {
                assert(row_view(Some(out))->0 =~= row_model(text@, row@)->0);
            }
            Some(out)
        },
        None => None,
    }
}

/// The rows of a node, where it is a table.
pub fn rows_of(text: &str, n: &MdNode) -> (r: Option<Vec<MdRow>>)
    ensures
        rows_view(r) == rows_model(text@, n@),
{
    proof {
        lemma_children(*n);
    }
    match &n.kind {
        MdKind::Table => {},
        _ => {
            return None;
        },
    }
    let mut out: Vec<MdRow> = Vec::new();
    match &n.children {
        Some(rs) => {
            let mut i: usize = 0;
            while i < rs.len()
                invariant
                    0 <= i <= rs.len(),
                    out.len() == i,
                    forall|k: int|
                        0 <= k < i ==> row_view(#[trigger] out[k]) == row_model(text@, rs[k]@),
                decreases rs.len() - i,
            {
                out.push(row_of(text, &rs[i]));
                i += 1;
            }
        },
        None => {},
    }
    proof {
        assert(rows_view(Some(out))->0 =~= rows_model(text@, n@)->0);
    }
    Some(out)
}

/// The block that a node at the top of a tree gives.
pub fn block_of(text: &str, n: &MdNode) -> (r: MdBlock)
    ensures
        r@ == block_model(text@, n@),
{
    proof {
        lemma_children(*n);
    }
    match &n.kind {
        MdKind::List => {
            let mut out: Vec<Option<String>> = Vec::new();
            match &n.children {
                Some(cs) => {
                    let mut i: usize = 0;
                    while i < cs.len()
                        invariant
                            0 <= i <= cs.len(),
                            out.len() == i,
                            forall|k: int|
                                0 <= k < i ==> opt_view(#[trigger] out[k]) == node_source(
                                    text@,
                                    cs[k]@,
                                ),
                        decreases cs.len() - i,
                    {
                        out.push(source_of(text, &cs[i]));
                        i += 1;
                    }
                },
                None => {},
            }
            let r = MdBlock::List(out);
            proof {
                assert(r@->List_0 =~= block_model(text@, n@)->List_0);
            }
            r
        },
        MdKind::Quote => MdBlock::Quote(cell_of(text, n)),
        MdKind::Table => MdBlock::Table,
        MdKind::Code(lang, value) => MdBlock::Code(
            match lang {
                Some(l) => Some(l.clone()),
                None => None,
            },
            value.clone(),
        ),
        _ => MdBlock::Text(source_of(text, n)),
    }
}

/// The paragraphs of the nodes at the top of a tree.
pub fn paragraphs_of_nodes(text: &str, nodes: &Vec<MdNode>) -> (r: Vec<PghView>)
    ensures
        pgh_models(r@) == nodes_paragraphs(text@, node_models(nodes@), nodes.len() as int),
        forall|i: int| 0 <= i < r.len() ==> (#[trigger] r[i])@.wf(),
{
    let ghost model = node_models(nodes@);
    let mut out: Vec<PghView> = Vec::new();
    let mut i: usize = 0;
    while i < nodes.len()
        invariant
            0 <= i <= nodes.len(),
            model == node_models(nodes@),
            pgh_models(out@) =~= nodes_paragraphs(text@, model, i as int),
            forall|k: int| 0 <= k < out.len() ==> (#[trigger] out[k])@.wf(),
        decreases nodes.len() - i,
    {
        let block = block_of(text, &nodes[i]);
        let rows = rows_of(text, &nodes[i]);
        let mut part = paragraphs_of_block(&block, &rows);
        proof {
            assert(model[i as int] == nodes[i as int]@);
            assert(pgh_models(out@ + part@) =~= pgh_models(out@) + pgh_models(part@));
        }
        out.append(&mut part);
        i += 1;
    }
    out
}

/// The paragraphs of a tree.
pub fn paragraphs_of_tree(text: &str, root: &MdNode) -> (r: Vec<PghView>)
    ensures
        pgh_models(r@) == tree_paragraphs(text@, root@),
        forall|i: int| 0 <= i < r.len() ==> (#[trigger] r[i])@.wf(),
{
    proof {
        lemma_children(*root);
    }
    match &root.children {
        Some(cs) => {
            proof {
                assert(root@.children->0 =~= node_models(cs@));
            }
            paragraphs_of_nodes(text, cs)
        },
        None => {
            let out: Vec<PghView> = Vec::new();
            proof {
                assert(pgh_models(out@) =~= Seq::<PghModel>::empty());
            }
            out
        },
    }
}

/// The table that the first node of a tree gives.
pub fn table_of_tree(text: &str, root: &MdNode) -> (r: Option<PghView>)
    ensures
        crate::undo::opt_pgh(r) == first_table(text@, root@),
        r matches Some(p) ==> p@.wf() && p.table_info is Some,
{
    proof {
        lemma_children(*root);
    }
    let first = match &root.children {
        Some(cs) => if cs.len() > 0 {
            &cs[0]
        } else {
            return None;
        },
        None => {
            return None;
        },
    };
    let rows = match rows_of(text, first) {
        Some(r) => r,
        None => {
            return None;
        },
    };
    let t = table_from_rows(&rows);
    let usable = match t.table_info {
        Some(info) => info.col_count >= 1,
        None => false,
    };
    if usable {
        Some(t)
    } else {
        None
    }
}

/// The paragraphs of a text: of its markdown blocks, or one text
/// paragraph for each line; never none.
#[verifier::rlimit(50)]
pub fn markdown_to_pgh_texts(raw: &str, is_markdown: bool) -> (r: Vec<PghView>)
    ensures
        pgh_models(r@) == text_paragraphs(raw@, is_markdown),
        r.len() >= 1,
        forall|i: int| 0 <= i < r.len() ==> (#[trigger] r[i])@.wf(),
{
    let unix = replace_text(raw, "\r\n", "\n");
    let text = unix.as_str();
    let mut out: Vec<PghView> = if is_markdown {
        match gfm_tree(text) {
            Some(root) => paragraphs_of_tree(text, &root),
            None => Vec::new(),
        }
    } else {
        let lines = split_lines(text);
        let mut v: Vec<PghView> = Vec::new();
        let mut i: usize = 0;
        while i < lines.len()
            invariant
                0 <= i <= lines.len(),
                texts(lines@) == split_on(text@, '\n'),
                pgh_models(v@) =~= Seq::new(
                    i as nat,
                    |k: int| line_model(PghType::Text, texts(lines@)[k]),
                ),
                forall|k: int| 0 <= k < v.len() ==> (#[trigger] v[k])@.wf(),
            decreases lines.len() - i,
        {
            proof {
                assert(texts(lines@)[i as int] == lines[i as int]@);
            }
            let p = new_line(PghType::Text, lines[i].clone());
            proof {
                lemma_pgh_models_push(v@, p);
            }
            v.push(p);
            i += 1;
        }
        proof {
            assert(texts(lines@).len() == lines.len());
            assert(pgh_models(v@) =~= Seq::new(
                split_on(text@, '\n').len(),
                |k: int| line_model(PghType::Text, split_on(text@, '\n')[k]),
            ));
        }
        v
    };
    proof {
        assert(pgh_models(out@).len() == out.len());
    }
    if out.len() == 0 {
        let p = new_line(PghType::Text, String::new());
        out.push(p);
        proof {
            assert(pgh_models(out@) =~= seq![p@]);
        }
    }
    out
}

/// The table paragraph that a text gives, if it starts with a bar and
/// reads as a markdown table.
pub fn check_to_table_pghview(s: &str) -> (r: Option<PghView>)
    ensures
        crate::undo::opt_pgh(r) == leading_table(s@),
        r matches Some(p) ==> p@.wf() && p.table_info is Some,
{
    if char_count(s) == 0 || s.get_char(0) != '|' {
        return None;
    }
    let unix = replace_text(s, "\r\n", "\n");
    match gfm_tree(unix.as_str()) {
        Some(root) => table_of_tree(unix.as_str(), &root),
        None => None,
    }
}

/// The pattern of a link between notes: a name in double brackets, as
/// short as can be.
pub open spec fn note_link_pattern() -> Seq<char> {
    "\\[\\[(.*?)\\]\\]"@
}

/// What lies in a text between two bytes inside the bytes `start` and
/// `end`: the name of a link that stands from `start` up to `end`.
pub open spec fn link_name(value: Seq<char>, start: usize, end: usize) -> Seq<char> {
    sub_text(value, chars_within(value, start + 2), chars_within(value, end - 2))
}

/// The names of the first `n` links that stand at `spans` in a text.
pub open spec fn link_names(value: Seq<char>, spans: Seq<(usize, usize)>, n: int) -> Seq<Seq<char>>
    decreases n,
{
    if n <= 0 || n > spans.len() {
        Seq::empty()
    } else {
        link_names(value, spans, n - 1).push(link_name(value, spans[n - 1].0, spans[n - 1].1))
    }
}

/// The names of the links in the first `n` of `values`.
pub open spec fn links_in(values: Seq<Seq<char>>, n: int) -> Seq<Seq<char>>
    decreases n,
{
    if n <= 0 || n > values.len() {
        Seq::empty()
    } else {
        let spans = regex_spans(note_link_pattern(), false, values[n - 1]);
        links_in(values, n - 1) + link_names(values[n - 1], spans, spans.len() as int)
    }
}

/// The names of the links in the text values of a tree.
pub open spec fn tree_links(values: Seq<Seq<char>>) -> Seq<Seq<char>> {
    if regex_valid(note_link_pattern(), false) {
        links_in(values, values.len() as int)
    } else {
        Seq::empty()
    }
}

/// The notes that a markdown text links to: the names in double brackets
/// in its text nodes outside links, in the order of the text.
pub open spec fn note_links(raw: Seq<char>) -> Seq<Seq<char>> {
    match gfm_tree_of(unix_lines(raw)) {
        Some(root) => tree_links(texts_outside_links(root)),
        None => Seq::empty(),
    }
}

/// The names of the links that stand at `spans` in a text.
pub fn names_at(value: &str, spans: &Vec<(usize, usize)>) -> (r: Vec<String>)
    ensures
        texts(r@) == link_names(value@, spans@, spans.len() as int),
{
    let mut out: Vec<String> = Vec::new();
    let mut i: usize = 0;
    let total = value.as_bytes().len();
    proof {
        assert(value.spec_bytes() == vstd::utf8::encode_utf8(value@));
    }
    while i < spans.len()
        invariant
            0 <= i <= spans.len(),
            crate::pgh_select::utf8_size(value@) == total,
            texts(out@) =~= link_names(value@, spans@, i as int),
        decreases spans.len() - i,
    {
        let (start, end) = spans[i];
        let lo = if start <= usize::MAX - 2 {
            byte_column(value, start + 2).0
        } else {
            proof {
                crate::pgh_select::lemma_chars_within_all(value@, usize::MAX as int, start + 2);
            }
            byte_column(value, usize::MAX).0
        };
        let hi = if end >= 2 {
            byte_column(value, end - 2).0
        } else {
            proof {
                crate::pgh_select::lemma_chars_within_none(value@, end - 2);
            }
            0
        };
        let name = text_range(value, lo, hi);
        proof {
            lemma_texts_push(out@, name);
        }
        out.push(name);
        i += 1;
    }
    out
}

/// The notes that a markdown text links to.
#[verifier::rlimit(50)]
pub fn markdown_get_links(raw: &str) -> (r: Vec<String>)
    ensures
        texts(r@) == note_links(raw@),
{
    let unix = replace_text(raw, "\r\n", "\n");
    let mut links: Vec<String> = Vec::new();
    proof {
        assert(texts(links@) =~= Seq::<Seq<char>>::empty());
    }
    let values = match gfm_tree(unix.as_str()) {
        Some(root) => text_values(&root),
        None => {
            return links;
        },
    };
    let found = match regex_find_all("\\[\\[(.*?)\\]\\]", false, &values) {
        Some(f) => f,
        None => {
            return links;
        },
    };
    let mut i: usize = 0;
    proof {
        assert(texts(values@).len() == values.len());
    }
    while i < values.len()
        invariant
            0 <= i <= values.len(),
            found.len() == values.len(),
            forall|k: int|
                0 <= k < values.len() ==> (#[trigger] found[k])@ == regex_spans(
                    note_link_pattern(),
                    false,
                    values[k]@,
                ),
            texts(links@) =~= links_in(texts(values@), i as int),
        decreases values.len() - i,
    {
        proof {
            assert(texts(values@)[i as int] == values@[i as int]@);
        }
        let mut names = names_at(values[i].as_str(), &found[i]);
        proof {
            assert(texts(links@ + names@) =~= texts(links@) + texts(names@));
        }
        links.append(&mut names);
        i += 1;
    }
    links
}

} // verus!
