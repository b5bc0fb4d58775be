//! After every edit: counting the change, and turning lines that start
//! with a bar into a table where they read as one.

use crate::ctx::{Ctx, State};
use crate::cursor::Cursor;
use crate::history::{changed_state, same_word_items};
use crate::md::{check_to_table_pghview, leading_table, pgh_models};
use crate::pgh::{PghModel, PghView};
use crate::record::recorded;
use crate::strings::char_count;
use crate::undo::{doc_wf, CmdModel, DoCmd, HistoryModel};
use vstd::prelude::*;
use vstd::string::*;

verus! {

pub open spec fn starts_with_bar(t: Seq<char>) -> bool {
    t.len() > 0 && t[0] == '|'
}

/// The text of line `line`, empty where there is no such line.
pub open spec fn line_text(doc: Seq<PghModel>, line: int) -> Seq<char> {
    if 0 <= line < doc.len() {
        doc[line].text()
    } else {
        Seq::empty()
    }
}

/// The line from which lines that start with a bar are looked for: the
/// cursor's line if it starts with a bar, the line before it if the
/// cursor's line is empty.
pub open spec fn table_check_line(doc: Seq<PghModel>, c: Cursor) -> Option<int> {
    let t = line_text(doc, c.line_no as int);
    if starts_with_bar(t) {
        Some(c.line_no as int)
    } else if t.len() == 0 && c.line_no > 0 {
        Some(c.line_no - 1)
    } else {
        None
    }
}

/// The first of the lines up to `line` that all start with a bar;
/// `line + 1` where `line` does not.
pub open spec fn bar_run_start(doc: Seq<PghModel>, line: int) -> int
    decreases line + 1,
{
    if line >= 0 && starts_with_bar(line_text(doc, line)) {
        bar_run_start(doc, line - 1)
    } else {
        line + 1
    }
}

/// The first line from `line` on that does not start with a bar.
pub open spec fn bar_run_end(doc: Seq<PghModel>, line: int) -> int
    decreases doc.len() - line,
{
    if 0 <= line < doc.len() && starts_with_bar(line_text(doc, line)) {
        bar_run_end(doc, line + 1)
    } else {
        line
    }
}

/// The texts of the lines from `lo` up to but not `hi`, each followed by
/// a line feed.
pub open spec fn lines_text(doc: Seq<PghModel>, lo: int, hi: int) -> Seq<char>
    decreases hi - lo,
{
    if hi <= lo {
        Seq::empty()
    } else {
        lines_text(doc, lo, hi - 1) + line_text(doc, hi - 1) + "\n"@
    }
}

/// The lines around the cursor that start with a bar: the first of them
/// and the line behind the last.
pub open spec fn bar_lines(doc: Seq<PghModel>, c: Cursor) -> Option<(int, int)> {
    match table_check_line(doc, c) {
        Some(line) => Some((bar_run_start(doc, line), bar_run_end(doc, line + 1))),
        None => None,
    }
}

/// The table that the lines around the cursor become, with the first of
/// those lines and the line behind the last: the lines that start with a
/// bar, where together they read as a markdown table.
pub open spec fn table_conversion(doc: Seq<PghModel>, c: Cursor) -> Option<(int, int, PghModel)> {
    match bar_lines(doc, c) {
        Some(run) => match leading_table(lines_text(doc, run.0, run.1)) {
            Some(t) => Some((run.0, run.1, t)),
            None => None,
        },
        None => None,
    }
}

/// The document with the lines from `lo` up to but not `hi` replaced by
/// one paragraph.
pub open spec fn lines_replaced(doc: Seq<PghModel>, lo: int, hi: int, p: PghModel) -> Seq<PghModel> {
    doc.take(lo) + seq![p] + doc.skip(hi)
}

/// The document and the cursor after the check that follows every edit:
/// unless the cursor stands in a table, the lines around it that start
/// with a bar become a table where they read as one, and the cursor goes
/// to its start.
pub open spec fn after_change(doc: Seq<PghModel>, c: Cursor) -> (Seq<PghModel>, Cursor) {
    if c.line_no < doc.len() && doc[c.line_no as int].is_table() {
        (doc, c)
    } else {
        match table_conversion(doc, c) {
            Some(conv) => (
                lines_replaced(doc, conv.0, conv.1, conv.2),
                Cursor { line_no: conv.0 as usize, segment: 0, culumn: 0 },
            ),
            None => (doc, c),
        }
    }
}

/// Whether the check that follows an edit turns lines into a table.
pub open spec fn change_converts(doc: Seq<PghModel>, c: Cursor) -> bool {
    !(c.line_no < doc.len() && doc[c.line_no as int].is_table()) && table_conversion(doc, c)
        is Some
}

/// The table of line `line` with a row of empty cells put in as row
/// `row`, or a column as column `col`, or both; `None` where the line
/// holds no table or the row or column lies outside it.
pub open spec fn table_grown(
    doc: Seq<PghModel>,
    line: usize,
    row: Option<usize>,
    col: Option<usize>,
) -> Option<PghModel> {
    if line < doc.len() {
        match doc[line as int].table_info {
            Some(t) => if (row matches Some(r) ==> r <= t.row_count) && (col matches Some(c) ==> c
                <= t.col_count && t.col_count < usize::MAX) {
                let with_row = match row {
                    Some(r) => doc[line as int].with_row_inserted(r as int),
                    None => doc[line as int],
                };
                Some(
                    match col {
                        Some(c) => with_row.with_col_inserted(c as int),
                        None => with_row,
                    },
                )
            } else {
                None
            },
            None => None,
        }
    } else {
        None
    }
}

/// What the check that follows an edit makes of the history: where it
/// turns lines into a table, a pair of commands for that is recorded
/// behind what was applied; otherwise the history stays as it is.
pub open spec fn change_followed(mid: &Ctx, after: &Ctx) -> bool {
    if change_converts(mid.doc(), mid.state.cursor2) {
        &&& after.history().index == mid.history().index + 1
        &&& after.history().pairs.len() == mid.history().index + 1
        &&& after.history().pairs.take(mid.history().index as int) == mid.history().pairs.take(
            mid.history().index as int,
        )
        &&& recorded(
            after.doc(),
            mid.doc(),
            after.history().pairs.last().0,
            after.history().pairs.last().1,
        )
        &&& after.history().pairs.last().0.cursor == mid.state.cursor2
        &&& after.history().pairs.last().1.cursor == after_change(mid.doc(), mid.state.cursor2).1
    } else {
        after.history() == mid.history()
    }
}

pub proof fn lemma_bar_run_bounds(doc: Seq<PghModel>, line: int)
    requires
        -1 <= line,
    ensures
        0 <= bar_run_start(doc, line) <= line + 1,
        line < doc.len() ==> line <= bar_run_end(doc, line) <= doc.len(),
        line >= doc.len() ==> bar_run_end(doc, line) == line,
        bar_run_start(doc, line) <= line ==> line < doc.len(),
    decreases line + 1, doc.len() - line,
{
    if line >= 0 && starts_with_bar(line_text(doc, line)) {
        lemma_bar_run_bounds(doc, line - 1);
    }
    if 0 <= line < doc.len() && starts_with_bar(line_text(doc, line)) {
        lemma_bar_run_end_bounds(doc, line + 1);
    }
}

pub proof fn lemma_bar_run_end_bounds(doc: Seq<PghModel>, line: int)
    requires
        0 <= line <= doc.len(),
    ensures
        line <= bar_run_end(doc, line) <= doc.len(),
    decreases doc.len() - line,
{
    if line < doc.len() && starts_with_bar(line_text(doc, line)) {
        lemma_bar_run_end_bounds(doc, line + 1);
    }
}

impl Ctx {
    /// Whether line `line` starts with a bar.
    fn line_starts_with_bar(&self, line: usize) -> (b: bool)
        ensures
            b == starts_with_bar(line_text(self.doc(), line as int)),
    {
        if line < self.pgh_views.len() {
            proof {
                assert(self.doc()[line as int] == self.pgh_views[line as int]@);
            }
            let t = self.pgh_views[line].get_text();
            char_count(t.as_str()) > 0 && t.as_str().get_char(0) == '|'
        } else {
            false
        }
    }

    /// The lines around the text cursor that start with a bar.
    #[verifier::rlimit(50)]
    pub fn bar_lines_at_cursor(&self) -> (r: Option<(usize, usize)>)
        ensures
            match r {
                Some(run) => bar_lines(self.doc(), self.state.cursor2) == Some(
                    (run.0 as int, run.1 as int),
                ) && (run.0 < run.1 ==> run.1 <= self.doc().len()),
                None => bar_lines(self.doc(), self.state.cursor2) is None,
            },
    {
        let cursor = self.state.cursor2;
        let cur_text = self.get_line_text(cursor.line_no);
        let check_line = if self.line_starts_with_bar(cursor.line_no) {
            cursor.line_no
        } else if cur_text.as_str().is_empty() && cursor.line_no > 0 {
            cursor.line_no - 1
        } else {
            return None;
        };
        let len = self.pgh_views.len();
        proof {
            assert(self.doc().len() == len);
        }
        let mut lo = if check_line < usize::MAX {
            check_line + 1
        } else {
            check_line
        };
        if check_line < usize::MAX {
            while lo > 0 && self.line_starts_with_bar(lo - 1)
                invariant
                    0 <= lo <= check_line + 1,
                    bar_run_start(self.doc(), lo - 1) == bar_run_start(
                        self.doc(),
                        check_line as int,
                    ),
                decreases lo,
            {
                lo -= 1;
            }
        } else {
            proof {
                assert(!starts_with_bar(line_text(self.doc(), check_line as int)));
            }
        }
        let mut hi = if check_line < usize::MAX {
            check_line + 1
        } else {
            check_line
        };
        proof {
            lemma_bar_run_bounds(self.doc(), check_line as int);
            if check_line == usize::MAX {
                assert(bar_run_end(self.doc(), check_line + 1) == check_line + 1);
            }
        }
        if check_line == usize::MAX {
            return None;
        }
        while hi < len && self.line_starts_with_bar(hi)
            invariant
                len == self.doc().len(),
                check_line + 1 <= hi,
                hi <= len || hi == check_line + 1,
                bar_run_end(self.doc(), hi as int) == bar_run_end(self.doc(), check_line + 1),
            decreases len - hi,
        {
            hi += 1;
        }
        proof {
            lemma_bar_run_bounds(self.doc(), check_line as int);
        }
        Some((lo, hi))
    }

    /// The texts of the lines from `lo` up to but not `hi`, each followed
    /// by a line feed.
    pub fn join_lines_text(&self, lo: usize, hi: usize) -> (r: String)
        ensures
            r@ == lines_text(self.doc(), lo as int, hi as int),
    {
        let mut joins = String::new();
        let mut line = lo;
        while line < hi
            invariant
                lo <= line,
                line <= hi || line == lo,
                joins@ == lines_text(self.doc(), lo as int, line as int),
            decreases hi - line,
        {
            let t = self.get_line_text(line);
            joins.append(t.as_str());
            joins.append("\n");
            line += 1;
        }
        joins
    }

    /// Replaces the lines from `lo` up to but not `hi` by `table`, puts
    /// both cursors at its start and records the change in the history.
    #[verifier::rlimit(50)]
    pub fn replace_lines_by_table(&mut self, lo: usize, hi: usize, table: PghView)
        requires
            old(self).wf(),
            table@.wf(),
            lo <= hi <= old(self).doc().len(),
        ensures
            final(self).wf(),
            final(self).doc() == lines_replaced(old(self).doc(), lo as int, hi as int, table@),
            final(self).state == (State {
                cursor1: Cursor { line_no: lo, segment: 0, culumn: 0 },
                cursor2: Cursor { line_no: lo, segment: 0, culumn: 0 },
                ..old(self).state
            }),
            final(self).history().index == old(self).history().index + 1,
            final(self).history().pairs.len() == old(self).history().index + 1,
            final(self).history().pairs.take(old(self).history().index as int) == old(
                self,
            ).history().pairs.take(old(self).history().index as int),
            recorded(
                final(self).doc(),
                old(self).doc(),
                final(self).history().pairs.last().0,
                final(self).history().pairs.last().1,
            ),
            final(self).history().pairs.last().0.cursor == old(self).state.cursor2,
            final(self).history().pairs.last().1.cursor == (Cursor {
                line_no: lo,
                segment: 0,
                culumn: 0,
            }),
            final(self).same_cache == old(self).same_cache,
            final(self).same_surroundings(old(self)),
    {
        let mut undo_cmd = DoCmd::new();
        let mut redo_cmd = DoCmd::new();
        undo_cmd.set_cursor(self.state.cursor2);
        let ghost origin = self.doc();
        proof {
            assert(self.doc().len() == self.pgh_views.len());
        }
        let mut line = hi;
        while line > lo
            invariant
                lo <= line <= hi <= origin.len(),
                self.pgh_views.len() == origin.len() - (hi - line),
                doc_wf(self.doc()),
                self.history() == old(self).history(),
                self.do_mngr == old(self).do_mngr,
                recorded(self.doc(), origin, undo_cmd@, redo_cmd@),
                undo_cmd.cursor == old(self).state.cursor2,
                self.doc() =~= origin.take(line as int) + origin.skip(hi as int),
                self.same_but_doc(old(self)),
            decreases line,
        {
            line -= 1;
            self.record_remove(&mut undo_cmd, &mut redo_cmd, line, Ghost(origin));
            proof {
                assert(self.doc().len() == self.pgh_views.len());
            }
        }
        self.record_insert(&mut undo_cmd, &mut redo_cmd, lo, table, Ghost(origin));
        proof {
            assert(self.doc() =~= lines_replaced(origin, lo as int, hi as int, table@));
        }
        let at = Cursor { line_no: lo, segment: 0, culumn: 0 };
        self.state.cursor2 = at;
        self.state.cursor1 = at;
        redo_cmd.set_cursor(at);
        self.push_do(undo_cmd, redo_cmd);
    }

    /// Turns the lines around the text cursor that start with a bar into
    /// a table, where together they read as one.
    #[verifier::rlimit(50)]
    pub fn on_change_to_table(&mut self)
        requires
            old(self).wf(),
        ensures
            final(self).wf(),
            final(self).same_cache == old(self).same_cache,
            final(self).same_surroundings(old(self)),
            match table_conversion(old(self).doc(), old(self).state.cursor2) {
                Some(conv) => {
                    &&& final(self).doc() == lines_replaced(
                        old(self).doc(),
                        conv.0,
                        conv.1,
                        conv.2,
                    )
                    &&& final(self).state == (State {
                        cursor1: Cursor { line_no: conv.0 as usize, segment: 0, culumn: 0 },
                        cursor2: Cursor { line_no: conv.0 as usize, segment: 0, culumn: 0 },
                        ..old(self).state
                    })
                    &&& final(self).history().index == old(self).history().index + 1
                    &&& final(self).history().pairs.len() == old(self).history().index + 1
                    &&& final(self).history().pairs.take(old(self).history().index as int)
                        == old(self).history().pairs.take(old(self).history().index as int)
                    &&& recorded(
                        final(self).doc(),
                        old(self).doc(),
                        final(self).history().pairs.last().0,
                        final(self).history().pairs.last().1,
                    )
                    &&& final(self).history().pairs.last().0.cursor == old(self).state.cursor2
                    &&& final(self).history().pairs.last().1.cursor == (Cursor {
                        line_no: conv.0 as usize,
                        segment: 0,
                        culumn: 0,
                    })
                },
                None => {
                    &&& final(self).doc() == old(self).doc()
                    &&& final(self).state == old(self).state
                    &&& final(self).history() == old(self).history()
                },
            },
    {
        let run = match self.bar_lines_at_cursor() {
            Some(r) => r,
            None => {
                return ;
            },
        };
        let joins = self.join_lines_text(run.0, run.1);
        if let Some(table) = check_to_table_pghview(joins.as_str()) {
            proof {
                if run.1 <= run.0 {
                    assert(lines_text(self.doc(), run.0 as int, run.1 as int).len() == 0);
                }
            }
            self.replace_lines_by_table(run.0, run.1, table);
        }
    }

    /// What follows every edit: the change is counted, the places where
    /// the selected text occurs again are marked anew, and unless the text
    /// cursor stands in a table, the lines around it that start with a bar
    /// become a table where they read as one.
    #[verifier::rlimit(50)]
    pub fn on_content_change(&mut self)
        requires
            old(self).wf(),
        ensures
            final(self).wf(),
            final(self).same_surroundings(old(self)),
            final(self).doc() == after_change(old(self).doc(), old(self).state.cursor2).0,
            final(self).state == (if change_converts(old(self).doc(), old(self).state.cursor2) {
                State {
                    cursor1: after_change(old(self).doc(), old(self).state.cursor2).1,
                    cursor2: after_change(old(self).doc(), old(self).state.cursor2).1,
                    ..changed_state(old(self).state)
                }
            } else {
                changed_state(old(self).state)
            }),
            final(self).same_cache@ == same_word_items(
                old(self).doc(),
                old(self).state,
                old(self).cfg.hightlight_seleted_word,
                old(self).same_cache@,
            ),
            change_followed(old(self), final(self)),
    {
        self.content_change_state();
        let cursor = self.state.cursor2;
        if !self.is_table_line(cursor.line_no) {
            self.on_change_to_table();
        }
    }

    /// Puts a row of empty cells, a column of empty cells, or both into
    /// the table that the text cursor stands in, and records the edit in
    /// the history. After a column is put in, the text cursor stays in the
    /// row and on the column number it was on. Nothing changes where the
    /// cursor stands in no table or the row or column lies outside it.
    #[verifier::rlimit(50)]
    pub fn table_insert(&mut self, insert_row: Option<usize>, insert_col: Option<usize>)
        requires
            old(self).wf(),
        ensures
            final(self).wf(),
            final(self).same_cache == old(self).same_cache,
            final(self).same_surroundings(old(self)),
            match table_grown(
                old(self).doc(),
                old(self).state.cursor2.line_no,
                insert_row,
                insert_col,
            ) {
                Some(grown) => {
                    let c = old(self).state.cursor2;
                    let t = old(self).doc()[c.line_no as int].table_info->0;
                    let moved = if insert_col is Some {
                        Cursor {
                            segment: (t.row_of(c.segment as int) * (t.col_count + 1) + t.col_of(
                                c.segment as int,
                            )) as usize,
                            ..c
                        }
                    } else {
                        c
                    };
                    &&& final(self).doc() == old(self).doc().update(c.line_no as int, grown)
                    &&& final(self).state == (if insert_col is Some && t.row_of(c.segment as int) * (
                    t.col_count + 1) + t.col_of(c.segment as int) <= usize::MAX {
                        State { cursor1: moved, cursor2: moved, ..old(self).state }
                    } else {
                        old(self).state
                    })
                    &&& final(self).history().index == old(self).history().index + 1
                    &&& final(self).history().pairs.len() == old(self).history().index + 1
                    &&& final(self).history().pairs.take(old(self).history().index as int)
                        == old(self).history().pairs.take(old(self).history().index as int)
                    &&& recorded(
                        final(self).doc(),
                        old(self).doc(),
                        final(self).history().pairs.last().0,
                        final(self).history().pairs.last().1,
                    )
                    &&& final(self).history().pairs.last().0.cursor == c
                    &&& final(self).history().pairs.last().1.cursor == final(self).state.cursor2
                },
                None => {
                    &&& final(self).doc() == old(self).doc()
                    &&& final(self).state == old(self).state
                    &&& final(self).history() == old(self).history()
                },
            },
    {
        let cursor = self.state.cursor2;
        let line = cursor.line_no;
        proof {
            assert(self.doc().len() == self.pgh_views.len());
        }
        if line >= self.pgh_views.len() {
            return ;
        }
        proof {
            assert(self.doc()[line as int] == self.pgh_views[line as int]@);
            assert(self.doc()[line as int].wf());
        }
        let t = match self.pgh_views[line].table_info {
            Some(t) => t,
            None => {
                return ;
            },
        };
        let row_fits = match insert_row {
            Some(r) => r <= t.row_count,
            None => true,
        };
        let col_fits = match insert_col {
            Some(c) => c <= t.col_count && t.col_count < usize::MAX,
            None => true,
        };
        if !row_fits || !col_fits {
            return ;
        }
        let mut undo_cmd = DoCmd::new();
        let mut redo_cmd = DoCmd::new();
        undo_cmd.set_cursor(cursor);
        let ghost origin = self.doc();
        let mut new = self.pgh_views[line].clone();
        if let Some(row) = insert_row {
            new.table_insert_row(row);
        }
        if let Some(col) = insert_col {
            new.table_insert_col(col);
        }
        self.record_update(&mut undo_cmd, &mut redo_cmd, line, new, Ghost(origin));
        if insert_col.is_some() {
            let r = cursor.segment / t.col_count;
            let c = cursor.segment % t.col_count;
            proof {
                vstd::arithmetic::div_mod::lemma_fundamental_div_mod(
                    cursor.segment as int,
                    t.col_count as int,
                );
                vstd::arithmetic::mul::lemma_mul_is_commutative(t.col_count as int, r as int);
                assert(r * (t.col_count + 1) == r * t.col_count + r) by (nonlinear_arith);
            }
            if r <= usize::MAX - cursor.segment {
                let moved = Cursor {
                    line_no: line,
                    segment: r * (t.col_count + 1) + c,
                    culumn: cursor.culumn,
                };
                self.state.cursor2 = moved;
                self.state.cursor1 = moved;
            }
        }
        redo_cmd.set_cursor(self.state.cursor2);
        self.push_do(undo_cmd, redo_cmd);
    }
}

impl Ctx {
    /// The table paragraph that a text gives, if it starts with a bar and
    /// reads as a markdown table.
    pub fn check_to_table_pghview(&self, s: &str) -> (r: Option<PghView>)
        ensures
            crate::undo::opt_pgh(r) == crate::md::leading_table(s@),
            r matches Some(p) ==> p@.wf() && p.table_info is Some,
    {
        crate::md::check_to_table_pghview(s)
    }
}

} // verus!
