//! Inserting text at the text cursor, deleting the selection, and what
//! the history holds of an edit.

use crate::ctx::{Ctx, State};
use crate::cursor::Cursor;
use crate::edit_delete::deleted_doc;
use crate::edit_table::{after_change, change_converts, change_followed};
use crate::history::{changed_state, counted_up};
use crate::md::{check_to_table_pghview, leading_table, pgh_models};
use crate::pgh::{PghModel, PghView};
use crate::record::recorded;
use crate::strings::{char_count, split_lines, split_on, text_concat, texts};
use crate::undo::{doc_wf, replay, replay_back, CmdModel, DoCmd};
use vstd::prelude::*;

verus! {

/// The document after the undo commands of the pairs from `upto - 1`
/// down to `from` are replayed, each last step first: what as many calls
/// of `undo` make of it.
pub open spec fn rolled_back(
    doc: Seq<PghModel>,
    pairs: Seq<(CmdModel, CmdModel)>,
    from: int,
    upto: int,
) -> Seq<PghModel>
    decreases upto - from,
{
    if upto <= from || upto > pairs.len() || from < 0 {
        doc
    } else {
        rolled_back(replay_back(doc, pairs[upto - 1].0.steps), pairs, from, upto - 1)
    }
}

/// What an edit leaves in a session. The edit leads from the document
/// before to `mid_doc` with the text cursor at `mid_cursor`; the check for
/// a table that follows it leads on to the document after. The history
/// holds, behind what was applied before, a pair of commands for the edit
/// and, if lines became a table, a pair for that; nothing is left to redo.
/// The undo command of the edit restores `undo_cursor`, its redo command
/// `redo_cursor`; the commands of a conversion restore the text cursor of
/// the edit and the start of the table.
pub open spec fn edit_recorded(
    before: &Ctx,
    after: &Ctx,
    mid_doc: Seq<PghModel>,
    mid_cursor: Cursor,
    undo_cursor: Cursor,
    redo_cursor: Cursor,
) -> bool {
    let h0 = before.history();
    let h1 = after.history();
    let converts = change_converts(mid_doc, mid_cursor);
    &&& after.doc() == after_change(mid_doc, mid_cursor).0
    &&& after.state.cursor2 == after_change(mid_doc, mid_cursor).1
    &&& h1.index == h0.index + (if converts {
        2int
    } else {
        1int
    })
    &&& h1.pairs.len() == h1.index
    &&& h1.pairs.take(h0.index as int) == h0.pairs.take(h0.index as int)
    &&& recorded(mid_doc, before.doc(), h1.pairs[h0.index as int].0, h1.pairs[h0.index as int].1)
    &&& h1.pairs[h0.index as int].0.cursor == undo_cursor
    &&& h1.pairs[h0.index as int].1.cursor == redo_cursor
    &&& converts ==> recorded(
        after.doc(),
        mid_doc,
        h1.pairs[h0.index + 1].0,
        h1.pairs[h0.index + 1].1,
    ) && h1.pairs[h0.index + 1].0.cursor == mid_cursor && h1.pairs[h0.index + 1].1.cursor
        == after.state.cursor2
}

/// Undoing all that an edit recorded gives back the document as it was
/// before the edit, and the last command undone puts the text cursor
/// where the edit's undo command says.
pub proof fn lemma_undo_restores(
    before: &Ctx,
    after: &Ctx,
    mid_doc: Seq<PghModel>,
    mid_cursor: Cursor,
    undo_cursor: Cursor,
    redo_cursor: Cursor,
)
    requires
        edit_recorded(before, after, mid_doc, mid_cursor, undo_cursor, redo_cursor),
    ensures
        rolled_back(
            after.doc(),
            after.history().pairs,
            before.history().index as int,
            after.history().index as int,
        ) == before.doc(),
        after.history().pairs[before.history().index as int].0.cursor == undo_cursor,
{
    let h0 = before.history();
    let h1 = after.history();
    let k = h0.index as int;
    if change_converts(mid_doc, mid_cursor) {
        assert(rolled_back(after.doc(), h1.pairs, k, k + 2) == rolled_back(
            replay_back(after.doc(), h1.pairs[k + 1].0.steps),
            h1.pairs,
            k,
            k + 1,
        ));
        assert(rolled_back(mid_doc, h1.pairs, k, k + 1) == rolled_back(
            replay_back(mid_doc, h1.pairs[k].0.steps),
            h1.pairs,
            k,
            k,
        ));
    } else {
        assert(rolled_back(after.doc(), h1.pairs, k, k + 1) == rolled_back(
            replay_back(after.doc(), h1.pairs[k].0.steps),
            h1.pairs,
            k,
            k,
        ));
    }
}

/// The document that redoing the commands from number `from` up to but
/// not `upto` makes of a document.
pub open spec fn rolled_forward(
    doc: Seq<PghModel>,
    pairs: Seq<(CmdModel, CmdModel)>,
    from: int,
    upto: int,
) -> Seq<PghModel>
    decreases upto - from,
{
    if upto <= from || upto > pairs.len() || from < 0 {
        doc
    } else {
        rolled_forward(replay(doc, pairs[from].1.steps), pairs, from + 1, upto)
    }
}

/// Redoing all that an edit recorded leads from the document before the
/// edit to the document after it, and the last command redone puts the
/// text cursor at the start of the table where lines became one, and
/// otherwise where the edit's redo command says.
pub proof fn lemma_redo_restores(
    before: &Ctx,
    after: &Ctx,
    mid_doc: Seq<PghModel>,
    mid_cursor: Cursor,
    undo_cursor: Cursor,
    redo_cursor: Cursor,
)
    requires
        edit_recorded(before, after, mid_doc, mid_cursor, undo_cursor, redo_cursor),
    ensures
        rolled_forward(
            before.doc(),
            after.history().pairs,
            before.history().index as int,
            after.history().index as int,
        ) == after.doc(),
        after.history().pairs[after.history().index - 1].1.cursor == (if change_converts(
            mid_doc,
            mid_cursor,
        ) {
            after.state.cursor2
        } else {
            redo_cursor
        }),
{
    let h0 = before.history();
    let h1 = after.history();
    let k = h0.index as int;
    if change_converts(mid_doc, mid_cursor) {
        assert(rolled_forward(before.doc(), h1.pairs, k, k + 2) == rolled_forward(
            mid_doc,
            h1.pairs,
            k + 1,
            k + 2,
        ));
        assert(rolled_forward(mid_doc, h1.pairs, k + 1, k + 2) == rolled_forward(
            after.doc(),
            h1.pairs,
            k + 2,
            k + 2,
        ));
    } else {
        assert(rolled_forward(before.doc(), h1.pairs, k, k + 1) == rolled_forward(
            mid_doc,
            h1.pairs,
            k + 1,
            k + 1,
        ));
    }
}

/// An edit that is recorded in the history as one pair of commands and
/// then followed by the check for a table is recorded as `edit_recorded`
/// says.
pub proof fn lemma_edit_recorded(
    before: &Ctx,
    mid: &Ctx,
    after: &Ctx,
    undo: CmdModel,
    redo: CmdModel,
)
    requires
        before.history().index <= before.history().pairs.len(),
        mid.history() == before.history().pushed(undo, redo),
        mid.history().index == before.history().index + 1,
        recorded(mid.doc(), before.doc(), undo, redo),
        after.doc() == after_change(mid.doc(), mid.state.cursor2).0,
        after.state.cursor2 == after_change(mid.doc(), mid.state.cursor2).1,
        change_followed(mid, after),
    ensures
        edit_recorded(before, after, mid.doc(), mid.state.cursor2, undo.cursor, redo.cursor),
{
    let h0 = before.history();
    let hm = mid.history();
    let h1 = after.history();
    let k = h0.index as int;
    assert(hm.pairs.len() == k + 1);
    assert(hm.pairs[k] == (undo, redo));
    assert(hm.pairs.take(k) =~= h0.pairs.take(k));
    if change_converts(mid.doc(), mid.state.cursor2) {
        assert(h1.pairs.take(k + 1)[k] == hm.pairs.take(k + 1)[k]);
        assert(h1.pairs.take(k) =~= h1.pairs.take(k + 1).take(k));
        assert(hm.pairs.take(k) =~= hm.pairs.take(k + 1).take(k));
        assert(h1.pairs.last() == h1.pairs[k + 1]);
    }
}

/// A column after `n` characters are put in before it; it stays at the
/// greatest column.
pub open spec fn column_after(col: usize, n: int) -> usize {
    if col + n <= usize::MAX {
        (col + n) as usize
    } else {
        usize::MAX
    }
}

/// The segment of paragraph `p` nearest to `seg`: `seg` itself where the
/// paragraph has it, else its last segment, and 0 where it has none.
pub open spec fn nearest_segment(p: PghModel, seg: usize) -> usize {
    if seg < p.segs.len() {
        seg
    } else if p.segs.len() > 0 {
        (p.segs.len() - 1) as usize
    } else {
        0
    }
}

/// Whether table `t` can be written over table `p` from segment `seg` on:
/// the rows and columns reached can be counted.
pub open spec fn can_merge_at(p: PghModel, seg: usize, t: PghModel) -> bool {
    match (p.table_info, t.table_info) {
        (Some(pi), Some(ti)) => pi.row_of(seg as int) + ti.row_count <= usize::MAX && pi.col_of(
            seg as int,
        ) + ti.col_count <= usize::MAX,
        _ => true,
    }
}

/// The document and the cursor after `s` is put in at cursor `c`, with
/// nothing selected. In a table, a text that reads as a table is written
/// over the cells from the cursor's on, or from the last cell on where
/// the cursor's segment lies behind it; any other text goes into the
/// cursor's cell. In a code paragraph each line of the text becomes a
/// line. In any other paragraph the text goes between what lies left and
/// right of the cursor; the paragraph becomes one text with the first
/// line of that, and each further line a text paragraph after it. The
/// cursor ends behind what was put in. A cursor on no line changes
/// nothing.
pub open spec fn inserted(d: Seq<PghModel>, c: Cursor, s: Seq<char>) -> (Seq<PghModel>, Cursor) {
    if c.line_no >= d.len() {
        (d, c)
    } else {
        let line = c.line_no as int;
        let p = d[line];
        if p.is_table() {
            match leading_table(s) {
                Some(t) => {
                    let seg = nearest_segment(p, c.segment);
                    if can_merge_at(p, seg, t) {
                        (
                            d.update(line, p.merged(seg as int, t)),
                            Cursor { segment: p.merged_segment(seg as int, t) as usize, ..c },
                        )
                    } else {
                        (d, c)
                    }
                },
                None => (
                    d.update(line, p.with_segment_text(c.segment as int, p.spliced(c, s))),
                    Cursor { culumn: column_after(c.culumn, s.len() as int), ..c },
                ),
            }
        } else if p.is_code() {
            (d.update(line, p.with_code_insert(c, s)), p.code_insert_cursor(c, s))
        } else {
            let lines = split_on(p.left_of(c) + s + p.right_of(c), '\n');
            (
                d.take(line) + seq![p.with_all_text(lines[0])] + Seq::new(
                    (lines.len() - 1) as nat,
                    |i: int| PghModel::of_text(lines[i + 1]),
                ) + d.skip(line + 1),
                Cursor {
                    line_no: (line + lines.len() - 1) as usize,
                    segment: 0,
                    culumn: if lines.last().len() >= p.right_of(c).len() {
                        (lines.last().len() - p.right_of(c).len()) as usize
                    } else {
                        0
                    },
                },
            )
        }
    }
}

/// The document after a deletion by the delete key: after the selection
/// is deleted, a table that held both cursors loses the rows and columns
/// that the deletion emptied.
pub open spec fn deleted_by_key(doc: Seq<PghModel>, c1: Cursor, c2: Cursor) -> Seq<PghModel> {
    let d = deleted_doc(doc, c1, c2);
    if c1.line_no == c2.line_no && c1.line_no < doc.len() && doc[c1.line_no as int].is_table()
        && c1.line_no < d.len() {
        d.update(
            c1.line_no as int,
            d[c1.line_no as int].with_empty_dropped(c1.segment as int, c2.segment as int),
        )
    } else {
        d
    }
}

impl Ctx {
    /// Puts the lines of a text into a paragraph that is neither table
    /// nor code: the paragraph becomes the first line, every further line
    /// a text paragraph after it.
    #[verifier::rlimit(50)]
    fn insert_lines(
        &mut self,
        undo: &mut DoCmd,
        redo: &mut DoCmd,
        line_no: usize,
        lines: &Vec<String>,
        Ghost(origin): Ghost<Seq<PghModel>>,
    )
        requires
            line_no < old(self).pgh_views.len(),
            lines.len() >= 1,
            old(self).doc()[line_no as int].table_info is None,
            doc_wf(old(self).doc()),
            recorded(old(self).doc(), origin, old(undo)@, old(redo)@),
        ensures
            final(self).doc() == old(self).doc().take(line_no as int) + seq![
                old(self).doc()[line_no as int].with_all_text(texts(lines@)[0]),
            ] + Seq::new(
                (lines.len() - 1) as nat,
                |i: int| PghModel::of_text(texts(lines@)[i + 1]),
            ) + old(self).doc().skip(line_no + 1),
            final(self).pgh_views.len() == old(self).pgh_views.len() + lines.len() - 1,
            final(self).same_but_doc(old(self)),
            doc_wf(final(self).doc()),
            recorded(final(self).doc(), origin, final(undo)@, final(redo)@),
            final(undo).cursor == old(undo).cursor,
            final(redo).cursor == old(redo).cursor,
    {
        let ghost d = self.doc();
        let ghost ls = texts(lines@);
        proof {
            assert(d.len() == self.pgh_views.len());
            assert(d[line_no as int] == self.pgh_views[line_no as int]@);
            assert(ls[0] == lines@[0]@);
        }
        let mut first = self.pgh_views[line_no].clone();
        first.update_all_text(lines[0].clone());
        self.record_update(undo, redo, line_no, first, Ghost(origin));
        let ghost head = d.take(line_no as int) + seq![d[line_no as int].with_all_text(ls[0])];
        proof {
            assert(self.doc() =~= head + Seq::new(0nat, |i: int| PghModel::of_text(ls[i + 1]))
                + d.skip(line_no + 1));
        }
        let mut i: usize = 1;
        while i < lines.len()
            invariant
                1 <= i <= lines.len(),
                ls == texts(lines@),
                d == old(self).doc(),
                line_no < d.len(),
                head == d.take(line_no as int) + seq![d[line_no as int].with_all_text(ls[0])],
                self.pgh_views.len() == d.len() + i - 1,
                self.doc() == head + Seq::new((i - 1) as nat, |k: int| PghModel::of_text(ls[k + 1]))
                    + d.skip(line_no + 1),
                self.same_but_doc(old(self)),
                doc_wf(self.doc()),
                recorded(self.doc(), origin, undo@, redo@),
                undo.cursor == old(undo).cursor,
                redo.cursor == old(redo).cursor,
            decreases lines.len() - i,
        {
            proof {
                assert(ls[i as int] == lines@[i as int]@);
                assert(self.doc().len() == self.pgh_views.len());
            }
            let fresh = PghView::from_text(lines[i].clone());
            self.record_insert(undo, redo, line_no + i, fresh, Ghost(origin));
            proof {
                assert(self.doc() =~= head + Seq::new(
                    i as nat,
                    |k: int| PghModel::of_text(ls[k + 1]),
                ) + d.skip(line_no + 1));
                assert(self.doc().len() == self.pgh_views.len());
            }
            i += 1;
        }
        proof {
            assert(ls.len() == lines.len());
        }
    }

    /// Puts `s` in at the text cursor, with nothing selected, and puts
    /// both cursors behind it.
    #[verifier::rlimit(50)]
    fn insert_at_cursor(
        &mut self,
        undo: &mut DoCmd,
        redo: &mut DoCmd,
        s: &str,
        Ghost(origin): Ghost<Seq<PghModel>>,
    )
        requires
            doc_wf(old(self).doc()),
            recorded(old(self).doc(), origin, old(undo)@, old(redo)@),
            old(self).state.cursor1 == old(self).state.cursor2,
        ensures
            final(self).doc() == inserted(old(self).doc(), old(self).state.cursor2, s@).0,
            final(self).state == (State {
                cursor1: inserted(old(self).doc(), old(self).state.cursor2, s@).1,
                cursor2: inserted(old(self).doc(), old(self).state.cursor2, s@).1,
                ..old(self).state
            }),
            final(self).do_mngr == old(self).do_mngr,
            final(self).same_cache == old(self).same_cache,
            final(self).same_surroundings(old(self)),
            doc_wf(final(self).doc()),
            recorded(final(self).doc(), origin, final(undo)@, final(redo)@),
            final(undo).cursor == old(undo).cursor,
            final(redo).cursor == (if old(self).state.cursor2.line_no < old(self).doc().len() {
                final(self).state.cursor2
            } else {
                old(redo).cursor
            }),
    {
        let org_c = self.state.cursor2;
        let mut new_c = org_c;
        proof {
            assert(self.doc().len() == self.pgh_views.len());
        }
        if org_c.line_no >= self.pgh_views.len() {
            return ;
        }
        let line = org_c.line_no;
        proof {
            assert(self.doc()[line as int] == self.pgh_views[line as int]@);
            assert(self.doc()[line as int].wf());
        }
        if self.pgh_views[line].is_table() {
            match check_to_table_pghview(s) {
                Some(table) => {
                    let mut new = self.pgh_views[line].clone();
                    let len = new.pgh.len();
                    let seg = if org_c.segment < len {
                        org_c.segment
                    } else if len > 0 {
                        len - 1
                    } else {
                        0
                    };
                    let fits = match (new.table_info, table.table_info) {
                        (Some(pi), Some(ti)) => ti.row_count <= usize::MAX - seg / pi.col_count
                            && ti.col_count <= usize::MAX - seg % pi.col_count,
                        _ => true,
                    };
                    if fits {
                        proof {
                            if let Some(pi) = new.table_info {
                                assert(new@.wf());
                                assert(new@.segs.len() == len);
                                assert(pi.row_count * pi.col_count == len);
                                if seg < len {
                                    crate::table::lemma_grid_row_bound(
                                        seg as int,
                                        pi.row_count as int,
                                        pi.col_count as int,
                                    );
                                } else {
                                    assert(seg == 0);
                                    crate::table::lemma_grid_index(0, 0, pi.col_count as int);
                                    assert(0 * (pi.col_count as int) + 0 == 0);
                                    assert(pi.row_of(0) == 0 && pi.col_of(0) == 0);
                                    if let Some(ti) = table.table_info {
                                        assert(new@.merged_segment(0, table@) == 0) by (nonlinear_arith)
                                            requires
                                                new@.merged_segment(0, table@) == 0 * crate::table::int_max(
                                                    pi.col_count as int,
                                                    0 + ti.col_count,
                                                ) + 0,
                                        ;
                                    }
                                }
                            }
                        }
                        new_c.segment = new.table_merge(seg, &table);
                        self.record_update(undo, redo, line, new, Ghost(origin));
                    }
                },
                None => {
                    let parts = self.pgh_views[line].insert(&org_c, s);
                    let mut new = self.pgh_views[line].clone();
                    new.update_segment_text(org_c.segment, parts.2);
                    self.record_update(undo, redo, line, new, Ghost(origin));
                    let n = char_count(s);
                    new_c.culumn = if n <= usize::MAX - org_c.culumn {
                        org_c.culumn + n
                    } else {
                        usize::MAX
                    };
                },
            }
        } else if self.pgh_views[line].is_code() {
            let mut new = self.pgh_views[line].clone();
            new_c = new.code_insert(&org_c, s);
            self.record_update(undo, redo, line, new, Ghost(origin));
        } else {
            let parts = self.pgh_views[line].insert(&org_c, s);
            let head = text_concat(parts.0.as_str(), s);
            let new_s = text_concat(head.as_str(), parts.1.as_str());
            let lines = split_lines(new_s.as_str());
            proof {
                assert(texts(lines@).len() == lines.len());
                assert(texts(lines@).last() == lines@[lines.len() - 1]@);
            }
            self.insert_lines(undo, redo, line, &lines, Ghost(origin));
            let last_len = char_count(lines[lines.len() - 1].as_str());
            let right_len = char_count(parts.1.as_str());
            new_c = Cursor {
                line_no: line + (lines.len() - 1),
                segment: 0,
                culumn: if last_len >= right_len {
                    last_len - right_len
                } else {
                    0
                },
            };
        }
        self.state.cursor2 = new_c;
        self.state.cursor1 = new_c;
        redo.set_cursor(new_c);
    }

    /// Puts `s` in place of the selection, or at the text cursor where
    /// nothing is selected, and records the edit in the history.
    #[verifier::rlimit(50)]
    pub fn insert(&mut self, s: String)
        requires
            old(self).wf(),
        ensures
            final(self).wf(),
            final(self).same_surroundings(old(self)),
            ({
                let c1 = old(self).state.cursor1;
                let c2 = old(self).state.cursor2;
                let cut = deleted_doc(old(self).doc(), c1, c2);
                let put = inserted(cut, c1.spec_min(c2), s@);
                &&& edit_recorded(
                    old(self),
                    final(self),
                    put.0,
                    put.1,
                    c2,
                    if c1.spec_min(c2).line_no < cut.len() {
                        put.1
                    } else {
                        c1
                    },
                )
                &&& final(self).state.cursor1 == final(self).state.cursor2
                &&& final(self).state.content_change_tick == counted_up(
                    old(self).state.content_change_tick as int,
                    u64::MAX as int,
                )
                &&& final(self).state.ime_area_changed
                &&& final(self).same_cache@ == (if old(self).cfg.hightlight_seleted_word {
                    Seq::empty()
                } else {
                    old(self).same_cache@
                })
            }),
    {
        let ghost origin = self.doc();
        let (mut undo_cmd, mut redo_cmd) = self.delete_func();
        self.insert_at_cursor(&mut undo_cmd, &mut redo_cmd, s.as_str(), Ghost(origin));
        self.push_do(undo_cmd, redo_cmd);
        let ghost mid = *self;
        self.on_content_change();
        proof {
            lemma_edit_recorded(old(self), &mid, final(self), undo_cmd@, redo_cmd@);
        }
    }

    /// Deletes the selection as the delete key does and records the edit
    /// in the history. A table that holds both cursors loses the rows and
    /// columns that the deletion emptied.
    #[verifier::rlimit(50)]
    pub fn delete(&mut self)
        requires
            old(self).wf(),
        ensures
            final(self).wf(),
            final(self).same_surroundings(old(self)),
            ({
                let c1 = old(self).state.cursor1;
                let c2 = old(self).state.cursor2;
                &&& edit_recorded(
                    old(self),
                    final(self),
                    deleted_by_key(old(self).doc(), c1, c2),
                    c1.spec_min(c2),
                    c2,
                    if c1.line_no == c2.line_no && c1.line_no < old(self).doc().len() && old(
                        self,
                    ).doc()[c1.line_no as int].is_table() && c1.line_no < deleted_doc(
                        old(self).doc(),
                        c1,
                        c2,
                    ).len() {
                        c1.spec_min(c2)
                    } else {
                        c1
                    },
                )
                &&& final(self).state.cursor1 == final(self).state.cursor2
                &&& final(self).state.content_change_tick == counted_up(
                    old(self).state.content_change_tick as int,
                    u64::MAX as int,
                )
                &&& final(self).state.ime_area_changed
                &&& final(self).same_cache@ == (if old(self).cfg.hightlight_seleted_word {
                    Seq::empty()
                } else {
                    old(self).same_cache@
                })
            }),
    {
        let c1 = self.state.cursor1;
        let c2 = self.state.cursor2;
        let ghost origin = self.doc();
        let in_table = c1.line_no == c2.line_no && self.is_table_line(c1.line_no);
        let (mut undo_cmd, mut redo_cmd) = self.delete_func();
        if in_table {
            proof {
                assert(self.doc().len() == self.pgh_views.len());
            }
            if c1.line_no < self.pgh_views.len() {
                proof {
                    assert(self.doc()[c1.line_no as int] == self.pgh_views[c1.line_no as int]@);
                    assert(self.doc()[c1.line_no as int].wf());
                }
                let mut new = self.pgh_views[c1.line_no].clone();
                new.table_delete_empty_in_range(c1.segment, c2.segment);
                self.record_update(&mut undo_cmd, &mut redo_cmd, c1.line_no, new, Ghost(origin));
                redo_cmd.set_cursor(self.state.cursor2);
            }
        }
        self.push_do(undo_cmd, redo_cmd);
        let ghost mid = *self;
        self.on_content_change();
        proof {
            lemma_edit_recorded(old(self), &mid, final(self), undo_cmd@, redo_cmd@);
        }
    }

    /// Replaces line `line_no` by one text and records the edit in the
    /// history. Nothing changes where there is no such line or the line
    /// has the shape of a table.
    #[verifier::rlimit(50)]
    pub fn update_line_text(&mut self, line_no: usize, s: String)
        requires
            old(self).wf(),
        ensures
            final(self).wf(),
            final(self).same_surroundings(old(self)),
            if line_no < old(self).doc().len() && old(self).doc()[line_no as int].table_info
                is None {
                &&& edit_recorded(
                    old(self),
                    final(self),
                    old(self).doc().update(
                        line_no as int,
                        old(self).doc()[line_no as int].with_all_text(s@),
                    ),
                    old(self).state.cursor2,
                    Cursor { line_no: 0, segment: 0, culumn: 0 },
                    Cursor { line_no: 0, segment: 0, culumn: 0 },
                )
                &&& final(self).state.content_change_tick == counted_up(
                    old(self).state.content_change_tick as int,
                    u64::MAX as int,
                )
            } else {
                &&& final(self).doc() == old(self).doc()
                &&& final(self).state == old(self).state
                &&& final(self).history() == old(self).history()
            },
    {
        proof {
            assert(self.doc().len() == self.pgh_views.len());
            if line_no < self.pgh_views.len() {
                assert(self.doc()[line_no as int] == self.pgh_views[line_no as int]@);
            }
        }
        if line_no < self.pgh_views.len() && self.pgh_views[line_no].table_info.is_none() {
            let mut undo_cmd = DoCmd::new();
            let mut redo_cmd = DoCmd::new();
            let ghost origin = self.doc();
            proof {
                assert(self.doc()[line_no as int] == self.pgh_views[line_no as int]@);
            }
            let mut new = self.pgh_views[line_no].clone();
            new.update_all_text(s);
            self.record_update(&mut undo_cmd, &mut redo_cmd, line_no, new, Ghost(origin));
            self.push_do(undo_cmd, redo_cmd);
            let ghost mid = *self;
            self.on_content_change();
            proof {
                lemma_edit_recorded(old(self), &mid, final(self), undo_cmd@, redo_cmd@);
            }
        }
    }
}

} // verus!
