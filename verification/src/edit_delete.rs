//! Deleting the selection.

use crate::ctx::{Ctx, State};
use crate::ctx_cursor::selected_lines;
use crate::cursor::Cursor;
use crate::md::pgh_models;
use crate::pgh::{same_frame, PghModel, PghView};
use crate::record::recorded;
use crate::strings::{concat_all, concat_texts, text_concat, texts};
use crate::table::int_min;
use crate::undo::{doc_wf, DoCmd};
use vstd::prelude::*;

verus! {

impl PghModel {
    /// The paragraph with the texts of its segments replaced by `t`,
    /// segment by segment, and cut to the length of `t`.
    pub open spec fn with_texts(self, t: Seq<Seq<char>>) -> PghModel {
        PghModel {
            segs: Seq::new(
                int_min(t.len() as int, self.segs.len() as int) as nat,
                |i: int| self.segs[i].with_text(t[i]),
            ),
            ..self
        }
    }

    /// The paragraph as the deletion of a selection leaves it.
    pub open spec fn trimmed(self, line_no: usize, c1: Cursor, c2: Cursor) -> PghModel {
        self.with_texts(self.delete(line_no, c1, c2))
    }

    /// Whether the deletion of a selection leaves the paragraph without
    /// text.
    pub open spec fn emptied(self, line_no: usize, c1: Cursor, c2: Cursor) -> bool {
        concat_all(self.delete(line_no, c1, c2)).len() == 0
    }
}

/// The document with the lines from `first` up to but not `upto` trimmed
/// by the deletion.
pub open spec fn trim_lines(doc: Seq<PghModel>, c1: Cursor, c2: Cursor, first: int, upto: int)
    -> Seq<PghModel> {
    Seq::new(
        doc.len(),
        |i: int|
            if first <= i < upto {
                doc[i].trimmed(i as usize, c1, c2)
            } else {
                doc[i]
            },
    )
}

/// Document `now` without those of its lines from `upto - 1` down to
/// `first` that the deletion leaves without text in `origin`.
pub open spec fn drop_emptied(
    now: Seq<PghModel>,
    origin: Seq<PghModel>,
    c1: Cursor,
    c2: Cursor,
    first: int,
    upto: int,
) -> Seq<PghModel>
    decreases upto - first,
{
    if upto <= first || first < 0 || upto > origin.len() {
        now
    } else {
        let line = upto - 1;
        let next = if origin[line].emptied(line as usize, c1, c2) && line < now.len() {
            now.remove(line)
        } else {
            now
        };
        drop_emptied(next, origin, c1, c2, first, upto - 1)
    }
}

/// The lines from `first` up to but not `upto` that the deletion leaves
/// with text, the last first.
pub open spec fn kept_lines(origin: Seq<PghModel>, c1: Cursor, c2: Cursor, first: int, upto: int)
    -> Seq<int>
    decreases upto - first,
{
    if upto <= first || first < 0 || upto > origin.len() {
        Seq::empty()
    } else {
        let rest = kept_lines(origin, c1, c2, first + 1, upto);
        if origin[first].emptied(first as usize, c1, c2) {
            rest
        } else {
            rest.push(first)
        }
    }
}

/// The first line and the line behind the last that a selection touches;
/// none in a document without lines.
pub open spec fn touched_lines(len: int, c1: Cursor, c2: Cursor) -> (int, int) {
    if len == 0 {
        (0, 0)
    } else {
        (selected_lines(len, c1, c2).0, selected_lines(len, c1, c2).1 + 1)
    }
}

/// The document after the two lines that a deletion left with text are
/// made one: where they neighbour each other and neither is a table, the
/// text of the second goes behind the last segment of the first, and the
/// second goes. `low` is the first of the two, `last_text` what the
/// deletion left in its last segment, `tail` what it left of the second.
pub open spec fn lines_joined(
    now: Seq<PghModel>,
    low: int,
    segments: int,
    last_text: Seq<char>,
    tail: Seq<char>,
) -> Seq<PghModel> {
    if 0 <= low && low + 1 < now.len() && !now[low + 1].is_table() && !now[low].is_table() {
        now.update(low, now[low].with_segment_text(segments - 1, last_text + tail)).remove(low + 1)
    } else {
        now
    }
}

/// The document after the selection between `c1` and `c2` is deleted.
/// Every line that the selection touches keeps what the deletion leaves of
/// it; the lines left without text go. If none of them is left, an empty
/// text paragraph takes their place; if two are left, they are made one.
pub open spec fn deleted_doc(doc: Seq<PghModel>, c1: Cursor, c2: Cursor) -> Seq<PghModel> {
    if c1 == c2 {
        doc
    } else {
        let lines = touched_lines(doc.len() as int, c1, c2);
        let trimmed = trim_lines(doc, c1, c2, lines.0, lines.1);
        let dropped = drop_emptied(trimmed, doc, c1, c2, lines.0, lines.1);
        let kept = kept_lines(doc, c1, c2, lines.0, lines.1);
        if kept.len() == 0 {
            dropped.insert(
                int_min(c1.spec_min(c2).line_no as int, dropped.len() as int),
                PghModel::of_text(Seq::empty()),
            )
        } else if kept.len() == 2 {
            let low = kept[1];
            let high = kept[0];
            let left = doc[low].delete(low as usize, c1, c2);
            lines_joined(
                dropped,
                low,
                left.len() as int,
                if left.len() > 0 {
                    left.last()
                } else {
                    Seq::empty()
                },
                concat_all(doc[high].delete(high as usize, c1, c2)),
            )
        } else {
            dropped
        }
    }
}

pub proof fn lemma_drop_emptied_len(
    now: Seq<PghModel>,
    origin: Seq<PghModel>,
    c1: Cursor,
    c2: Cursor,
    first: int,
    upto: int,
)
    requires
        0 <= first <= upto <= origin.len(),
        now.len() == origin.len(),
    ensures
        drop_emptied(now, origin, c1, c2, first, upto).len() + (upto - first) == now.len()
            + kept_lines(origin, c1, c2, first, upto).len(),
    decreases upto - first,
{
    lemma_drop_emptied_len_from(now, origin, c1, c2, first, upto);
}

proof fn lemma_kept_lines_top(origin: Seq<PghModel>, c1: Cursor, c2: Cursor, first: int, upto: int)
    requires
        0 <= first < upto <= origin.len(),
    ensures
        kept_lines(origin, c1, c2, first, upto).len() == kept_lines(
            origin,
            c1,
            c2,
            first,
            upto - 1,
        ).len() + (if origin[upto - 1].emptied((upto - 1) as usize, c1, c2) {
            0int
        } else {
            1int
        }),
    decreases upto - first,
{
    if first + 1 < upto {
        lemma_kept_lines_top(origin, c1, c2, first + 1, upto);
        assert(kept_lines(origin, c1, c2, first, upto - 1).len() == kept_lines(
            origin,
            c1,
            c2,
            first + 1,
            upto - 1,
        ).len() + (if origin[first].emptied(first as usize, c1, c2) {
            0int
        } else {
            1int
        }));
    } else {
        assert(kept_lines(origin, c1, c2, first + 1, upto) =~= Seq::<int>::empty());
        assert(kept_lines(origin, c1, c2, first, upto - 1) =~= Seq::<int>::empty());
    }
}

proof fn lemma_drop_emptied_len_from(
    now: Seq<PghModel>,
    origin: Seq<PghModel>,
    c1: Cursor,
    c2: Cursor,
    first: int,
    upto: int,
)
    requires
        0 <= first <= upto <= origin.len(),
        upto <= now.len(),
    ensures
        drop_emptied(now, origin, c1, c2, first, upto).len() + (upto - first) == now.len()
            + kept_lines(origin, c1, c2, first, upto).len(),
    decreases upto - first,
{
    if first < upto {
        let line = upto - 1;
        let next = if origin[line].emptied(line as usize, c1, c2) && line < now.len() {
            now.remove(line)
        } else {
            now
        };
        lemma_drop_emptied_len_from(next, origin, c1, c2, first, upto - 1);
        lemma_kept_lines_top(origin, c1, c2, first, upto);
    }
}

/// A deletion never leaves a document without paragraphs.
pub proof fn lemma_delete_keeps_a_paragraph(doc: Seq<PghModel>, c1: Cursor, c2: Cursor)
    requires
        c1 != c2,
    ensures
        deleted_doc(doc, c1, c2).len() >= 1,
{
    let lines = touched_lines(doc.len() as int, c1, c2);
    let trimmed = trim_lines(doc, c1, c2, lines.0, lines.1);
    lemma_drop_emptied_len(trimmed, doc, c1, c2, lines.0, lines.1);
}

/// Deleting all the text of a document of one paragraph leaves one empty
/// text paragraph.
pub proof fn lemma_delete_all_of_one_paragraph(doc: Seq<PghModel>, c1: Cursor, c2: Cursor)
    requires
        c1 != c2,
        doc.len() == 1,
        doc[0].emptied(0, c1, c2),
    ensures
        deleted_doc(doc, c1, c2) == seq![PghModel::of_text(Seq::empty())],
        deleted_doc(doc, c1, c2)[0].text().len() == 0,
{
    let lines = touched_lines(1, c1, c2);
    assert(lines == (0int, 1int));
    let trimmed = trim_lines(doc, c1, c2, 0, 1);
    let dropped = drop_emptied(trimmed, doc, c1, c2, 0, 1);
    assert(drop_emptied(trimmed.remove(0), doc, c1, c2, 0, 0) == trimmed.remove(0));
    assert(dropped =~= Seq::<PghModel>::empty());
    assert(kept_lines(doc, c1, c2, 1, 1) =~= Seq::<int>::empty());
    assert(kept_lines(doc, c1, c2, 0, 1) =~= Seq::<int>::empty());
    assert(deleted_doc(doc, c1, c2) =~= seq![PghModel::of_text(Seq::empty())]);
    let t = PghModel::of_text(Seq::empty()).texts();
    assert(t.len() == 1);
    assert(t.last() =~= Seq::<char>::empty());
    assert(concat_all(t.drop_last()) =~= Seq::<char>::empty());
    assert(concat_all(t) =~= concat_all(t.drop_last()) + t.last());
}

/// With both cursors on the line of a table, a deletion touches only the
/// cells of the rectangle that the cursors span: every other cell keeps
/// its text. A table that the selection only runs through loses from each
/// cell what the selection covers of it.
pub proof fn lemma_table_delete_modes(p: PghModel, line_no: usize, c1: Cursor, c2: Cursor, seg: int)
    requires
        p.is_table(),
        0 <= seg < p.segs.len(),
    ensures
        p.delete(line_no, c1, c2).len() == p.segs.len(),
        c1.line_no == c2.line_no && !p.in_table_select(seg, c1.segment as int, c2.segment as int)
            ==> p.delete(line_no, c1, c2)[seg] == p.segs[seg].text(),
        c1.line_no == c2.line_no && p.in_table_select(seg, c1.segment as int, c2.segment as int)
            ==> p.delete(line_no, c1, c2)[seg] == p.segs[seg].delete(line_no, seg as usize, c1, c2),
        c1.line_no != c2.line_no ==> p.delete(line_no, c1, c2)[seg] == p.segs[seg].delete(
            line_no,
            seg as usize,
            c1,
            c2,
        ),
{
}

impl PghView {
    /// A copy of the paragraph with the texts of its segments replaced by
    /// `t`, segment by segment, and cut to the length of `t`.
    pub fn with_texts(&self, t: &Vec<String>) -> (r: PghView)
        ensures
            r@ == self@.with_texts(texts(t@)),
            same_frame(r, *self),
    {
        let mut r = self.clone();
        let mut i: usize = 0;
        while i < t.len() && i < r.pgh.len()
            invariant
                0 <= i <= t.len(),
                r.pgh.len() == self.pgh.len(),
                same_frame(r, *self),
                r@.segs =~= Seq::new(
                    self@.segs.len(),
                    |k: int|
                        if k < i {
                            self@.segs[k].with_text(texts(t@)[k])
                        } else {
                            self@.segs[k]
                        },
                ),
            decreases t.len() - i,
        {
            proof {
                assert(texts(t@)[i as int] == t@[i as int]@);
            }
            r.update_segment_text(i, t[i].clone());
            i += 1;
        }
        r.remove_segment_from(t.len());
        proof {
            assert(texts(t@).len() == t.len());
            assert(r@.segs =~= self@.with_texts(texts(t@)).segs);
        }
        r
    }
}

impl Ctx {
    /// What the deletion of the selection leaves of each line from
    /// `first` up to but not `upto`.
    fn texts_after_delete(&self, first: usize, upto: usize, c1: &Cursor, c2: &Cursor) -> (r: Vec<
        Vec<String>,
    >)
        requires
            doc_wf(self.doc()),
            first <= upto <= self.pgh_views.len(),
        ensures
            r.len() == upto - first,
            forall|k: int|
                0 <= k < r.len() ==> texts((#[trigger] r[k])@) == self.doc()[first + k].delete(
                    (first + k) as usize,
                    *c1,
                    *c2,
                ),
    {
        let mut out: Vec<Vec<String>> = Vec::new();
        let mut line = first;
        while line < upto
            invariant
                doc_wf(self.doc()),
                first <= line <= upto <= self.pgh_views.len(),
                out.len() == line - first,
                forall|k: int|
                    0 <= k < out.len() ==> texts((#[trigger] out[k])@) == self.doc()[first
                        + k].delete((first + k) as usize, *c1, *c2),
            decreases upto - line,
        {
            proof {
                assert(self.doc()[line as int] == self.pgh_views[line as int]@);
                assert(self.doc()[line as int].wf());
            }
            let t = self.pgh_views[line].delete(line, c1, c2);
            out.push(t);
            line += 1;
        }
        out
    }

    /// Trims the lines from `first` up to but not `upto` to what the
    /// deletion leaves of them.
    #[verifier::rlimit(50)]
    fn trim_touched(
        &mut self,
        undo: &mut DoCmd,
        redo: &mut DoCmd,
        first: usize,
        upto: usize,
        line_set: &Vec<Vec<String>>,
        Ghost(origin): Ghost<Seq<PghModel>>,
        Ghost(c1): Ghost<Cursor>,
        Ghost(c2): Ghost<Cursor>,
    )
        requires
            first <= upto <= old(self).pgh_views.len(),
            old(self).doc() == origin,
            doc_wf(origin),
            recorded(origin, origin, old(undo)@, old(redo)@),
            line_set.len() == upto - first,
            forall|k: int|
                0 <= k < line_set.len() ==> texts((#[trigger] line_set[k])@) == origin[first
                    + k].delete((first + k) as usize, c1, c2),
        ensures
            final(self).doc() == trim_lines(origin, c1, c2, first as int, upto as int),
            final(self).same_but_doc(old(self)),
            doc_wf(final(self).doc()),
            recorded(final(self).doc(), origin, final(undo)@, final(redo)@),
            final(undo).cursor == old(undo).cursor,
            final(redo).cursor == old(redo).cursor,
    {
        let mut line = first;
        proof {
            assert(self.doc().len() == self.pgh_views.len());
            assert(self.doc() =~= trim_lines(origin, c1, c2, first as int, first as int));
        }
        while line < upto
            invariant
                first <= line <= upto <= self.pgh_views.len(),
                self.pgh_views.len() == origin.len(),
                doc_wf(self.doc()),
                doc_wf(origin),
                recorded(self.doc(), origin, undo@, redo@),
                undo.cursor == old(undo).cursor,
                redo.cursor == old(redo).cursor,
                line_set.len() == upto - first,
                forall|k: int|
                    0 <= k < line_set.len() ==> texts((#[trigger] line_set[k])@) == origin[first
                        + k].delete((first + k) as usize, c1, c2),
                self.doc() == trim_lines(origin, c1, c2, first as int, line as int),
                self.same_but_doc(old(self)),
            decreases upto - line,
        {
            proof {
                assert(self.doc()[line as int] == self.pgh_views[line as int]@);
                assert(self.doc()[line as int] == origin[line as int]);
                assert(texts(line_set[line - first]@) == origin[line as int].delete(line, c1, c2));
                lemma_trimmed_wf(origin[line as int], line, c1, c2);
            }
            let new = self.pgh_views[line].with_texts(&line_set[line - first]);
            let ghost before = self.doc();
            self.record_update(undo, redo, line, new, Ghost(origin));
            proof {
                assert(self.doc() =~= trim_lines(origin, c1, c2, first as int, line + 1));
                assert(self.doc().len() == self.pgh_views.len());
            }
            line += 1;
        }
    }

    /// Takes out the lines from `upto - 1` down to `first` that the
    /// deletion left without text, and gives the others, the last first.
    #[verifier::rlimit(50)]
    fn drop_touched(
        &mut self,
        undo: &mut DoCmd,
        redo: &mut DoCmd,
        first: usize,
        upto: usize,
        line_set: &Vec<Vec<String>>,
        Ghost(origin): Ghost<Seq<PghModel>>,
        Ghost(c1): Ghost<Cursor>,
        Ghost(c2): Ghost<Cursor>,
    ) -> (remain: Vec<usize>)
        requires
            first <= upto <= origin.len(),
            old(self).pgh_views.len() == origin.len(),
            doc_wf(old(self).doc()),
            recorded(old(self).doc(), origin, old(undo)@, old(redo)@),
            line_set.len() == upto - first,
            forall|k: int|
                0 <= k < line_set.len() ==> texts((#[trigger] line_set[k])@) == origin[first
                    + k].delete((first + k) as usize, c1, c2),
        ensures
            final(self).doc() == drop_emptied(
                old(self).doc(),
                origin,
                c1,
                c2,
                first as int,
                upto as int,
            ),
            remain@.map_values(|l: usize| l as int) == kept_lines(
                origin,
                c1,
                c2,
                first as int,
                upto as int,
            ),
            final(self).same_but_doc(old(self)),
            doc_wf(final(self).doc()),
            recorded(final(self).doc(), origin, final(undo)@, final(redo)@),
            final(undo).cursor == old(undo).cursor,
            final(redo).cursor == old(redo).cursor,
    {
        let mut remain: Vec<usize> = Vec::new();
        let mut line = upto;
        proof {
            assert(remain@.map_values(|l: usize| l as int) =~= kept_lines(
                origin,
                c1,
                c2,
                upto as int,
                upto as int,
            ));
        }
        while line > first
            invariant
                first <= line <= upto <= origin.len(),
                self.pgh_views.len() >= line,
                doc_wf(self.doc()),
                recorded(self.doc(), origin, undo@, redo@),
                undo.cursor == old(undo).cursor,
                redo.cursor == old(redo).cursor,
                line_set.len() == upto - first,
                forall|k: int|
                    0 <= k < line_set.len() ==> texts((#[trigger] line_set[k])@) == origin[first
                        + k].delete((first + k) as usize, c1, c2),
                drop_emptied(self.doc(), origin, c1, c2, first as int, line as int) == drop_emptied(
                    old(self).doc(),
                    origin,
                    c1,
                    c2,
                    first as int,
                    upto as int,
                ),
                remain@.map_values(|l: usize| l as int) == kept_lines(
                    origin,
                    c1,
                    c2,
                    line as int,
                    upto as int,
                ),
                self.same_but_doc(old(self)),
            decreases line,
        {
            line -= 1;
            let joined = concat_texts(&line_set[line - first]);
            proof {
                assert(self.doc().len() == self.pgh_views.len());
                assert(texts(line_set[line - first]@) == origin[line as int].delete(line, c1, c2));
            }
            if joined.as_str().is_empty() {
                self.record_remove(undo, redo, line, Ghost(origin));
                proof {
                    assert(self.doc().len() == self.pgh_views.len());
                }
            } else {
                let ghost before = remain@.map_values(|l: usize| l as int);
                remain.push(line);
                proof {
                    assert(remain@.map_values(|l: usize| l as int) =~= before.push(line as int));
                }
            }
        }
        proof {
            assert(drop_emptied(self.doc(), origin, c1, c2, first as int, first as int)
                == self.doc());
        }
        remain
    }

    /// Makes one line of the two that a deletion left with text: where
    /// they neighbour each other and neither is a table, `tail` goes behind
    /// the last of the first `segments` segments of line `low`, which held
    /// `last_text`, and the line after it goes.
    #[verifier::rlimit(50)]
    fn join_touched(
        &mut self,
        undo: &mut DoCmd,
        redo: &mut DoCmd,
        low: usize,
        segments: usize,
        last_text: &str,
        tail: &str,
        Ghost(origin): Ghost<Seq<PghModel>>,
    )
        requires
            doc_wf(old(self).doc()),
            recorded(old(self).doc(), origin, old(undo)@, old(redo)@),
        ensures
            final(self).doc() == lines_joined(
                old(self).doc(),
                low as int,
                segments as int,
                last_text@,
                tail@,
            ),
            final(self).same_but_doc(old(self)),
            doc_wf(final(self).doc()),
            recorded(final(self).doc(), origin, final(undo)@, final(redo)@),
            final(undo).cursor == old(undo).cursor,
            final(redo).cursor == old(redo).cursor,
    {
        proof {
            assert(self.doc().len() == self.pgh_views.len());
        }
        if low < usize::MAX && low + 1 < self.pgh_views.len() {
            proof {
                assert(self.doc()[low as int] == self.pgh_views[low as int]@);
                assert(self.doc()[low + 1] == self.pgh_views[low + 1]@);
                assert(self.doc()[low as int].wf());
            }
            if !self.pgh_views[low + 1].is_table() && !self.pgh_views[low].is_table() {
                let mut new = self.pgh_views[low].clone();
                let joined = text_concat(last_text, tail);
                if segments > 0 {
                    new.update_segment_text(segments - 1, joined);
                }
                self.record_update(undo, redo, low, new, Ghost(origin));
                proof {
                    assert(self.doc().len() == self.pgh_views.len());
                }
                self.record_remove(undo, redo, low + 1, Ghost(origin));
            }
        }
    }

    /// Deletes the selection and gives the commands that undo and redo
    /// the deletion. Both cursors end where the selection started. Without
    /// a selection nothing changes and the commands have no steps.
    #[verifier::rlimit(50)]
    pub fn delete_func(&mut self) -> (r: (DoCmd, DoCmd))
        requires
            old(self).wf(),
        ensures
            final(self).wf(),
            final(self).doc() == deleted_doc(
                old(self).doc(),
                old(self).state.cursor1,
                old(self).state.cursor2,
            ),
            recorded(final(self).doc(), old(self).doc(), r.0@, r.1@),
            old(self).state.cursor1 == old(self).state.cursor2 ==> r.0.items@.len() == 0
                && r.1.items@.len() == 0 && r.0@.steps.len() == 0 && r.1@.steps.len() == 0,
            r.0.cursor == old(self).state.cursor2,
            r.1.cursor == old(self).state.cursor1,
            final(self).state == old(self).state_after_delete(),
            final(self).do_mngr == old(self).do_mngr,
            final(self).same_cache == old(self).same_cache,
            final(self).same_surroundings(old(self)),
    {
        let mut undo_cmd = DoCmd::new();
        let mut redo_cmd = DoCmd::new();
        let c1 = self.state.cursor1;
        let c2 = self.state.cursor2;
        undo_cmd.set_cursor(c2);
        redo_cmd.set_cursor(c1);
        let ghost origin = self.doc();
        if !self.is_selected() {
            return (undo_cmd, redo_cmd);
        }
        proof {
            assert(self.doc().len() == self.pgh_views.len());
        }
        let (first, upto) = match self.current_cursor_lines() {
            Some(l) => (l.0, l.1 + 1),
            None => (0, 0),
        };
        let line_set = self.texts_after_delete(first, upto, &c1, &c2);
        self.set_cursors_to_min();
        self.trim_touched(
            &mut undo_cmd,
            &mut redo_cmd,
            first,
            upto,
            &line_set,
            Ghost(origin),
            Ghost(c1),
            Ghost(c2),
        );
        proof {
            assert(self.doc().len() == self.pgh_views.len());
        }
        let remain = self.drop_touched(
            &mut undo_cmd,
            &mut redo_cmd,
            first,
            upto,
            &line_set,
            Ghost(origin),
            Ghost(c1),
            Ghost(c2),
        );
        let ghost kept = kept_lines(origin, c1, c2, first as int, upto as int);
        proof {
            assert(self.doc().len() == self.pgh_views.len());
            assert(remain@.map_values(|l: usize| l as int).len() == remain.len());
        }
        if remain.len() == 0 {
            let at = if self.state.cursor2.line_no > self.pgh_views.len() {
                self.pgh_views.len()
            } else {
                self.state.cursor2.line_no
            };
            let fresh = PghView::from_text(String::new());
            self.record_insert(&mut undo_cmd, &mut redo_cmd, at, fresh, Ghost(origin));
        } else if remain.len() == 2 {
            let low = remain[1];
            let high = remain[0];
            proof {
                assert(remain@.map_values(|l: usize| l as int)[1] == low);
                assert(remain@.map_values(|l: usize| l as int)[0] == high);
                lemma_kept_lines_in_range(origin, c1, c2, first as int, upto as int, 0);
                lemma_kept_lines_in_range(origin, c1, c2, first as int, upto as int, 1);
                assert(texts(line_set[low - first]@) == origin[low as int].delete(low, c1, c2));
                assert(texts(line_set[high - first]@) == origin[high as int].delete(high, c1, c2));
            }
            let left = &line_set[low - first];
            let tail = concat_texts(&line_set[high - first]);
            let last_text = if left.len() > 0 {
                proof {
                    assert(texts(left@).last() == left@[left.len() - 1]@);
                }
                left[left.len() - 1].clone()
            } else {
                String::new()
            };
            proof {
                assert(texts(left@).len() == left.len());
            }
            self.join_touched(
                &mut undo_cmd,
                &mut redo_cmd,
                low,
                left.len(),
                last_text.as_str(),
                tail.as_str(),
                Ghost(origin),
            );
        }
        (undo_cmd, redo_cmd)
    }

    /// The state after a deletion: both cursors where the selection
    /// started.
    pub open spec fn state_after_delete(&self) -> State {
        State {
            cursor1: self.state.cursor1.spec_min(self.state.cursor2),
            cursor2: self.state.cursor1.spec_min(self.state.cursor2),
            ..self.state
        }
    }
}

/// What a deletion leaves of a well-formed paragraph is well formed.
pub proof fn lemma_trimmed_wf(p: PghModel, line_no: usize, c1: Cursor, c2: Cursor)
    requires
        p.wf(),
    ensures
        p.trimmed(line_no, c1, c2).wf(),
{
    if p.table_info is Some {
        assert(!p.is_code());
        assert(p.delete(line_no, c1, c2).len() == p.segs.len());
    }
}

/// Every line that is kept lies among the lines touched.
pub proof fn lemma_kept_lines_in_range(
    origin: Seq<PghModel>,
    c1: Cursor,
    c2: Cursor,
    first: int,
    upto: int,
    k: int,
)
    requires
        0 <= first <= upto <= origin.len(),
        0 <= k < kept_lines(origin, c1, c2, first, upto).len(),
    ensures
        first <= kept_lines(origin, c1, c2, first, upto)[k] < upto,
    decreases upto - first,
{
    if first < upto {
        let rest = kept_lines(origin, c1, c2, first + 1, upto);
        if k < rest.len() {
            lemma_kept_lines_in_range(origin, c1, c2, first + 1, upto, k);
        }
    }
}

} // verus!
