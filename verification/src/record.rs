//! Changing the document while recording each change in an undo and a
//! redo command.

use crate::ctx::Ctx;
use crate::md::pgh_models;
use crate::pgh::{PghModel, PghView};
use crate::undo::{
    doc_wf, lemma_replay_back_push, lemma_replay_push, replay, replay_back, CmdModel, DoCmd,
    StepKind, StepModel,
};
use vstd::prelude::*;

verus! {

/// Whether an undo and a redo command record the way from document
/// `origin` to document `now`: the undo steps, replayed last to first, lead
/// from `now` back to `origin`, and the redo steps, replayed first to
/// last, lead from `origin` to `now`.
pub open spec fn recorded(
    now: Seq<PghModel>,
    origin: Seq<PghModel>,
    undo: CmdModel,
    redo: CmdModel,
) -> bool {
    &&& replay_back(now, undo.steps) == origin
    &&& replay(origin, redo.steps) == now
    &&& undo.wf()
    &&& redo.wf()
}

impl Ctx {
    /// Replaces the content of line `line` by that of `new` and records
    /// the change. The line keeps its change counter.
    pub(crate) fn record_update(
        &mut self,
        undo: &mut DoCmd,
        redo: &mut DoCmd,
        line: usize,
        new: PghView,
        Ghost(origin): Ghost<Seq<PghModel>>,
    )
        requires
            line < old(self).pgh_views.len(),
            new@.wf(),
            doc_wf(old(self).doc()),
            recorded(old(self).doc(), origin, old(undo)@, old(redo)@),
        ensures
            final(self).doc() == old(self).doc().update(line as int, new@),
            final(self).same_but_doc(old(self)),
            doc_wf(final(self).doc()),
            recorded(final(self).doc(), origin, final(undo)@, final(redo)@),
            final(undo).cursor == old(undo).cursor,
            final(redo).cursor == old(redo).cursor,
    {
        let before = self.pgh_views[line].clone();
        let ghost step_back = StepModel { kind: StepKind::Update, line, pgh: Some(before@) };
        let ghost step_on = StepModel { kind: StepKind::Update, line, pgh: Some(new@) };
        let ghost doc0 = self.doc();
        proof {
            assert(doc0[line as int] == self.pgh_views[line as int]@);
            assert(doc0[line as int].wf());
            lemma_replay_back_push(doc0.update(line as int, new@), undo@.steps, step_back);
            lemma_replay_push(origin, redo@.steps, step_on);
            assert(step_back.apply(doc0.update(line as int, new@)) =~= doc0);
        }
        let mut p = new.clone();
        p.change_tick = before.change_tick;
        undo.push_update(line, Some(before));
        self.pgh_views.set(line, p);
        redo.push_update(line, Some(new));
        proof {
            assert(self.doc() =~= doc0.update(line as int, new@));
            assert forall|i: int| 0 <= i < self.doc().len() implies (#[trigger] self.doc()[i]).wf() by {
                if i != line {
                    assert(self.doc()[i] == doc0[i]);
                }
            }
        }
    }

    /// Takes line `line` out of the document and records the change.
    pub(crate) fn record_remove(
        &mut self,
        undo: &mut DoCmd,
        redo: &mut DoCmd,
        line: usize,
        Ghost(origin): Ghost<Seq<PghModel>>,
    )
        requires
            line < old(self).pgh_views.len(),
            doc_wf(old(self).doc()),
            recorded(old(self).doc(), origin, old(undo)@, old(redo)@),
        ensures
            final(self).doc() == old(self).doc().remove(line as int),
            final(self).same_but_doc(old(self)),
            doc_wf(final(self).doc()),
            recorded(final(self).doc(), origin, final(undo)@, final(redo)@),
            final(undo).cursor == old(undo).cursor,
            final(redo).cursor == old(redo).cursor,
    {
        let before = self.pgh_views[line].clone();
        let ghost step_back = StepModel { kind: StepKind::Insert, line, pgh: Some(before@) };
        let ghost step_on = StepModel { kind: StepKind::Delete, line, pgh: None };
        let ghost doc0 = self.doc();
        proof {
            assert(doc0[line as int] == self.pgh_views[line as int]@);
            assert(doc0[line as int].wf());
            lemma_replay_back_push(doc0.remove(line as int), undo@.steps, step_back);
            lemma_replay_push(origin, redo@.steps, step_on);
            assert(step_back.apply(doc0.remove(line as int)) =~= doc0);
        }
        undo.push_insert(line, Some(before));
        self.pgh_views.remove(line);
        redo.push_delete(line);
        proof {
            assert(self.doc() =~= doc0.remove(line as int));
            assert forall|i: int| 0 <= i < self.doc().len() implies (#[trigger] self.doc()[i]).wf() by {
                if i < line {
                    assert(self.doc()[i] == doc0[i]);
                } else {
                    assert(self.doc()[i] == doc0[i + 1]);
                }
            }
        }
    }

    /// Puts `new` into the document as line `line` and records the change.
    pub(crate) fn record_insert(
        &mut self,
        undo: &mut DoCmd,
        redo: &mut DoCmd,
        line: usize,
        new: PghView,
        Ghost(origin): Ghost<Seq<PghModel>>,
    )
        requires
            line <= old(self).pgh_views.len(),
            new@.wf(),
            doc_wf(old(self).doc()),
            recorded(old(self).doc(), origin, old(undo)@, old(redo)@),
        ensures
            final(self).doc() == old(self).doc().insert(line as int, new@),
            final(self).same_but_doc(old(self)),
            doc_wf(final(self).doc()),
            recorded(final(self).doc(), origin, final(undo)@, final(redo)@),
            final(undo).cursor == old(undo).cursor,
            final(redo).cursor == old(redo).cursor,
    {
        let ghost step_back = StepModel { kind: StepKind::Delete, line, pgh: None };
        let ghost step_on = StepModel { kind: StepKind::Insert, line, pgh: Some(new@) };
        let ghost doc0 = self.doc();
        proof {
            lemma_replay_back_push(doc0.insert(line as int, new@), undo@.steps, step_back);
            lemma_replay_push(origin, redo@.steps, step_on);
            assert(step_back.apply(doc0.insert(line as int, new@)) =~= doc0);
        }
        let copy = new.clone();
        undo.push_delete(line);
        self.pgh_views.insert(line, new);
        redo.push_insert(line, Some(copy));
        proof {
            assert(self.doc() =~= doc0.insert(line as int, new@));
            assert forall|i: int| 0 <= i < self.doc().len() implies (#[trigger] self.doc()[i]).wf() by {
                if i < line {
                    assert(self.doc()[i] == doc0[i]);
                } else if i > line {
                    assert(self.doc()[i] == doc0[i - 1]);
                }
            }
        }
    }
}

} // verus!
