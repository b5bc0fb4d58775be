//! Commands that record an edit line by line, and the history of such
//! commands.

use crate::cursor::Cursor;
use crate::pgh::{PghModel, PghView};
use vstd::prelude::*;

verus! {

/// A line number and, where the step needs one, a snapshot of a paragraph.
#[derive(Debug)]
pub struct DoLine {
    pub line: usize,
    pub pgh_view: Option<PghView>,
}

/// One step of a command.
#[derive(Debug)]
pub enum DoItem {
    /// Puts the snapshot in as line `line`.
    Insert(DoLine),
    /// Takes line `line` out.
    Delete(DoLine),
    /// Replaces the content of line `line` by the snapshot.
    Update(DoLine),
}

/// The steps of one edit, or of its reversal, and the cursor to restore.
#[derive(Debug)]
pub struct DoCmd {
    pub cursor: Cursor,
    pub items: Vec<DoItem>,
}

/// The history: pairs of an undo and a redo command, and the number of
/// pairs that are applied.
pub struct DoMngr {
    pub index: usize,
    pub do_list: Vec<(DoCmd, DoCmd)>,
}

pub enum StepKind {
    Insert,
    Delete,
    Update,
}

/// The mathematical model of a step.
pub struct StepModel {
    pub kind: StepKind,
    pub line: usize,
    pub pgh: Option<PghModel>,
}

/// The model of an optional paragraph.
pub open spec fn opt_pgh(o: Option<PghView>) -> Option<PghModel> {
    match o {
        Some(p) => Some(p@),
        None => None,
    }
}

impl View for DoItem {
    type V = StepModel;

    open spec fn view(&self) -> StepModel {
        match *self {
            DoItem::Insert(l) => StepModel { kind: StepKind::Insert, line: l.line, pgh: opt_pgh(l.pgh_view) },
            DoItem::Delete(l) => StepModel { kind: StepKind::Delete, line: l.line, pgh: opt_pgh(l.pgh_view) },
            DoItem::Update(l) => StepModel { kind: StepKind::Update, line: l.line, pgh: opt_pgh(l.pgh_view) },
        }
    }
}

/// The models of a sequence of steps.
pub open spec fn step_models(v: Seq<DoItem>) -> Seq<StepModel> {
    Seq::new(v.len(), |i: int| v[i]@)
}

/// The mathematical model of a command.
pub struct CmdModel {
    pub cursor: Cursor,
    pub steps: Seq<StepModel>,
}

impl View for DoCmd {
    type V = CmdModel;

    open spec fn view(&self) -> CmdModel {
        CmdModel { cursor: self.cursor, steps: step_models(self.items@) }
    }
}

impl StepModel {
    /// A step whose snapshot, if it has one, is well formed.
    pub open spec fn wf(self) -> bool {
        self.pgh matches Some(p) ==> p.wf()
    }

    /// The document after the step. An insertion past the end, and a
    /// deletion or an update of a line that is not there, change nothing;
    /// nor does an insertion or an update without a snapshot.
    pub open spec fn apply(self, doc: Seq<PghModel>) -> Seq<PghModel> {
        match self.kind {
            StepKind::Insert => match self.pgh {
                Some(p) => if self.line <= doc.len() {
                    doc.insert(self.line as int, p)
                } else {
                    doc
                },
                None => doc,
            },
            StepKind::Delete => if self.line < doc.len() {
                doc.remove(self.line as int)
            } else {
                doc
            },
            StepKind::Update => match self.pgh {
                Some(p) => if self.line < doc.len() {
                    doc.update(self.line as int, p)
                } else {
                    doc
                },
                None => doc,
            },
        }
    }
}

/// The document after the steps, applied first to last.
pub open spec fn replay(doc: Seq<PghModel>, steps: Seq<StepModel>) -> Seq<PghModel>
    decreases steps.len(),
{
    if steps.len() == 0 {
        doc
    } else {
        steps.last().apply(replay(doc, steps.drop_last()))
    }
}

/// The document after the steps, applied last to first.
pub open spec fn replay_back(doc: Seq<PghModel>, steps: Seq<StepModel>) -> Seq<PghModel>
    decreases steps.len(),
{
    if steps.len() == 0 {
        doc
    } else {
        replay_back(steps.last().apply(doc), steps.drop_last())
    }
}

/// Whether every paragraph of a document is well formed.
pub open spec fn doc_wf(doc: Seq<PghModel>) -> bool {
    forall|i: int| 0 <= i < doc.len() ==> (#[trigger] doc[i]).wf()
}

impl CmdModel {
    pub open spec fn wf(self) -> bool {
        forall|i: int| 0 <= i < self.steps.len() ==> (#[trigger] self.steps[i]).wf()
    }
}

pub proof fn lemma_step_models_push(v: Seq<DoItem>, s: DoItem)
    ensures
        step_models(v.push(s)) == step_models(v).push(s@),
{
    assert(step_models(v.push(s)) =~= step_models(v).push(s@));
}

/// A step keeps a well-formed document well formed.
pub proof fn lemma_apply_wf(step: StepModel, doc: Seq<PghModel>)
    requires
        step.wf(),
        doc_wf(doc),
    ensures
        doc_wf(step.apply(doc)),
{
    let out = step.apply(doc);
    assert forall|i: int| 0 <= i < out.len() implies (#[trigger] out[i]).wf() by {
        match step.kind {
            StepKind::Insert => {
                if step.pgh is Some && step.line <= doc.len() {
                    if i < step.line {
                        assert(out[i] == doc[i]);
                    } else if i > step.line {
                        assert(out[i] == doc[i - 1]);
                    }
                }
            },
            StepKind::Delete => {
                if step.line < doc.len() {
                    if i < step.line {
                        assert(out[i] == doc[i]);
                    } else {
                        assert(out[i] == doc[i + 1]);
                    }
                }
            },
            StepKind::Update => {
                if step.pgh is Some && step.line < doc.len() {
                    if i != step.line {
                        assert(out[i] == doc[i]);
                    }
                }
            },
        }
    }
}

/// Replaying one more step forward applies it to what the others gave.
pub proof fn lemma_replay_push(doc: Seq<PghModel>, steps: Seq<StepModel>, step: StepModel)
    ensures
        replay(doc, steps.push(step)) == step.apply(replay(doc, steps)),
{
    assert(steps.push(step).drop_last() =~= steps);
}

/// Replaying backward with one more step at the end applies that step
/// first.
pub proof fn lemma_replay_back_push(doc: Seq<PghModel>, steps: Seq<StepModel>, step: StepModel)
    ensures
        replay_back(doc, steps.push(step)) == replay_back(step.apply(doc), steps),
{
    assert(steps.push(step).drop_last() =~= steps);
}

impl Clone for DoLine {
    fn clone(&self) -> (r: Self)
        ensures
            r.line == self.line,
            opt_pgh(r.pgh_view) == opt_pgh(self.pgh_view),
    {
        DoLine {
            line: self.line,
            pgh_view: match &self.pgh_view {
                Some(p) => Some(p.clone()),
                None => None,
            },
        }
    }
}

impl Clone for DoItem {
    fn clone(&self) -> (r: Self)
        ensures
            r@ == self@,
    {
        match self {
            DoItem::Insert(l) => DoItem::Insert(l.clone()),
            DoItem::Delete(l) => DoItem::Delete(l.clone()),
            DoItem::Update(l) => DoItem::Update(l.clone()),
        }
    }
}

impl Clone for DoCmd {
    fn clone(&self) -> (r: Self)
        ensures
            r@ == self@,
    {
        let mut items: Vec<DoItem> = Vec::new();
        let mut i: usize = 0;
        while i < self.items.len()
            invariant
                0 <= i <= self.items.len(),
                step_models(items@) =~= step_models(self.items@).take(i as int),
            decreases self.items.len() - i,
        {
            let it = self.items[i].clone();
            proof {
                lemma_step_models_push(items@, it);
            }
            items.push(it);
            i += 1;
        }
        proof {
            assert(step_models(self.items@).take(self.items.len() as int) =~= step_models(
                self.items@,
            ));
        }
        DoCmd { cursor: self.cursor, items }
    }
}

impl DoCmd {
    /// A command without steps, with the cursor at the document's start.
    pub fn new() -> (r: Self)
        ensures
            r@ == (CmdModel {
                cursor: Cursor { line_no: 0, segment: 0, culumn: 0 },
                steps: Seq::empty(),
            }),
    {
        let r = DoCmd { cursor: Cursor { line_no: 0, segment: 0, culumn: 0 }, items: Vec::new() };
        proof {
            assert(r@.steps =~= Seq::empty());
        }
        r
    }

    pub fn push_insert(&mut self, line: usize, pgh_view: Option<PghView>)
        ensures
            final(self)@ == (CmdModel {
                steps: old(self)@.steps.push(
                    StepModel { kind: StepKind::Insert, line, pgh: opt_pgh(pgh_view) },
                ),
                ..old(self)@
            }),
    {
        let item = DoItem::Insert(DoLine { line, pgh_view });
        proof {
            lemma_step_models_push(self.items@, item);
        }
        self.items.push(item);
    }

    pub fn push_delete(&mut self, line: usize)
        ensures
            final(self)@ == (CmdModel {
                steps: old(self)@.steps.push(StepModel { kind: StepKind::Delete, line, pgh: None }),
                ..old(self)@
            }),
    {
        let item = DoItem::Delete(DoLine { line, pgh_view: None });
        proof {
            lemma_step_models_push(self.items@, item);
        }
        self.items.push(item);
    }

    pub fn push_update(&mut self, line: usize, pgh_view: Option<PghView>)
        ensures
            final(self)@ == (CmdModel {
                steps: old(self)@.steps.push(
                    StepModel { kind: StepKind::Update, line, pgh: opt_pgh(pgh_view) },
                ),
                ..old(self)@
            }),
    {
        let item = DoItem::Update(DoLine { line, pgh_view });
        proof {
            lemma_step_models_push(self.items@, item);
        }
        self.items.push(item);
    }

    pub fn set_cursor(&mut self, cursor: Cursor)
        ensures
            final(self)@ == (CmdModel { cursor, ..old(self)@ }),
    {
        self.cursor = cursor;
    }
}

/// The models of the pairs of a history.
pub open spec fn pair_models(v: Seq<(DoCmd, DoCmd)>) -> Seq<(CmdModel, CmdModel)> {
    Seq::new(v.len(), |i: int| (v[i].0@, v[i].1@))
}

/// The mathematical model of a history.
pub struct HistoryModel {
    pub index: usize,
    pub pairs: Seq<(CmdModel, CmdModel)>,
}

impl View for DoMngr {
    type V = HistoryModel;

    open spec fn view(&self) -> HistoryModel {
        HistoryModel { index: self.index, pairs: pair_models(self.do_list@) }
    }
}

impl HistoryModel {
    /// The applied part is no longer than the history, and every snapshot
    /// is well formed.
    pub open spec fn wf(self) -> bool {
        &&& self.index <= self.pairs.len()
        &&& forall|i: int|
            0 <= i < self.pairs.len() ==> (#[trigger] self.pairs[i]).0.wf() && self.pairs[i].1.wf()
    }

    /// The history after a new pair is recorded: what lay past the applied
    /// part is dropped, the pair is appended and counts as applied.
    pub open spec fn pushed(self, undo: CmdModel, redo: CmdModel) -> HistoryModel {
        HistoryModel {
            index: (self.index + 1) as usize,
            pairs: self.pairs.take(self.index as int).push((undo, redo)),
        }
    }
}

impl DoMngr {
    /// An empty history.
    pub fn new() -> (r: DoMngr)
        ensures
            r@ == (HistoryModel { index: 0, pairs: Seq::empty() }),
            r@.wf(),
    {
        let r = DoMngr { index: 0, do_list: Vec::new() };
        proof {
            assert(r@.pairs =~= Seq::empty());
        }
        r
    }
}

impl Clone for DoMngr {
    fn clone(&self) -> (r: Self)
        ensures
            r@ == self@,
    {
        let mut list: Vec<(DoCmd, DoCmd)> = Vec::new();
        let mut i: usize = 0;
        while i < self.do_list.len()
            invariant
                0 <= i <= self.do_list.len(),
                pair_models(list@) =~= pair_models(self.do_list@).take(i as int),
            decreases self.do_list.len() - i,
        {
            let pair = (self.do_list[i].0.clone(), self.do_list[i].1.clone());
            proof {
                assert(pair_models(list@.push(pair)) =~= pair_models(list@).push((pair.0@, pair.1@)));
                assert(pair_models(self.do_list@).take(i + 1) =~= pair_models(self.do_list@).take(
                    i as int,
                ).push((pair.0@, pair.1@)));
            }
            list.push(pair);
            i += 1;
        }
        proof {
            assert(pair_models(self.do_list@).take(self.do_list.len() as int) =~= pair_models(
                self.do_list@,
            ));
        }
        DoMngr { index: self.index, do_list: list }
    }
}

} // verus!
