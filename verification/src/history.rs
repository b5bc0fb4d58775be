//! Recording commands in the history and replaying them: undo and redo.

use crate::cmd::{FindModel, FindReplaceCtx};
use crate::ctx::{Ctx, FindCache, State};
use crate::ctx_cursor::selected_text_of;
use crate::cursor::Cursor;
use crate::find_doc::{doc_items, FindItemModel};
use crate::md::{lemma_pgh_models_push, pgh_models};
use crate::pgh::{PghModel, PghView};
use crate::undo::{
    doc_wf, lemma_apply_wf, pair_models, replay, replay_back, step_models, CmdModel, DoCmd,
    DoItem, HistoryModel, StepModel,
};
use vstd::prelude::*;

verus! {

/// A counter after one more count; it stays at its greatest value.
pub open spec fn counted_up(n: int, max: int) -> int {
    if n < max {
        n + 1
    } else {
        n
    }
}

/// The settings of a plain search for `find` that minds the case.
pub open spec fn sample_model(find: Seq<char>) -> FindModel {
    FindModel {
        find,
        replace: Seq::empty(),
        is_case: true,
        is_hole_word: false,
        is_reg: false,
        cmd: None,
        regex: None,
    }
}

/// The first and the line behind the last of the lines in which the
/// selected text is looked for again: a hundred lines around those shown.
pub open spec fn same_word_lines(top: usize, bottom: usize, len: int) -> (int, int) {
    (
        if top >= 100 {
            top - 100
        } else {
            0
        },
        if bottom + 100 < len {
            bottom + 100
        } else {
            len
        },
    )
}

/// The places where the selected text occurs again, as they are marked
/// after a change: those of the text selected on one line, none without
/// such a selection, and the old ones where marking is switched off.
pub open spec fn same_word_items(
    doc: Seq<PghModel>,
    state: State,
    highlight: bool,
    before: Seq<FindItemModel>,
) -> Seq<FindItemModel> {
    if !highlight {
        before
    } else if state.cursor1 != state.cursor2 && state.cursor1.line_no == state.cursor2.line_no {
        let lines = same_word_lines(state.top_line, state.bottom_line, doc.len() as int);
        doc_items(
            doc,
            sample_model(selected_text_of(doc, state.cursor1, state.cursor2, true)),
            false,
            lines.0,
            lines.1,
        )
    } else {
        Seq::empty()
    }
}

/// The state after a change of content is noted.
pub open spec fn changed_state(state: State) -> State {
    State {
        content_change_tick: counted_up(state.content_change_tick as int, u64::MAX as int) as u64,
        ime_area_changed: true,
        ..state
    }
}

impl Ctx {
    /// Whether this session differs from `before` at most in its document
    /// and the change counters of its paragraphs.
    pub open spec fn same_but_doc(&self, before: &Ctx) -> bool {
        &&& self.patch_num == before.patch_num
        &&& self.state == before.state
        &&& self.state_changed == before.state_changed
        &&& self.open_time == before.open_time
        &&& self.do_mngr == before.do_mngr
        &&& self.cmd_list == before.cmd_list
        &&& self.find_cache == before.find_cache
        &&& self.find_param == before.find_param
        &&& self.same_cache == before.same_cache
        &&& self.cfg == before.cfg
    }

    /// What an edit leaves alone: the settings, the waiting commands, the
    /// last search and what is shown.
    pub open spec fn same_surroundings(&self, before: &Ctx) -> bool {
        &&& self.patch_num == before.patch_num
        &&& self.state_changed == before.state_changed
        &&& self.open_time == before.open_time
        &&& self.cmd_list == before.cmd_list
        &&& self.find_cache == before.find_cache
        &&& self.find_param == before.find_param
        &&& self.cfg == before.cfg
        &&& self.state.top_line == before.state.top_line
        &&& self.state.bottom_line == before.state.bottom_line
        &&& self.state.scroll_to_line == before.state.scroll_to_line
        &&& self.state.cursor2_bak == before.state.cursor2_bak
        &&& self.state.cursor_show_time == before.state.cursor_show_time
        &&& self.state.cursor_show_bool == before.state.cursor_show_bool
        &&& self.state.selecting == before.state.selecting
        &&& self.state.is_pointer_gone == before.state.is_pointer_gone
    }

    /// Counts a change of line `line_no`.
    pub fn line_change_tick(&mut self, line_no: usize)
        ensures
            final(self).doc() == old(self).doc(),
            final(self).same_but_doc(old(self)),
            final(self).pgh_views.len() == old(self).pgh_views.len(),
            forall|i: int|
                0 <= i < old(self).pgh_views.len() ==> (#[trigger] final(self).pgh_views[i]).change_tick
                    == (if i == line_no {
                    counted_up(old(self).pgh_views[i].change_tick as int, usize::MAX as int)
                } else {
                    old(self).pgh_views[i].change_tick as int
                }),
    {
        if line_no < self.pgh_views.len() {
            let mut p = self.pgh_views[line_no].clone();
            if p.change_tick < usize::MAX {
                p.change_tick += 1;
            }
            self.pgh_views.set(line_no, p);
            proof {
                assert(final(self).doc() =~= old(self).doc());
            }
        }
    }

    /// Whether line `line_no` changed since it was last asked; clears its
    /// counter. A line that is not there counts as changed.
    pub fn line_change_reset(&mut self, line_no: usize) -> (changed: bool)
        ensures
            final(self).doc() == old(self).doc(),
            final(self).same_but_doc(old(self)),
            changed == (line_no >= old(self).pgh_views.len() || old(self).pgh_views[line_no as int].change_tick > 0),
            final(self).pgh_views.len() == old(self).pgh_views.len(),
            forall|i: int|
                0 <= i < old(self).pgh_views.len() ==> (#[trigger] final(self).pgh_views[i]).change_tick
                    == (if i == line_no {
                    0
                } else {
                    old(self).pgh_views[i].change_tick
                }),
    {
        if line_no < self.pgh_views.len() {
            let mut p = self.pgh_views[line_no].clone();
            let changed = p.change_tick > 0;
            p.change_tick = 0;
            self.pgh_views.set(line_no, p);
            proof {
                assert(final(self).doc() =~= old(self).doc());
            }
            changed
        } else {
            true
        }
    }

    /// Counts a change of every line.
    pub fn line_change_flash(&mut self)
        ensures
            final(self).doc() == old(self).doc(),
            final(self).same_but_doc(old(self)),
            final(self).pgh_views.len() == old(self).pgh_views.len(),
            forall|i: int|
                0 <= i < old(self).pgh_views.len() ==> (#[trigger] final(self).pgh_views[i]).change_tick
                    == counted_up(old(self).pgh_views[i].change_tick as int, usize::MAX as int),
    {
        let mut i: usize = 0;
        while i < self.pgh_views.len()
            invariant
                0 <= i <= self.pgh_views.len(),
                self.doc() == old(self).doc(),
                self.same_but_doc(old(self)),
                self.pgh_views.len() == old(self).pgh_views.len(),
                forall|k: int|
                    0 <= k < self.pgh_views.len() ==> (#[trigger] self.pgh_views[k]).change_tick == (
                    if k < i {
                        counted_up(old(self).pgh_views[k].change_tick as int, usize::MAX as int)
                    } else {
                        old(self).pgh_views[k].change_tick as int
                    }),
            decreases self.pgh_views.len() - i,
        {
            self.line_change_tick(i);
            i += 1;
        }
    }

    /// Notes the end of a selection by the pointer; the lines are then
    /// laid out anew.
    pub fn mark_selecting(&mut self, selecting: bool)
        ensures
            final(self).doc() == old(self).doc(),
            final(self).state == (State { selecting, ..old(self).state }),
            final(self).do_mngr == old(self).do_mngr,
            final(self).cfg == old(self).cfg,
            final(self).pgh_views.len() == old(self).pgh_views.len(),
            forall|i: int|
                0 <= i < old(self).pgh_views.len() ==> (#[trigger] final(self).pgh_views[i]).change_tick
                    == (if old(self).state.selecting && !selecting {
                    counted_up(old(self).pgh_views[i].change_tick as int, usize::MAX as int)
                } else {
                    old(self).pgh_views[i].change_tick as int
                }),
    {
        if self.state.selecting && !selecting {
            self.line_change_flash();
        }
        self.state.selecting = selecting;
    }

    /// Switches between the dark and the light look; a switch lays the
    /// lines out anew.
    pub fn update_view_mode(&mut self, dark_mode: bool)
        ensures
            final(self).doc() == old(self).doc(),
            final(self).state == old(self).state,
            final(self).do_mngr == old(self).do_mngr,
            final(self).cfg == (crate::ctx::EditCfg { dark_mode, ..old(self).cfg }),
            final(self).pgh_views.len() == old(self).pgh_views.len(),
            forall|i: int|
                0 <= i < old(self).pgh_views.len() ==> (#[trigger] final(self).pgh_views[i]).change_tick
                    == (if old(self).cfg.dark_mode != dark_mode {
                    counted_up(old(self).pgh_views[i].change_tick as int, usize::MAX as int)
                } else {
                    old(self).pgh_views[i].change_tick as int
                }),
    {
        if self.cfg.dark_mode != dark_mode {
            self.cfg.dark_mode = dark_mode;
            self.line_change_flash();
        }
    }

    /// Marks anew the places where the selected text occurs again.
    pub fn flash_same_cache_with_seleted(&mut self)
        requires
            old(self).wf(),
        ensures
            final(self).same_cache@ == same_word_items(
                old(self).doc(),
                old(self).state,
                old(self).cfg.hightlight_seleted_word,
                old(self).same_cache@,
            ),
            final(self).pgh_views == old(self).pgh_views,
            final(self).do_mngr == old(self).do_mngr,
            final(self).state == old(self).state,
            final(self).same_surroundings(old(self)),
    {
        if self.cfg.hightlight_seleted_word {
            if self.is_selected() && self.state.cursor1.line_no == self.state.cursor2.line_no {
                let select_text = self.get_selected_raw_text(true);
                let param = FindReplaceCtx::sample(select_text);
                let from_line = if self.state.top_line >= 100 {
                    self.state.top_line - 100
                } else {
                    0
                };
                let len = self.pgh_views.len();
                let end_line = if self.state.bottom_line < len && 100 < len
                    - self.state.bottom_line {
                    self.state.bottom_line + 100
                } else {
                    len
                };
                proof {
                    assert(self.doc().len() == len);
                }
                self.same_cache = self.find_all_func(&param, false, from_line, end_line);
            } else {
                self.same_cache = FindCache::new();
                proof {
                    assert(self.same_cache@ =~= Seq::<FindItemModel>::empty());
                }
            }
        }
    }

    /// Notes a change of content: counts it, marks the selected text anew
    /// and asks for the input area to be set again.
    pub fn content_change_state(&mut self)
        requires
            old(self).wf(),
        ensures
            final(self).state == changed_state(old(self).state),
            final(self).same_cache@ == same_word_items(
                old(self).doc(),
                old(self).state,
                old(self).cfg.hightlight_seleted_word,
                old(self).same_cache@,
            ),
            final(self).pgh_views == old(self).pgh_views,
            final(self).do_mngr == old(self).do_mngr,
            final(self).same_surroundings(old(self)),
            final(self).wf(),
    {
        if self.state.content_change_tick < u64::MAX {
            self.state.content_change_tick += 1;
        }
        self.flash_same_cache_with_seleted();
        self.state.ime_area_changed = true;
    }

    /// Records a pair of commands as applied: what lay past the applied
    /// part of the history is dropped. The lines that the redo command
    /// names count as changed.
    #[verifier::rlimit(50)]
    pub fn push_do(&mut self, undo: DoCmd, redo: DoCmd)
        requires
            old(self).wf(),
            undo@.wf(),
            redo@.wf(),
        ensures
            final(self).history() == old(self).history().pushed(undo@, redo@),
            final(self).history().index == old(self).history().index + 1,
            final(self).doc() == old(self).doc(),
            final(self).wf(),
            final(self).state == old(self).state,
            final(self).same_cache == old(self).same_cache,
            final(self).same_surroundings(old(self)),
    {
        let mut i: usize = 0;
        while i < redo.items.len()
            invariant
                0 <= i <= redo.items.len(),
                self.doc() == old(self).doc(),
                self.same_but_doc(old(self)),
            decreases redo.items.len() - i,
        {
            let line = match &redo.items[i] {
                DoItem::Insert(x) => x.line,
                DoItem::Delete(x) => x.line,
                DoItem::Update(x) => x.line,
            };
            self.line_change_tick(line);
            i += 1;
        }
        let index = self.do_mngr.index;
        proof {
            assert(pair_models(self.do_mngr.do_list@).len() == self.do_mngr.do_list.len());
        }
        self.do_mngr.do_list.truncate(index);
        self.do_mngr.do_list.push((undo, redo));
        self.do_mngr.index = self.do_mngr.do_list.len();
        proof {
            let before = old(self).history();
            let after = final(self).history();
            assert(after.pairs =~= before.pairs.take(before.index as int).push((undo@, redo@)));
            assert forall|k: int| 0 <= k < after.pairs.len() implies (#[trigger] after.pairs[k]).0.wf()
                && after.pairs[k].1.wf() by {
                if k < before.index {
                    assert(after.pairs[k] == before.pairs[k]);
                }
            }
        }
    }

    /// Replaces the content of line `line_no` by that of `pghview`; the
    /// line keeps its change counter.
    pub fn update_pgh(&mut self, line_no: usize, pghview: &PghView)
        ensures
            final(self).doc() == (if line_no < old(self).doc().len() {
                old(self).doc().update(line_no as int, pghview@)
            } else {
                old(self).doc()
            }),
            final(self).same_but_doc(old(self)),
    {
        if line_no < self.pgh_views.len() {
            let mut p = pghview.clone();
            p.change_tick = self.pgh_views[line_no].change_tick;
            self.pgh_views.set(line_no, p);
            proof {
                assert(final(self).doc() =~= old(self).doc().update(line_no as int, pghview@));
            }
        }
    }

    /// Replays one step of a command.
    pub fn ondo_item(&mut self, do_item: &DoItem)
        ensures
            final(self).doc() == do_item@.apply(old(self).doc()),
            final(self).same_but_doc(old(self)),
    {
        match do_item {
            DoItem::Insert(do_line) => {
                if let Some(pgh_view) = &do_line.pgh_view {
                    if do_line.line <= self.pgh_views.len() {
                        let p = pgh_view.clone();
                        self.pgh_views.insert(do_line.line, p);
                        proof {
                            assert(self.doc() =~= old(self).doc().insert(do_line.line as int, p@));
                        }
                    }
                }
                self.line_change_tick(do_line.line);
            },
            DoItem::Delete(do_line) => {
                if do_line.line < self.pgh_views.len() {
                    self.pgh_views.remove(do_line.line);
                    proof {
                        assert(self.doc() =~= old(self).doc().remove(do_line.line as int));
                    }
                }
            },
            DoItem::Update(do_line) => {
                if let Some(pgh_view) = &do_line.pgh_view {
                    self.update_pgh(do_line.line, pgh_view);
                }
                self.line_change_tick(do_line.line);
            },
        }
    }

    /// Replays the steps of a command first to last and puts both cursors
    /// where the command says.
    pub fn ondo_list(&mut self, do_list: &DoCmd)
        ensures
            final(self).doc() == replay(old(self).doc(), do_list@.steps),
            final(self).state == (State {
                cursor1: do_list.cursor,
                cursor2: do_list.cursor,
                ..old(self).state
            }),
            final(self).do_mngr == old(self).do_mngr,
            final(self).same_cache == old(self).same_cache,
            final(self).same_surroundings(old(self)),
    {
        let mut i: usize = 0;
        while i < do_list.items.len()
            invariant
                0 <= i <= do_list.items.len(),
                self.same_but_doc(old(self)),
                self.doc() == replay(old(self).doc(), do_list@.steps.take(i as int)),
            decreases do_list.items.len() - i,
        {
            proof {
                assert(do_list@.steps.take(i + 1).drop_last() =~= do_list@.steps.take(i as int));
                assert(do_list@.steps.take(i + 1).last() == do_list.items@[i as int]@);
            }
            self.ondo_item(&do_list.items[i]);
            i += 1;
        }
        proof {
            assert(do_list@.steps.take(do_list.items.len() as int) =~= do_list@.steps);
        }
        self.state.cursor2 = do_list.cursor;
        self.state.cursor1 = do_list.cursor;
    }

    /// Replays the steps of a command last to first and puts both cursors
    /// where the command says.
    pub fn ondo_list_back(&mut self, do_list: &DoCmd)
        ensures
            final(self).doc() == replay_back(old(self).doc(), do_list@.steps),
            final(self).state == (State {
                cursor1: do_list.cursor,
                cursor2: do_list.cursor,
                ..old(self).state
            }),
            final(self).do_mngr == old(self).do_mngr,
            final(self).same_cache == old(self).same_cache,
            final(self).same_surroundings(old(self)),
    {
        let mut i: usize = do_list.items.len();
        proof {
            assert(do_list@.steps.take(i as int) =~= do_list@.steps);
        }
        while i > 0
            invariant
                0 <= i <= do_list.items.len(),
                self.same_but_doc(old(self)),
                replay_back(self.doc(), do_list@.steps.take(i as int)) == replay_back(
                    old(self).doc(),
                    do_list@.steps,
                ),
            decreases i,
        {
            proof {
                assert(do_list@.steps.take(i as int).drop_last() =~= do_list@.steps.take(i - 1));
                assert(do_list@.steps.take(i as int).last() == do_list.items@[i - 1]@);
            }
            self.ondo_item(&do_list.items[i - 1]);
            i -= 1;
        }
        self.state.cursor2 = do_list.cursor;
        self.state.cursor1 = do_list.cursor;
    }

    /// Takes back the last applied command of the history, replaying the
    /// steps of its undo command last to first. Without an applied command
    /// nothing changes.
    #[verifier::rlimit(50)]
    pub fn undo(&mut self)
        requires
            old(self).wf(),
        ensures
            final(self).wf(),
            final(self).same_surroundings(old(self)),
            old(self).history().index == 0 ==> final(self).doc() == old(self).doc()
                && final(self).history() == old(self).history() && final(self).state == old(self).state && final(self).same_cache == old(self).same_cache,
            old(self).history().index > 0 ==> ({
                let cmd = old(self).history().pairs[old(self).history().index - 1].0;
                &&& final(self).doc() == replay_back(old(self).doc(), cmd.steps)
                &&& final(self).history() == (HistoryModel {
                    index: (old(self).history().index - 1) as usize,
                    ..old(self).history()
                })
                &&& final(self).state == changed_state(
                    State { cursor1: cmd.cursor, cursor2: cmd.cursor, ..old(self).state },
                )
                &&& final(self).same_cache@ == same_word_items(
                    final(self).doc(),
                    State { cursor1: cmd.cursor, cursor2: cmd.cursor, ..old(self).state },
                    old(self).cfg.hightlight_seleted_word,
                    old(self).same_cache@,
                )
            }),
    {
        if self.do_mngr.index == 0 {
            return ;
        }
        proof {
            assert(pair_models(self.do_mngr.do_list@).len() == self.do_mngr.do_list.len());
        }
        self.do_mngr.index -= 1;
        let cmd = self.do_mngr.do_list[self.do_mngr.index].0.clone();
        proof {
            assert(old(self).history().pairs[self.do_mngr.index as int].0 == cmd@);
            assert(cmd@.wf());
        }
        self.ondo_list_back(&cmd);
        proof {
            lemma_replay_back_wf(old(self).doc(), cmd@.steps);
        }
        self.content_change_state();
    }

    /// Applies the first command of the history that is not applied,
    /// replaying the steps of its redo command first to last. Without such
    /// a command nothing changes.
    #[verifier::rlimit(50)]
    pub fn redo(&mut self)
        requires
            old(self).wf(),
        ensures
            final(self).wf(),
            final(self).same_surroundings(old(self)),
            old(self).history().index >= old(self).history().pairs.len() ==> final(self).doc()
                == old(self).doc() && final(self).history() == old(self).history() && final(self).state == old(self).state && final(self).same_cache == old(self).same_cache,
            old(self).history().index < old(self).history().pairs.len() ==> ({
                let cmd = old(self).history().pairs[old(self).history().index as int].1;
                &&& final(self).doc() == replay(old(self).doc(), cmd.steps)
                &&& final(self).history() == (HistoryModel {
                    index: (old(self).history().index + 1) as usize,
                    ..old(self).history()
                })
                &&& final(self).state == changed_state(
                    State { cursor1: cmd.cursor, cursor2: cmd.cursor, ..old(self).state },
                )
                &&& final(self).same_cache@ == same_word_items(
                    final(self).doc(),
                    State { cursor1: cmd.cursor, cursor2: cmd.cursor, ..old(self).state },
                    old(self).cfg.hightlight_seleted_word,
                    old(self).same_cache@,
                )
            }),
    {
        proof {
            assert(pair_models(self.do_mngr.do_list@).len() == self.do_mngr.do_list.len());
        }
        if self.do_mngr.index >= self.do_mngr.do_list.len() {
            return ;
        }
        let cmd = self.do_mngr.do_list[self.do_mngr.index].1.clone();
        proof {
            assert(old(self).history().pairs[self.do_mngr.index as int].1 == cmd@);
            assert(cmd@.wf());
        }
        self.ondo_list(&cmd);
        self.do_mngr.index += 1;
        proof {
            lemma_replay_wf(old(self).doc(), cmd@.steps);
        }
        self.content_change_state();
    }
}

/// Whether every snapshot of a command is well formed.
pub fn cmd_is_wf(cmd: &DoCmd) -> (r: bool)
    ensures
        r == cmd@.wf(),
{
    let mut i: usize = 0;
    while i < cmd.items.len()
        invariant
            0 <= i <= cmd.items.len(),
            forall|k: int| 0 <= k < i ==> (#[trigger] cmd@.steps[k]).wf(),
        decreases cmd.items.len() - i,
    {
        proof {
            assert(cmd@.steps[i as int] == cmd.items@[i as int]@);
        }
        let line = match &cmd.items[i] {
            DoItem::Insert(l) => l,
            DoItem::Delete(l) => l,
            DoItem::Update(l) => l,
        };
        if let Some(p) = &line.pgh_view {
            if !p.is_wf() {
                return false;
            }
        }
        i += 1;
    }
    true
}

impl Ctx {
    /// Whether the session is well formed: every paragraph and every
    /// snapshot of the history is, and the history is no shorter than its
    /// applied part.
    pub fn is_wf(&self) -> (r: bool)
        ensures
            r == self.wf(),
    {
        proof {
            assert(self.doc().len() == self.pgh_views.len());
            assert(self.history().pairs.len() == self.do_mngr.do_list.len());
        }
        let mut i: usize = 0;
        while i < self.pgh_views.len()
            invariant
                0 <= i <= self.pgh_views.len(),
                self.doc().len() == self.pgh_views.len(),
                forall|k: int| 0 <= k < i ==> (#[trigger] self.doc()[k]).wf(),
            decreases self.pgh_views.len() - i,
        {
            proof {
                assert(self.doc()[i as int] == self.pgh_views[i as int]@);
            }
            if !self.pgh_views[i].is_wf() {
                return false;
            }
            i += 1;
        }
        if self.do_mngr.index > self.do_mngr.do_list.len() {
            return false;
        }
        let mut k: usize = 0;
        while k < self.do_mngr.do_list.len()
            invariant
                0 <= k <= self.do_mngr.do_list.len(),
                self.history().pairs.len() == self.do_mngr.do_list.len(),
                doc_wf(self.doc()),
                self.history().index <= self.history().pairs.len(),
                forall|j: int|
                    0 <= j < k ==> (#[trigger] self.history().pairs[j]).0.wf()
                        && self.history().pairs[j].1.wf(),
            decreases self.do_mngr.do_list.len() - k,
        {
            proof {
                assert(self.history().pairs[k as int] == (
                    self.do_mngr.do_list@[k as int].0@,
                    self.do_mngr.do_list@[k as int].1@,
                ));
            }
            if !cmd_is_wf(&self.do_mngr.do_list[k].0) || !cmd_is_wf(&self.do_mngr.do_list[k].1) {
                return false;
            }
            k += 1;
        }
        true
    }
}

/// Replaying well-formed steps forward keeps a document well formed.
pub proof fn lemma_replay_wf(doc: Seq<PghModel>, steps: Seq<StepModel>)
    requires
        doc_wf(doc),
        forall|i: int| 0 <= i < steps.len() ==> (#[trigger] steps[i]).wf(),
    ensures
        doc_wf(replay(doc, steps)),
    decreases steps.len(),
{
    if steps.len() > 0 {
        lemma_replay_wf(doc, steps.drop_last());
        lemma_apply_wf(steps.last(), replay(doc, steps.drop_last()));
    }
}

/// Replaying well-formed steps backward keeps a document well formed.
pub proof fn lemma_replay_back_wf(doc: Seq<PghModel>, steps: Seq<StepModel>)
    requires
        doc_wf(doc),
        forall|i: int| 0 <= i < steps.len() ==> (#[trigger] steps[i]).wf(),
    ensures
        doc_wf(replay_back(doc, steps)),
    decreases steps.len(),
{
    if steps.len() > 0 {
        lemma_apply_wf(steps.last(), doc);
        lemma_replay_back_wf(steps.last().apply(doc), steps.drop_last());
    }
}

/// After a command is recorded, no command of the history is left to be
/// applied again: what could be redone before is gone.
pub proof fn lemma_push_discards_future(h: HistoryModel, undo: CmdModel, redo: CmdModel)
    requires
        h.index <= h.pairs.len(),
        h.index < usize::MAX,
    ensures
        h.pushed(undo, redo).index == h.pushed(undo, redo).pairs.len(),
        h.pushed(undo, redo).pairs.len() == h.index + 1,
        h.pushed(undo, redo).pairs.last() == (undo, redo),
        forall|i: int| 0 <= i < h.index ==> h.pushed(undo, redo).pairs[i] == h.pairs[i],
{
}

} // verus!
