//! The editing session: the document, the two cursors of the selection,
//! the history and the settings.

use crate::cmd::{Command, FindReplaceCtx};
use crate::icon::LinkInfo;
use crate::strings::{join_texts, join_with, texts};
use crate::cursor::Cursor;
use crate::md::{lemma_pgh_models_push, markdown_to_pgh_texts, pgh_models, text_paragraphs};
use crate::pgh::{PghModel, PghView};
use crate::undo::{doc_wf, DoMngr, HistoryModel};
use vstd::prelude::*;

verus! {

/// What changes from one event to the next.
#[derive(Clone, Copy, PartialEq, Eq, Structural, Debug)]
pub struct State {
    pub top_line: usize,
    pub bottom_line: usize,
    pub scroll_to_line: Option<usize>,
    /// The end of the selection that stays.
    pub cursor1: Cursor,
    /// The end of the selection that moves: the text cursor.
    pub cursor2: Cursor,
    pub cursor2_bak: Cursor,
    /// When the text cursor last changed between shown and hidden, in
    /// milliseconds.
    pub cursor_show_time: u64,
    pub cursor_show_bool: bool,
    pub selecting: bool,
    pub is_pointer_gone: bool,
    /// Counts the edits since the document was last saved.
    pub content_change_tick: u64,
    pub ime_area_changed: bool,
}

impl Default for State {
    fn default() -> (r: Self)
        ensures
            r == State::initial(),
    {
        let zero = Cursor { line_no: 0, segment: 0, culumn: 0 };
        State {
            top_line: 0,
            bottom_line: 0,
            scroll_to_line: None,
            cursor1: zero,
            cursor2: zero,
            cursor2_bak: zero,
            cursor_show_time: 0,
            cursor_show_bool: true,
            selecting: false,
            is_pointer_gone: false,
            content_change_tick: 0,
            ime_area_changed: false,
        }
    }
}

impl State {
    /// The state of a session that has just been opened.
    pub open spec fn initial() -> State {
        State {
            top_line: 0,
            bottom_line: 0,
            scroll_to_line: None,
            cursor1: Cursor { line_no: 0, segment: 0, culumn: 0 },
            cursor2: Cursor { line_no: 0, segment: 0, culumn: 0 },
            cursor2_bak: Cursor { line_no: 0, segment: 0, culumn: 0 },
            cursor_show_time: 0,
            cursor_show_bool: true,
            selecting: false,
            is_pointer_gone: false,
            content_change_tick: 0,
            ime_area_changed: false,
        }
    }
}

/// A match of a search: where it starts and ends, and the text of its
/// line where that was asked for.
#[derive(Debug)]
pub struct FindCacheItem {
    pub start: Cursor,
    pub end: Cursor,
    pub line_text: Option<String>,
}

/// The matches of a search over the whole document.
#[derive(Debug)]
pub struct FindCache {
    pub cache: Vec<FindCacheItem>,
}

impl FindCache {
    pub fn new() -> (r: Self)
        ensures
            r.cache@ == Seq::<FindCacheItem>::empty(),
    {
        FindCache { cache: Vec::new() }
    }
}

/// The settings of a session.
#[derive(Debug)]
pub struct EditCfg {
    pub dark_mode: bool,
    pub wrap: bool,
    pub show_line_no: bool,
    pub is_markdown: bool,
    /// Where the images of the document are kept.
    pub image_path: Option<String>,
    /// The language to highlight a file in.
    pub lang: Option<String>,
    pub need_line_click_cmd: bool,
    pub hightlight_seleted_word: bool,
}

impl EditCfg {
    pub fn new(is_markdown: bool, image_path: Option<String>) -> (r: Self)
        ensures
            r == (EditCfg {
                dark_mode: true,
                wrap: false,
                show_line_no: false,
                is_markdown,
                image_path,
                lang: None,
                need_line_click_cmd: false,
                hightlight_seleted_word: true,
            }),
    {
        EditCfg {
            dark_mode: true,
            wrap: false,
            show_line_no: false,
            is_markdown,
            image_path,
            lang: None,
            need_line_click_cmd: false,
            hightlight_seleted_word: true,
        }
    }
}

/// An editing session over one document.
pub struct Ctx {
    pub pgh_views: Vec<PghView>,
    /// The number of paragraphs laid out at a time.
    pub patch_num: usize,
    pub state: State,
    pub state_changed: bool,
    pub open_time: u128,
    pub do_mngr: DoMngr,
    pub cmd_list: Vec<Command>,
    pub find_cache: FindCache,
    pub find_param: FindReplaceCtx,
    /// The places where the selected text occurs again.
    pub same_cache: FindCache,
    pub cfg: EditCfg,
}

impl Ctx {
    /// The document: the models of the paragraphs.
    pub open spec fn doc(&self) -> Seq<PghModel> {
        pgh_models(self.pgh_views@)
    }

    /// The history.
    pub open spec fn history(&self) -> HistoryModel {
        self.do_mngr@
    }

    /// Every paragraph of the document and every snapshot of the history
    /// is well formed.
    pub open spec fn wf(&self) -> bool {
        &&& doc_wf(self.doc())
        &&& self.history().wf()
    }

    /// Whether this session differs from `before` in its state at most:
    /// document, history, settings and caches are the same.
    pub open spec fn same_but_state(&self, before: &Ctx) -> bool {
        &&& self.pgh_views == before.pgh_views
        &&& self.patch_num == before.patch_num
        &&& self.state_changed == before.state_changed
        &&& self.open_time == before.open_time
        &&& self.do_mngr == before.do_mngr
        &&& self.cmd_list == before.cmd_list
        &&& self.find_cache == before.find_cache
        &&& self.find_param == before.find_param
        &&& self.same_cache == before.same_cache
        &&& self.cfg == before.cfg
    }

    /// A session over the paragraphs of `text`, read as markdown or line
    /// by line, with both cursors at the start and an empty history.
    pub fn new(text: &str, is_markdown: bool, image_path: Option<String>) -> (r: Self)
        ensures
            r.doc() == text_paragraphs(text@, is_markdown),
            r.doc().len() >= 1,
            r.wf(),
            r.state == State::initial(),
            r.history() == (HistoryModel { index: 0, pairs: Seq::empty() }),
            r.patch_num == 80,
            !r.state_changed,
            r.open_time == 0,
            r.cmd_list@.len() == 0,
            r.find_cache.cache@.len() == 0,
            r.same_cache.cache@.len() == 0,
            r.cfg == (EditCfg {
                dark_mode: true,
                wrap: false,
                show_line_no: false,
                is_markdown,
                image_path,
                lang: None,
                need_line_click_cmd: false,
                hightlight_seleted_word: true,
            }),
    {
        let pgh_views = markdown_to_pgh_texts(text, is_markdown);
        let r = Ctx {
            pgh_views,
            patch_num: 80,
            state: State::default(),
            state_changed: false,
            open_time: 0,
            do_mngr: DoMngr::new(),
            cmd_list: Vec::new(),
            find_cache: FindCache::new(),
            find_param: FindReplaceCtx::new(),
            same_cache: FindCache::new(),
            cfg: EditCfg::new(is_markdown, image_path),
        };
        proof {
            assert(r.doc().len() == r.pgh_views.len());
            assert forall|i: int| 0 <= i < r.doc().len() implies (#[trigger] r.doc()[i]).wf() by {
                assert(r.doc()[i] == r.pgh_views[i]@);
            }
        }
        r
    }

    pub fn line_num(&self) -> (n: usize)
        ensures
            n == self.doc().len(),
    {
        self.pgh_views.len()
    }

    pub fn is_table_line(&self, line_no: usize) -> (b: bool)
        ensures
            b == (line_no < self.doc().len() && self.doc()[line_no as int].is_table()),
    {
        if line_no < self.pgh_views.len() {
            self.pgh_views[line_no].is_table()
        } else {
            false
        }
    }

    pub fn get_line(&self, line_no: usize) -> (r: Option<&PghView>)
        ensures
            match r {
                Some(p) => line_no < self.pgh_views.len() && *p == self.pgh_views[line_no as int],
                None => line_no >= self.pgh_views.len(),
            },
    {
        if line_no < self.pgh_views.len() {
            Some(&self.pgh_views[line_no])
        } else {
            None
        }
    }

    /// A copy of line `line_no`, if there is such a line.
    pub fn get_line_clone(&self, line_no: usize) -> (r: Option<PghView>)
        ensures
            match r {
                Some(p) => line_no < self.doc().len() && p@ == self.doc()[line_no as int],
                None => line_no >= self.doc().len(),
            },
    {
        if line_no < self.pgh_views.len() {
            Some(self.pgh_views[line_no].clone())
        } else {
            None
        }
    }

    /// The text of line `line_no`, empty where there is no such line.
    pub fn get_line_text(&self, line_no: usize) -> (r: String)
        ensures
            r@ == (if line_no < self.doc().len() {
                self.doc()[line_no as int].text()
            } else {
                Seq::empty()
            }),
    {
        if line_no < self.pgh_views.len() {
            self.pgh_views[line_no].get_text()
        } else {
            String::new()
        }
    }

    pub fn cfg(&self) -> (r: &EditCfg)
        ensures
            *r == self.cfg,
    {
        &self.cfg
    }

    pub fn top_line(&self) -> (r: usize)
        ensures
            r == self.state.top_line,
    {
        self.state.top_line
    }

    /// Makes `top_line` the first line shown, if there is such a line.
    pub fn set_top_line(&mut self, top_line: usize)
        ensures
            final(self).state == (State {
                top_line: if top_line < old(self).doc().len() {
                    top_line
                } else {
                    old(self).state.top_line
                },
                ..old(self).state
            }),
            final(self).pgh_views == old(self).pgh_views,
            final(self).do_mngr == old(self).do_mngr,
    {
        if top_line < self.pgh_views.len() {
            self.state.top_line = top_line;
        }
    }

    pub fn bottom_line(&self) -> (r: usize)
        ensures
            r == self.state.bottom_line,
    {
        self.state.bottom_line
    }

    /// Makes `bottom` the last line shown, unless it lies above the first.
    pub fn set_bottom_line(&mut self, bottom: usize)
        ensures
            final(self).state == (State {
                bottom_line: if bottom < old(self).state.top_line {
                    old(self).state.bottom_line
                } else {
                    bottom
                },
                ..old(self).state
            }),
            final(self).pgh_views == old(self).pgh_views,
            final(self).do_mngr == old(self).do_mngr,
    {
        if bottom < self.state.top_line {
            return ;
        }
        self.state.bottom_line = bottom;
    }

    /// The line behind the last of the paragraphs laid out at a time.
    pub fn patch_end(&self) -> (r: usize)
        ensures
            r == (if self.state.top_line + self.patch_num >= self.doc().len() {
                self.doc().len() as int
            } else {
                self.state.top_line + self.patch_num
            }),
    {
        let len = self.pgh_views.len();
        if self.state.top_line >= len || self.patch_num >= len - self.state.top_line {
            len
        } else {
            self.state.top_line + self.patch_num
        }
    }

    pub fn set_scroll_to_line(&mut self, line: usize)
        ensures
            final(self).state == (State { scroll_to_line: Some(line), ..old(self).state }),
            final(self).pgh_views == old(self).pgh_views,
            final(self).do_mngr == old(self).do_mngr,
    {
        self.state.scroll_to_line = Some(line);
    }

    /// Takes the line to scroll to, leaving none.
    pub fn clean_scroll_to_line(&mut self) -> (r: Option<usize>)
        ensures
            r == old(self).state.scroll_to_line,
            final(self).state == (State { scroll_to_line: None, ..old(self).state }),
            final(self).pgh_views == old(self).pgh_views,
            final(self).do_mngr == old(self).do_mngr,
    {
        let line = self.state.scroll_to_line;
        self.state.scroll_to_line = None;
        line
    }

    pub fn is_pointer_gone(&self) -> (r: bool)
        ensures
            r == self.state.is_pointer_gone,
    {
        self.state.is_pointer_gone
    }

    pub fn mark_pointer_gone(&mut self, is_gone: bool)
        ensures
            final(self).state == (State { is_pointer_gone: is_gone, ..old(self).state }),
            final(self).pgh_views == old(self).pgh_views,
            final(self).do_mngr == old(self).do_mngr,
    {
        self.state.is_pointer_gone = is_gone;
    }

    pub fn set_ime_area_changed(&mut self, flag: bool)
        ensures
            final(self).state == (State { ime_area_changed: flag, ..old(self).state }),
            final(self).pgh_views == old(self).pgh_views,
            final(self).do_mngr == old(self).do_mngr,
    {
        self.state.ime_area_changed = flag;
    }

    pub fn is_ime_area_changed(&self) -> (r: bool)
        ensures
            r == self.state.ime_area_changed,
    {
        self.state.ime_area_changed
    }

    pub fn set_open_time(&mut self, millis: u128)
        ensures
            final(self).open_time == millis,
            final(self).state == old(self).state,
            final(self).pgh_views == old(self).pgh_views,
            final(self).do_mngr == old(self).do_mngr,
    {
        self.open_time = millis;
    }

    pub fn get_open_time(&self) -> (r: u128)
        ensures
            r == self.open_time,
    {
        self.open_time
    }

    pub fn clone_state(&self) -> (r: State)
        ensures
            r == self.state,
    {
        self.state
    }

    /// Notes whether the state differs from `cmp_state`.
    pub fn mark_state_change(&mut self, cmp_state: State)
        ensures
            final(self).state_changed == (old(self).state != cmp_state),
            final(self).state == old(self).state,
            final(self).pgh_views == old(self).pgh_views,
            final(self).do_mngr == old(self).do_mngr,
    {
        self.state_changed = self.state != cmp_state;
    }

    pub fn is_state_changed(&self) -> (r: bool)
        ensures
            r == self.state_changed,
    {
        self.state_changed
    }

    /// Whether the text cursor is to be shown at time `milliseconds`: it
    /// is shown anew after every change of state and otherwise changes
    /// between shown and hidden every half second.
    pub fn check_switch_cursor_show(&mut self, milliseconds: u64) -> (shown: bool)
        ensures
            shown == final(self).state.cursor_show_bool,
            final(self).state == (if old(self).state_changed || milliseconds < old(self).state.cursor_show_time {
                State { cursor_show_time: milliseconds, cursor_show_bool: true, ..old(self).state }
            } else if milliseconds - old(self).state.cursor_show_time < 500 {
                old(self).state
            } else {
                State {
                    cursor_show_time: milliseconds,
                    cursor_show_bool: !old(self).state.cursor_show_bool,
                    ..old(self).state
                }
            }),
            final(self).pgh_views == old(self).pgh_views,
            final(self).do_mngr == old(self).do_mngr,
    {
        if self.state_changed || milliseconds < self.state.cursor_show_time {
            self.state.cursor_show_time = milliseconds;
            self.state.cursor_show_bool = true;
            return true;
        }
        let diff = milliseconds - self.state.cursor_show_time;
        if diff < 500 {
            self.state.cursor_show_bool
        } else {
            self.state.cursor_show_bool = !self.state.cursor_show_bool;
            self.state.cursor_show_time = milliseconds;
            self.state.cursor_show_bool
        }
    }

    pub fn is_selecting(&self) -> (r: bool)
        ensures
            r == self.state.selecting,
    {
        self.state.selecting
    }

    /// Whether the two cursors differ.
    pub fn is_selected(&self) -> (r: bool)
        ensures
            r == (self.state.cursor1 != self.state.cursor2),
    {
        self.state.cursor1 != self.state.cursor2
    }

    /// The direction of the selection: 1 where the text cursor lies behind
    /// the other cursor, -1 where it lies before it, none without a
    /// selection.
    pub fn select_direction(&self) -> (r: Option<i8>)
        ensures
            r == (if self.state.cursor1.is_before(self.state.cursor2) {
                Some(1i8)
            } else if self.state.cursor2.is_before(self.state.cursor1) {
                Some(-1i8)
            } else {
                None
            }),
    {
        if self.state.cursor2 > self.state.cursor1 {
            Some(1)
        } else if self.state.cursor2 < self.state.cursor1 {
            Some(-1)
        } else {
            None
        }
    }

    pub fn clean_change_tick(&mut self)
        ensures
            final(self).state == (State { content_change_tick: 0, ..old(self).state }),
            final(self).pgh_views == old(self).pgh_views,
            final(self).do_mngr == old(self).do_mngr,
    {
        self.state.content_change_tick = 0;
    }

    /// Whether the document was edited since the counter was last cleared.
    pub fn is_content_changed(&self) -> (r: bool)
        ensures
            r == (self.state.content_change_tick != 0),
    {
        self.state.content_change_tick != 0
    }

    pub fn set_height_lang(&mut self, lang: Option<String>)
        ensures
            final(self).cfg == (EditCfg { lang, ..old(self).cfg }),
            final(self).state == old(self).state,
            final(self).pgh_views == old(self).pgh_views,
            final(self).do_mngr == old(self).do_mngr,
    {
        self.cfg.lang = lang;
    }

    /// Puts a command in front of those waiting.
    pub fn insert_cmd(&mut self, cmd: Command)
        ensures
            final(self).cmd_list@ == old(self).cmd_list@.insert(0, cmd),
            final(self).state == old(self).state,
            final(self).pgh_views == old(self).pgh_views,
            final(self).do_mngr == old(self).do_mngr,
    {
        self.cmd_list.insert(0, cmd);
    }

    /// Takes the command that has waited longest.
    pub fn pop_cmd(&mut self) -> (r: Option<Command>)
        ensures
            old(self).cmd_list.len() > 0 ==> r == Some(old(self).cmd_list@.last())
                && final(self).cmd_list@ == old(self).cmd_list@.drop_last(),
            old(self).cmd_list.len() == 0 ==> r is None && final(self).cmd_list@ == old(self).cmd_list@,
            final(self).state == old(self).state,
            final(self).pgh_views == old(self).pgh_views,
            final(self).do_mngr == old(self).do_mngr,
    {
        self.cmd_list.pop()
    }

    /// Replaces the text of a segment of a line. A line or a segment that
    /// is not there, and a segment without text, change nothing.
    pub fn update_segment_text(&mut self, line_no: usize, segment: usize, s: String)
        ensures
            final(self).doc() == (if line_no < old(self).doc().len() {
                old(self).doc().update(
                    line_no as int,
                    old(self).doc()[line_no as int].with_segment_text(segment as int, s@),
                )
            } else {
                old(self).doc()
            }),
            final(self).state == old(self).state,
            final(self).do_mngr == old(self).do_mngr,
            final(self).cfg == old(self).cfg,
    {
        if line_no < self.pgh_views.len() {
            let mut p = self.pgh_views[line_no].clone();
            p.update_segment_text(segment, s);
            proof {
                assert(old(self).doc()[line_no as int] == old(self).pgh_views[line_no as int]@);
            }
            self.pgh_views.set(line_no, p);
            proof {
                assert(final(self).doc() =~= old(self).doc().update(line_no as int, p@));
            }
        }
    }

    /// Cuts a line down to its first `segment_num` segments.
    pub fn truncate_segment(&mut self, line_no: usize, segment_num: usize)
        ensures
            final(self).doc() == (if line_no < old(self).doc().len() {
                old(self).doc().update(
                    line_no as int,
                    old(self).doc()[line_no as int].truncated(segment_num as int),
                )
            } else {
                old(self).doc()
            }),
            final(self).state == old(self).state,
            final(self).do_mngr == old(self).do_mngr,
            final(self).cfg == old(self).cfg,
    {
        if line_no < self.pgh_views.len() {
            let mut p = self.pgh_views[line_no].clone();
            p.remove_segment_from(segment_num);
            proof {
                assert(old(self).doc()[line_no as int] == old(self).pgh_views[line_no as int]@);
            }
            self.pgh_views.set(line_no, p);
            proof {
                assert(final(self).doc() =~= old(self).doc().update(line_no as int, p@));
            }
        }
    }

    /// Replaces the segments of a line by one text.
    pub fn update_all_text(&mut self, line_no: usize, s: String)
        ensures
            final(self).doc() == (if line_no < old(self).doc().len() {
                old(self).doc().update(
                    line_no as int,
                    old(self).doc()[line_no as int].with_all_text(s@),
                )
            } else {
                old(self).doc()
            }),
            final(self).state == old(self).state,
            final(self).do_mngr == old(self).do_mngr,
            final(self).cfg == old(self).cfg,
    {
        if line_no < self.pgh_views.len() {
            let mut p = self.pgh_views[line_no].clone();
            p.update_all_text(s);
            proof {
                assert(old(self).doc()[line_no as int] == old(self).pgh_views[line_no as int]@);
            }
            self.pgh_views.set(line_no, p);
            proof {
                assert(final(self).doc() =~= old(self).doc().update(line_no as int, p@));
            }
        }
    }

    /// Copies of the paragraphs that are laid out at a time, each with
    /// the number of its line.
    pub fn current_range_clone(&self) -> (r: Vec<(usize, PghView)>)
        ensures
            r.len() == (if self.state.top_line <= self.patch_end_line() {
                self.patch_end_line() - self.state.top_line
            } else {
                0
            }),
            forall|i: int|
                0 <= i < r.len() ==> (#[trigger] r[i]).0 == self.state.top_line + i && r[i].1@
                    == self.doc()[self.state.top_line + i],
    {
        let end = self.patch_end();
        let mut range: Vec<(usize, PghView)> = Vec::new();
        let mut line = self.state.top_line;
        proof {
            assert(self.doc().len() == self.pgh_views.len());
        }
        while line < end
            invariant
                end == self.patch_end_line(),
                end <= self.pgh_views.len(),
                self.state.top_line <= line,
                line <= end || line == self.state.top_line,
                range.len() == line - self.state.top_line,
                forall|i: int|
                    0 <= i < range.len() ==> (#[trigger] range[i]).0 == self.state.top_line + i
                        && range[i].1@ == self.doc()[self.state.top_line + i],
            decreases end - line,
        {
            proof {
                assert(self.doc()[line as int] == self.pgh_views[line as int]@);
            }
            range.push((line, self.pgh_views[line].clone()));
            line += 1;
        }
        range
    }

    /// The line behind the last of the paragraphs laid out at a time.
    pub open spec fn patch_end_line(&self) -> int {
        if self.state.top_line + self.patch_num >= self.doc().len() {
            self.doc().len() as int
        } else {
            self.state.top_line + self.patch_num
        }
    }

    /// The text that is highlighted as one piece of source code, and the
    /// line it starts at: the lines laid out at a time and up to twenty
    /// before them, joined by line feeds.
    pub fn highlight_range_text(&self) -> (r: (usize, String))
        ensures
            r.0 == (if self.state.top_line >= 20 {
                self.state.top_line - 20
            } else {
                0
            }),
            r.1@ == join_with(
                Seq::new(
                    (if r.0 <= self.patch_end_line() {
                        self.patch_end_line() - r.0
                    } else {
                        0
                    }) as nat,
                    |i: int| self.doc()[r.0 + i].text(),
                ),
                "\n"@,
            ),
    {
        let top = if self.state.top_line >= 20 {
            self.state.top_line - 20
        } else {
            0
        };
        let end = self.patch_end();
        let mut parts: Vec<String> = Vec::new();
        let mut line = top;
        proof {
            assert(self.doc().len() == self.pgh_views.len());
        }
        while line < end
            invariant
                end == self.patch_end_line(),
                end <= self.pgh_views.len(),
                top <= line,
                line <= end || line == top,
                texts(parts@) =~= Seq::new(
                    (line - top) as nat,
                    |i: int| self.doc()[top + i].text(),
                ),
            decreases end - line,
        {
            proof {
                assert(self.doc()[line as int] == self.pgh_views[line as int]@);
            }
            let t = self.pgh_views[line].get_text();
            proof {
                crate::strings::lemma_texts_push(parts@, t);
            }
            parts.push(t);
            line += 1;
        }
        (top, join_texts(&parts, "\n"))
    }

    /// Asks for what a clicked link points to: a note is to be opened, an
    /// address to be shown; an image asks for nothing.
    pub fn insert_link_click_command(&mut self, link_info: LinkInfo)
        ensures
            final(self).cmd_list@ == (match link_info {
                LinkInfo::File(file) => old(self).cmd_list@.insert(0, Command::OpenFile(file)),
                LinkInfo::Link(url) => old(self).cmd_list@.insert(0, Command::OpenUrl(url)),
                LinkInfo::Image(_) => old(self).cmd_list@,
            }),
            final(self).state == old(self).state,
            final(self).pgh_views == old(self).pgh_views,
            final(self).do_mngr == old(self).do_mngr,
    {
        match link_info {
            LinkInfo::File(file) => self.insert_cmd(Command::OpenFile(file)),
            LinkInfo::Link(url) => self.insert_cmd(Command::OpenUrl(url)),
            LinkInfo::Image(_) => {},
        }
    }

    /// The last paragraph that is shown, or the last of the document
    /// where the line noted as last shown is past it.
    pub fn bottom_pgh(&self) -> (r: &PghView)
        requires
            self.pgh_views.len() > 0,
        ensures
            *r == self.pgh_views[if self.state.bottom_line >= self.pgh_views.len() {
                self.pgh_views.len() - 1
            } else {
                self.state.bottom_line as int
            }],
    {
        if self.state.bottom_line >= self.pgh_views.len() {
            &self.pgh_views[self.pgh_views.len() - 1]
        } else {
            &self.pgh_views[self.state.bottom_line]
        }
    }
}

} // verus!
