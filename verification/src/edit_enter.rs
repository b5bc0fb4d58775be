//! Breaking a line at the text cursor, and replacing what a search finds.

use crate::cmd::{FindCmd, FindReplaceCtx};
use crate::ctx::{Ctx, State};
use crate::cursor::Cursor;
use crate::edit_delete::deleted_doc;
use crate::edit_insert::{column_after, edit_recorded, inserted, lemma_edit_recorded};
use crate::edit_table::after_change;
use crate::find_doc::doc_items;
use crate::find_doc::find_next;
use crate::history::counted_up;
use crate::md::pgh_models;
use crate::pgh::{PghModel, PghView};
use crate::record::recorded;
use crate::regex_call::{regex_find_all, regex_spans, regex_valid};
use crate::strings::{char_count, chars_of, text_concat, text_left};
use crate::table::int_min;
use crate::undo::{doc_wf, DoCmd};
use vstd::prelude::*;
use vstd::string::*;

verus! {

/// The pattern of a list item with a check box: a dash, blanks, a pair
/// of brackets round anything, and a blank.
pub open spec fn checkbox_pattern() -> Seq<char> {
    "^-[ \\t]+\\[.*\\] "@
}

/// Whether a character can stand in the marks that start a list item or
/// a quote.
pub open spec fn is_marker(c: char) -> bool {
    c == ' ' || c == '\t' || c == '-' || c == '*' || c == '[' || c == ']' || c == '>'
}

/// The end of the run of marker characters that starts at position `n`.
pub open spec fn marker_run(t: Seq<char>, n: int) -> int
    decreases t.len() - n,
{
    if 0 <= n < t.len() && is_marker(t[n]) {
        marker_run(t, n + 1)
    } else {
        n
    }
}

/// Whether a text starts with a dash, a star or a quote mark and a blank.
pub open spec fn starts_with_marker(t: Seq<char>) -> bool {
    t.len() >= 2 && (t[0] == '-' || t[0] == '*' || t[0] == '>') && t[1] == ' '
}

/// Whether a text matches the pattern of a list item with a check box.
pub open spec fn checkbox_line(left: Seq<char>) -> bool {
    regex_valid(checkbox_pattern(), false) && regex_spans(checkbox_pattern(), false, left).len()
        > 0
}

/// What a new line starts with when the line before it is broken behind
/// `left`: an empty check box after a line with a check box, the marks of
/// `left` after a list item or a quote, nothing otherwise.
pub open spec fn auto_prefix(left: Seq<char>, is_checkbox: bool) -> Seq<char> {
    if is_checkbox {
        "- [ ] "@
    } else if starts_with_marker(left) {
        left.take(marker_run(left, 0))
    } else {
        Seq::empty()
    }
}

/// The document and the cursor after a line break at cursor `c`, with
/// nothing selected. A table gets a row of empty cells under the cursor's
/// row. In a code paragraph the cursor's line is broken in two. Any other
/// paragraph keeps what lies left of the cursor as one text, and a text
/// paragraph after it gets the rest behind the marks that continue a
/// list or a quote. A cursor on no line changes nothing.
pub open spec fn entered(d: Seq<PghModel>, c: Cursor) -> (Seq<PghModel>, Cursor) {
    if c.line_no >= d.len() {
        (d, c)
    } else {
        let line = c.line_no as int;
        let p = d[line];
        if p.is_table() {
            match p.table_info {
                Some(t) => if t.row_of(c.segment as int) < t.row_count {
                    (
                        d.update(line, p.with_row_inserted(t.row_of(c.segment as int) + 1)),
                        Cursor { segment: column_after(c.segment, t.col_count as int), ..c },
                    )
                } else {
                    (d, c)
                },
                None => (d, c),
            }
        } else if p.is_code() {
            (
                d.update(line, p.with_code_enter(c)),
                Cursor { line_no: c.line_no, segment: column_after(c.segment, 1), culumn: 0 },
            )
        } else {
            let left = p.left_of(c);
            let prefix = auto_prefix(left, checkbox_line(left));
            (
                d.update(line, p.with_all_text(left)).insert(
                    line + 1,
                    PghModel::of_text(prefix + p.right_of(c)),
                ),
                Cursor { line_no: (line + 1) as usize, segment: 0, culumn: prefix.len() as usize },
            )
        }
    }
}

/// The document and the cursor after an empty line is put in behind the
/// cursor's line.
pub open spec fn line_opened(d: Seq<PghModel>, c: Cursor) -> (Seq<PghModel>, Cursor) {
    (
        d.insert(int_min(c.line_no + 1, d.len() as int), PghModel::of_text(Seq::empty())),
        Cursor { line_no: column_after(c.line_no, 1), segment: 0, culumn: 0 },
    )
}

/// The document and the text cursor after the next match of a search is
/// replaced: the match is selected, the replacement takes its place, and
/// the check that follows every edit is made. `None` where the pattern is
/// empty or nothing is found.
pub open spec fn replace_step(doc: Seq<PghModel>, c: Cursor, cfg: crate::cmd::FindModel) -> Option<
    (Seq<PghModel>, Cursor),
> {
    if cfg.find.len() == 0 {
        None
    } else {
        match find_next(doc, cfg, c) {
            Some(m) => {
                let put = inserted(deleted_doc(doc, m.0, m.1), m.0.spec_min(m.1), cfg.replace);
                Some(after_change(put.0, put.1))
            },
            None => None,
        }
    }
}

/// The match that a search selects next: none for an empty pattern.
pub open spec fn replace_target(doc: Seq<PghModel>, c: Cursor, cfg: crate::cmd::FindModel) -> Option<
    (Cursor, Cursor),
> {
    if cfg.find.len() == 0 {
        None
    } else {
        find_next(doc, cfg, c)
    }
}

/// The document and the text cursor after `n` matches are replaced one
/// after the other, or `None` where fewer are found.
pub open spec fn replaced_times(
    doc: Seq<PghModel>,
    c: Cursor,
    cfg: crate::cmd::FindModel,
    n: nat,
) -> Option<(Seq<PghModel>, Cursor)>
    decreases n,
{
    if n == 0 {
        Some((doc, c))
    } else {
        match replaced_times(doc, c, cfg, (n - 1) as nat) {
            Some(s) => replace_step(s.0, s.1, cfg),
            None => None,
        }
    }
}

/// Where nothing is left to replace, the document holds no match of the
/// search on any line but the text cursor's, and on that line none that
/// starts before the cursor or ends behind it: after all matches are
/// replaced, a new search finds at most a match at the cursor itself.
pub proof fn lemma_nothing_left_to_replace(
    doc: Seq<PghModel>,
    c: Cursor,
    cfg: crate::cmd::FindModel,
    line: int,
    k: int,
)
    requires
        cfg.find.len() > 0,
        replace_step(doc, c, cfg) is None,
        0 <= line < doc.len() <= usize::MAX,
        0 <= k < crate::find::find_spans(doc[line].text(), cfg).len(),
    ensures
        ({
            let span = crate::find::find_spans(doc[line].text(), cfg)[k];
            let start = doc[line].byte_index_cursor(span.0, line as usize);
            let end = doc[line].byte_index_cursor(span.1, line as usize);
            &&& line == c.line_no
            &&& !c.is_before(end)
            &&& !start.is_before(c)
        }),
{
    crate::find_doc::lemma_find_next_none(doc, cfg, c, line, k);
}

/// Where nothing is left to replace and every match ends behind its
/// start, no line of the document holds a match of the search: after all
/// matches are replaced, a new search finds nothing.
pub proof fn lemma_no_match_left(
    doc: Seq<PghModel>,
    c: Cursor,
    cfg: crate::cmd::FindModel,
    line: int,
)
    requires
        cfg.find.len() > 0,
        replace_step(doc, c, cfg) is None,
        0 <= line < doc.len() <= usize::MAX,
        forall|l: int, j: int| #[trigger]
            crate::find_doc::is_match(doc, cfg, l, j) ==> crate::find_doc::match_at(
                doc,
                cfg,
                l,
                j,
            ).0.is_before(crate::find_doc::match_at(doc, cfg, l, j).1),
    ensures
        crate::find::find_spans(doc[line].text(), cfg).len() == 0,
        find_next(doc, cfg, c) is None,
{
    if crate::find::find_spans(doc[line].text(), cfg).len() > 0 {
        assert(crate::find_doc::is_match(doc, cfg, line, 0));
        crate::find_doc::lemma_find_next_some(doc, cfg, c, line, 0);
    }
}

/// What a new line starts with when the line before it is broken behind
/// `left`; `is_checkbox` says whether `left` is a list item with a check
/// box.
pub fn prefix_for(left: &str, is_checkbox: bool) -> (r: String)
    ensures
        r@ == auto_prefix(left@, is_checkbox),
{
    if is_checkbox {
        return String::from_str("- [ ] ");
    }
    let chars = chars_of(left);
    if chars.len() >= 2 && (chars[0] == '-' || chars[0] == '*' || chars[0] == '>') && chars[1]
        == ' ' {
        let mut n: usize = 0;
        while n < chars.len() && (chars[n] == ' ' || chars[n] == '\t' || chars[n] == '-'
            || chars[n] == '*' || chars[n] == '[' || chars[n] == ']' || chars[n] == '>')
            invariant
                chars@ == left@,
                0 <= n <= chars.len(),
                marker_run(left@, n as int) == marker_run(left@, 0),
            decreases chars.len() - n,
        {
            n += 1;
        }
        text_left(left, n)
    } else {
        String::new()
    }
}

/// What a new line starts with when the line before it is broken behind
/// `left`.
pub fn enter_auto_pak_ctrl(left: &str) -> (r: String)
    ensures
        r@ == auto_prefix(left@, checkbox_line(left@)),
{
    let mut lines: Vec<String> = Vec::new();
    lines.push(String::from_str(left));
    let is_checkbox = match regex_find_all("^-[ \\t]+\\[.*\\] ", false, &lines) {
        Some(found) => found[0].len() > 0,
        None => false,
    };
    prefix_for(left, is_checkbox)
}

impl Ctx {
    /// Breaks the line at the text cursor, with nothing selected.
    #[verifier::rlimit(50)]
    fn enter_at_cursor(
        &mut self,
        undo: &mut DoCmd,
        redo: &mut DoCmd,
        Ghost(origin): Ghost<Seq<PghModel>>,
    )
        requires
            doc_wf(old(self).doc()),
            recorded(old(self).doc(), origin, old(undo)@, old(redo)@),
            old(self).state.cursor1 == old(self).state.cursor2,
        ensures
            final(self).doc() == entered(old(self).doc(), old(self).state.cursor2).0,
            final(self).state == (State {
                cursor1: entered(old(self).doc(), old(self).state.cursor2).1,
                cursor2: entered(old(self).doc(), old(self).state.cursor2).1,
                ..old(self).state
            }),
            final(self).do_mngr == old(self).do_mngr,
            final(self).same_cache == old(self).same_cache,
            final(self).same_surroundings(old(self)),
            doc_wf(final(self).doc()),
            recorded(final(self).doc(), origin, final(undo)@, final(redo)@),
            final(undo).cursor == old(undo).cursor,
            final(redo).cursor == (if old(self).state.cursor2.line_no < old(self).doc().len() {
                final(self).state.cursor2
            } else {
                old(redo).cursor
            }),
    {
        let c = self.state.cursor2;
        let mut new_c = c;
        proof {
            assert(self.doc().len() == self.pgh_views.len());
        }
        if c.line_no >= self.pgh_views.len() {
            return ;
        }
        let line = c.line_no;
        proof {
            assert(self.doc()[line as int] == self.pgh_views[line as int]@);
            assert(self.doc()[line as int].wf());
        }
        if self.pgh_views[line].is_table() {
            if let Some(t) = self.pgh_views[line].table_info {
                let row = c.segment / t.col_count;
                if row < t.row_count {
                    let mut new = self.pgh_views[line].clone();
                    let n = new.table_insert_row(row + 1);
                    self.record_update(undo, redo, line, new, Ghost(origin));
                    new_c.segment = if n <= usize::MAX - c.segment {
                        c.segment + n
                    } else {
                        usize::MAX
                    };
                }
            }
        } else if self.pgh_views[line].is_code() {
            let mut new = self.pgh_views[line].clone();
            new.code_enter(&c);
            self.record_update(undo, redo, line, new, Ghost(origin));
            new_c.segment = if c.segment < usize::MAX {
                c.segment + 1
            } else {
                usize::MAX
            };
            new_c.culumn = 0;
        } else {
            let parts = self.pgh_views[line].normal_enter(&c);
            let begin_pak = enter_auto_pak_ctrl(parts.0.as_str());
            let mut new = self.pgh_views[line].clone();
            new.update_all_text(parts.0);
            self.record_update(undo, redo, line, new, Ghost(origin));
            proof {
                assert(self.doc().len() == self.pgh_views.len());
            }
            let new_line = text_concat(begin_pak.as_str(), parts.1.as_str());
            let fresh = PghView::from_text(new_line);
            self.record_insert(undo, redo, line + 1, fresh, Ghost(origin));
            new_c = Cursor { line_no: line + 1, segment: 0, culumn: char_count(begin_pak.as_str()) };
        }
        self.state.cursor2 = new_c;
        self.state.cursor1 = new_c;
        redo.set_cursor(new_c);
    }

    /// Puts a line break in place of the selection, or at the text cursor
    /// where nothing is selected, and records the edit in the history.
    #[verifier::rlimit(50)]
    pub fn enter_insert(&mut self)
        requires
            old(self).wf(),
        ensures
            final(self).wf(),
            final(self).same_surroundings(old(self)),
            ({
                let c1 = old(self).state.cursor1;
                let c2 = old(self).state.cursor2;
                let cut = deleted_doc(old(self).doc(), c1, c2);
                let put = entered(cut, c1.spec_min(c2));
                &&& edit_recorded(
                    old(self),
                    final(self),
                    put.0,
                    put.1,
                    c2,
                    if c1.spec_min(c2).line_no < cut.len() {
                        put.1
                    } else {
                        c1
                    },
                )
                &&& final(self).state.cursor1 == final(self).state.cursor2
                &&& final(self).state.content_change_tick == counted_up(
                    old(self).state.content_change_tick as int,
                    u64::MAX as int,
                )
                &&& final(self).state.ime_area_changed
            }),
    {
        let ghost origin = self.doc();
        let (mut undo_cmd, mut redo_cmd) = self.delete_func();
        self.enter_at_cursor(&mut undo_cmd, &mut redo_cmd, Ghost(origin));
        self.push_do(undo_cmd, redo_cmd);
        let ghost mid = *self;
        self.on_content_change();
        proof {
            lemma_edit_recorded(old(self), &mid, final(self), undo_cmd@, redo_cmd@);
        }
    }

    /// Breaks the line: with `ctrl`, an empty line is put in behind the
    /// text cursor's line, whatever is selected; without it, a line break
    /// takes the place of the selection.
    #[verifier::rlimit(50)]
    pub fn enter(&mut self, ctrl: bool)
        requires
            old(self).wf(),
        ensures
            final(self).wf(),
            final(self).same_surroundings(old(self)),
            ({
                let c1 = old(self).state.cursor1;
                let c2 = old(self).state.cursor2;
                let cut = deleted_doc(old(self).doc(), c1, c2);
                let put = if ctrl {
                    line_opened(old(self).doc(), c2)
                } else {
                    entered(cut, c1.spec_min(c2))
                };
                &&& edit_recorded(
                    old(self),
                    final(self),
                    put.0,
                    put.1,
                    c2,
                    if ctrl || c1.spec_min(c2).line_no < cut.len() {
                        put.1
                    } else {
                        c1
                    },
                )
                &&& final(self).state.cursor1 == final(self).state.cursor2
                &&& final(self).state.content_change_tick == counted_up(
                    old(self).state.content_change_tick as int,
                    u64::MAX as int,
                )
                &&& final(self).state.ime_area_changed
            }),
    {
        if ctrl {
            let mut undo_cmd = DoCmd::new();
            let mut redo_cmd = DoCmd::new();
            let c = self.state.cursor2;
            let ghost origin = self.doc();
            undo_cmd.set_cursor(c);
            proof {
                assert(self.doc().len() == self.pgh_views.len());
            }
            let len = self.pgh_views.len();
            let at = if c.line_no < len {
                c.line_no + 1
            } else {
                len
            };
            let fresh = PghView::from_text(String::new());
            self.record_insert(&mut undo_cmd, &mut redo_cmd, at, fresh, Ghost(origin));
            let new_c = Cursor {
                line_no: if c.line_no < usize::MAX {
                    c.line_no + 1
                } else {
                    usize::MAX
                },
                segment: 0,
                culumn: 0,
            };
            self.state.cursor2 = new_c;
            self.state.cursor1 = new_c;
            redo_cmd.set_cursor(new_c);
            self.push_do(undo_cmd, redo_cmd);
            let ghost mid = *self;
            self.on_content_change();
            proof {
                lemma_edit_recorded(old(self), &mid, final(self), undo_cmd@, redo_cmd@);
            }
        } else {
            self.enter_insert();
        }
    }

    /// Selects the next match of a search and puts the replacement in its
    /// place, and says whether there was a match.
    #[verifier::rlimit(50)]
    pub fn replace_next(&mut self, param: &FindReplaceCtx) -> (found: bool)
        requires
            old(self).wf(),
        ensures
            final(self).wf(),
            final(self).same_surroundings(old(self)),
            match replace_step(old(self).doc(), old(self).state.cursor2, param@) {
                Some(next) => found && final(self).doc() == next.0 && final(self).state.cursor2
                    == next.1,
                None => !found && final(self).doc() == old(self).doc() && final(self).state
                    == old(self).state && final(self).history() == old(self).history(),
            },
    {
        if !self.find_and_select(param) {
            return false;
        }
        self.insert(param.replace.clone());
        true
    }

    /// Replaces every match of a search by the replacement, one after the
    /// other from the text cursor on, and gives the number of
    /// replacements. It ends when no further match is found.
    #[verifier::rlimit(50)]
    pub fn replace_all(&mut self, param: &FindReplaceCtx) -> (count: usize)
        requires
            old(self).wf(),
        ensures
            final(self).wf(),
            final(self).same_surroundings(old(self)),
            replaced_times(old(self).doc(), old(self).state.cursor2, param@, count as nat) == Some(
                (final(self).doc(), final(self).state.cursor2),
            ),
            count < usize::MAX ==> replace_step(
                final(self).doc(),
                final(self).state.cursor2,
                param@,
            ) is None,
            count == 0 ==> final(self).history() == old(self).history() && final(self).state
                == old(self).state,
    {
        let mut count: usize = 0;
        while count < usize::MAX
            invariant
                self.wf(),
                self.same_surroundings(old(self)),
                replaced_times(old(self).doc(), old(self).state.cursor2, param@, count as nat)
                    == Some((self.doc(), self.state.cursor2)),
                count == 0 ==> self.history() == old(self).history() && self.state == old(
                    self,
                ).state,
            ensures
                count < usize::MAX ==> replace_step(self.doc(), self.state.cursor2, param@)
                    is None,
            decreases usize::MAX - count,
        {
            if !self.replace_next(param) {
                break ;
            }
            count += 1;
        }
        count
    }

    /// Carries out a search command, with the pattern checked anew: finds
    /// and selects the next match, replaces the selection and finds the
    /// next match, replaces all matches, or collects all matches. It says
    /// whether the matches were collected and are to be shown.
    #[verifier::rlimit(50)]
    pub fn find_replace(&mut self, param: &mut FindReplaceCtx) -> (show_all: bool)
        requires
            old(self).wf(),
        ensures
            final(self).wf(),
            show_all == (old(param).cmd == Some(FindCmd::FindAll)),
            final(param)@ == (crate::cmd::FindModel {
                regex: if old(param).is_reg && regex_valid(old(param).find@, !old(param).is_case) {
                    Some((old(param).find@, !old(param).is_case))
                } else {
                    None
                },
                ..old(param)@
            }),
            match old(param).cmd {
                None => final(self).doc() == old(self).doc() && final(self).state == old(self).state
                    && final(self).history() == old(self).history(),
                Some(FindCmd::Find) => final(self).doc() == old(self).doc() && final(self).history()
                    == old(self).history() && final(self).state == (match replace_target(
                    old(self).doc(),
                    old(self).state.cursor2,
                    final(param)@,
                ) {
                    Some(m) => State { cursor1: m.0, cursor2: m.1, ..old(self).state },
                    None => old(self).state,
                }),
                Some(FindCmd::Replace) => ({
                    let c1 = old(self).state.cursor1;
                    let c2 = old(self).state.cursor2;
                    let after = if c1 != c2 {
                        let put = inserted(
                            deleted_doc(old(self).doc(), c1, c2),
                            c1.spec_min(c2),
                            final(param)@.replace,
                        );
                        after_change(put.0, put.1)
                    } else {
                        (old(self).doc(), c2)
                    };
                    &&& final(self).doc() == after.0
                    &&& final(self).state.cursor2 == (match replace_target(
                        after.0,
                        after.1,
                        final(param)@,
                    ) {
                        Some(m) => m.1,
                        None => after.1,
                    })
                }),
                Some(FindCmd::ReplaceAll) => exists|count: nat| #[trigger]
                    replaced_times(old(self).doc(), old(self).state.cursor2, final(param)@, count)
                        == Some((final(self).doc(), final(self).state.cursor2)) && (count
                        < usize::MAX ==> replace_step(
                        final(self).doc(),
                        final(self).state.cursor2,
                        final(param)@,
                    ) is None),
                Some(FindCmd::FindAll) => final(self).doc() == old(self).doc() && final(self).state
                    == old(self).state && final(self).history() == old(self).history() && (
                if final(param)@.find.len() == 0 {
                    final(self).find_cache == old(self).find_cache
                } else {
                    final(self).find_cache@ == doc_items(
                        old(self).doc(),
                        final(param)@,
                        true,
                        0,
                        old(self).doc().len() as int,
                    )
                }),
            },
    {
        param.regex_build();
        match param.cmd {
            Some(FindCmd::Find) => {
                self.find_and_select(param);
                false
            },
            Some(FindCmd::Replace) => {
                if self.is_selected() {
                    self.insert(param.replace.clone());
                }
                self.find_and_select(param);
                false
            },
            Some(FindCmd::ReplaceAll) => {
                let count = self.replace_all(param);
                proof {
                    assert(replaced_times(
                        old(self).doc(),
                        old(self).state.cursor2,
                        param@,
                        count as nat,
                    ) == Some((self.doc(), self.state.cursor2)));
                }
                false
            },
            Some(FindCmd::FindAll) => {
                self.find_all(param);
                true
            },
            None => false,
        }
    }

    /// What a new line starts with when the line before it is broken
    /// behind `left`.
    pub fn enter_auto_pak_ctrl(left: &str) -> (r: String)
        ensures
            r@ == auto_prefix(left@, checkbox_line(left@)),
    {
        enter_auto_pak_ctrl(left)
    }
}

} // verus!
