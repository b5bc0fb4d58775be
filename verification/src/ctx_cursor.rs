//! The cursors of a session: clamping them to the document, moving the
//! text cursor, and reading what is selected.

use crate::ctx::{Ctx, State};
use crate::cursor::Cursor;
use crate::md::pgh_models;
use crate::pgh::{PghModel, PghType, PghView};
use crate::segment::SegmentType;
use crate::strings::{chars_of, join_with, text_concat};
use crate::undo::doc_wf;
use vstd::prelude::*;
use vstd::string::*;

verus! {

/// The cursor clamped to a document: its line to the last line, its
/// segment to the last segment of that line, its column to the largest
/// column of that segment. In a document without lines it stays as it is.
pub open spec fn checked_cursor(doc: Seq<PghModel>, c: Cursor) -> Cursor {
    let line = if c.line_no >= doc.len() && doc.len() > 0 {
        (doc.len() - 1) as usize
    } else {
        c.line_no
    };
    if line < doc.len() {
        let p = doc[line as int];
        let seg = if c.segment > p.max_segment() {
            p.max_segment() as usize
        } else {
            c.segment
        };
        let col = if c.culumn > p.max_culumn(seg as int) {
            p.max_culumn(seg as int) as usize
        } else {
            c.culumn
        };
        Cursor { line_no: line, segment: seg, culumn: col }
    } else {
        c
    }
}

/// Whether a cursor lies in the document: on a line, in a segment and at
/// a column that exist.
pub open spec fn cursor_in_doc(doc: Seq<PghModel>, c: Cursor) -> bool {
    &&& c.line_no < doc.len()
    &&& c.segment <= doc[c.line_no as int].max_segment()
    &&& c.culumn <= doc[c.line_no as int].max_culumn(c.segment as int)
}

/// Clamping a clamped cursor changes nothing.
pub proof fn lemma_cursor_check_idempotent(doc: Seq<PghModel>, c: Cursor)
    ensures
        checked_cursor(doc, checked_cursor(doc, c)) == checked_cursor(doc, c),
        doc.len() > 0 ==> cursor_in_doc(doc, checked_cursor(doc, c)),
        cursor_in_doc(doc, c) ==> checked_cursor(doc, c) == c,
{
}

/// The cursor after a step forward in a document: one position on in its
/// paragraph, clamped; from a segment without text on to the next segment,
/// or from behind the last text segment to the next line, clamped again.
pub open spec fn stepped_forward(doc: Seq<PghModel>, c: Cursor) -> Cursor {
    let first = if c.line_no < doc.len() && c.segment < usize::MAX && c.culumn < usize::MAX {
        checked_cursor(doc, doc[c.line_no as int].cursor_after(c))
    } else {
        c
    };
    if first.line_no < doc.len() && doc[first.line_no as int].segment_type(first.segment as int)
        != SegmentType::Text && first.segment < usize::MAX {
        let p = doc[first.line_no as int];
        checked_cursor(
            doc,
            if first.segment > p.last_text_segment() {
                Cursor { line_no: (first.line_no + 1) as usize, segment: 0, culumn: 0 }
            } else {
                Cursor { line_no: first.line_no, segment: (first.segment + 1) as usize, culumn: 0 }
            },
        )
    } else {
        first
    }
}

/// The cursor after a step back in a document.
pub open spec fn stepped_back(doc: Seq<PghModel>, c: Cursor) -> Cursor {
    if c.line_no < doc.len() {
        checked_cursor(doc, doc[c.line_no as int].cursor_before(c))
    } else {
        c
    }
}

/// The characters that part words when a word is selected.
pub open spec fn word_delimiters() -> Seq<char> {
    " \t~`!@#$%^&*()+-=[]\\{}|;':\",./<>?\u{ff0c}\u{3002}\u{3001}\u{ff1b}\u{ff1a}\u{2018}\u{2019}\u{201c}\u{201d}"@
}

pub open spec fn is_ascii_char(c: char) -> bool {
    (c as u32) <= 0x7F
}

/// Whether the character at `at` belongs to the word around `cursor`: it
/// parts no words and is ASCII or not as the character at `cursor` is.
pub open spec fn in_word(t: Seq<char>, at: int, cursor: int) -> bool {
    &&& 0 <= at < t.len()
    &&& 0 <= cursor < t.len()
    &&& !word_delimiters().contains(t[at])
    &&& is_ascii_char(t[at]) == is_ascii_char(t[cursor])
}

/// The start of the word around `cursor`, searched back from `at`.
pub open spec fn word_start(t: Seq<char>, at: int, cursor: int) -> int
    decreases at,
{
    if at > 0 && in_word(t, at - 1, cursor) {
        word_start(t, at - 1, cursor)
    } else {
        at
    }
}

/// The end of the word around `cursor`, searched on from `at`.
pub open spec fn word_end(t: Seq<char>, at: int, cursor: int) -> int
    decreases t.len() - at,
{
    if at < t.len() && in_word(t, at, cursor) {
        word_end(t, at + 1, cursor)
    } else {
        at
    }
}

/// The columns of the word at column `cursor` of a text: the longest run
/// around it of characters that part no words and are all ASCII or all not.
pub open spec fn word_at(t: Seq<char>, cursor: int) -> Option<(int, int)> {
    if 0 <= cursor < t.len() {
        Some((word_start(t, cursor, cursor), word_end(t, cursor, cursor)))
    } else {
        None
    }
}

/// The first and the last line that a selection touches in a document of
/// `len` lines.
pub open spec fn selected_lines(len: int, c1: Cursor, c2: Cursor) -> (int, int) {
    let min = c1.spec_min(c2);
    let max = c1.spec_max(c2);
    let first = if min.line_no > len - 1 {
        len - 1
    } else {
        min.line_no as int
    };
    let last_low = if max.line_no < first {
        first
    } else {
        max.line_no as int
    };
    let last = if last_low > len - 1 {
        len - 1
    } else {
        last_low
    };
    (first, last)
}

/// The selected texts of the lines from `first` up to but not `upto`.
pub open spec fn selected_line_texts(
    doc: Seq<PghModel>,
    c1: Cursor,
    c2: Cursor,
    is_raw: bool,
    first: int,
    upto: int,
) -> Seq<Seq<char>>
    decreases upto - first,
{
    if upto <= first || upto > doc.len() || first < 0 {
        Seq::empty()
    } else {
        selected_line_texts(doc, c1, c2, is_raw, first, upto - 1).push(
            doc[upto - 1].select((upto - 1) as usize, c1, c2, is_raw),
        )
    }
}

/// The text that a selection covers in a document, its lines joined by
/// line feeds.
pub open spec fn selected_text_of(doc: Seq<PghModel>, c1: Cursor, c2: Cursor, is_raw: bool) -> Seq<
    char,
> {
    if doc.len() == 0 {
        Seq::empty()
    } else {
        let lines = selected_lines(doc.len() as int, c1, c2);
        join_with(selected_line_texts(doc, c1, c2, is_raw, lines.0, lines.1 + 1), "\n"@)
    }
}

/// The text of a paragraph as it is written to a file: a code paragraph
/// stands between fences, with its language behind the first.
pub open spec fn saved_paragraph(p: PghModel, line_no: usize) -> Seq<char> {
    let text = p.select(
        line_no,
        Cursor { line_no: 0, segment: 0, culumn: 0 },
        Cursor { line_no: usize::MAX, segment: 0, culumn: 0 },
        false,
    );
    if p.is_code() {
        "```"@ + (match p.code_lang {
            Some(l) => l,
            None => Seq::empty(),
        }) + "\n"@ + text + "\n```\n"@
    } else {
        text
    }
}

/// What parts paragraph `line_no` from the one before when a document is
/// written to a file: as markdown an empty line between paragraphs of
/// different kinds and between text paragraphs, a line feed otherwise.
pub open spec fn saved_separator(doc: Seq<PghModel>, line_no: int, is_markdown: bool) -> Seq<char> {
    if line_no <= 0 || line_no >= doc.len() {
        Seq::empty()
    } else if is_markdown && (doc[line_no - 1].pgh_type != doc[line_no].pgh_type || (doc[line_no
        - 1].pgh_type == PghType::Text && doc[line_no].pgh_type == PghType::Text)) {
        "\n\n"@
    } else {
        "\n"@
    }
}

/// The first `n` paragraphs of a document as they are written to a file.
pub open spec fn saved_text(doc: Seq<PghModel>, is_markdown: bool, n: int) -> Seq<char>
    decreases n,
{
    if n <= 0 || n > doc.len() {
        Seq::empty()
    } else {
        saved_text(doc, is_markdown, n - 1) + saved_separator(doc, n - 1, is_markdown)
            + saved_paragraph(doc[n - 1], (n - 1) as usize)
    }
}

/// The columns of the word at column `cursor` of a text.
pub fn get_word_at_cursor(text: &str, cursor: usize) -> (r: Option<(usize, usize)>)
    ensures
        match r {
            Some(w) => word_at(text@, cursor as int) == Some((w.0 as int, w.1 as int)),
            None => word_at(text@, cursor as int) is None,
        },
{
    let chars = chars_of(text);
    let delimiters = chars_of(
        " \t~`!@#$%^&*()+-=[]\\{}|;':\",./<>?\u{ff0c}\u{3002}\u{3001}\u{ff1b}\u{ff1a}\u{2018}\u{2019}\u{201c}\u{201d}",
    );
    if cursor >= chars.len() {
        return None;
    }
    let mut start = cursor;
    while start > 0 && char_in_word(&chars, &delimiters, start - 1, cursor)
        invariant
            chars@ == text@,
            delimiters@ == word_delimiters(),
            0 <= start <= cursor < chars.len(),
            word_start(text@, start as int, cursor as int) == word_start(
                text@,
                cursor as int,
                cursor as int,
            ),
        decreases start,
    {
        start -= 1;
    }
    let mut end = cursor;
    while end < chars.len() && char_in_word(&chars, &delimiters, end, cursor)
        invariant
            chars@ == text@,
            delimiters@ == word_delimiters(),
            cursor <= end <= chars.len(),
            cursor < chars.len(),
            word_end(text@, end as int, cursor as int) == word_end(
                text@,
                cursor as int,
                cursor as int,
            ),
        decreases chars.len() - end,
    {
        end += 1;
    }
    Some((start, end))
}

fn char_in_word(chars: &Vec<char>, delimiters: &Vec<char>, at: usize, cursor: usize) -> (b: bool)
    requires
        at < chars.len(),
        cursor < chars.len(),
        delimiters@ == word_delimiters(),
    ensures
        b == in_word(chars@, at as int, cursor as int),
{
    let c = chars[at];
    let mut found = false;
    let mut i: usize = 0;
    while i < delimiters.len()
        invariant
            0 <= i <= delimiters.len(),
            found <==> exists|k: int| 0 <= k < i && #[trigger] delimiters@[k] == c,
        decreases delimiters.len() - i,
    {
        if delimiters[i] == c {
            found = true;
        }
        i += 1;
    }
    !found && ((c as u32) <= 0x7F) == ((chars[cursor] as u32) <= 0x7F)
}

impl Ctx {
    pub fn cursor1(&self) -> (c: Cursor)
        ensures
            c == self.state.cursor1,
    {
        self.state.cursor1
    }

    pub fn cursor2(&self) -> (c: Cursor)
        ensures
            c == self.state.cursor2,
    {
        self.state.cursor2
    }

    /// Ends the selection: the other cursor goes where the text cursor is.
    pub fn set_cursor1_reset(&mut self)
        ensures
            final(self).state == (State { cursor1: old(self).state.cursor2, ..old(self).state }),
            final(self).same_but_state(old(self)),
    {
        self.state.cursor1 = self.state.cursor2;
    }

    /// Swaps the two cursors.
    pub fn set_cursor_switch(&mut self)
        ensures
            final(self).state == (State {
                cursor1: old(self).state.cursor2,
                cursor2: old(self).state.cursor1,
                ..old(self).state
            }),
            final(self).same_but_state(old(self)),
    {
        let c1 = self.state.cursor1;
        self.state.cursor1 = self.state.cursor2;
        self.state.cursor2 = c1;
    }

    /// Puts both cursors where the smaller of them is.
    pub fn set_cursors_to_min(&mut self)
        ensures
            final(self).state == (State {
                cursor1: old(self).state.cursor1.spec_min(old(self).state.cursor2),
                cursor2: old(self).state.cursor1.spec_min(old(self).state.cursor2),
                ..old(self).state
            }),
            final(self).same_but_state(old(self)),
    {
        let min = Cursor::min_of(self.state.cursor1, self.state.cursor2);
        self.state.cursor1 = min;
        self.state.cursor2 = min;
    }

    /// Selects the whole document.
    pub fn set_cursors_select_all(&mut self)
        ensures
            final(self).state == (State {
                cursor1: Cursor { line_no: 0, segment: 0, culumn: 0 },
                cursor2: checked_cursor(
                    old(self).doc(),
                    Cursor { line_no: usize::MAX, segment: usize::MAX, culumn: usize::MAX },
                ),
                ..old(self).state
            }),
            final(self).same_but_state(old(self)),
    {
        self.state.cursor1 = Cursor { line_no: 0, segment: 0, culumn: 0 };
        self.set_cursor2_to_end();
    }

    pub fn set_cursor1(&mut self, cursor: Cursor)
        ensures
            final(self).state == (State { cursor1: cursor, ..old(self).state }),
            final(self).same_but_state(old(self)),
    {
        self.state.cursor1 = cursor;
    }

    pub fn set_cursor2(&mut self, cursor: Cursor)
        ensures
            final(self).state == (State { cursor2: cursor, ..old(self).state }),
            final(self).same_but_state(old(self)),
    {
        self.state.cursor2 = cursor;
    }

    /// Puts the text cursor at the end of the document.
    pub fn set_cursor2_to_end(&mut self)
        ensures
            final(self).state == (State {
                cursor2: checked_cursor(
                    old(self).doc(),
                    Cursor { line_no: usize::MAX, segment: usize::MAX, culumn: usize::MAX },
                ),
                ..old(self).state
            }),
            final(self).same_but_state(old(self)),
    {
        let max_cursor = Cursor { line_no: usize::MAX, segment: usize::MAX, culumn: usize::MAX };
        self.state.cursor2 = self.cursor_check(&max_cursor);
    }

    /// Whether the text cursor has moved since it was last remembered;
    /// remembers where it is.
    pub fn cursor2_cmp_and_bakup(&mut self) -> (changed: bool)
        ensures
            changed == (old(self).state.cursor2_bak != old(self).state.cursor2),
            final(self).state == (State { cursor2_bak: old(self).state.cursor2, ..old(self).state }),
            final(self).same_but_state(old(self)),
    {
        let changed = self.state.cursor2_bak != self.state.cursor2;
        self.state.cursor2_bak = self.state.cursor2;
        changed
    }

    pub fn cursor2_bakup_reset(&mut self)
        ensures
            final(self).state == (State {
                cursor2_bak: Cursor { line_no: 0, segment: 0, culumn: 0 },
                ..old(self).state
            }),
            final(self).same_but_state(old(self)),
    {
        self.state.cursor2_bak = Cursor { line_no: 0, segment: 0, culumn: 0 };
    }

    /// The paragraph that a cursor stands in.
    pub fn cursor_pghview(&self, cursor: &Cursor) -> (r: Option<&PghView>)
        ensures
            match r {
                Some(p) => cursor.line_no < self.doc().len() && p@ == self.doc()[cursor.line_no as int]
                    && *p == self.pgh_views[cursor.line_no as int],
                None => cursor.line_no >= self.doc().len(),
            },
    {
        if cursor.line_no >= self.pgh_views.len() {
            return None;
        }
        Some(&self.pgh_views[cursor.line_no])
    }

    /// The cursor clamped to the document.
    pub fn cursor_check(&self, cursor: &Cursor) -> (c: Cursor)
        ensures
            c == checked_cursor(self.doc(), *cursor),
    {
        let mut cursor = *cursor;
        if cursor.line_no >= self.pgh_views.len() && self.pgh_views.len() > 0 {
            cursor.line_no = self.pgh_views.len() - 1;
        }
        if let Some(pgh_view) = self.cursor_pghview(&cursor) {
            let max_segment = pgh_view.max_segment();
            if cursor.segment > max_segment {
                cursor.segment = max_segment;
            }
            let max_culumn = pgh_view.max_culumn(&cursor);
            if cursor.culumn > max_culumn {
                cursor.culumn = max_culumn;
            }
        }
        cursor
    }

    /// Moves the text cursor one position on.
    #[verifier::rlimit(50)]
    pub fn cursor2_move_next(&mut self)
        ensures
            final(self).state == (State {
                cursor2: stepped_forward(old(self).doc(), old(self).state.cursor2),
                ..old(self).state
            }),
            final(self).same_but_state(old(self)),
    {
        let c = self.state.cursor2;
        if c.segment < usize::MAX && c.culumn < usize::MAX {
            if let Some(pgh_view) = self.cursor_pghview(&c) {
                proof {
                    assert(self.doc().len() == self.pgh_views.len());
                }
                let new = c.cursor_move_next(pgh_view);
                self.state.cursor2 = self.cursor_check(&new);
            }
        }
        let c = self.state.cursor2;
        if c.segment < usize::MAX {
            if let Some(pgh_view) = self.cursor_pghview(&c) {
                if pgh_view.get_segment_type(c.segment) != SegmentType::Text {
                    proof {
                        assert(self.doc().len() == self.pgh_views.len());
                    }
                    let next = if c.segment > pgh_view.last_text_segment() {
                        Cursor { line_no: c.line_no + 1, segment: 0, culumn: 0 }
                    } else {
                        Cursor { line_no: c.line_no, segment: c.segment + 1, culumn: 0 }
                    };
                    self.state.cursor2 = self.cursor_check(&next);
                }
            }
        }
    }

    /// Moves the text cursor one position back.
    pub fn cursor2_move_prev(&mut self)
        ensures
            final(self).state == (State {
                cursor2: stepped_back(old(self).doc(), old(self).state.cursor2),
                ..old(self).state
            }),
            final(self).same_but_state(old(self)),
    {
        let c = self.state.cursor2;
        if let Some(pgh_view) = self.cursor_pghview(&c) {
            let new = c.cursor_move_prev(pgh_view);
            self.state.cursor2 = self.cursor_check(&new);
        }
    }

    /// Moves the text cursor to the line above, keeping segment and column
    /// as far as that line has them.
    pub fn cursor2_move_up(&mut self)
        ensures
            final(self).state == (State {
                cursor2: checked_cursor(
                    old(self).doc(),
                    Cursor {
                        line_no: if old(self).state.cursor2.line_no > 0 {
                            (old(self).state.cursor2.line_no - 1) as usize
                        } else {
                            0
                        },
                        ..old(self).state.cursor2
                    },
                ),
                ..old(self).state
            }),
            final(self).same_but_state(old(self)),
    {
        let new = self.state.cursor2.cursor_move_up();
        self.state.cursor2 = self.cursor_check(&new);
    }

    /// Moves the text cursor to the line below, keeping segment and column
    /// as far as that line has them.
    pub fn cursor2_move_down(&mut self)
        ensures
            final(self).state == (State {
                cursor2: checked_cursor(
                    old(self).doc(),
                    Cursor {
                        line_no: if old(self).state.cursor2.line_no < usize::MAX {
                            (old(self).state.cursor2.line_no + 1) as usize
                        } else {
                            usize::MAX
                        },
                        ..old(self).state.cursor2
                    },
                ),
                ..old(self).state
            }),
            final(self).same_but_state(old(self)),
    {
        let c = self.state.cursor2;
        let new = if c.line_no < usize::MAX {
            c.cursor_move_down()
        } else {
            c
        };
        self.state.cursor2 = self.cursor_check(&new);
    }

    /// Moves the text cursor to the start of its segment.
    pub fn cursor2_move_home(&mut self)
        ensures
            final(self).state == (State {
                cursor2: checked_cursor(
                    old(self).doc(),
                    Cursor { culumn: 0, ..old(self).state.cursor2 },
                ),
                ..old(self).state
            }),
            final(self).same_but_state(old(self)),
    {
        let new = self.state.cursor2.cursor_move_home();
        self.state.cursor2 = self.cursor_check(&new);
    }

    /// Moves the text cursor to the end of its segment.
    pub fn cursor2_move_end(&mut self)
        ensures
            final(self).state == (State {
                cursor2: checked_cursor(
                    old(self).doc(),
                    Cursor { culumn: usize::MAX, ..old(self).state.cursor2 },
                ),
                ..old(self).state
            }),
            final(self).same_but_state(old(self)),
    {
        let new = self.state.cursor2.cursor_move_end();
        self.state.cursor2 = self.cursor_check(&new);
    }

    /// Selects the word that the text cursor stands in. Nothing changes
    /// where the cursor stands in no segment or behind the segment's text.
    pub fn select_word_at_cursor(&mut self)
        ensures
            final(self).same_but_state(old(self)),
            ({
                let c = old(self).state.cursor2;
                let doc = old(self).doc();
                let word = if c.line_no < doc.len() && c.segment < doc[c.line_no as int].segs.len() {
                    word_at(doc[c.line_no as int].segs[c.segment as int].text(), c.culumn as int)
                } else {
                    None
                };
                final(self).state == (match word {
                    Some(w) => State {
                        cursor1: Cursor { culumn: w.0 as usize, ..c },
                        cursor2: Cursor { culumn: w.1 as usize, ..c },
                        ..old(self).state
                    },
                    None => old(self).state,
                })
            }),
    {
        let c = self.state.cursor2;
        if c.line_no < self.pgh_views.len() {
            if c.segment < self.pgh_views[c.line_no].pgh.len() {
                let text = self.pgh_views[c.line_no].pgh[c.segment].item.text();
                proof {
                    assert(self.doc()[c.line_no as int] == self.pgh_views[c.line_no as int]@);
                    assert(self.doc()[c.line_no as int].segs[c.segment as int]
                        == self.pgh_views[c.line_no as int].pgh@[c.segment as int]@);
                }
                if let Some((start, end)) = get_word_at_cursor(text.as_str(), c.culumn) {
                    self.state.cursor1 = Cursor { line_no: c.line_no, segment: c.segment, culumn: start };
                    self.state.cursor2 = Cursor { line_no: c.line_no, segment: c.segment, culumn: end };
                }
            }
        }
    }

    /// Selects the line that the text cursor stands in, from the start of
    /// its first segment to the end of its last.
    pub fn select_line_at_cursor(&mut self)
        ensures
            final(self).same_but_state(old(self)),
            ({
                let c = old(self).state.cursor2;
                let doc = old(self).doc();
                final(self).state == (if c.line_no < doc.len() {
                    let p = doc[c.line_no as int];
                    State {
                        cursor1: Cursor { line_no: c.line_no, segment: 0, culumn: 0 },
                        cursor2: Cursor {
                            line_no: c.line_no,
                            segment: p.max_segment() as usize,
                            culumn: p.max_culumn(p.max_segment()) as usize,
                        },
                        ..old(self).state
                    }
                } else {
                    old(self).state
                })
            }),
    {
        let c = self.state.cursor2;
        if let Some(pghview) = self.cursor_pghview(&c) {
            let segment = pghview.max_segment();
            let end = Cursor { line_no: c.line_no, segment, culumn: 0 };
            let culumn = pghview.max_culumn(&end);
            self.state.cursor1 = Cursor { line_no: c.line_no, segment: 0, culumn: 0 };
            self.state.cursor2 = Cursor { line_no: c.line_no, segment, culumn };
        }
    }

    /// The first and the last line that the selection touches.
    pub fn current_cursor_lines(&self) -> (r: Option<(usize, usize)>)
        ensures
            match r {
                Some(l) => self.doc().len() > 0 && (l.0 as int, l.1 as int) == selected_lines(
                    self.doc().len() as int,
                    self.state.cursor1,
                    self.state.cursor2,
                ) && l.0 <= l.1 < self.doc().len(),
                None => self.doc().len() == 0,
            },
    {
        let len = self.pgh_views.len();
        if len == 0 {
            return None;
        }
        let min = Cursor::min_of(self.state.cursor1, self.state.cursor2);
        let max = Cursor::max_of(self.state.cursor1, self.state.cursor2);
        let first = if min.line_no > len - 1 {
            len - 1
        } else {
            min.line_no
        };
        let last_low = if max.line_no < first {
            first
        } else {
            max.line_no
        };
        let last = if last_low > len - 1 {
            len - 1
        } else {
            last_low
        };
        Some((first, last))
    }

    /// The selected text, raw or as it is copied.
    pub fn get_selected_raw_text(&self, is_raw: bool) -> (r: String)
        requires
            self.wf(),
        ensures
            r@ == selected_text_of(self.doc(), self.state.cursor1, self.state.cursor2, is_raw),
    {
        let lines = match self.current_cursor_lines() {
            Some(l) => l,
            None => {
                return String::new();
            },
        };
        let c1 = self.state.cursor1;
        let c2 = self.state.cursor2;
        let mut parts: Vec<String> = Vec::new();
        let mut line = lines.0;
        while line <= lines.1
            invariant
                self.wf(),
                lines.0 <= line <= lines.1 + 1,
                lines.1 < self.pgh_views.len(),
                c1 == self.state.cursor1,
                c2 == self.state.cursor2,
                crate::strings::texts(parts@) =~= selected_line_texts(
                    self.doc(),
                    c1,
                    c2,
                    is_raw,
                    lines.0 as int,
                    line as int,
                ),
            decreases lines.1 + 1 - line,
        {
            proof {
                assert(self.doc()[line as int] == self.pgh_views[line as int]@);
                assert(self.doc()[line as int].wf());
            }
            let t = self.pgh_views[line].select(line, &c1, &c2, is_raw);
            proof {
                crate::strings::lemma_texts_push(parts@, t);
            }
            parts.push(t);
            line += 1;
        }
        crate::strings::join_texts(&parts, "\n")
    }

    /// The selected text as it is copied.
    pub fn get_selected_text(&self) -> (r: String)
        requires
            self.wf(),
        ensures
            r@ == selected_text_of(self.doc(), self.state.cursor1, self.state.cursor2, false),
    {
        self.get_selected_raw_text(false)
    }

    /// The document as it is written to a file.
    #[verifier::rlimit(50)]
    pub fn get_all_text(&self) -> (r: String)
        requires
            self.wf(),
        ensures
            r@ == saved_text(self.doc(), self.cfg.is_markdown, self.doc().len() as int),
    {
        let mut s = String::new();
        let c1 = Cursor { line_no: 0, segment: 0, culumn: 0 };
        let c2 = Cursor { line_no: usize::MAX, segment: 0, culumn: 0 };
        let mut line: usize = 0;
        while line < self.pgh_views.len()
            invariant
                self.wf(),
                0 <= line <= self.pgh_views.len(),
                c1 == (Cursor { line_no: 0, segment: 0, culumn: 0 }),
                c2 == (Cursor { line_no: usize::MAX, segment: 0, culumn: 0 }),
                s@ == saved_text(self.doc(), self.cfg.is_markdown, line as int),
            decreases self.pgh_views.len() - line,
        {
            proof {
                assert(self.doc()[line as int] == self.pgh_views[line as int]@);
                assert(self.doc()[line as int].wf());
                if line > 0 {
                    assert(self.doc()[line - 1] == self.pgh_views[line - 1]@);
                }
            }
            let pgh_view = &self.pgh_views[line];
            let mut selected = pgh_view.select(line, &c1, &c2, false);
            if pgh_view.is_code() {
                let mut fenced = String::from_str("```");
                match &pgh_view.code_lang {
                    Some(l) => {
                        fenced.append(l.as_str());
                    },
                    None => {
                        proof {
                            assert(fenced@ + Seq::<char>::empty() =~= fenced@);
                        }
                    },
                }
                fenced.append("\n");
                fenced.append(selected.as_str());
                fenced.append("\n```\n");
                selected = fenced;
            }
            if line > 0 {
                let prev = self.pgh_views[line - 1].pgh_type;
                if self.cfg.is_markdown && (prev != pgh_view.pgh_type || (prev == PghType::Text
                    && pgh_view.pgh_type == PghType::Text)) {
                    s.append("\n\n");
                } else {
                    s.append("\n");
                }
            } else {
                proof {
                    assert(s@ + Seq::<char>::empty() =~= s@);
                }
            }
            s.append(selected.as_str());
            line += 1;
        }
        s
    }
}

impl Ctx {
    /// The columns of the word at column `cursor` of a text.
    pub fn get_word_at_cursor(text: &str, cursor: usize) -> (r: Option<(usize, usize)>)
        ensures
            match r {
                Some(w) => crate::ctx_cursor::word_at(text@, cursor as int) == Some(
                    (w.0 as int, w.1 as int),
                ),
                None => crate::ctx_cursor::word_at(text@, cursor as int) is None,
            },
    {
        crate::ctx_cursor::get_word_at_cursor(text, cursor)
    }
}

} // verus!
