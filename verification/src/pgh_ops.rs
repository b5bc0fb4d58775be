//! What a selection leaves of a paragraph, what it covers, and how a
//! paragraph splits at a cursor.

use crate::cursor::Cursor;
use crate::pgh::{same_frame, PghModel, PghView};
use crate::segment::SegModel;
use crate::strings::{
    char_count, concat_all, concat_texts, lemma_concat_all_push, lemma_texts_push, split_lines,
    split_on, sub_text, text_concat, texts,
};
use vstd::prelude::*;

verus! {

/// The first `n` texts of `t` without those that are empty and lie
/// strictly between positions `lo` and `hi`.
pub open spec fn without_inner_empty(t: Seq<Seq<char>>, lo: int, hi: int, n: int) -> Seq<Seq<char>>
    decreases n,
{
    if n <= 0 || n > t.len() {
        Seq::empty()
    } else {
        let rest = without_inner_empty(t, lo, hi, n - 1);
        if t[n - 1].len() == 0 && lo < n - 1 < hi {
            rest
        } else {
            rest.push(t[n - 1])
        }
    }
}

/// The lines of a code paragraph after a deletion between the lines `lo`
/// and `hi`: the empty lines in between go, and the two lines that then
/// meet become one.
pub open spec fn join_code_lines(t: Seq<Seq<char>>, lo: int, hi: int) -> Seq<Seq<char>> {
    let kept = without_inner_empty(t, lo, hi, t.len() as int);
    if hi != lo && lo + 1 < kept.len() {
        kept.take(lo).push(kept[lo] + kept[lo + 1]) + kept.skip(lo + 2)
    } else {
        kept
    }
}

impl PghModel {
    /// The text that a deletion leaves in each segment, read on line
    /// `line_no`. In a table with both cursors on one line, only the cells
    /// of the rectangle that the cursors span are touched.
    pub open spec fn delete_texts(self, line_no: usize, c1: Cursor, c2: Cursor) -> Seq<Seq<char>> {
        Seq::new(
            self.segs.len(),
            |i: int|
                if c1.line_no == c2.line_no && self.is_table() && !self.in_table_select(
                    i,
                    c1.segment as int,
                    c2.segment as int,
                ) {
                    self.segs[i].text()
                } else {
                    self.segs[i].delete(line_no, i as usize, c1, c2)
                },
        )
    }

    /// The texts of the segments after the selection is deleted. A code
    /// paragraph that holds the whole selection loses the lines that became
    /// empty inside it and joins the first and the last line touched.
    pub open spec fn delete(self, line_no: usize, c1: Cursor, c2: Cursor) -> Seq<Seq<char>> {
        let t = self.delete_texts(line_no, c1, c2);
        if self.is_code() && c1.line_no == c2.line_no && line_no == c1.line_no {
            join_code_lines(
                t,
                c1.spec_min(c2).segment as int,
                c1.spec_max(c2).segment as int,
            )
        } else {
            t
        }
    }

    /// The selected texts of the first `n` segments, in order, without the
    /// segments that give none.
    pub open spec fn selected_below(
        self,
        line_no: usize,
        c1: Cursor,
        c2: Cursor,
        keep_pos: bool,
        n: int,
    ) -> Seq<Seq<char>>
        decreases n,
    {
        if n <= 0 || n > self.segs.len() {
            Seq::empty()
        } else {
            let rest = self.selected_below(line_no, c1, c2, keep_pos, n - 1);
            match self.segs[n - 1].select(line_no, (n - 1) as usize, c1, c2, keep_pos) {
                Some(t) => rest.push(t),
                None => rest,
            }
        }
    }

    /// The selected text of each segment that gives one.
    pub open spec fn select_to_vec(self, line_no: usize, c1: Cursor, c2: Cursor, keep_pos: bool)
        -> Seq<Seq<char>> {
        self.selected_below(line_no, c1, c2, keep_pos, self.segs.len() as int)
    }

    /// The text of the paragraph left of a cursor: the segments before the
    /// cursor's and its segment up to the cursor's column; the whole text
    /// where the cursor's segment is past the last.
    pub open spec fn left_of(self, c: Cursor) -> Seq<char> {
        if c.segment < self.segs.len() {
            concat_all(self.texts().take(c.segment as int)) + self.segs[c.segment as int].split(
                c.culumn,
            ).0
        } else {
            self.text()
        }
    }

    /// The text of the paragraph from a cursor on; empty where the
    /// cursor's segment is past the last.
    pub open spec fn right_of(self, c: Cursor) -> Seq<char> {
        if c.segment < self.segs.len() {
            self.segs[c.segment as int].split(c.culumn).1 + concat_all(
                self.texts().skip(c.segment + 1),
            )
        } else {
            Seq::empty()
        }
    }

    /// The text of the cursor's segment with `s` put in at the cursor's
    /// column; empty where there is no such segment.
    pub open spec fn spliced(self, c: Cursor, s: Seq<char>) -> Seq<char> {
        if c.segment < self.segs.len() {
            let parts = self.segs[c.segment as int].split(c.culumn);
            parts.0 + s + parts.1
        } else {
            Seq::empty()
        }
    }

    /// The paragraph after a line break inside a code paragraph: the
    /// cursor's line keeps what lies left of the cursor, and a new line
    /// after it gets the rest.
    pub open spec fn with_code_enter(self, c: Cursor) -> PghModel {
        if c.segment < self.segs.len() {
            let parts = self.segs[c.segment as int].split(c.culumn);
            self.with_segment_text(c.segment as int, parts.0).with_text_inserted(
                c.segment + 1,
                parts.1,
            )
        } else {
            self
        }
    }

    /// The paragraph after `s` is put into a code paragraph at a cursor:
    /// the cursor's line becomes the first line of the spliced text, and
    /// each further line becomes a text segment of its own after it.
    pub open spec fn with_code_insert(self, c: Cursor, s: Seq<char>) -> PghModel {
        if c.segment < self.segs.len() {
            let lines = split_on(self.spliced(c, s), '\n');
            PghModel {
                segs: self.segs.take(c.segment as int).push(
                    self.segs[c.segment as int].with_text(lines[0]),
                ) + Seq::new((lines.len() - 1) as nat, |i: int| SegModel::of_text(lines[i + 1]))
                    + self.segs.skip(c.segment + 1),
                ..self
            }
        } else {
            self
        }
    }

    /// Where the cursor stands after `with_code_insert`: on the last line
    /// put in, as far from its end as the text right of the cursor is long.
    pub open spec fn code_insert_cursor(self, c: Cursor, s: Seq<char>) -> Cursor {
        if c.segment < self.segs.len() {
            let lines = split_on(self.spliced(c, s), '\n');
            let right = self.segs[c.segment as int].split(c.culumn).1;
            Cursor {
                line_no: c.line_no,
                segment: (c.segment + lines.len() - 1) as usize,
                culumn: if lines.last().len() >= right.len() {
                    (lines.last().len() - right.len()) as usize
                } else {
                    0
                },
            }
        } else {
            c
        }
    }

    /// Whether two paragraphs have the same kind and, segment by segment,
    /// the same kinds and texts.
    pub open spec fn same_content(self, other: PghModel) -> bool {
        &&& self.pgh_type == other.pgh_type
        &&& self.segs.len() == other.segs.len()
        &&& forall|i: int|
            0 <= i < self.segs.len() ==> (#[trigger] self.segs[i]).seg_type == other.segs[i].seg_type
                && self.segs[i].text() == other.segs[i].text()
    }
}

/// With `keep_pos` on, every segment gives a selected text.
pub proof fn lemma_selected_keep_len(m: PghModel, line_no: usize, c1: Cursor, c2: Cursor, n: int)
    requires
        0 <= n <= m.segs.len(),
    ensures
        m.selected_below(line_no, c1, c2, true, n).len() == n,
        forall|i: int|
            0 <= i < n ==> (#[trigger] m.selected_below(line_no, c1, c2, true, n)[i]) == m.segs[i].select(
                line_no,
                i as usize,
                c1,
                c2,
                true,
            )->0,
    decreases n,
{
    if n > 0 {
        lemma_selected_keep_len(m, line_no, c1, c2, n - 1);
    }
}

impl PghView {
    /// The text of each segment after the selection between `c1` and `c2`
    /// is deleted, read on line `line_no`.
    #[verifier::rlimit(50)]
    pub fn delete(&self, line_no: usize, c1: &Cursor, c2: &Cursor) -> (r: Vec<String>)
        requires
            self@.wf(),
        ensures
            texts(r@) == self@.delete(line_no, *c1, *c2),
    {
        let ghost goal = self@.delete_texts(line_no, *c1, *c2);
        let table_mode = c1.line_no == c2.line_no && self.is_table();
        let mut out: Vec<String> = Vec::new();
        let mut i: usize = 0;
        while i < self.pgh.len()
            invariant
                self@.wf(),
                0 <= i <= self.pgh.len(),
                goal == self@.delete_texts(line_no, *c1, *c2),
                table_mode == (c1.line_no == c2.line_no && self@.is_table()),
                texts(out@) =~= goal.take(i as int),
            decreases self.pgh.len() - i,
        {
            let t = if table_mode && !self.is_segment_in_table_select(i, c1.segment, c2.segment) {
                self.pgh[i].item.text()
            } else {
                match self.pgh[i].item.delete(line_no, i, c1, c2) {
                    Some(s) => s,
                    None => String::new(),
                }
            };
            proof {
                assert(self@.segs[i as int] == self.pgh@[i as int]@);
                assert(goal[i as int] == t@);
                lemma_texts_push(out@, t);
                assert(goal.take(i + 1) =~= goal.take(i as int).push(t@));
            }
            out.push(t);
            i += 1;
        }
        proof {
            assert(goal.take(self.pgh.len() as int) =~= goal);
        }
        if self.is_code() && c1.line_no == c2.line_no && line_no == c1.line_no {
            let min = Cursor::min_of(*c1, *c2);
            let max = Cursor::max_of(*c1, *c2);
            join_lines(&out, min.segment, max.segment)
        } else {
            out
        }
    }

    /// The selected text of each segment that gives one.
    pub fn select_to_vec(&self, line_no: usize, c1: &Cursor, c2: &Cursor, keep_pos: bool) -> (r:
        Vec<String>)
        ensures
            texts(r@) == self@.select_to_vec(line_no, *c1, *c2, keep_pos),
    {
        let mut out: Vec<String> = Vec::new();
        let mut i: usize = 0;
        while i < self.pgh.len()
            invariant
                0 <= i <= self.pgh.len(),
                texts(out@) =~= self@.selected_below(line_no, *c1, *c2, keep_pos, i as int),
            decreases self.pgh.len() - i,
        {
            proof {
                assert(self@.segs[i as int] == self.pgh@[i as int]@);
            }
            match self.pgh[i].item.select(line_no, i, c1, c2, keep_pos) {
                Some(s) => {
                    proof {
                        lemma_texts_push(out@, s);
                    }
                    out.push(s);
                },
                None => {},
            }
            i += 1;
        }
        out
    }

    /// The text left of the cursor.
    fn text_left_of(&self, c: &Cursor) -> (r: String)
        ensures
            r@ == self@.left_of(*c),
    {
        if c.segment < self.pgh.len() {
            let mut r = String::new();
            let mut i: usize = 0;
            while i < c.segment
                invariant
                    c.segment < self.pgh.len(),
                    0 <= i <= c.segment,
                    r@ == concat_all(self@.texts().take(i as int)),
                decreases c.segment - i,
            {
                let t = self.pgh[i].item.text();
                proof {
                    assert(self@.segs[i as int] == self.pgh@[i as int]@);
                    assert(self@.texts().take(i + 1) =~= self@.texts().take(i as int).push(t@));
                    lemma_concat_all_push(self@.texts().take(i as int), t@);
                }
                r = text_concat(r.as_str(), t.as_str());
                i += 1;
            }
            let parts = self.pgh[c.segment].item.insert(c);
            proof {
                assert(self@.segs[c.segment as int] == self.pgh@[c.segment as int]@);
            }
            text_concat(r.as_str(), parts.0.as_str())
        } else {
            self.get_text()
        }
    }

    /// The text from the cursor on.
    fn text_right_of(&self, c: &Cursor) -> (r: String)
        ensures
            r@ == self@.right_of(*c),
    {
        if c.segment < self.pgh.len() {
            let parts = self.pgh[c.segment].item.insert(c);
            proof {
                assert(self@.segs[c.segment as int] == self.pgh@[c.segment as int]@);
            }
            let mut r = parts.1;
            let mut i: usize = c.segment + 1;
            let ghost tail = self@.texts().skip(c.segment + 1);
            proof {
                assert(tail.take(0) =~= Seq::<Seq<char>>::empty());
                assert(r@ + concat_all(tail.take(0)) =~= r@);
            }
            while i < self.pgh.len()
                invariant
                    c.segment < self.pgh.len(),
                    c.segment + 1 <= i <= self.pgh.len(),
                    tail == self@.texts().skip(c.segment + 1),
                    r@ == self@.segs[c.segment as int].split(c.culumn).1 + concat_all(
                        tail.take(i - c.segment - 1),
                    ),
                decreases self.pgh.len() - i,
            {
                let t = self.pgh[i].item.text();
                proof {
                    assert(self@.segs[i as int] == self.pgh@[i as int]@);
                    assert(tail.take(i - c.segment) =~= tail.take(i - c.segment - 1).push(t@));
                    lemma_concat_all_push(tail.take(i - c.segment - 1), t@);
                    assert((self@.segs[c.segment as int].split(c.culumn).1 + concat_all(
                        tail.take(i - c.segment - 1),
                    )) + t@ =~= self@.segs[c.segment as int].split(c.culumn).1 + (concat_all(
                        tail.take(i - c.segment - 1),
                    ) + t@));
                }
                r = text_concat(r.as_str(), t.as_str());
                i += 1;
            }
            proof {
                assert(tail.take(self.pgh.len() - c.segment - 1) =~= tail);
            }
            r
        } else {
            String::new()
        }
    }

    /// The text left of the cursor, the text from it on, and the text of
    /// the cursor's segment with `s` put in at the cursor.
    pub fn insert(&self, c: &Cursor, s: &str) -> (r: (String, String, String))
        ensures
            r.0@ == self@.left_of(*c),
            r.1@ == self@.right_of(*c),
            r.2@ == self@.spliced(*c, s@),
    {
        let left = self.text_left_of(c);
        let right = self.text_right_of(c);
        let this = if c.segment < self.pgh.len() {
            let parts = self.pgh[c.segment].item.insert(c);
            proof {
                assert(self@.segs[c.segment as int] == self.pgh@[c.segment as int]@);
            }
            let head = text_concat(parts.0.as_str(), s);
            text_concat(head.as_str(), parts.1.as_str())
        } else {
            String::new()
        };
        (left, right, this)
    }

    /// The two texts that a line break at the cursor parts the paragraph
    /// into.
    pub fn normal_enter(&self, c: &Cursor) -> (r: (String, String))
        ensures
            r.0@ == self@.left_of(*c),
            r.1@ == self@.right_of(*c),
    {
        (self.text_left_of(c), self.text_right_of(c))
    }

    /// The number of characters of the paragraph's text left of the cursor.
    pub fn cursor_to_text_char_index(&self, cursor: &Cursor) -> (r: usize)
        ensures
            r == self@.left_of(*cursor).len(),
    {
        let left = self.text_left_of(cursor);
        char_count(left.as_str())
    }

    /// Whether two paragraphs have the same kind and, segment by segment,
    /// the same kinds and texts.
    pub fn is_pgh_view_eq(a: &PghView, b: &PghView) -> (r: bool)
        ensures
            r == a@.same_content(b@),
    {
        if a.pgh_type != b.pgh_type {
            return false;
        }
        if a.pgh.len() != b.pgh.len() {
            return false;
        }
        let mut i: usize = 0;
        while i < a.pgh.len()
            invariant
                a.pgh.len() == b.pgh.len(),
                0 <= i <= a.pgh.len(),
                forall|k: int|
                    0 <= k < i ==> (#[trigger] a@.segs[k]).seg_type == b@.segs[k].seg_type
                        && a@.segs[k].text() == b@.segs[k].text(),
            decreases a.pgh.len() - i,
        {
            proof {
                assert(a@.segs[i as int] == a.pgh@[i as int]@);
                assert(b@.segs[i as int] == b.pgh@[i as int]@);
            }
            if a.pgh[i].seg_type != b.pgh[i].seg_type {
                return false;
            }
            let t1 = a.pgh[i].item.text();
            let t2 = b.pgh[i].item.text();
            if t1 != t2 {
                return false;
            }
            i += 1;
        }
        true
    }

    /// Breaks the cursor's line of a code paragraph in two at the cursor.
    pub fn code_enter(&mut self, c: &Cursor)
        ensures
            final(self)@ == old(self)@.with_code_enter(*c),
            same_frame(*final(self), *old(self)),
    {
        if c.segment < self.pgh.len() {
            let parts = self.pgh[c.segment].item.enter(c);
            proof {
                assert(self@.segs[c.segment as int] == self.pgh@[c.segment as int]@);
            }
            self.update_segment_text(c.segment, parts.0);
            self.insert_text(c.segment + 1, parts.1);
        }
    }

    /// Puts `s` into a code paragraph at the cursor, one segment for each
    /// line of `s`, and gives the cursor behind what was put in.
    #[verifier::rlimit(50)]
    pub fn code_insert(&mut self, c: &Cursor, s: &str) -> (new_c: Cursor)
        ensures
            final(self)@ == old(self)@.with_code_insert(*c, s@),
            new_c == old(self)@.code_insert_cursor(*c, s@),
            same_frame(*final(self), *old(self)),
    {
        if c.segment < self.pgh.len() {
            let parts = self.pgh[c.segment].item.insert(c);
            proof {
                assert(self@.segs[c.segment as int] == self.pgh@[c.segment as int]@);
            }
            let head = text_concat(parts.0.as_str(), s);
            let new_s = text_concat(head.as_str(), parts.1.as_str());
            let lines = split_lines(new_s.as_str());
            let ghost goal = old(self)@.with_code_insert(*c, s@);
            let ghost ls = split_on(old(self)@.spliced(*c, s@), '\n');
            proof {
                assert(texts(lines@) == ls);
                assert(lines@[0]@ == texts(lines@)[0]);
            }
            self.update_segment_text(c.segment, lines[0].clone());
            let mut i: usize = 1;
            while i < lines.len()
                invariant
                    c.segment < old(self).pgh.len(),
                    lines.len() >= 1,
                    texts(lines@) == ls,
                    1 <= i <= lines.len(),
                    self.pgh.len() == old(self).pgh.len() + i - 1,
                    same_frame(*self, *old(self)),
                    self@.segs =~= old(self)@.segs.take(c.segment as int).push(
                        old(self)@.segs[c.segment as int].with_text(ls[0]),
                    ) + Seq::new((i - 1) as nat, |k: int| SegModel::of_text(ls[k + 1])) + old(self)@.segs.skip(c.segment + 1),
                decreases lines.len() - i,
            {
                proof {
                    assert(lines@[i as int]@ == texts(lines@)[i as int]);
                }
                self.insert_text(c.segment + i, lines[i].clone());
                i += 1;
            }
            let last = &lines[lines.len() - 1];
            proof {
                assert(last@ == texts(lines@)[lines.len() - 1]);
                assert(ls.last() == last@);
            }
            let last_len = char_count(last.as_str());
            let right_len = char_count(parts.1.as_str());
            Cursor {
                line_no: c.line_no,
                segment: c.segment + (lines.len() - 1),
                culumn: if last_len >= right_len {
                    last_len - right_len
                } else {
                    0
                },
            }
        } else {
            *c
        }
    }
}

/// The lines of a code paragraph after a deletion between the lines `lo`
/// and `hi`.
fn join_lines(t: &Vec<String>, lo: usize, hi: usize) -> (r: Vec<String>)
    ensures
        texts(r@) == join_code_lines(texts(t@), lo as int, hi as int),
{
    let mut kept: Vec<String> = Vec::new();
    let mut i: usize = 0;
    while i < t.len()
        invariant
            0 <= i <= t.len(),
            texts(kept@) =~= without_inner_empty(texts(t@), lo as int, hi as int, i as int),
        decreases t.len() - i,
    {
        proof {
            assert(texts(t@)[i as int] == t@[i as int]@);
        }
        if !(t[i].as_str().is_empty() && i > lo && i < hi) {
            let s = t[i].clone();
            proof {
                lemma_texts_push(kept@, s);
            }
            kept.push(s);
        }
        i += 1;
    }
    if hi != lo && lo < kept.len() && lo + 1 < kept.len() {
        let ghost before = texts(kept@);
        let next = kept.remove(lo + 1);
        let merged = text_concat(kept[lo].as_str(), next.as_str());
        kept.set(lo, merged);
        proof {
            assert(texts(kept@) =~= before.take(lo as int).push(before[lo as int] + before[lo + 1])
                + before.skip(lo + 2));
        }
    }
    kept
}

} // verus!
