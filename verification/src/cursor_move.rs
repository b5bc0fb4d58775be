//! Moving a cursor by one position inside a paragraph, over the segments
//! that hold no text.

use crate::cursor::Cursor;
use crate::pgh::{PghModel, PghView};
use crate::segment::SegmentType;
use vstd::prelude::*;

verus! {

impl PghModel {
    /// The first segment reached from `seg` by stepping back over segments
    /// that hold no text: either segment 0 or one that follows a text.
    pub open spec fn back_over_fixed(self, seg: int) -> int
        decreases seg,
    {
        if seg > 0 && self.segment_type(seg - 1) != SegmentType::Text {
            self.back_over_fixed(seg - 1)
        } else {
            seg
        }
    }

    /// The cursor one position before `c`. From column 0 it first steps
    /// back over the segments without text; then it goes one column back,
    /// or to the last column of the segment before (its end in a code
    /// paragraph), or to the end of the line before, given by the greatest
    /// segment and column.
    pub open spec fn cursor_before(self, c: Cursor) -> Cursor {
        let seg = if c.culumn == 0 {
            self.back_over_fixed(c.segment as int)
        } else {
            c.segment as int
        };
        if c.culumn > 0 {
            Cursor { culumn: (c.culumn - 1) as usize, ..c }
        } else if seg > 0 {
            let max = self.max_culumn(seg - 1);
            Cursor {
                line_no: c.line_no,
                segment: (seg - 1) as usize,
                culumn: if max > 0 && !self.is_code() {
                    (max - 1) as usize
                } else {
                    max as usize
                },
            }
        } else if c.line_no > 0 {
            Cursor { line_no: (c.line_no - 1) as usize, segment: usize::MAX, culumn: usize::MAX }
        } else {
            Cursor { line_no: c.line_no, segment: 0, culumn: 0 }
        }
    }

    /// The cursor one position after `c`: one column on; at the end of a
    /// segment without text that is not the last, and past the end of any
    /// segment, the start of the next segment; past the last segment, the
    /// start of the next line.
    pub open spec fn cursor_after(self, c: Cursor) -> Cursor {
        let col = c.culumn + 1;
        let max = self.max_culumn(c.segment as int);
        let over = (col == max && c.segment < self.max_segment() && self.segment_type(
            c.segment as int,
        ) != SegmentType::Text) || col > max;
        let seg = if over {
            c.segment + 1
        } else {
            c.segment as int
        };
        if seg > self.max_segment() {
            Cursor { line_no: (c.line_no + 1) as usize, segment: 0, culumn: 0 }
        } else {
            Cursor {
                line_no: c.line_no,
                segment: seg as usize,
                culumn: if over {
                    0
                } else {
                    col as usize
                },
            }
        }
    }
}

impl Cursor {
    /// The cursor one position before this one in its paragraph.
    pub fn cursor_move_prev(&self, pgh_view: &PghView) -> (c: Cursor)
        ensures
            c == pgh_view@.cursor_before(*self),
    {
        let mut cursor = *self;
        while cursor.segment > 0 && cursor.culumn == 0 && pgh_view.get_segment_type(
            cursor.segment - 1,
        ) != SegmentType::Text
            invariant
                cursor.line_no == self.line_no,
                cursor.culumn == self.culumn,
                cursor.segment <= self.segment,
                self.culumn == 0 ==> pgh_view@.back_over_fixed(cursor.segment as int)
                    == pgh_view@.back_over_fixed(self.segment as int),
                self.culumn != 0 ==> cursor.segment == self.segment,
            decreases cursor.segment,
        {
            cursor.segment -= 1;
        }
        if cursor.culumn > 0 {
            cursor.culumn -= 1;
        } else if cursor.segment > 0 {
            cursor.segment -= 1;
            cursor.culumn = pgh_view.max_culumn(&cursor);
            if cursor.culumn > 0 && !pgh_view.is_code() {
                cursor.culumn -= 1;
            }
        } else if cursor.line_no > 0 {
            cursor.line_no -= 1;
            cursor.segment = usize::MAX;
            cursor.culumn = usize::MAX;
        }
        cursor
    }

    /// The cursor one position after this one in its paragraph.
    pub fn cursor_move_next(&self, pgh_view: &PghView) -> (c: Cursor)
        requires
            self.line_no < usize::MAX,
            self.segment < usize::MAX,
            self.culumn < usize::MAX,
        ensures
            c == pgh_view@.cursor_after(*self),
    {
        let mut cursor = *self;
        cursor.culumn += 1;
        let max = pgh_view.max_culumn(&cursor);
        if (cursor.culumn == max && cursor.segment < pgh_view.max_segment()
            && pgh_view.get_segment_type(cursor.segment) != SegmentType::Text) || cursor.culumn
            > max {
            cursor.segment += 1;
            cursor.culumn = 0;
        }
        if cursor.segment > pgh_view.max_segment() {
            cursor.line_no += 1;
            cursor.segment = 0;
            cursor.culumn = 0;
        }
        cursor
    }
}

} // verus!
