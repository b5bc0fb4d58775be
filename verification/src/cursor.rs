//! The text cursor: a position given by line, segment and column, ordered
//! lexicographically.

use std::cmp::Ordering;
use vstd::prelude::*;
use vstd::std_specs::cmp::PartialOrdSpec;
use vstd::std_specs::cmp::PartialOrdSpecImpl;

verus! {

/// A position in a document. Two cursors bound a selection.
#[derive(PartialEq, Eq, Structural, Clone, Copy, Debug, Ord)]
pub struct Cursor {
    pub line_no: usize,
    pub segment: usize,
    pub culumn: usize,
}

impl Cursor {
    /// The strict lexicographic order on (line, segment, column).
    pub open spec fn is_before(self, other: Cursor) -> bool {
        self.line_no < other.line_no || (self.line_no == other.line_no && (self.segment
            < other.segment || (self.segment == other.segment && self.culumn < other.culumn)))
    }

    /// The smaller of two cursors; the first where they are equal.
    pub open spec fn spec_min(self, other: Cursor) -> Cursor {
        if other.is_before(self) {
            other
        } else {
            self
        }
    }

    /// The larger of two cursors; the second where they are equal.
    pub open spec fn spec_max(self, other: Cursor) -> Cursor {
        if other.is_before(self) {
            self
        } else {
            other
        }
    }
}

impl PartialOrd for Cursor {
    fn partial_cmp(&self, other: &Self) -> (r: Option<Ordering>) {
        if self.line_no < other.line_no {
            Some(Ordering::Less)
        } else if self.line_no > other.line_no {
            Some(Ordering::Greater)
        } else if self.segment < other.segment {
            Some(Ordering::Less)
        } else if self.segment > other.segment {
            Some(Ordering::Greater)
        } else if self.culumn < other.culumn {
            Some(Ordering::Less)
        } else if self.culumn > other.culumn {
            Some(Ordering::Greater)
        } else {
            Some(Ordering::Equal)
        }
    }
}

impl PartialOrdSpecImpl for Cursor {
    open spec fn obeys_partial_cmp_spec() -> bool {
        true
    }

    open spec fn partial_cmp_spec(&self, other: &Cursor) -> Option<Ordering> {
        if self.is_before(*other) {
            Some(Ordering::Less)
        } else if other.is_before(*self) {
            Some(Ordering::Greater)
        } else {
            Some(Ordering::Equal)
        }
    }
}

impl Cursor {
    /// The cursor at the start of a line.
    pub fn from_line(line_no: usize) -> (c: Cursor)
        ensures
            c == (Cursor { line_no, segment: 0, culumn: 0 }),
    {
        Cursor { line_no, segment: 0, culumn: 0 }
    }

    pub fn line_no(&self) -> (n: usize)
        ensures
            n == self.line_no,
    {
        self.line_no
    }

    /// The smaller of two cursors.
    pub fn min_of(a: Cursor, b: Cursor) -> (m: Cursor)
        ensures
            m == a.spec_min(b),
    {
        if b < a {
            b
        } else {
            a
        }
    }

    /// The larger of two cursors.
    pub fn max_of(a: Cursor, b: Cursor) -> (m: Cursor)
        ensures
            m == a.spec_max(b),
    {
        if b < a {
            a
        } else {
            b
        }
    }

    /// One line up, staying on the first line.
    pub fn cursor_move_up(&self) -> (c: Cursor)
        ensures
            c.line_no == (if self.line_no > 0 {
                self.line_no - 1
            } else {
                0
            }),
            c.segment == self.segment,
            c.culumn == self.culumn,
    {
        let mut cursor = *self;
        if cursor.line_no > 0 {
            cursor.line_no -= 1;
        }
        cursor
    }

    /// One line down. The line may lie past the document's end until the
    /// cursor is clamped.
    pub fn cursor_move_down(&self) -> (c: Cursor)
        requires
            self.line_no < usize::MAX,
        ensures
            c == (Cursor { line_no: (self.line_no + 1) as usize, ..*self }),
    {
        let mut cursor = *self;
        cursor.line_no += 1;
        cursor
    }

    /// To column 0 of the same segment.
    pub fn cursor_move_home(&self) -> (c: Cursor)
        ensures
            c == (Cursor { culumn: 0, ..*self }),
    {
        let mut cursor = *self;
        cursor.culumn = 0;
        cursor
    }

    /// To the end-of-line sentinel column, which clamping resolves.
    pub fn cursor_move_end(&self) -> (c: Cursor)
        ensures
            c == (Cursor { culumn: usize::MAX, ..*self }),
    {
        let mut cursor = *self;
        cursor.culumn = usize::MAX;
        cursor
    }

    /// To the start of the next line.
    pub fn cursor_move_enter(&self) -> (c: Cursor)
        requires
            self.line_no < usize::MAX,
        ensures
            c == (Cursor { line_no: (self.line_no + 1) as usize, segment: 0, culumn: 0 }),
    {
        let mut cursor = self.cursor_move_down();
        cursor.segment = 0;
        cursor.culumn = 0;
        cursor
    }
}

impl From<usize> for Cursor {
    fn from(line_no: usize) -> (c: Cursor) {
        Cursor { line_no, segment: 0, culumn: 0 }
    }
}

impl vstd::std_specs::convert::FromSpecImpl<usize> for Cursor {
    open spec fn obeys_from_spec() -> bool {
        true
    }

    open spec fn from_spec(line_no: usize) -> Cursor {
        Cursor { line_no, segment: 0, culumn: 0 }
    }
}

impl From<(usize, usize, usize)> for Cursor {
    fn from(x: (usize, usize, usize)) -> (c: Cursor) {
        Cursor { line_no: x.0, segment: x.1, culumn: x.2 }
    }
}

impl vstd::std_specs::convert::FromSpecImpl<(usize, usize, usize)> for Cursor {
    open spec fn obeys_from_spec() -> bool {
        true
    }

    open spec fn from_spec(x: (usize, usize, usize)) -> Cursor {
        Cursor { line_no: x.0, segment: x.1, culumn: x.2 }
    }
}

/// The order on cursors is total: of `a < b`, `a == b` and `b < a` exactly
/// one holds, and it is the lexicographic order on line, segment and column.
pub proof fn lemma_cursor_order_total(a: Cursor, b: Cursor)
    ensures
        a.is_before(b) || a == b || b.is_before(a),
        !(a.is_before(b) && a == b),
        !(a.is_before(b) && b.is_before(a)),
        !(b.is_before(a) && a == b),
        a.is_before(b) <==> PartialOrdSpec::partial_cmp_spec(&a, &b) == Some(Ordering::Less),
        b.is_before(a) <==> PartialOrdSpec::partial_cmp_spec(&a, &b) == Some(Ordering::Greater),
        a == b <==> PartialOrdSpec::partial_cmp_spec(&a, &b) == Some(Ordering::Equal),
        a.is_before(b) <==> a.line_no < b.line_no || (a.line_no == b.line_no && a.segment
            < b.segment) || (a.line_no == b.line_no && a.segment == b.segment && a.culumn
            < b.culumn),
{
}

/// The order on cursors is transitive.
pub proof fn lemma_cursor_order_transitive(a: Cursor, b: Cursor, c: Cursor)
    requires
        a.is_before(b),
        b.is_before(c),
    ensures
        a.is_before(c),
{
}

} // verus!
