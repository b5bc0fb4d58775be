//! Segments: the units a paragraph is made of. Only text segments are
//! addressed by column; the others take one column and hold no text.

use crate::cursor::Cursor;
use crate::icon::{IconName, ImageInfo};
use crate::strings::{char_count, cut_text, sub_text, text_cut, text_left, text_range, text_right};
use vstd::prelude::*;

verus! {

#[derive(Clone, Copy, PartialEq, Eq, Structural, Debug)]
pub enum SegmentType {
    Text,
    Head,
    Indent,
    CheckBox,
    Point,
    QuoteIndent,
    Break,
    Icon,
    Image,
}

/// A run of editable text.
#[derive(Debug)]
pub struct PghText {
    pub text: String,
}

/// The marker in front of a heading, with the heading's depth.
#[derive(Clone, Copy, Debug)]
pub struct PghHead {
    pub deep: u8,
}

#[derive(Clone, Copy, Debug)]
pub struct PghIndent {}

#[derive(Clone, Copy, Debug)]
pub struct PghCheckBox {}

#[derive(Clone, Copy, Debug)]
pub struct PghPoint {}

#[derive(Clone, Copy, Debug)]
pub struct PghQuoteIndent {}

#[derive(Clone, Copy, Debug)]
pub struct PghBreak {}

#[derive(Debug)]
pub struct PghIcon {
    pub icon_name: IconName,
}

#[derive(Debug)]
pub struct PghImage {
    pub image: ImageInfo,
}

/// What a segment holds.
#[derive(Debug)]
pub enum PghItem {
    Text(PghText),
    Head(PghHead),
    Indent(PghIndent),
    CheckBox(PghCheckBox),
    Point(PghPoint),
    QuoteIndent(PghQuoteIndent),
    Break(PghBreak),
    Icon(PghIcon),
    Image(PghImage),
}

/// A segment of a paragraph: its kind and its content.
#[derive(Debug)]
pub struct PghSegment {
    pub seg_type: SegmentType,
    pub item: PghItem,
}

/// What a segment holds, with text as a sequence of characters.
pub enum ItemModel {
    Text(Seq<char>),
    /// An item without text, as it is.
    Fixed(PghItem),
}

/// The mathematical model of a segment.
pub struct SegModel {
    pub seg_type: SegmentType,
    pub item: ItemModel,
}

impl ItemModel {
    /// The text of the item; items without text have the empty text.
    pub open spec fn text(self) -> Seq<char> {
        match self {
            ItemModel::Text(t) => t,
            ItemModel::Fixed(_) => Seq::empty(),
        }
    }

    /// The largest column a cursor can take in the item: the number of
    /// characters of a text, 1 for every other item.
    pub open spec fn max_culumn(self) -> nat {
        match self {
            ItemModel::Text(t) => t.len(),
            ItemModel::Fixed(_) => 1,
        }
    }

    /// The item with its text replaced. Items without text stay as they are.
    pub open spec fn with_text(self, t: Seq<char>) -> ItemModel {
        match self {
            ItemModel::Text(_) => ItemModel::Text(t),
            ItemModel::Fixed(i) => ItemModel::Fixed(i),
        }
    }
}

impl SegModel {
    pub open spec fn text(self) -> Seq<char> {
        self.item.text()
    }

    pub open spec fn max_culumn(self) -> nat {
        self.item.max_culumn()
    }

    pub open spec fn with_text(self, t: Seq<char>) -> SegModel {
        SegModel { seg_type: self.seg_type, item: self.item.with_text(t) }
    }

    /// A text segment holding `t`.
    pub open spec fn of_text(t: Seq<char>) -> SegModel {
        SegModel { seg_type: SegmentType::Text, item: ItemModel::Text(t) }
    }
}

/// The columns `[lo, hi)` of a segment that a selection covers. The segment
/// is number `segment` of line `line_no` and holds `len` characters; the
/// selection runs from the smaller of `c1` and `c2` to the larger. On a line
/// other than the selection's first the range starts at column 0, on a line
/// other than its last it runs to the segment's end. An empty range is
/// given with `hi <= lo`.
pub open spec fn selected_columns(
    line_no: usize,
    segment: usize,
    len: int,
    c1: Cursor,
    c2: Cursor,
) -> (int, int) {
    let min = c1.spec_min(c2);
    let max = c1.spec_max(c2);
    let lo = if line_no == min.line_no {
        if segment < min.segment {
            len
        } else if segment == min.segment {
            min.culumn as int
        } else {
            0
        }
    } else {
        0
    };
    let hi = if line_no == max.line_no {
        if segment < max.segment {
            len
        } else if segment == max.segment {
            max.culumn as int
        } else {
            0
        }
    } else {
        len
    };
    (lo, hi)
}

/// The first and the last cursor of what a selection covers of segment
/// `segment` of line `line_no`, a text of `len` characters: the ends of
/// the selection where they lie on the line, the start of the line and
/// the end of the segment otherwise.
pub open spec fn cursors_range(line_no: usize, segment: usize, len: int, c1: Cursor, c2: Cursor) -> (
    Cursor,
    Cursor,
) {
    (
        if line_no == c1.spec_min(c2).line_no {
            c1.spec_min(c2)
        } else {
            Cursor { line_no, segment: 0, culumn: 0 }
        },
        if line_no == c1.spec_max(c2).line_no {
            c1.spec_max(c2)
        } else {
            Cursor { line_no, segment, culumn: len as usize }
        },
    )
}

/// Whether a line lies outside the lines of a range of cursors.
pub open spec fn line_out_of_range(line_no: usize, range: (Cursor, Cursor)) -> bool {
    line_no < range.0.line_no || line_no > range.1.line_no
}

/// Whether segment `segment` of line `line_no` lies within the segments
/// that a selection reaches on that line.
pub open spec fn segment_selected(line_no: usize, segment: usize, c1: Cursor, c2: Cursor) -> bool {
    let min = c1.spec_min(c2);
    let max = c1.spec_max(c2);
    (line_no == min.line_no ==> segment >= min.segment) && (line_no == max.line_no ==> segment
        <= max.segment)
}

/// The part of a text that a selection covers.
pub open spec fn selected_text(
    t: Seq<char>,
    line_no: usize,
    segment: usize,
    c1: Cursor,
    c2: Cursor,
) -> Seq<char> {
    let r = selected_columns(line_no, segment, t.len() as int, c1, c2);
    sub_text(t, r.0, r.1)
}

/// The part of a text that a selection leaves.
pub open spec fn remaining_text(
    t: Seq<char>,
    line_no: usize,
    segment: usize,
    c1: Cursor,
    c2: Cursor,
) -> Seq<char> {
    let r = selected_columns(line_no, segment, t.len() as int, c1, c2);
    cut_text(t, r.0, r.1)
}

impl ItemModel {
    /// The text that deleting a selection leaves in the item.
    pub open spec fn delete(self, line_no: usize, segment: usize, c1: Cursor, c2: Cursor) -> Seq<
        char,
    > {
        match self {
            ItemModel::Text(t) => remaining_text(t, line_no, segment, c1, c2),
            ItemModel::Fixed(_) => Seq::empty(),
        }
    }

    /// The text of the item that a selection covers, or `None` where the
    /// item is a text outside the selection's segments and `keep_pos` is off.
    pub open spec fn select(
        self,
        line_no: usize,
        segment: usize,
        c1: Cursor,
        c2: Cursor,
        keep_pos: bool,
    ) -> Option<Seq<char>> {
        match self {
            ItemModel::Text(t) => if !keep_pos && !segment_selected(line_no, segment, c1, c2) {
                None
            } else {
                Some(selected_text(t, line_no, segment, c1, c2))
            },
            ItemModel::Fixed(_) => Some(Seq::empty()),
        }
    }

    /// The text left of column `col` and the text from it on.
    pub open spec fn split(self, col: usize) -> (Seq<char>, Seq<char>) {
        match self {
            ItemModel::Text(t) => (
                sub_text(t, 0, col as int),
                sub_text(t, col as int, t.len() as int),
            ),
            ItemModel::Fixed(_) => (Seq::empty(), Seq::empty()),
        }
    }
}

impl SegModel {
    pub open spec fn delete(self, line_no: usize, segment: usize, c1: Cursor, c2: Cursor) -> Seq<
        char,
    > {
        self.item.delete(line_no, segment, c1, c2)
    }

    pub open spec fn select(
        self,
        line_no: usize,
        segment: usize,
        c1: Cursor,
        c2: Cursor,
        keep_pos: bool,
    ) -> Option<Seq<char>> {
        self.item.select(line_no, segment, c1, c2, keep_pos)
    }

    pub open spec fn split(self, col: usize) -> (Seq<char>, Seq<char>) {
        self.item.split(col)
    }
}

impl Clone for PghText {
    fn clone(&self) -> (r: Self)
        ensures
            r == *self,
    {
        PghText { text: self.text.clone() }
    }
}

impl Clone for PghIcon {
    fn clone(&self) -> (r: Self)
        ensures
            r == *self,
    {
        PghIcon { icon_name: self.icon_name.clone() }
    }
}

impl Clone for PghImage {
    fn clone(&self) -> (r: Self)
        ensures
            r == *self,
    {
        PghImage { image: self.image.clone() }
    }
}

impl Clone for PghItem {
    fn clone(&self) -> (r: Self)
        ensures
            r == *self,
    {
        match self {
            PghItem::Text(x) => PghItem::Text(x.clone()),
            PghItem::Head(x) => PghItem::Head(*x),
            PghItem::Indent(x) => PghItem::Indent(*x),
            PghItem::CheckBox(x) => PghItem::CheckBox(*x),
            PghItem::Point(x) => PghItem::Point(*x),
            PghItem::QuoteIndent(x) => PghItem::QuoteIndent(*x),
            PghItem::Break(x) => PghItem::Break(*x),
            PghItem::Icon(x) => PghItem::Icon(x.clone()),
            PghItem::Image(x) => PghItem::Image(x.clone()),
        }
    }
}

impl Clone for PghSegment {
    fn clone(&self) -> (r: Self)
        ensures
            r == *self,
    {
        PghSegment { seg_type: self.seg_type, item: self.item.clone() }
    }
}

impl View for PghItem {
    type V = ItemModel;

    open spec fn view(&self) -> ItemModel {
        match *self {
            PghItem::Text(t) => ItemModel::Text(t.text@),
            other => ItemModel::Fixed(other),
        }
    }
}

impl View for PghSegment {
    type V = SegModel;

    open spec fn view(&self) -> SegModel {
        SegModel { seg_type: self.seg_type, item: self.item@ }
    }
}

impl PghText {
    pub fn new(text: String) -> (r: Self)
        ensures
            r.text == text,
    {
        PghText { text }
    }

    /// The first and the last cursor of the range that a selection covers
    /// in segment `segment` of line `line_no`.
    pub fn get_cursors_range(&self, line_no: usize, segment: usize, c1: &Cursor, c2: &Cursor) -> (r:
        (Cursor, Cursor))
        ensures
            r == cursors_range(line_no, segment, self.text@.len() as int, *c1, *c2),
    {
        let min = Cursor::min_of(*c1, *c2);
        let max = Cursor::max_of(*c1, *c2);
        let len = char_count(self.text.as_str());
        let del_min = if line_no == min.line_no {
            min
        } else {
            Cursor { line_no, segment: 0, culumn: 0 }
        };
        let del_max = if line_no == max.line_no {
            max
        } else {
            Cursor { line_no, segment, culumn: len }
        };
        (del_min, del_max)
    }

    /// The columns of this text that lie between two cursors of its line.
    fn columns_between(&self, line_no: usize, segment: usize, lo: Cursor, hi: Cursor) -> (r: (
        usize,
        usize,
    ))
        requires
            lo.line_no == line_no,
            hi.line_no == line_no,
        ensures
            self.text@.len() <= usize::MAX,
            r.0 as int == (if segment < lo.segment {
                self.text@.len() as int
            } else if segment == lo.segment {
                lo.culumn as int
            } else {
                0
            }),
            r.1 as int == (if segment < hi.segment {
                self.text@.len() as int
            } else if segment == hi.segment {
                hi.culumn as int
            } else {
                0
            }),
    {
        let len = char_count(self.text.as_str());
        let a = if segment < lo.segment {
            len
        } else if segment == lo.segment {
            lo.culumn
        } else {
            0
        };
        let b = if segment < hi.segment {
            len
        } else if segment == hi.segment {
            hi.culumn
        } else {
            0
        };
        (a, b)
    }

    /// The part of the text that the selection covers. A line out of the
    /// range that the selection covers of the segment gives `None`, and
    /// so does, with `keep_pos` off, a segment outside the selection's
    /// segments.
    pub fn get_select(
        &self,
        line_no: usize,
        segment: usize,
        c1: &Cursor,
        c2: &Cursor,
        keep_pos: bool,
    ) -> (r: Option<String>)
        ensures
            r is None <==> line_out_of_range(
                line_no,
                cursors_range(line_no, segment, self.text@.len() as int, *c1, *c2),
            ) || (!keep_pos && !segment_selected(line_no, segment, *c1, *c2)),
            r matches Some(s) ==> s@ == selected_text(self.text@, line_no, segment, *c1, *c2),
    {
        let (del_min, del_max) = self.get_cursors_range(line_no, segment, c1, c2);
        if line_no < del_min.line_no || line_no > del_max.line_no {
            return None;
        }
        if !keep_pos && (segment < del_min.segment || segment > del_max.segment) {
            return None;
        }
        let (a, b) = self.columns_between(line_no, segment, del_min, del_max);
        let s = text_range(self.text.as_str(), a, b);
        proof {
            lemma_range_columns(self.text@, line_no, segment, *c1, *c2);
        }
        Some(s)
    }

    /// The text without the part that the selection covers, or `None` for
    /// a line out of the range that the selection covers of the segment.
    pub fn get_delete(&self, line_no: usize, segment: usize, c1: &Cursor, c2: &Cursor) -> (r:
        Option<String>)
        ensures
            r is None <==> line_out_of_range(
                line_no,
                cursors_range(line_no, segment, self.text@.len() as int, *c1, *c2),
            ),
            r matches Some(s) ==> s@ == remaining_text(self.text@, line_no, segment, *c1, *c2),
    {
        let (del_min, del_max) = self.get_cursors_range(line_no, segment, c1, c2);
        if line_no < del_min.line_no || line_no > del_max.line_no {
            return None;
        }
        let (a, b) = self.columns_between(line_no, segment, del_min, del_max);
        let s = text_cut(self.text.as_str(), a, b);
        proof {
            lemma_range_columns(self.text@, line_no, segment, *c1, *c2);
        }
        Some(s)
    }
}

/// The columns between the two cursors of a segment's range are the
/// selected columns of the segment, up to clamping.
proof fn lemma_range_columns(t: Seq<char>, line_no: usize, segment: usize, c1: Cursor, c2: Cursor)
    requires
        t.len() <= usize::MAX,
    ensures
        ({
            let min = c1.spec_min(c2);
            let max = c1.spec_max(c2);
            let len = t.len() as int;
            let lo = if line_no == min.line_no {
                min
            } else {
                Cursor { line_no, segment: 0, culumn: 0 }
            };
            let hi = if line_no == max.line_no {
                max
            } else {
                Cursor { line_no, segment, culumn: t.len() as usize }
            };
            let a = if segment < lo.segment {
                len
            } else if segment == lo.segment {
                lo.culumn as int
            } else {
                0
            };
            let b = if segment < hi.segment {
                len
            } else if segment == hi.segment {
                hi.culumn as int
            } else {
                0
            };
            let r = selected_columns(line_no, segment, len, c1, c2);
            &&& sub_text(t, a, b) == sub_text(t, r.0, r.1)
            &&& cut_text(t, a, b) == cut_text(t, r.0, r.1)
            &&& (segment < lo.segment || segment > hi.segment) <==> !segment_selected(
                line_no,
                segment,
                c1,
                c2,
            )
        }),
{
    let len = t.len() as int;
    assert(t.subrange(0, len) =~= t);
    assert(t.take(0) + t.skip(0) =~= t);
    assert(t.take(len) + t.skip(len) =~= t);
}

impl PghHead {
    pub fn new(deep: u8) -> (r: Self)
        ensures
            r.deep == deep,
    {
        PghHead { deep }
    }
}

impl PghIndent {
    pub fn new() -> Self {
        PghIndent {  }
    }
}

impl PghCheckBox {
    pub fn new() -> Self {
        PghCheckBox {  }
    }
}

impl PghPoint {
    pub fn new() -> Self {
        PghPoint {  }
    }
}

impl PghQuoteIndent {
    pub fn new() -> Self {
        PghQuoteIndent {  }
    }
}

impl PghBreak {
    pub fn new() -> Self {
        PghBreak {  }
    }
}

impl PghIcon {
    pub fn new(icon_name: IconName) -> (r: Self)
        ensures
            r.icon_name == icon_name,
    {
        PghIcon { icon_name }
    }
}

impl PghImage {
    pub fn new(image: ImageInfo) -> (r: Self)
        ensures
            r.image == image,
    {
        PghImage { image }
    }
}

impl PghItem {
    /// The text of the item, empty for an item without text.
    pub fn text(&self) -> (r: String)
        ensures
            r@ == self@.text(),
    {
        match self {
            PghItem::Text(t) => t.text.clone(),
            _ => String::new(),
        }
    }

    pub fn max_culumn(&self) -> (r: usize)
        ensures
            r == self@.max_culumn(),
    {
        match self {
            PghItem::Text(t) => char_count(t.text.as_str()),
            _ => 1,
        }
    }

    /// The text that deleting the selection leaves in the item. A text
    /// gives none for a line out of the range that the selection covers of
    /// it; as that range lies on the line, there always is a text.
    pub fn delete(&self, line_no: usize, segment: usize, c1: &Cursor, c2: &Cursor) -> (r: Option<
        String,
    >)
        ensures
            r matches Some(s) && s@ == self@.delete(
                line_no,
                segment,
                *c1,
                *c2,
            ),
    {
        match self {
            PghItem::Text(t) => t.get_delete(line_no, segment, c1, c2),
            _ => Some(String::new()),
        }
    }

    /// The text of the item that the selection covers.
    pub fn select(
        &self,
        line_no: usize,
        segment: usize,
        c1: &Cursor,
        c2: &Cursor,
        keep_pos: bool,
    ) -> (r: Option<String>)
        ensures
            ({
                let m = self@.select(
                    line_no,
                    segment,
                    *c1,
                    *c2,
                    keep_pos,
                );
                match r {
                    Some(s) => m == Some(s@),
                    None => m is None,
                }
            }),
    {
        match self {
            PghItem::Text(t) => t.get_select(line_no, segment, c1, c2, keep_pos),
            _ => Some(String::new()),
        }
    }

    /// The text left of the cursor's column and the text from it on.
    pub fn insert(&self, c: &Cursor) -> (r: (String, String))
        ensures
            (r.0@, r.1@) == self@.split(c.culumn),
    {
        match self {
            PghItem::Text(t) => {
                let left = text_left(t.text.as_str(), c.culumn);
                let right = text_right(t.text.as_str(), c.culumn);
                (left, right)
            },
            _ => (String::new(), String::new()),
        }
    }

    /// The split that a line break at the cursor makes: as `insert`.
    pub fn enter(&self, c: &Cursor) -> (r: (String, String))
        ensures
            (r.0@, r.1@) == self@.split(c.culumn),
    {
        self.insert(c)
    }

    /// Replaces the text of a text item; other items stay as they are.
    pub fn update_text(&mut self, text: String)
        ensures
            final(self)@ == old(self)@.with_text(text@),
    {
        match self {
            PghItem::Text(t) => {
                t.text = text;
            },
            _ => {},
        }
    }

    pub fn icon_name(&self) -> (r: Option<IconName>)
        ensures
            r == (match *self {
                PghItem::Icon(i) => Some(i.icon_name),
                _ => None,
            }),
    {
        match self {
            PghItem::Icon(i) => Some(i.icon_name.clone()),
            _ => None,
        }
    }

    pub fn image_info(&self) -> (r: Option<ImageInfo>)
        ensures
            r == (match *self {
                PghItem::Image(i) => Some(i.image),
                _ => None,
            }),
    {
        match self {
            PghItem::Image(i) => Some(i.image.clone()),
            _ => None,
        }
    }
}

impl PghSegment {
    pub fn new(seg_type: SegmentType, item: PghItem) -> (r: Self)
        ensures
            r == (PghSegment { seg_type, item }),
    {
        PghSegment { seg_type, item }
    }

    /// A text segment holding `text`.
    pub fn new_text(text: String) -> (r: Self)
        ensures
            r@ == SegModel::of_text(text@),
    {
        PghSegment { seg_type: SegmentType::Text, item: PghItem::Text(PghText::new(text)) }
    }
}

} // verus!
