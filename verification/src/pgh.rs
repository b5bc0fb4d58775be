//! Paragraphs: an ordered list of segments with a kind, and for a table the
//! numbers of its rows and columns.

use crate::cursor::Cursor;
use crate::icon::{IconName, ImageInfo};
use crate::segment::{
    PghBreak, PghCheckBox, PghHead, PghIcon, PghImage, PghIndent, PghItem, PghPoint,
    PghQuoteIndent, PghSegment, SegModel, SegmentType,
};
use crate::strings::{concat_all, concat_texts, texts};
use vstd::prelude::*;

verus! {

/// A cell of a table: its row, its column and the segment that holds it.
#[derive(Clone, Copy, PartialEq, Eq, Structural, Debug)]
pub struct TableCell {
    pub row: usize,
    pub col: usize,
    pub segment: usize,
}

/// The shape of a table paragraph.
#[derive(Clone, Copy, PartialEq, Eq, Structural, Debug)]
pub struct TableInfo {
    pub row_count: usize,
    pub col_count: usize,
    pub has_frame: bool,
}

impl Default for TableInfo {
    fn default() -> (r: Self)
        ensures
            r == (TableInfo { row_count: 0, col_count: 0, has_frame: true }),
    {
        TableInfo { row_count: 0, col_count: 0, has_frame: true }
    }
}

#[derive(Clone, Copy, PartialEq, Eq, Structural, Debug)]
pub enum PghType {
    Text,
    Heading,
    BreakLine,
    BlockLine,
    ListItem,
    Table,
    Code,
    UnKnown,
}

/// One paragraph of a document.
#[derive(Debug)]
pub struct PghView {
    pub pgh_type: PghType,
    pub pgh: Vec<PghSegment>,
    pub table_info: Option<TableInfo>,
    pub code_lang: Option<String>,
    /// Counts changes since the paragraph was last laid out; no part of its
    /// content.
    pub change_tick: usize,
}

/// The mathematical model of a paragraph: its content without the change
/// counter.
pub struct PghModel {
    pub pgh_type: PghType,
    pub segs: Seq<SegModel>,
    pub table_info: Option<TableInfo>,
    pub code_lang: Option<Seq<char>>,
}

/// The models of a sequence of segments.
pub open spec fn seg_models(v: Seq<PghSegment>) -> Seq<SegModel> {
    Seq::new(v.len(), |i: int| v[i]@)
}

/// The view of an optional string.
pub open spec fn opt_text(o: Option<String>) -> Option<Seq<char>> {
    match o {
        Some(s) => Some(s@),
        None => None,
    }
}

impl View for PghView {
    type V = PghModel;

    open spec fn view(&self) -> PghModel {
        PghModel {
            pgh_type: self.pgh_type,
            segs: seg_models(self.pgh@),
            table_info: self.table_info,
            code_lang: opt_text(self.code_lang),
        }
    }
}

impl PghModel {
    /// A text paragraph of one text segment.
    pub open spec fn of_text(t: Seq<char>) -> PghModel {
        PghModel {
            pgh_type: PghType::Text,
            segs: seq![SegModel::of_text(t)],
            table_info: None,
            code_lang: None,
        }
    }

    /// The text of each segment.
    pub open spec fn texts(self) -> Seq<Seq<char>> {
        Seq::new(self.segs.len(), |i: int| self.segs[i].text())
    }

    /// The text of the paragraph: the texts of its segments joined.
    pub open spec fn text(self) -> Seq<char> {
        concat_all(self.texts())
    }

    pub open spec fn is_table(self) -> bool {
        self.pgh_type == PghType::Table
    }

    pub open spec fn is_code(self) -> bool {
        self.pgh_type == PghType::Code
    }

    /// The number of the last segment, 0 for a paragraph without segments.
    pub open spec fn max_segment(self) -> int {
        if self.segs.len() > 0 {
            self.segs.len() - 1
        } else {
            0
        }
    }

    /// The largest column of segment `segment`, 0 where there is no such
    /// segment.
    pub open spec fn max_culumn(self, segment: int) -> int {
        if 0 <= segment < self.segs.len() {
            self.segs[segment].max_culumn() as int
        } else {
            0
        }
    }

    /// The kind of segment `segment`; `Text` where there is no such segment.
    pub open spec fn segment_type(self, segment: int) -> SegmentType {
        if 0 <= segment < self.segs.len() {
            self.segs[segment].seg_type
        } else {
            SegmentType::Text
        }
    }

    /// The text of segment `segment`, empty where there is no such segment.
    pub open spec fn segment_text(self, segment: int) -> Seq<char> {
        if 0 <= segment < self.segs.len() {
            self.segs[segment].text()
        } else {
            Seq::empty()
        }
    }

    /// The number of the last text segment among the first `n`, 0 where
    /// there is none.
    pub open spec fn last_text_below(self, n: int) -> int
        decreases n,
    {
        if n <= 0 || n > self.segs.len() {
            0
        } else if self.segs[n - 1].seg_type == SegmentType::Text {
            n - 1
        } else {
            self.last_text_below(n - 1)
        }
    }

    /// The number of the last text segment, 0 where there is none.
    pub open spec fn last_text_segment(self) -> int {
        self.last_text_below(self.segs.len() as int)
    }

    /// A paragraph is well formed when, if it has a table shape, it is a
    /// table, the shape has at least one column and the segments fill it.
    pub open spec fn wf(self) -> bool {
        self.table_info matches Some(t) ==> {
            &&& self.pgh_type == PghType::Table
            &&& t.col_count >= 1
            &&& t.row_count * t.col_count == self.segs.len()
        }
    }

    /// The paragraph with the text of segment `segment` replaced. Segments
    /// without text, and a number past the last segment, change nothing.
    pub open spec fn with_segment_text(self, segment: int, t: Seq<char>) -> PghModel {
        if 0 <= segment < self.segs.len() {
            PghModel { segs: self.segs.update(segment, self.segs[segment].with_text(t)), ..self }
        } else {
            self
        }
    }

    /// The paragraph with one text segment holding `t` in place of all its
    /// segments.
    pub open spec fn with_all_text(self, t: Seq<char>) -> PghModel {
        PghModel { segs: seq![SegModel::of_text(t)], ..self }
    }

    /// The paragraph with only its first `n` segments.
    pub open spec fn truncated(self, n: int) -> PghModel {
        if 0 <= n < self.segs.len() {
            PghModel { segs: self.segs.take(n), ..self }
        } else {
            self
        }
    }

    /// The paragraph with a text segment holding `t` put in at `at`.
    pub open spec fn with_text_inserted(self, at: int, t: Seq<char>) -> PghModel {
        PghModel { segs: self.segs.insert(at, SegModel::of_text(t)), ..self }
    }
}

/// Whether two paragraphs agree in all but their segments.
pub open spec fn same_frame(a: PghView, b: PghView) -> bool {
    &&& a.pgh_type == b.pgh_type
    &&& a.table_info == b.table_info
    &&& a.code_lang == b.code_lang
    &&& a.change_tick == b.change_tick
}

pub proof fn lemma_seg_models_push(v: Seq<PghSegment>, s: PghSegment)
    ensures
        seg_models(v.push(s)) == seg_models(v).push(s@),
{
    assert(seg_models(v.push(s)) =~= seg_models(v).push(s@));
}

impl Clone for PghView {
    fn clone(&self) -> (r: Self)
        ensures
            r@ == self@,
            r.change_tick == self.change_tick,
            r.pgh@ == self.pgh@,
            r.table_info == self.table_info,
            r.code_lang == self.code_lang,
            r.pgh_type == self.pgh_type,
    {
        let mut pgh: Vec<PghSegment> = Vec::new();
        let mut i: usize = 0;
        while i < self.pgh.len()
            invariant
                0 <= i <= self.pgh.len(),
                pgh@ == self.pgh@.take(i as int),
            decreases self.pgh.len() - i,
        {
            pgh.push(self.pgh[i].clone());
            proof {
                assert(self.pgh@.take(i + 1) =~= self.pgh@.take(i as int).push(self.pgh@[i as int]));
            }
            i += 1;
        }
        proof {
            assert(self.pgh@.take(self.pgh.len() as int) =~= self.pgh@);
        }
        let code_lang = match &self.code_lang {
            Some(s) => Some(s.clone()),
            None => None,
        };
        PghView {
            pgh_type: self.pgh_type,
            pgh,
            table_info: self.table_info,
            code_lang,
            change_tick: self.change_tick,
        }
    }
}

impl PghView {
    /// A paragraph of the given kind without segments.
    pub fn new(pgh_type: PghType) -> (r: Self)
        ensures
            r@ == (PghModel { pgh_type, segs: Seq::empty(), table_info: None, code_lang: None }),
            r@.wf(),
            r.change_tick == 1,
    {
        let r = PghView {
            pgh_type,
            pgh: Vec::new(),
            table_info: None,
            code_lang: None,
            change_tick: 1,
        };
        proof {
            assert(r@.segs =~= Seq::empty());
        }
        r
    }

    pub fn new_text() -> (r: Self)
        ensures
            r@ == (PghModel {
                pgh_type: PghType::Text,
                segs: Seq::empty(),
                table_info: None,
                code_lang: None,
            }),
            r.change_tick == 1,
    {
        PghView::new(PghType::Text)
    }

    pub fn new_heading() -> (r: Self)
        ensures
            r@ == (PghModel {
                pgh_type: PghType::Heading,
                segs: Seq::empty(),
                table_info: None,
                code_lang: None,
            }),
            r.change_tick == 1,
    {
        PghView::new(PghType::Heading)
    }

    pub fn new_list_item() -> (r: Self)
        ensures
            r@ == (PghModel {
                pgh_type: PghType::ListItem,
                segs: Seq::empty(),
                table_info: None,
                code_lang: None,
            }),
            r.change_tick == 1,
    {
        PghView::new(PghType::ListItem)
    }

    pub fn new_break_line() -> (r: Self)
        ensures
            r@ == (PghModel {
                pgh_type: PghType::BreakLine,
                segs: Seq::empty(),
                table_info: None,
                code_lang: None,
            }),
            r.change_tick == 1,
    {
        PghView::new(PghType::BreakLine)
    }

    pub fn new_table() -> (r: Self)
        ensures
            r@ == (PghModel {
                pgh_type: PghType::Table,
                segs: Seq::empty(),
                table_info: None,
                code_lang: None,
            }),
            r.change_tick == 1,
    {
        PghView::new(PghType::Table)
    }

    pub fn new_code() -> (r: Self)
        ensures
            r@ == (PghModel {
                pgh_type: PghType::Code,
                segs: Seq::empty(),
                table_info: None,
                code_lang: None,
            }),
            r.change_tick == 1,
    {
        PghView::new(PghType::Code)
    }

    pub fn new_block_line() -> (r: Self)
        ensures
            r@ == (PghModel {
                pgh_type: PghType::BlockLine,
                segs: Seq::empty(),
                table_info: None,
                code_lang: None,
            }),
            r.change_tick == 1,
    {
        PghView::new(PghType::BlockLine)
    }

    /// A text paragraph of one text segment.
    pub fn from_text(s: String) -> (r: Self)
        ensures
            r@ == PghModel::of_text(s@),
            r@.wf(),
            r.change_tick == 1,
    {
        let mut r = PghView::new_text();
        r.push_text(s);
        r
    }

    /// Appends a segment.
    pub fn push(&mut self, segment: PghSegment)
        ensures
            final(self)@ == (PghModel { segs: old(self)@.segs.push(segment@), ..old(self)@ }),
            final(self).pgh@ == old(self).pgh@.push(segment),
            final(self).change_tick == old(self).change_tick,
            final(self).table_info == old(self).table_info,
            final(self).code_lang == old(self).code_lang,
            final(self).pgh_type == old(self).pgh_type,
    {
        proof {
            lemma_seg_models_push(self.pgh@, segment);
        }
        self.pgh.push(segment);
    }

    /// Appends a text segment.
    pub fn push_text(&mut self, s: String)
        ensures
            final(self)@ == (PghModel {
                segs: old(self)@.segs.push(SegModel::of_text(s@)),
                ..old(self)@
            }),
            same_frame(*final(self), *old(self)),
    {
        self.push(PghSegment::new_text(s));
    }

    /// Puts a text segment in at position `i`.
    pub fn insert_text(&mut self, i: usize, s: String)
        requires
            i <= old(self).pgh.len(),
        ensures
            final(self)@ == old(self)@.with_text_inserted(i as int, s@),
            same_frame(*final(self), *old(self)),
            final(self).pgh.len() == old(self).pgh.len() + 1,
    {
        let seg = PghSegment::new_text(s);
        self.pgh.insert(i, seg);
        proof {
            assert(final(self)@.segs =~= old(self)@.segs.insert(i as int, seg@));
        }
    }

    /// Replaces the content of segment `i` by a text; the segment keeps its
    /// kind. A number past the last segment changes nothing.
    pub fn update_text(&mut self, i: usize, s: String)
        ensures
            final(self)@ == (if i < old(self)@.segs.len() {
                PghModel {
                    segs: old(self)@.segs.update(
                        i as int,
                        SegModel {
                            seg_type: old(self)@.segs[i as int].seg_type,
                            item: crate::segment::ItemModel::Text(s@),
                        },
                    ),
                    ..old(self)@
                }
            } else {
                old(self)@
            }),
            final(self).change_tick == old(self).change_tick,
    {
        if i < self.pgh.len() {
            let seg_type = self.pgh[i].seg_type;
            let seg = PghSegment::new(seg_type, PghItem::Text(crate::segment::PghText::new(s)));
            self.pgh.set(i, seg);
            proof {
                assert(final(self)@.segs =~= old(self)@.segs.update(i as int, seg@));
            }
        }
    }

    pub fn push_head(&mut self, deep: u8)
        ensures
            final(self).pgh@ == old(self).pgh@.push(
                PghSegment { seg_type: SegmentType::Head, item: PghItem::Head(PghHead { deep }) },
            ),
            final(self).change_tick == old(self).change_tick,
            final(self).table_info == old(self).table_info,
            final(self).code_lang == old(self).code_lang,
            final(self).pgh_type == old(self).pgh_type,
    {
        self.push(PghSegment::new(SegmentType::Head, PghItem::Head(PghHead::new(deep))));
    }

    pub fn push_indent(&mut self)
        ensures
            final(self).pgh@ == old(self).pgh@.push(
                PghSegment { seg_type: SegmentType::Indent, item: PghItem::Indent(PghIndent {  }) },
            ),
            final(self).change_tick == old(self).change_tick,
            final(self).table_info == old(self).table_info,
            final(self).code_lang == old(self).code_lang,
            final(self).pgh_type == old(self).pgh_type,
    {
        self.push(PghSegment::new(SegmentType::Indent, PghItem::Indent(PghIndent::new())));
    }

    pub fn push_checkbox(&mut self)
        ensures
            final(self).pgh@ == old(self).pgh@.push(
                PghSegment {
                    seg_type: SegmentType::CheckBox,
                    item: PghItem::CheckBox(PghCheckBox {  }),
                },
            ),
            final(self).change_tick == old(self).change_tick,
            final(self).table_info == old(self).table_info,
            final(self).code_lang == old(self).code_lang,
            final(self).pgh_type == old(self).pgh_type,
    {
        self.push(PghSegment::new(SegmentType::CheckBox, PghItem::CheckBox(PghCheckBox::new())));
    }

    pub fn push_point(&mut self)
        ensures
            final(self).pgh@ == old(self).pgh@.push(
                PghSegment { seg_type: SegmentType::Point, item: PghItem::Point(PghPoint {  }) },
            ),
            final(self).change_tick == old(self).change_tick,
            final(self).table_info == old(self).table_info,
            final(self).code_lang == old(self).code_lang,
            final(self).pgh_type == old(self).pgh_type,
    {
        self.push(PghSegment::new(SegmentType::Point, PghItem::Point(PghPoint::new())));
    }

    pub fn push_quote_indent(&mut self)
        ensures
            final(self).pgh@ == old(self).pgh@.push(
                PghSegment {
                    seg_type: SegmentType::QuoteIndent,
                    item: PghItem::QuoteIndent(PghQuoteIndent {  }),
                },
            ),
            final(self).change_tick == old(self).change_tick,
            final(self).table_info == old(self).table_info,
            final(self).code_lang == old(self).code_lang,
            final(self).pgh_type == old(self).pgh_type,
    {
        self.push(
            PghSegment::new(SegmentType::QuoteIndent, PghItem::QuoteIndent(PghQuoteIndent::new())),
        );
    }

    pub fn push_break(&mut self)
        ensures
            final(self).pgh@ == old(self).pgh@.push(
                PghSegment { seg_type: SegmentType::Break, item: PghItem::Break(PghBreak {  }) },
            ),
            final(self).change_tick == old(self).change_tick,
            final(self).table_info == old(self).table_info,
            final(self).code_lang == old(self).code_lang,
            final(self).pgh_type == old(self).pgh_type,
    {
        self.push(PghSegment::new(SegmentType::Break, PghItem::Break(PghBreak::new())));
    }

    pub fn push_icon(&mut self, icon_name: IconName)
        ensures
            final(self).pgh@ == old(self).pgh@.push(
                PghSegment { seg_type: SegmentType::Icon, item: PghItem::Icon(PghIcon { icon_name }) },
            ),
            final(self).change_tick == old(self).change_tick,
            final(self).table_info == old(self).table_info,
            final(self).code_lang == old(self).code_lang,
            final(self).pgh_type == old(self).pgh_type,
    {
        self.push(PghSegment::new(SegmentType::Icon, PghItem::Icon(PghIcon::new(icon_name))));
    }

    pub fn push_image(&mut self, image_info: ImageInfo)
        ensures
            final(self).pgh@ == old(self).pgh@.push(
                PghSegment {
                    seg_type: SegmentType::Image,
                    item: PghItem::Image(PghImage { image: image_info }),
                },
            ),
            final(self).change_tick == old(self).change_tick,
            final(self).table_info == old(self).table_info,
            final(self).code_lang == old(self).code_lang,
            final(self).pgh_type == old(self).pgh_type,
    {
        self.push(PghSegment::new(SegmentType::Image, PghItem::Image(PghImage::new(image_info))));
    }

    pub fn max_culumn(&self, cursor: &Cursor) -> (r: usize)
        ensures
            r == self@.max_culumn(cursor.segment as int),
    {
        if cursor.segment < self.pgh.len() {
            self.pgh[cursor.segment].item.max_culumn()
        } else {
            0
        }
    }

    pub fn max_segment(&self) -> (r: usize)
        ensures
            r == self@.max_segment(),
    {
        if self.pgh.len() > 0 {
            self.pgh.len() - 1
        } else {
            0
        }
    }

    /// The text of each segment.
    pub fn text_to_vec(&self) -> (r: Vec<String>)
        ensures
            texts(r@) == self@.texts(),
    {
        let mut out: Vec<String> = Vec::new();
        let mut i: usize = 0;
        while i < self.pgh.len()
            invariant
                0 <= i <= self.pgh.len(),
                texts(out@) =~= self@.texts().take(i as int),
            decreases self.pgh.len() - i,
        {
            let t = self.pgh[i].item.text();
            proof {
                assert(self@.segs[i as int] == self.pgh@[i as int]@);
                assert(self@.texts()[i as int] == t@);
                crate::strings::lemma_texts_push(out@, t);
                assert(self@.texts().take(i + 1) =~= self@.texts().take(i as int).push(t@));
            }
            out.push(t);
            i += 1;
        }
        proof {
            assert(self@.texts().take(self.pgh.len() as int) =~= self@.texts());
        }
        out
    }

    pub fn update_segment_text(&mut self, segment: usize, new: String)
        ensures
            final(self)@ == old(self)@.with_segment_text(segment as int, new@),
            same_frame(*final(self), *old(self)),
            final(self).pgh.len() == old(self).pgh.len(),
    {
        if segment < self.pgh.len() {
            let mut seg = self.pgh[segment].clone();
            seg.item.update_text(new);
            self.pgh.set(segment, seg);
            proof {
                assert(final(self)@.segs =~= old(self)@.segs.update(
                    segment as int,
                    old(self)@.segs[segment as int].with_text(new@),
                ));
            }
        }
    }

    /// Replaces all segments by one text segment.
    pub fn update_all_text(&mut self, new: String)
        ensures
            final(self)@ == old(self)@.with_all_text(new@),
            same_frame(*final(self), *old(self)),
    {
        let mut pgh: Vec<PghSegment> = Vec::new();
        let seg = PghSegment::new_text(new);
        pgh.push(seg);
        self.pgh = pgh;
        proof {
            assert(final(self)@.segs =~= seq![SegModel::of_text(new@)]);
        }
    }

    /// Drops the segments from number `segment` on.
    pub fn remove_segment_from(&mut self, segment: usize)
        ensures
            final(self)@ == old(self)@.truncated(segment as int),
            same_frame(*final(self), *old(self)),
    {
        if segment < self.pgh.len() {
            self.pgh.truncate(segment);
            proof {
                assert(final(self)@.segs =~= old(self)@.segs.take(segment as int));
            }
        }
    }

    pub fn get_segment_text(&self, segment: usize) -> (r: String)
        ensures
            r@ == self@.segment_text(segment as int),
    {
        if segment < self.pgh.len() {
            self.pgh[segment].item.text()
        } else {
            String::new()
        }
    }

    /// The text of the paragraph.
    pub fn get_text(&self) -> (r: String)
        ensures
            r@ == self@.text(),
    {
        let v = self.text_to_vec();
        concat_texts(&v)
    }

    pub fn get_segment_type(&self, segment: usize) -> (r: SegmentType)
        ensures
            r == self@.segment_type(segment as int),
    {
        if segment < self.pgh.len() {
            self.pgh[segment].seg_type
        } else {
            SegmentType::Text
        }
    }

    pub fn last_text_segment(&self) -> (r: usize)
        ensures
            r == self@.last_text_segment(),
            self.pgh.len() > 0 ==> r < self.pgh.len(),
    {
        let mut last: usize = 0;
        let mut i: usize = 0;
        while i < self.pgh.len()
            invariant
                0 <= i <= self.pgh.len(),
                last == self@.last_text_below(i as int),
                i > 0 ==> last < i,
                i == 0 ==> last == 0,
            decreases self.pgh.len() - i,
        {
            if self.pgh[i].seg_type == SegmentType::Text {
                last = i;
            }
            i += 1;
        }
        last
    }

    pub fn is_last_text_segment(&self, segment: usize) -> (r: bool)
        ensures
            r == (segment == self@.last_text_segment()),
    {
        segment == self.last_text_segment()
    }

    pub fn is_table(&self) -> (r: bool)
        ensures
            r == self@.is_table(),
    {
        self.pgh_type == PghType::Table
    }

    pub fn is_code(&self) -> (r: bool)
        ensures
            r == self@.is_code(),
    {
        self.pgh_type == PghType::Code
    }
}

} // verus!
