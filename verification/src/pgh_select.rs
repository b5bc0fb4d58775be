//! The text of a selection as it is copied or saved, and the way from an
//! offset in a paragraph's text back to a cursor.

use crate::cursor::Cursor;
use crate::pgh::{PghModel, PghView, TableInfo};
use crate::pgh_ops::lemma_selected_keep_len;
use crate::strings::{
    char_count, chars_of, concat_all, concat_texts, join_texts, join_with, texts,
};
use crate::table::{lemma_grid_index, lemma_grid_row_start, CellSpan};
use vstd::arithmetic::div_mod::lemma_fundamental_div_mod;
use vstd::prelude::*;
use vstd::string::*;
use vstd::utf8::{encode_scalar, encode_utf8};

verus! {

/// The text at position `idx`, empty where there is none.
pub open spec fn cell_text(arr: Seq<Seq<char>>, idx: int) -> Seq<char> {
    if 0 <= idx < arr.len() {
        arr[idx]
    } else {
        Seq::empty()
    }
}

/// The first `n` cells of a table row from column `col_lo` on, each
/// followed by a bar.
pub open spec fn row_cells_text(arr: Seq<Seq<char>>, cols: int, row: int, col_lo: int, n: int)
    -> Seq<char>
    decreases n,
{
    if n <= 0 {
        Seq::empty()
    } else {
        row_cells_text(arr, cols, row, col_lo, n - 1) + cell_text(
            arr,
            row * cols + col_lo + n - 1,
        ) + "|"@
    }
}

/// `n` cells of the rule under a table's head.
pub open spec fn rule_cells(n: int) -> Seq<char>
    decreases n,
{
    if n <= 0 {
        Seq::empty()
    } else {
        rule_cells(n - 1) + "--|"@
    }
}

/// The first `n` rows of a rectangle of cells as markdown: each row
/// starts with a bar and ends with a line feed, and the rule follows the
/// first row.
pub open spec fn table_rows_text(arr: Seq<Seq<char>>, cols: int, sp: CellSpan, n: int) -> Seq<char>
    decreases n,
{
    if n <= 0 {
        Seq::empty()
    } else {
        let row = table_rows_text(arr, cols, sp, n - 1) + "|"@ + row_cells_text(
            arr,
            cols,
            sp.row_lo + n - 1,
            sp.col_lo,
            sp.cols(),
        ) + "\n"@;
        if n == 1 {
            row + "|"@ + rule_cells(sp.cols()) + "\n"@
        } else {
            row
        }
    }
}

/// The first and the last segment of the cells that a selection shows of
/// a table on line `line_no`: on a line between the selection's ends the
/// whole table, on its first line from the start of the first cursor's row
/// on, on its last line up to the end of the last cursor's row.
pub open spec fn table_select_range(t: TableInfo, line_no: usize, c1: Cursor, c2: Cursor) -> (
    int,
    int,
) {
    let min = c1.spec_min(c2);
    let max = c1.spec_max(c2);
    let segmax = t.row_count * t.col_count - 1;
    if line_no < min.line_no || line_no > max.line_no {
        (0, 0)
    } else if line_no == min.line_no && line_no == max.line_no {
        (min.segment as int, max.segment as int)
    } else if line_no > min.line_no && line_no < max.line_no {
        (0, segmax)
    } else if line_no == max.line_no {
        (0, ((max.segment + t.col_count) / (t.col_count as int)) * t.col_count - 1)
    } else {
        (min.segment - (min.segment as int) % (t.col_count as int), segmax)
    }
}

/// The number of bytes of a text in UTF-8.
pub open spec fn utf8_size(t: Seq<char>) -> int {
    encode_utf8(t).len() as int
}

/// The number of leading characters of `t` that end within the first
/// `bytes` bytes of its UTF-8 form.
pub open spec fn chars_within(t: Seq<char>, bytes: int) -> int
    decreases t.len(),
{
    if t.len() == 0 || encode_scalar(t[0] as u32).len() > bytes {
        0
    } else {
        1 + chars_within(t.drop_first(), bytes - encode_scalar(t[0] as u32).len())
    }
}

impl PghModel {
    /// The text that a selection covers on line `line_no`. Raw, it is the
    /// selected texts joined. Otherwise a table gives its selected cells as
    /// a markdown table, a code paragraph its lines joined by line feeds,
    /// and any other paragraph the selected texts joined.
    pub open spec fn select(self, line_no: usize, c1: Cursor, c2: Cursor, is_raw: bool) -> Seq<
        char,
    > {
        if is_raw {
            concat_all(self.select_to_vec(line_no, c1, c2, false))
        } else {
            match self.table_info {
                Some(t) => if t.row_count == 0 {
                    Seq::empty()
                } else {
                    let r = table_select_range(t, line_no, c1, c2);
                    let sp = t.span(r.0, r.1);
                    table_rows_text(
                        self.select_to_vec(line_no, c1, c2, true),
                        t.col_count as int,
                        sp,
                        sp.rows(),
                    )
                },
                None => if self.is_code() {
                    join_with(self.select_to_vec(line_no, c1, c2, false), "\n"@)
                } else {
                    concat_all(self.select_to_vec(line_no, c1, c2, false))
                },
            }
        }
    }

    /// The segment and column of the character at offset `index`, counted
    /// in characters from the start of segment `seg`, looking no further
    /// than segment `last`. An offset past the text gives the end of
    /// segment `last`.
    pub open spec fn locate_char(self, seg: int, index: int, last: int) -> (int, int)
        decreases last - seg + 1,
    {
        if seg > last || seg < 0 || last >= self.segs.len() {
            (0, 0)
        } else if index < self.segs[seg].text().len() {
            (seg, index)
        } else if seg == last {
            (last, self.max_culumn(last))
        } else {
            self.locate_char(seg + 1, index - self.segs[seg].text().len(), last)
        }
    }

    /// As `locate_char`, with the offset counted in bytes of UTF-8: the
    /// character found is the first that ends past the offset.
    pub open spec fn locate_byte(self, seg: int, index: int, last: int) -> (int, int)
        decreases last - seg + 1,
    {
        if seg > last || seg < 0 || last >= self.segs.len() {
            (0, 0)
        } else if chars_within(self.segs[seg].text(), index) < self.segs[seg].text().len() {
            (seg, chars_within(self.segs[seg].text(), index))
        } else if seg == last {
            (last, self.max_culumn(last))
        } else {
            self.locate_byte(seg + 1, index - utf8_size(self.segs[seg].text()), last)
        }
    }

    /// The cursor on line `line_no` at the character with offset `index`
    /// in the paragraph's text, at most the end of the last text segment.
    pub open spec fn char_index_cursor(self, index: usize, line_no: usize) -> Cursor {
        let at = self.locate_char(0, index as int, self.last_text_segment());
        Cursor { line_no, segment: at.0 as usize, culumn: at.1 as usize }
    }

    /// The cursor on line `line_no` at the character that holds byte
    /// `index` of the paragraph's text in UTF-8, at most the end of the
    /// last text segment.
    pub open spec fn byte_index_cursor(self, index: usize, line_no: usize) -> Cursor {
        let at = self.locate_byte(0, index as int, self.last_text_segment());
        Cursor { line_no, segment: at.0 as usize, culumn: at.1 as usize }
    }
}

/// Within no bytes no character ends.
pub proof fn lemma_chars_within_none(t: Seq<char>, bytes: int)
    requires
        bytes <= 0,
    ensures
        chars_within(t, bytes) == 0,
{
    if t.len() > 0 {
        vstd::utf8::char_is_scalar(t[0]);
    }
}

/// More bytes than a text can have hold all its characters that fewer
/// bytes hold, and the same if the text is no longer than the fewer.
pub proof fn lemma_chars_within_all(t: Seq<char>, fewer: int, more: int)
    requires
        fewer <= more,
        utf8_size(t) <= fewer,
    ensures
        chars_within(t, fewer) == t.len(),
        chars_within(t, more) == t.len(),
    decreases t.len(),
{
    if t.len() > 0 {
        let w = encode_scalar(t[0] as u32).len();
        assert(encode_utf8(t) =~= encode_scalar(t[0] as u32) + encode_utf8(t.drop_first()));
        lemma_chars_within_all(t.drop_first(), fewer - w, more - w);
    }
}

/// The number of bytes that a character takes in UTF-8.
pub fn char_utf8_len(c: char) -> (n: usize)
    ensures
        n == encode_scalar(c as u32).len(),
        1 <= n <= 4,
{
    let v = c as u32;
    proof {
        vstd::utf8::char_is_scalar(c);
    }
    if v <= 0x7F {
        1
    } else if v <= 0x7FF {
        2
    } else if v <= 0xFFFF {
        3
    } else {
        4
    }
}

/// The number of leading characters of a text that end within its first
/// `bytes` bytes, and the number of bytes they take.
pub fn byte_column(t: &str, bytes: usize) -> (r: (usize, usize))
    ensures
        r.0 == chars_within(t@, bytes as int),
        r.0 <= t@.len(),
        r.1 <= bytes,
        r.0 == t@.len() ==> r.1 == utf8_size(t@),
{
    let chars = chars_of(t);
    let mut i: usize = 0;
    let mut used: usize = 0;
    proof {
        assert(t@.skip(0) =~= t@);
    }
    while i < chars.len()
        invariant
            chars@ == t@,
            0 <= i <= chars.len(),
            used <= bytes,
            chars_within(t@, bytes as int) == i + chars_within(t@.skip(i as int), bytes - used),
            utf8_size(t@) == used + utf8_size(t@.skip(i as int)),
        decreases chars.len() - i,
    {
        let w = char_utf8_len(chars[i]);
        proof {
            assert(t@.skip(i as int)[0] == t@[i as int]);
            assert(t@.skip(i as int).drop_first() =~= t@.skip(i + 1));
        }
        if w > bytes - used {
            return (i, used);
        }
        used += w;
        i += 1;
    }
    proof {
        assert(t@.skip(t@.len() as int) =~= Seq::<char>::empty());
        assert(encode_utf8(Seq::<char>::empty()) =~= Seq::<u8>::empty());
    }
    (i, used)
}

impl PghView {
    /// The bounds of the rectangle of cells that a selection shows of a
    /// table on line `line_no`: first and last row, first and last column.
    #[verifier::rlimit(50)]
    fn table_select_span(&self, t: TableInfo, line_no: usize, c1: &Cursor, c2: &Cursor) -> (r: (
        usize,
        usize,
        usize,
        usize,
    ))
        requires
            t.col_count >= 1,
            t.row_count >= 1,
            t.row_count * t.col_count <= usize::MAX,
        ensures
            ({
                let range = table_select_range(t, line_no, *c1, *c2);
                let sp = t.span(range.0, range.1);
                &&& r.0 == sp.row_lo
                &&& r.1 == sp.row_hi
                &&& r.2 == sp.col_lo
                &&& r.3 == sp.col_hi
                &&& r.0 <= r.1
                &&& r.2 <= r.3 < t.col_count
            }),
    {
        let min = Cursor::min_of(*c1, *c2);
        let max = Cursor::max_of(*c1, *c2);
        let cc = t.col_count;
        proof {
            lemma_grid_index(0, 0, cc as int);
            lemma_grid_index(t.row_count - 1, cc - 1, cc as int);
            assert((t.row_count - 1) * cc + (cc - 1) == t.row_count * cc - 1) by (nonlinear_arith);
            lemma_fundamental_div_mod(min.segment as int, cc as int);
            lemma_fundamental_div_mod(max.segment as int, cc as int);
        }
        if line_no < min.line_no || line_no > max.line_no {
            (0, 0, 0, 0)
        } else if line_no == min.line_no && line_no == max.line_no {
            self.span_of(t, min.segment, max.segment)
        } else if line_no > min.line_no && line_no < max.line_no {
            (0, t.row_count - 1, 0, cc - 1)
        } else if line_no == max.line_no {
            let q = max.segment / cc;
            proof {
                let s = max.segment as int;
                let rem = s % (cc as int);
                vstd::arithmetic::mul::lemma_mul_is_commutative(cc as int, q as int);
                lemma_grid_index(q + 1, rem, cc as int);
                assert(s + cc == (q + 1) * cc + rem) by (nonlinear_arith)
                    requires
                        s == q * cc + rem,
                ;
                assert((s + cc) / (cc as int) == q + 1);
                lemma_grid_index(q as int, cc - 1, cc as int);
                assert((q + 1) * cc - 1 == q * cc + (cc - 1)) by (nonlinear_arith);
            }
            (0, q, 0, cc - 1)
        } else {
            let q = min.segment / cc;
            proof {
                let s = min.segment as int;
                let rem = s % (cc as int);
                vstd::arithmetic::mul::lemma_mul_is_commutative(cc as int, q as int);
                lemma_grid_index(q as int, 0, cc as int);
                assert(s - rem == q * cc + 0);
            }
            let last = t.row_count - 1;
            if q <= last {
                (q, last, 0, cc - 1)
            } else {
                (last, q, 0, cc - 1)
            }
        }
    }

    /// The selected cells of a table as a markdown table.
    #[verifier::rlimit(50)]
    fn table_text(&self, t: TableInfo, arr: &Vec<String>, span: (usize, usize, usize, usize)) -> (r:
        String)
        requires
            t.col_count >= 1,
            t.row_count * t.col_count == arr.len(),
            span.0 <= span.1,
            span.2 <= span.3 < t.col_count,
        ensures
            ({
                let sp = CellSpan {
                    row_lo: span.0 as int,
                    row_hi: span.1 as int,
                    col_lo: span.2 as int,
                    col_hi: span.3 as int,
                };
                r@ == table_rows_text(texts(arr@), t.col_count as int, sp, sp.rows())
            }),
    {
        let ghost sp = CellSpan {
            row_lo: span.0 as int,
            row_hi: span.1 as int,
            col_lo: span.2 as int,
            col_hi: span.3 as int,
        };
        let ghost cells = texts(arr@);
        let cc = t.col_count;
        let mut out = String::new();
        let mut row = span.0;
        loop
            invariant_except_break
                out@ == table_rows_text(cells, cc as int, sp, row - span.0),
            invariant
                cells == texts(arr@),
                cc == t.col_count,
                cc >= 1,
                t.row_count * cc == arr.len(),
                sp.row_lo == span.0,
                sp.row_hi == span.1,
                sp.col_lo == span.2,
                sp.col_hi == span.3,
                span.0 <= row <= span.1,
                span.2 <= span.3 < cc,
            ensures
                out@ == table_rows_text(cells, cc as int, sp, sp.rows()),
            decreases span.1 - row,
        {
            let ghost n = row - span.0 + 1;
            let ghost start = out@;
            out.append("|");
            let mut col = span.2;
            loop
                invariant_except_break
                    out@ == start + "|"@ + row_cells_text(
                        cells,
                        cc as int,
                        row as int,
                        span.2 as int,
                        col - span.2,
                    ),
                invariant
                    cells == texts(arr@),
                    cc >= 1,
                    t.row_count * cc == arr.len(),
                    span.2 <= col <= span.3 < cc,
                ensures
                    out@ == start + "|"@ + row_cells_text(
                        cells,
                        cc as int,
                        row as int,
                        span.2 as int,
                        span.3 - span.2 + 1,
                    ),
                decreases span.3 - col,
            {
                proof {
                    if row < t.row_count {
                        lemma_grid_row_start(row + 1, t.row_count as int, cc as int);
                        lemma_grid_index(row as int, col as int, cc as int);
                    } else {
                        lemma_grid_row_start(t.row_count as int, row as int, cc as int);
                    }
                    assert(start + "|"@ + row_cells_text(
                        cells,
                        cc as int,
                        row as int,
                        span.2 as int,
                        col - span.2,
                    ) + cell_text(cells, row * cc + col) + "|"@ =~= start + "|"@ + (row_cells_text(
                        cells,
                        cc as int,
                        row as int,
                        span.2 as int,
                        col - span.2,
                    ) + cell_text(cells, row * cc + col) + "|"@));
                }
                if row < t.row_count {
                    let idx = row * cc + col;
                    proof {
                        assert(cells[idx as int] == arr@[idx as int]@);
                    }
                    out.append(arr[idx].as_str());
                } else {
                    proof {
                        assert(out@ + Seq::<char>::empty() =~= out@);
                    }
                }
                out.append("|");
                if col == span.3 {
                    break ;
                }
                col += 1;
            }
            out.append("\n");
            if row == span.0 {
                out.append("|");
                let ghost head = out@;
                let mut k = span.2;
                proof {
                    assert(head + rule_cells(0) =~= head);
                }
                loop
                    invariant_except_break
                        out@ == head + rule_cells(k - span.2),
                    invariant
                        span.2 <= k <= span.3,
                    ensures
                        out@ == head + rule_cells(span.3 - span.2 + 1),
                    decreases span.3 - k,
                {
                    proof {
                        assert(head + rule_cells(k - span.2) + "--|"@ =~= head + (rule_cells(
                            k - span.2,
                        ) + "--|"@));
                    }
                    out.append("--|");
                    if k == span.3 {
                        break ;
                    }
                    k += 1;
                }
                out.append("\n");
                proof {
                    assert(table_rows_text(cells, cc as int, sp, 0) =~= Seq::<char>::empty());
                    assert(out@ =~= table_rows_text(cells, cc as int, sp, 1));
                }
            } else {
                proof {
                    assert(out@ =~= table_rows_text(cells, cc as int, sp, n));
                }
            }
            if row == span.1 {
                break ;
            }
            row += 1;
        }
        out
    }

    /// The text that the selection between `c1` and `c2` covers on line
    /// `line_no`.
    #[verifier::rlimit(50)]
    pub fn select(&self, line_no: usize, c1: &Cursor, c2: &Cursor, is_raw: bool) -> (r: String)
        requires
            self@.wf(),
        ensures
            r@ == self@.select(line_no, *c1, *c2, is_raw),
    {
        if is_raw {
            let v = self.select_to_vec(line_no, c1, c2, false);
            return concat_texts(&v);
        }
        match self.table_info {
            Some(t) => {
                if t.row_count == 0 {
                    return String::new();
                }
                let arr = self.select_to_vec(line_no, c1, c2, true);
                proof {
                    lemma_selected_keep_len(self@, line_no, *c1, *c2, self@.segs.len() as int);
                    assert(texts(arr@).len() == arr.len());
                    assert(t.row_count * t.col_count == self.pgh.len());
                }
                let span = self.table_select_span(t, line_no, c1, c2);
                self.table_text(t, &arr, span)
            },
            None => {
                let v = self.select_to_vec(line_no, c1, c2, false);
                if self.is_code() {
                    join_texts(&v, "\n")
                } else {
                    concat_texts(&v)
                }
            },
        }
    }

    /// The cursor at the character with offset `index` in the text of the
    /// paragraph.
    pub fn text_char_index_to_cursor(&self, index: usize, line_no: usize) -> (r: Cursor)
        ensures
            r == self@.char_index_cursor(index, line_no),
    {
        if self.pgh.len() == 0 {
            return Cursor { line_no, segment: 0, culumn: 0 };
        }
        let last = self.last_text_segment();
        let mut seg: usize = 0;
        let mut rest = index;
        loop
            invariant
                self.pgh.len() > 0,
                last == self@.last_text_segment(),
                last < self.pgh.len(),
                0 <= seg <= last,
                self@.locate_char(seg as int, rest as int, last as int) == self@.locate_char(
                    0,
                    index as int,
                    last as int,
                ),
            decreases last - seg,
        {
            proof {
                assert(self@.segs[seg as int] == self.pgh@[seg as int]@);
            }
            let t = self.pgh[seg].item.text();
            let len = char_count(t.as_str());
            if rest < len {
                return Cursor { line_no, segment: seg, culumn: rest };
            }
            if seg == last {
                return Cursor { line_no, segment: last, culumn: self.pgh[last].item.max_culumn() };
            }
            rest -= len;
            seg += 1;
        }
    }

    /// The cursor at the character that holds byte `index` of the text of
    /// the paragraph.
    pub fn text_byte_index_to_cursor(&self, index: usize, line_no: usize) -> (r: Cursor)
        ensures
            r == self@.byte_index_cursor(index, line_no),
    {
        if self.pgh.len() == 0 {
            return Cursor { line_no, segment: 0, culumn: 0 };
        }
        let last = self.last_text_segment();
        let mut seg: usize = 0;
        let mut rest = index;
        loop
            invariant
                self.pgh.len() > 0,
                last == self@.last_text_segment(),
                last < self.pgh.len(),
                0 <= seg <= last,
                self@.locate_byte(seg as int, rest as int, last as int) == self@.locate_byte(
                    0,
                    index as int,
                    last as int,
                ),
            decreases last - seg,
        {
            proof {
                assert(self@.segs[seg as int] == self.pgh@[seg as int]@);
            }
            let t = self.pgh[seg].item.text();
            let at = byte_column(t.as_str(), rest);
            let len = char_count(t.as_str());
            if at.0 < len {
                return Cursor { line_no, segment: seg, culumn: at.0 };
            }
            if seg == last {
                return Cursor { line_no, segment: last, culumn: self.pgh[last].item.max_culumn() };
            }
            rest -= at.1;
            seg += 1;
        }
    }
}

} // verus!
