//! Searching the document: the next match from the text cursor on, going
//! round at the end, and all matches.

use crate::cmd::{FindModel, FindReplaceCtx};
use crate::ctx::{Ctx, FindCache, FindCacheItem, State};
use crate::cursor::Cursor;
use crate::find::{find_in_texts, find_spans};
use crate::md::pgh_models;
use crate::pgh::PghModel;
use crate::strings::texts;
use vstd::prelude::*;

verus! {

/// The mathematical model of a match.
pub struct FindItemModel {
    pub start: Cursor,
    pub end: Cursor,
    pub line_text: Option<Seq<char>>,
}

impl View for FindCacheItem {
    type V = FindItemModel;

    open spec fn view(&self) -> FindItemModel {
        FindItemModel {
            start: self.start,
            end: self.end,
            line_text: match self.line_text {
                Some(t) => Some(t@),
                None => None,
            },
        }
    }
}

impl View for FindCache {
    type V = Seq<FindItemModel>;

    open spec fn view(&self) -> Seq<FindItemModel> {
        Seq::new(self.cache@.len(), |i: int| self.cache@[i]@)
    }
}

/// The text of each line of a document.
pub open spec fn doc_texts(doc: Seq<PghModel>) -> Seq<Seq<char>> {
    Seq::new(doc.len(), |i: int| doc[i].text())
}

/// The first `n` matches of a line as cursors, with the line's text where
/// it is asked for.
pub open spec fn line_items(
    p: PghModel,
    line_no: usize,
    spans: Seq<(usize, usize)>,
    need_text: bool,
    n: int,
) -> Seq<FindItemModel>
    decreases n,
{
    if n <= 0 || n > spans.len() {
        Seq::empty()
    } else {
        line_items(p, line_no, spans, need_text, n - 1).push(
            FindItemModel {
                start: p.byte_index_cursor(spans[n - 1].0, line_no),
                end: p.byte_index_cursor(spans[n - 1].1, line_no),
                line_text: if need_text {
                    Some(p.text())
                } else {
                    None
                },
            },
        )
    }
}

/// The matches of a search in the lines from `from` up to but not `upto`,
/// line by line in the order found. Lines that are not there give none.
pub open spec fn doc_items(
    doc: Seq<PghModel>,
    cfg: FindModel,
    need_text: bool,
    from: int,
    upto: int,
) -> Seq<FindItemModel>
    decreases upto - from,
{
    if upto <= from || from < 0 {
        Seq::empty()
    } else {
        let before = doc_items(doc, cfg, need_text, from, upto - 1);
        if upto - 1 < doc.len() {
            let spans = find_spans(doc[upto - 1].text(), cfg);
            before + line_items(doc[upto - 1], (upto - 1) as usize, spans, need_text, spans.len() as int)
        } else {
            before
        }
    }
}

/// The first match of a line, from match `k` on, that ends behind the
/// cursor.
pub open spec fn first_after(
    p: PghModel,
    line_no: usize,
    spans: Seq<(usize, usize)>,
    c: Cursor,
    k: int,
) -> Option<(Cursor, Cursor)>
    decreases spans.len() - k,
{
    if k < 0 || k >= spans.len() {
        None
    } else if c.is_before(p.byte_index_cursor(spans[k].1, line_no)) {
        Some((p.byte_index_cursor(spans[k].0, line_no), p.byte_index_cursor(spans[k].1, line_no)))
    } else {
        first_after(p, line_no, spans, c, k + 1)
    }
}

/// The first match of a line, from match `k` on, that starts before the
/// cursor.
pub open spec fn first_before(
    p: PghModel,
    line_no: usize,
    spans: Seq<(usize, usize)>,
    c: Cursor,
    k: int,
) -> Option<(Cursor, Cursor)>
    decreases spans.len() - k,
{
    if k < 0 || k >= spans.len() {
        None
    } else if p.byte_index_cursor(spans[k].0, line_no).is_before(c) {
        Some((p.byte_index_cursor(spans[k].0, line_no), p.byte_index_cursor(spans[k].1, line_no)))
    } else {
        first_before(p, line_no, spans, c, k + 1)
    }
}

/// The first match that ends behind the cursor, looked for from line
/// `line` to the end of the document.
pub open spec fn scan_forward(doc: Seq<PghModel>, cfg: FindModel, c: Cursor, line: int) -> Option<
    (Cursor, Cursor),
>
    decreases doc.len() - line,
{
    if line < 0 || line >= doc.len() {
        None
    } else {
        match first_after(doc[line], line as usize, find_spans(doc[line].text(), cfg), c, 0) {
            Some(m) => Some(m),
            None => scan_forward(doc, cfg, c, line + 1),
        }
    }
}

/// The first match that starts before the cursor, looked for from line
/// `line` to the cursor's line.
pub open spec fn scan_wrapped(doc: Seq<PghModel>, cfg: FindModel, c: Cursor, line: int) -> Option<
    (Cursor, Cursor),
>
    decreases doc.len() - line,
{
    if line < 0 || line >= doc.len() || line > c.line_no {
        None
    } else {
        match first_before(doc[line], line as usize, find_spans(doc[line].text(), cfg), c, 0) {
            Some(m) => Some(m),
            None => scan_wrapped(doc, cfg, c, line + 1),
        }
    }
}

/// The next match from the cursor: the first that ends behind it, from its
/// line to the end; failing that the first that starts before it, from
/// the start of the document to its line.
pub open spec fn find_next(doc: Seq<PghModel>, cfg: FindModel, c: Cursor) -> Option<
    (Cursor, Cursor),
> {
    match scan_forward(doc, cfg, c, c.line_no as int) {
        Some(m) => Some(m),
        None => scan_wrapped(doc, cfg, c, 0),
    }
}

/// Where the next match is none, no line holds a match that ends behind
/// the cursor or, up to the cursor's line, starts before it.
pub proof fn lemma_find_next_none(doc: Seq<PghModel>, cfg: FindModel, c: Cursor, line: int, k: int)
    requires
        find_next(doc, cfg, c) is None,
        0 <= line < doc.len(),
        0 <= k < find_spans(doc[line].text(), cfg).len(),
    ensures
        ({
            let span = find_spans(doc[line].text(), cfg)[k];
            let start = doc[line].byte_index_cursor(span.0, line as usize);
            let end = doc[line].byte_index_cursor(span.1, line as usize);
            &&& line >= c.line_no ==> !c.is_before(end)
            &&& line <= c.line_no ==> !start.is_before(c)
        }),
{
    if line >= c.line_no {
        lemma_scan_forward_none(doc, cfg, c, c.line_no as int, line);
        lemma_first_after_none(
            doc[line],
            line as usize,
            find_spans(doc[line].text(), cfg),
            c,
            0,
            k,
        );
    }
    if line <= c.line_no {
        lemma_scan_wrapped_none(doc, cfg, c, 0, line);
        lemma_first_before_none(
            doc[line],
            line as usize,
            find_spans(doc[line].text(), cfg),
            c,
            0,
            k,
        );
    }
}

/// The cursors at the start and the end of match `k` of line `line`.
pub open spec fn match_at(doc: Seq<PghModel>, cfg: FindModel, line: int, k: int) -> (
    Cursor,
    Cursor,
) {
    let span = find_spans(doc[line].text(), cfg)[k];
    (
        doc[line].byte_index_cursor(span.0, line as usize),
        doc[line].byte_index_cursor(span.1, line as usize),
    )
}

/// Whether `k` numbers a match of line `line`.
pub open spec fn is_match(doc: Seq<PghModel>, cfg: FindModel, line: int, k: int) -> bool {
    0 <= line < doc.len() && 0 <= k < find_spans(doc[line].text(), cfg).len()
}

/// Whether a match comes before another in the order of the document: on
/// an earlier line, or earlier on the same line.
pub open spec fn match_precedes(line: int, k: int, other_line: int, other_k: int) -> bool {
    line < other_line || (line == other_line && k < other_k)
}

/// A match found from the cursor's line on is the first match there that
/// ends behind the cursor: the lemma gives its line and number.
pub proof fn lemma_find_next_forward(doc: Seq<PghModel>, cfg: FindModel, c: Cursor) -> (at: (
    int,
    int,
))
    requires
        scan_forward(doc, cfg, c, c.line_no as int) is Some,
    ensures
        c.line_no <= at.0,
        is_match(doc, cfg, at.0, at.1),
        find_next(doc, cfg, c) == Some(match_at(doc, cfg, at.0, at.1)),
        c.is_before(match_at(doc, cfg, at.0, at.1).1),
        forall|l: int, j: int|
            c.line_no <= l && #[trigger] is_match(doc, cfg, l, j) && match_precedes(
                l,
                j,
                at.0,
                at.1,
            ) ==> !c.is_before(match_at(doc, cfg, l, j).1),
{
    lemma_scan_forward_some(doc, cfg, c, c.line_no as int)
}

/// Where no match from the cursor's line on ends behind the cursor, a
/// match found is the first match of the document, up to the cursor's
/// line, that starts before the cursor: the lemma gives its line and
/// number.
pub proof fn lemma_find_next_wrapped(doc: Seq<PghModel>, cfg: FindModel, c: Cursor) -> (at: (
    int,
    int,
))
    requires
        scan_forward(doc, cfg, c, c.line_no as int) is None,
        find_next(doc, cfg, c) is Some,
    ensures
        at.0 <= c.line_no,
        is_match(doc, cfg, at.0, at.1),
        find_next(doc, cfg, c) == Some(match_at(doc, cfg, at.0, at.1)),
        match_at(doc, cfg, at.0, at.1).0.is_before(c),
        forall|l: int, j: int|
            #[trigger] is_match(doc, cfg, l, j) && match_precedes(l, j, at.0, at.1)
                ==> !match_at(doc, cfg, l, j).0.is_before(c),
{
    lemma_scan_wrapped_some(doc, cfg, c, 0)
}

/// Where every match ends behind its start, the next match is none only
/// if no line of the document holds a match. The lines of the document
/// can be counted.
pub proof fn lemma_find_next_some(
    doc: Seq<PghModel>,
    cfg: FindModel,
    c: Cursor,
    line: int,
    k: int,
)
    requires
        doc.len() <= usize::MAX,
        is_match(doc, cfg, line, k),
        forall|l: int, j: int| #[trigger]
            is_match(doc, cfg, l, j) ==> match_at(doc, cfg, l, j).0.is_before(
                match_at(doc, cfg, l, j).1,
            ),
    ensures
        find_next(doc, cfg, c) is Some,
{
    if find_next(doc, cfg, c) is None {
        lemma_find_next_none(doc, cfg, c, line, k);
        assert(is_match(doc, cfg, line, k));
        let m = match_at(doc, cfg, line, k);
        assert(m.0.is_before(m.1));
        assert(m.0.line_no == line && m.1.line_no == line);
    }
}

proof fn lemma_first_after_some(
    p: PghModel,
    line_no: usize,
    spans: Seq<(usize, usize)>,
    c: Cursor,
    from: int,
) -> (k: int)
    requires
        first_after(p, line_no, spans, c, from) is Some,
        0 <= from,
    ensures
        from <= k < spans.len(),
        first_after(p, line_no, spans, c, from) == Some(
            (p.byte_index_cursor(spans[k].0, line_no), p.byte_index_cursor(spans[k].1, line_no)),
        ),
        c.is_before(p.byte_index_cursor(spans[k].1, line_no)),
        forall|j: int| from <= j < k ==> !c.is_before(p.byte_index_cursor(spans[j].1, line_no)),
    decreases spans.len() - from,
{
    if c.is_before(p.byte_index_cursor(spans[from].1, line_no)) {
        from
    } else {
        lemma_first_after_some(p, line_no, spans, c, from + 1)
    }
}

proof fn lemma_first_before_some(
    p: PghModel,
    line_no: usize,
    spans: Seq<(usize, usize)>,
    c: Cursor,
    from: int,
) -> (k: int)
    requires
        first_before(p, line_no, spans, c, from) is Some,
        0 <= from,
    ensures
        from <= k < spans.len(),
        first_before(p, line_no, spans, c, from) == Some(
            (p.byte_index_cursor(spans[k].0, line_no), p.byte_index_cursor(spans[k].1, line_no)),
        ),
        p.byte_index_cursor(spans[k].0, line_no).is_before(c),
        forall|j: int| from <= j < k ==> !p.byte_index_cursor(spans[j].0, line_no).is_before(c),
    decreases spans.len() - from,
{
    if p.byte_index_cursor(spans[from].0, line_no).is_before(c) {
        from
    } else {
        lemma_first_before_some(p, line_no, spans, c, from + 1)
    }
}

proof fn lemma_scan_forward_some(doc: Seq<PghModel>, cfg: FindModel, c: Cursor, from: int) -> (at: (
    int,
    int,
))
    requires
        scan_forward(doc, cfg, c, from) is Some,
    ensures
        from <= at.0,
        is_match(doc, cfg, at.0, at.1),
        scan_forward(doc, cfg, c, from) == Some(match_at(doc, cfg, at.0, at.1)),
        c.is_before(match_at(doc, cfg, at.0, at.1).1),
        forall|l: int, j: int|
            from <= l && #[trigger] is_match(doc, cfg, l, j) && match_precedes(l, j, at.0, at.1)
                ==> !c.is_before(match_at(doc, cfg, l, j).1),
    decreases doc.len() - from,
{
    let spans = find_spans(doc[from].text(), cfg);
    if first_after(doc[from], from as usize, spans, c, 0) is Some {
        let k = lemma_first_after_some(doc[from], from as usize, spans, c, 0);
        (from, k)
    } else {
        let at = lemma_scan_forward_some(doc, cfg, c, from + 1);
        assert forall|l: int, j: int|
            from <= l && #[trigger] is_match(doc, cfg, l, j) && match_precedes(
                l,
                j,
                at.0,
                at.1,
            ) implies !c.is_before(match_at(doc, cfg, l, j).1) by {
            if l == from {
                lemma_first_after_none(doc[from], from as usize, spans, c, 0, j);
            }
        }
        at
    }
}

proof fn lemma_scan_wrapped_some(doc: Seq<PghModel>, cfg: FindModel, c: Cursor, from: int) -> (at: (
    int,
    int,
))
    requires
        scan_wrapped(doc, cfg, c, from) is Some,
    ensures
        from <= at.0 <= c.line_no,
        is_match(doc, cfg, at.0, at.1),
        scan_wrapped(doc, cfg, c, from) == Some(match_at(doc, cfg, at.0, at.1)),
        match_at(doc, cfg, at.0, at.1).0.is_before(c),
        forall|l: int, j: int|
            from <= l && #[trigger] is_match(doc, cfg, l, j) && match_precedes(l, j, at.0, at.1)
                ==> !match_at(doc, cfg, l, j).0.is_before(c),
    decreases doc.len() - from,
{
    let spans = find_spans(doc[from].text(), cfg);
    if first_before(doc[from], from as usize, spans, c, 0) is Some {
        let k = lemma_first_before_some(doc[from], from as usize, spans, c, 0);
        (from, k)
    } else {
        let at = lemma_scan_wrapped_some(doc, cfg, c, from + 1);
        assert forall|l: int, j: int|
            from <= l && #[trigger] is_match(doc, cfg, l, j) && match_precedes(
                l,
                j,
                at.0,
                at.1,
            ) implies !match_at(doc, cfg, l, j).0.is_before(c) by {
            if l == from {
                lemma_first_before_none(doc[from], from as usize, spans, c, 0, j);
            }
        }
        at
    }
}

proof fn lemma_first_after_none(
    p: PghModel,
    line_no: usize,
    spans: Seq<(usize, usize)>,
    c: Cursor,
    from: int,
    k: int,
)
    requires
        first_after(p, line_no, spans, c, from) is None,
        0 <= from <= k < spans.len(),
    ensures
        !c.is_before(p.byte_index_cursor(spans[k].1, line_no)),
    decreases k - from,
{
    if from < k {
        lemma_first_after_none(p, line_no, spans, c, from + 1, k);
    }
}

proof fn lemma_first_before_none(
    p: PghModel,
    line_no: usize,
    spans: Seq<(usize, usize)>,
    c: Cursor,
    from: int,
    k: int,
)
    requires
        first_before(p, line_no, spans, c, from) is None,
        0 <= from <= k < spans.len(),
    ensures
        !p.byte_index_cursor(spans[k].0, line_no).is_before(c),
    decreases k - from,
{
    if from < k {
        lemma_first_before_none(p, line_no, spans, c, from + 1, k);
    }
}

proof fn lemma_scan_forward_none(doc: Seq<PghModel>, cfg: FindModel, c: Cursor, from: int, line: int)
    requires
        scan_forward(doc, cfg, c, from) is None,
        0 <= from <= line < doc.len(),
    ensures
        first_after(doc[line], line as usize, find_spans(doc[line].text(), cfg), c, 0) is None,
    decreases line - from,
{
    if from < line {
        lemma_scan_forward_none(doc, cfg, c, from + 1, line);
    }
}

proof fn lemma_scan_wrapped_none(doc: Seq<PghModel>, cfg: FindModel, c: Cursor, from: int, line: int)
    requires
        scan_wrapped(doc, cfg, c, from) is None,
        0 <= from <= line < doc.len(),
        line <= c.line_no,
    ensures
        first_before(doc[line], line as usize, find_spans(doc[line].text(), cfg), c, 0) is None,
    decreases line - from,
{
    if from < line {
        lemma_scan_wrapped_none(doc, cfg, c, from + 1, line);
    }
}

impl Ctx {
    /// The text of each line.
    pub fn all_texts(&self) -> (r: Vec<String>)
        ensures
            texts(r@) == doc_texts(self.doc()),
    {
        let mut out: Vec<String> = Vec::new();
        let mut i: usize = 0;
        while i < self.pgh_views.len()
            invariant
                0 <= i <= self.pgh_views.len(),
                texts(out@) =~= doc_texts(self.doc()).take(i as int),
            decreases self.pgh_views.len() - i,
        {
            let t = self.pgh_views[i].get_text();
            proof {
                assert(self.doc()[i as int] == self.pgh_views[i as int]@);
                crate::strings::lemma_texts_push(out@, t);
                assert(doc_texts(self.doc()).take(i + 1) =~= doc_texts(self.doc()).take(
                    i as int,
                ).push(t@));
            }
            out.push(t);
            i += 1;
        }
        proof {
            assert(doc_texts(self.doc()).take(self.pgh_views.len() as int) =~= doc_texts(
                self.doc(),
            ));
        }
        out
    }

    /// The next match from the text cursor on, going round at the end of
    /// the document.
    #[verifier::rlimit(50)]
    pub fn find_next_cursor(&self, param: &FindReplaceCtx) -> (r: Option<(Cursor, Cursor)>)
        ensures
            r == find_next(self.doc(), param@, self.state.cursor2),
    {
        let cursor = self.state.cursor2;
        let lines = self.all_texts();
        let found = find_in_texts(&lines, param);
        let len = self.pgh_views.len();
        proof {
            assert(texts(lines@).len() == lines.len());
            assert forall|i: int| 0 <= i < len implies (#[trigger] found[i])@ == find_spans(
                self.doc()[i].text(),
                param@,
            ) by {
                assert(texts(lines@)[i] == lines[i]@);
            }
        }
        let mut line = cursor.line_no;
        proof {
            assert(self.doc().len() == len);
        }
        while line < len
            invariant
                len == self.pgh_views.len(),
                self.doc().len() == len,
                found.len() == len,
                cursor == self.state.cursor2,
                cursor.line_no <= line,
                forall|i: int|
                    0 <= i < len ==> (#[trigger] found[i])@ == find_spans(
                        self.doc()[i].text(),
                        param@,
                    ),
                scan_forward(self.doc(), param@, cursor, line as int) == scan_forward(
                    self.doc(),
                    param@,
                    cursor,
                    cursor.line_no as int,
                ),
            decreases len - line,
        {
            let spans = &found[line];
            let pgh = &self.pgh_views[line];
            proof {
                assert(self.doc()[line as int] == pgh@);
            }
            let mut k: usize = 0;
            while k < spans.len()
                invariant
                    line < len,
                    self.doc().len() == len,
                    cursor == self.state.cursor2,
                    cursor.line_no <= line,
                    pgh@ == self.doc()[line as int],
                    spans@ == find_spans(self.doc()[line as int].text(), param@),
                    0 <= k <= spans.len(),
                    scan_forward(self.doc(), param@, cursor, line as int) == scan_forward(
                        self.doc(),
                        param@,
                        cursor,
                        cursor.line_no as int,
                    ),
                    first_after(pgh@, line, spans@, cursor, k as int) == first_after(
                        pgh@,
                        line,
                        spans@,
                        cursor,
                        0,
                    ),
                decreases spans.len() - k,
            {
                let start_cursor = pgh.text_byte_index_to_cursor(spans[k].0, line);
                let end_cursor = pgh.text_byte_index_to_cursor(spans[k].1, line);
                if end_cursor > cursor {
                    return Some((start_cursor, end_cursor));
                }
                k += 1;
            }
            line += 1;
        }
        let mut line: usize = 0;
        while line < len && line <= cursor.line_no
            invariant
                len == self.pgh_views.len(),
                self.doc().len() == len,
                found.len() == len,
                cursor == self.state.cursor2,
                find_next(self.doc(), param@, cursor) == scan_wrapped(self.doc(), param@, cursor, 0),
                forall|i: int|
                    0 <= i < len ==> (#[trigger] found[i])@ == find_spans(
                        self.doc()[i].text(),
                        param@,
                    ),
                scan_wrapped(self.doc(), param@, cursor, line as int) == scan_wrapped(
                    self.doc(),
                    param@,
                    cursor,
                    0,
                ),
            decreases len - line,
        {
            let spans = &found[line];
            let pgh = &self.pgh_views[line];
            proof {
                assert(self.doc()[line as int] == pgh@);
            }
            let mut k: usize = 0;
            while k < spans.len()
                invariant
                    line < len,
                    line <= cursor.line_no,
                    self.doc().len() == len,
                    cursor == self.state.cursor2,
                    pgh@ == self.doc()[line as int],
                    spans@ == find_spans(self.doc()[line as int].text(), param@),
                    0 <= k <= spans.len(),
                    find_next(self.doc(), param@, cursor) == scan_wrapped(
                        self.doc(),
                        param@,
                        cursor,
                        0,
                    ),
                    scan_wrapped(self.doc(), param@, cursor, line as int) == scan_wrapped(
                        self.doc(),
                        param@,
                        cursor,
                        0,
                    ),
                    first_before(pgh@, line, spans@, cursor, k as int) == first_before(
                        pgh@,
                        line,
                        spans@,
                        cursor,
                        0,
                    ),
                decreases spans.len() - k,
            {
                let start_cursor = pgh.text_byte_index_to_cursor(spans[k].0, line);
                let end_cursor = pgh.text_byte_index_to_cursor(spans[k].1, line);
                if start_cursor < cursor {
                    return Some((start_cursor, end_cursor));
                }
                k += 1;
            }
            line += 1;
        }
        None
    }

    /// Selects the next match, if the pattern is not empty and there is
    /// one, and says whether it did.
    pub fn find_and_select(&mut self, param: &FindReplaceCtx) -> (found: bool)
        ensures
            final(self).same_but_state(old(self)),
            ({
                let next = if param@.find.len() == 0 {
                    None
                } else {
                    find_next(old(self).doc(), param@, old(self).state.cursor2)
                };
                match next {
                    Some(m) => found && final(self).state == (State {
                        cursor1: m.0,
                        cursor2: m.1,
                        ..old(self).state
                    }),
                    None => !found && final(self).state == old(self).state,
                }
            }),
    {
        if param.find.as_str().is_empty() {
            return false;
        }
        match self.find_next_cursor(param) {
            Some((c1, c2)) => {
                self.state.cursor1 = c1;
                self.state.cursor2 = c2;
                true
            },
            None => false,
        }
    }

    /// The matches of a search in the lines from `from_line` up to but not
    /// `end_line`.
    #[verifier::rlimit(50)]
    pub fn find_all_func(
        &self,
        param: &FindReplaceCtx,
        need_text: bool,
        from_line: usize,
        end_line: usize,
    ) -> (r: FindCache)
        ensures
            r@ == doc_items(self.doc(), param@, need_text, from_line as int, end_line as int),
    {
        let lines = self.all_texts();
        let found = find_in_texts(&lines, param);
        let len = self.pgh_views.len();
        proof {
            assert(texts(lines@).len() == lines.len());
            assert forall|i: int| 0 <= i < len implies (#[trigger] found[i])@ == find_spans(
                self.doc()[i].text(),
                param@,
            ) by {
                assert(texts(lines@)[i] == lines[i]@);
            }
        }
        let mut out = FindCache::new();
        let stop = if end_line > len {
            len
        } else {
            end_line
        };
        let mut line = from_line;
        proof {
            assert(out@ =~= Seq::<FindItemModel>::empty());
            assert(self.doc().len() == len);
        }
        while line < stop
            invariant
                len == self.pgh_views.len(),
                self.doc().len() == len,
                found.len() == len,
                stop <= len,
                stop <= end_line,
                stop == end_line || stop == len,
                from_line <= line,
                line <= stop || line == from_line,
                forall|i: int|
                    0 <= i < len ==> (#[trigger] found[i])@ == find_spans(
                        self.doc()[i].text(),
                        param@,
                    ),
                out@ == doc_items(self.doc(), param@, need_text, from_line as int, line as int),
            decreases stop - line,
        {
            let spans = &found[line];
            let pgh = &self.pgh_views[line];
            let text = pgh.get_text();
            proof {
                assert(self.doc()[line as int] == pgh@);
            }
            let ghost before = out@;
            let mut k: usize = 0;
            while k < spans.len()
                invariant
                    line < len,
                    self.doc().len() == len,
                    pgh@ == self.doc()[line as int],
                    text@ == pgh@.text(),
                    0 <= k <= spans.len(),
                    out@ =~= before + line_items(pgh@, line, spans@, need_text, k as int),
                decreases spans.len() - k,
            {
                let ghost prev = out@;
                let item = FindCacheItem {
                    start: pgh.text_byte_index_to_cursor(spans[k].0, line),
                    end: pgh.text_byte_index_to_cursor(spans[k].1, line),
                    line_text: if need_text {
                        Some(text.clone())
                    } else {
                        None
                    },
                };
                out.cache.push(item);
                proof {
                    assert(out@ =~= prev.push(item@));
                }
                k += 1;
            }
            line += 1;
        }
        proof {
            if line < end_line {
                lemma_doc_items_past_end(
                    self.doc(),
                    param@,
                    need_text,
                    from_line as int,
                    line as int,
                    end_line as int,
                );
            }
        }
        out
    }

    /// Searches the whole document and keeps the matches and the settings.
    /// An empty pattern changes nothing.
    pub fn find_all(&mut self, param: &FindReplaceCtx)
        ensures
            final(self).pgh_views == old(self).pgh_views,
            final(self).do_mngr == old(self).do_mngr,
            final(self).state == old(self).state,
            final(self).same_cache == old(self).same_cache,
            final(self).cfg == old(self).cfg,
            if param@.find.len() == 0 {
                final(self).find_cache == old(self).find_cache && final(self).find_param == old(self).find_param
            } else {
                final(self).find_cache@ == doc_items(
                    old(self).doc(),
                    param@,
                    true,
                    0,
                    old(self).doc().len() as int,
                ) && final(self).find_param@ == param@
            },
    {
        if param.find.as_str().is_empty() {
            return ;
        }
        self.find_cache = self.find_all_func(param, true, 0, self.pgh_views.len());
        self.find_param = param.clone();
    }

    /// The matches of the last search of the whole document, and its
    /// settings.
    pub fn get_find_cache(&self) -> (r: (&FindCache, &FindReplaceCtx))
        ensures
            *r.0 == self.find_cache,
            *r.1 == self.find_param,
    {
        (&self.find_cache, &self.find_param)
    }

    /// Marks every place where the pattern of `param` occurs.
    pub fn flash_same_cache_with_param(&mut self, param: &FindReplaceCtx)
        ensures
            final(self).same_cache@ == doc_items(
                old(self).doc(),
                param@,
                false,
                0,
                old(self).doc().len() as int,
            ),
            final(self).pgh_views == old(self).pgh_views,
            final(self).do_mngr == old(self).do_mngr,
            final(self).state == old(self).state,
            final(self).cfg == old(self).cfg,
    {
        self.same_cache = self.find_all_func(param, false, 0, self.pgh_views.len());
    }
}

/// Lines past the end of the document add no matches.
pub proof fn lemma_doc_items_past_end(
    doc: Seq<PghModel>,
    cfg: FindModel,
    need_text: bool,
    from: int,
    stop: int,
    upto: int,
)
    requires
        0 <= from,
        doc.len() <= stop <= upto,
    ensures
        doc_items(doc, cfg, need_text, from, upto) == doc_items(doc, cfg, need_text, from, stop),
    decreases upto - stop,
{
    if stop < upto {
        lemma_doc_items_past_end(doc, cfg, need_text, from, stop, upto - 1);
    }
}

impl Ctx {
    /// Whether a byte range of a text stands between word boundaries.
    pub fn is_word_boundary(s: &str, r: &std::ops::Range<usize>) -> (b: bool)
        ensures
            b == crate::find::word_bounded(s@, r.start as int, r.end as int),
    {
        crate::find::is_word_boundary(s, r)
    }

    /// The matches of a search in one text.
    pub fn find_func(s: &str, param: &FindReplaceCtx) -> (r: Vec<std::ops::Range<usize>>)
        ensures
            crate::find::range_pairs(r@) == crate::find::find_spans(s@, param@),
    {
        crate::find::find_func(s, param)
    }
}

} // verus!
