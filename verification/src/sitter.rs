//! The languages that source code can be highlighted in.

use crate::strings::text_eq;
use vstd::prelude::*;
use vstd::string::*;

verus! {

/// The error of a highlighter that could not be set up or run.
#[derive(Debug)]
pub struct MyErr {}

/// The language that files with an extension are highlighted in.
pub open spec fn lang_of_ext(ext: Seq<char>) -> Option<Seq<char>> {
    if ext == "c"@ || ext == "cpp"@ {
        Some("c"@)
    } else if ext == "js"@ {
        Some("javascript"@)
    } else if ext == "rs"@ {
        Some("rust"@)
    } else if ext == "go"@ {
        Some("go"@)
    } else if ext == "sh"@ {
        Some("bash"@)
    } else if ext == "json"@ {
        Some("json"@)
    } else {
        None
    }
}

/// The names of the languages that can be chosen.
pub fn support_lang() -> (r: Vec<&'static str>)
    ensures
        r.len() == 6,
        r[0]@ == "C"@,
        r[1]@ == "Rust"@,
        r[2]@ == "Go"@,
        r[3]@ == "Bash"@,
        r[4]@ == "Json"@,
        r[5]@ == "JavaScript"@,
{
    let mut v: Vec<&'static str> = Vec::new();
    v.push("C");
    v.push("Rust");
    v.push("Go");
    v.push("Bash");
    v.push("Json");
    v.push("JavaScript");
    v
}

/// The language that files with the extension `lang` are highlighted in.
pub fn ext_to_lang(lang: &str) -> (r: Option<String>)
    ensures
        match r {
            Some(l) => lang_of_ext(lang@) == Some(l@),
            None => lang_of_ext(lang@) is None,
        },
{
    if text_eq(lang, "c") || text_eq(lang, "cpp") {
        Some(String::from_str("c"))
    } else if text_eq(lang, "js") {
        Some(String::from_str("javascript"))
    } else if text_eq(lang, "rs") {
        Some(String::from_str("rust"))
    } else if text_eq(lang, "go") {
        Some(String::from_str("go"))
    } else if text_eq(lang, "sh") {
        Some(String::from_str("bash"))
    } else if text_eq(lang, "json") {
        Some(String::from_str("json"))
    } else {
        None
    }
}

/// A colour by its parts of red, green and blue.
#[derive(Clone, Copy, PartialEq, Eq, Structural, Debug)]
pub struct Rgb {
    pub r: u8,
    pub g: u8,
    pub b: u8,
}

/// What a highlighter reports, in the order of the source: a piece of
/// source by its first byte and the byte behind its last, the start of a
/// highlight of some kind, or the end of the highlight last started.
#[derive(Clone, Copy, PartialEq, Eq, Structural, Debug)]
pub enum LightEvent {
    Source { start: usize, end: usize },
    HighlightStart(usize),
    HighlightEnd,
}

/// A piece of source with the kind of its highlight and its colours on
/// dark and on light ground.
#[derive(Clone, Copy, PartialEq, Eq, Structural, Debug)]
pub struct LightSlice {
    pub type_id: Option<usize>,
    pub start: usize,
    pub end: usize,
    pub dark_color: Rgb,
    pub light_color: Rgb,
}

/// The colour of text without highlight on dark ground.
pub open spec fn dark_text() -> Rgb {
    Rgb { r: 192, g: 192, b: 192 }
}

/// The colour of text without highlight on light ground.
pub open spec fn light_text() -> Rgb {
    Rgb { r: 0, g: 0, b: 0 }
}

/// The colour on light ground of the kinds of highlight: keyword,
/// operator, delimiter, string, constant, number, function, property,
/// label, type, variable and comment. Any other kind has the colour of
/// text.
pub open spec fn light_color_of(kind: usize) -> Rgb {
    if kind == 0 {
        Rgb { r: 0, g: 0, b: 200 }
    } else if kind == 1 {
        Rgb { r: 80, g: 80, b: 80 }
    } else if kind == 2 {
        Rgb { r: 100, g: 100, b: 100 }
    } else if kind == 3 {
        Rgb { r: 0, g: 150, b: 0 }
    } else if kind == 4 {
        Rgb { r: 200, g: 80, b: 0 }
    } else if kind == 5 {
        Rgb { r: 128, g: 0, b: 128 }
    } else if kind == 6 {
        Rgb { r: 139, g: 0, b: 139 }
    } else if kind == 7 {
        Rgb { r: 178, g: 34, b: 34 }
    } else if kind == 8 {
        Rgb { r: 0, g: 100, b: 100 }
    } else if kind == 9 {
        Rgb { r: 0, g: 128, b: 128 }
    } else if kind == 10 {
        Rgb { r: 139, g: 69, b: 19 }
    } else if kind == 11 {
        Rgb { r: 128, g: 128, b: 128 }
    } else {
        light_text()
    }
}

/// The colour on dark ground of the kinds of highlight.
pub open spec fn dark_color_of(kind: usize) -> Rgb {
    if kind == 0 {
        Rgb { r: 100, g: 200, b: 255 }
    } else if kind == 1 {
        Rgb { r: 180, g: 180, b: 180 }
    } else if kind == 2 {
        Rgb { r: 150, g: 150, b: 150 }
    } else if kind == 3 {
        Rgb { r: 100, g: 255, b: 100 }
    } else if kind == 4 {
        Rgb { r: 255, g: 160, b: 0 }
    } else if kind == 5 {
        Rgb { r: 200, g: 100, b: 255 }
    } else if kind == 6 {
        Rgb { r: 255, g: 105, b: 180 }
    } else if kind == 7 {
        Rgb { r: 255, g: 127, b: 80 }
    } else if kind == 8 {
        Rgb { r: 0, g: 255, b: 255 }
    } else if kind == 9 {
        Rgb { r: 0, g: 255, b: 200 }
    } else if kind == 10 {
        Rgb { r: 245, g: 222, b: 179 }
    } else if kind == 11 {
        Rgb { r: 150, g: 180, b: 150 }
    } else {
        dark_text()
    }
}

pub fn light_color(kind: usize) -> (c: Rgb)
    ensures
        c == light_color_of(kind),
{
    if kind == 0 {
        Rgb { r: 0, g: 0, b: 200 }
    } else if kind == 1 {
        Rgb { r: 80, g: 80, b: 80 }
    } else if kind == 2 {
        Rgb { r: 100, g: 100, b: 100 }
    } else if kind == 3 {
        Rgb { r: 0, g: 150, b: 0 }
    } else if kind == 4 {
        Rgb { r: 200, g: 80, b: 0 }
    } else if kind == 5 {
        Rgb { r: 128, g: 0, b: 128 }
    } else if kind == 6 {
        Rgb { r: 139, g: 0, b: 139 }
    } else if kind == 7 {
        Rgb { r: 178, g: 34, b: 34 }
    } else if kind == 8 {
        Rgb { r: 0, g: 100, b: 100 }
    } else if kind == 9 {
        Rgb { r: 0, g: 128, b: 128 }
    } else if kind == 10 {
        Rgb { r: 139, g: 69, b: 19 }
    } else if kind == 11 {
        Rgb { r: 128, g: 128, b: 128 }
    } else {
        Rgb { r: 0, g: 0, b: 0 }
    }
}

pub fn dark_color(kind: usize) -> (c: Rgb)
    ensures
        c == dark_color_of(kind),
{
    if kind == 0 {
        Rgb { r: 100, g: 200, b: 255 }
    } else if kind == 1 {
        Rgb { r: 180, g: 180, b: 180 }
    } else if kind == 2 {
        Rgb { r: 150, g: 150, b: 150 }
    } else if kind == 3 {
        Rgb { r: 100, g: 255, b: 100 }
    } else if kind == 4 {
        Rgb { r: 255, g: 160, b: 0 }
    } else if kind == 5 {
        Rgb { r: 200, g: 100, b: 255 }
    } else if kind == 6 {
        Rgb { r: 255, g: 105, b: 180 }
    } else if kind == 7 {
        Rgb { r: 255, g: 127, b: 80 }
    } else if kind == 8 {
        Rgb { r: 0, g: 255, b: 255 }
    } else if kind == 9 {
        Rgb { r: 0, g: 255, b: 200 }
    } else if kind == 10 {
        Rgb { r: 245, g: 222, b: 179 }
    } else if kind == 11 {
        Rgb { r: 150, g: 180, b: 150 }
    } else {
        Rgb { r: 192, g: 192, b: 192 }
    }
}

/// The kind of highlight in force after the first `n` events.
pub open spec fn kind_after(events: Seq<LightEvent>, n: int) -> Option<usize>
    decreases n,
{
    if n <= 0 || n > events.len() {
        None
    } else {
        match events[n - 1] {
            LightEvent::Source { .. } => kind_after(events, n - 1),
            LightEvent::HighlightStart(h) => Some(h),
            LightEvent::HighlightEnd => None,
        }
    }
}

/// A piece of source under a kind of highlight.
pub open spec fn slice_of(kind: Option<usize>, start: usize, end: usize) -> LightSlice {
    LightSlice {
        type_id: kind,
        start,
        end,
        dark_color: match kind {
            Some(h) => dark_color_of(h),
            None => dark_text(),
        },
        light_color: match kind {
            Some(h) => light_color_of(h),
            None => light_text(),
        },
    }
}

/// The pieces of source that the first `n` events report, each under
/// the kind of highlight in force where it is reported.
pub open spec fn slices_of(events: Seq<LightEvent>, n: int) -> Seq<LightSlice>
    decreases n,
{
    if n <= 0 || n > events.len() {
        Seq::empty()
    } else {
        match events[n - 1] {
            LightEvent::Source { start, end } => slices_of(events, n - 1).push(
                slice_of(kind_after(events, n - 1), start, end),
            ),
            _ => slices_of(events, n - 1),
        }
    }
}

/// The pieces of source that a highlighter's events report.
pub fn highlight(events: &Vec<LightEvent>) -> (v: Vec<LightSlice>)
    ensures
        v@ == slices_of(events@, events.len() as int),
{
    let mut v: Vec<LightSlice> = Vec::new();
    let mut type_id: Option<usize> = None;
    let mut i: usize = 0;
    while i < events.len()
        invariant
            0 <= i <= events.len(),
            type_id == kind_after(events@, i as int),
            v@ == slices_of(events@, i as int),
        decreases events.len() - i,
    {
        match events[i] {
            LightEvent::Source { start, end } => {
                let (dark, light) = match type_id {
                    Some(h) => (dark_color(h), light_color(h)),
                    None => (Rgb { r: 192, g: 192, b: 192 }, Rgb { r: 0, g: 0, b: 0 }),
                };
                v.push(LightSlice { type_id, start, end, dark_color: dark, light_color: light });
            },
            LightEvent::HighlightStart(h) => {
                type_id = Some(h);
            },
            LightEvent::HighlightEnd => {
                type_id = None;
            },
        }
        i += 1;
    }
    v
}

/// The lines of source after the pieces of slice `s` from byte `at` on
/// are put behind `lines`, whose last line is still open: a piece runs
/// up to the next line feed, which closes the line, or to the end of the
/// slice; empty pieces are left out.
pub open spec fn with_slice(
    lines: Seq<Seq<LightSlice>>,
    s: LightSlice,
    source: Seq<u8>,
    from: int,
    at: int,
) -> Seq<Seq<LightSlice>>
    decreases s.end - at,
{
    if lines.len() == 0 || at < from || at > s.end || s.end > source.len() || from < 0 {
        lines
    } else {
        let piece = LightSlice { start: from as usize, end: at as usize, ..s };
        let open = if from < at {
            lines.update(lines.len() - 1, lines.last().push(piece))
        } else {
            lines
        };
        if at == s.end {
            open
        } else if source[at] == 10 {
            with_slice(open.push(Seq::empty()), s, source, at + 1, at + 1)
        } else {
            with_slice(lines, s, source, from, at + 1)
        }
    }
}

/// The lines of source after the first `n` slices are cut at the line
/// feeds. Slices that do not lie in the source are left out.
pub open spec fn lines_of(slices: Seq<LightSlice>, source: Seq<u8>, n: int) -> Seq<Seq<LightSlice>>
    decreases n,
{
    if n <= 0 || n > slices.len() {
        seq![Seq::empty()]
    } else {
        let s = slices[n - 1];
        let before = lines_of(slices, source, n - 1);
        if s.start <= s.end <= source.len() {
            with_slice(before, s, source, s.start as int, s.start as int)
        } else {
            before
        }
    }
}

/// The pieces of highlighted source line by line: each slice is cut at
/// the line feeds of the source.
pub fn highlight_lines(slices: &Vec<LightSlice>, source: &[u8]) -> (lines: Vec<Vec<LightSlice>>)
    ensures
        lines.len() >= 1,
        Seq::new(lines.len() as nat, |i: int| lines[i]@) == lines_of(
            slices@,
            source@,
            slices.len() as int,
        ),
{
    let mut lines: Vec<Vec<LightSlice>> = Vec::new();
    let mut line: Vec<LightSlice> = Vec::new();
    let ghost mut done: Seq<Seq<LightSlice>> = Seq::empty();
    let mut i: usize = 0;
    while i < slices.len()
        invariant
            0 <= i <= slices.len(),
            done == Seq::new(lines.len() as nat, |k: int| lines[k]@),
            done.push(line@) == lines_of(slices@, source@, i as int),
        decreases slices.len() - i,
    {
        let s = slices[i];
        if s.start <= s.end && s.end <= source.len() {
            let mut from = s.start;
            let mut at = s.start;
            loop
                invariant_except_break
                    with_slice(done.push(line@), s, source@, from as int, at as int) == lines_of(
                        slices@,
                        source@,
                        i + 1,
                    ),
                invariant
                    s == slices[i as int],
                    s.start <= from <= at <= s.end <= source.len(),
                    done == Seq::new(lines.len() as nat, |k: int| lines[k]@),
                ensures
                    done.push(line@) == lines_of(slices@, source@, i + 1),
                decreases s.end - at,
            {
                let ghost open_before = done.push(line@);
                if at == s.end || source[at] == 10 {
                    if from < at {
                        line.push(
                            LightSlice {
                                type_id: s.type_id,
                                start: from,
                                end: at,
                                dark_color: s.dark_color,
                                light_color: s.light_color,
                            },
                        );
                    }
                    proof {
                        assert(done.push(line@) =~= (if from < at {
                            open_before.update(
                                open_before.len() - 1,
                                open_before.last().push(
                                    LightSlice { start: from, end: at, ..s },
                                ),
                            )
                        } else {
                            open_before
                        }));
                    }
                    if at == s.end {
                        break ;
                    }
                    let ghost closed = done.push(line@);
                    lines.push(line);
                    line = Vec::new();
                    proof {
                        done = closed;
                        assert(done =~= Seq::new(lines.len() as nat, |k: int| lines[k]@));
                        assert(done.push(line@) =~= closed.push(Seq::empty()));
                    }
                    at += 1;
                    from = at;
                } else {
                    at += 1;
                }
            }
        }
        i += 1;
    }
    let ghost all = done.push(line@);
    lines.push(line);
    proof {
        assert(all =~= Seq::new(lines.len() as nat, |k: int| lines[k]@));
    }
    lines
}

} // verus!
