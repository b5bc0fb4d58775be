//! Searching a text: plainly, without regard to case, by regular
//! expression, and for whole words only.

use crate::cmd::{FindModel, FindReplaceCtx};
use crate::pgh_select::{byte_column, chars_within, utf8_size};
use crate::regex_call::{regex_find_all, regex_spans, regex_valid};
use crate::strings::chars_of;
use std::ops::Range;
use vstd::prelude::*;
use vstd::slice::*;
use vstd::string::*;
use vstd::utf8::encode_utf8;

verus! {

/// Whether a character has the Unicode property White_Space: the
/// controls from tab to carriage return, the space, next line, the
/// no-break space, the ogham space mark, the spaces from en quad to hair
/// space, the line and paragraph separators, the narrow no-break space,
/// the medium mathematical space and the ideographic space.
pub open spec fn is_white_space(c: char) -> bool {
    let v = c as u32;
    (0x09 <= v <= 0x0D) || v == 0x20 || v == 0x85 || v == 0xA0 || v == 0x1680 || (0x2000 <= v
        <= 0x200A) || v == 0x2028 || v == 0x2029 || v == 0x202F || v == 0x205F || v == 0x3000
}

/// A text with its letters turned to lower case.
pub uninterp spec fn lowercase_of(text: Seq<char>) -> Seq<char>;

/// Whether a character is white space.
pub fn char_is_whitespace(c: char) -> (b: bool)
    ensures
        b == is_white_space(c),
{
    let v: u32 = c as u32;
    (0x09 <= v && v <= 0x0D) || v == 0x20 || v == 0x85 || v == 0xA0 || v == 0x1680 || (0x2000
        <= v && v <= 0x200A) || v == 0x2028 || v == 0x2029 || v == 0x202F || v == 0x205F || v
        == 0x3000
}

/// `str::to_lowercase` of the standard library. Nothing is proved of it;
/// the result is named `lowercase_of`.
#[verifier::external_body]
pub(crate) fn to_lowercase(s: &str) -> (r: String)
    ensures
        r@ == lowercase_of(s@),
{
    s.to_lowercase()
}

/// Whether a character is ASCII punctuation: one of
/// ``! " # $ % & ' ( ) * + , - . /``, ``: ; < = > ? @``, ``[ \ ] ^ _ ` ``
/// and ``{ | } ~``.
pub open spec fn is_ascii_punctuation(c: char) -> bool {
    let v = c as u32;
    (0x21 <= v <= 0x2F) || (0x3A <= v <= 0x40) || (0x5B <= v <= 0x60) || (0x7B <= v <= 0x7E)
}

/// Whether a character parts words: white space, or ASCII punctuation
/// other than the underscore.
pub open spec fn is_separator(c: char) -> bool {
    is_white_space(c) || (is_ascii_punctuation(c) && c != '_')
}

/// Whether the bytes from `start` up to `end` of a text stand between
/// word boundaries. Each end is a boundary if it is an end of the text or
/// if the character next to it outside the range parts words. A range that
/// does not lie in the text has no boundaries. For a text of ASCII
/// characters `lemma_word_bounded_ascii` says the same over characters.
pub open spec fn word_bounded(t: Seq<char>, start: int, end: int) -> bool {
    let len = utf8_size(t);
    if start < 0 || start > len || end > len || start > end {
        false
    } else {
        (start == 0 || is_separator(t[chars_within(t, start - 1)])) && (end == len || is_separator(
            t[chars_within(t, end)],
        ))
    }
}

/// Whether every character of a text is an ASCII character.
pub open spec fn all_ascii(t: Seq<char>) -> bool {
    forall|i: int| 0 <= i < t.len() ==> (#[trigger] t[i]) as u32 <= 0x7F
}

/// In a text of ASCII characters bytes and characters count alike: the
/// text takes as many bytes as it has characters, and within the first
/// `bytes` bytes end that many characters, at most all.
pub proof fn lemma_ascii_offsets(t: Seq<char>, bytes: int)
    requires
        all_ascii(t),
        0 <= bytes,
    ensures
        utf8_size(t) == t.len(),
        chars_within(t, bytes) == (if bytes <= t.len() {
            bytes
        } else {
            t.len() as int
        }),
    decreases t.len(),
{
    if t.len() > 0 {
        let rest = t.drop_first();
        assert forall|i: int| 0 <= i < rest.len() implies (#[trigger] rest[i]) as u32 <= 0x7F by {
            assert(rest[i] == t[i + 1]);
        }
        assert(encode_utf8(t) =~= vstd::utf8::encode_scalar(t[0] as u32) + encode_utf8(rest));
        assert(vstd::utf8::encode_scalar(t[0] as u32).len() == 1);
        lemma_ascii_offsets(rest, 0);
        if bytes >= 1 {
            lemma_ascii_offsets(rest, bytes - 1);
        }
    } else {
        assert(encode_utf8(t) =~= Seq::<u8>::empty());
    }
}

/// In a text of ASCII characters a range stands between word boundaries
/// if and only if it lies in the text and, at each of its ends, the text
/// ends or the character next to the range parts words.
pub proof fn lemma_word_bounded_ascii(t: Seq<char>, start: int, end: int)
    requires
        all_ascii(t),
    ensures
        word_bounded(t, start, end) == (0 <= start <= end <= t.len() && (start == 0
            || is_separator(t[start - 1])) && (end == t.len() || is_separator(t[end]))),
{
    lemma_ascii_offsets(t, 0);
    if 0 < start <= t.len() {
        lemma_ascii_offsets(t, start - 1);
    }
    if 0 <= end <= t.len() {
        lemma_ascii_offsets(t, end);
    }
}

/// Whether `needle` stands in `hay` at position `i`.
pub open spec fn occurs_at(hay: Seq<u8>, needle: Seq<u8>, i: int) -> bool {
    0 <= i && i + needle.len() <= hay.len() && hay.subrange(i, i + needle.len()) == needle
}

/// The occurrences of `needle` in `hay` from position `from` on, found
/// from left to right, each search going on behind the occurrence before.
/// An empty needle occurs nowhere.
pub open spec fn literal_spans(hay: Seq<u8>, needle: Seq<u8>, from: int) -> Seq<(usize, usize)>
    decreases hay.len() - from,
{
    if needle.len() == 0 || from < 0 || from + needle.len() > hay.len() {
        Seq::empty()
    } else if occurs_at(hay, needle, from) {
        seq![(from as usize, (from + needle.len()) as usize)] + literal_spans(
            hay,
            needle,
            from + needle.len(),
        )
    } else {
        literal_spans(hay, needle, from + 1)
    }
}

/// Of the first `n` spans, those that stand between word boundaries of
/// `t`.
pub open spec fn word_bounded_spans(spans: Seq<(usize, usize)>, t: Seq<char>, n: int) -> Seq<
    (usize, usize),
>
    decreases n,
{
    if n <= 0 || n > spans.len() {
        Seq::empty()
    } else {
        let rest = word_bounded_spans(spans, t, n - 1);
        if word_bounded(t, spans[n - 1].0 as int, spans[n - 1].1 as int) {
            rest.push(spans[n - 1])
        } else {
            rest
        }
    }
}

/// The matches of a search in a text before whole words are asked for.
/// By regular expression they are the matches of the checked pattern, none
/// without one or where it does not compile. A plain search finds the occurrences of the pattern's
/// bytes, in the text as it is or, without regard to case, of the pattern
/// in lower case in the text in lower case.
pub open spec fn raw_spans(t: Seq<char>, cfg: FindModel) -> Seq<(usize, usize)> {
    if cfg.is_reg {
        match cfg.regex {
            Some(plan) => if regex_valid(plan.0, plan.1) {
                regex_spans(plan.0, plan.1, t)
            } else {
                Seq::empty()
            },
            None => Seq::empty(),
        }
    } else if cfg.is_case {
        literal_spans(encode_utf8(t), encode_utf8(cfg.find), 0)
    } else {
        literal_spans(encode_utf8(lowercase_of(t)), encode_utf8(lowercase_of(cfg.find)), 0)
    }
}

/// The matches of a search in a text, as byte ranges in the order found.
pub open spec fn find_spans(t: Seq<char>, cfg: FindModel) -> Seq<(usize, usize)> {
    let raw = raw_spans(t, cfg);
    if cfg.is_hole_word {
        word_bounded_spans(raw, t, raw.len() as int)
    } else {
        raw
    }
}

/// The byte ranges of a sequence of ranges.
pub open spec fn range_pairs(v: Seq<Range<usize>>) -> Seq<(usize, usize)> {
    Seq::new(v.len(), |i: int| (v[i].start, v[i].end))
}

pub fn char_is_ascii_punctuation(c: char) -> (b: bool)
    ensures
        b == is_ascii_punctuation(c),
{
    let v = c as u32;
    (0x21 <= v && v <= 0x2F) || (0x3A <= v && v <= 0x40) || (0x5B <= v && v <= 0x60) || (0x7B <= v
        && v <= 0x7E)
}

pub fn char_is_separator(c: char) -> (b: bool)
    ensures
        b == is_separator(c),
{
    char_is_whitespace(c) || (char_is_ascii_punctuation(c) && c != '_')
}

/// Whether the bytes from `start` up to `end` of a text stand between
/// word boundaries.
pub fn is_word_bounded(s: &str, start: usize, end: usize) -> (b: bool)
    ensures
        b == word_bounded(s@, start as int, end as int),
{
    let len = s.as_bytes().len();
    proof {
        assert(s.spec_bytes() == encode_utf8(s@));
        assert(len == utf8_size(s@));
    }
    if start > len || end > len || start > end {
        return false;
    }
    let chars = chars_of(s);
    let start_ok = if start == 0 {
        true
    } else {
        let at = byte_column(s, start - 1);
        char_is_separator(chars[at.0])
    };
    if !start_ok {
        return false;
    }
    if end == len {
        true
    } else {
        let at = byte_column(s, end);
        char_is_separator(chars[at.0])
    }
}

/// Whether `needle` stands in `hay` at position `i`.
fn bytes_occur_at(hay: &[u8], needle: &[u8], i: usize) -> (b: bool)
    requires
        i + needle.len() <= hay.len(),
    ensures
        b == occurs_at(hay@, needle@, i as int),
{
    let n = needle.len();
    let mut k: usize = 0;
    while k < n
        invariant
            n == needle.len(),
            i + n <= hay.len(),
            0 <= k <= n,
            forall|j: int| 0 <= j < k ==> hay@[i + j] == needle@[j],
        decreases n - k,
    {
        if hay[i + k] != needle[k] {
            proof {
                assert(hay@.subrange(i as int, i + n)[k as int] == hay@[i + k]);
            }
            return false;
        }
        k += 1;
    }
    proof {
        assert(hay@.subrange(i as int, i + n) =~= needle@);
    }
    true
}

/// The occurrences of `needle` in `hay`, from left to right.
pub fn find_bytes(hay: &[u8], needle: &[u8]) -> (r: Vec<(usize, usize)>)
    ensures
        r@ == literal_spans(hay@, needle@, 0),
{
    let n = needle.len();
    let mut out: Vec<(usize, usize)> = Vec::new();
    if n == 0 || n > hay.len() {
        return out;
    }
    let mut i: usize = 0;
    proof {
        assert(out@ + literal_spans(hay@, needle@, 0) =~= literal_spans(hay@, needle@, 0));
    }
    while i <= hay.len() - n
        invariant
            n == needle.len(),
            0 < n <= hay.len(),
            0 <= i <= hay.len(),
            out@ + literal_spans(hay@, needle@, i as int) == literal_spans(hay@, needle@, 0),
        decreases hay.len() - i,
    {
        if bytes_occur_at(hay, needle, i) {
            proof {
                assert(out@.push((i, (i + n) as usize)) + literal_spans(hay@, needle@, i + n)
                    =~= out@ + literal_spans(hay@, needle@, i as int));
            }
            out.push((i, i + n));
            i += n;
        } else {
            i += 1;
        }
    }
    proof {
        assert(out@ + Seq::<(usize, usize)>::empty() =~= out@);
    }
    out
}

/// Of the spans, those that stand between word boundaries of `s`.
pub fn keep_word_bounded(spans: &Vec<(usize, usize)>, s: &str) -> (r: Vec<(usize, usize)>)
    ensures
        r@ == word_bounded_spans(spans@, s@, spans.len() as int),
{
    let mut out: Vec<(usize, usize)> = Vec::new();
    let mut i: usize = 0;
    while i < spans.len()
        invariant
            0 <= i <= spans.len(),
            out@ == word_bounded_spans(spans@, s@, i as int),
        decreases spans.len() - i,
    {
        if is_word_bounded(s, spans[i].0, spans[i].1) {
            out.push(spans[i]);
        }
        i += 1;
    }
    out
}

/// The matches of a search in each of the texts.
pub fn find_in_texts(lines: &Vec<String>, param: &FindReplaceCtx) -> (r: Vec<Vec<(usize, usize)>>)
    ensures
        r.len() == lines.len(),
        forall|i: int| 0 <= i < lines.len() ==> (#[trigger] r[i])@ == find_spans(lines[i]@, param@),
{
    let mut out: Vec<Vec<(usize, usize)>> = Vec::new();
    let found = if param.is_reg {
        match &param.regex {
            Some(plan) => regex_find_all(plan.pattern.as_str(), plan.case_insensitive, lines),
            None => None,
        }
    } else {
        None
    };
    let needle = if param.is_case {
        param.find.clone()
    } else {
        to_lowercase(param.find.as_str())
    };
    let needle_bytes = needle.as_str().as_bytes();
    let mut i: usize = 0;
    while i < lines.len()
        invariant
            0 <= i <= lines.len(),
            out.len() == i,
            needle_bytes@ == encode_utf8(needle@),
            needle@ == (if param.is_case {
                param.find@
            } else {
                lowercase_of(param.find@)
            }),
            found is None && param.is_reg ==> (param@.regex matches Some(plan) ==> !regex_valid(
                plan.0,
                plan.1,
            )),
            found matches Some(f) ==> f.len() == lines.len() && param.is_reg && (
            param@.regex matches Some(plan) && regex_valid(plan.0, plan.1) && forall|k: int|
                0 <= k < lines.len() ==> (#[trigger] f[k])@ == regex_spans(
                    plan.0,
                    plan.1,
                    lines[k]@,
                )),
            forall|k: int| 0 <= k < i ==> (#[trigger] out[k])@ == find_spans(lines[k]@, param@),
        decreases lines.len() - i,
    {
        let line = lines[i].as_str();
        let raw: Vec<(usize, usize)> = if param.is_reg {
            match &found {
                Some(f) => copy_spans(&f[i]),
                None => Vec::new(),
            }
        } else if param.is_case {
            find_bytes(line.as_bytes(), needle_bytes)
        } else {
            let lower = to_lowercase(line);
            let lower_str = lower.as_str();
            proof {
                assert(lower_str.spec_bytes() == encode_utf8(lower@));
            }
            find_bytes(lower_str.as_bytes(), needle_bytes)
        };
        proof {
            assert(line@ == lines[i as int]@);
            assert(line.spec_bytes() == encode_utf8(line@));
            assert(raw@ == raw_spans(lines[i as int]@, param@));
        }
        let kept = if param.is_hole_word {
            keep_word_bounded(&raw, line)
        } else {
            raw
        };
        proof {
            assert(kept@ == find_spans(lines[i as int]@, param@));
        }
        out.push(kept);
        i += 1;
    }
    out
}

fn copy_spans(v: &Vec<(usize, usize)>) -> (r: Vec<(usize, usize)>)
    ensures
        r@ == v@,
{
    let mut out: Vec<(usize, usize)> = Vec::new();
    let mut i: usize = 0;
    while i < v.len()
        invariant
            0 <= i <= v.len(),
            out@ == v@.take(i as int),
        decreases v.len() - i,
    {
        out.push(v[i]);
        proof {
            assert(v@.take(i + 1) =~= v@.take(i as int).push(v@[i as int]));
        }
        i += 1;
    }
    proof {
        assert(v@.take(v.len() as int) =~= v@);
    }
    out
}

/// The matches of a search in one text.
pub fn find_func(s: &str, param: &FindReplaceCtx) -> (r: Vec<Range<usize>>)
    ensures
        range_pairs(r@) == find_spans(s@, param@),
{
    let mut lines: Vec<String> = Vec::new();
    lines.push(String::from_str(s));
    let found = find_in_texts(&lines, param);
    let spans = &found[0];
    let mut out: Vec<Range<usize>> = Vec::new();
    let mut i: usize = 0;
    while i < spans.len()
        invariant
            0 <= i <= spans.len(),
            range_pairs(out@) =~= spans@.take(i as int),
        decreases spans.len() - i,
    {
        proof {
            let r = Range { start: spans[i as int].0, end: spans[i as int].1 };
            assert(range_pairs(out@.push(r)) =~= range_pairs(out@).push(spans@[i as int]));
            assert(spans@.take(i + 1) =~= spans@.take(i as int).push(spans@[i as int]));
        }
        out.push(Range { start: spans[i].0, end: spans[i].1 });
        i += 1;
    }
    proof {
        assert(spans@.take(spans.len() as int) =~= spans@);
    }
    out
}

/// Whether a byte range of a text stands between word boundaries.
pub fn is_word_boundary(s: &str, r: &Range<usize>) -> (b: bool)
    ensures
        b == word_bounded(s@, r.start as int, r.end as int),
{
    is_word_bounded(s, r.start, r.end)
}

} // verus!
