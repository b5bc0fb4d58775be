//! What the store of open documents decides and computes between reading
//! and writing files: how a name is opened, which line a request goes to,
//! and how the text of a note changes when a link is added, renamed or
//! removed.

use crate::find::{char_is_whitespace, is_white_space};
use crate::strings::{
    chars_of, concat_all, join_texts, join_with, split_on, split_text, text_concat, text_contains,
    text_eq, text_range, texts,
};
use vstd::prelude::*;
use vstd::string::*;

verus! {

/// How a name is opened.
#[derive(Debug)]
pub enum OpenKind {
    /// The empty name and the name of the root: nothing is opened.
    Nothing,
    /// A file of the file system, under its path with slashes.
    File(String),
    /// A note of the note space.
    Note,
}

/// A text with slashes for backslashes.
pub open spec fn with_slashes(t: Seq<char>) -> Seq<char> {
    join_with(split_on(t, '\\'), "/"@)
}

/// How the name `name` is opened.
pub fn open_kind(name: &str) -> (r: OpenKind)
    ensures
        match r {
            OpenKind::Nothing => name@.len() == 0 || name@ == "."@,
            OpenKind::File(path) => !(name@.len() == 0 || name@ == "."@) && (name@.contains('/')
                || name@.contains('\\')) && path@ == with_slashes(name@),
            OpenKind::Note => !(name@.len() == 0 || name@ == "."@) && !(name@.contains('/')
                || name@.contains('\\')),
        },
{
    if name.is_empty() || text_eq(name, ".") {
        OpenKind::Nothing
    } else if text_contains(name, '/') || text_contains(name, '\\') {
        let pieces = split_text(name, '\\');
        OpenKind::File(join_texts(&pieces, "/"))
    } else {
        OpenKind::Note
    }
}

/// The value of a decimal digit.
pub open spec fn digit_value(c: char) -> Option<int> {
    if '0' <= c <= '9' {
        Some(c as int - '0' as int)
    } else {
        None
    }
}

/// The number that the first `n` characters spell in decimal digits, or
/// `None` where one of them is no digit or the number is greater than
/// `max`.
pub open spec fn decimal_value(t: Seq<char>, n: int, max: int) -> Option<int>
    decreases n,
{
    if n <= 0 || n > t.len() {
        Some(0)
    } else {
        match (decimal_value(t, n - 1, max), digit_value(t[n - 1])) {
            (Some(v), Some(d)) => if v * 10 + d <= max {
                Some(v * 10 + d)
            } else {
                None
            },
            _ => None,
        }
    }
}

/// The number that a text spells: decimal digits, at least one, with a
/// plus sign before them or without.
pub open spec fn number_of(t: Seq<char>) -> Option<int> {
    let digits = if t.len() > 0 && t[0] == '+' {
        t.skip(1)
    } else {
        t
    };
    if digits.len() == 0 {
        None
    } else {
        decimal_value(digits, digits.len() as int, usize::MAX as int)
    }
}

/// The number that a text spells, if it spells one that can be held.
#[verifier::rlimit(50)]
pub fn parse_number(s: &str) -> (r: Option<usize>)
    ensures
        match r {
            Some(n) => number_of(s@) == Some(n as int),
            None => number_of(s@) is None,
        },
{
    let chars = chars_of(s);
    let start: usize = if chars.len() > 0 && chars[0] == '+' {
        1
    } else {
        0
    };
    if chars.len() == start {
        return None;
    }
    let ghost digits = s@.skip(start as int);
    let mut value: usize = 0;
    let mut i: usize = start;
    proof {
        assert(s@.skip(0) =~= s@);
        assert(digits.len() == chars.len() - start);
        assert(number_of(s@) == decimal_value(digits, digits.len() as int, usize::MAX as int));
    }
    while i < chars.len()
        invariant
            chars@ == s@,
            start <= i <= chars.len(),
            start <= 1,
            digits == s@.skip(start as int),
            digits.len() == chars.len() - start,
            number_of(s@) == decimal_value(digits, digits.len() as int, usize::MAX as int),
            decimal_value(digits, i - start, usize::MAX as int) == Some(value as int),
        decreases chars.len() - i,
    {
        let c = chars[i];
        proof {
            assert(digits[i - start] == c);
        }
        if c < '0' || c > '9' {
            proof {
                assert(digit_value(c) is None);
                assert(decimal_value(digits, i - start + 1, usize::MAX as int) is None);
                lemma_decimal_fails(digits, i - start + 1, digits.len() as int, usize::MAX as int);
            }
            return None;
        }
        let d = (c as u32 - '0' as u32) as usize;
        if value > (usize::MAX - d) / 10 {
            proof {
                assert(value * 10 + d > usize::MAX) by (nonlinear_arith)
                    requires
                        value > (usize::MAX - d) / 10,
                        d < 10,
                ;
                assert(digit_value(c) == Some(d as int));
                assert(decimal_value(digits, i - start + 1, usize::MAX as int) is None);
                lemma_decimal_fails(digits, i - start + 1, digits.len() as int, usize::MAX as int);
            }
            return None;
        }
        proof {
            assert(value * 10 + d <= usize::MAX) by (nonlinear_arith)
                requires
                    value <= (usize::MAX - d) / 10,
                    d < 10,
            ;
        }
        proof {
            assert(digit_value(c) == Some(d as int));
        }
        value = value * 10 + d;
        i += 1;
    }
    Some(value)
}

/// Once the digits fail to spell a number, more digits do not help.
pub proof fn lemma_decimal_fails(t: Seq<char>, n: int, m: int, max: int)
    requires
        0 <= n <= m <= t.len(),
        decimal_value(t, n, max) is None,
    ensures
        decimal_value(t, m, max) is None,
    decreases m - n,
{
    if n < m {
        lemma_decimal_fails(t, n, m - 1, max);
    }
}

/// The position of the first character from `i` on that is no white
/// space.
pub open spec fn skip_space(t: Seq<char>, i: int) -> int
    decreases t.len() - i,
{
    if 0 <= i < t.len() && is_white_space(t[i]) {
        skip_space(t, i + 1)
    } else {
        i
    }
}

/// The position behind the last character before `i` that is no white
/// space, at least `lo`.
pub open spec fn skip_space_back(t: Seq<char>, lo: int, i: int) -> int
    decreases i - lo,
{
    if lo < i <= t.len() && is_white_space(t[i - 1]) {
        skip_space_back(t, lo, i - 1)
    } else {
        i
    }
}

/// A text without the white space at its ends.
pub open spec fn trimmed(t: Seq<char>) -> Seq<char> {
    let lo = skip_space(t, 0);
    let hi = skip_space_back(t, lo, t.len() as int);
    if lo <= hi <= t.len() {
        t.subrange(lo, hi)
    } else {
        Seq::empty()
    }
}

/// The line that a request by text goes to: the text starts, after
/// white space, with the number of the line, counted from 1, and a blank
/// or the end follows the number.
pub open spec fn requested_line(line_text: Seq<char>) -> Option<int> {
    match number_of(split_on(trimmed(line_text), ' ')[0]) {
        Some(n) => if n > 0 {
            Some(n - 1)
        } else {
            None
        },
        None => None,
    }
}

/// A text without the white space at its ends.
pub fn trim_text(s: &str) -> (r: String)
    ensures
        r@ == trimmed(s@),
{
    let chars = chars_of(s);
    let mut lo: usize = 0;
    while lo < chars.len() && char_is_whitespace(chars[lo])
        invariant
            chars@ == s@,
            0 <= lo <= chars.len(),
            skip_space(s@, lo as int) == skip_space(s@, 0),
        decreases chars.len() - lo,
    {
        lo += 1;
    }
    let mut hi: usize = chars.len();
    while hi > lo && char_is_whitespace(chars[hi - 1])
        invariant
            chars@ == s@,
            lo <= hi <= chars.len(),
            skip_space_back(s@, lo as int, hi as int) == skip_space_back(
                s@,
                lo as int,
                s@.len() as int,
            ),
        decreases hi - lo,
    {
        hi -= 1;
    }
    text_range(s, lo, hi)
}

/// The line that a request by text goes to.
pub fn goto_line(line_text: &str) -> (r: Option<usize>)
    ensures
        match r {
            Some(n) => requested_line(line_text@) == Some(n as int),
            None => requested_line(line_text@) is None,
        },
{
    let trimmed = trim_text(line_text);
    let arr = split_text(trimmed.as_str(), ' ');
    proof {
        assert(texts(arr@)[0] == arr@[0]@);
    }
    match parse_number(arr[0].as_str()) {
        Some(no) => if no > 0 {
            Some(no - 1)
        } else {
            None
        },
        None => None,
    }
}

/// Text `t` from position `i` on with every occurrence of `from`
/// replaced by `to`, found from left to right, each search going on
/// behind the occurrence before. An empty `from` occurs nowhere.
pub open spec fn replaced_from(t: Seq<char>, from: Seq<char>, to: Seq<char>, i: int) -> Seq<char>
    decreases t.len() - i,
{
    if i < 0 || i >= t.len() {
        Seq::empty()
    } else if from.len() == 0 || i + from.len() > t.len() {
        t.skip(i)
    } else if t.subrange(i, i + from.len()) == from {
        to + replaced_from(t, from, to, i + from.len())
    } else {
        seq![t[i]] + replaced_from(t, from, to, i + 1)
    }
}

/// Text `t` with every occurrence of `from` replaced by `to`.
pub open spec fn replaced(t: Seq<char>, from: Seq<char>, to: Seq<char>) -> Seq<char> {
    replaced_from(t, from, to, 0)
}

/// Whether `from` stands in `t` at position `i`.
fn chars_occur_at(t: &Vec<char>, from: &Vec<char>, i: usize) -> (b: bool)
    requires
        i + from.len() <= t.len(),
    ensures
        b == (t@.subrange(i as int, i + from.len()) == from@),
{
    let n = from.len();
    let mut k: usize = 0;
    while k < n
        invariant
            n == from.len(),
            i + n <= t.len(),
            0 <= k <= n,
            forall|j: int| 0 <= j < k ==> t@[i + j] == from@[j],
        decreases n - k,
    {
        if t[i + k] != from[k] {
            proof {
                assert(t@.subrange(i as int, i + n)[k as int] == t@[i + k]);
            }
            return false;
        }
        k += 1;
    }
    proof {
        assert(t@.subrange(i as int, i + n) =~= from@);
    }
    true
}

/// The text with every occurrence of `from` replaced by `to`.
#[verifier::rlimit(50)]
pub fn replace_text(text: &str, from: &str, to: &str) -> (r: String)
    ensures
        r@ == replaced(text@, from@, to@),
{
    let t = chars_of(text);
    let f = chars_of(from);
    let n = f.len();
    let len = t.len();
    if n == 0 || n > len {
        proof {
            assert(text@.skip(0) =~= text@);
        }
        return String::from_str(text);
    }
    let mut out = String::new();
    let mut start: usize = 0;
    let mut i: usize = 0;
    proof {
        assert(out@ + text@.subrange(0, 0) + replaced_from(text@, from@, to@, 0) =~= replaced(
            text@,
            from@,
            to@,
        ));
    }
    while i <= len - n
        invariant
            t@ == text@,
            f@ == from@,
            n == f.len(),
            len == t.len(),
            0 < n <= len,
            0 <= start <= i <= len,
            out@ + text@.subrange(start as int, i as int) + replaced_from(
                text@,
                from@,
                to@,
                i as int,
            ) == replaced(text@, from@, to@),
        decreases len - i,
    {
        if chars_occur_at(&t, &f, i) {
            let piece = text_range(text, start, i);
            proof {
                assert(piece@ == text@.subrange(start as int, i as int));
                assert(text@.subrange((i + n) as int, (i + n) as int) =~= Seq::<char>::empty());
                assert(out@ + piece@ + to@ + text@.subrange((i + n) as int, (i + n) as int)
                    + replaced_from(text@, from@, to@, i + n) =~= out@ + text@.subrange(
                    start as int,
                    i as int,
                ) + (to@ + replaced_from(text@, from@, to@, i + n)));
            }
            out.append(piece.as_str());
            out.append(to);
            i += n;
            start = i;
        } else {
            proof {
                assert(out@ + text@.subrange(start as int, i + 1) + replaced_from(
                    text@,
                    from@,
                    to@,
                    i + 1,
                ) =~= out@ + text@.subrange(start as int, i as int) + (seq![text@[i as int]]
                    + replaced_from(text@, from@, to@, i + 1)));
            }
            i += 1;
        }
    }
    let rest = text_range(text, start, len);
    proof {
        assert(rest@ == text@.subrange(start as int, len as int));
        if i < len {
            assert(replaced_from(text@, from@, to@, i as int) == text@.skip(i as int));
        }
        assert(text@.subrange(start as int, i as int) + replaced_from(text@, from@, to@, i as int)
            =~= text@.subrange(start as int, len as int));
        assert(out@ + text@.subrange(start as int, i as int) + replaced_from(
            text@,
            from@,
            to@,
            i as int,
        ) =~= out@ + (text@.subrange(start as int, i as int) + replaced_from(
            text@,
            from@,
            to@,
            i as int,
        )));
    }
    out.append(rest.as_str());
    out
}

/// A name as a link between notes: the name in double brackets.
pub open spec fn link_to(name: Seq<char>) -> Seq<char> {
    "[["@ + name + "]]"@
}

/// A name as a link between notes.
pub fn link_text(name: &str) -> (r: String)
    ensures
        r@ == link_to(name@),
{
    let mut r = String::from_str("[[");
    r.append(name);
    r.append("]]");
    r
}

/// The text of a note with a link to a new note added behind it.
pub fn with_link_added(text: &str, new_name: &str) -> (r: String)
    ensures
        r@ == text@ + "\n\n"@ + link_to(new_name@),
{
    let mut r = String::from_str(text);
    r.append("\n\n");
    let link = link_text(new_name);
    r.append(link.as_str());
    r
}

/// The text of a note with its links to `org_name` turned into links to
/// `new_name`.
pub fn with_link_renamed(text: &str, org_name: &str, new_name: &str) -> (r: String)
    ensures
        r@ == replaced(text@, link_to(org_name@), link_to(new_name@)),
{
    let from = link_text(org_name);
    let to = link_text(new_name);
    replace_text(text, from.as_str(), to.as_str())
}

/// The text of a note without its links to `name`, and without the line
/// feed behind such a link.
pub fn with_link_removed(text: &str, name: &str) -> (r: String)
    ensures
        r@ == replaced(
            replaced(text@, link_to(name@) + "\n"@, Seq::empty()),
            link_to(name@),
            Seq::empty(),
        ),
{
    let link = link_text(name);
    let with_feed = text_concat(link.as_str(), "\n");
    let first = replace_text(text, with_feed.as_str(), "");
    let empty = String::new();
    let r = replace_text(first.as_str(), link.as_str(), empty.as_str());
    proof {
        assert(""@ =~= Seq::<char>::empty()) by {
            reveal_strlit("");
        }
    }
    r
}

/// An image as markdown: its alternative text in brackets and its address
/// in parentheses, behind an exclamation mark.
pub fn image_markdown(alt: &str, url: &str) -> (r: String)
    ensures
        r@ == "!["@ + alt@ + "]("@ + url@ + ")"@,
{
    let mut r = String::from_str("![");
    r.append(alt);
    r.append("](");
    r.append(url);
    r.append(")");
    r
}

} // verus!
