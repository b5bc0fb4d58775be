//! Text helpers over strings viewed as sequences of characters.

use vstd::prelude::*;
use vstd::string::*;

verus! {

/// The views of a sequence of strings.
pub open spec fn texts(v: Seq<String>) -> Seq<Seq<char>> {
    Seq::new(v.len(), |i: int| v[i]@)
}

/// All the sequences joined, one after the other.
pub open spec fn concat_all(parts: Seq<Seq<char>>) -> Seq<char>
    decreases parts.len(),
{
    if parts.len() == 0 {
        Seq::empty()
    } else {
        concat_all(parts.drop_last()) + parts.last()
    }
}

/// All the sequences joined with `sep` between neighbours.
pub open spec fn join_with(parts: Seq<Seq<char>>, sep: Seq<char>) -> Seq<char>
    decreases parts.len(),
{
    if parts.len() == 0 {
        Seq::empty()
    } else if parts.len() == 1 {
        parts[0]
    } else {
        join_with(parts.drop_last(), sep) + sep + parts.last()
    }
}

/// The index of the first `c` in `s`, or the length of `s` where there is none.
pub open spec fn index_of(s: Seq<char>, c: char) -> int
    decreases s.len(),
{
    if s.len() == 0 {
        0
    } else if s[0] == c {
        0
    } else {
        1 + index_of(s.drop_first(), c)
    }
}

/// The pieces of `s` between occurrences of `c`. There is always at least
/// one piece, and no piece holds `c`.
pub open spec fn split_on(s: Seq<char>, c: char) -> Seq<Seq<char>>
    decreases s.len(),
{
    let i = index_of(s, c);
    if 0 <= i < s.len() {
        seq![s.take(i)] + split_on(s.skip(i + 1), c)
    } else {
        seq![s]
    }
}

/// `a` clamped into `[0, len]`.
pub open spec fn clamp_to(a: int, len: int) -> int {
    if a < 0 {
        0
    } else if a > len {
        len
    } else {
        a
    }
}

/// The characters of `s` from column `a` up to column `b`, both clamped to
/// the text, empty where `b` does not exceed `a`.
pub open spec fn sub_text(s: Seq<char>, a: int, b: int) -> Seq<char> {
    let lo = clamp_to(a, s.len() as int);
    let hi = clamp_to(b, s.len() as int);
    if lo <= hi {
        s.subrange(lo, hi)
    } else {
        Seq::empty()
    }
}

/// `s` without the characters from column `a` up to column `b`.
pub open spec fn cut_text(s: Seq<char>, a: int, b: int) -> Seq<char> {
    let lo = clamp_to(a, s.len() as int);
    let hi = clamp_to(b, s.len() as int);
    if lo <= hi {
        s.take(lo) + s.skip(hi)
    } else {
        s
    }
}

/// Where no `c` lies in `s[from..at]` and `s[at] == c`, the first `c` of
/// `s.skip(from)` is at `at - from`.
pub proof fn lemma_index_of_found(s: Seq<char>, c: char, from: int, at: int)
    requires
        0 <= from <= at < s.len(),
        s[at] == c,
        forall|j: int| from <= j < at ==> s[j] != c,
    ensures
        index_of(s.skip(from), c) == at - from,
    decreases at - from,
{
    let t = s.skip(from);
    assert(t[0] == s[from]);
    if from < at {
        assert(t.drop_first() =~= s.skip(from + 1));
        lemma_index_of_found(s, c, from + 1, at);
    }
}

/// Where no `c` lies in `s[from..]`, `s.skip(from)` holds none.
pub proof fn lemma_index_of_absent(s: Seq<char>, c: char, from: int)
    requires
        0 <= from <= s.len(),
        forall|j: int| from <= j < s.len() ==> s[j] != c,
    ensures
        index_of(s.skip(from), c) == s.len() - from,
    decreases s.len() - from,
{
    let t = s.skip(from);
    if from < s.len() {
        assert(t[0] == s[from]);
        assert(t.drop_first() =~= s.skip(from + 1));
        lemma_index_of_absent(s, c, from + 1);
    }
}

pub proof fn lemma_concat_all_push(parts: Seq<Seq<char>>, last: Seq<char>)
    ensures
        concat_all(parts.push(last)) == concat_all(parts) + last,
{
    assert(parts.push(last).drop_last() =~= parts);
}

pub proof fn lemma_texts_push(v: Seq<String>, s: String)
    ensures
        texts(v.push(s)) == texts(v).push(s@),
{
    assert(texts(v.push(s)) =~= texts(v).push(s@));
}

/// The characters of a string, in order.
pub fn chars_of(s: &str) -> (v: Vec<char>)
    ensures
        v@ == s@,
{
    let mut v: Vec<char> = Vec::new();
    for c in it: s.chars()
        invariant
            v@ == it.seq().take(it.index()),
    {
        v.push(c);
    }
    v
}

/// The number of characters of a string.
pub fn char_count(s: &str) -> (n: usize)
    ensures
        n == s@.len(),
{
    s.unicode_len()
}

/// The characters from column `a` up to column `b`, clamped to the text.
pub fn text_range(s: &str, a: usize, b: usize) -> (r: String)
    ensures
        r@ == sub_text(s@, a as int, b as int),
{
    let len = s.unicode_len();
    let lo = if a > len {
        len
    } else {
        a
    };
    let hi = if b > len {
        len
    } else {
        b
    };
    if lo <= hi {
        String::from_str(s.substring_char(lo, hi))
    } else {
        String::new()
    }
}

/// The text before column `n`.
pub fn text_left(s: &str, n: usize) -> (r: String)
    ensures
        r@ == sub_text(s@, 0, n as int),
        n <= s@.len() ==> r@ == s@.take(n as int),
        n >= s@.len() ==> r@ == s@,
{
    let r = text_range(s, 0, n);
    proof {
        if n >= s@.len() {
            assert(s@.subrange(0, s@.len() as int) =~= s@);
        }
    }
    r
}

/// The text from column `n` on.
pub fn text_right(s: &str, n: usize) -> (r: String)
    ensures
        r@ == sub_text(s@, n as int, s@.len() as int),
        n <= s@.len() ==> r@ == s@.skip(n as int),
        n >= s@.len() ==> r@ == Seq::<char>::empty(),
{
    let len = s.unicode_len();
    let r = text_range(s, n, len);
    proof {
        if n >= s@.len() {
            assert(r@ =~= Seq::<char>::empty());
        }
    }
    r
}

/// Two texts joined.
pub fn text_concat(a: &str, b: &str) -> (r: String)
    ensures
        r@ == a@ + b@,
{
    let mut r = String::from_str(a);
    r.append(b);
    r
}

/// The text without the characters from column `a` up to column `b`.
pub fn text_cut(s: &str, a: usize, b: usize) -> (r: String)
    ensures
        r@ == cut_text(s@, a as int, b as int),
{
    let len = s.unicode_len();
    let lo = if a > len {
        len
    } else {
        a
    };
    let hi = if b > len {
        len
    } else {
        b
    };
    if lo <= hi {
        let mut r = String::from_str(s.substring_char(0, lo));
        r.append(s.substring_char(hi, len));
        r
    } else {
        String::from_str(s)
    }
}

/// The pieces of a text between occurrences of `sep`.
pub fn split_text(s: &str, sep: char) -> (v: Vec<String>)
    ensures
        texts(v@) == split_on(s@, sep),
        v.len() >= 1,
{
    let chars = chars_of(s);
    let n = chars.len();
    let mut v: Vec<String> = Vec::new();
    let mut start: usize = 0;
    let mut i: usize = 0;
    proof {
        assert(s@.skip(0) =~= s@);
        assert(texts(v@) + split_on(s@, sep) =~= split_on(s@, sep));
    }
    while i < n
        invariant
            chars@ == s@,
            n == chars.len(),
            0 <= start <= i <= n,
            forall|j: int| start <= j < i ==> s@[j] != sep,
            texts(v@) + split_on(s@.skip(start as int), sep) == split_on(s@, sep),
        decreases n - i,
    {
        if chars[i] == sep {
            let piece = String::from_str(s.substring_char(start, i));
            proof {
                lemma_index_of_found(s@, sep, start as int, i as int);
                let t = s@.skip(start as int);
                assert(t.take(i - start) =~= s@.subrange(start as int, i as int));
                assert(t.skip(i - start + 1) =~= s@.skip(i + 1));
                lemma_texts_push(v@, piece);
                assert(texts(v@.push(piece)) + split_on(s@.skip(i + 1), sep) =~= texts(v@)
                    + split_on(t, sep));
            }
            v.push(piece);
            start = i + 1;
        }
        i += 1;
    }
    let piece = String::from_str(s.substring_char(start, n));
    proof {
        lemma_index_of_absent(s@, sep, start as int);
        let t = s@.skip(start as int);
        assert(t =~= s@.subrange(start as int, n as int));
        lemma_texts_push(v@, piece);
        assert(texts(v@.push(piece)) =~= texts(v@) + split_on(t, sep));
    }
    v.push(piece);
    v
}

/// The pieces of a text between line feeds.
pub fn split_lines(s: &str) -> (v: Vec<String>)
    ensures
        texts(v@) == split_on(s@, '\n'),
        v.len() >= 1,
{
    split_text(s, '\n')
}

/// Whether two texts hold the same characters.
pub fn text_eq(a: &str, b: &str) -> (r: bool)
    ensures
        r == (a@ == b@),
{
    let x = chars_of(a);
    let y = chars_of(b);
    if x.len() != y.len() {
        return false;
    }
    let mut i: usize = 0;
    while i < x.len()
        invariant
            x@ == a@,
            y@ == b@,
            x.len() == y.len(),
            0 <= i <= x.len(),
            forall|k: int| 0 <= k < i ==> x@[k] == y@[k],
        decreases x.len() - i,
    {
        if x[i] != y[i] {
            return false;
        }
        i += 1;
    }
    proof {
        assert(x@ =~= y@);
    }
    true
}

/// Whether a text holds the character `c`.
pub fn text_contains(s: &str, c: char) -> (r: bool)
    ensures
        r == s@.contains(c),
{
    let x = chars_of(s);
    let mut i: usize = 0;
    while i < x.len()
        invariant
            x@ == s@,
            0 <= i <= x.len(),
            forall|k: int| 0 <= k < i ==> x@[k] != c,
        decreases x.len() - i,
    {
        if x[i] == c {
            return true;
        }
        i += 1;
    }
    false
}

/// All the texts joined, one after the other.
pub fn concat_texts(v: &Vec<String>) -> (r: String)
    ensures
        r@ == concat_all(texts(v@)),
{
    let mut r = String::new();
    let mut i: usize = 0;
    while i < v.len()
        invariant
            0 <= i <= v.len(),
            r@ == concat_all(texts(v@).take(i as int)),
        decreases v.len() - i,
    {
        proof {
            assert(texts(v@).take(i + 1) =~= texts(v@).take(i as int).push(v@[i as int]@));
            lemma_concat_all_push(texts(v@).take(i as int), v@[i as int]@);
        }
        r.append(v[i].as_str());
        i += 1;
    }
    proof {
        assert(texts(v@).take(v.len() as int) =~= texts(v@));
    }
    r
}

/// All the texts joined with `sep` between neighbours.
pub fn join_texts(v: &Vec<String>, sep: &str) -> (r: String)
    ensures
        r@ == join_with(texts(v@), sep@),
{
    let mut r = String::new();
    let mut i: usize = 0;
    while i < v.len()
        invariant
            0 <= i <= v.len(),
            r@ == join_with(texts(v@).take(i as int), sep@),
        decreases v.len() - i,
    {
        proof {
            let next = texts(v@).take(i + 1);
            assert(next.drop_last() =~= texts(v@).take(i as int));
            assert(next.last() == v@[i as int]@);
            if i == 0 {
                assert(next[0] == v@[0]@);
                assert(r@ + v@[0]@ =~= v@[0]@);
            }
        }
        if i > 0 {
            r.append(sep);
        }
        r.append(v[i].as_str());
        i += 1;
    }
    proof {
        assert(texts(v@).take(v.len() as int) =~= texts(v@));
    }
    r
}

} // verus!
