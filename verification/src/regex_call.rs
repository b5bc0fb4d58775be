//! Calls into the `regex` crate.

use vstd::prelude::*;

verus! {

/// Whether `pattern` compiles as a regular expression, with matching that
/// ignores case switched on or off.
pub uninterp spec fn regex_valid(pattern: Seq<char>, case_insensitive: bool) -> bool;

/// The successive non-overlapping matches of a valid `pattern` in `text`,
/// each as the byte offsets of its start and end.
pub uninterp spec fn regex_spans(pattern: Seq<char>, case_insensitive: bool, text: Seq<char>) -> Seq<
    (usize, usize),
>;

/// `RegexBuilder::new`, `case_insensitive` and `build` of the `regex`
/// crate, and `Regex::find_iter` on what they give: the byte offsets of
/// the matches of the pattern in each text, or `None` where the pattern
/// does not compile. Nothing is proved of it; whether the pattern compiles
/// is named `regex_valid`, the matches `regex_spans`.
#[verifier::external_body]
pub(crate) fn regex_find_all(pattern: &str, case_insensitive: bool, texts: &Vec<String>) -> (r:
    Option<Vec<Vec<(usize, usize)>>>)
    ensures
        r is Some <==> regex_valid(pattern@, case_insensitive),
        r matches Some(found) ==> found.len() == texts.len() && forall|i: int|
            0 <= i < texts.len() ==> (#[trigger] found[i])@ == regex_spans(
                pattern@,
                case_insensitive,
                texts[i]@,
            ),
{
    match regex::RegexBuilder::new(pattern).case_insensitive(case_insensitive).build() {
        Ok(re) => Some(
            texts.iter().map(|t| re.find_iter(t).map(|m| (m.start(), m.end())).collect()).collect(),
        ),
        Err(_) => None,
    }
}

} // verus!
