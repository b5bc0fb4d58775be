//! Commands that the editing session hands to its surroundings, and the
//! settings of a search.

use crate::regex_call::regex_find_all;
use vstd::prelude::*;

verus! {

#[derive(Clone, Copy, PartialEq, Eq, Structural, Debug)]
pub enum FindCmd {
    Find,
    Replace,
    ReplaceAll,
    FindAll,
}

/// A pattern that was found to compile, with the case flag it was checked
/// under.
#[derive(Debug)]
pub struct RegexPlan {
    pub pattern: String,
    pub case_insensitive: bool,
}

/// What to search for and how.
#[derive(Debug)]
pub struct FindReplaceCtx {
    pub find: String,
    pub replace: String,
    pub is_case: bool,
    pub is_hole_word: bool,
    pub is_reg: bool,
    pub cmd: Option<FindCmd>,
    pub regex: Option<RegexPlan>,
}

/// The mathematical model of a search's settings.
pub struct FindModel {
    pub find: Seq<char>,
    pub replace: Seq<char>,
    pub is_case: bool,
    pub is_hole_word: bool,
    pub is_reg: bool,
    pub cmd: Option<FindCmd>,
    /// The checked pattern and whether it ignores case.
    pub regex: Option<(Seq<char>, bool)>,
}

impl View for FindReplaceCtx {
    type V = FindModel;

    open spec fn view(&self) -> FindModel {
        FindModel {
            find: self.find@,
            replace: self.replace@,
            is_case: self.is_case,
            is_hole_word: self.is_hole_word,
            is_reg: self.is_reg,
            cmd: self.cmd,
            regex: match self.regex {
                Some(p) => Some((p.pattern@, p.case_insensitive)),
                None => None,
            },
        }
    }
}

impl Clone for FindReplaceCtx {
    fn clone(&self) -> (r: Self)
        ensures
            r@ == self@,
    {
        FindReplaceCtx {
            find: self.find.clone(),
            replace: self.replace.clone(),
            is_case: self.is_case,
            is_hole_word: self.is_hole_word,
            is_reg: self.is_reg,
            cmd: self.cmd,
            regex: match &self.regex {
                Some(p) => Some(
                    RegexPlan { pattern: p.pattern.clone(), case_insensitive: p.case_insensitive },
                ),
                None => None,
            },
        }
    }
}

impl FindReplaceCtx {
    /// Settings with empty texts and every switch off.
    pub fn new() -> (r: Self)
        ensures
            r@ == (FindModel {
                find: Seq::empty(),
                replace: Seq::empty(),
                is_case: false,
                is_hole_word: false,
                is_reg: false,
                cmd: None,
                regex: None,
            }),
    {
        FindReplaceCtx {
            find: String::new(),
            replace: String::new(),
            is_case: false,
            is_hole_word: false,
            is_reg: false,
            cmd: None,
            regex: None,
        }
    }

    /// Settings for a plain search for `find` that minds the case.
    pub fn sample(find: String) -> (r: Self)
        ensures
            r@ == (FindModel {
                find: find@,
                replace: Seq::empty(),
                is_case: true,
                is_hole_word: false,
                is_reg: false,
                cmd: None,
                regex: None,
            }),
    {
        let mut s = FindReplaceCtx::new();
        s.find = find;
        s.is_case = true;
        s
    }

    /// Checks the pattern for a search by regular expression and keeps it
    /// if it compiles; otherwise, and for a plain search, no pattern is
    /// kept.
    pub fn regex_build(&mut self)
        ensures
            final(self)@ == (FindModel {
                regex: if old(self).is_reg && crate::regex_call::regex_valid(
                    old(self).find@,
                    !old(self).is_case,
                ) {
                    Some((old(self).find@, !old(self).is_case))
                } else {
                    None
                },
                ..old(self)@
            }),
    {
        if self.is_reg {
            let no_text: Vec<String> = Vec::new();
            if regex_find_all(self.find.as_str(), !self.is_case, &no_text).is_some() {
                self.regex = Some(
                    RegexPlan { pattern: self.find.clone(), case_insensitive: !self.is_case },
                );
                return ;
            }
        }
        self.regex = None;
    }
}

/// A request of the editing session to what surrounds it.
#[derive(Debug)]
pub enum Command {
    OpenFile(String),
    PathList(String),
    DeleteFile(String),
    /// A new file, linked from the named parent if there is one.
    NewFile(Option<String>),
    RenameFile(String),
    FixedFile(String),
    UnFixedFile(String),
    FindReplace(FindReplaceCtx),
    ClickEditLine(String),
    OpenUrl(String),
}

} // verus!
