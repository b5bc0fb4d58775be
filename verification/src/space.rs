//! The note space: the notes of a working directory, the links between
//! them, and the note or file that is open.

use crate::md::{markdown_get_links, note_links};
use crate::strings::{
    concat_all, join_texts, join_with, split_on, split_text, text_concat, text_contains, text_eq,
    texts,
};
use vstd::prelude::*;
use vstd::string::*;
use vstd::utf8::encode_utf8;

verus! {

/// The window in which a note is given a new name.
#[derive(Debug)]
pub struct RenameWin {
    pub is_show: bool,
    pub need_focus: bool,
    pub org_name: String,
    pub new_name: String,
}

impl RenameWin {
    pub fn default() -> (r: Self)
        ensures
            !r.is_show,
            !r.need_focus,
            r.org_name@ == Seq::<char>::empty(),
            r.new_name@ == Seq::<char>::empty(),
    {
        RenameWin { is_show: false, need_focus: false, org_name: String::new(), new_name: String::new() }
    }

    /// Opens the window for the note `name`.
    pub fn active(&mut self, name: &str)
        ensures
            final(self).is_show,
            final(self).need_focus,
            final(self).org_name@ == name@,
            final(self).new_name@ == name@,
    {
        self.is_show = true;
        self.need_focus = true;
        self.org_name = String::from_str(name);
        self.new_name = String::from_str(name);
    }

    pub fn close(&mut self)
        ensures
            !final(self).is_show,
            !final(self).need_focus,
            final(self).org_name == old(self).org_name,
            final(self).new_name == old(self).new_name,
    {
        self.need_focus = false;
        self.is_show = false;
    }
}

/// The window that lists the notes.
#[derive(Debug)]
pub struct IndexWind {
    pub is_show: bool,
    pub must_at_top: bool,
    pub need_open: Option<String>,
    /// The note whose deletion waits to be confirmed.
    pub delete_confirm: Option<String>,
    pub is_window: bool,
}

impl IndexWind {
    pub fn default() -> (r: Self)
        ensures
            r == (IndexWind {
                is_show: false,
                must_at_top: false,
                need_open: None,
                delete_confirm: None,
                is_window: false,
            }),
    {
        IndexWind {
            is_show: false,
            must_at_top: false,
            need_open: None,
            delete_confirm: None,
            is_window: false,
        }
    }
}

/// A note in the tree of notes, with its depth below a root.
#[derive(Debug)]
pub struct DirNote {
    pub deep: usize,
    pub name: String,
}

impl Clone for DirNote {
    fn clone(&self) -> (r: Self)
        ensures
            r == *self,
    {
        DirNote { deep: self.deep, name: self.name.clone() }
    }
}

#[derive(Debug, PartialEq, Eq, Hash)]
pub struct FilePath {
    pub name: String,
    pub path: String,
}

impl Clone for FilePath {
    fn clone(&self) -> (r: Self)
        ensures
            r == *self,
    {
        FilePath { name: self.name.clone(), path: self.path.clone() }
    }
}

/// What is open: a note of the note space or a file of the file system.
#[derive(Debug, PartialEq, Eq, Hash)]
pub enum CurFile {
    Note(FilePath),
    File(FilePath),
}

impl Clone for CurFile {
    fn clone(&self) -> (r: Self)
        ensures
            r == *self,
    {
        match self {
            CurFile::Note(f) => CurFile::Note(f.clone()),
            CurFile::File(f) => CurFile::File(f.clone()),
        }
    }
}

/// Whether a name holds a slash or a backslash.
pub open spec fn has_separator(name: Seq<char>) -> bool {
    name.contains('/') || name.contains('\\')
}

/// `PathBuf::from` and `Path::file_name` of the standard library: the
/// last component of a path, which depends on what the platform takes for
/// a separator. Nothing is claimed of it.
#[verifier::external_body]
pub(crate) fn path_file_name(name: &str) -> (r: Option<String>) {
    std::path::PathBuf::from(name).file_name().map(|f| f.to_string_lossy().to_string())
}

impl CurFile {
    /// What a name stands for, given the last component of the name read
    /// as a path: with a separator in it and a last component, a file
    /// under that component's name; otherwise a note.
    pub fn from_parts(name: &str, file_name: Option<String>) -> (r: Self)
        ensures
            match r {
                CurFile::File(f) => has_separator(name@) && file_name == Some(f.name) && f.path@
                    == name@,
                CurFile::Note(f) => !(has_separator(name@) && file_name is Some) && f.name@ == name@
                    && f.path@ == name@,
            },
    {
        if text_contains(name, '/') || text_contains(name, '\\') {
            if let Some(file_name) = file_name {
                return CurFile::File(FilePath { name: file_name, path: String::from_str(name) });
            }
        }
        CurFile::Note(FilePath { name: String::from_str(name), path: String::from_str(name) })
    }

    /// What a name stands for: a note, unless it holds a separator and
    /// has a last component as a path.
    pub fn from(name: &str) -> (r: Self)
        ensures
            match r {
                CurFile::File(f) => has_separator(name@) && f.path@ == name@,
                CurFile::Note(f) => f.name@ == name@ && f.path@ == name@,
            },
    {
        let file_name = if text_contains(name, '/') || text_contains(name, '\\') {
            path_file_name(name)
        } else {
            None
        };
        CurFile::from_parts(name, file_name)
    }

    pub fn is_note(&self) -> (r: bool)
        ensures
            r == (*self is Note),
    {
        match self {
            CurFile::Note(_) => true,
            _ => false,
        }
    }

    pub fn is_file(&self) -> (r: bool)
        ensures
            r == (*self is File),
    {
        !self.is_note()
    }

    pub fn name(&self) -> (r: String)
        ensures
            r == (match *self {
                CurFile::File(f) => f.name,
                CurFile::Note(f) => f.name,
            }),
    {
        match self {
            CurFile::File(file) => file.name.clone(),
            CurFile::Note(note) => note.name.clone(),
        }
    }

    pub fn path(&self) -> (r: String)
        ensures
            r == (match *self {
                CurFile::File(f) => f.path,
                CurFile::Note(f) => f.path,
            }),
    {
        match self {
            CurFile::File(file) => file.path.clone(),
            CurFile::Note(note) => note.path.clone(),
        }
    }

    /// The name under which it is opened: the path of a file, the name of
    /// a note.
    pub fn name4open(&self) -> (r: String)
        ensures
            r == (match *self {
                CurFile::File(f) => f.path,
                CurFile::Note(f) => f.name,
            }),
    {
        match self {
            CurFile::File(file) => file.path.clone(),
            CurFile::Note(note) => note.name.clone(),
        }
    }
}

/// A name with the names linked to it.
pub type LinkEntry = (String, Vec<String>);

/// The model of a list of names with what is linked to each.
pub type LinkMap = Seq<(Seq<char>, Seq<Seq<char>>)>;

pub open spec fn link_map(v: Seq<LinkEntry>) -> LinkMap {
    Seq::new(v.len(), |i: int| (v[i].0@, texts(v[i].1@)))
}

/// The position of the first entry for `name` among the first `n`, or
/// `n` where there is none.
pub open spec fn entry_of(m: LinkMap, name: Seq<char>, n: int) -> int
    decreases n,
{
    if n <= 0 || n > m.len() {
        0
    } else {
        let before = entry_of(m, name, n - 1);
        if before < n - 1 {
            before
        } else if m[n - 1].0 == name {
            n - 1
        } else {
            n
        }
    }
}

/// What is linked to `name`, if the list has an entry for it.
pub open spec fn linked(m: LinkMap, name: Seq<char>) -> Option<Seq<Seq<char>>> {
    let i = entry_of(m, name, m.len() as int);
    if 0 <= i < m.len() {
        Some(m[i].1)
    } else {
        None
    }
}

/// The names of the first `n` entries of `links` that have no entry in
/// `parents`: the notes that no note links to.
pub open spec fn roots_of(links: LinkMap, parents: LinkMap, n: int) -> Seq<Seq<char>>
    decreases n,
{
    if n <= 0 || n > links.len() {
        Seq::empty()
    } else {
        let rest = roots_of(links, parents, n - 1);
        if linked(parents, links[n - 1].0) is None {
            rest.push(links[n - 1].0)
        } else {
            rest
        }
    }
}

/// Whether bytes `a` come before bytes `b` or equal them, read as in a
/// dictionary.
pub open spec fn bytes_le(a: Seq<u8>, b: Seq<u8>) -> bool
    decreases a.len(),
{
    if a.len() == 0 {
        true
    } else if b.len() == 0 {
        false
    } else if a[0] != b[0] {
        a[0] < b[0]
    } else {
        bytes_le(a.drop_first(), b.drop_first())
    }
}

/// Whether the texts stand in the order of their bytes in UTF-8.
pub open spec fn texts_sorted(t: Seq<Seq<char>>) -> bool {
    forall|i: int, j: int|
        0 <= i < j < t.len() ==> bytes_le(encode_utf8(#[trigger] t[i]), encode_utf8(#[trigger] t[j]))
}

/// `sort` of the standard library on a vector of strings: it puts the
/// strings in the order of their bytes and keeps each as often as it was
/// there. Nothing is proved of it.
#[verifier::external_body]
pub(crate) fn sort_texts(v: &mut Vec<String>)
    ensures
        texts(final(v)@).to_multiset() == texts(old(v)@).to_multiset(),
        texts_sorted(texts(final(v)@)),
{
    v.sort();
}

/// The way from a note up to a root: the note, before it its first
/// parent, and so on, as long as names are new and at most `fuel` names.
pub open spec fn path_up(parents: LinkMap, name: Seq<char>, seen: Seq<Seq<char>>, fuel: nat) -> Seq<
    Seq<char>,
>
    decreases fuel,
{
    if fuel == 0 || seen.contains(name) {
        seen
    } else {
        let next = seen.insert(0, name);
        match linked(parents, name) {
            Some(p) => if p.len() > 0 {
                path_up(parents, p[0], next, (fuel - 1) as nat)
            } else {
                next
            },
            None => next,
        }
    }
}

/// The list `m` with `child` noted as linked from `parent`: `parent`
/// joins the entry of `child` unless it is there, and a new entry is
/// made where `child` has none.
pub open spec fn with_parent(m: LinkMap, child: Seq<char>, parent: Seq<char>) -> LinkMap {
    let i = entry_of(m, child, m.len() as int);
    if 0 <= i < m.len() {
        if m[i].1.contains(parent) {
            m
        } else {
            m.update(i, (m[i].0, m[i].1.push(parent)))
        }
    } else {
        m.push((child, seq![parent]))
    }
}

/// The list of parents after the first `k` links of `file` are noted.
pub open spec fn parents_of_links(m: LinkMap, file: Seq<char>, links: Seq<Seq<char>>, k: int)
    -> LinkMap
    decreases k,
{
    if k <= 0 || k > links.len() {
        m
    } else {
        with_parent(parents_of_links(m, file, links, k - 1), links[k - 1], file)
    }
}

/// For each name linked from one of the first `n` notes, the notes that
/// link to it.
pub open spec fn parents_of(links: LinkMap, n: int) -> LinkMap
    decreases n,
{
    if n <= 0 || n > links.len() {
        Seq::empty()
    } else {
        parents_of_links(
            parents_of(links, n - 1),
            links[n - 1].0,
            links[n - 1].1,
            links[n - 1].1.len() as int,
        )
    }
}

/// The list `m` with `links` noted as what `name` links to, in place of
/// what was noted for it before.
pub open spec fn with_links(m: LinkMap, name: Seq<char>, links: Seq<Seq<char>>) -> LinkMap {
    let i = entry_of(m, name, m.len() as int);
    if 0 <= i < m.len() {
        m.update(i, (name, links))
    } else {
        m.push((name, links))
    }
}

/// For each of the first `n` notes, given by name and text, the notes
/// that its text links to.
pub open spec fn links_of_notes(notes: Seq<(String, String)>, n: int) -> LinkMap
    decreases n,
{
    if n <= 0 || n > notes.len() {
        Seq::empty()
    } else {
        with_links(links_of_notes(notes, n - 1), notes[n - 1].0@, note_links(notes[n - 1].1@))
    }
}

/// The character of a decimal digit.
pub open spec fn digit_char(d: int) -> char {
    if d == 0 {
        '0'
    } else if d == 1 {
        '1'
    } else if d == 2 {
        '2'
    } else if d == 3 {
        '3'
    } else if d == 4 {
        '4'
    } else if d == 5 {
        '5'
    } else if d == 6 {
        '6'
    } else if d == 7 {
        '7'
    } else if d == 8 {
        '8'
    } else {
        '9'
    }
}

/// A number in decimal digits.
pub open spec fn digits_of(n: nat) -> Seq<char>
    decreases n,
{
    if n < 10 {
        seq![digit_char(n as int)]
    } else {
        digits_of(n / 10).push(digit_char((n % 10) as int))
    }
}

/// The name of an untitled note with the number `i`.
pub open spec fn untitled(i: nat) -> Seq<char> {
    "untitled_"@ + digits_of(i)
}

/// The first number from `i` up to 998 whose untitled note is not among
/// the names taken.
pub open spec fn first_free(taken: Seq<Seq<char>>, i: nat) -> Option<nat>
    decreases 999 - i,
{
    if i >= 999 {
        None
    } else if !taken.contains(untitled(i)) {
        Some(i)
    } else {
        first_free(taken, i + 1)
    }
}

/// A number in decimal digits.
pub fn number_text(n: usize) -> (r: String)
    ensures
        r@ == digits_of(n as nat),
    decreases n,
{
    let d = n % 10;
    let digit = if d == 0 {
        "0"
    } else if d == 1 {
        "1"
    } else if d == 2 {
        "2"
    } else if d == 3 {
        "3"
    } else if d == 4 {
        "4"
    } else if d == 5 {
        "5"
    } else if d == 6 {
        "6"
    } else if d == 7 {
        "7"
    } else if d == 8 {
        "8"
    } else {
        "9"
    };
    proof {
        reveal_strlit("0");
        reveal_strlit("1");
        reveal_strlit("2");
        reveal_strlit("3");
        reveal_strlit("4");
        reveal_strlit("5");
        reveal_strlit("6");
        reveal_strlit("7");
        reveal_strlit("8");
        reveal_strlit("9");
        assert(digit@ =~= seq![digit_char(d as int)]);
    }
    if n < 10 {
        String::from_str(digit)
    } else {
        let mut r = number_text(n / 10);
        r.append(digit);
        proof {
            assert(r@ =~= digits_of((n / 10) as nat).push(digit_char(d as int)));
        }
        r
    }
}

/// The model of a note of the tree.
pub struct DirNoteModel {
    pub deep: usize,
    pub name: Seq<char>,
}

pub open spec fn dir_models(v: Seq<DirNote>) -> Seq<DirNoteModel> {
    Seq::new(v.len(), |i: int| DirNoteModel { deep: v[i].deep, name: v[i].name@ })
}

/// The names that a name leads to in the tree: what is linked from it,
/// and for the name `.` the roots.
pub open spec fn children_of(links: LinkMap, roots: Seq<Seq<char>>, name: Seq<char>) -> Seq<
    Seq<char>,
> {
    match linked(links, name) {
        Some(l) => l,
        None => if name == "."@ {
            roots
        } else {
            Seq::empty()
        },
    }
}

/// The tree below a note, the note first: the note at its depth, then
/// the trees of the notes it leads to, down to depth 5.
pub open spec fn tree_below(links: LinkMap, roots: Seq<Seq<char>>, name: Seq<char>, deep: nat)
    -> Seq<DirNoteModel>
    decreases 6 - deep, 0nat, 0nat,
{
    if deep > 5 {
        Seq::empty()
    } else {
        seq![DirNoteModel { deep: deep as usize, name }] + trees_below(
            links,
            roots,
            children_of(links, roots, name),
            deep + 1,
            children_of(links, roots, name).len(),
        )
    }
}

/// The trees below the first `n` of `names`, one after the other.
pub open spec fn trees_below(
    links: LinkMap,
    roots: Seq<Seq<char>>,
    names: Seq<Seq<char>>,
    deep: nat,
    n: nat,
) -> Seq<DirNoteModel>
    decreases 6 - deep, 1nat, n,
{
    if n == 0 || n > names.len() || deep > 6 {
        Seq::empty()
    } else {
        trees_below(links, roots, names, deep, (n - 1) as nat) + (if deep <= 5 {
            tree_below(links, roots, names[n - 1], deep)
        } else {
            Seq::empty()
        })
    }
}

/// The line of a note in the text that shows the tree: two equal signs
/// for each level, and the name as a link.
pub open spec fn tree_line(n: DirNoteModel) -> Seq<char> {
    equal_signs(n.deep + 1) + " [["@ + n.name + "]]  \n"@
}

pub open spec fn equal_signs(n: int) -> Seq<char>
    decreases n,
{
    if n <= 0 {
        Seq::empty()
    } else {
        equal_signs(n - 1) + "=="@
    }
}

/// The lines of the first `n` notes of the tree.
pub open spec fn tree_text(dir: Seq<DirNoteModel>, n: int) -> Seq<char>
    decreases n,
{
    if n <= 0 || n > dir.len() {
        Seq::empty()
    } else {
        tree_text(dir, n - 1) + tree_line(dir[n - 1])
    }
}

/// The note space. The notes are listed with their links, and the names
/// with their parents, as `set_file_links` and `set_link_parents` build
/// the lists: no name has two entries.
pub struct NoteSpace {
    pub work_dir: String,
    /// For each note the names that it links to.
    pub file_links: Vec<LinkEntry>,
    /// For each name linked to, the notes that link to it.
    pub link_parents: Vec<LinkEntry>,
    pub directory: Vec<DirNote>,
    pub cur_file: Option<CurFile>,
    pub rename_window: RenameWin,
    pub index_window: IndexWind,
}

/// Puts a copy of each text of a vector into a new one.
pub fn clone_texts(v: &Vec<String>) -> (r: Vec<String>)
    ensures
        texts(r@) == texts(v@),
        r@ == v@,
{
    let mut out: Vec<String> = Vec::new();
    let mut i: usize = 0;
    while i < v.len()
        invariant
            0 <= i <= v.len(),
            out@ == v@.take(i as int),
        decreases v.len() - i,
    {
        out.push(v[i].clone());
        proof {
            assert(v@.take(i + 1) =~= v@.take(i as int).push(v@[i as int]));
        }
        i += 1;
    }
    proof {
        assert(v@.take(v.len() as int) =~= v@);
    }
    out
}

/// The position of the first entry for `name`, or the length of the list.
pub fn find_entry(m: &Vec<LinkEntry>, name: &str) -> (i: usize)
    ensures
        i == entry_of(link_map(m@), name@, m.len() as int),
        i <= m.len(),
{
    let mut i: usize = 0;
    while i < m.len()
        invariant
            0 <= i <= m.len(),
            entry_of(link_map(m@), name@, i as int) == i,
        decreases m.len() - i,
    {
        proof {
            assert(link_map(m@)[i as int].0 == m@[i as int].0@);
        }
        if text_eq(m[i].0.as_str(), name) {
            proof {
                lemma_entry_found(link_map(m@), name@, i as int, m.len() as int);
            }
            return i;
        }
        i += 1;
    }
    i
}

/// An entry found among the first `i + 1` stays the first for all.
pub proof fn lemma_entry_found(m: LinkMap, name: Seq<char>, i: int, n: int)
    requires
        0 <= i < n <= m.len(),
        entry_of(m, name, i) == i,
        m[i].0 == name,
    ensures
        entry_of(m, name, n) == i,
    decreases n - i,
{
    if n > i + 1 {
        lemma_entry_found(m, name, i, n - 1);
    }
}

/// Whether no name has two entries in a list.
pub open spec fn names_distinct(m: LinkMap) -> bool {
    forall|i: int, j: int| 0 <= i < j < m.len() ==> (#[trigger] m[i]).0 != (#[trigger] m[j]).0
}

/// What `entry_of` gives for the first `n` entries: the place of an
/// entry for the name, before which there is none, or `n` where none of
/// them is for the name.
pub proof fn lemma_entry_of(m: LinkMap, name: Seq<char>, n: int)
    requires
        0 <= n <= m.len(),
    ensures
        0 <= entry_of(m, name, n) <= n,
        entry_of(m, name, n) < n ==> m[entry_of(m, name, n)].0 == name,
        forall|k: int| 0 <= k < entry_of(m, name, n) ==> (#[trigger] m[k]).0 != name,
    decreases n,
{
    if n > 0 {
        lemma_entry_of(m, name, n - 1);
    }
}

/// A list without a name twice has none twice after the links of a name
/// are noted in it.
pub proof fn lemma_with_links_distinct(m: LinkMap, name: Seq<char>, links: Seq<Seq<char>>)
    requires
        names_distinct(m),
    ensures
        names_distinct(with_links(m, name, links)),
{
    lemma_entry_of(m, name, m.len() as int);
}

/// The links noted for some notes hold no name twice.
pub proof fn lemma_links_of_notes_distinct(notes: Seq<(String, String)>, n: int)
    ensures
        names_distinct(links_of_notes(notes, n)),
    decreases n,
{
    if !(n <= 0 || n > notes.len()) {
        lemma_links_of_notes_distinct(notes, n - 1);
        lemma_with_links_distinct(
            links_of_notes(notes, n - 1),
            notes[n - 1].0@,
            note_links(notes[n - 1].1@),
        );
    }
}

/// A list without a name twice has none twice after a parent is noted
/// in it.
pub proof fn lemma_with_parent_distinct(m: LinkMap, child: Seq<char>, parent: Seq<char>)
    requires
        names_distinct(m),
    ensures
        names_distinct(with_parent(m, child, parent)),
{
    lemma_entry_of(m, child, m.len() as int);
}

pub proof fn lemma_parents_of_links_distinct(
    m: LinkMap,
    file: Seq<char>,
    links: Seq<Seq<char>>,
    k: int,
)
    requires
        names_distinct(m),
    ensures
        names_distinct(parents_of_links(m, file, links, k)),
    decreases k,
{
    if !(k <= 0 || k > links.len()) {
        lemma_parents_of_links_distinct(m, file, links, k - 1);
        lemma_with_parent_distinct(parents_of_links(m, file, links, k - 1), links[k - 1], file);
    }
}

/// The parents noted for some notes hold no name twice.
pub proof fn lemma_parents_of_distinct(links: LinkMap, n: int)
    ensures
        names_distinct(parents_of(links, n)),
    decreases n,
{
    if !(n <= 0 || n > links.len()) {
        lemma_parents_of_distinct(links, n - 1);
        lemma_parents_of_links_distinct(
            parents_of(links, n - 1),
            links[n - 1].0,
            links[n - 1].1,
            links[n - 1].1.len() as int,
        );
    }
}

/// Where no note has two entries, no root occurs twice, and each root is
/// the name of an entry.
pub proof fn lemma_roots_distinct(links: LinkMap, parents: LinkMap, n: int)
    requires
        names_distinct(links),
        0 <= n <= links.len(),
    ensures
        roots_of(links, parents, n).no_duplicates(),
        forall|r: int|
            0 <= r < roots_of(links, parents, n).len() ==> exists|k: int|
                0 <= k < n && (#[trigger] links[k]).0 == #[trigger] roots_of(links, parents, n)[r],
    decreases n,
{
    if n > 0 {
        lemma_roots_distinct(links, parents, n - 1);
        let rest = roots_of(links, parents, n - 1);
        let all = roots_of(links, parents, n);
        assert forall|r: int| 0 <= r < all.len() implies exists|k: int|
            0 <= k < n && (#[trigger] links[k]).0 == #[trigger] all[r] by {
            if r < rest.len() {
                let k = choose|k: int| 0 <= k < n - 1 && (#[trigger] links[k]).0 == rest[r];
                assert(links[k].0 == all[r]);
            } else {
                assert(links[n - 1].0 == all[r]);
            }
        }
        assert forall|a: int, b: int| 0 <= a < all.len() && 0 <= b < all.len() && a != b implies all[a]
            != all[b] by {
            if a < rest.len() && b < rest.len() {
            } else {
                let inner = if a < rest.len() {
                    a
                } else {
                    b
                };
                let k = choose|k: int| 0 <= k < n - 1 && (#[trigger] links[k]).0 == rest[inner];
                assert(links[k].0 != links[n - 1].0);
            }
        }
    }
}

/// Texts that are some texts without duplicates in another order hold
/// none twice.
pub proof fn lemma_reordered_distinct(a: Seq<Seq<char>>, b: Seq<Seq<char>>)
    requires
        a.to_multiset() == b.to_multiset(),
        b.no_duplicates(),
    ensures
        a.no_duplicates(),
{
    b.lemma_multiset_has_no_duplicates();
    a.lemma_multiset_has_no_duplicates_conv();
}

/// Whether a text is among the texts of a vector.
pub fn texts_contain(v: &Vec<String>, name: &str) -> (r: bool)
    ensures
        r == texts(v@).contains(name@),
{
    let mut i: usize = 0;
    while i < v.len()
        invariant
            0 <= i <= v.len(),
            forall|k: int| 0 <= k < i ==> texts(v@)[k] != name@,
        decreases v.len() - i,
    {
        proof {
            assert(texts(v@)[i as int] == v@[i as int]@);
        }
        if text_eq(v[i].as_str(), name) {
            return true;
        }
        i += 1;
    }
    false
}

impl NoteSpace {
    /// The names that each note links to.
    pub open spec fn links(&self) -> LinkMap {
        link_map(self.file_links@)
    }

    /// The notes that link to each name.
    pub open spec fn parents(&self) -> LinkMap {
        link_map(self.link_parents@)
    }

    /// Whether the lists are as `set_file_links` and `set_link_parents`
    /// build them: no note has two entries in the list of links, and no
    /// name two in the list of parents.
    pub open spec fn wf(&self) -> bool {
        names_distinct(self.links()) && names_distinct(self.parents())
    }

    /// A note space over a working directory, without notes.
    pub fn new(work_dir: String) -> (r: Self)
        ensures
            r.work_dir == work_dir,
            r.links() == Seq::<(Seq<char>, Seq<Seq<char>>)>::empty(),
            r.parents() == Seq::<(Seq<char>, Seq<Seq<char>>)>::empty(),
            r.wf(),
            r.directory@.len() == 0,
            r.cur_file is None,
            !r.rename_window.is_show,
            !r.index_window.is_show,
    {
        let r = NoteSpace {
            work_dir,
            file_links: Vec::new(),
            link_parents: Vec::new(),
            directory: Vec::new(),
            cur_file: None,
            rename_window: RenameWin::default(),
            index_window: IndexWind::default(),
        };
        proof {
            assert(r.links() =~= Seq::empty());
            assert(r.parents() =~= Seq::empty());
        }
        r
    }

    pub fn rename_window_active(&mut self, name: &str)
        ensures
            final(self).rename_window.is_show,
            final(self).rename_window.need_focus,
            final(self).rename_window.org_name@ == name@,
            final(self).rename_window.new_name@ == name@,
            final(self).file_links == old(self).file_links,
            final(self).link_parents == old(self).link_parents,
            final(self).cur_file == old(self).cur_file,
            final(self).work_dir == old(self).work_dir,
            final(self).directory == old(self).directory,
            final(self).index_window == old(self).index_window,
    {
        self.rename_window.active(name)
    }

    /// The old and the new name of the note that is given a new name.
    pub fn rename_from_to(&self) -> (r: (String, String))
        ensures
            r.0 == self.rename_window.org_name,
            r.1 == self.rename_window.new_name,
    {
        (self.rename_window.org_name.clone(), self.rename_window.new_name.clone())
    }

    pub fn active_index_window(&mut self)
        ensures
            final(self).index_window == (IndexWind {
                is_show: true,
                must_at_top: true,
                ..old(self).index_window
            }),
            final(self).file_links == old(self).file_links,
            final(self).link_parents == old(self).link_parents,
            final(self).cur_file == old(self).cur_file,
            final(self).work_dir == old(self).work_dir,
            final(self).directory == old(self).directory,
            final(self).rename_window == old(self).rename_window,
    {
        self.index_window.is_show = true;
        self.index_window.must_at_top = true;
    }

    pub fn close_index_window(&mut self)
        ensures
            final(self).index_window == (IndexWind {
                is_show: false,
                must_at_top: false,
                ..old(self).index_window
            }),
            final(self).file_links == old(self).file_links,
            final(self).link_parents == old(self).link_parents,
            final(self).cur_file == old(self).cur_file,
            final(self).work_dir == old(self).work_dir,
            final(self).directory == old(self).directory,
            final(self).rename_window == old(self).rename_window,
    {
        self.index_window.must_at_top = false;
        self.index_window.is_show = false;
    }

    pub fn is_show_index_window(&self) -> (r: bool)
        ensures
            r == self.index_window.is_show,
    {
        self.index_window.is_show
    }

    pub fn set_show_index_window(&mut self, is: bool)
        ensures
            final(self).index_window == (IndexWind {
                is_show: is,
                must_at_top: is,
                ..old(self).index_window
            }),
            final(self).file_links == old(self).file_links,
            final(self).link_parents == old(self).link_parents,
            final(self).cur_file == old(self).cur_file,
            final(self).work_dir == old(self).work_dir,
            final(self).directory == old(self).directory,
            final(self).rename_window == old(self).rename_window,
    {
        if is {
            self.active_index_window();
        } else {
            self.close_index_window();
        }
    }

    pub fn set_current_file(&mut self, cur_file: &CurFile)
        ensures
            final(self).cur_file == Some(*cur_file),
            final(self).file_links == old(self).file_links,
            final(self).link_parents == old(self).link_parents,
            final(self).work_dir == old(self).work_dir,
            final(self).directory == old(self).directory,
            final(self).rename_window == old(self).rename_window,
            final(self).index_window == old(self).index_window,
    {
        self.cur_file = Some(cur_file.clone());
    }

    pub fn get_current_cur(&self) -> (r: Option<CurFile>)
        ensures
            r == self.cur_file,
    {
        match &self.cur_file {
            Some(c) => Some(c.clone()),
            None => None,
        }
    }

    pub fn get_current_path(&self) -> (r: Option<String>)
        ensures
            r == (match self.cur_file {
                Some(CurFile::File(f)) => Some(f.path),
                Some(CurFile::Note(f)) => Some(f.path),
                None => None,
            }),
    {
        match &self.cur_file {
            Some(c) => Some(c.path()),
            None => None,
        }
    }

    pub fn get_current_name(&self) -> (r: Option<String>)
        ensures
            r == (match self.cur_file {
                Some(CurFile::File(f)) => Some(f.name),
                Some(CurFile::Note(f)) => Some(f.name),
                None => None,
            }),
    {
        match &self.cur_file {
            Some(c) => Some(c.name()),
            None => None,
        }
    }

    /// The name of what is open, if it is a file.
    pub fn get_current_file(&self) -> (r: Option<String>)
        ensures
            r == (match self.cur_file {
                Some(CurFile::File(f)) => Some(f.name),
                _ => None,
            }),
    {
        match &self.cur_file {
            Some(c) => if c.is_file() {
                Some(c.name())
            } else {
                None
            },
            None => None,
        }
    }

    /// The name of what is open, if it is a note.
    pub fn get_current_note(&self) -> (r: Option<String>)
        ensures
            r == (match self.cur_file {
                Some(CurFile::Note(f)) => Some(f.name),
                _ => None,
            }),
    {
        match &self.cur_file {
            Some(c) => if c.is_note() {
                Some(c.name())
            } else {
                None
            },
            None => None,
        }
    }

    /// The notes that no note links to, in the order of their names. None
    /// occurs twice where no note has two entries.
    pub fn get_root_files(&self) -> (r: Vec<String>)
        ensures
            texts(r@).to_multiset() == roots_of(
                self.links(),
                self.parents(),
                self.links().len() as int,
            ).to_multiset(),
            texts_sorted(texts(r@)),
            names_distinct(self.links()) ==> texts(r@).no_duplicates(),
    {
        let mut roots: Vec<String> = Vec::new();
        let mut i: usize = 0;
        while i < self.file_links.len()
            invariant
                0 <= i <= self.file_links.len(),
                texts(roots@) =~= roots_of(self.links(), self.parents(), i as int),
            decreases self.file_links.len() - i,
        {
            proof {
                assert(self.links()[i as int].0 == self.file_links@[i as int].0@);
            }
            let at = find_entry(&self.link_parents, self.file_links[i].0.as_str());
            if at >= self.link_parents.len() {
                let name = self.file_links[i].0.clone();
                proof {
                    crate::strings::lemma_texts_push(roots@, name);
                }
                roots.push(name);
            }
            i += 1;
        }
        sort_texts(&mut roots);
        proof {
            if names_distinct(self.links()) {
                let all = roots_of(self.links(), self.parents(), self.links().len() as int);
                lemma_roots_distinct(self.links(), self.parents(), self.links().len() as int);
                lemma_reordered_distinct(texts(roots@), all);
            }
        }
        roots
    }

    /// The names that a name leads to: what the note links to, and for
    /// the name `.` the roots.
    pub fn get_child_links(&self, name: &str) -> (r: Vec<String>)
        ensures
            match linked(self.links(), name@) {
                Some(l) => texts(r@) == l,
                None => if name@ == "."@ {
                    texts(r@).to_multiset() == roots_of(
                        self.links(),
                        self.parents(),
                        self.links().len() as int,
                    ).to_multiset() && texts_sorted(texts(r@)) && (names_distinct(self.links())
                        ==> texts(r@).no_duplicates())
                } else {
                    r@.len() == 0
                },
            },
    {
        let at = find_entry(&self.file_links, name);
        if at < self.file_links.len() {
            proof {
                assert(self.links()[at as int].1 == texts(self.file_links@[at as int].1@));
            }
            clone_texts(&self.file_links[at].1)
        } else if text_eq(name, ".") {
            self.get_root_files()
        } else {
            Vec::new()
        }
    }

    /// The notes that link to a name.
    pub fn get_parents(&self, name: &str) -> (r: Vec<String>)
        ensures
            texts(r@) == (match linked(self.parents(), name@) {
                Some(l) => l,
                None => Seq::empty(),
            }),
    {
        let at = find_entry(&self.link_parents, name);
        if at < self.link_parents.len() {
            proof {
                assert(self.parents()[at as int].1 == texts(self.link_parents@[at as int].1@));
            }
            clone_texts(&self.link_parents[at].1)
        } else {
            let r: Vec<String> = Vec::new();
            proof {
                assert(texts(r@) =~= Seq::<Seq<char>>::empty());
            }
            r
        }
    }

    /// The way from a root down to a note: the note last, before it its
    /// first parent, and so on up, until a name comes again or has no
    /// parent.
    #[verifier::rlimit(50)]
    pub fn get_path_from_link_parents(&self, name: &str) -> (r: Vec<String>)
        ensures
            self.parents().len() < usize::MAX ==> texts(r@) == path_up(
                self.parents(),
                name@,
                Seq::empty(),
                (self.parents().len() + 1) as nat,
            ),
    {
        let mut paths: Vec<String> = Vec::new();
        let mut cur_name = String::from_str(name);
        let len = self.link_parents.len();
        if len == usize::MAX {
            return paths;
        }
        let mut fuel: usize = len + 1;
        proof {
            assert(texts(paths@) =~= Seq::<Seq<char>>::empty());
        }
        loop
            invariant_except_break
                path_up(self.parents(), cur_name@, texts(paths@), fuel as nat) == path_up(
                    self.parents(),
                    name@,
                    Seq::empty(),
                    (len + 1) as nat,
                ),
            invariant
                len == self.link_parents.len(),
                len == self.parents().len(),
            ensures
                texts(paths@) == path_up(
                    self.parents(),
                    name@,
                    Seq::empty(),
                    (len + 1) as nat,
                ),
            decreases fuel,
        {
            if fuel == 0 || texts_contain(&paths, cur_name.as_str()) {
                break ;
            }
            let ghost before = texts(paths@);
            paths.insert(0, cur_name.clone());
            proof {
                assert(texts(paths@) =~= before.insert(0, cur_name@));
            }
            let at = find_entry(&self.link_parents, cur_name.as_str());
            if at < len {
                proof {
                    assert(self.parents()[at as int].1 == texts(self.link_parents@[at as int].1@));
                }
                let parents = &self.link_parents[at].1;
                if parents.len() > 0 {
                    proof {
                        assert(texts(parents@)[0] == parents@[0]@);
                    }
                    cur_name = parents[0].clone();
                } else {
                    break ;
                }
            } else {
                break ;
            }
            fuel -= 1;
        }
        paths
    }

    /// A note with the way to it through the notes that link to it.
    pub fn note_name_to_curfile(&self, name: &str) -> (r: CurFile)
        ensures
            r matches CurFile::Note(f) && f.name@ == name@ && (self.parents().len() < usize::MAX
                ==> f.path@ == "./"@ + join_with(
                path_up(self.parents(), name@, Seq::empty(), (self.parents().len() + 1) as nat),
                "/"@,
            )),
    {
        let way = self.get_path_from_link_parents(name);
        let joined = join_texts(&way, "/");
        let path = text_concat("./", joined.as_str());
        CurFile::Note(FilePath { name: String::from_str(name), path })
    }

    /// The path of the file of a note.
    pub fn name2path(&self, name: &str) -> (r: String)
        ensures
            r@ == self.work_dir@ + "/"@ + name@ + ".md"@,
    {
        let mut r = self.work_dir.clone();
        r.append("/");
        r.append(name);
        r.append(".md");
        r
    }

    /// The path of the file of the settings.
    pub fn config_file(&self) -> (r: String)
        ensures
            r@ == self.work_dir@ + "/"@ + "config.json"@,
    {
        let mut r = self.work_dir.clone();
        r.append("/");
        r.append("config.json");
        r
    }

    /// The path of the directory of the images, with slashes for
    /// backslashes.
    pub fn image_path(&self) -> (r: String)
        ensures
            r@ == join_with(split_on(self.work_dir@ + "/"@ + "images"@, '\\'), "/"@),
    {
        let mut path = self.work_dir.clone();
        path.append("/");
        path.append("images");
        let pieces = split_text(path.as_str(), '\\');
        join_texts(&pieces, "/")
    }

    /// Notes for each note, given by name and text, the notes that its
    /// text links to. Of two notes of one name the later counts.
    #[verifier::rlimit(50)]
    pub fn set_file_links(&mut self, notes: &Vec<(String, String)>)
        ensures
            final(self).links() == links_of_notes(notes@, notes.len() as int),
            names_distinct(final(self).links()),
            final(self).link_parents == old(self).link_parents,
            final(self).work_dir == old(self).work_dir,
            final(self).cur_file == old(self).cur_file,
            final(self).directory == old(self).directory,
            final(self).rename_window == old(self).rename_window,
            final(self).index_window == old(self).index_window,
    {
        let mut map: Vec<LinkEntry> = Vec::new();
        let mut i: usize = 0;
        proof {
            assert(link_map(map@) =~= links_of_notes(notes@, 0));
        }
        while i < notes.len()
            invariant
                0 <= i <= notes.len(),
                link_map(map@) == links_of_notes(notes@, i as int),
            decreases notes.len() - i,
        {
            let name = notes[i].0.clone();
            let links = markdown_get_links(notes[i].1.as_str());
            let ghost before = link_map(map@);
            let at = find_entry(&map, name.as_str());
            if at < map.len() {
                map.set(at, (name, links));
                proof {
                    assert(link_map(map@) =~= before.update(at as int, (name@, texts(links@))));
                }
            } else {
                map.push((name, links));
                proof {
                    assert(link_map(map@) =~= before.push((name@, texts(links@))));
                }
            }
            i += 1;
        }
        self.file_links = map;
        proof {
            lemma_links_of_notes_distinct(notes@, notes.len() as int);
        }
    }

    /// Takes the notes, given by name and text, and builds from them the
    /// links, the list of parents and the tree.
    #[verifier::rlimit(50)]
    pub fn flash_data(&mut self, notes: &Vec<(String, String)>)
        ensures
            final(self).links() == links_of_notes(notes@, notes.len() as int),
            final(self).wf(),
            final(self).parents() == parents_of(final(self).links(), final(self).links().len() as int),
            final(self).work_dir == old(self).work_dir,
            final(self).cur_file == old(self).cur_file,
            final(self).rename_window == old(self).rename_window,
            final(self).index_window == old(self).index_window,
            exists|roots: Seq<Seq<char>>|
                {
                    &&& roots.to_multiset() == roots_of(
                        final(self).links(),
                        final(self).parents(),
                        final(self).links().len() as int,
                    ).to_multiset()
                    &&& texts_sorted(roots)
                    &&& dir_models(final(self).directory@) == #[trigger] trees_below(
                        final(self).links(),
                        roots,
                        roots,
                        0,
                        roots.len(),
                    )
                },
    {
        self.set_file_links(notes);
        self.set_link_parents();
        let ghost mid = *self;
        self.rebuild_directory();
        proof {
            let roots = choose|roots: Seq<Seq<char>>|
                {
                    &&& roots.to_multiset() == roots_of(
                        mid.links(),
                        mid.parents(),
                        mid.links().len() as int,
                    ).to_multiset()
                    &&& texts_sorted(roots)
                    &&& dir_models(self.directory@) == #[trigger] trees_below(
                        mid.links(),
                        roots,
                        roots,
                        0,
                        roots.len(),
                    )
                };
            assert(self.links() == mid.links());
            assert(self.parents() == mid.parents());
            assert(dir_models(self.directory@) == trees_below(
                self.links(),
                roots,
                roots,
                0,
                roots.len(),
            ));
        }
    }

    /// A name for a new note: the first of `untitled_1` to `untitled_998`
    /// that is not among the names taken.
    pub fn new_file_name(&self, taken: &Vec<String>) -> (r: Option<String>)
        ensures
            match r {
                Some(name) => first_free(texts(taken@), 1) matches Some(i) && name@ == untitled(i),
                None => first_free(texts(taken@), 1) is None,
            },
    {
        let mut i: usize = 1;
        while i < 999
            invariant
                1 <= i <= 999,
                first_free(texts(taken@), i as nat) == first_free(texts(taken@), 1),
            decreases 999 - i,
        {
            let digits = number_text(i);
            let name = text_concat("untitled_", digits.as_str());
            if !texts_contain(taken, name.as_str()) {
                return Some(name);
            }
            i += 1;
        }
        None
    }

    /// Builds the list of parents from the links of the notes.
    #[verifier::rlimit(50)]
    pub fn set_link_parents(&mut self)
        ensures
            final(self).parents() == parents_of(old(self).links(), old(self).links().len() as int),
            names_distinct(final(self).parents()),
            final(self).file_links == old(self).file_links,
            final(self).work_dir == old(self).work_dir,
            final(self).cur_file == old(self).cur_file,
            final(self).directory == old(self).directory,
            final(self).rename_window == old(self).rename_window,
            final(self).index_window == old(self).index_window,
    {
        let mut map: Vec<LinkEntry> = Vec::new();
        let mut i: usize = 0;
        proof {
            assert(link_map(map@) =~= parents_of(self.links(), 0));
        }
        while i < self.file_links.len()
            invariant
                0 <= i <= self.file_links.len(),
                link_map(map@) == parents_of(self.links(), i as int),
                *self == *old(self),
            decreases self.file_links.len() - i,
        {
            let file = &self.file_links[i].0;
            let links = &self.file_links[i].1;
            proof {
                assert(self.links()[i as int] == (file@, texts(links@)));
                assert(texts(links@).len() == links.len());
            }
            let mut k: usize = 0;
            while k < links.len()
                invariant
                    0 <= k <= links.len(),
                    link_map(map@) == parents_of_links(
                        parents_of(self.links(), i as int),
                        file@,
                        texts(links@),
                        k as int,
                    ),
                decreases links.len() - k,
            {
                proof {
                    assert(texts(links@)[k as int] == links@[k as int]@);
                }
                let ghost before = link_map(map@);
                let at = find_entry(&map, links[k].as_str());
                if at < map.len() {
                    proof {
                        assert(before[at as int] == (map@[at as int].0@, texts(map@[at as int].1@)));
                    }
                    if !texts_contain(&map[at].1, file.as_str()) {
                        let mut entry = (map[at].0.clone(), clone_texts(&map[at].1));
                        proof {
                            crate::strings::lemma_texts_push(entry.1@, *file);
                        }
                        entry.1.push(file.clone());
                        map.set(at, entry);
                        proof {
                            assert(link_map(map@) =~= before.update(
                                at as int,
                                (before[at as int].0, before[at as int].1.push(file@)),
                            ));
                        }
                    }
                } else {
                    let mut parents: Vec<String> = Vec::new();
                    parents.push(file.clone());
                    proof {
                        assert(texts(parents@) =~= seq![file@]);
                    }
                    let entry = (links[k].clone(), parents);
                    map.push(entry);
                    proof {
                        assert(link_map(map@) =~= before.push((links@[k as int]@, seq![file@])));
                    }
                }
                k += 1;
            }
            i += 1;
        }
        self.link_parents = map;
        proof {
            lemma_parents_of_distinct(old(self).links(), old(self).links().len() as int);
        }
    }

    /// The names that a name leads to, with the roots given.
    fn children_with_roots(&self, roots: &Vec<String>, name: &str) -> (r: Vec<String>)
        ensures
            texts(r@) == children_of(self.links(), texts(roots@), name@),
    {
        let at = find_entry(&self.file_links, name);
        if at < self.file_links.len() {
            proof {
                assert(self.links()[at as int].1 == texts(self.file_links@[at as int].1@));
            }
            clone_texts(&self.file_links[at].1)
        } else if text_eq(name, ".") {
            clone_texts(roots)
        } else {
            let r: Vec<String> = Vec::new();
            proof {
                assert(texts(r@) =~= Seq::<Seq<char>>::empty());
            }
            r
        }
    }

    /// Puts the tree below a note behind `list`, with the roots given.
    #[verifier::rlimit(50)]
    fn push_tree(&self, roots: &Vec<String>, name: &str, deep: usize, list: &mut Vec<DirNote>)
        requires
            deep <= 6,
        ensures
            dir_models(final(list)@) == dir_models(old(list)@) + tree_below(
                self.links(),
                texts(roots@),
                name@,
                deep as nat,
            ),
        decreases 6 - deep,
    {
        if deep > 5 {
            proof {
                assert(dir_models(list@) + Seq::<DirNoteModel>::empty() =~= dir_models(list@));
            }
            return ;
        }
        let ghost start = dir_models(list@);
        let ghost me = DirNoteModel { deep, name: name@ };
        list.push(DirNote { deep, name: String::from_str(name) });
        let children = self.children_with_roots(roots, name);
        let ghost kids = texts(children@);
        proof {
            assert(dir_models(list@) =~= start + seq![me] + trees_below(
                self.links(),
                texts(roots@),
                kids,
                (deep + 1) as nat,
                0,
            ));
        }
        let mut i: usize = 0;
        while i < children.len()
            invariant
                0 <= i <= children.len(),
                deep <= 5,
                kids == texts(children@),
                dir_models(list@) == start + seq![me] + trees_below(
                    self.links(),
                    texts(roots@),
                    kids,
                    (deep + 1) as nat,
                    i as nat,
                ),
            decreases children.len() - i,
        {
            let ghost before = dir_models(list@);
            proof {
                assert(kids[i as int] == children@[i as int]@);
            }
            self.push_tree(roots, children[i].as_str(), deep + 1, list);
            proof {
                let next = trees_below(
                    self.links(),
                    texts(roots@),
                    kids,
                    (deep + 1) as nat,
                    (i + 1) as nat,
                );
                assert(dir_models(list@) =~= start + seq![me] + next);
            }
            i += 1;
        }
        proof {
            assert(kids.len() == children.len());
            assert(start + seq![me] + trees_below(
                self.links(),
                texts(roots@),
                kids,
                (deep + 1) as nat,
                kids.len(),
            ) =~= start + (seq![me] + trees_below(
                self.links(),
                texts(roots@),
                kids,
                (deep + 1) as nat,
                kids.len(),
            )));
        }
    }

    /// Puts the tree below a note behind `list`: the note at depth `deep`,
    /// then the trees of the notes it leads to, down to depth 5.
    pub fn sub_directory(&self, name: &str, deep: usize, list: &mut Vec<DirNote>)
        ensures
            exists|roots: Seq<Seq<char>>|
                {
                    &&& roots.to_multiset() == roots_of(
                        self.links(),
                        self.parents(),
                        self.links().len() as int,
                    ).to_multiset()
                    &&& texts_sorted(roots)
                    &&& dir_models(final(list)@) == dir_models(old(list)@) + #[trigger] tree_below(
                        self.links(),
                        roots,
                        name@,
                        deep as nat,
                    )
                },
    {
        let roots = self.get_root_files();
        if deep <= 5 {
            self.push_tree(&roots, name, deep, list);
        } else {
            proof {
                let none = tree_below(self.links(), texts(roots@), name@, deep as nat);
                assert(dir_models(list@) + none =~= dir_models(list@));
            }
        }
    }

    /// Builds the tree of the notes: the trees below the roots, in the
    /// order of the roots' names.
    #[verifier::rlimit(50)]
    pub fn rebuild_directory(&mut self)
        ensures
            final(self).file_links == old(self).file_links,
            final(self).link_parents == old(self).link_parents,
            final(self).work_dir == old(self).work_dir,
            final(self).cur_file == old(self).cur_file,
            final(self).rename_window == old(self).rename_window,
            final(self).index_window == old(self).index_window,
            exists|roots: Seq<Seq<char>>|
                {
                    &&& roots.to_multiset() == roots_of(
                        old(self).links(),
                        old(self).parents(),
                        old(self).links().len() as int,
                    ).to_multiset()
                    &&& texts_sorted(roots)
                    &&& dir_models(final(self).directory@) == #[trigger] trees_below(
                        old(self).links(),
                        roots,
                        roots,
                        0,
                        roots.len(),
                    )
                },
    {
        let mut list: Vec<DirNote> = Vec::new();
        let roots = self.get_root_files();
        let ghost names = texts(roots@);
        let mut i: usize = 0;
        proof {
            assert(dir_models(list@) =~= trees_below(self.links(), names, names, 0, 0));
        }
        while i < roots.len()
            invariant
                0 <= i <= roots.len(),
                *self == *old(self),
                names == texts(roots@),
                dir_models(list@) == trees_below(self.links(), names, names, 0, i as nat),
            decreases roots.len() - i,
        {
            proof {
                assert(names[i as int] == roots@[i as int]@);
            }
            self.push_tree(&roots, roots[i].as_str(), 0, &mut list);
            i += 1;
        }
        proof {
            assert(names.len() == roots.len());
        }
        self.directory = list;
    }

    /// The tree of the notes as text, a line for each note.
    pub fn get_root_markdown_text(&self) -> (r: String)
        ensures
            r@ == tree_text(dir_models(self.directory@), self.directory.len() as int),
    {
        let mut rs = String::new();
        let mut i: usize = 0;
        while i < self.directory.len()
            invariant
                0 <= i <= self.directory.len(),
                rs@ == tree_text(dir_models(self.directory@), i as int),
            decreases self.directory.len() - i,
        {
            let n = &self.directory[i];
            proof {
                assert(dir_models(self.directory@)[i as int] == (DirNoteModel {
                    deep: n.deep,
                    name: n.name@,
                }));
            }
            let mut node_s = String::new();
            let mut k: usize = 0;
            loop
                invariant_except_break
                    node_s@ == equal_signs(k as int),
                invariant
                    0 <= k <= n.deep,
                ensures
                    node_s@ == equal_signs(n.deep + 1),
                decreases n.deep - k,
            {
                node_s.append("==");
                if k == n.deep {
                    break ;
                }
                k += 1;
            }
            node_s.append(" [[");
            node_s.append(n.name.as_str());
            node_s.append("]]  \n");
            rs.append(node_s.as_str());
            i += 1;
        }
        rs
    }
}

} // verus!
