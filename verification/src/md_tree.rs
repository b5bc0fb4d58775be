//! The tree that the `markdown` crate reads from a text, held as plain
//! values, and what is read off it: the source text of a node and the
//! values of its text nodes.

use crate::strings::texts;
use markdown::mdast::Node;
use markdown::{to_mdast, ParseOptions};
use vstd::prelude::*;
use vstd::string::*;
use vstd::utf8::{decode_utf8, encode_utf8, is_char_boundary};

verus! {

/// The place of a node in the text it was read from: the byte offsets of
/// its start and its end.
#[derive(Clone, Copy, Debug)]
pub struct MdSpan {
    pub start: usize,
    pub end: usize,
}

/// What kind of node stands in a tree, with the values that the kind
/// carries.
#[derive(Debug)]
pub enum MdKind {
    /// A text node and its value.
    Text(String),
    Link,
    List,
    Quote,
    Table,
    /// A code block: its language and its content.
    Code(Option<String>, String),
    /// Any other node.
    Other,
}

/// A node of a tree: its kind, its place in the text where it has one,
/// and its children where its kind can have any.
#[derive(Debug)]
pub struct MdNode {
    pub kind: MdKind,
    pub span: Option<MdSpan>,
    pub children: Option<Vec<MdNode>>,
}

pub enum MdKindModel {
    Text(Seq<char>),
    Link,
    List,
    Quote,
    Table,
    Code(Option<Seq<char>>, Seq<char>),
    Other,
}

pub struct MdNodeModel {
    pub kind: MdKindModel,
    pub span: Option<MdSpan>,
    pub children: Option<Seq<MdNodeModel>>,
}

impl View for MdKind {
    type V = MdKindModel;

    open spec fn view(&self) -> MdKindModel {
        match *self {
            MdKind::Text(v) => MdKindModel::Text(v@),
            MdKind::Link => MdKindModel::Link,
            MdKind::List => MdKindModel::List,
            MdKind::Quote => MdKindModel::Quote,
            MdKind::Table => MdKindModel::Table,
            MdKind::Code(lang, value) => MdKindModel::Code(
                match lang {
                    Some(l) => Some(l@),
                    None => None,
                },
                value@,
            ),
            MdKind::Other => MdKindModel::Other,
        }
    }
}

/// The model of a node.
pub open spec fn node_model(n: MdNode) -> MdNodeModel
    decreases n,
{
    MdNodeModel {
        kind: n.kind@,
        span: n.span,
        children: match n.children {
            Some(v) => Some(nodes_model(v, v.len() as int)),
            None => None,
        },
    }
}

/// The models of the first `k` of some nodes.
pub open spec fn nodes_model(v: Vec<MdNode>, k: int) -> Seq<MdNodeModel>
    decreases v, k,
{
    if k <= 0 || k > v.len() {
        Seq::empty()
    } else {
        nodes_model(v, k - 1).push(node_model(v[k - 1]))
    }
}

impl View for MdNode {
    type V = MdNodeModel;

    open spec fn view(&self) -> MdNodeModel {
        node_model(*self)
    }
}

pub proof fn lemma_nodes_model(v: Vec<MdNode>, k: int)
    requires
        0 <= k <= v.len(),
    ensures
        nodes_model(v, k).len() == k,
        forall|i: int| 0 <= i < k ==> (#[trigger] nodes_model(v, k)[i]) == v[i]@,
    decreases k,
{
    if k > 0 {
        lemma_nodes_model(v, k - 1);
    }
}

/// The children of a node are the models of its children.
pub proof fn lemma_children(n: MdNode)
    ensures
        n.children is Some <==> n@.children is Some,
        n.children matches Some(v) ==> n@.children->0.len() == v.len() && forall|i: int|
            0 <= i < v.len() ==> (#[trigger] n@.children->0[i]) == v[i]@,
{
    if let Some(v) = n.children {
        lemma_nodes_model(v, v.len() as int);
    }
}

/// The models of some nodes.
pub open spec fn node_models(v: Seq<MdNode>) -> Seq<MdNodeModel> {
    Seq::new(v.len(), |i: int| v[i]@)
}

pub open spec fn tree_view(o: Option<MdNode>) -> Option<MdNodeModel> {
    match o {
        Some(n) => Some(n@),
        None => None,
    }
}

/// `markdown::mdast::Node`, a node of the tree that the `markdown` crate
/// builds; nothing inside it is seen here.
#[verifier::external_type_specification]
#[verifier::external_body]
pub struct ExNode(Node);

/// The tree that the `markdown` crate reads from a text as GitHub
/// flavoured markdown, or `None` where it gives none.
pub uninterp spec fn gfm_tree_of(text: Seq<char>) -> Option<MdNodeModel>;

/// What a node of the `markdown` crate holds: its kind with the values
/// of a text node or a code block, the offsets of its position, and its
/// children in their order.
pub uninterp spec fn node_plain(n: Node) -> MdNodeModel;

/// `markdown::to_mdast` with the options of `ParseOptions::gfm`. Nothing
/// is proved of it; what the tree holds is named `gfm_tree_of`.
#[verifier::external_body]
pub(crate) fn gfm_parse(text: &str) -> (r: Option<Node>)
    ensures
        r matches Some(n) ==> gfm_tree_of(text@) == Some(node_plain(n)),
        r is None ==> gfm_tree_of(text@) is None,
{
    to_mdast(text, &ParseOptions::gfm()).ok()
}

/// A node of the `markdown` crate as plain values: the variant of `Node`
/// with the fields of `Text` and `Code`, `Node::position` with the
/// offsets of its two points, and `Node::children`, each child turned in
/// the same way. Nothing is proved of it; the result is named
/// `node_plain`.
#[verifier::external_body]
pub(crate) fn node_of(n: &Node) -> (r: MdNode)
    ensures
        r@ == node_plain(*n),
{
    let kind = match n {
        Node::Text(t) => MdKind::Text(t.value.clone()),
        Node::Link(_) => MdKind::Link,
        Node::List(_) => MdKind::List,
        Node::Blockquote(_) => MdKind::Quote,
        Node::Table(_) => MdKind::Table,
        Node::Code(c) => MdKind::Code(c.lang.clone(), c.value.clone()),
        _ => MdKind::Other,
    };
    let span = n.position().map(|p| MdSpan { start: p.start.offset, end: p.end.offset });
    let children = n.children().map(|c| c.iter().map(node_of).collect());
    MdNode { kind, span, children }
}

/// The tree of a text read as GitHub flavoured markdown.
pub fn gfm_tree(text: &str) -> (r: Option<MdNode>)
    ensures
        tree_view(r) == gfm_tree_of(text@),
{
    match gfm_parse(text) {
        Some(n) => Some(node_of(&n)),
        None => None,
    }
}

/// What stands in a text between two byte offsets, where both lie in the
/// text on the boundary of a character and the first is not behind the
/// second.
pub open spec fn source_at(text: Seq<char>, start: int, end: int) -> Option<Seq<char>> {
    let bytes = encode_utf8(text);
    if 0 <= start <= end <= bytes.len() && is_char_boundary(bytes, start) && is_char_boundary(
        bytes,
        end,
    ) {
        Some(decode_utf8(bytes.subrange(start, end)))
    } else {
        None
    }
}

/// The source text of a node: what stands in the text at its place.
pub open spec fn node_source(text: Seq<char>, n: MdNodeModel) -> Option<Seq<char>> {
    match n.span {
        Some(s) => source_at(text, s.start as int, s.end as int),
        None => None,
    }
}

pub open spec fn opt_view(o: Option<String>) -> Option<Seq<char>> {
    match o {
        Some(s) => Some(s@),
        None => None,
    }
}

/// A byte offset that is a boundary of a text up to `end` is one of the
/// bytes before `end` alone.
proof fn lemma_boundary_in_prefix(bytes: Seq<u8>, start: int, end: int)
    requires
        vstd::utf8::valid_utf8(bytes),
        0 <= start <= end <= bytes.len(),
        is_char_boundary(bytes, start),
        is_char_boundary(bytes, end),
    ensures
        vstd::utf8::valid_utf8(bytes.subrange(0, end)),
        is_char_boundary(bytes.subrange(0, end), start),
{
    let head = bytes.subrange(0, end);
    vstd::utf8::valid_utf8_split(bytes, end);
    if start == end {
        vstd::utf8::is_char_boundary_start_end_of_seq(head);
    } else {
        vstd::utf8::is_char_boundary_iff_not_is_continuation_byte(bytes, start);
        vstd::utf8::is_char_boundary_iff_not_is_continuation_byte(head, start);
    }
}

/// The part of a text between two byte offsets, or `None` where an
/// offset lies outside the text or inside a character, or the first lies
/// behind the second.
pub fn source_between(text: &str, start: usize, end: usize) -> (r: Option<String>)
    ensures
        opt_view(r) == source_at(text@, start as int, end as int),
        r matches Some(s) ==> encode_utf8(s@) == encode_utf8(text@).subrange(
            start as int,
            end as int,
        ),
{
    proof {
        assert(text.spec_bytes() == encode_utf8(text@));
        vstd::utf8::encode_utf8_valid_utf8(text@);
    }
    if start > end || end > text.as_bytes().len() {
        return None;
    }
    if !text.is_char_boundary(start) || !text.is_char_boundary(end) {
        return None;
    }
    proof {
        lemma_boundary_in_prefix(text.spec_bytes(), start as int, end as int);
    }
    let (head, _) = text.split_at(end);
    let (_, part) = head.split_at(start);
    let s = part.to_owned();
    proof {
        assert(part.spec_bytes() == encode_utf8(part@));
        assert(part.spec_bytes() =~= text.spec_bytes().subrange(start as int, end as int));
        vstd::utf8::encode_utf8_decode_utf8(s@);
    }
    Some(s)
}

/// The values of the text nodes of a tree in the order of the text,
/// without those that stand under a link.
pub open spec fn texts_outside_links(n: MdNodeModel) -> Seq<Seq<char>>
    decreases n,
{
    match n.kind {
        MdKindModel::Text(v) => seq![v],
        MdKindModel::Link => Seq::empty(),
        _ => match n.children {
            Some(cs) => texts_in_first(cs, cs.len() as int),
            None => Seq::empty(),
        },
    }
}

/// The values of the text nodes outside links in the first `k` of some
/// trees.
pub open spec fn texts_in_first(cs: Seq<MdNodeModel>, k: int) -> Seq<Seq<char>>
    decreases cs, k,
{
    if k <= 0 || k > cs.len() {
        Seq::empty()
    } else {
        texts_in_first(cs, k - 1) + texts_outside_links(cs[k - 1])
    }
}

/// The values of the text nodes of a tree outside its links.
pub fn text_values(tree: &MdNode) -> (r: Vec<String>)
    ensures
        texts(r@) == texts_outside_links(tree@),
    decreases tree,
{
    let mut out: Vec<String> = Vec::new();
    proof {
        lemma_children(*tree);
        assert(texts(out@) =~= Seq::<Seq<char>>::empty());
    }
    match &tree.kind {
        MdKind::Text(v) => {
            out.push(v.clone());
            proof {
                assert(texts(out@) =~= seq![v@]);
            }
            out
        },
        MdKind::Link => out,
        _ => match &tree.children {
            Some(cs) => {
                let ghost kids = tree@.children->0;
                let mut i: usize = 0;
                while i < cs.len()
                    invariant
                        0 <= i <= cs.len(),
                        tree.children == Some(*cs),
                        kids.len() == cs.len(),
                        forall|k: int| 0 <= k < cs.len() ==> (#[trigger] kids[k]) == cs[k]@,
                        texts(out@) =~= texts_in_first(kids, i as int),
                    decreases cs.len() - i,
                {
                    proof {
                        assert(tree.children->Some_0 == *cs);
                    }
                    let mut part = text_values(&cs[i]);
                    proof {
                        assert(texts(out@ + part@) =~= texts(out@) + texts(part@));
                    }
                    out.append(&mut part);
                    i += 1;
                }
                out
            },
            None => out,
        },
    }
}

} // verus!
