//! The document tree of a page, and the questions that the extraction asks
//! of it. The tree is `select`'s; this module says what each question
//! returns and leaves the answering to `select`.

use select::document::Document;
use select::predicate::{Class, Name, Predicate};
use vstd::prelude::*;

verus! {

/// `select`'s document: the nodes of a parsed markup text. Nothing is said
/// of what is inside it but through the functions below.
#[verifier::external_type_specification]
#[verifier::external_body]
pub struct ExDocument(select::document::Document);

/// What a node of a document is.
pub ghost enum NodeKind {
    Text,
    Element,
    Comment,
}

/// One node of a document, as plain values. It says what `select` keeps of
/// a node in its `Raw` record: what the node is, its links to the nodes
/// around it (each the index of a node), and what it holds. An element
/// holds its local name and its attributes, each a local name and a value,
/// in their stored order; a text or a comment holds its text.
pub ghost struct NodeRecord {
    pub kind: NodeKind,
    pub parent: Option<usize>,
    pub previous: Option<usize>,
    pub next: Option<usize>,
    pub first_child: Option<usize>,
    pub last_child: Option<usize>,
    pub name: Seq<char>,
    pub attributes: Seq<(Seq<char>, Seq<char>)>,
    pub text: Seq<char>,
}

/// The nodes that a document holds in its public field `nodes`, each at
/// its index.
pub uninterp spec fn document_nodes(document: Document) -> Seq<NodeRecord>;

/// The nodes of the document that `Document::from` builds from a markup text.
pub uninterp spec fn parsed_nodes(markup: Seq<char>) -> Seq<NodeRecord>;

/// What `Node::find` yields, in its order: the descendants of the node
/// `scope` that carry every class of `classes` (by `Class`) and, where `tag`
/// names one, have that element name (by `Name`).
pub uninterp spec fn found_below(
    nodes: Seq<NodeRecord>,
    scope: usize,
    classes: Seq<Seq<char>>,
    tag: Option<Seq<char>>,
) -> Seq<usize>;

/// What `Document::find` yields, in its order: the nodes of the document
/// that carry every class of `classes`.
pub uninterp spec fn found_in(nodes: Seq<NodeRecord>, classes: Seq<Seq<char>>) -> Seq<usize>;

/// What `Node::text` returns: the text of a node and of all below it.
pub uninterp spec fn text_of(nodes: Seq<NodeRecord>, node: usize) -> Seq<char>;

/// What `Node::children` yields, in its order: the children of a node.
pub uninterp spec fn children_of(nodes: Seq<NodeRecord>, node: usize) -> Seq<usize>;

/// The value of the first attribute of the given name among some attributes.
pub open spec fn first_value(attributes: Seq<(Seq<char>, Seq<char>)>, name: Seq<char>) -> Option<
    Seq<char>,
>
    decreases attributes.len(),
{
    if attributes.len() == 0 {
        None
    } else if attributes[0].0 == name {
        Some(attributes[0].1)
    } else {
        first_value(attributes.drop_first(), name)
    }
}

/// The value of a node's attribute of the given name: that of the first such
/// attribute of an element, none for any other node.
pub open spec fn attribute_of(node: NodeRecord, name: Seq<char>) -> Option<Seq<char>> {
    if node.kind is Element {
        first_value(node.attributes, name)
    } else {
        None
    }
}

/// The element name of a node; a node that is no element has none.
pub open spec fn tag_of(node: NodeRecord) -> Option<Seq<char>> {
    if node.kind is Element {
        Some(node.name)
    } else {
        None
    }
}

/// Whether every index of a list is that of a node.
pub open spec fn all_within(found: Seq<usize>, nodes: Seq<NodeRecord>) -> bool {
    forall|k: int| 0 <= k < found.len() ==> (#[trigger] found[k]) < nodes.len()
}

/// A parsed page. It is built by `Page::parse` alone, so that its tree is
/// one that `select`'s parser has linked.
pub struct Page {
    document: Document,
}

impl View for Page {
    type V = Seq<NodeRecord>;

    closed spec fn view(&self) -> Seq<NodeRecord> {
        document_nodes(self.document)
    }
}

/// The longest markup text that is parsed, in characters.
pub const PARSE_LIMIT: usize = 0x2000_0000;

/// Calls `Document::from` on a markup text, which parses it as HTML and
/// stores the nodes of the tree. The result depends on the text alone.
/// `select` keeps text in tendrils. A tendril holds less than 2^32 bytes,
/// and one that grows holds at most 2^31. The parser makes at most four
/// bytes of a character (a NUL character becomes U+FFFD), so no tendril of
/// a text within the limit grows beyond that.
#[verifier::external_body]
fn parse_document(markup: &str) -> (document: Document)
    requires
        markup@.len() <= PARSE_LIMIT,
    ensures
        document_nodes(document) == parsed_nodes(markup@),
{
    Document::from(markup)
}

/// Reads the length of the public field `nodes` of a `Document`.
#[verifier::external_body]
fn count_nodes(page: &Page) -> (count: usize)
    ensures
        count == page@.len(),
{
    page.document.nodes.len()
}

/// Calls `Node::find` with the predicate `Class` on the node at `scope`,
/// and takes the index of each node that it yields. The node is had from
/// `Document::nth`, which has one for every index below the number of
/// nodes. `find` walks the descendants of the node, which are nodes of the
/// same document.
#[verifier::external_body]
pub(crate) fn find_by_class(page: &Page, scope: usize, class: &str) -> (found: Vec<usize>)
    requires
        scope < page@.len(),
    ensures
        found@ == found_below(page@, scope, seq![class@], None),
        all_within(found@, page@),
{
    page.document.nth(scope).unwrap().find(Class(class)).map(|node| node.index()).collect()
}

/// Calls `Node::find` with the predicate `Name` on the node at `scope`, and
/// takes the index of each node that it yields.
#[verifier::external_body]
pub(crate) fn find_by_tag(page: &Page, scope: usize, tag: &str) -> (found: Vec<usize>)
    requires
        scope < page@.len(),
    ensures
        found@ == found_below(page@, scope, Seq::empty(), Some(tag@)),
        all_within(found@, page@),
{
    page.document.nth(scope).unwrap().find(Name(tag)).map(|node| node.index()).collect()
}

/// Calls `Node::find` with `Class` and `Name` joined by `Predicate::and` on
/// the node at `scope`, and takes the index of each node that it yields.
#[verifier::external_body]
pub(crate) fn find_by_class_and_tag(page: &Page, scope: usize, class: &str, tag: &str) -> (found:
    Vec<usize>)
    requires
        scope < page@.len(),
    ensures
        found@ == found_below(page@, scope, seq![class@], Some(tag@)),
        all_within(found@, page@),
{
    let both = Class(class).and(Name(tag));
    page.document.nth(scope).unwrap().find(both).map(|node| node.index()).collect()
}

/// Calls `Node::find` with three `Class` predicates joined by
/// `Predicate::and` on the node at `scope`, and takes the index of each node
/// that it yields.
#[verifier::external_body]
pub(crate) fn find_by_classes(page: &Page, scope: usize, first: &str, second: &str, third: &str)
    -> (found: Vec<usize>)
    requires
        scope < page@.len(),
    ensures
        found@ == found_below(page@, scope, seq![first@, second@, third@], None),
        all_within(found@, page@),
{
    let all = Class(first).and(Class(second)).and(Class(third));
    page.document.nth(scope).unwrap().find(all).map(|node| node.index()).collect()
}

/// Calls `Document::find` with the predicate `Class`, and takes the index of
/// each node that it yields. `find` walks the nodes of the document.
#[verifier::external_body]
pub(crate) fn find_in_page(page: &Page, class: &str) -> (found: Vec<usize>)
    ensures
        found@ == found_in(page@, seq![class@]),
        all_within(found@, page@),
{
    page.document.find(Class(class)).map(|node| node.index()).collect()
}

/// Calls `Node::text` on the node at `node`.
#[verifier::external_body]
pub(crate) fn node_text(page: &Page, node: usize) -> (text: String)
    requires
        node < page@.len(),
    ensures
        text@ == text_of(page@, node),
{
    page.document.nth(node).unwrap().text()
}

/// Calls `Node::attr` on the node at `node`. For an element `attr` returns
/// the value of the first attribute whose local name is `name`; for any
/// other node it returns none.
#[verifier::external_body]
pub(crate) fn node_attribute(page: &Page, node: usize, name: &str) -> (value: Option<String>)
    requires
        node < page@.len(),
    ensures
        value.deep_view() == attribute_of(page@[node as int], name@),
{
    page.document.nth(node).unwrap().attr(name).map(|value| value.to_owned())
}

/// Calls `Node::name` on the node at `node`, which returns the local name
/// of an element and none for any other node.
#[verifier::external_body]
pub(crate) fn node_tag(page: &Page, node: usize) -> (tag: Option<String>)
    requires
        node < page@.len(),
    ensures
        tag.deep_view() == tag_of(page@[node as int]),
{
    page.document.nth(node).unwrap().name().map(|name| name.to_owned())
}

/// Calls `Node::children` on the node at `node`, and takes the index of each
/// node that it yields. The children are nodes of the same document.
#[verifier::external_body]
pub(crate) fn node_children(page: &Page, node: usize) -> (children: Vec<usize>)
    requires
        node < page@.len(),
    ensures
        children@ == children_of(page@, node),
        all_within(children@, page@),
{
    page.document.nth(node).unwrap().children().map(|child| child.index()).collect()
}

impl Page {
    /// Parses a markup text into a page. The text is no longer than the
    /// parser takes.
    pub fn parse(markup: &str) -> (page: Page)
        requires
            markup@.len() <= PARSE_LIMIT,
        ensures
            page@ == parsed_nodes(markup@),
    {
        Page { document: parse_document(markup) }
    }

    /// Parses a markup text into a page; a text that is longer than the
    /// parser takes gives none.
    pub fn parse_checked(markup: &str) -> (page: Option<Page>)
        ensures
            match page {
                Some(parsed) => markup@.len() <= PARSE_LIMIT && parsed@ == parsed_nodes(markup@),
                None => markup@.len() > PARSE_LIMIT,
            },
    {
        if markup.unicode_len() <= PARSE_LIMIT {
            Some(Page::parse(markup))
        } else {
            None
        }
    }

    /// The number of nodes of the page.
    pub fn node_count(&self) -> (count: usize)
        ensures
            count == self@.len(),
    {
        count_nodes(self)
    }

    /// Tells whether an index is that of a node of the page.
    pub fn holds(&self, node: usize) -> (held: bool)
        ensures
            held == (node < self@.len()),
    {
        node < self.node_count()
    }
}

/// The first of a list of found nodes.
pub open spec fn first_of(found: Seq<usize>) -> Option<usize> {
    if found.len() > 0 {
        Some(found[0])
    } else {
        None
    }
}

/// Takes the first of a list of found nodes.
pub(crate) fn first_found(found: &Vec<usize>) -> (first: Option<usize>)
    ensures
        first == first_of(found@),
{
    if found.len() > 0 {
        Some(found[0])
    } else {
        None
    }
}

/// The first node that `found_below` lists below a node, where there is a
/// node to look below.
pub open spec fn first_below(
    nodes: Seq<NodeRecord>,
    scope: Option<usize>,
    classes: Seq<Seq<char>>,
    tag: Option<Seq<char>>,
) -> Option<usize> {
    match scope {
        Some(scope) => first_of(found_below(nodes, scope, classes, tag)),
        None => None,
    }
}

/// Whether a node, where there is one, is a node of the page.
pub open spec fn within(node: Option<usize>, nodes: Seq<NodeRecord>) -> bool {
    node matches Some(index) ==> index < nodes.len()
}

/// The first descendant of a node that carries a class.
pub(crate) fn first_by_class(page: &Page, scope: Option<usize>, class: &str) -> (first: Option<
    usize,
>)
    requires
        within(scope, page@),
    ensures
        first == first_below(page@, scope, seq![class@], None),
        within(first, page@),
{
    match scope {
        Some(scope) => {
            let found = find_by_class(page, scope, class);
            first_found(&found)
        },
        None => None,
    }
}

/// The first descendant of a node that has an element name.
pub(crate) fn first_by_tag(page: &Page, scope: Option<usize>, tag: &str) -> (first: Option<usize>)
    requires
        within(scope, page@),
    ensures
        first == first_below(page@, scope, Seq::empty(), Some(tag@)),
        within(first, page@),
{
    match scope {
        Some(scope) => {
            let found = find_by_tag(page, scope, tag);
            first_found(&found)
        },
        None => None,
    }
}

/// The first descendant of a node that carries a class and has an element
/// name.
pub(crate) fn first_by_class_and_tag(page: &Page, scope: Option<usize>, class: &str, tag: &str)
    -> (first: Option<usize>)
    requires
        within(scope, page@),
    ensures
        first == first_below(page@, scope, seq![class@], Some(tag@)),
        within(first, page@),
{
    match scope {
        Some(scope) => {
            let found = find_by_class_and_tag(page, scope, class, tag);
            first_found(&found)
        },
        None => None,
    }
}

/// The text of a node, where there is a node.
pub open spec fn text_at(nodes: Seq<NodeRecord>, node: Option<usize>) -> Option<Seq<char>> {
    match node {
        Some(node) => Some(text_of(nodes, node)),
        None => None,
    }
}

/// The value of an attribute of a node, where there is a node.
pub open spec fn attribute_at(nodes: Seq<NodeRecord>, node: Option<usize>, name: Seq<char>)
    -> Option<Seq<char>> {
    match node {
        Some(node) => attribute_of(nodes[node as int], name),
        None => None,
    }
}

/// Reads the text of a node, where there is a node.
pub(crate) fn text_if(page: &Page, node: Option<usize>) -> (text: Option<String>)
    requires
        within(node, page@),
    ensures
        text.deep_view() == text_at(page@, node),
{
    match node {
        Some(node) => Some(node_text(page, node)),
        None => None,
    }
}

/// Reads an attribute of a node, where there is a node.
pub(crate) fn attribute_if(page: &Page, node: Option<usize>, name: &str) -> (value: Option<String>)
    requires
        within(node, page@),
    ensures
        value.deep_view() == attribute_at(page@, node, name@),
{
    match node {
        Some(node) => node_attribute(page, node, name),
        None => None,
    }
}

} // verus!
