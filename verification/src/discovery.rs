//! Finding the way from page to page: the tournaments that a listing page
//! links to, the name of an event, and the tabs of an event page. Fetching
//! the pages is left to the caller.

use crate::page::{
    all_within, attribute_at, attribute_if, attribute_of, find_by_class, find_by_classes,
    find_by_tag, find_in_page, first_below, first_by_class, first_by_tag, first_found, first_of,
    found_below,
    found_in, node_attribute, node_text, text_at, text_if, text_of, NodeRecord, Page,
};
use crate::text::equal_text;
use vstd::prelude::*;
use vstd::string::StringExecFns;

verus! {

/// The link of a row of a listing: the target of the first anchor in the
/// first `b` of its tournament header cell.
pub open spec fn row_link(nodes: Seq<NodeRecord>, row: usize) -> Option<Seq<char>> {
    let cell = first_below(nodes, Some(row), seq!["divCell"@, "Tournament"@, "Header"@], None);
    let bold = first_below(nodes, cell, Seq::empty(), Some("b"@));
    let anchor = first_below(nodes, bold, Seq::empty(), Some("a"@));
    attribute_at(nodes, anchor, "href"@)
}

/// The addresses that a list of rows links to, behind those gathered
/// before: the base address, then the row's link.
pub open spec fn row_addresses(
    nodes: Seq<NodeRecord>,
    gathered: Seq<Seq<char>>,
    rows: Seq<usize>,
    base: Seq<char>,
) -> Seq<Seq<char>>
    decreases rows.len(),
{
    if rows.len() == 0 {
        gathered
    } else {
        let before = row_addresses(nodes, gathered, rows.drop_last(), base);
        match row_link(nodes, rows.last()) {
            Some(link) => before.push(base + link),
            None => before,
        }
    }
}

/// The addresses that a list of tables links to: those of the rows of each
/// table in turn.
pub open spec fn table_addresses(nodes: Seq<NodeRecord>, tables: Seq<usize>, base: Seq<char>)
    -> Seq<Seq<char>>
    decreases tables.len(),
{
    if tables.len() == 0 {
        Seq::empty()
    } else {
        row_addresses(
            nodes,
            table_addresses(nodes, tables.drop_last(), base),
            found_below(nodes, tables.last(), seq!["divRow"@], None),
            base,
        )
    }
}

/// The addresses of the tournaments that a listing page links to.
pub open spec fn tournament_addresses(nodes: Seq<NodeRecord>, base: Seq<char>) -> Seq<Seq<char>> {
    table_addresses(nodes, found_in(nodes, seq!["divTable"@]), base)
}

/// Reads the link of a row of a listing.
fn read_row_link(page: &Page, row: usize) -> (link: Option<String>)
    requires
        row < page@.len(),
    ensures
        link.deep_view() == row_link(page@, row),
{
    let cells = find_by_classes(page, row, "divCell", "Tournament", "Header");
    let cell = first_found(&cells);
    let bold = first_by_tag(page, cell, "b");
    let anchor = first_by_tag(page, bold, "a");
    attribute_if(page, anchor, "href")
}

/// Lists the addresses of the tournaments that a listing page links to,
/// each the base address followed by the link.
pub fn tournament_links(page: &Page, base: &str) -> (addresses: Vec<String>)
    ensures
        addresses.deep_view() == tournament_addresses(page@, base@),
{
    let tables = find_in_page(page, "divTable");
    let mut addresses: Vec<String> = Vec::new();
    assert(addresses.deep_view() =~= table_addresses(page@, tables@.take(0), base@));
    let mut at: usize = 0;
    while at < tables.len()
        invariant
            at <= tables.len(),
            all_within(tables@, page@),
            addresses.deep_view() == table_addresses(page@, tables@.take(at as int), base@),
        decreases tables.len() - at,
    {
        let rows = find_by_class(page, tables[at], "divRow");
        let ghost gathered = addresses.deep_view();
        assert(rows@.take(0).len() == 0);
        let mut row: usize = 0;
        while row < rows.len()
            invariant
                row <= rows.len(),
                all_within(rows@, page@),
                addresses.deep_view() == row_addresses(
                    page@,
                    gathered,
                    rows@.take(row as int),
                    base@,
                ),
            decreases rows.len() - row,
        {
            assert(rows@.take(row + 1).drop_last() == rows@.take(row as int));
            let ghost before = addresses.deep_view();
            match read_row_link(page, rows[row]) {
                Some(link) => {
                    let address = base.to_owned().concat(link.as_str());
                    let ghost added = address@;
                    addresses.push(address);
                    assert(addresses.deep_view() =~= before.push(added));
                },
                None => {},
            }
            row = row + 1;
        }
        assert(rows@.take(row as int) == rows@);
        assert(tables@.take(at + 1).drop_last() == tables@.take(at as int));
        at = at + 1;
    }
    assert(tables@.take(at as int) == tables@);
    addresses
}

/// The name of the event of a page: the text of the first `span` in its
/// first heading.
pub open spec fn event_title(nodes: Seq<NodeRecord>) -> Option<Seq<char>> {
    let heading = first_of(found_in(nodes, seq!["firstHeading"@]));
    text_at(nodes, first_below(nodes, heading, Seq::empty(), Some("span"@)))
}

/// Reads the name of the event of a page.
pub fn event_name(page: &Page) -> (name: Option<String>)
    ensures
        name.deep_view() == event_title(page@),
{
    let headings = find_in_page(page, "firstHeading");
    let heading = first_found(&headings);
    let label = first_by_tag(page, heading, "span");
    text_if(page, label)
}

/// One row of tabs of an event page: its id, the address and the title of
/// each tab that links to a page, and the title of the tab that is the page
/// itself.
#[derive(Debug)]
pub struct TabFacts {
    pub id: String,
    pub tabs: Vec<(String, String)>,
    pub current: Option<String>,
}

/// A row of tabs as plain values.
pub ghost struct TabView {
    pub id: Seq<char>,
    pub tabs: Seq<(Seq<char>, Seq<char>)>,
    pub current: Option<Seq<char>>,
}

impl View for TabFacts {
    type V = TabView;

    open spec fn view(&self) -> TabView {
        TabView {
            id: self.id@,
            tabs: self.tabs.deep_view(),
            current: self.current.deep_view(),
        }
    }
}

impl DeepView for TabFacts {
    type V = TabView;

    open spec fn deep_view(&self) -> TabView {
        self@
    }
}

/// Whether a row of tabs is still to be walked: it has an id, and the id is
/// not among those walked.
pub open spec fn is_open(nodes: Seq<NodeRecord>, nav: usize, walked: Seq<Seq<char>>) -> bool {
    attribute_of(nodes[nav as int], "id"@) matches Some(id) && !walked.contains(id)
}

/// The first of a list of rows of tabs that is still to be walked.
pub open spec fn first_open(nodes: Seq<NodeRecord>, navs: Seq<usize>, walked: Seq<Seq<char>>)
    -> Option<usize>
    decreases navs.len(),
{
    if navs.len() == 0 {
        None
    } else if is_open(nodes, navs[0], walked) {
        Some(navs[0])
    } else {
        first_open(nodes, navs.drop_first(), walked)
    }
}

/// The tabs at a list of anchors: of each anchor that has a target, the
/// base address followed by the target, and the anchor's text.
pub open spec fn tabs_at(nodes: Seq<NodeRecord>, anchors: Seq<usize>, base: Seq<char>) -> Seq<
    (Seq<char>, Seq<char>),
>
    decreases anchors.len(),
{
    if anchors.len() == 0 {
        Seq::empty()
    } else {
        let before = tabs_at(nodes, anchors.drop_last(), base);
        match attribute_of(nodes[anchors.last() as int], "href"@) {
            Some(target) => before.push((base + target, text_of(nodes, anchors.last()))),
            None => before,
        }
    }
}

/// What a row of tabs shows.
pub open spec fn tab_facts(nodes: Seq<NodeRecord>, nav: usize, base: Seq<char>) -> TabView {
    TabView {
        id: attribute_of(nodes[nav as int], "id"@)->0,
        tabs: tabs_at(nodes, found_below(nodes, nav, Seq::empty(), Some("a"@)), base),
        current: text_at(nodes, first_below(nodes, Some(nav), seq!["selflink"@], None)),
    }
}

/// The next row of tabs to walk on an event page: the first static row of
/// tabs that has an id which is not among those walked. None is left when
/// all rows are walked.
pub open spec fn next_row(nodes: Seq<NodeRecord>, walked: Seq<Seq<char>>, base: Seq<char>)
    -> Option<TabView> {
    match first_open(nodes, found_in(nodes, seq!["tabs-static"@]), walked) {
        Some(nav) => Some(tab_facts(nodes, nav, base)),
        None => None,
    }
}

/// The row that is walked next is none of those walked before: its id is
/// new. So a walk that adds each id it is given ends.
pub proof fn lemma_next_row_is_new(nodes: Seq<NodeRecord>, walked: Seq<Seq<char>>, base: Seq<char>)
    ensures
        next_row(nodes, walked, base) matches Some(row) ==> !walked.contains(row.id),
{
    lemma_first_open(nodes, found_in(nodes, seq!["tabs-static"@]), walked);
}

/// What `first_open` gives is one of the rows and is still to be walked.
pub proof fn lemma_first_open(nodes: Seq<NodeRecord>, navs: Seq<usize>, walked: Seq<Seq<char>>)
    ensures
        first_open(nodes, navs, walked) matches Some(nav) ==> navs.contains(nav) && is_open(
            nodes,
            nav,
            walked,
        ),
    decreases navs.len(),
{
    if navs.len() == 0 {
    } else if is_open(nodes, navs[0], walked) {
        assert(navs[0] == navs[0]);
    } else {
        lemma_first_open(nodes, navs.drop_first(), walked);
        if let Some(nav) = first_open(nodes, navs.drop_first(), walked) {
            let rest = navs.drop_first();
            let at = choose|at: int| 0 <= at < rest.len() && rest[at] == nav;
            assert(navs[at + 1] == nav);
        }
    }
}

/// Tells whether a list of texts holds a text.
pub fn holds_text(texts: &Vec<String>, wanted: &str) -> (held: bool)
    ensures
        held == texts.deep_view().contains(wanted@),
{
    let ghost all = texts.deep_view();
    let mut at: usize = 0;
    while at < texts.len()
        invariant
            at <= texts.len(),
            all == texts.deep_view(),
            forall|i: int| 0 <= i < at ==> all[i] != wanted@,
        decreases texts.len() - at,
    {
        assert(all[at as int] == texts@[at as int]@);
        if equal_text(texts[at].as_str(), wanted) {
            return true;
        }
        at = at + 1;
    }
    false
}

/// Reads the tabs of a row.
fn read_tabs(page: &Page, nav: usize, base: &str) -> (tabs: Vec<(String, String)>)
    requires
        nav < page@.len(),
    ensures
        tabs.deep_view() == tabs_at(
            page@,
            found_below(page@, nav, Seq::empty(), Some("a"@)),
            base@,
        ),
{
    let anchors = find_by_tag(page, nav, "a");
    let mut tabs: Vec<(String, String)> = Vec::new();
    assert(tabs.deep_view() =~= tabs_at(page@, anchors@.take(0), base@));
    let mut at: usize = 0;
    while at < anchors.len()
        invariant
            at <= anchors.len(),
            all_within(anchors@, page@),
            tabs.deep_view() == tabs_at(page@, anchors@.take(at as int), base@),
        decreases anchors.len() - at,
    {
        assert(anchors@.take(at + 1).drop_last() == anchors@.take(at as int));
        let ghost before = tabs.deep_view();
        match node_attribute(page, anchors[at], "href") {
            Some(target) => {
                let address = base.to_owned().concat(target.as_str());
                let title = node_text(page, anchors[at]);
                let ghost added = (address@, title@);
                tabs.push((address, title));
                assert(tabs.deep_view() =~= before.push(added));
            },
            None => {},
        }
        at = at + 1;
    }
    assert(anchors@.take(at as int) == anchors@);
    tabs
}

/// Finds the next row of tabs to walk on an event page.
pub fn next_tabs(page: &Page, walked: &Vec<String>, base: &str) -> (row: Option<TabFacts>)
    ensures
        row.deep_view() == next_row(page@, walked.deep_view(), base@),
{
    let navs = find_in_page(page, "tabs-static");
    let ghost done = walked.deep_view();
    let mut at: usize = 0;
    assert(navs@.skip(0) == navs@);
    while at < navs.len()
        invariant
            at <= navs.len(),
            navs@ == found_in(page@, seq!["tabs-static"@]),
            all_within(navs@, page@),
            done == walked.deep_view(),
            first_open(page@, navs@, done) == first_open(page@, navs@.skip(at as int), done),
        decreases navs.len() - at,
    {
        let nav = navs[at];
        assert(navs@.skip(at as int)[0] == nav);
        assert(navs@.skip(at as int).drop_first() == navs@.skip(at + 1));
        match node_attribute(page, nav, "id") {
            Some(id) => {
                if !holds_text(walked, id.as_str()) {
                    let tabs = read_tabs(page, nav, base);
                    let current = first_by_class(page, Some(nav), "selflink");
                    return Some(TabFacts { id, tabs, current: text_if(page, current) });
                }
            },
            None => {},
        }
        at = at + 1;
    }
    None
}

/// The rows walked once one more row is walked: those walked before, then
/// the id of the row.
pub fn walked_after(walked: Vec<String>, row: &TabFacts) -> (after: Vec<String>)
    ensures
        after.deep_view() == walked.deep_view().push(row@.id),
{
    let ghost before = walked.deep_view();
    let mut after = walked;
    after.push(row.id.clone());
    assert(after.deep_view() =~= before.push(row@.id));
    after
}

/// No row is walked twice: once a row is walked, the row that is walked
/// next has another id, and so has every row after it.
pub proof fn lemma_walked_row_stays_walked(
    nodes: Seq<NodeRecord>,
    walked: Seq<Seq<char>>,
    id: Seq<char>,
    base: Seq<char>,
)
    requires
        walked.contains(id),
    ensures
        next_row(nodes, walked, base) matches Some(row) ==> row.id != id && walked.push(
            row.id,
        ).contains(id),
{
    lemma_next_row_is_new(nodes, walked, base);
    if let Some(row) = next_row(nodes, walked, base) {
        let at = choose|at: int| 0 <= at < walked.len() && walked[at] == id;
        assert(walked.push(row.id)[at] == id);
    }
}

} // verus!
