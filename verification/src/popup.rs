//! Reading a bracket entry from a page: where in the entry each fact
//! stands.

use crate::bracket::{
    extract_from, extraction, outcome_view, ExtractionOutcome, Match, PopupFacts, PopupView,
};
use crate::calendar::Date;
use crate::page::{
    all_within, attribute_at, attribute_if, attribute_of, find_by_class, find_by_tag, find_in_page,
    first_below, first_by_class, first_by_class_and_tag, first_by_tag, found_below, found_in,
    node_attribute, node_text, text_at, text_if, text_of, within, NodeRecord, Page,
};
use crate::redirects::Redirects;
use crate::team::Team;
use vstd::prelude::*;

verus! {

/// The name of a side: the highlighting attribute of its first `span`.
pub open spec fn side_name(nodes: Seq<NodeRecord>, side: Option<usize>) -> Option<Seq<char>> {
    let label = first_below(nodes, side, Seq::empty(), Some("span"@));
    attribute_at(nodes, label, "data-highlightingclass"@)
}

/// The link of a side: the target of the first anchor in the team text of
/// its first `span`.
pub open spec fn side_link(nodes: Seq<NodeRecord>, side: Option<usize>) -> Option<Seq<char>> {
    let label = first_below(nodes, side, Seq::empty(), Some("span"@));
    let team = first_below(nodes, label, seq!["team-template-text"@], None);
    let anchor = first_below(nodes, team, Seq::empty(), Some("a"@));
    attribute_at(nodes, anchor, "href"@)
}

/// The timer text of an entry's body: the text of the first timer `span`
/// in its time field.
pub open spec fn body_timer(nodes: Seq<NodeRecord>, body: Option<usize>) -> Option<Seq<char>> {
    let time = first_below(nodes, body, seq!["bracket-popup-body-time"@], None);
    let timer = first_below(nodes, time, seq!["timer-object"@], Some("span"@));
    text_at(nodes, timer)
}

/// A score marker: the text and the style of a node.
pub open spec fn marker_at(nodes: Seq<NodeRecord>, node: usize) -> (Seq<char>, Option<Seq<char>>) {
    (text_of(nodes, node), attribute_of(nodes[node as int], "style"@))
}

/// The score markers at a list of nodes.
pub open spec fn markers_at(nodes: Seq<NodeRecord>, found: Seq<usize>) -> Seq<
    (Seq<char>, Option<Seq<char>>),
> {
    Seq::new(found.len(), |i: int| marker_at(nodes, found[i]))
}

/// The score markers in a list of containers: for each container in turn,
/// the nodes below it that carry the class `div`.
pub open spec fn markers_in(nodes: Seq<NodeRecord>, containers: Seq<usize>) -> Seq<
    (Seq<char>, Option<Seq<char>>),
>
    decreases containers.len(),
{
    if containers.len() == 0 {
        Seq::empty()
    } else {
        markers_in(nodes, containers.drop_last()) + markers_at(
            nodes,
            found_below(nodes, containers.last(), seq!["div"@], None),
        )
    }
}

/// The score markers of an entry's body: those in its `div` containers. An
/// entry without a body has none.
pub open spec fn body_markers(nodes: Seq<NodeRecord>, body: Option<usize>) -> Seq<
    (Seq<char>, Option<Seq<char>>),
> {
    match body {
        Some(body) => markers_in(nodes, found_below(nodes, body, Seq::empty(), Some("div"@))),
        None => Seq::empty(),
    }
}

/// What a bracket entry shows. Its sides stand in its header, its timer and
/// its score markers in its body.
pub open spec fn popup_facts(nodes: Seq<NodeRecord>, popup: usize) -> PopupView {
    let header = first_below(nodes, Some(popup), seq!["bracket-popup-header"@], None);
    let left = first_below(nodes, header, seq!["bracket-popup-header-left"@], None);
    let right = first_below(nodes, header, seq!["bracket-popup-header-right"@], None);
    let body = first_below(nodes, Some(popup), seq!["bracket-popup-body"@], None);
    PopupView {
        header: header is Some,
        left_name: side_name(nodes, left),
        left_link: side_link(nodes, left),
        right_name: side_name(nodes, right),
        right_link: side_link(nodes, right),
        timer: body_timer(nodes, body),
        markers: body_markers(nodes, body),
    }
}

/// Reads the name of a side.
fn read_side_name(page: &Page, side: Option<usize>) -> (name: Option<String>)
    requires
        within(side, page@),
    ensures
        name.deep_view() == side_name(page@, side),
{
    let label = first_by_tag(page, side, "span");
    attribute_if(page, label, "data-highlightingclass")
}

/// Reads the link of a side.
fn read_side_link(page: &Page, side: Option<usize>) -> (link: Option<String>)
    requires
        within(side, page@),
    ensures
        link.deep_view() == side_link(page@, side),
{
    let label = first_by_tag(page, side, "span");
    let team = first_by_class(page, label, "team-template-text");
    let anchor = first_by_tag(page, team, "a");
    attribute_if(page, anchor, "href")
}

/// Reads the timer text of an entry's body.
fn read_timer_text(page: &Page, body: Option<usize>) -> (timer: Option<String>)
    requires
        within(body, page@),
    ensures
        timer.deep_view() == body_timer(page@, body),
{
    let time = first_by_class(page, body, "bracket-popup-body-time");
    let timer = first_by_class_and_tag(page, time, "timer-object", "span");
    text_if(page, timer)
}

/// Reads the score markers of an entry's body.
fn read_markers(page: &Page, body: Option<usize>) -> (markers: Vec<(String, Option<String>)>)
    requires
        within(body, page@),
    ensures
        markers.deep_view() == body_markers(page@, body),
{
    let mut markers: Vec<(String, Option<String>)> = Vec::new();
    let body = match body {
        Some(body) => body,
        None => {
            assert(markers.deep_view() =~= Seq::empty());
            return markers;
        },
    };
    let containers = find_by_tag(page, body, "div");
    assert(markers.deep_view() =~= markers_in(page@, containers@.take(0)));
    let mut at: usize = 0;
    while at < containers.len()
        invariant
            at <= containers.len(),
            all_within(containers@, page@),
            markers.deep_view() == markers_in(page@, containers@.take(at as int)),
        decreases containers.len() - at,
    {
        let found = find_by_class(page, containers[at], "div");
        let ghost before = markers.deep_view();
        let mut inner: usize = 0;
        while inner < found.len()
            invariant
                inner <= found.len(),
                all_within(found@, page@),
                markers.deep_view() == before + markers_at(page@, found@.take(inner as int)),
            decreases found.len() - inner,
        {
            let node = found[inner];
            let ghost so_far = markers.deep_view();
            markers.push((node_text(page, node), node_attribute(page, node, "style")));
            assert(markers.deep_view() =~= so_far.push(marker_at(page@, node)));
            assert(markers_at(page@, found@.take(inner + 1)) =~= markers_at(
                page@,
                found@.take(inner as int),
            ).push(marker_at(page@, node)));
            inner = inner + 1;
        }
        assert(found@.take(inner as int) == found@);
        assert(containers@.take(at + 1).drop_last() == containers@.take(at as int));
        at = at + 1;
    }
    assert(containers@.take(at as int) == containers@);
    markers
}

/// Reads what a bracket entry shows.
pub fn read_popup(page: &Page, popup: usize) -> (facts: PopupFacts)
    requires
        popup < page@.len(),
    ensures
        facts@ == popup_facts(page@, popup),
{
    let header = first_by_class(page, Some(popup), "bracket-popup-header");
    let left = first_by_class(page, header, "bracket-popup-header-left");
    let right = first_by_class(page, header, "bracket-popup-header-right");
    let body = first_by_class(page, Some(popup), "bracket-popup-body");
    PopupFacts {
        header: header.is_some(),
        left_name: read_side_name(page, left),
        left_link: read_side_link(page, left),
        right_name: read_side_name(page, right),
        right_link: read_side_link(page, right),
        timer: read_timer_text(page, body),
        markers: read_markers(page, body),
    }
}

/// Reads what the node at an index shows as a bracket entry; nothing where
/// the page has no node at that index.
pub fn read_popup_at(page: &Page, popup: usize) -> (facts: Option<PopupFacts>)
    ensures
        match facts {
            Some(read) => popup < page@.len() && read@ == popup_facts(page@, popup),
            None => popup >= page@.len(),
        },
{
    if page.holds(popup) {
        Some(read_popup(page, popup))
    } else {
        None
    }
}

/// The bracket entries of a page, in the order of the document.
pub open spec fn popups_of(nodes: Seq<NodeRecord>) -> Seq<usize> {
    found_in(nodes, seq!["bracket-popup"@])
}

/// Lists the bracket entries of a page.
pub fn popups(page: &Page) -> (found: Vec<usize>)
    ensures
        found@ == popups_of(page@),
        all_within(found@, page@),
{
    find_in_page(page, "bracket-popup")
}

/// What the bracket entries of a page show, entry by entry.
pub open spec fn page_popups(nodes: Seq<NodeRecord>) -> Seq<PopupView> {
    Seq::new(popups_of(nodes).len(), |i: int| popup_facts(nodes, popups_of(nodes)[i]))
}

/// Reads what each bracket entry of a page shows.
pub fn read_popups(page: &Page) -> (all: Vec<PopupFacts>)
    ensures
        all.deep_view() == page_popups(page@),
{
    let found = popups(page);
    let mut all: Vec<PopupFacts> = Vec::new();
    let mut at: usize = 0;
    while at < found.len()
        invariant
            at <= found.len(),
            found@ == popups_of(page@),
            all_within(found@, page@),
            all.deep_view() == page_popups(page@).take(at as int),
        decreases found.len() - at,
    {
        let ghost before = all.deep_view();
        all.push(read_popup(page, found[at]));
        assert(all.deep_view() =~= before.push(popup_facts(page@, found@[at as int])));
        assert(all.deep_view() =~= page_popups(page@).take(at + 1));
        at = at + 1;
    }
    assert(page_popups(page@).take(at as int) == page_popups(page@));
    all
}

/// Extracts the match of one bracket entry of a page.
pub fn extract(page: &Page, popup: usize, roster: &Vec<Team>, redirects: &Redirects, cutoff: Date)
    -> (outcome: Result<Match, ExtractionOutcome>)
    requires
        popup < page@.len(),
    ensures
        outcome_view(outcome) == extraction(
            popup_facts(page@, popup),
            roster.deep_view(),
            redirects@,
            cutoff,
        ),
        outcome matches Ok(found) ==> found@.well_formed(),
{
    let facts = read_popup(page, popup);
    extract_from(&facts, roster, redirects, cutoff)
}

/// Extracts the match of the bracket entry at an index; nothing where the
/// page has no node at that index.
pub fn extract_at(
    page: &Page,
    popup: usize,
    roster: &Vec<Team>,
    redirects: &Redirects,
    cutoff: Date,
) -> (outcome: Option<Result<Match, ExtractionOutcome>>)
    ensures
        match outcome {
            Some(given) => {
                &&& popup < page@.len()
                &&& outcome_view(given) == extraction(
                    popup_facts(page@, popup),
                    roster.deep_view(),
                    redirects@,
                    cutoff,
                )
                &&& given matches Ok(found) ==> found@.well_formed()
            },
            None => popup >= page@.len(),
        },
{
    if page.holds(popup) {
        Some(extract(page, popup, roster, redirects, cutoff))
    } else {
        None
    }
}

} // verus!
