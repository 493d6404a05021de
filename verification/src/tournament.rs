//! The tournament assembler: from the team cards, the bracket entries and
//! the venue of a page to a tournament.

use crate::bracket::{
    extract_from, extraction, lemma_extraction_sound, listed, ExtractionOutcome, Match, MatchView,
    PopupFacts, PopupView,
};
use crate::calendar::Date;
use crate::page::{
    find_in_page, first_found, first_of, found_in, text_at, text_if, NodeRecord, Page,
};
use crate::popup::{page_popups, read_popups};
use crate::redirects::Redirects;
use crate::roster::{
    all_well_formed, distinct_ids, lemma_roster_sound, page_cards, read_cards, roster_of,
    teams_from, CardFacts, CardView,
};
use crate::team::{copy_teams, Team, TeamView};
use crate::text::equal_text;
use vstd::prelude::*;

verus! {

/// A tournament: its name, whether it was held offline, its teams and its
/// matches.
#[derive(Debug)]
pub struct Tournament {
    pub name: String,
    pub lan: bool,
    pub teams: Vec<Team>,
    pub matches: Vec<Match>,
}

/// A tournament as plain values.
pub ghost struct TournamentView {
    pub name: Seq<char>,
    pub lan: bool,
    pub teams: Seq<TeamView>,
    pub matches: Seq<MatchView>,
}

/// Whether every match of a list is well formed and has both of its teams
/// in a roster.
pub open spec fn all_sound(matches: Seq<MatchView>, roster: Seq<TeamView>) -> bool {
    forall|m: int|
        0 <= m < matches.len() ==> {
            &&& (#[trigger] matches[m]).well_formed()
            &&& listed(matches[m].teams[0], roster)
            &&& listed(matches[m].teams[1], roster)
        }
}

impl TournamentView {
    /// No team occurs twice, no team lists more than three players, and
    /// every match is well formed and is between two of the teams.
    pub open spec fn well_formed(self) -> bool {
        &&& distinct_ids(self.teams)
        &&& all_well_formed(self.teams)
        &&& all_sound(self.matches, self.teams)
    }
}

impl View for Tournament {
    type V = TournamentView;

    open spec fn view(&self) -> TournamentView {
        TournamentView {
            name: self.name@,
            lan: self.lan,
            teams: self.teams.deep_view(),
            matches: self.matches.deep_view(),
        }
    }
}

impl DeepView for Tournament {
    type V = TournamentView;

    open spec fn deep_view(&self) -> TournamentView {
        self@
    }
}

impl Clone for Tournament {
    fn clone(&self) -> (copy: Tournament)
        ensures
            copy@ == self@,
    {
        let teams = copy_teams(&self.teams);
        let mut matches: Vec<Match> = Vec::new();
        let mut at: usize = 0;
        while at < self.matches.len()
            invariant
                at <= self.matches.len(),
                matches.deep_view() == self.matches.deep_view().take(at as int),
            decreases self.matches.len() - at,
        {
            let ghost before = matches.deep_view();
            matches.push(self.matches[at].clone());
            assert(matches.deep_view() =~= before.push(self.matches@[at as int]@));
            assert(matches.deep_view() =~= self.matches.deep_view().take(at + 1));
            at = at + 1;
        }
        assert(self.matches.deep_view().take(at as int) == self.matches.deep_view());
        Tournament { name: self.name.clone(), lan: self.lan, teams, matches }
    }
}

/// An event: its name, whether it is of the premier tier, and its
/// tournaments, one for each of its tabs.
#[derive(Debug)]
pub struct Event {
    pub name: String,
    pub premier: bool,
    pub tournaments: Vec<Tournament>,
}

/// An event as plain values.
pub ghost struct EventView {
    pub name: Seq<char>,
    pub premier: bool,
    pub tournaments: Seq<TournamentView>,
}

impl View for Event {
    type V = EventView;

    open spec fn view(&self) -> EventView {
        EventView {
            name: self.name@,
            premier: self.premier,
            tournaments: self.tournaments.deep_view(),
        }
    }
}

/// What the bracket entries of a page gave: the matches, and for each entry
/// that gave none though it has a header, the reason.
#[derive(Debug)]
pub struct Extraction {
    pub matches: Vec<Match>,
    pub diagnostics: Vec<ExtractionOutcome>,
}

/// What each of a row of bracket entries gives.
pub open spec fn extractions(
    popups: Seq<PopupView>,
    roster: Seq<TeamView>,
    redirects: Seq<(Seq<char>, Seq<char>)>,
    cutoff: Date,
) -> Seq<Result<MatchView, ExtractionOutcome>> {
    Seq::new(popups.len(), |i: int| extraction(popups[i], roster, redirects, cutoff))
}

/// The matches among a row of outcomes, in order.
pub open spec fn kept_matches(outcomes: Seq<Result<MatchView, ExtractionOutcome>>) -> Seq<
    MatchView,
>
    decreases outcomes.len(),
{
    if outcomes.len() == 0 {
        Seq::empty()
    } else {
        let before = kept_matches(outcomes.drop_last());
        match outcomes.last() {
            Ok(found) => before.push(found),
            Err(_) => before,
        }
    }
}

/// Whether an outcome is reported: it is a reason other than the entry
/// being a placeholder.
pub open spec fn is_reported(outcome: Result<MatchView, ExtractionOutcome>) -> bool {
    outcome matches Err(reason) && reason != ExtractionOutcome::Placeholder
}

/// The reported reasons among a row of outcomes, in order.
pub open spec fn kept_diagnostics(outcomes: Seq<Result<MatchView, ExtractionOutcome>>) -> Seq<
    ExtractionOutcome,
>
    decreases outcomes.len(),
{
    if outcomes.len() == 0 {
        Seq::empty()
    } else {
        let before = kept_diagnostics(outcomes.drop_last());
        if is_reported(outcomes.last()) {
            before.push(outcomes.last()->Err_0)
        } else {
            before
        }
    }
}

/// The number of placeholders among a row of outcomes.
pub open spec fn placeholders(outcomes: Seq<Result<MatchView, ExtractionOutcome>>) -> nat
    decreases outcomes.len(),
{
    if outcomes.len() == 0 {
        0
    } else {
        placeholders(outcomes.drop_last()) + if outcomes.last() == Err::<
            MatchView,
            ExtractionOutcome,
        >(ExtractionOutcome::Placeholder) {
            1nat
        } else {
            0nat
        }
    }
}

/// Every bracket entry is accounted for: it gives a match, or a reported
/// reason, or it is a placeholder.
pub proof fn lemma_every_entry_counted(outcomes: Seq<Result<MatchView, ExtractionOutcome>>)
    ensures
        kept_matches(outcomes).len() + kept_diagnostics(outcomes).len() + placeholders(outcomes)
            == outcomes.len(),
    decreases outcomes.len(),
{
    if outcomes.len() > 0 {
        lemma_every_entry_counted(outcomes.drop_last());
    }
}

/// Every match kept from the entries of a page is well formed and is
/// between two teams of the roster.
pub proof fn lemma_kept_matches_sound(
    popups: Seq<PopupView>,
    roster: Seq<TeamView>,
    redirects: Seq<(Seq<char>, Seq<char>)>,
    cutoff: Date,
)
    ensures
        all_sound(kept_matches(extractions(popups, roster, redirects, cutoff)), roster),
    decreases popups.len(),
{
    if popups.len() > 0 {
        let outcomes = extractions(popups, roster, redirects, cutoff);
        lemma_kept_matches_sound(popups.drop_last(), roster, redirects, cutoff);
        assert(outcomes.drop_last() == extractions(popups.drop_last(), roster, redirects, cutoff));
        lemma_extraction_sound(popups.last(), roster, redirects, cutoff);
        assert(outcomes.last() == extraction(popups.last(), roster, redirects, cutoff));
    }
}

/// Extracts the matches of a row of bracket entries.
pub fn matches_from(
    popups: &Vec<PopupFacts>,
    roster: &Vec<Team>,
    redirects: &Redirects,
    cutoff: Date,
) -> (found: Extraction)
    ensures
        found.matches.deep_view() == kept_matches(
            extractions(popups.deep_view(), roster.deep_view(), redirects@, cutoff),
        ),
        found.diagnostics@ == kept_diagnostics(
            extractions(popups.deep_view(), roster.deep_view(), redirects@, cutoff),
        ),
        all_sound(found.matches.deep_view(), roster.deep_view()),
{
    let ghost all = popups.deep_view();
    let ghost teams = roster.deep_view();
    let mut matches: Vec<Match> = Vec::new();
    let mut diagnostics: Vec<ExtractionOutcome> = Vec::new();
    let mut at: usize = 0;
    assert(matches.deep_view() =~= kept_matches(
        extractions(all.take(0), teams, redirects@, cutoff),
    ));
    while at < popups.len()
        invariant
            at <= popups.len(),
            all == popups.deep_view(),
            teams == roster.deep_view(),
            matches.deep_view() == kept_matches(
                extractions(all.take(at as int), teams, redirects@, cutoff),
            ),
            diagnostics@ == kept_diagnostics(
                extractions(all.take(at as int), teams, redirects@, cutoff),
            ),
        decreases popups.len() - at,
    {
        let ghost longer = extractions(all.take(at + 1), teams, redirects@, cutoff);
        assert(longer.drop_last() == extractions(all.take(at as int), teams, redirects@, cutoff));
        assert(longer.last() == extraction(popups@[at as int]@, teams, redirects@, cutoff));
        let ghost before = matches.deep_view();
        match extract_from(&popups[at], roster, redirects, cutoff) {
            Ok(found) => {
                let ghost added = found@;
                matches.push(found);
                assert(matches.deep_view() =~= before.push(added));
            },
            Err(reason) => {
                if reason != ExtractionOutcome::Placeholder {
                    diagnostics.push(reason);
                }
            },
        }
        at = at + 1;
    }
    proof {
        assert(all.take(at as int) == all);
        lemma_kept_matches_sound(all, teams, redirects@, cutoff);
    }
    Extraction { matches, diagnostics }
}

/// The matches of a page: those that its bracket entries give when their
/// teams are looked up in the given roster.
pub fn get_matches_in_tournament(
    page: &Page,
    teams: &Vec<Team>,
    redirects: &Redirects,
    cutoff: Date,
) -> (found: Extraction)
    ensures
        found.matches.deep_view() == kept_matches(
            extractions(page_popups(page@), teams.deep_view(), redirects@, cutoff),
        ),
        found.diagnostics@ == kept_diagnostics(
            extractions(page_popups(page@), teams.deep_view(), redirects@, cutoff),
        ),
        all_sound(found.matches.deep_view(), teams.deep_view()),
{
    let popups = read_popups(page);
    matches_from(&popups, teams, redirects, cutoff)
}

/// What is read from a page: its team cards, its bracket entries, and the
/// text of the cell that names its venue.
#[derive(Debug)]
pub struct PageFacts {
    pub cards: Vec<CardFacts>,
    pub popups: Vec<PopupFacts>,
    pub venue: Option<String>,
}

/// The facts of a page as plain values.
pub ghost struct PageView {
    pub cards: Seq<CardView>,
    pub popups: Seq<PopupView>,
    pub venue: Option<Seq<char>>,
}

impl View for PageFacts {
    type V = PageView;

    open spec fn view(&self) -> PageView {
        PageView {
            cards: self.cards.deep_view(),
            popups: self.popups.deep_view(),
            venue: self.venue.deep_view(),
        }
    }
}

/// The venue text of a page: the text of its first second infobox cell.
pub open spec fn page_venue(nodes: Seq<NodeRecord>) -> Option<Seq<char>> {
    text_at(nodes, first_of(found_in(nodes, seq!["infobox-cell-2"@])))
}

/// What a page shows.
pub open spec fn page_facts(nodes: Seq<NodeRecord>) -> PageView {
    PageView { cards: page_cards(nodes), popups: page_popups(nodes), venue: page_venue(nodes) }
}

/// Reads what a page shows.
pub fn read_page(page: &Page) -> (facts: PageFacts)
    ensures
        facts@ == page_facts(page@),
{
    let cells = find_in_page(page, "infobox-cell-2");
    let cell = first_found(&cells);
    PageFacts { cards: read_cards(page), popups: read_popups(page), venue: text_if(page, cell) }
}

/// Whether a venue text says that a tournament was held offline: it is the
/// word `Offline`, and nothing else.
pub open spec fn says_offline(venue: Option<Seq<char>>) -> bool {
    venue == Some("Offline"@)
}

/// Tells whether a venue text says that a tournament was held offline.
pub fn is_offline(venue: &Option<String>) -> (offline: bool)
    ensures
        offline == says_offline(venue.deep_view()),
{
    match venue {
        Some(text) => equal_text(text.as_str(), "Offline"),
        None => false,
    }
}

/// A tournament together with the reasons reported while it was assembled.
#[derive(Debug)]
pub struct Assembly {
    pub tournament: Tournament,
    pub diagnostics: Vec<ExtractionOutcome>,
}

/// The tournament that the facts of a page give: its teams are the roster
/// of the cards, its matches those that the bracket entries give against
/// that roster, and it is a LAN if the venue says offline.
pub open spec fn assembled(
    facts: PageView,
    name: Seq<char>,
    redirects: Seq<(Seq<char>, Seq<char>)>,
    cutoff: Date,
) -> TournamentView {
    let teams = roster_of(facts.cards, redirects);
    TournamentView {
        name,
        lan: says_offline(facts.venue),
        teams,
        matches: kept_matches(extractions(facts.popups, teams, redirects, cutoff)),
    }
}

/// The reasons reported while the facts of a page are assembled.
pub open spec fn reported(
    facts: PageView,
    redirects: Seq<(Seq<char>, Seq<char>)>,
    cutoff: Date,
) -> Seq<ExtractionOutcome> {
    kept_diagnostics(
        extractions(facts.popups, roster_of(facts.cards, redirects), redirects, cutoff),
    )
}

/// Every assembled tournament is well formed: no team occurs twice, and
/// every match is well formed and is between two of its teams.
pub proof fn lemma_assembled_well_formed(
    facts: PageView,
    name: Seq<char>,
    redirects: Seq<(Seq<char>, Seq<char>)>,
    cutoff: Date,
)
    ensures
        assembled(facts, name, redirects, cutoff).well_formed(),
{
    lemma_roster_sound(facts.cards, redirects);
    lemma_kept_matches_sound(facts.popups, roster_of(facts.cards, redirects), redirects, cutoff);
}

/// Assembling is repeatable: two assemblies of the same facts under the
/// same name, redirects and cutoff give the same tournament and report the
/// same reasons.
pub proof fn lemma_assembly_repeatable(
    facts: PageView,
    name: Seq<char>,
    redirects: Seq<(Seq<char>, Seq<char>)>,
    cutoff: Date,
    first: Assembly,
    second: Assembly,
)
    requires
        first.tournament@ == assembled(facts, name, redirects, cutoff),
        first.diagnostics@ == reported(facts, redirects, cutoff),
        second.tournament@ == assembled(facts, name, redirects, cutoff),
        second.diagnostics@ == reported(facts, redirects, cutoff),
    ensures
        first.tournament@ == second.tournament@,
        first.diagnostics@ == second.diagnostics@,
{
}

/// Assembles a tournament from what was read of its page.
pub fn tournament_from(
    facts: &PageFacts,
    name: String,
    redirects: &Redirects,
    cutoff: Date,
) -> (made: Assembly)
    ensures
        made.tournament@ == assembled(facts@, name@, redirects@, cutoff),
        made.diagnostics@ == reported(facts@, redirects@, cutoff),
        made.tournament@.well_formed(),
{
    let teams = teams_from(&facts.cards, redirects);
    let found = matches_from(&facts.popups, &teams, redirects, cutoff);
    let lan = is_offline(&facts.venue);
    let Extraction { matches, diagnostics } = found;
    Assembly { tournament: Tournament { name, lan, teams, matches }, diagnostics }
}

/// Assembles the tournament of a page.
pub fn get_tournament(page: &Page, redirects: &Redirects, name: String, cutoff: Date) -> (made:
    Assembly)
    ensures
        made.tournament@ == assembled(page_facts(page@), name@, redirects@, cutoff),
        made.diagnostics@ == reported(page_facts(page@), redirects@, cutoff),
        made.tournament@.well_formed(),
{
    let facts = read_page(page);
    tournament_from(&facts, name, redirects, cutoff)
}

/// The link of an entry of a page, where it has one, behind those gathered
/// before.
pub open spec fn with_link(paths: Seq<Seq<char>>, link: Option<Seq<char>>) -> Seq<Seq<char>> {
    match link {
        Some(path) => paths.push(path),
        None => paths,
    }
}

/// The links of a row of team cards.
pub open spec fn card_paths(cards: Seq<CardView>) -> Seq<Seq<char>>
    decreases cards.len(),
{
    if cards.len() == 0 {
        Seq::empty()
    } else {
        with_link(card_paths(cards.drop_last()), cards.last().link)
    }
}

/// The links of a row of bracket entries, behind those gathered before:
/// of each entry its left link, then its right.
pub open spec fn popup_paths(paths: Seq<Seq<char>>, popups: Seq<PopupView>) -> Seq<Seq<char>>
    decreases popups.len(),
{
    if popups.len() == 0 {
        paths
    } else {
        with_link(
            with_link(popup_paths(paths, popups.drop_last()), popups.last().left_link),
            popups.last().right_link,
        )
    }
}

/// The paths whose canonical ids the assembling of a page asks for: the
/// links of its team cards, then those of its bracket entries.
pub open spec fn linked_paths(facts: PageView) -> Seq<Seq<char>> {
    popup_paths(card_paths(facts.cards), facts.popups)
}

/// Gathering links keeps what was gathered before.
pub proof fn lemma_popup_paths_keep(paths: Seq<Seq<char>>, popups: Seq<PopupView>, path: Seq<char>)
    requires
        paths.contains(path),
    ensures
        popup_paths(paths, popups).contains(path),
    decreases popups.len(),
{
    if popups.len() > 0 {
        lemma_popup_paths_keep(paths, popups.drop_last(), path);
        let before = popup_paths(paths, popups.drop_last());
        let at = choose|at: int| 0 <= at < before.len() && before[at] == path;
        let middle = with_link(before, popups.last().left_link);
        assert(middle[at] == path);
        assert(with_link(middle, popups.last().right_link)[at] == path);
    } else {
    }
}

/// No link is left out: the link of every team card and both links of
/// every bracket entry are among the linked paths. A table of redirects
/// that holds each linked path holds every path that assembling looks up.
pub proof fn lemma_links_listed(facts: PageView)
    ensures
        forall|c: int|
            0 <= c < facts.cards.len() && (#[trigger] facts.cards[c]).link is Some
                ==> linked_paths(facts).contains(facts.cards[c].link->0),
        forall|p: int|
            0 <= p < facts.popups.len() && (#[trigger] facts.popups[p]).left_link is Some
                ==> linked_paths(facts).contains(facts.popups[p].left_link->0),
        forall|p: int|
            0 <= p < facts.popups.len() && (#[trigger] facts.popups[p]).right_link is Some
                ==> linked_paths(facts).contains(facts.popups[p].right_link->0),
{
    assert forall|c: int|
        0 <= c < facts.cards.len() && (#[trigger] facts.cards[c]).link is Some implies linked_paths(
        facts,
    ).contains(facts.cards[c].link->0) by {
        lemma_card_link_listed(facts.cards, c);
        lemma_popup_paths_keep(card_paths(facts.cards), facts.popups, facts.cards[c].link->0);
    }
    assert forall|p: int| 0 <= p < facts.popups.len() implies (((
    #[trigger] facts.popups[p]).left_link is Some ==> linked_paths(facts).contains(
        facts.popups[p].left_link->0,
    )) && (facts.popups[p].right_link is Some ==> linked_paths(facts).contains(
        facts.popups[p].right_link->0,
    ))) by {
        lemma_popup_links_listed(card_paths(facts.cards), facts.popups, p);
    }
}

/// The link of a team card is among the links of the cards.
pub proof fn lemma_card_link_listed(cards: Seq<CardView>, c: int)
    requires
        0 <= c < cards.len(),
        cards[c].link is Some,
    ensures
        card_paths(cards).contains(cards[c].link->0),
    decreases cards.len(),
{
    let before = card_paths(cards.drop_last());
    if c == cards.len() - 1 {
        assert(card_paths(cards)[before.len() as int] == cards[c].link->0);
    } else {
        lemma_card_link_listed(cards.drop_last(), c);
        let at = choose|at: int| 0 <= at < before.len() && before[at] == cards[c].link->0;
        assert(card_paths(cards)[at] == cards[c].link->0);
    }
}

/// Both links of a bracket entry are among the links of the entries.
pub proof fn lemma_popup_links_listed(paths: Seq<Seq<char>>, popups: Seq<PopupView>, p: int)
    requires
        0 <= p < popups.len(),
    ensures
        popups[p].left_link is Some ==> popup_paths(paths, popups).contains(popups[p].left_link->0),
        popups[p].right_link is Some ==> popup_paths(paths, popups).contains(
            popups[p].right_link->0,
        ),
    decreases popups.len(),
{
    let before = popup_paths(paths, popups.drop_last());
    let middle = with_link(before, popups.last().left_link);
    let all = with_link(middle, popups.last().right_link);
    if p == popups.len() - 1 {
        if popups[p].left_link is Some {
            assert(middle[before.len() as int] == popups[p].left_link->0);
            assert(all[before.len() as int] == popups[p].left_link->0);
        }
        if popups[p].right_link is Some {
            assert(all[middle.len() as int] == popups[p].right_link->0);
        }
    } else {
        lemma_popup_links_listed(paths, popups.drop_last(), p);
        if popups[p].left_link is Some {
            let at = choose|at: int| 0 <= at < before.len() && before[at] == popups[p].left_link->0;
            assert(middle[at] == popups[p].left_link->0);
            assert(all[at] == popups[p].left_link->0);
        }
        if popups[p].right_link is Some {
            let at = choose|at: int|
                0 <= at < before.len() && before[at] == popups[p].right_link->0;
            assert(middle[at] == popups[p].right_link->0);
            assert(all[at] == popups[p].right_link->0);
        }
    }
}

/// Appends a link to a list of paths, where there is a link.
fn push_link(paths: &mut Vec<String>, link: &Option<String>)
    ensures
        final(paths).deep_view() == with_link(old(paths).deep_view(), link.deep_view()),
{
    let ghost before = paths.deep_view();
    match link {
        Some(path) => {
            paths.push(path.clone());
            assert(paths.deep_view() =~= before.push(path@));
        },
        None => {},
    }
}

/// Lists the paths whose canonical ids the assembling of a page asks for.
pub fn links_of(facts: &PageFacts) -> (paths: Vec<String>)
    ensures
        paths.deep_view() == linked_paths(facts@),
{
    let ghost cards = facts.cards.deep_view();
    let ghost popups = facts.popups.deep_view();
    let mut paths: Vec<String> = Vec::new();
    assert(paths.deep_view() =~= card_paths(cards.take(0)));
    let mut at: usize = 0;
    while at < facts.cards.len()
        invariant
            at <= facts.cards.len(),
            cards == facts.cards.deep_view(),
            paths.deep_view() == card_paths(cards.take(at as int)),
        decreases facts.cards.len() - at,
    {
        assert(cards.take(at + 1).drop_last() == cards.take(at as int));
        assert(cards.take(at + 1).last() == facts.cards@[at as int]@);
        push_link(&mut paths, &facts.cards[at].link);
        at = at + 1;
    }
    assert(cards.take(at as int) == cards);
    assert(popups.take(0).len() == 0);
    let mut at: usize = 0;
    while at < facts.popups.len()
        invariant
            at <= facts.popups.len(),
            cards == facts.cards.deep_view(),
            popups == facts.popups.deep_view(),
            paths.deep_view() == popup_paths(card_paths(cards), popups.take(at as int)),
        decreases facts.popups.len() - at,
    {
        assert(popups.take(at + 1).drop_last() == popups.take(at as int));
        assert(popups.take(at + 1).last() == facts.popups@[at as int]@);
        push_link(&mut paths, &facts.popups[at].left_link);
        push_link(&mut paths, &facts.popups[at].right_link);
        at = at + 1;
    }
    assert(popups.take(at as int) == popups);
    paths
}

} // verus!
