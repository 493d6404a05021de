//! The roster of a tournament: the teams that its team cards show.

use crate::page::{
    all_within, attribute_at, attribute_if, children_of, find_by_tag, find_in_page, first_below,
    first_by_class, first_by_tag, found_below, found_in, node_children, node_tag, tag_of, text_at,
    text_if, text_of, within, NodeRecord, Page,
};
use crate::redirects::{canonical, Redirects};
use crate::team::{Team, TeamView};
use crate::text::{decimal_u8, equal_text, parse_u8};
use vstd::prelude::*;

verus! {

/// What is read from one row of a team card: the text of its seat cell, and
/// the text of its first anchor that wraps no image.
#[derive(Debug)]
pub struct RowFacts {
    pub seat: Option<String>,
    pub player: Option<String>,
}

/// The facts of a row as plain values.
pub ghost struct RowView {
    pub seat: Option<Seq<char>>,
    pub player: Option<Seq<char>>,
}

impl View for RowFacts {
    type V = RowView;

    open spec fn view(&self) -> RowView {
        RowView { seat: self.seat.deep_view(), player: self.player.deep_view() }
    }
}

impl DeepView for RowFacts {
    type V = RowView;

    open spec fn deep_view(&self) -> RowView {
        self@
    }
}

/// What is read from one team card: the text and the target of its title
/// link, and the rows of its table.
#[derive(Debug)]
pub struct CardFacts {
    pub name: Option<String>,
    pub link: Option<String>,
    pub rows: Option<Vec<RowFacts>>,
}

/// The facts of a team card as plain values.
pub ghost struct CardView {
    pub name: Option<Seq<char>>,
    pub link: Option<Seq<char>>,
    pub rows: Option<Seq<RowView>>,
}

impl View for CardFacts {
    type V = CardView;

    open spec fn view(&self) -> CardView {
        CardView {
            name: self.name.deep_view(),
            link: self.link.deep_view(),
            rows: self.rows.deep_view(),
        }
    }
}

impl DeepView for CardFacts {
    type V = CardView;

    open spec fn deep_view(&self) -> CardView {
        self@
    }
}

/// Whether a row is a starter's: its seat cell spells a number, and the
/// number is at most 3. Substitutes and coaches have other seats.
pub open spec fn is_starter(row: RowView) -> bool {
    row.seat matches Some(text) && decimal_u8(text) matches Some(seat) && seat <= 3
}

/// The player that a row adds to its team: the row's player, if the row is
/// a starter's.
pub open spec fn row_player(row: RowView) -> Option<Seq<char>> {
    if is_starter(row) {
        row.player
    } else {
        None
    }
}

/// The players that the rows of a card add, in order.
pub open spec fn players_of(rows: Seq<RowView>) -> Seq<Seq<char>>
    decreases rows.len(),
{
    if rows.len() == 0 {
        Seq::empty()
    } else {
        let before = players_of(rows.drop_last());
        match row_player(rows.last()) {
            Some(player) => before.push(player),
            None => before,
        }
    }
}

/// The first three of a list of players; all of them if they are fewer.
pub open spec fn first_three(players: Seq<Seq<char>>) -> Seq<Seq<char>> {
    if players.len() > 3 {
        players.take(3)
    } else {
        players
    }
}

/// The team that a card shows: it needs a title link with a target, and a
/// table. Its id is the canonical id of the target, and its players are the
/// first three that its rows add.
pub open spec fn card_team(card: CardView, redirects: Seq<(Seq<char>, Seq<char>)>) -> Option<
    TeamView,
> {
    match (card.name, card.link, card.rows) {
        (Some(name), Some(link), Some(rows)) => Some(
            TeamView {
                name,
                id: canonical(redirects, link),
                players: first_three(players_of(rows)),
            },
        ),
        _ => None,
    }
}

/// Whether a roster holds a team of the given identity.
pub open spec fn has_id(roster: Seq<TeamView>, id: Seq<char>) -> bool {
    exists|i: int| 0 <= i < roster.len() && (#[trigger] roster[i]).id == id
}

/// The roster that a row of cards gives: the team of each card in turn,
/// unless the roster already holds a team of that identity.
pub open spec fn roster_of(cards: Seq<CardView>, redirects: Seq<(Seq<char>, Seq<char>)>) -> Seq<
    TeamView,
>
    decreases cards.len(),
{
    if cards.len() == 0 {
        Seq::empty()
    } else {
        let before = roster_of(cards.drop_last(), redirects);
        match card_team(cards.last(), redirects) {
            Some(team) if !has_id(before, team.id) => before.push(team),
            _ => before,
        }
    }
}

/// Whether no identity occurs twice in a roster.
pub open spec fn distinct_ids(roster: Seq<TeamView>) -> bool {
    forall|i: int, j: int|
        0 <= i < j < roster.len() ==> (#[trigger] roster[i]).id != (#[trigger] roster[j]).id
}

/// Whether every team of a roster is well formed.
pub open spec fn all_well_formed(roster: Seq<TeamView>) -> bool {
    forall|i: int| 0 <= i < roster.len() ==> (#[trigger] roster[i]).well_formed()
}

/// In the roster that cards give, no identity occurs twice and no team lists
/// more than three players.
pub proof fn lemma_roster_sound(cards: Seq<CardView>, redirects: Seq<(Seq<char>, Seq<char>)>)
    ensures
        distinct_ids(roster_of(cards, redirects)),
        all_well_formed(roster_of(cards, redirects)),
    decreases cards.len(),
{
    if cards.len() > 0 {
        lemma_roster_sound(cards.drop_last(), redirects);
    }
}

/// A row that is no starter's adds nothing: without it the rows add the same
/// players. Such are the rows whose seat cell is missing, spells no number,
/// or spells a number above 3.
pub proof fn lemma_other_rows_dropped(rows: Seq<RowView>, at: int)
    requires
        0 <= at < rows.len(),
        !is_starter(rows[at]),
    ensures
        players_of(rows.remove(at)) == players_of(rows),
    decreases rows.len(),
{
    if at == rows.len() - 1 {
        assert(rows.remove(at) == rows.drop_last());
    } else {
        lemma_other_rows_dropped(rows.drop_last(), at);
        assert(rows.remove(at).drop_last() == rows.drop_last().remove(at));
        assert(rows.remove(at).last() == rows.last());
    }
}

/// A starter's row adds exactly its player, at its place among the players:
/// the rows up to and including it add what the rows before it add, and
/// then its player if it has one.
pub proof fn lemma_starter_row_kept(rows: Seq<RowView>, at: int)
    requires
        0 <= at < rows.len(),
        is_starter(rows[at]),
    ensures
        players_of(rows.take(at + 1)) == match rows[at].player {
            Some(player) => players_of(rows.take(at)).push(player),
            None => players_of(rows.take(at)),
        },
{
    assert(rows.take(at + 1).drop_last() == rows.take(at));
}

/// Reads the player that a row adds.
pub fn player_of_row(row: &RowFacts) -> (player: Option<String>)
    ensures
        player.deep_view() == row_player(row@),
{
    let seat = match &row.seat {
        Some(text) => parse_u8(text.as_str()),
        None => None,
    };
    match seat {
        Some(number) => {
            if number <= 3 {
                row.player.clone()
            } else {
                None
            }
        },
        None => None,
    }
}

/// Makes the team that a card shows.
pub fn team_of_card(card: &CardFacts, redirects: &Redirects) -> (team: Option<Team>)
    ensures
        team.deep_view() == card_team(card@, redirects@),
        team matches Some(made) ==> made@.well_formed(),
{
    match (&card.name, &card.link, &card.rows) {
        (Some(name), Some(link), Some(rows)) => {
            let ghost all = rows.deep_view();
            let mut players: Vec<String> = Vec::new();
            let mut at: usize = 0;
            while at < rows.len() && players.len() < 3
                invariant
                    at <= rows.len(),
                    all == rows.deep_view(),
                    players.len() <= 3,
                    players.deep_view() == first_three(players_of(all.take(at as int))),
                    players.len() < 3 ==> players.deep_view() == players_of(all.take(at as int)),
                decreases rows.len() - at,
            {
                assert(all.take(at + 1).drop_last() == all.take(at as int));
                assert(all.take(at + 1).last() == rows@[at as int]@);
                let ghost before = players.deep_view();
                match player_of_row(&rows[at]) {
                    Some(player) => {
                        let ghost added = player@;
                        players.push(player);
                        assert(players.deep_view() =~= before.push(added));
                    },
                    None => {},
                }
                at = at + 1;
            }
            proof {
                if at < rows.len() {
                    lemma_three_players_stay(all, at as int);
                } else {
                    assert(all.take(at as int) == all);
                }
            }
            let id = redirects.canonical_id(link.as_str());
            Some(Team { name: name.clone(), id, players })
        },
        _ => None,
    }
}

/// Once the rows have added three players, the first three stay what they
/// are, whatever rows follow.
pub proof fn lemma_three_players_stay(rows: Seq<RowView>, n: int)
    requires
        0 <= n <= rows.len(),
        players_of(rows.take(n)).len() >= 3,
    ensures
        first_three(players_of(rows)) == first_three(players_of(rows.take(n))),
    decreases rows.len() - n,
{
    if n == rows.len() {
        assert(rows.take(n) == rows);
    } else {
        assert(rows.take(n + 1).drop_last() == rows.take(n));
        let shorter = players_of(rows.take(n));
        let longer = players_of(rows.take(n + 1));
        assert(longer.len() >= 3);
        assert(first_three(longer) =~= first_three(shorter));
        lemma_three_players_stay(rows, n + 1);
    }
}

/// Tells whether a roster holds a team of the given identity.
pub fn holds_id(teams: &Vec<Team>, id: &str) -> (held: bool)
    ensures
        held == has_id(teams.deep_view(), id@),
{
    let ghost roster = teams.deep_view();
    let mut at: usize = 0;
    while at < teams.len()
        invariant
            at <= teams.len(),
            roster == teams.deep_view(),
            forall|i: int| 0 <= i < at ==> (#[trigger] roster[i]).id != id@,
        decreases teams.len() - at,
    {
        assert(roster[at as int] == teams@[at as int]@);
        if equal_text(teams[at].id.as_str(), id) {
            return true;
        }
        at = at + 1;
    }
    false
}

/// Makes the roster that a row of cards gives.
pub fn teams_from(cards: &Vec<CardFacts>, redirects: &Redirects) -> (teams: Vec<Team>)
    ensures
        teams.deep_view() == roster_of(cards.deep_view(), redirects@),
        distinct_ids(teams.deep_view()),
        all_well_formed(teams.deep_view()),
{
    let ghost all = cards.deep_view();
    let mut teams: Vec<Team> = Vec::new();
    let mut at: usize = 0;
    assert(teams.deep_view() =~= roster_of(all.take(0), redirects@));
    while at < cards.len()
        invariant
            at <= cards.len(),
            all == cards.deep_view(),
            teams.deep_view() == roster_of(all.take(at as int), redirects@),
        decreases cards.len() - at,
    {
        assert(all.take(at + 1).drop_last() == all.take(at as int));
        assert(all.take(at + 1).last() == cards@[at as int]@);
        let ghost before = teams.deep_view();
        match team_of_card(&cards[at], redirects) {
            Some(team) => {
                if !holds_id(&teams, team.id.as_str()) {
                    let ghost added = team@;
                    teams.push(team);
                    assert(teams.deep_view() =~= before.push(added));
                }
            },
            None => {},
        }
        at = at + 1;
    }
    proof {
        assert(all.take(at as int) == all);
        lemma_roster_sound(all, redirects@);
    }
    teams
}

/// Whether an anchor wraps an image: one of its children is an `img`.
pub open spec fn wraps_image(nodes: Seq<NodeRecord>, anchor: usize) -> bool {
    exists|k: int|
        0 <= k < children_of(nodes, anchor).len() && tag_of(
            nodes[(#[trigger] children_of(nodes, anchor)[k]) as int],
        ) == Some("img"@)
}

/// The first of a list of anchors that wraps no image.
pub open spec fn first_plain(nodes: Seq<NodeRecord>, anchors: Seq<usize>) -> Option<usize>
    decreases anchors.len(),
{
    if anchors.len() == 0 {
        None
    } else if !wraps_image(nodes, anchors[0]) {
        Some(anchors[0])
    } else {
        first_plain(nodes, anchors.drop_first())
    }
}

/// The anchor that `first_plain` gives wraps no image and every anchor
/// before it wraps one; it gives none exactly when every anchor wraps one.
pub proof fn lemma_first_plain(nodes: Seq<NodeRecord>, anchors: Seq<usize>)
    ensures
        match first_plain(nodes, anchors) {
            Some(anchor) => exists|at: int|
                {
                    &&& 0 <= at < anchors.len()
                    &&& anchors[at] == anchor
                    &&& !wraps_image(nodes, anchor)
                    &&& forall|j: int| 0 <= j < at ==> wraps_image(nodes, #[trigger] anchors[j])
                },
            None => forall|j: int|
                0 <= j < anchors.len() ==> wraps_image(nodes, #[trigger] anchors[j]),
        },
    decreases anchors.len(),
{
    if anchors.len() == 0 {
    } else if !wraps_image(nodes, anchors[0]) {
        assert(anchors[0] == anchors[0] && forall|j: int|
            0 <= j < 0 ==> wraps_image(nodes, #[trigger] anchors[j]));
    } else {
        let rest = anchors.drop_first();
        lemma_first_plain(nodes, rest);
        match first_plain(nodes, rest) {
            Some(anchor) => {
                let at = choose|at: int|
                    {
                        &&& 0 <= at < rest.len()
                        &&& rest[at] == anchor
                        &&& !wraps_image(nodes, anchor)
                        &&& forall|j: int| 0 <= j < at ==> wraps_image(nodes, #[trigger] rest[j])
                    };
                assert forall|j: int| 0 <= j < at + 1 implies wraps_image(
                    nodes,
                    #[trigger] anchors[j],
                ) by {
                    if j > 0 {
                        assert(anchors[j] == rest[j - 1]);
                    }
                }
                assert(anchors[at + 1] == anchor);
            },
            None => {
                assert forall|j: int| 0 <= j < anchors.len() implies wraps_image(
                    nodes,
                    #[trigger] anchors[j],
                ) by {
                    if j > 0 {
                        assert(anchors[j] == rest[j - 1]);
                    }
                }
            },
        }
    }
}

/// What a row of a team card shows: the text of its first `th`, and the
/// text of its first anchor that wraps no image.
pub open spec fn row_facts(nodes: Seq<NodeRecord>, row: usize) -> RowView {
    RowView {
        seat: text_at(nodes, first_below(nodes, Some(row), Seq::empty(), Some("th"@))),
        player: text_at(
            nodes,
            first_plain(nodes, found_below(nodes, row, Seq::empty(), Some("a"@))),
        ),
    }
}

/// The player of a row is the text of one of the row's anchors, and that
/// anchor wraps no image.
pub proof fn lemma_player_wraps_no_image(nodes: Seq<NodeRecord>, row: usize)
    ensures
        row_facts(nodes, row).player matches Some(player) ==> exists|anchor: usize|
            {
                &&& found_below(nodes, row, Seq::empty(), Some("a"@)).contains(anchor)
                &&& !#[trigger] wraps_image(nodes, anchor)
                &&& player == text_of(nodes, anchor)
            },
{
    let anchors = found_below(nodes, row, Seq::empty(), Some("a"@));
    lemma_first_plain(nodes, anchors);
    if let Some(anchor) = first_plain(nodes, anchors) {
        let at = choose|at: int|
            {
                &&& 0 <= at < anchors.len()
                &&& anchors[at] == anchor
                &&& !wraps_image(nodes, anchor)
                &&& forall|j: int| 0 <= j < at ==> wraps_image(nodes, #[trigger] anchors[j])
            };
        assert(anchors.contains(anchor));
        assert(!wraps_image(nodes, anchor));
    }
}

/// What the rows at a list of nodes show.
pub open spec fn rows_at(nodes: Seq<NodeRecord>, found: Seq<usize>) -> Seq<RowView> {
    Seq::new(found.len(), |i: int| row_facts(nodes, found[i]))
}

/// The rows of a team card: the `tr` rows of the first table in its inner
/// part. A card without such a table has none.
pub open spec fn card_rows(nodes: Seq<NodeRecord>, card: usize) -> Option<Seq<RowView>> {
    let inner = first_below(nodes, Some(card), seq!["teamcard-inner"@], None);
    let table = first_below(nodes, inner, seq!["table"@], None);
    match table {
        Some(table) => Some(rows_at(nodes, found_below(nodes, table, Seq::empty(), Some("tr"@)))),
        None => None,
    }
}

/// What a team card shows. Its title link is the first anchor in the first
/// `b` of its first `center`.
pub open spec fn card_facts(nodes: Seq<NodeRecord>, card: usize) -> CardView {
    let center = first_below(nodes, Some(card), Seq::empty(), Some("center"@));
    let bold = first_below(nodes, center, Seq::empty(), Some("b"@));
    let title = first_below(nodes, bold, Seq::empty(), Some("a"@));
    CardView {
        name: text_at(nodes, title),
        link: attribute_at(nodes, title, "href"@),
        rows: card_rows(nodes, card),
    }
}

/// Tells whether an anchor wraps an image.
fn anchor_wraps_image(page: &Page, anchor: usize) -> (wraps: bool)
    requires
        anchor < page@.len(),
    ensures
        wraps == wraps_image(page@, anchor),
{
    let children = node_children(page, anchor);
    let mut at: usize = 0;
    while at < children.len()
        invariant
            at <= children.len(),
            children@ == children_of(page@, anchor),
            all_within(children@, page@),
            forall|k: int|
                0 <= k < at ==> tag_of(page@[(#[trigger] children@[k]) as int]) != Some("img"@),
        decreases children.len() - at,
    {
        let is_image = match node_tag(page, children[at]) {
            Some(tag) => equal_text(tag.as_str(), "img"),
            None => false,
        };
        if is_image {
            return true;
        }
        at = at + 1;
    }
    false
}

/// Finds the first of a list of anchors that wraps no image.
fn find_plain(page: &Page, anchors: &Vec<usize>) -> (found: Option<usize>)
    requires
        all_within(anchors@, page@),
    ensures
        found == first_plain(page@, anchors@),
        within(found, page@),
{
    let mut at: usize = 0;
    assert(anchors@.skip(0) == anchors@);
    while at < anchors.len()
        invariant
            at <= anchors.len(),
            all_within(anchors@, page@),
            first_plain(page@, anchors@) == first_plain(page@, anchors@.skip(at as int)),
        decreases anchors.len() - at,
    {
        assert(anchors@.skip(at as int)[0] == anchors@[at as int]);
        assert(anchors@.skip(at as int).drop_first() == anchors@.skip(at + 1));
        if !anchor_wraps_image(page, anchors[at]) {
            return Some(anchors[at]);
        }
        at = at + 1;
    }
    None
}

/// Reads what a row of a team card shows.
fn read_row(page: &Page, row: usize) -> (facts: RowFacts)
    requires
        row < page@.len(),
    ensures
        facts@ == row_facts(page@, row),
{
    let cell = first_by_tag(page, Some(row), "th");
    let anchors = find_by_tag(page, row, "a");
    let anchor = find_plain(page, &anchors);
    RowFacts { seat: text_if(page, cell), player: text_if(page, anchor) }
}

/// Reads the rows of a team card.
fn read_rows(page: &Page, card: usize) -> (rows: Option<Vec<RowFacts>>)
    requires
        card < page@.len(),
    ensures
        rows.deep_view() == card_rows(page@, card),
{
    let inner = first_by_class(page, Some(card), "teamcard-inner");
    let table = first_by_class(page, inner, "table");
    let table = match table {
        Some(table) => table,
        None => {
            return None;
        },
    };
    let found = find_by_tag(page, table, "tr");
    let mut rows: Vec<RowFacts> = Vec::new();
    let mut at: usize = 0;
    while at < found.len()
        invariant
            at <= found.len(),
            all_within(found@, page@),
            rows.deep_view() == rows_at(page@, found@).take(at as int),
        decreases found.len() - at,
    {
        let ghost before = rows.deep_view();
        rows.push(read_row(page, found[at]));
        assert(rows.deep_view() =~= before.push(row_facts(page@, found@[at as int])));
        assert(rows.deep_view() =~= rows_at(page@, found@).take(at + 1));
        at = at + 1;
    }
    assert(rows_at(page@, found@).take(at as int) == rows_at(page@, found@));
    Some(rows)
}

/// Reads what a team card shows.
pub fn read_card(page: &Page, card: usize) -> (facts: CardFacts)
    requires
        card < page@.len(),
    ensures
        facts@ == card_facts(page@, card),
{
    let center = first_by_tag(page, Some(card), "center");
    let bold = first_by_tag(page, center, "b");
    let title = first_by_tag(page, bold, "a");
    CardFacts {
        name: text_if(page, title),
        link: attribute_if(page, title, "href"),
        rows: read_rows(page, card),
    }
}

/// Reads what the node at an index shows as a team card; nothing where the
/// page has no node at that index.
pub fn read_card_at(page: &Page, card: usize) -> (facts: Option<CardFacts>)
    ensures
        match facts {
            Some(read) => card < page@.len() && read@ == card_facts(page@, card),
            None => card >= page@.len(),
        },
{
    if page.holds(card) {
        Some(read_card(page, card))
    } else {
        None
    }
}

/// The team cards of a page, in the order of the document.
pub open spec fn cards_of(nodes: Seq<NodeRecord>) -> Seq<usize> {
    found_in(nodes, seq!["teamcard"@])
}

/// What the team cards of a page show, card by card.
pub open spec fn page_cards(nodes: Seq<NodeRecord>) -> Seq<CardView> {
    Seq::new(cards_of(nodes).len(), |i: int| card_facts(nodes, cards_of(nodes)[i]))
}

/// Lists the team cards of a page.
pub fn team_cards(page: &Page) -> (found: Vec<usize>)
    ensures
        found@ == cards_of(page@),
        all_within(found@, page@),
{
    find_in_page(page, "teamcard")
}

/// Reads what each team card of a page shows.
pub fn read_cards(page: &Page) -> (all: Vec<CardFacts>)
    ensures
        all.deep_view() == page_cards(page@),
{
    let found = team_cards(page);
    let mut all: Vec<CardFacts> = Vec::new();
    let mut at: usize = 0;
    while at < found.len()
        invariant
            at <= found.len(),
            found@ == cards_of(page@),
            all_within(found@, page@),
            all.deep_view() == page_cards(page@).take(at as int),
        decreases found.len() - at,
    {
        let ghost before = all.deep_view();
        all.push(read_card(page, found[at]));
        assert(all.deep_view() =~= before.push(card_facts(page@, found@[at as int])));
        assert(all.deep_view() =~= page_cards(page@).take(at + 1));
        at = at + 1;
    }
    assert(page_cards(page@).take(at as int) == page_cards(page@));
    all
}

/// The roster of a page: the teams that its team cards show.
pub fn get_teams_in_tournament(page: &Page, redirects: &Redirects) -> (teams: Vec<Team>)
    ensures
        teams.deep_view() == roster_of(page_cards(page@), redirects@),
        distinct_ids(teams.deep_view()),
        all_well_formed(teams.deep_view()),
{
    let cards = read_cards(page);
    teams_from(&cards, redirects)
}

} // verus!
