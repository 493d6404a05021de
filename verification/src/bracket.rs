//! The match extractor: from what a bracket entry shows to a match, or to
//! the reason why it gives none.

use crate::calendar::{read_timer, timer_date, Date};
use crate::game::{games_between, lemma_game_between, pair, Game, GameView};
use crate::pairing::{paired, Indicator, Side};
use crate::redirects::{canonical, Redirects};
use crate::team::{copy_teams, find_team, lemma_first_match, resolve, Team, TeamView};
use crate::text::{contains, decimal_u8, has_part, parse_u8};
use vstd::prelude::*;

verus! {

/// A match: its date, its two teams, left then right, and its games in the
/// order of the markup.
#[derive(Debug)]
pub struct Match {
    pub date: Date,
    pub teams: Vec<Team>,
    pub games: Vec<Game>,
}

/// A match as plain values.
pub ghost struct MatchView {
    pub date: Date,
    pub teams: Seq<TeamView>,
    pub games: Seq<GameView>,
}

impl MatchView {
    /// A match has two teams, and each of its games holds a score for
    /// exactly these two.
    pub open spec fn well_formed(self) -> bool {
        &&& self.teams.len() == 2
        &&& forall|g: int|
            0 <= g < self.games.len() ==> {
                &&& (#[trigger] self.games[g]).well_formed()
                &&& self.games[g].keys() == set![self.teams[0].id, self.teams[1].id]
            }
    }
}

impl View for Match {
    type V = MatchView;

    open spec fn view(&self) -> MatchView {
        MatchView {
            date: self.date,
            teams: self.teams.deep_view(),
            games: self.games.deep_view(),
        }
    }
}

impl DeepView for Match {
    type V = MatchView;

    open spec fn deep_view(&self) -> MatchView {
        self@
    }
}

impl Clone for Match {
    fn clone(&self) -> (copy: Match)
        ensures
            copy@ == self@,
    {
        let teams = copy_teams(&self.teams);
        let mut games: Vec<Game> = Vec::new();
        let mut at: usize = 0;
        while at < self.games.len()
            invariant
                at <= self.games.len(),
                games.deep_view() == self.games.deep_view().take(at as int),
            decreases self.games.len() - at,
        {
            let ghost before = games.deep_view();
            games.push(self.games[at].clone());
            assert(games.deep_view() =~= before.push(self.games@[at as int]@));
            assert(games.deep_view() =~= self.games.deep_view().take(at + 1));
            at = at + 1;
        }
        assert(self.games.deep_view().take(at as int) == self.games.deep_view());
        Match { date: self.date, teams, games }
    }
}

/// Why a bracket entry gives no match.
#[derive(Clone, Copy, Debug, PartialEq, Eq, Structural)]
pub enum ExtractionOutcome {
    /// The entry has no header: it only holds a place in the bracket.
    Placeholder,
    /// Something is missing, and the date is after the cutoff: the match is
    /// still to be played.
    NotYetPlayed { date: Date },
    /// Something is missing, and the date does not excuse it.
    ExtractionFailed { partial_date: Option<Date> },
}

/// What is read from one bracket entry: whether it has a header; the name
/// and the link of its left and of its right side; the text of its timer;
/// and, of each score marker, its text and its style.
#[derive(Debug)]
pub struct PopupFacts {
    pub header: bool,
    pub left_name: Option<String>,
    pub left_link: Option<String>,
    pub right_name: Option<String>,
    pub right_link: Option<String>,
    pub timer: Option<String>,
    pub markers: Vec<(String, Option<String>)>,
}

/// The facts of a bracket entry as plain values.
pub ghost struct PopupView {
    pub header: bool,
    pub left_name: Option<Seq<char>>,
    pub left_link: Option<Seq<char>>,
    pub right_name: Option<Seq<char>>,
    pub right_link: Option<Seq<char>>,
    pub timer: Option<Seq<char>>,
    pub markers: Seq<(Seq<char>, Option<Seq<char>>)>,
}

impl View for PopupFacts {
    type V = PopupView;

    open spec fn view(&self) -> PopupView {
        PopupView {
            header: self.header,
            left_name: self.left_name.deep_view(),
            left_link: self.left_link.deep_view(),
            right_name: self.right_name.deep_view(),
            right_link: self.right_link.deep_view(),
            timer: self.timer.deep_view(),
            markers: self.markers.deep_view(),
        }
    }
}

impl DeepView for PopupFacts {
    type V = PopupView;

    open spec fn deep_view(&self) -> PopupView {
        self@
    }
}

/// The indicator that a score marker shows: its text must spell a small
/// number and it must have a style; a style that holds the word `left`
/// puts it on the left side, any other on the right.
pub open spec fn indicator_of(marker: (Seq<char>, Option<Seq<char>>)) -> Option<Indicator> {
    match (decimal_u8(marker.0), marker.1) {
        (Some(score), Some(style)) => Some(
            Indicator {
                score,
                side: if has_part(style, "left"@) {
                    Side::Left
                } else {
                    Side::Right
                },
            },
        ),
        _ => None,
    }
}

/// The indicators that a row of score markers shows, in order. A marker
/// that shows none is passed over.
pub open spec fn indicators_of(markers: Seq<(Seq<char>, Option<Seq<char>>)>) -> Seq<Indicator>
    decreases markers.len(),
{
    if markers.len() == 0 {
        Seq::empty()
    } else {
        let before = indicators_of(markers.drop_last());
        match indicator_of(markers.last()) {
            Some(indicator) => before.push(indicator),
            None => before,
        }
    }
}

/// Reads the indicators from a row of score markers.
pub fn read_indicators(markers: &Vec<(String, Option<String>)>) -> (indicators: Vec<Indicator>)
    ensures
        indicators@ == indicators_of(markers.deep_view()),
{
    let ghost all = markers.deep_view();
    let mut indicators: Vec<Indicator> = Vec::new();
    let mut at: usize = 0;
    while at < markers.len()
        invariant
            at <= markers.len(),
            all == markers.deep_view(),
            indicators@ == indicators_of(all.take(at as int)),
        decreases markers.len() - at,
    {
        let marker = &markers[at];
        assert(all.take(at + 1).drop_last() == all.take(at as int));
        assert(all.take(at + 1).last() == (marker.0@, marker.1.deep_view()));
        match (parse_u8(marker.0.as_str()), &marker.1) {
            (Some(score), Some(style)) => {
                let side = if contains(style.as_str(), "left") {
                    Side::Left
                } else {
                    Side::Right
                };
                indicators.push(Indicator { score, side });
            },
            _ => {},
        }
        at = at + 1;
    }
    assert(all.take(at as int) == all);
    indicators
}

/// The completion rule. A match needs both names, both teams and a date;
/// its games are the paired indicators. Where one of the five is missing, a
/// date after the cutoff says that the match is still to be played, and
/// anything else is a failure, reported with the date if there is one.
pub open spec fn completed(
    left_name: Option<Seq<char>>,
    right_name: Option<Seq<char>>,
    left_team: Option<TeamView>,
    right_team: Option<TeamView>,
    date: Option<Date>,
    indicators: Seq<Indicator>,
    cutoff: Date,
) -> Result<MatchView, ExtractionOutcome> {
    match (left_name, right_name, left_team, right_team, date) {
        (Some(_), Some(_), Some(left), Some(right), Some(date)) => Ok(
            MatchView {
                date,
                teams: seq![left, right],
                games: games_between(left, right, paired(indicators)),
            },
        ),
        _ => match date {
            Some(date) if date.later_than(cutoff) => Err(ExtractionOutcome::NotYetPlayed { date }),
            _ => Err(ExtractionOutcome::ExtractionFailed { partial_date: date }),
        },
    }
}

/// What an extraction gave, the match taken as plain values.
pub open spec fn outcome_view(outcome: Result<Match, ExtractionOutcome>) -> Result<
    MatchView,
    ExtractionOutcome,
> {
    match outcome {
        Ok(found) => Ok(found@),
        Err(reason) => Err(reason),
    }
}

/// Every match that the completion rule gives is well formed: it has two
/// teams, and each of its games holds a score for exactly these two.
pub proof fn lemma_completed_well_formed(
    left_name: Option<Seq<char>>,
    right_name: Option<Seq<char>>,
    left_team: Option<TeamView>,
    right_team: Option<TeamView>,
    date: Option<Date>,
    indicators: Seq<Indicator>,
    cutoff: Date,
)
    ensures
        completed(
            left_name,
            right_name,
            left_team,
            right_team,
            date,
            indicators,
            cutoff,
        ) matches Ok(found) ==> found.well_formed() && found.teams == seq![
            left_team->0,
            right_team->0,
        ] && found.games.len() == paired(indicators).len(),
{
    if let Ok(found) = completed(
        left_name,
        right_name,
        left_team,
        right_team,
        date,
        indicators,
        cutoff,
    ) {
        let left = left_team->0;
        let right = right_team->0;
        assert forall|g: int| 0 <= g < found.games.len() implies {
            &&& (#[trigger] found.games[g]).well_formed()
            &&& found.games[g].keys() == set![found.teams[0].id, found.teams[1].id]
        } by {
            lemma_game_between(left, right, paired(indicators)[g]);
        }
    }
}

/// The completion rule gives a match exactly when nothing is missing. Where
/// something is missing, it says "not yet played" exactly when there is a
/// date and that date is after the cutoff.
pub proof fn lemma_completed_cases(
    left_name: Option<Seq<char>>,
    right_name: Option<Seq<char>>,
    left_team: Option<TeamView>,
    right_team: Option<TeamView>,
    date: Option<Date>,
    indicators: Seq<Indicator>,
    cutoff: Date,
)
    ensures
        ({
            let outcome = completed(
                left_name,
                right_name,
                left_team,
                right_team,
                date,
                indicators,
                cutoff,
            );
            let whole = left_name is Some && right_name is Some && left_team is Some && right_team
                is Some && date is Some;
            &&& outcome is Ok <==> whole
            &&& outcome is Err && outcome->Err_0 is NotYetPlayed <==> !whole && date is Some
                && date->0.later_than(cutoff)
            &&& outcome is Err && outcome->Err_0 is ExtractionFailed <==> !whole && !(date is Some
                && date->0.later_than(cutoff))
            &&& !(outcome is Err && outcome->Err_0 is Placeholder)
        }),
{
}

/// Applies the completion rule.
pub fn complete(
    left_name: &Option<String>,
    right_name: &Option<String>,
    left_team: Option<Team>,
    right_team: Option<Team>,
    date: Option<Date>,
    indicators: &Vec<Indicator>,
    cutoff: Date,
) -> (outcome: Result<Match, ExtractionOutcome>)
    ensures
        outcome_view(outcome) == completed(
            left_name.deep_view(),
            right_name.deep_view(),
            left_team.deep_view(),
            right_team.deep_view(),
            date,
            indicators@,
            cutoff,
        ),
        outcome matches Ok(found) ==> found@.well_formed(),
{
    proof {
        lemma_completed_well_formed(
            left_name.deep_view(),
            right_name.deep_view(),
            left_team.deep_view(),
            right_team.deep_view(),
            date,
            indicators@,
            cutoff,
        );
    }
    let named = left_name.is_some() && right_name.is_some();
    match (named, left_team, right_team, date) {
        (true, Some(left), Some(right), Some(date)) => {
            let games = pair(indicators, &left, &right);
            let mut teams: Vec<Team> = Vec::new();
            let ghost left_view = left@;
            let ghost right_view = right@;
            teams.push(left);
            teams.push(right);
            assert(teams.deep_view() =~= seq![left_view, right_view]);
            Ok(Match { date, teams, games })
        },
        (_, _, _, date) => match date {
            Some(day) => {
                if day.is_after(&cutoff) {
                    Err(ExtractionOutcome::NotYetPlayed { date: day })
                } else {
                    Err(ExtractionOutcome::ExtractionFailed { partial_date: date })
                }
            },
            None => Err(ExtractionOutcome::ExtractionFailed { partial_date: date }),
        },
    }
}

/// The team of one side of a bracket entry: the roster entry that the
/// canonical id of the side's link, or else the side's name, resolves to. A
/// side without a link has no team.
pub open spec fn side_team(
    link: Option<Seq<char>>,
    name: Option<Seq<char>>,
    roster: Seq<TeamView>,
    redirects: Seq<(Seq<char>, Seq<char>)>,
) -> Option<TeamView> {
    match link {
        Some(path) => resolve(canonical(redirects, path), name, roster),
        None => None,
    }
}

/// The date of a bracket entry: what its timer text gives, if it has one.
pub open spec fn popup_date(timer: Option<Seq<char>>) -> Option<Date> {
    match timer {
        Some(text) => timer_date(text),
        None => None,
    }
}

/// What a bracket entry gives: nothing but its place if it has no header,
/// and else what the completion rule makes of its names, of the teams that
/// its sides resolve to, of its date and of its indicators.
pub open spec fn extraction(
    facts: PopupView,
    roster: Seq<TeamView>,
    redirects: Seq<(Seq<char>, Seq<char>)>,
    cutoff: Date,
) -> Result<MatchView, ExtractionOutcome> {
    if !facts.header {
        Err(ExtractionOutcome::Placeholder)
    } else {
        completed(
            facts.left_name,
            facts.right_name,
            side_team(facts.left_link, facts.left_name, roster, redirects),
            side_team(facts.right_link, facts.right_name, roster, redirects),
            popup_date(facts.timer),
            indicators_of(facts.markers),
            cutoff,
        )
    }
}

/// Whether a team is an entry of a roster.
pub open spec fn listed(team: TeamView, roster: Seq<TeamView>) -> bool {
    exists|i: int| 0 <= i < roster.len() && roster[i] == team
}

/// Every match that an extraction gives is well formed, and both of its
/// teams are entries of the roster.
pub proof fn lemma_extraction_sound(
    facts: PopupView,
    roster: Seq<TeamView>,
    redirects: Seq<(Seq<char>, Seq<char>)>,
    cutoff: Date,
)
    ensures
        extraction(facts, roster, redirects, cutoff) matches Ok(found) ==> {
            &&& found.well_formed()
            &&& listed(found.teams[0], roster)
            &&& listed(found.teams[1], roster)
        },
{
    if let Ok(found) = extraction(facts, roster, redirects, cutoff) {
        let left = side_team(facts.left_link, facts.left_name, roster, redirects);
        let right = side_team(facts.right_link, facts.right_name, roster, redirects);
        lemma_completed_well_formed(
            facts.left_name,
            facts.right_name,
            left,
            right,
            popup_date(facts.timer),
            indicators_of(facts.markers),
            cutoff,
        );
        lemma_first_match(roster, canonical(redirects, facts.left_link->0), facts.left_name);
        lemma_first_match(roster, canonical(redirects, facts.right_link->0), facts.right_name);
        assert(found.teams[0] == left->0);
        assert(found.teams[1] == right->0);
    }
}

/// Finds the team of one side of a bracket entry.
pub fn find_side(
    link: &Option<String>,
    name: &Option<String>,
    roster: &Vec<Team>,
    redirects: &Redirects,
) -> (team: Option<Team>)
    ensures
        team.deep_view() == side_team(
            link.deep_view(),
            name.deep_view(),
            roster.deep_view(),
            redirects@,
        ),
{
    match link {
        Some(path) => {
            let id = redirects.canonical_id(path.as_str());
            find_team(id.as_str(), name, roster)
        },
        None => None,
    }
}

/// Extracts the match of a bracket entry from what was read of it.
pub fn extract_from(facts: &PopupFacts, roster: &Vec<Team>, redirects: &Redirects, cutoff: Date)
    -> (outcome: Result<Match, ExtractionOutcome>)
    ensures
        outcome_view(outcome) == extraction(facts@, roster.deep_view(), redirects@, cutoff),
        outcome matches Ok(found) ==> found@.well_formed(),
{
    if !facts.header {
        return Err(ExtractionOutcome::Placeholder);
    }
    let left = find_side(&facts.left_link, &facts.left_name, roster, redirects);
    let right = find_side(&facts.right_link, &facts.right_name, roster, redirects);
    let date = match &facts.timer {
        Some(text) => read_timer(text.as_str()),
        None => None,
    };
    let indicators = read_indicators(&facts.markers);
    complete(&facts.left_name, &facts.right_name, left, right, date, &indicators, cutoff)
}

} // verus!
