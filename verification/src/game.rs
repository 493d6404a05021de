//! Games: the score of each of the two teams of a match in one game.

use crate::pairing::{pair_scores, paired, Indicator, Scoreline};
use crate::team::{Team, TeamView};
use vstd::prelude::*;

verus! {

/// The scores of one game, one entry for each team, the team's identity
/// being the key.
#[derive(Debug)]
pub struct Game {
    pub scores: Vec<(Team, u8)>,
}

/// A game as plain values.
pub ghost struct GameView {
    pub entries: Seq<(TeamView, u8)>,
}

impl GameView {
    /// The identities of the teams that the game holds a score for.
    pub open spec fn keys(self) -> Set<Seq<char>> {
        Set::new(
            |id: Seq<char>|
                exists|i: int| 0 <= i < self.entries.len() && self.entries[i].0.id == id,
        )
    }

    /// No identity occurs twice, and there are one or two entries.
    pub open spec fn well_formed(self) -> bool {
        &&& 1 <= self.entries.len() <= 2
        &&& forall|i: int, j: int|
            0 <= i < j < self.entries.len() ==> self.entries[i].0.id != self.entries[j].0.id
    }

    /// The place of the entry of a given identity, searched from `upto`
    /// downwards.
    pub open spec fn place_below(self, id: Seq<char>, upto: int) -> Option<int>
        decreases upto,
    {
        if upto <= 0 {
            None
        } else if self.entries[upto - 1].0.id == id {
            Some(upto - 1)
        } else {
            self.place_below(id, upto - 1)
        }
    }

    /// The score of the team of a given identity, if the game holds one.
    pub open spec fn score(self, id: Seq<char>) -> Option<u8> {
        match self.place_below(id, self.entries.len() as int) {
            Some(at) => Some(self.entries[at].1),
            None => None,
        }
    }
}

impl View for Game {
    type V = GameView;

    open spec fn view(&self) -> GameView {
        GameView {
            entries: Seq::new(
                self.scores@.len(),
                |i: int| (self.scores@[i].0@, self.scores@[i].1),
            ),
        }
    }
}

impl DeepView for Game {
    type V = GameView;

    open spec fn deep_view(&self) -> GameView {
        self@
    }
}

/// The game that a scoreline makes between two teams: the left team's score
/// under the left team, the right team's under the right. Where both sides
/// are one team, the one entry holds the right side's score.
pub open spec fn game_between(left: TeamView, right: TeamView, line: Scoreline) -> GameView {
    if left.id == right.id {
        GameView { entries: seq![(left, line.right)] }
    } else {
        GameView { entries: seq![(left, line.left), (right, line.right)] }
    }
}

/// The games that a row of scorelines makes between two teams.
pub open spec fn games_between(left: TeamView, right: TeamView, lines: Seq<Scoreline>) -> Seq<
    GameView,
> {
    Seq::new(lines.len(), |k: int| game_between(left, right, lines[k]))
}

/// A game between two teams holds a score for exactly these two, and each
/// side's score stands under its team.
pub proof fn lemma_game_between(left: TeamView, right: TeamView, line: Scoreline)
    ensures
        game_between(left, right, line).well_formed(),
        game_between(left, right, line).keys() == set![left.id, right.id],
        game_between(left, right, line).score(right.id) == Some(line.right),
        left.id != right.id ==> game_between(left, right, line).score(left.id) == Some(line.left),
{
    let game = game_between(left, right, line);
    reveal_with_fuel(GameView::place_below, 3);
    assert(game.keys() =~= set![left.id, right.id]) by {
        assert(game.entries[0].0.id == left.id);
        if left.id != right.id {
            assert(game.entries[1].0.id == right.id);
        }
    }
}

impl Game {
    /// Makes the game of a scoreline between two teams.
    pub fn between(left: &Team, right: &Team, line: Scoreline) -> (game: Game)
        ensures
            game@ == game_between(left@, right@, line),
    {
        let mut scores: Vec<(Team, u8)> = Vec::new();
        if left.id == right.id {
            scores.push((left.clone(), line.right));
        } else {
            scores.push((left.clone(), line.left));
            scores.push((right.clone(), line.right));
        }
        let game = Game { scores };
        assert(game@.entries =~= game_between(left@, right@, line).entries);
        game
    }

    /// The score that the game holds for a team.
    pub fn score_of(&self, team: &Team) -> (score: Option<u8>)
        ensures
            score == self@.score(team@.id),
    {
        let mut upto: usize = self.scores.len();
        while upto > 0
            invariant
                upto <= self.scores.len(),
                self@.score(team@.id) == match self@.place_below(team@.id, upto as int) {
                    Some(at) => Some(self@.entries[at].1),
                    None => None,
                },
            decreases upto,
        {
            if self.scores[upto - 1].0.id == team.id {
                return Some(self.scores[upto - 1].1);
            }
            upto = upto - 1;
        }
        None
    }
}

impl Clone for Game {
    fn clone(&self) -> (copy: Game)
        ensures
            copy@ == self@,
    {
        let mut scores: Vec<(Team, u8)> = Vec::new();
        let mut at: usize = 0;
        while at < self.scores.len()
            invariant
                at <= self.scores.len(),
                scores@.len() == at,
                forall|i: int|
                    0 <= i < at ==> (#[trigger] scores@[i]).0@ == self.scores@[i].0@ && scores@[i].1
                        == self.scores@[i].1,
            decreases self.scores.len() - at,
        {
            scores.push((self.scores[at].0.clone(), self.scores[at].1));
            at = at + 1;
        }
        let copy = Game { scores };
        assert(copy@.entries =~= self@.entries);
        copy
    }
}

/// Pairs the score indicators of a bracket entry into the games of the
/// match between its left and its right team.
pub fn pair(indicators: &Vec<Indicator>, left: &Team, right: &Team) -> (games: Vec<Game>)
    ensures
        games.deep_view() == games_between(left@, right@, paired(indicators@)),
{
    let lines = pair_scores(indicators);
    let mut games: Vec<Game> = Vec::new();
    let mut at: usize = 0;
    while at < lines.len()
        invariant
            at <= lines.len(),
            games.deep_view() == games_between(left@, right@, lines@.take(at as int)),
        decreases lines.len() - at,
    {
        let ghost before = games.deep_view();
        games.push(Game::between(left, right, lines[at]));
        assert(games.deep_view() =~= before.push(game_between(left@, right@, lines@[at as int])));
        assert(games.deep_view() =~= games_between(left@, right@, lines@.take(at + 1)));
        at = at + 1;
    }
    assert(lines@.take(at as int) == lines@);
    games
}

} // verus!
