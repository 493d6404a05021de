use bracket_results::game::{pair, Game};
use bracket_results::pairing::{pair_scores, Indicator, Pairing, Scoreline, Side};
use bracket_results::team::Team;

fn on_left(score: u8) -> Indicator {
    Indicator { score, side: Side::Left }
}

fn on_right(score: u8) -> Indicator {
    Indicator { score, side: Side::Right }
}

fn team(name: &str, id: &str) -> Team {
    Team { name: name.to_string(), id: id.to_string(), players: vec![] }
}

#[test]
fn alternating_indicators_pair_in_order() {
    let lines = pair_scores(&vec![on_left(3), on_right(1), on_left(2), on_right(0)]);
    assert_eq!(lines, vec![Scoreline { left: 3, right: 1 }, Scoreline { left: 2, right: 0 }]);
}

#[test]
fn right_before_left_still_goes_to_its_side() {
    let lines = pair_scores(&vec![on_right(4), on_left(2)]);
    assert_eq!(lines, vec![Scoreline { left: 2, right: 4 }]);
}

#[test]
fn dangling_indicator_makes_no_game() {
    let lines = pair_scores(&vec![on_left(3), on_left(1)]);
    assert_eq!(lines, vec![]);
}

#[test]
fn single_indicator_makes_no_game() {
    assert_eq!(pair_scores(&vec![on_right(9)]), vec![]);
}

#[test]
fn no_indicator_makes_no_game() {
    assert_eq!(pair_scores(&vec![]), vec![]);
}

#[test]
fn latest_pending_indicator_wins() {
    let lines = pair_scores(&vec![on_left(3), on_left(5), on_right(1)]);
    assert_eq!(lines, vec![Scoreline { left: 5, right: 1 }]);
}

#[test]
fn leftover_after_a_pair_is_dropped() {
    let lines = pair_scores(&vec![on_left(3), on_right(1), on_right(7)]);
    assert_eq!(lines, vec![Scoreline { left: 3, right: 1 }]);
}

#[test]
fn games_never_outnumber_half_the_indicators() {
    let indicators = vec![
        on_left(1),
        on_left(2),
        on_right(3),
        on_right(4),
        on_left(5),
        on_right(6),
        on_left(7),
    ];
    let lines = pair_scores(&indicators);
    assert_eq!(lines, vec![Scoreline { left: 2, right: 3 }, Scoreline { left: 5, right: 4 }, Scoreline { left: 7, right: 6 }]);
    assert!(2 * lines.len() <= indicators.len());
}

#[test]
fn pairing_state_advances_step_by_step() {
    let mut state = Pairing::new();
    assert_eq!(state.pending, None);
    assert_eq!(state.advance(on_left(3)), None);
    assert_eq!(state.pending, Some(on_left(3)));
    assert_eq!(state.advance(on_left(5)), None);
    assert_eq!(state.pending, Some(on_left(5)));
    assert_eq!(state.advance(on_right(1)), Some(Scoreline { left: 5, right: 1 }));
    assert_eq!(state.pending, None);
}

#[test]
fn paired_games_map_each_team_to_its_score() {
    let alpha = team("Alpha", "/rl/Alpha");
    let beta = team("Beta", "/rl/Beta");
    let games = pair(&vec![on_left(3), on_right(1), on_left(2), on_right(0)], &alpha, &beta);
    assert_eq!(games.len(), 2);
    assert_eq!(games[0].score_of(&alpha), Some(3));
    assert_eq!(games[0].score_of(&beta), Some(1));
    assert_eq!(games[1].score_of(&alpha), Some(2));
    assert_eq!(games[1].score_of(&beta), Some(0));
    assert_eq!(games[0].scores.len(), 2);
}

#[test]
fn game_holds_no_score_for_a_stranger() {
    let alpha = team("Alpha", "/rl/Alpha");
    let beta = team("Beta", "/rl/Beta");
    let gamma = team("Gamma", "/rl/Gamma");
    let game = Game::between(&alpha, &beta, Scoreline { left: 3, right: 1 });
    assert_eq!(game.score_of(&gamma), None);
}

#[test]
fn game_finds_a_team_by_identity_not_by_name() {
    let alpha = team("Alpha", "/rl/Alpha");
    let beta = team("Beta", "/rl/Beta");
    let renamed = team("Alpha Esports", "/rl/Alpha");
    let game = Game::between(&alpha, &beta, Scoreline { left: 3, right: 1 });
    assert_eq!(game.score_of(&renamed), Some(3));
}

#[test]
fn game_of_one_team_on_both_sides_has_one_entry() {
    let alpha = team("Alpha", "/rl/Alpha");
    let again = team("Alpha again", "/rl/Alpha");
    let game = Game::between(&alpha, &again, Scoreline { left: 3, right: 1 });
    assert_eq!(game.scores.len(), 1);
    assert_eq!(game.scores[0].0.name, "Alpha");
    assert_eq!(game.score_of(&alpha), Some(1));
}

#[test]
fn cloned_game_keeps_its_scores() {
    let alpha = team("Alpha", "/rl/Alpha");
    let beta = team("Beta", "/rl/Beta");
    let game = Game::between(&alpha, &beta, Scoreline { left: 3, right: 1 });
    let copy = game.clone();
    assert_eq!(copy.score_of(&alpha), Some(3));
    assert_eq!(copy.score_of(&beta), Some(1));
    assert_eq!(copy.scores.len(), 2);
}
