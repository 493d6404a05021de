//! Pairing of score indicators. A bracket shows one indicator per side and
//! game, in the order of the markup and without saying which game each
//! belongs to. Two neighbours of opposite sides make one game.

use vstd::prelude::*;

verus! {

/// The side of a bracket entry.
#[derive(Clone, Copy, Debug, PartialEq, Eq, Structural)]
pub enum Side {
    Left,
    Right,
}

/// One side's score in one game, as the markup shows it.
#[derive(Clone, Copy, Debug, PartialEq, Eq, Structural)]
pub struct Indicator {
    pub score: u8,
    pub side: Side,
}

/// The scores of both sides in one game.
#[derive(Clone, Copy, Debug, PartialEq, Eq, Structural)]
pub struct Scoreline {
    pub left: u8,
    pub right: u8,
}

/// The scoreline that two indicators of opposite sides make: each score
/// goes to the side that its indicator names.
pub open spec fn joined(held: Indicator, arrived: Indicator) -> Scoreline {
    if held.side == Side::Left {
        Scoreline { left: held.score, right: arrived.score }
    } else {
        Scoreline { left: arrived.score, right: held.score }
    }
}

/// The state of the pairing: the indicator that waits for its counterpart.
#[derive(Clone, Copy, Debug, PartialEq, Eq, Structural)]
pub struct Pairing {
    pub pending: Option<Indicator>,
}

impl Pairing {
    /// The state after one more indicator, and the scoreline that it
    /// completes. An indicator of the side opposite to the one that waits
    /// completes a game and leaves nothing waiting. Any other indicator
    /// waits itself, in place of what waited before.
    pub open spec fn step(self, arrived: Indicator) -> (Pairing, Option<Scoreline>) {
        match self.pending {
            Some(held) if held.side != arrived.side => (
                Pairing { pending: None },
                Some(joined(held, arrived)),
            ),
            _ => (Pairing { pending: Some(arrived) }, None),
        }
    }

    /// The state in which nothing waits.
    pub fn new() -> (start: Pairing)
        ensures
            start == (Pairing { pending: None }),
    {
        Pairing { pending: None }
    }

    /// Takes one indicator and returns the scoreline that it completes.
    pub fn advance(&mut self, arrived: Indicator) -> (line: Option<Scoreline>)
        ensures
            (*final(self), line) == old(self).step(arrived),
    {
        match self.pending {
            Some(held) => {
                if held.side != arrived.side {
                    self.pending = None;
                    if held.side == Side::Left {
                        Some(Scoreline { left: held.score, right: arrived.score })
                    } else {
                        Some(Scoreline { left: arrived.score, right: held.score })
                    }
                } else {
                    self.pending = Some(arrived);
                    None
                }
            },
            None => {
                self.pending = Some(arrived);
                None
            },
        }
    }
}

/// The state after a row of indicators.
pub open spec fn state_after(indicators: Seq<Indicator>) -> Pairing
    decreases indicators.len(),
{
    if indicators.len() == 0 {
        Pairing { pending: None }
    } else {
        state_after(indicators.drop_last()).step(indicators.last()).0
    }
}

/// The scorelines that a row of indicators gives, in order. What waits at
/// the end is left out: half a pair is no game.
pub open spec fn paired(indicators: Seq<Indicator>) -> Seq<Scoreline>
    decreases indicators.len(),
{
    if indicators.len() == 0 {
        Seq::empty()
    } else {
        let before = paired(indicators.drop_last());
        match state_after(indicators.drop_last()).step(indicators.last()).1 {
            Some(line) => before.push(line),
            None => before,
        }
    }
}

/// Pairs a row of indicators.
pub fn pair_scores(indicators: &Vec<Indicator>) -> (lines: Vec<Scoreline>)
    ensures
        lines@ == paired(indicators@),
{
    let mut state = Pairing::new();
    let mut lines: Vec<Scoreline> = Vec::new();
    let mut at: usize = 0;
    while at < indicators.len()
        invariant
            at <= indicators.len(),
            state == state_after(indicators@.take(at as int)),
            lines@ == paired(indicators@.take(at as int)),
        decreases indicators.len() - at,
    {
        assert(indicators@.take(at + 1).drop_last() == indicators@.take(at as int));
        match state.advance(indicators[at]) {
            Some(line) => {
                lines.push(line);
            },
            None => {},
        }
        at = at + 1;
    }
    assert(indicators@.take(at as int) == indicators@);
    lines
}

/// What waits is always the indicator that came last.
pub proof fn lemma_pending_is_last(indicators: Seq<Indicator>)
    ensures
        state_after(indicators).pending matches Some(held) ==> indicators.len() > 0 && held
            == indicators.last(),
    decreases indicators.len(),
{
    if indicators.len() > 0 {
        lemma_pending_is_last(indicators.drop_last());
    }
}

/// Every game takes two indicators: twice the games, and one more if
/// something waits, is no more than the indicators.
pub proof fn lemma_paired_count(indicators: Seq<Indicator>)
    ensures
        2 * paired(indicators).len() + (if state_after(indicators).pending is Some {
            1int
        } else {
            0int
        }) <= indicators.len(),
    decreases indicators.len(),
{
    if indicators.len() > 0 {
        lemma_paired_count(indicators.drop_last());
    }
}

/// Whether a scoreline is what two neighbours of opposite sides make, the
/// first at place `at`.
pub open spec fn made_at(indicators: Seq<Indicator>, line: Scoreline, at: int) -> bool {
    &&& 0 <= at && at + 1 < indicators.len()
    &&& indicators[at].side != indicators[at + 1].side
    &&& line == joined(indicators[at], indicators[at + 1])
}

/// No score is made up: every scoreline is what two neighbouring indicators
/// of opposite sides make.
pub proof fn lemma_paired_from_neighbours(indicators: Seq<Indicator>, k: int)
    requires
        0 <= k < paired(indicators).len(),
    ensures
        exists|at: int| made_at(indicators, paired(indicators)[k], at),
    decreases indicators.len(),
{
    let shorter = indicators.drop_last();
    let before = paired(shorter);
    if k < before.len() {
        lemma_paired_from_neighbours(shorter, k);
        let at = choose|at: int| made_at(shorter, before[k], at);
        assert(made_at(indicators, paired(indicators)[k], at));
    } else {
        lemma_pending_is_last(shorter);
        assert(made_at(indicators, paired(indicators)[k], indicators.len() - 2));
    }
}

/// Indicators of one side alone give no game.
pub proof fn lemma_one_side_gives_nothing(indicators: Seq<Indicator>, side: Side)
    requires
        forall|i: int| 0 <= i < indicators.len() ==> (#[trigger] indicators[i]).side == side,
    ensures
        paired(indicators).len() == 0,
    decreases indicators.len(),
{
    if indicators.len() > 0 {
        let shorter = indicators.drop_last();
        assert forall|i: int| 0 <= i < shorter.len() implies (#[trigger] shorter[i]).side
            == side by {
            assert(shorter[i] == indicators[i]);
        }
        lemma_one_side_gives_nothing(shorter, side);
        lemma_pending_is_last(shorter);
        if shorter.len() > 0 {
            assert(shorter.last() == indicators[shorter.len() - 1]);
        }
        assert(indicators.last() == indicators[indicators.len() - 1]);
    }
}

/// Whether a row of indicators comes in pairs of opposite sides.
pub open spec fn in_pairs(indicators: Seq<Indicator>) -> bool {
    &&& indicators.len() % 2 == 0
    &&& forall|k: int|
        0 <= k && 2 * k + 1 < indicators.len() ==> (#[trigger] indicators[2 * k]).side
            != indicators[2 * k + 1].side
}

/// A row that comes in pairs of opposite sides gives one game for each
/// pair, in order, and leaves nothing waiting.
pub proof fn lemma_pairs_give_games(indicators: Seq<Indicator>)
    requires
        in_pairs(indicators),
    ensures
        state_after(indicators).pending is None,
        2 * paired(indicators).len() == indicators.len(),
        forall|k: int|
            0 <= k < paired(indicators).len() ==> #[trigger] paired(indicators)[k] == joined(
                indicators[2 * k],
                indicators[2 * k + 1],
            ),
    decreases indicators.len(),
{
    if indicators.len() > 0 {
        let n = indicators.len() as int;
        let one_less = indicators.drop_last();
        let two_less = one_less.drop_last();
        assert forall|k: int| 0 <= k && 2 * k + 1 < two_less.len() implies (
        #[trigger] two_less[2 * k]).side != two_less[2 * k + 1].side by {
            assert(two_less[2 * k] == indicators[2 * k]);
            assert(two_less[2 * k + 1] == indicators[2 * k + 1]);
        }
        lemma_pairs_give_games(two_less);
        let half = (n - 2) / 2;
        assert(one_less.last() == indicators[2 * half]);
        assert(indicators.last() == indicators[2 * half + 1]);
        assert(state_after(one_less).pending == Some(indicators[2 * half]));
        assert(paired(one_less) == paired(two_less));
        assert forall|k: int| 0 <= k < paired(indicators).len() implies #[trigger] paired(
            indicators,
        )[k] == joined(indicators[2 * k], indicators[2 * k + 1]) by {
            if k < half {
                assert(paired(two_less)[k] == joined(two_less[2 * k], two_less[2 * k + 1]));
                assert(two_less[2 * k] == indicators[2 * k]);
                assert(two_less[2 * k + 1] == indicators[2 * k + 1]);
            }
        }
    }
}

} // verus!
