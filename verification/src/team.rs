//! Teams, and how a team named in a bracket is found in the roster.

use crate::text::{equal_text, lowercase, to_lowercase};
use vstd::prelude::*;

verus! {

/// A team of a tournament. Its `id` is its identity: two teams with the same
/// `id` are the same team, whatever their names say.
#[derive(Debug)]
pub struct Team {
    pub name: String,
    pub id: String,
    pub players: Vec<String>,
}

/// A team as plain values.
pub ghost struct TeamView {
    pub name: Seq<char>,
    pub id: Seq<char>,
    pub players: Seq<Seq<char>>,
}

impl TeamView {
    /// A team lists at most three players.
    pub open spec fn well_formed(self) -> bool {
        self.players.len() <= 3
    }
}

impl View for Team {
    type V = TeamView;

    open spec fn view(&self) -> TeamView {
        TeamView { name: self.name@, id: self.id@, players: self.players.deep_view() }
    }
}

impl DeepView for Team {
    type V = TeamView;

    open spec fn deep_view(&self) -> TeamView {
        self@
    }
}

impl Clone for Team {
    fn clone(&self) -> (copy: Team)
        ensures
            copy@ == self@,
    {
        let players = self.players.clone();
        assert(players.deep_view() =~= self.players.deep_view());
        Team { name: self.name.clone(), id: self.id.clone(), players }
    }
}

/// Copies a list of teams.
pub fn copy_teams(teams: &Vec<Team>) -> (copy: Vec<Team>)
    ensures
        copy.deep_view() == teams.deep_view(),
{
    let mut copy: Vec<Team> = Vec::new();
    let mut at: usize = 0;
    while at < teams.len()
        invariant
            at <= teams.len(),
            copy.deep_view() == teams.deep_view().take(at as int),
        decreases teams.len() - at,
    {
        let ghost before = copy.deep_view();
        copy.push(teams[at].clone());
        assert(copy.deep_view() =~= before.push(teams@[at as int]@));
        assert(copy.deep_view() =~= teams.deep_view().take(at + 1));
        at = at + 1;
    }
    assert(teams.deep_view().take(at as int) == teams.deep_view());
    copy
}

impl PartialEq for Team {
    fn eq(&self, other: &Team) -> (same: bool) {
        self.id == other.id
    }
}

impl Eq for Team {

}

impl vstd::std_specs::cmp::PartialEqSpecImpl for Team {
    open spec fn obeys_eq_spec() -> bool {
        true
    }

    open spec fn eq_spec(&self, other: &Team) -> bool {
        self.id@ == other.id@
    }
}

/// The texts by which a roster entry is found: its id and its name.
pub type Key = (String, String);

/// Whether a key answers to a candidate: its id is the candidate's id, or
/// its name is the candidate's name. A candidate without a name can only be
/// met by its id.
pub open spec fn key_matches(key: (Seq<char>, Seq<char>), id: Seq<char>, name: Option<Seq<char>>)
    -> bool {
    key.0 == id || (name matches Some(n) && key.1 == n)
}

/// The place of the first key that answers to a candidate.
pub open spec fn first_key(
    keys: Seq<(Seq<char>, Seq<char>)>,
    id: Seq<char>,
    name: Option<Seq<char>>,
) -> Option<int>
    decreases keys.len(),
{
    if keys.len() == 0 {
        None
    } else if key_matches(keys[0], id, name) {
        Some(0)
    } else {
        match first_key(keys.drop_first(), id, name) {
            Some(at) => Some(at + 1),
            None => None,
        }
    }
}

/// `first_key` gives the least place whose key answers, and none exactly
/// when no key answers.
pub proof fn lemma_first_key(
    keys: Seq<(Seq<char>, Seq<char>)>,
    id: Seq<char>,
    name: Option<Seq<char>>,
)
    ensures
        match first_key(keys, id, name) {
            Some(at) => {
                &&& 0 <= at < keys.len()
                &&& key_matches(keys[at], id, name)
                &&& forall|j: int| 0 <= j < at ==> !key_matches(#[trigger] keys[j], id, name)
            },
            None => forall|j: int|
                0 <= j < keys.len() ==> !key_matches(#[trigger] keys[j], id, name),
        },
    decreases keys.len(),
{
    if keys.len() == 0 {
    } else if key_matches(keys[0], id, name) {
    } else {
        let rest = keys.drop_first();
        lemma_first_key(rest, id, name);
        match first_key(rest, id, name) {
            Some(at) => {
                assert(keys[at + 1] == rest[at]);
                assert forall|j: int| 0 <= j < at + 1 implies !key_matches(
                    #[trigger] keys[j],
                    id,
                    name,
                ) by {
                    if j > 0 {
                        assert(keys[j] == rest[j - 1]);
                    }
                }
            },
            None => {
                assert forall|j: int| 0 <= j < keys.len() implies !key_matches(
                    #[trigger] keys[j],
                    id,
                    name,
                ) by {
                    if j > 0 {
                        assert(keys[j] == rest[j - 1]);
                    }
                }
            },
        }
    }
}

/// Finds the first key that answers to a candidate, text for text.
pub fn first_answering(keys: &Vec<Key>, id: &str, name: &Option<String>) -> (found: Option<usize>)
    ensures
        match found {
            Some(at) => first_key(keys.deep_view(), id@, name.deep_view()) == Some(at as int),
            None => first_key(keys.deep_view(), id@, name.deep_view()) is None,
        },
{
    let ghost all = keys.deep_view();
    let ghost wanted = name.deep_view();
    let mut at: usize = 0;
    while at < keys.len()
        invariant
            at <= keys.len(),
            all == keys.deep_view(),
            wanted == name.deep_view(),
            forall|j: int| 0 <= j < at ==> !key_matches(#[trigger] all[j], id@, wanted),
        decreases keys.len() - at,
    {
        let key = &keys[at];
        assert(all[at as int] == (key.0@, key.1@));
        let by_id = equal_text(key.0.as_str(), id);
        let by_name = match name {
            Some(n) => equal_text(key.1.as_str(), n.as_str()),
            None => false,
        };
        if by_id || by_name {
            proof {
                lemma_first_key(all, id@, wanted);
            }
            return Some(at);
        }
        at = at + 1;
    }
    proof {
        lemma_first_key(all, id@, wanted);
    }
    None
}

/// A name in lower case, where there is a name.
pub open spec fn lowered(name: Option<Seq<char>>) -> Option<Seq<char>> {
    match name {
        Some(n) => Some(lowercase(n)),
        None => None,
    }
}

/// The key of a roster entry: its id and its name in lower case.
pub open spec fn key_of(team: TeamView) -> (Seq<char>, Seq<char>) {
    (lowercase(team.id), lowercase(team.name))
}

/// The keys of a roster, entry by entry.
pub open spec fn keys_of(roster: Seq<TeamView>) -> Seq<(Seq<char>, Seq<char>)> {
    Seq::new(roster.len(), |i: int| key_of(roster[i]))
}

/// Whether a roster entry answers to a candidate: its id is the candidate's
/// id, or its name is the candidate's name, case set aside.
pub open spec fn team_matches(team: TeamView, id: Seq<char>, name: Option<Seq<char>>) -> bool {
    key_matches(key_of(team), lowercase(id), lowered(name))
}

/// The place of the first roster entry that answers to a candidate.
pub open spec fn first_match(roster: Seq<TeamView>, id: Seq<char>, name: Option<Seq<char>>)
    -> Option<int> {
    first_key(keys_of(roster), lowercase(id), lowered(name))
}

/// The roster entry that a candidate resolves to: the first that answers to
/// it, if any does.
pub open spec fn resolve(id: Seq<char>, name: Option<Seq<char>>, roster: Seq<TeamView>)
    -> Option<TeamView> {
    match first_match(roster, id, name) {
        Some(at) => Some(roster[at]),
        None => None,
    }
}

/// `first_match` gives the least place whose entry answers, and none exactly
/// when no entry answers.
pub proof fn lemma_first_match(roster: Seq<TeamView>, id: Seq<char>, name: Option<Seq<char>>)
    ensures
        match first_match(roster, id, name) {
            Some(at) => {
                &&& 0 <= at < roster.len()
                &&& team_matches(roster[at], id, name)
                &&& forall|j: int| 0 <= j < at ==> !team_matches(#[trigger] roster[j], id, name)
            },
            None => forall|j: int|
                0 <= j < roster.len() ==> !team_matches(#[trigger] roster[j], id, name),
        },
{
    let keys = keys_of(roster);
    lemma_first_key(keys, lowercase(id), lowered(name));
    match first_match(roster, id, name) {
        Some(at) => {
            assert forall|j: int| 0 <= j < at implies !team_matches(
                #[trigger] roster[j],
                id,
                name,
            ) by {
                assert(keys[j] == key_of(roster[j]));
            }
        },
        None => {
            assert forall|j: int| 0 <= j < roster.len() implies !team_matches(
                #[trigger] roster[j],
                id,
                name,
            ) by {
                assert(keys[j] == key_of(roster[j]));
            }
        },
    }
}

/// A place whose entry answers, with none answering before it, is the first
/// match.
pub proof fn lemma_first_match_is(
    roster: Seq<TeamView>,
    id: Seq<char>,
    name: Option<Seq<char>>,
    at: int,
)
    requires
        0 <= at < roster.len(),
        team_matches(roster[at], id, name),
        forall|j: int| 0 <= j < at ==> !team_matches(#[trigger] roster[j], id, name),
    ensures
        first_match(roster, id, name) == Some(at),
{
    lemma_first_match(roster, id, name);
}

/// The keys of a roster: the id and the name of each entry in lower case.
pub fn roster_keys(teams: &Vec<Team>) -> (keys: Vec<Key>)
    ensures
        keys.deep_view() == keys_of(teams.deep_view()),
{
    let mut keys: Vec<Key> = Vec::new();
    let mut at: usize = 0;
    while at < teams.len()
        invariant
            at <= teams.len(),
            keys.deep_view() == keys_of(teams.deep_view().take(at as int)),
        decreases teams.len() - at,
    {
        let ghost before = keys.deep_view();
        let team = &teams[at];
        keys.push((to_lowercase(team.id.as_str()), to_lowercase(team.name.as_str())));
        assert(keys.deep_view() =~= before.push(key_of(team@)));
        assert(keys.deep_view() =~= keys_of(teams.deep_view().take(at + 1)));
        at = at + 1;
    }
    assert(teams.deep_view().take(at as int) == teams.deep_view());
    keys
}

/// Finds the team that a bracket names in the roster: the first entry whose
/// id or name is the candidate's, case set aside.
pub fn find_team(id: &str, name: &Option<String>, teams: &Vec<Team>) -> (found: Option<Team>)
    ensures
        found.deep_view() == resolve(id@, name.deep_view(), teams.deep_view()),
{
    let keys = roster_keys(teams);
    let wanted_id = to_lowercase(id);
    let wanted_name = match name {
        Some(n) => Some(to_lowercase(n.as_str())),
        None => None,
    };
    assert(wanted_name.deep_view() == lowered(name.deep_view()));
    proof {
        lemma_first_match(teams.deep_view(), id@, name.deep_view());
    }
    match first_answering(&keys, wanted_id.as_str(), &wanted_name) {
        Some(at) => Some(teams[at].clone()),
        None => None,
    }
}

/// A roster entry, looked up by its own id and name, is always found, and
/// what is found stands no later in the roster than the entry itself.
pub proof fn lemma_resolve_listed(roster: Seq<TeamView>, at: int)
    requires
        0 <= at < roster.len(),
    ensures
        first_match(roster, roster[at].id, Some(roster[at].name)) matches Some(found) && found
            <= at,
        resolve(roster[at].id, Some(roster[at].name), roster) is Some,
{
    lemma_first_match(roster, roster[at].id, Some(roster[at].name));
    assert(team_matches(roster[at], roster[at].id, Some(roster[at].name)));
}

/// Whether the entry at `other` answers to the id and name of the entry at
/// `at`.
pub open spec fn answers_for(roster: Seq<TeamView>, other: int, at: int) -> bool {
    team_matches(roster[other], roster[at].id, Some(roster[at].name))
}

/// Self-match: a roster entry, looked up by its own id and name, resolves to
/// a team of its own identity. Left out are the rosters in which an entry of
/// another identity answers to that id or name before any entry of its own
/// identity does: there the other entry is found.
pub proof fn lemma_resolve_self(roster: Seq<TeamView>, at: int)
    requires
        0 <= at < roster.len(),
        forall|j: int|
            0 <= j < at && #[trigger] answers_for(roster, j, at) && roster[j].id != roster[at].id
                ==> exists|k: int|
                0 <= k < j && #[trigger] answers_for(roster, k, at) && roster[k].id
                    == roster[at].id,
    ensures
        resolve(roster[at].id, Some(roster[at].name), roster) matches Some(found) && found.id
            == roster[at].id,
{
    lemma_resolve_listed(roster, at);
    lemma_first_match(roster, roster[at].id, Some(roster[at].name));
    let first = first_match(roster, roster[at].id, Some(roster[at].name))->0;
    if first < at && roster[first].id != roster[at].id {
        assert(answers_for(roster, first, at));
        let k = choose|k: int|
            0 <= k < first && #[trigger] answers_for(roster, k, at) && roster[k].id
                == roster[at].id;
        assert(team_matches(roster[k], roster[at].id, Some(roster[at].name)));
    }
}

/// Self-match, exactly: where no earlier entry answers to an entry's id or
/// name, the entry resolves to itself.
pub proof fn lemma_resolve_self_exact(roster: Seq<TeamView>, at: int)
    requires
        0 <= at < roster.len(),
        forall|j: int|
            0 <= j < at ==> !team_matches(
                #[trigger] roster[j],
                roster[at].id,
                Some(roster[at].name),
            ),
    ensures
        resolve(roster[at].id, Some(roster[at].name), roster) == Some(roster[at]),
{
    assert(team_matches(roster[at], roster[at].id, Some(roster[at].name)));
    lemma_first_match_is(roster, roster[at].id, Some(roster[at].name), at);
}

/// Whether two candidates differ by case alone.
pub open spec fn same_candidate(
    id_a: Seq<char>,
    name_a: Option<Seq<char>>,
    id_b: Seq<char>,
    name_b: Option<Seq<char>>,
) -> bool {
    &&& lowercase(id_a) == lowercase(id_b)
    &&& match (name_a, name_b) {
        (Some(a), Some(b)) => lowercase(a) == lowercase(b),
        (None, None) => true,
        _ => false,
    }
}

/// Resolution ignores the case of the candidate's id and name: two
/// candidates that differ by case alone resolve alike.
pub proof fn lemma_resolve_ignores_case(
    id_a: Seq<char>,
    name_a: Option<Seq<char>>,
    id_b: Seq<char>,
    name_b: Option<Seq<char>>,
    roster: Seq<TeamView>,
)
    requires
        same_candidate(id_a, name_a, id_b, name_b),
    ensures
        resolve(id_a, name_a, roster) == resolve(id_b, name_b, roster),
{
    assert(lowered(name_a) == lowered(name_b));
}

/// Resolution ignores the case of the ids and names in the roster: in two
/// rosters whose entries differ by case alone, a candidate is found at the
/// same place.
pub proof fn lemma_resolve_ignores_roster_case(
    a: Seq<TeamView>,
    b: Seq<TeamView>,
    id: Seq<char>,
    name: Option<Seq<char>>,
)
    requires
        a.len() == b.len(),
        forall|i: int| 0 <= i < a.len() ==> key_of(#[trigger] a[i]) == key_of(b[i]),
    ensures
        first_match(a, id, name) == first_match(b, id, name),
{
    assert(keys_of(a) =~= keys_of(b));
}

} // verus!
