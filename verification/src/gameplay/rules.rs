//! Who takes part in a round, and how players are looked up.
use vstd::prelude::*;
use crate::state::{Player, PlayerModel, players_view};
use crate::text::text_eq;

verus! {

/// The team id that marks spectators.
pub open spec fn spectator_team() -> Seq<char> {
    seq!['0']
}

/// Whether `team` is the spectators' team.
pub open spec fn is_spectator_team(team: Option<Seq<char>>) -> bool {
    team == Some(spectator_team())
}

/// Whether the player plays as a member of a real team.
pub open spec fn in_team_mode(p: PlayerModel) -> bool {
    p.team is Some && !is_spectator_team(p.team)
}

/// Whether the player only watches this round: answer setter, spectator or temporary observer.
pub open spec fn sits_out(p: PlayerModel) -> bool {
    p.is_answer_setter || is_spectator_team(p.team) || p.temp_observer
}

/// Whether `q` is a connected, guessing member of team `t`.
pub open spec fn active_team_member(q: PlayerModel, t: Seq<char>) -> bool {
    q.team == Some(t) && !q.is_answer_setter && !q.disconnected
}

/// Position of the first player with id `id`, if any.
pub open spec fn find_player(ps: Seq<PlayerModel>, id: Seq<char>) -> Option<int> {
    if exists|i: int| 0 <= i < ps.len() && ps[i].id == id {
        Some(choose|i: int| 0 <= i < ps.len() && ps[i].id == id && forall|j: int| 0 <= j < i ==> ps[j].id != id)
    } else {
        None
    }
}

/// `find_player` picks the first match.
pub proof fn lemma_find_player(ps: Seq<PlayerModel>, id: Seq<char>, i: int)
    requires
        0 <= i < ps.len(),
        ps[i].id == id,
        forall|j: int| 0 <= j < i ==> ps[j].id != id,
    ensures
        find_player(ps, id) == Some(i),
{
    let k = choose|k: int| 0 <= k < ps.len() && ps[k].id == id && forall|j: int| 0 <= j < k ==> ps[j].id != id;
    assert(0 <= k < ps.len() && ps[k].id == id && forall|j: int| 0 <= j < k ==> ps[j].id != id);
    if k < i {
        assert(ps[k].id != id);
    }
    if i < k {
        assert(ps[i].id != id);
    }
}

proof fn lemma_first_match_exists(ps: Seq<PlayerModel>, id: Seq<char>, i: int)
    requires
        0 <= i < ps.len(),
        ps[i].id == id,
    ensures
        exists|k: int| 0 <= k < ps.len() && ps[k].id == id && forall|j: int| 0 <= j < k ==> ps[j].id != id,
    decreases i,
{
    if exists|j: int| 0 <= j < i && ps[j].id == id {
        let j = choose|j: int| 0 <= j < i && ps[j].id == id;
        lemma_first_match_exists(ps, id, j);
    } else {
        assert(forall|j: int| 0 <= j < i ==> ps[j].id != id);
    }
}

/// What `find_player` gives: the first match, or no match at all.
pub proof fn lemma_find_player_result(ps: Seq<PlayerModel>, id: Seq<char>)
    ensures
        match find_player(ps, id) {
            Some(k) => 0 <= k < ps.len() && ps[k].id == id && forall|j: int| 0 <= j < k ==> ps[j].id != id,
            None => forall|j: int| 0 <= j < ps.len() ==> ps[j].id != id,
        },
{
    if exists|i: int| 0 <= i < ps.len() && ps[i].id == id {
        let i = choose|i: int| 0 <= i < ps.len() && ps[i].id == id;
        lemma_first_match_exists(ps, id, i);
    }
}

pub fn find_player_index(players: &Vec<Player>, id: &str) -> (r: Option<usize>)
    ensures
        match r {
            Some(i) => find_player(players_view(players@), id@) == Some(i as int) && i < players@.len(),
            None => find_player(players_view(players@), id@) is None,
        },
{
    let ghost ps = players_view(players@);
    let mut i: usize = 0;
    while i < players.len()
        invariant
            i <= players@.len(),
            ps == players_view(players@),
            forall|j: int| 0 <= j < i ==> ps[j].id != id@,
        decreases players@.len() - i,
    {
        if text_eq(players[i].id.as_str(), id) {
            proof { lemma_find_player(ps, id@, i as int); }
            return Some(i);
        }
        i = i + 1;
    }
    None
}

pub fn is_spectator(team: &Option<String>) -> (r: bool)
    ensures
        r == is_spectator_team(crate::settings::opt_text(*team)),
{
    match team {
        Some(t) => {
            let zero = "0";
            proof {
                reveal_strlit("0");
                assert(zero@ =~= spectator_team());
            }
            text_eq(t.as_str(), zero)
        },
        None => false,
    }
}

pub fn team_mode(p: &Player) -> (r: bool)
    ensures
        r == in_team_mode(p@),
{
    p.team.is_some() && !is_spectator(&p.team)
}

pub fn sits_out_round(p: &Player) -> (r: bool)
    ensures
        r == sits_out(p@),
{
    p.is_answer_setter || is_spectator(&p.team) || p.temp_observer
}

/// Whether `q` is in team `t` (by text).
pub fn in_team(q: &Player, t: &str) -> (r: bool)
    ensures
        r == (q@.team == Some(t@)),
{
    match &q.team {
        Some(x) => text_eq(x.as_str(), t),
        None => false,
    }
}

pub fn is_active_team_member(q: &Player, t: &str) -> (r: bool)
    ensures
        r == active_team_member(q@, t@),
{
    in_team(q, t) && !q.is_answer_setter && !q.disconnected
}

/// `a + b` with two's-complement wrap-around, as `i32::wrapping_add` computes it.
pub open spec fn score_plus(a: i32, b: i32) -> i32 {
    if a + b > i32::MAX {
        (a + b - 0x1_0000_0000) as i32
    } else if a + b < i32::MIN {
        (a + b + 0x1_0000_0000) as i32
    } else {
        (a + b) as i32
    }
}

pub fn add_score(a: i32, b: i32) -> (r: i32)
    ensures
        r == score_plus(a, b),
{
    a.wrapping_add(b)
}

} // verus!
