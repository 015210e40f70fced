//! Leaving a running round to watch it: the player's round (or the team's) ends first.
use vstd::prelude::*;
use crate::gameplay::flow::{attempts_used, with_result};
use crate::gameplay::marks::{
    dead_text, lemma_mark_texts, player_attempt_count, player_has_result, set_player_result,
    set_team_result, surrender_text, team_attempt_count, RESULT_DEAD, RESULT_SURRENDER,
};
use crate::gameplay::rules::{active_team_member, find_player, find_player_index, in_team_mode, team_mode};
use crate::settings::{max_attempts_of, settings_max_attempts};
use crate::state::{GameModel, Player, PlayerModel, Room, RoomModel, players_view};

verus! {

/// Every active member of team `t` given round result `res`.
pub open spec fn team_marked(ps: Seq<PlayerModel>, t: Seq<char>, res: Seq<char>) -> Seq<PlayerModel> {
    ps.map_values(|q: PlayerModel| if active_team_member(q, t) { with_result(q, res) } else { q })
}

/// The result given to a player who stops watching: dead when the attempts are used up,
/// surrender otherwise.
pub open spec fn leaving_result(g: GameModel, p: PlayerModel) -> Seq<char> {
    if attempts_used(g, p) >= max_attempts_of(g.settings) { dead_text() } else { surrender_text() }
}

/// The room after player `pid` asked to watch the rest of the round at time `now`, and whether
/// that was accepted. The room counts as active at `now` in every case. The request is refused
/// for a player not in the room and when no game runs. A player without a round result gets
/// `leaving_result` (in team mode: the team and every active member); then the player is a
/// temporary observer.
pub open spec fn observer_outcome(r: RoomModel, pid: Seq<char>, now: i64) -> (RoomModel, Result<(), Seq<char>>) {
    let r1 = RoomModel { last_active: now, ..r };
    match find_player(r.players, pid) {
        None => (r1, Err("连接中断了"@)),
        Some(i) => match r.current_game {
            None => (r1, Err("游戏未开始或已结束"@)),
            Some(g) => {
                let p = r.players[i];
                let res = leaving_result(g, p);
                let (ps, g2) = if p.round_result is Some {
                    (r.players, g)
                } else if in_team_mode(p) {
                    (
                        team_marked(r.players, p.team->0, res),
                        GameModel { team_round_results: g.team_round_results.insert(p.team->0, res), ..g },
                    )
                } else {
                    (r.players.update(i, with_result(p, res)), g)
                };
                (
                    RoomModel {
                        players: ps.update(i, PlayerModel { temp_observer: true, ..ps[i] }),
                        current_game: Some(g2),
                        ..r1
                    },
                    Ok(()),
                )
            },
        },
    }
}

/// Gives every active member of team `t` the round result `res`.
fn mark_team(players: &mut Vec<Player>, t: &str, res: &str)
    ensures
        players_view(final(players)@) == team_marked(players_view(old(players)@), t@, res@),
{
    let ghost ps0 = players_view(players@);
    let mut i: usize = 0;
    while i < players.len()
        invariant
            0 <= i <= players@.len(),
            players@.len() == ps0.len(),
            forall|j: int| 0 <= j < i ==> #[trigger] players@[j]@ == team_marked(ps0, t@, res@)[j],
            forall|j: int| i <= j < ps0.len() ==> #[trigger] players@[j]@ == ps0[j],
        decreases players@.len() - i,
    {
        let ghost before = players@;
        assert(before[i as int]@ == ps0[i as int]);
        if crate::gameplay::rules::is_active_team_member(&players[i], t) {
            set_player_result(&mut players[i], res);
        }
        assert forall|j: int| 0 <= j < players@.len() && j != i implies #[trigger] players@[j] == before[j] by {}
        assert(players@[i as int]@ == team_marked(ps0, t@, res@)[i as int]);
        i = i + 1;
    }
    assert(players_view(players@) =~= team_marked(ps0, t@, res@));
}

/// The player on socket `actor` stops guessing and watches the rest of the round.
#[verifier::rlimit(40)]
pub fn enter_observer_mode(room: &mut Room, actor: &str, now: i64) -> (r: Result<(), &'static str>)
    requires
        old(room).wf(),
    ensures
        final(room).wf(),
        final(room)@ == observer_outcome(old(room)@, actor@, now).0,
        match observer_outcome(old(room)@, actor@, now).1 {
            Ok(_) => r is Ok,
            Err(m) => r matches Err(e) && e@ == m,
        },
{
    room.last_active = now;
    let idx = match find_player_index(&room.players, actor) {
        Some(i) => i,
        None => return Err("连接中断了"),
    };
    let ghost i = idx as int;
    let ghost ps0 = players_view(room.players@);
    assert(ps0[i] == room.players@[i]@);
    match &mut room.current_game {
        None => Err("游戏未开始或已结束"),
        Some(game) => {
            let ghost g0 = game@;
            let max_attempts = settings_max_attempts(&game.settings);
            let is_team_mode = team_mode(&room.players[idx]);
            let attempt_count = if is_team_mode {
                match &room.players[idx].team {
                    Some(t) => team_attempt_count(game, t.as_str()),
                    None => 0,
                }
            } else {
                player_attempt_count(&room.players[idx])
            };
            proof { lemma_mark_texts(); }
            let end_result = if attempt_count >= max_attempts { RESULT_DEAD } else { RESULT_SURRENDER };
            assert(end_result@ == leaving_result(g0, ps0[i]));
            if !player_has_result(&room.players[idx]) {
                if is_team_mode {
                    let t: String = match &room.players[idx].team {
                        Some(t) => t.clone(),
                        None => String::new(),
                    };
                    set_team_result(game, t.as_str(), end_result);
                    mark_team(&mut room.players, t.as_str(), end_result);
                } else {
                    let ghost before = players_view(room.players@);
                    set_player_result(&mut room.players[idx], end_result);
                    assert(players_view(room.players@) =~= before.update(i, with_result(before[i], end_result@)));
                }
            }
            let ghost mid = players_view(room.players@);
            assert(mid.len() == ps0.len());
            assert(i < room.players@.len());
            assert(room.players@[i]@ == mid[i]);
            room.players[idx].temp_observer = true;
            assert(players_view(room.players@) =~= mid.update(i, PlayerModel { temp_observer: true, ..mid[i] }));
            Ok(())
        },
    }
}

} // verus!
