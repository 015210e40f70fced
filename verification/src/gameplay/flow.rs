//! Attempt limits and timeouts: when a player or a team is out of the round.
use vstd::prelude::*;
use crate::gameplay::marks::{
    ATTEMPT_TIMEOUT, timeout_text, RESULT_DEAD, dead_text, lemma_mark_texts, player_attempt_count, player_has_result,
    set_player_result, set_team_result, team_attempt_count, team_has_result,
};
use crate::gameplay::rules::{
    active_team_member, find_player, find_player_index, in_team_mode, sits_out, sits_out_round,
    team_mode,
};
use crate::keyed::marks_of;
use crate::settings::{max_attempts_of, sync_on, settings_max_attempts, settings_sync};
use crate::state::{GameModel, PlayerModel, Player, CurrentGame, Room, RoomModel, players_view};

verus! {

pub struct TimeoutResult {
    pub needs_sync_update: bool,
    pub affected_player_ids: Vec<String>,
}

pub struct EnforceResult {
    pub exhausted: bool,
}

/// `q` with round result `res`.
pub open spec fn with_result(q: PlayerModel, res: Seq<char>) -> PlayerModel {
    PlayerModel { round_result: Some(res), ..q }
}

/// Every active member of team `t` marked dead.
pub open spec fn team_dead(ps: Seq<PlayerModel>, t: Seq<char>) -> Seq<PlayerModel> {
    ps.map_values(|q: PlayerModel| if active_team_member(q, t) { with_result(q, dead_text()) } else { q })
}

/// Ids of the active members of team `t`.
pub open spec fn member_ids(ps: Seq<PlayerModel>, t: Seq<char>) -> Set<Seq<char>> {
    Set::new(|id: Seq<char>| exists|i: int| 0 <= i < ps.len() && active_team_member(ps[i], t) && ps[i].id == id)
}

/// Attempts used by player `p` in game `g`: the team's marks in team mode, the player's otherwise.
pub open spec fn attempts_used(g: GameModel, p: PlayerModel) -> int {
    if in_team_mode(p) {
        marks_of(g.team_attempt_marks, p.team->0).len() as int
    } else {
        p.attempt_marks.len() as int
    }
}

/// Whether `p` (or `p`'s team) already has a round result.
pub open spec fn already_ended(g: GameModel, p: PlayerModel) -> bool {
    if in_team_mode(p) {
        g.team_round_results.dom().contains(p.team->0)
    } else {
        p.round_result is Some
    }
}

/// The room after the attempt-limit check for player `pid`, and whether the player is out of
/// attempts. A player over the limit whose round is still open, and whose last guess was not
/// correct, is marked dead (the whole team in team mode); in synchronised rounds the dead
/// players also count as done for this round.
pub open spec fn enforce_outcome(r: RoomModel, pid: Seq<char>, is_correct: bool) -> (RoomModel, bool) {
    match r.current_game {
        None => (r, false),
        Some(g) => match find_player(r.players, pid) {
            None => (r, false),
            Some(i) => {
                let p = r.players[i];
                if sits_out(p) {
                    (r, false)
                } else if attempts_used(g, p) < max_attempts_of(g.settings) {
                    (r, false)
                } else if already_ended(g, p) || is_correct {
                    (r, true)
                } else if in_team_mode(p) {
                    let t = p.team->0;
                    let g2 = GameModel {
                        team_round_results: g.team_round_results.insert(t, dead_text()),
                        sync_players_completed: if sync_on(g.settings) {
                            g.sync_players_completed.union(member_ids(r.players, t))
                        } else {
                            g.sync_players_completed
                        },
                        ..g
                    };
                    (RoomModel { players: team_dead(r.players, t), current_game: Some(g2), ..r }, true)
                } else {
                    let g2 = GameModel {
                        sync_players_completed: if sync_on(g.settings) {
                            g.sync_players_completed.insert(p.id)
                        } else {
                            g.sync_players_completed
                        },
                        ..g
                    };
                    (
                        RoomModel {
                            players: r.players.update(i, with_result(p, dead_text())),
                            current_game: Some(g2),
                            ..r
                        },
                        true,
                    )
                }
            },
        },
    }
}

/// Marks every active member of team `t` dead; with `sync`, their ids join the round's done set.
fn kill_team(players: &mut Vec<Player>, game: &mut CurrentGame, t: &str, sync: bool)
    requires
        old(game).wf(),
    ensures
        final(game).wf(),
        players_view(final(players)@) == team_dead(players_view(old(players)@), t@),
        final(game)@ == (GameModel {
            sync_players_completed: if sync {
                old(game)@.sync_players_completed.union(member_ids(players_view(old(players)@), t@))
            } else {
                old(game)@.sync_players_completed
            },
            ..old(game)@
        }),
{
    let ghost ps0 = players_view(players@);
    let ghost g0 = game@;
    let mut i: usize = 0;
    assert(g0.sync_players_completed.union(member_ids(ps0.take(0), t@)) =~= g0.sync_players_completed);
    while i < players.len()
        invariant
            0 <= i <= players@.len(),
            players@.len() == ps0.len(),
            game.wf(),
            forall|j: int| 0 <= j < i ==> #[trigger] players@[j]@ == team_dead(ps0, t@)[j],
            forall|j: int| i <= j < ps0.len() ==> #[trigger] players@[j]@ == ps0[j],
            game@ == (GameModel {
                sync_players_completed: if sync {
                    g0.sync_players_completed.union(member_ids(ps0.take(i as int), t@))
                } else {
                    g0.sync_players_completed
                },
                ..g0
            }),
        decreases players@.len() - i,
    {
        let ghost before = players@;
        assert(before[i as int]@ == ps0[i as int]);
        if crate::gameplay::rules::is_active_team_member(&players[i], t) {
            proof { lemma_mark_texts(); }
            let q = &mut players[i];
            q.round_result = Some(RESULT_DEAD.to_string());
            assert(players@ == before.update(i as int, players@[i as int]));
            assert(players@[i as int]@ == with_result(ps0[i as int], dead_text()));
            if sync {
                let id = players[i].id.clone();
                game.sync_players_completed.insert(id);
            }
        }
        assert forall|j: int| 0 <= j < players@.len() && j != i implies #[trigger] players@[j] == before[j] by {}
        assert(players@[i as int]@ == team_dead(ps0, t@)[i as int]);
        assert(member_ids(ps0.take(i + 1), t@) =~= if active_team_member(ps0[i as int], t@) {
            member_ids(ps0.take(i as int), t@).insert(ps0[i as int].id)
        } else {
            member_ids(ps0.take(i as int), t@)
        }) by {
            assert forall|id: Seq<char>| #[trigger] member_ids(ps0.take(i + 1), t@).contains(id) implies (
                if active_team_member(ps0[i as int], t@) {
                    member_ids(ps0.take(i as int), t@).insert(ps0[i as int].id)
                } else {
                    member_ids(ps0.take(i as int), t@)
                }).contains(id) by {
                let k = choose|k: int| 0 <= k < ps0.take(i + 1).len() && active_team_member(#[trigger] ps0.take(i + 1)[k], t@) && ps0.take(i + 1)[k].id == id;
                if k < i {
                    assert(ps0.take(i as int)[k] == ps0[k]);
                }
            }
            assert forall|id: Seq<char>| #[trigger] member_ids(ps0.take(i as int), t@).contains(id) implies member_ids(ps0.take(i + 1), t@).contains(id) by {
                let k = choose|k: int| 0 <= k < ps0.take(i as int).len() && active_team_member(#[trigger] ps0.take(i as int)[k], t@) && ps0.take(i as int)[k].id == id;
                assert(ps0.take(i + 1)[k] == ps0[k]);
            }
            if active_team_member(ps0[i as int], t@) {
                assert(ps0.take(i + 1)[i as int] == ps0[i as int]);
            }
        }
        proof {
            if sync {
                assert(game@.sync_players_completed =~= g0.sync_players_completed.union(member_ids(ps0.take(i + 1), t@)));
            }
        }
        i = i + 1;
    }
    assert(players_view(players@) =~= team_dead(ps0, t@));
    assert(ps0.take(ps0.len() as int) =~= ps0);
}

#[verifier::rlimit(60)]
pub fn enforce_attempt_limit(room: &mut Room, player_id: &str, is_correct: bool) -> (r: EnforceResult)
    requires
        old(room).wf(),
    ensures
        final(room).wf(),
        (final(room)@, r.exhausted) == enforce_outcome(old(room)@, player_id@, is_correct),
{
    let idx = match find_player_index(&room.players, player_id) {
        Some(i) => i,
        None => {
            return EnforceResult { exhausted: false };
        },
    };
    match &mut room.current_game {
        None => EnforceResult { exhausted: false },
        Some(game) => {
            let ghost i = idx as int;
            assert(players_view(room.players@)[i] == room.players@[i]@);
            if sits_out_round(&room.players[idx]) {
                return EnforceResult { exhausted: false };
            }
            let max_attempts = settings_max_attempts(&game.settings);
            let is_team_mode = team_mode(&room.players[idx]);
            let attempt_count = if is_team_mode {
                match &room.players[idx].team {
                    Some(t) => team_attempt_count(game, t.as_str()),
                    None => 0,
                }
            } else {
                player_attempt_count(&room.players[idx])
            };
            if attempt_count < max_attempts {
                return EnforceResult { exhausted: false };
            }
            let ended = if is_team_mode {
                match &room.players[idx].team {
                    Some(t) => team_has_result(game, t.as_str()),
                    None => false,
                }
            } else {
                player_has_result(&room.players[idx])
            };
            if ended {
                return EnforceResult { exhausted: true };
            }
            if is_correct {
                return EnforceResult { exhausted: true };
            }
            let sync_mode = settings_sync(&game.settings);
            proof { lemma_mark_texts(); }
            if is_team_mode {
                let t: String = match &room.players[idx].team {
                    Some(t) => t.clone(),
                    None => String::new(),
                };
                set_team_result(game, t.as_str(), RESULT_DEAD);
                kill_team(&mut room.players, game, t.as_str(), sync_mode);
            } else {
                let ghost before = players_view(room.players@);
                set_player_result(&mut room.players[idx], RESULT_DEAD);
                assert(players_view(room.players@) =~= before.update(i, with_result(before[i], dead_text())));
                if sync_mode {
                    let id = room.players[idx].id.clone();
                    game.sync_players_completed.insert(id);
                }
            }
            EnforceResult { exhausted: true }
        },
    }
}

/// Ids of the active members of team `t`, in player order.
pub open spec fn member_id_list(ps: Seq<PlayerModel>, t: Seq<char>) -> Seq<Seq<char>>
    decreases ps.len(),
{
    if ps.len() == 0 {
        Seq::empty()
    } else {
        let prev = member_id_list(ps.drop_last(), t);
        if active_team_member(ps.last(), t) { prev.push(ps.last().id) } else { prev }
    }
}

/// Every active member of team `t` given the team's marks.
pub open spec fn share_team_marks(ps: Seq<PlayerModel>, t: Seq<char>, marks: Seq<Seq<char>>) -> Seq<PlayerModel> {
    ps.map_values(|q: PlayerModel| if active_team_member(q, t) { PlayerModel { attempt_marks: marks, ..q } } else { q })
}

/// The room after a timeout mark for player `pid` (found at `i`, in game `g`), and the ids of
/// the players whose marks changed.
pub open spec fn timeout_marked(r: RoomModel, g: GameModel, i: int, pid: Seq<char>) -> (RoomModel, Seq<Seq<char>>) {
    let p = r.players[i];
    if in_team_mode(p) {
        let t = p.team->0;
        let marks = marks_of(g.team_attempt_marks, t).push(timeout_text());
        let g1 = GameModel { team_attempt_marks: g.team_attempt_marks.insert(t, marks), ..g };
        (
            RoomModel { players: share_team_marks(r.players, t, marks), current_game: Some(g1), ..r },
            member_id_list(r.players, t),
        )
    } else {
        (
            RoomModel {
                players: r.players.update(i, PlayerModel { attempt_marks: p.attempt_marks.push(timeout_text()), ..p }),
                ..r
            },
            seq![p.id],
        )
    }
}

/// The room after the synchronised-round bookkeeping of a timeout: `pid` is done for round `round`.
pub open spec fn timeout_synced(r: RoomModel, pid: Seq<char>, round: u32) -> RoomModel {
    RoomModel {
        players: match find_player(r.players, pid) {
            Some(k) => r.players.update(k, PlayerModel { sync_completed_round: Some(round), ..r.players[k] }),
            None => r.players,
        },
        current_game: match r.current_game {
            Some(g) => Some(GameModel { sync_players_completed: g.sync_players_completed.insert(pid), ..g }),
            None => None,
        },
        ..r
    }
}

/// The room after player `pid` ran out of time, whether a synchronised-round update is due, and
/// the ids of the players whose attempt marks changed. A timeout counts as one attempt (for the
/// whole team in team mode), then the attempt limit is applied; in synchronised rounds the
/// player is also done for the current round.
pub open spec fn timeout_outcome(r: RoomModel, pid: Seq<char>) -> (RoomModel, bool, Seq<Seq<char>>) {
    match r.current_game {
        None => (r, false, Seq::empty()),
        Some(g) => match find_player(r.players, pid) {
            None => (r, false, Seq::empty()),
            Some(i) => {
                let p = r.players[i];
                if sits_out(p) || already_ended(g, p) {
                    (r, false, Seq::empty())
                } else {
                    let marked = timeout_marked(r, g, i, pid);
                    let r2 = enforce_outcome(marked.0, pid, false).0;
                    if sync_on(g.settings) {
                        (timeout_synced(r2, pid, g.sync_round), true, marked.1)
                    } else {
                        (r2, false, marked.1)
                    }
                }
            },
        },
    }
}

/// Gives every active member of team `t` a copy of `marks`; returns their ids in order.
fn share_marks(players: &mut Vec<Player>, t: &str, marks: &Vec<String>) -> (ids: Vec<String>)
    ensures
        players_view(final(players)@) == share_team_marks(players_view(old(players)@), t@, crate::keyed::texts(marks@)),
        crate::keyed::texts(ids@) == member_id_list(players_view(old(players)@), t@),
{
    let ghost ps0 = players_view(players@);
    let ghost m = crate::keyed::texts(marks@);
    let mut ids: Vec<String> = Vec::new();
    let mut i: usize = 0;
    while i < players.len()
        invariant
            0 <= i <= players@.len(),
            players@.len() == ps0.len(),
            m == crate::keyed::texts(marks@),
            forall|j: int| 0 <= j < i ==> #[trigger] players@[j]@ == share_team_marks(ps0, t@, m)[j],
            forall|j: int| i <= j < ps0.len() ==> #[trigger] players@[j]@ == ps0[j],
            crate::keyed::texts(ids@) == member_id_list(ps0.take(i as int), t@),
        decreases players@.len() - i,
    {
        let ghost before = players@;
        let ghost ids_before = ids@;
        assert(ps0.take(i + 1).drop_last() =~= ps0.take(i as int));
        assert(ps0.take(i + 1).last() == ps0[i as int]);
        if crate::gameplay::rules::is_active_team_member(&players[i], t) {
            let copy = crate::keyed::clone_texts(marks);
            let q = &mut players[i];
            q.attempt_marks = copy;
            assert(players@ == before.update(i as int, players@[i as int]));
            ids.push(players[i].id.clone());
            assert(crate::keyed::texts(ids@) =~= crate::keyed::texts(ids_before).push(ps0[i as int].id));
        }
        assert forall|j: int| 0 <= j < players@.len() && j != i implies #[trigger] players@[j] == before[j] by {}
        assert(players@[i as int]@ == share_team_marks(ps0, t@, m)[i as int]);
        i = i + 1;
    }
    assert(players_view(players@) =~= share_team_marks(ps0, t@, m));
    assert(ps0.take(ps0.len() as int) =~= ps0);
    ids
}

#[verifier::rlimit(60)]
pub fn handle_player_timeout(room: &mut Room, player_id: &str) -> (r: TimeoutResult)
    requires
        old(room).wf(),
    ensures
        final(room).wf(),
        (final(room)@, r.needs_sync_update, crate::keyed::texts(r.affected_player_ids@))
            == timeout_outcome(old(room)@, player_id@),
{
    let ghost r0 = room@;
    let idx = match find_player_index(&room.players, player_id) {
        Some(i) => i,
        None => {
            let r = TimeoutResult { needs_sync_update: false, affected_player_ids: Vec::new() };
            assert(crate::keyed::texts(r.affected_player_ids@) =~= Seq::<Seq<char>>::empty());
            return r;
        },
    };
    let ghost i = idx as int;
    assert(players_view(room.players@)[i] == room.players@[i]@);
    let sync_mode;
    let sync_round;
    let affected;
    match &mut room.current_game {
        None => {
            let r = TimeoutResult { needs_sync_update: false, affected_player_ids: Vec::new() };
            assert(crate::keyed::texts(r.affected_player_ids@) =~= Seq::<Seq<char>>::empty());
            return r;
        },
        Some(game) => {
            let is_team_mode = team_mode(&room.players[idx]);
            let has_ended = if is_team_mode {
                match &room.players[idx].team {
                    Some(t) => team_has_result(game, t.as_str()),
                    None => false,
                }
            } else {
                player_has_result(&room.players[idx])
            };
            if sits_out_round(&room.players[idx]) || has_ended {
                let r = TimeoutResult { needs_sync_update: false, affected_player_ids: Vec::new() };
                assert(crate::keyed::texts(r.affected_player_ids@) =~= Seq::<Seq<char>>::empty());
                return r;
            }
            sync_mode = settings_sync(&game.settings);
            sync_round = game.sync_round;
            proof { lemma_mark_texts(); }
            if is_team_mode {
                let t: String = match &room.players[idx].team {
                    Some(t) => t.clone(),
                    None => String::new(),
                };
                crate::gameplay::marks::push_team_attempt(game, t.as_str(), ATTEMPT_TIMEOUT);
                let team_attempts = game.team_attempt_marks.marks_cloned(t.as_str());
                affected = share_marks(&mut room.players, t.as_str(), &team_attempts);
            } else {
                let ghost before = players_view(room.players@);
                crate::gameplay::marks::push_player_attempt(&mut room.players[idx], ATTEMPT_TIMEOUT);
                assert(players_view(room.players@) =~= before.update(i, PlayerModel {
                    attempt_marks: before[i].attempt_marks.push(timeout_text()),
                    ..before[i]
                }));
                let mut ids: Vec<String> = Vec::new();
                ids.push(room.players[idx].id.clone());
                assert(crate::keyed::texts(ids@) =~= seq![before[i].id]);
                affected = ids;
            }
        },
    }
    assert(room@ == timeout_marked(r0, r0.current_game->0, i, player_id@).0);
    let _enforce = enforce_attempt_limit(room, player_id, false);
    let mut needs_sync_update = false;
    if sync_mode {
        let ghost r2 = room@;
        if let Some(game) = &mut room.current_game {
            game.sync_players_completed.insert(player_id.to_string());
        }
        match find_player_index(&room.players, player_id) {
            Some(k) => {
                let ghost before = players_view(room.players@);
                let q = &mut room.players[k];
                q.sync_completed_round = Some(sync_round);
                assert(players_view(room.players@) =~= before.update(k as int, PlayerModel {
                    sync_completed_round: Some(sync_round),
                    ..before[k as int]
                }));
            },
            None => {},
        }
        assert(room@ == timeout_synced(r2, player_id@, sync_round));
        needs_sync_update = true;
    }
    TimeoutResult { needs_sync_update, affected_player_ids: affected }
}

/// Gives every active member of team `t` a copy of `marks`; returns their ids in order.
pub fn share_marks_pub(players: &mut Vec<Player>, t: &str, marks: &Vec<String>) -> (ids: Vec<String>)
    ensures
        players_view(final(players)@) == share_team_marks(players_view(old(players)@), t@, crate::keyed::texts(marks@)),
        crate::keyed::texts(ids@) == member_id_list(players_view(old(players)@), t@),
{
    share_marks(players, t, marks)
}

} // verus!
