//! Recording a player's guess in the running round.
use vstd::prelude::*;
use crate::gameplay::flow::{enforce_attempt_limit, enforce_outcome, share_team_marks};
use crate::gameplay::marks::{
    ATTEMPT_CORRECT, ATTEMPT_PARTIAL, ATTEMPT_WRONG, correct_text, lemma_mark_texts,
    partial_text, wrong_text,
};
use crate::gameplay::rules::{
    find_player, find_player_index, in_team_mode, is_spectator, is_spectator_team, team_mode,
};
use crate::keyed::{marks_of, texts};
use crate::settings::{global_pick_on, nonstop_on, settings_global_pick, settings_nonstop, settings_sync, sync_on};
use crate::state::{
    CharacterModel, CharacterPayload, CurrentGame, GameModel, GuessEntry, GuessModel,
    HistoryModel, Player, PlayerGuessHistory, PlayerModel, Room, RoomModel, histories_view,
    players_view,
};
use crate::text::text_eq;

verus! {

/// A guess submitted by a player: the character the server loaded for it, and the feedback
/// flags computed against the answer.
pub struct GuessCommand {
    pub actor_id: String,
    pub character: CharacterPayload,
    pub is_correct: bool,
    pub is_partial_correct: bool,
}

pub struct GuessOutcome {
    pub player: Player,
    pub entry: GuessEntry,
    pub is_correct: bool,
    pub is_partial_correct: bool,
    pub sync_mode: bool,
}

#[derive(Clone, Copy, PartialEq, Eq, Structural)]
pub enum GuessReject {
    PlayerNotBound,
    GameNotRunning,
    Observer,
    AlreadyEnded,
    AttemptExhausted,
    GlobalPickDuplicate,
}

/// Position of the first guess history of player `name`, if any.
pub open spec fn find_history(hs: Seq<HistoryModel>, name: Seq<char>) -> Option<int> {
    if exists|i: int| 0 <= i < hs.len() && hs[i].username == name {
        Some(choose|i: int| 0 <= i < hs.len() && hs[i].username == name && forall|j: int| 0 <= j < i ==> hs[j].username != name)
    } else {
        None
    }
}

/// The histories with `entry` appended to the history of `name` (a new history if there is none).
pub open spec fn append_guess(hs: Seq<HistoryModel>, name: Seq<char>, entry: GuessModel) -> Seq<HistoryModel> {
    match find_history(hs, name) {
        Some(k) => hs.update(k, HistoryModel { guesses: hs[k].guesses.push(entry), ..hs[k] }),
        None => hs.push(HistoryModel { username: name, guesses: seq![entry] }),
    }
}

/// Whether some other player already guessed character `cid`.
pub open spec fn guessed_by_other(hs: Seq<HistoryModel>, name: Seq<char>, cid: i64) -> bool {
    exists|i: int, j: int|
        0 <= i < hs.len() && hs[i].username != name && 0 <= j < hs[i].guesses.len()
            && hs[i].guesses[j].guess_data.id == cid
}

/// The attempt mark a guess leaves.
pub open spec fn guess_mark(is_correct: bool, is_partial: bool) -> Seq<char> {
    if !is_correct && is_partial {
        partial_text()
    } else if is_correct {
        correct_text()
    } else {
        wrong_text()
    }
}

/// Ids of the connected, guessing teammates of `actor` in team `t`.
pub open spec fn teammate_ids(ps: Seq<PlayerModel>, t: Seq<char>, actor: Seq<char>) -> Set<Seq<char>> {
    Set::new(|id: Seq<char>| exists|i: int| 0 <= i < ps.len() && ps[i].team == Some(t) && ps[i].id != actor
        && !ps[i].is_answer_setter && !ps[i].disconnected && ps[i].id == id)
}

/// The room after guess `c` of `actor` was recorded, before the final attempt-limit check.
pub open spec fn guess_recorded(r: RoomModel, g: GameModel, i: int, actor: Seq<char>, c: CharacterModel, is_correct: bool, is_partial: bool) -> RoomModel {
    let p = r.players[i];
    let entry = GuessModel { player_id: actor, player_name: p.username, is_correct, is_partial_correct: is_partial, guess_data: c };
    let mark = guess_mark(is_correct, is_partial);
    let g1 = GameModel { guesses: append_guess(g.guesses, p.username, entry), ..g };
    let (players, g2) = if in_team_mode(p) {
        let t = p.team->0;
        let marks = marks_of(g1.team_attempt_marks, t).push(mark);
        (share_team_marks(r.players, t, marks), GameModel { team_attempt_marks: g1.team_attempt_marks.insert(t, marks), ..g1 })
    } else {
        (r.players.update(i, PlayerModel { attempt_marks: p.attempt_marks.push(mark), ..p }), g1)
    };
    let g3 = if sync_on(g.settings) && !is_correct {
        GameModel {
            sync_players_completed: if in_team_mode(p) {
                g2.sync_players_completed.insert(actor).union(teammate_ids(r.players, p.team->0, actor))
            } else {
                g2.sync_players_completed.insert(actor)
            },
            ..g2
        }
    } else {
        g2
    };
    RoomModel { players, current_game: Some(g3), ..r }
}

/// The room after `actor` guessed character `c` with the given feedback, and either the
/// rejection or the guessing player as it was before the guess.
pub open spec fn guess_outcome(r: RoomModel, actor: Seq<char>, c: CharacterModel, is_correct: bool, is_partial: bool) -> (RoomModel, Result<PlayerModel, GuessReject>) {
    match find_player(r.players, actor) {
        None => (r, Err(GuessReject::PlayerNotBound)),
        Some(i) => match r.current_game {
            None => (r, Err(GuessReject::GameNotRunning)),
            Some(g) => {
                let p = r.players[i];
                if is_spectator_team(p.team) || p.temp_observer {
                    (r, Err(GuessReject::Observer))
                } else if p.round_result is Some {
                    (r, Err(GuessReject::AlreadyEnded))
                } else if enforce_outcome(r, actor, false).1 {
                    (enforce_outcome(r, actor, false).0, Err(GuessReject::AttemptExhausted))
                } else if global_pick_on(g.settings) && !sync_on(g.settings) && guessed_by_other(g.guesses, p.username, c.id)
                    && (!nonstop_on(g.settings) || !is_correct) {
                    (r, Err(GuessReject::GlobalPickDuplicate))
                } else {
                    let r1 = guess_recorded(r, g, i, actor, c, is_correct, is_partial);
                    let r2 = if !nonstop_on(g.settings) { enforce_outcome(r1, actor, is_correct).0 } else { r1 };
                    (r2, Ok(p))
                }
            },
        },
    }
}

pub(crate) fn history_index(hs: &Vec<PlayerGuessHistory>, name: &str) -> (r: Option<usize>)
    ensures
        match r {
            Some(k) => k < hs@.len() && find_history(histories_view(hs@), name@) == Some(k as int),
            None => find_history(histories_view(hs@), name@) is None,
        },
{
    let ghost v = histories_view(hs@);
    let mut k: usize = 0;
    while k < hs.len()
        invariant
            k <= hs@.len(),
            v == histories_view(hs@),
            forall|j: int| 0 <= j < k ==> v[j].username != name@,
        decreases hs@.len() - k,
    {
        if text_eq(hs[k].username.as_str(), name) {
            let ghost w = choose|i: int| 0 <= i < v.len() && v[i].username == name@ && forall|j: int| 0 <= j < i ==> v[j].username != name@;
            assert(v[k as int].username == name@);
            proof {
                if w < k as int {
                    assert(v[w].username != name@);
                }
                if (k as int) < w {
                    assert(v[k as int].username != name@);
                }
            }
            return Some(k);
        }
        k = k + 1;
    }
    None
}

fn record_guess(game: &mut CurrentGame, name: &str, entry: GuessEntry)
    ensures
        final(game)@ == (GameModel { guesses: append_guess(old(game)@.guesses, name@, entry@), ..old(game)@ }),
        final(game).team_attempt_marks == old(game).team_attempt_marks,
        final(game).team_round_results == old(game).team_round_results,
        final(game).sync_players_completed == old(game).sync_players_completed,
{
    let ghost hv = histories_view(game.guesses@);
    match history_index(&game.guesses, name) {
        Some(k) => {
            let h = &mut game.guesses[k];
            h.guesses.push(entry);
            assert(game.guesses@[k as int]@.guesses =~= hv[k as int].guesses.push(entry@));
            assert(histories_view(game.guesses@) =~= hv.update(k as int, HistoryModel {
                guesses: hv[k as int].guesses.push(entry@),
                ..hv[k as int]
            }));
        },
        None => {
            let mut gs: Vec<GuessEntry> = Vec::new();
            gs.push(entry);
            game.guesses.push(PlayerGuessHistory { username: name.to_string(), guesses: gs });
            assert(game.guesses@.last()@.guesses =~= seq![entry@]);
            assert(histories_view(game.guesses@) =~= hv.push(HistoryModel { username: name@, guesses: seq![entry@] }));
        },
    }
}

fn guessed_elsewhere(hs: &Vec<PlayerGuessHistory>, name: &str, cid: i64) -> (r: bool)
    ensures
        r == guessed_by_other(histories_view(hs@), name@, cid),
{
    let ghost v = histories_view(hs@);
    let mut i: usize = 0;
    while i < hs.len()
        invariant
            i <= hs@.len(),
            v == histories_view(hs@),
            forall|a: int, b: int| 0 <= a < i && v[a].username != name@ && 0 <= b < v[a].guesses.len()
                ==> v[a].guesses[b].guess_data.id != cid,
        decreases hs@.len() - i,
    {
        if !text_eq(hs[i].username.as_str(), name) {
            let mut j: usize = 0;
            while j < hs[i].guesses.len()
                invariant
                    i < hs@.len(),
                    j <= hs@[i as int].guesses@.len(),
                    v == histories_view(hs@),
                    v[i as int].username != name@,
                    forall|b: int| 0 <= b < j ==> v[i as int].guesses[b].guess_data.id != cid,
                decreases hs@[i as int].guesses@.len() - j,
            {
                assert(v[i as int].guesses[j as int] == hs@[i as int].guesses@[j as int]@);
                if hs[i].guesses[j].guess_data.id == cid {
                    assert(v[i as int].guesses[j as int].guess_data.id == cid);
                    return true;
                }
                j = j + 1;
            }
        }
        i = i + 1;
    }
    false
}

/// Marks every connected, guessing teammate of `actor` in team `t` as done for the round.
fn complete_teammates(players: &Vec<Player>, game: &mut CurrentGame, t: &str, actor: &str)
    requires
        old(game).wf(),
    ensures
        final(game).wf(),
        final(game)@ == (GameModel {
            sync_players_completed: old(game)@.sync_players_completed.union(teammate_ids(players_view(players@), t@, actor@)),
            ..old(game)@
        }),
{
    let ghost ps = players_view(players@);
    let ghost g0 = game@;
    let mut i: usize = 0;
    assert(g0.sync_players_completed.union(teammate_ids(ps.take(0), t@, actor@)) =~= g0.sync_players_completed);
    while i < players.len()
        invariant
            i <= players@.len(),
            ps == players_view(players@),
            game.wf(),
            game@ == (GameModel {
                sync_players_completed: g0.sync_players_completed.union(teammate_ids(ps.take(i as int), t@, actor@)),
                ..g0
            }),
        decreases players@.len() - i,
    {
        let ghost before = game@.sync_players_completed;
        let q = &players[i];
        assert(ps[i as int] == q@);
        if crate::gameplay::rules::in_team(q, t) && !text_eq(q.id.as_str(), actor) && !q.is_answer_setter && !q.disconnected {
            game.sync_players_completed.insert(q.id.clone());
        }
        assert(teammate_ids(ps.take(i + 1), t@, actor@) =~= if ps[i as int].team == Some(t@) && ps[i as int].id != actor@
            && !ps[i as int].is_answer_setter && !ps[i as int].disconnected {
            teammate_ids(ps.take(i as int), t@, actor@).insert(ps[i as int].id)
        } else {
            teammate_ids(ps.take(i as int), t@, actor@)
        }) by {
            assert forall|id: Seq<char>| #[trigger] teammate_ids(ps.take(i + 1), t@, actor@).contains(id)
                implies teammate_ids(ps.take(i as int), t@, actor@).contains(id) || id == ps[i as int].id by {
                {
                    let k = choose|k: int| 0 <= k < ps.take(i + 1).len() && #[trigger] ps.take(i + 1)[k].team == Some(t@)
                        && ps.take(i + 1)[k].id != actor@ && !ps.take(i + 1)[k].is_answer_setter
                        && !ps.take(i + 1)[k].disconnected && ps.take(i + 1)[k].id == id;
                    if k < i {
                        assert(ps.take(i as int)[k] == ps[k]);
                    }
                }
            }
            assert forall|id: Seq<char>| #[trigger] teammate_ids(ps.take(i as int), t@, actor@).contains(id)
                implies teammate_ids(ps.take(i + 1), t@, actor@).contains(id) by {
                let k = choose|k: int| 0 <= k < ps.take(i as int).len() && #[trigger] ps.take(i as int)[k].team == Some(t@)
                    && ps.take(i as int)[k].id != actor@ && !ps.take(i as int)[k].is_answer_setter
                    && !ps.take(i as int)[k].disconnected && ps.take(i as int)[k].id == id;
                assert(ps.take(i + 1)[k] == ps[k]);
            }
            assert(ps.take(i + 1)[i as int] == ps[i as int]);
        }
        assert(game@.sync_players_completed =~= g0.sync_players_completed.union(teammate_ids(ps.take(i + 1), t@, actor@)));
        i = i + 1;
    }
    assert(ps.take(ps.len() as int) =~= ps);
}


/// Records `entry` (a guess of the player at `idx`) in the room: guess history, attempt marks,
/// and, in synchronised rounds after a wrong guess, the round's done set.
#[verifier::rlimit(60)]
fn record_in_room(room: &mut Room, idx: usize, actor_id: &str, entry: GuessEntry, sync_mode: bool)
    requires
        old(room).wf(),
        old(room).current_game is Some,
        idx < old(room).players@.len(),
        entry@.player_id == actor_id@,
        entry@.player_name == old(room).players@[idx as int]@.username,
        sync_mode == sync_on(old(room)@.current_game->0.settings),
    ensures
        final(room).wf(),
        final(room)@ == guess_recorded(old(room)@, old(room)@.current_game->0, idx as int, actor_id@,
            entry@.guess_data, entry@.is_correct, entry@.is_partial_correct),
{
    let ghost r0 = room@;
    let ghost i = idx as int;
    assert(players_view(room.players@)[i] == room.players@[i]@);
    let is_correct = entry.is_correct;
    let is_partial_correct = entry.is_partial_correct;
    let player = room.players[idx].duplicate();
    proof { lemma_mark_texts(); }
    let mark = if !is_correct && is_partial_correct {
        ATTEMPT_PARTIAL
    } else if is_correct {
        ATTEMPT_CORRECT
    } else {
        ATTEMPT_WRONG
    };
    assert(mark@ == guess_mark(is_correct, is_partial_correct));
    let is_team_mode = team_mode(&player);
    let team_id: String = match &player.team {
        Some(t) => t.clone(),
        None => String::new(),
    };
    match &mut room.current_game {
        Some(game) => {
            record_guess(game, player.username.as_str(), entry);
            if is_team_mode {
                crate::gameplay::marks::push_team_attempt(game, team_id.as_str(), mark);
                let team_attempts = game.team_attempt_marks.marks_cloned(team_id.as_str());
                let _ = crate::gameplay::flow::share_marks_pub(&mut room.players, team_id.as_str(), &team_attempts);
            } else {
                let ghost before = players_view(room.players@);
                crate::gameplay::marks::push_player_attempt(&mut room.players[idx], mark);
                assert(players_view(room.players@) =~= before.update(i, PlayerModel {
                    attempt_marks: before[i].attempt_marks.push(mark@),
                    ..before[i]
                }));
            }
            if sync_mode && !is_correct {
                game.sync_players_completed.insert(actor_id.to_string());
                if is_team_mode {
                    let ghost ps_now = players_view(room.players@);
                    assert(teammate_ids(ps_now, team_id@, actor_id@) =~= teammate_ids(r0.players, team_id@, actor_id@)) by {
                        assert forall|id: Seq<char>| #[trigger] teammate_ids(ps_now, team_id@, actor_id@).contains(id)
                            == teammate_ids(r0.players, team_id@, actor_id@).contains(id) by {
                            if teammate_ids(ps_now, team_id@, actor_id@).contains(id) {
                                let k = choose|k: int| 0 <= k < ps_now.len() && #[trigger] ps_now[k].team == Some(team_id@)
                                    && ps_now[k].id != actor_id@ && !ps_now[k].is_answer_setter && !ps_now[k].disconnected
                                    && ps_now[k].id == id;
                                assert(r0.players[k].team == Some(team_id@));
                            }
                            if teammate_ids(r0.players, team_id@, actor_id@).contains(id) {
                                let k = choose|k: int| 0 <= k < r0.players.len() && #[trigger] r0.players[k].team == Some(team_id@)
                                    && r0.players[k].id != actor_id@ && !r0.players[k].is_answer_setter
                                    && !r0.players[k].disconnected && r0.players[k].id == id;
                                assert(ps_now[k].team == Some(team_id@));
                            }
                        }
                    }
                    complete_teammates(&room.players, game, team_id.as_str(), actor_id);
                }
            }
        },
        None => {},
    }
}

#[verifier::rlimit(80)]
pub fn apply_guess(room: &mut Room, command: GuessCommand) -> (r: Result<GuessOutcome, GuessReject>)
    requires
        old(room).wf(),
    ensures
        final(room).wf(),
        ({
            let o = guess_outcome(old(room)@, command.actor_id@, command.character@, command.is_correct, command.is_partial_correct);
            &&& final(room)@ == o.0
            &&& match r {
                Ok(out) => o.1 == Ok::<PlayerModel, GuessReject>(out.player@)
                    && out.entry@ == (GuessModel {
                        player_id: command.actor_id@,
                        player_name: out.player@.username,
                        is_correct: command.is_correct,
                        is_partial_correct: command.is_partial_correct,
                        guess_data: command.character@,
                    })
                    && out.is_correct == command.is_correct
                    && out.is_partial_correct == command.is_partial_correct
                    && out.sync_mode == sync_on(old(room)@.current_game->0.settings),
                Err(e) => o.1 == Err::<PlayerModel, GuessReject>(e),
            }
        }),
{
    let ghost r0 = room@;
    let actor_id = command.actor_id;
    let guess_data = command.character;
    let is_correct = command.is_correct;
    let is_partial_correct = command.is_partial_correct;
    let character_id = guess_data.id;
    let player_idx = match find_player_index(&room.players, actor_id.as_str()) {
        Some(i) => i,
        None => {
            return Err(GuessReject::PlayerNotBound);
        },
    };
    if room.current_game.is_none() {
        return Err(GuessReject::GameNotRunning);
    }
    let ghost i = player_idx as int;
    let ghost g0 = r0.current_game->0;
    assert(players_view(room.players@)[i] == room.players@[i]@);
    let player = room.players[player_idx].duplicate();
    if is_spectator(&player.team) || player.temp_observer {
        return Err(GuessReject::Observer);
    }
    if crate::gameplay::marks::player_has_result(&player) {
        return Err(GuessReject::AlreadyEnded);
    }
    let pre_limit = enforce_attempt_limit(room, actor_id.as_str(), false);
    if pre_limit.exhausted {
        return Err(GuessReject::AttemptExhausted);
    }
    assert(room@ == r0);
    let (global_pick, sync_mode, nonstop_mode) = match &room.current_game {
        Some(game) => (settings_global_pick(&game.settings), settings_sync(&game.settings), settings_nonstop(&game.settings)),
        None => (false, false, false),
    };
    if global_pick && !sync_mode {
        let already = match &room.current_game {
            Some(game) => guessed_elsewhere(&game.guesses, player.username.as_str(), character_id),
            None => false,
        };
        if already && (!nonstop_mode || !is_correct) {
            return Err(GuessReject::GlobalPickDuplicate);
        }
    }
    let entry = GuessEntry {
        player_id: actor_id.clone(),
        player_name: player.username.clone(),
        is_correct,
        is_partial_correct,
        guess_data,
    };
    let ghost entry_model = entry@;
    record_in_room(room, player_idx, actor_id.as_str(), entry.duplicate(), sync_mode);
    assert(room@ == guess_recorded(r0, g0, i, actor_id@, entry_model.guess_data, is_correct, is_partial_correct));
    if !nonstop_mode {
        let _ = enforce_attempt_limit(room, actor_id.as_str(), is_correct);
    }
    Ok(GuessOutcome { player, entry, is_correct, is_partial_correct, sync_mode })
}

/// All guesses of the round, history by history, each history in order.
pub open spec fn all_guesses(hs: Seq<HistoryModel>) -> Seq<GuessModel>
    decreases hs.len(),
{
    if hs.len() == 0 {
        Seq::empty()
    } else {
        all_guesses(hs.drop_last()) + hs.last().guesses
    }
}

/// The last guess of `pid` in `gs`, if any.
pub open spec fn last_guess_by(gs: Seq<GuessModel>, pid: Seq<char>) -> Option<GuessModel>
    decreases gs.len(),
{
    if gs.len() == 0 {
        None
    } else if gs.last().player_id == pid {
        Some(gs.last())
    } else {
        last_guess_by(gs.drop_last(), pid)
    }
}

/// Whether the last guess of `pid` in the round names the answer and was judged correct.
pub open spec fn latest_guess_is_answer(r: RoomModel, pid: Seq<char>) -> bool {
    match r.current_game {
        None => false,
        Some(g) => match last_guess_by(all_guesses(g.guesses), pid) {
            Some(x) => x.is_correct && x.guess_data.id == g.character.id,
            None => false,
        },
    }
}

pub fn latest_guess_matches_answer(room: &Room, player_id: &str) -> (r: bool)
    ensures
        r == latest_guess_is_answer(room@, player_id@),
{
    let game = match &room.current_game {
        Some(g) => g,
        None => {
            return false;
        },
    };
    let ghost hv = histories_view(game.guesses@);
    let mut latest: Option<(bool, i64)> = None;
    let mut i: usize = 0;
    while i < game.guesses.len()
        invariant
            i <= game.guesses@.len(),
            hv == histories_view(game.guesses@),
            latest == (match last_guess_by(all_guesses(hv.take(i as int)), player_id@) {
                Some(x) => Some((x.is_correct, x.guess_data.id)),
                None => None,
            }),
        decreases game.guesses@.len() - i,
    {
        let ghost prefix = all_guesses(hv.take(i as int));
        let h = &game.guesses[i];
        assert(hv.take(i + 1).drop_last() =~= hv.take(i as int));
        assert(hv.take(i + 1).last() == h@);
        let mut j: usize = 0;
        while j < h.guesses.len()
            invariant
                j <= h.guesses@.len(),
                h@ == hv[i as int],
                latest == (match last_guess_by(prefix + h@.guesses.take(j as int), player_id@) {
                    Some(x) => Some((x.is_correct, x.guess_data.id)),
                    None => None,
                }),
            decreases h.guesses@.len() - j,
        {
            let ghost cur = prefix + h@.guesses.take(j as int);
            let ghost next = prefix + h@.guesses.take(j + 1);
            assert(next.drop_last() =~= cur);
            assert(next.last() == h.guesses@[j as int]@);
            if text_eq(h.guesses[j].player_id.as_str(), player_id) {
                latest = Some((h.guesses[j].is_correct, h.guesses[j].guess_data.id));
            }
            j = j + 1;
        }
        assert(h@.guesses.take(h@.guesses.len() as int) =~= h@.guesses);
        assert(prefix + h@.guesses == all_guesses(hv.take(i + 1)));
        i = i + 1;
    }
    assert(hv.take(hv.len() as int) =~= hv);
    match latest {
        Some((ok, id)) => ok && id == game.character.id,
        None => false,
    }
}

/// The attempt mark a recorded guess leaves, with the texts: a correct guess "correct", a
/// guess that is not correct but shares a work with the answer "partial", any other
/// "wrong". It is appended to the guesser's marks, or in team mode to the team's.
pub proof fn law_guess_leaves_its_mark(r: RoomModel, actor: Seq<char>, c: CharacterModel, is_correct: bool, is_partial: bool)
    requires
        find_player(r.players, actor) is Some,
        r.current_game is Some,
        guess_outcome(r, actor, c, is_correct, is_partial).1 is Ok,
    ensures
        ({
            let i = find_player(r.players, actor)->0;
            let p = r.players[i];
            let g = r.current_game->0;
            let o = guess_outcome(r, actor, c, is_correct, is_partial).0;
            let added = if in_team_mode(p) {
                o.current_game->0.team_attempt_marks[p.team->0] == marks_of(g.team_attempt_marks, p.team->0).push(
                    if is_correct { seq!['c', 'o', 'r', 'r', 'e', 'c', 't'] } else if is_partial {
                        seq!['p', 'a', 'r', 't', 'i', 'a', 'l'] } else { seq!['w', 'r', 'o', 'n', 'g'] })
            } else {
                o.players[i].attempt_marks == p.attempt_marks.push(
                    if is_correct { seq!['c', 'o', 'r', 'r', 'e', 'c', 't'] } else if is_partial {
                        seq!['p', 'a', 'r', 't', 'i', 'a', 'l'] } else { seq!['w', 'r', 'o', 'n', 'g'] })
            };
            &&& o.current_game is Some
            &&& added
            &&& !is_correct && is_partial && !in_team_mode(p) ==> o.players[i].attempt_marks.last() == seq!['p', 'a', 'r', 't', 'i', 'a', 'l']
            &&& !is_correct && !is_partial && !in_team_mode(p) ==> o.players[i].attempt_marks.last() == seq!['w', 'r', 'o', 'n', 'g']
        }),
{
    crate::gameplay::rules::lemma_find_player_result(r.players, actor);
    let i = find_player(r.players, actor)->0;
    let p = r.players[i];
    let g = r.current_game->0;
    let r1 = guess_recorded(r, g, i, actor, c, is_correct, is_partial);
    if !nonstop_on(g.settings) {
        let e = crate::gameplay::flow::enforce_outcome(r1, actor, is_correct);
        crate::gameplay::rules::lemma_find_player_result(r1.players, actor);
        assert(e.0.players[i].attempt_marks == r1.players[i].attempt_marks);
    }
}

} // verus!
