//! A player ends the round on their own: by surrendering, by claiming a win, or by giving up.
use vstd::prelude::*;
use crate::gameplay::events::RoomEvent;
use crate::gameplay::guess::{find_history, history_index, latest_guess_is_answer, latest_guess_matches_answer};
use crate::gameplay::flow::with_result;
use crate::gameplay::nonstop::winners_view;
use crate::gameplay::scoring::{quick_guess_bonus, winner_score, winner_total};
use crate::gameplay::marks::{
    big_win_text, clear_player_result, clear_team_result, dead_text, is_big_winning, lemma_mark_texts,
    player_is_big_winner, set_player_result, set_team_result, surrender_text, win_text, RESULT_BIG_WIN,
    RESULT_DEAD, RESULT_SURRENDER, RESULT_WIN,
};
use crate::gameplay::rules::{active_team_member, find_player, find_player_index, in_team_mode, team_mode};
use crate::gameplay::standard_flow::{
    mark_team_victory, plain_update, team_members_except, victory_members, victory_room, victory_team,
};
use crate::keyed::texts;
use crate::settings::{nonstop_on, settings_nonstop, settings_sync, sync_on};
use crate::state::{
    NonstopWinnerBonuses, NonstopWinner, NonstopWinnerModel, CurrentGame, GameModel, Player, PlayerModel, Room, RoomModel, WinnerMarker, WinnerMarkerModel,
    histories_view, players_view,
};
use crate::text::text_eq;

verus! {

/// How a player's own end of the round counts.
#[derive(Clone, Copy, PartialEq, Eq, Structural, Debug)]
pub enum EndClaim {
    Surrender,
    Win,
    BigWin,
    Lose,
}

/// What ending the round produced, for the caller to send on.
pub struct RoundEnd {
    pub claim: EndClaim,
    /// The messages of a team victory, when the claim won the round for a team.
    pub events: Vec<RoomEvent>,
    /// The round is synchronised: the player list and the round's progress go out next.
    pub sync_mode: bool,
}

/// Whether the last guess in the first history of `name` names the answer.
pub open spec fn last_guess_names_answer(g: GameModel, name: Seq<char>) -> bool {
    match find_history(g.guesses, name) {
        Some(k) => g.guesses[k].guesses.len() > 0 && g.guesses[k].guesses.last().guess_data.id == g.character.id,
        None => false,
    }
}

/// How player `p` ends the round after asking for `req`: a surrender on request; a win only
/// when one was asked for ("win" or "bigwin") and the player's last guess names the answer,
/// and a big win when that took one attempt and the player had no big win yet; a loss
/// otherwise.
pub open spec fn claim_of(g: GameModel, p: PlayerModel, req: Seq<char>) -> EndClaim {
    if req == "surrender"@ {
        EndClaim::Surrender
    } else if (req == "win"@ || req == "bigwin"@) && last_guess_names_answer(g, p.username) {
        if p.attempt_marks.len() == 1 && !is_big_winning(p.round_result) {
            EndClaim::BigWin
        } else {
            EndClaim::Win
        }
    } else {
        EndClaim::Lose
    }
}

/// The round result that a claim stands for.
pub open spec fn claim_text(c: EndClaim) -> Seq<char> {
    match c {
        EndClaim::Surrender => surrender_text(),
        EndClaim::Win => win_text(),
        EndClaim::BigWin => big_win_text(),
        EndClaim::Lose => dead_text(),
    }
}

pub open spec fn claim_wins(c: EndClaim) -> bool {
    c is Win || c is BigWin
}

/// Every active member of team `t` given the round result `res` (none to clear it).
pub open spec fn team_round_set(ps: Seq<PlayerModel>, t: Seq<char>, res: Option<Seq<char>>) -> Seq<PlayerModel> {
    ps.map_values(|q: PlayerModel| if active_team_member(q, t) { PlayerModel { round_result: res, ..q } } else { q })
}

pub open spec fn winner_marker(p: PlayerModel, big: bool, at: Option<i64>) -> WinnerMarkerModel {
    WinnerMarkerModel { id: p.id, username: p.username, is_big_win: big, timestamp: at }
}

/// The room once player `i` (in game `g`) ended the round with claim `c` at `now`. The
/// player's result is cleared, in team mode the team's and its active members' too; then the
/// player gets the claim's result, and a surrender or a loss is shared by the team. A win
/// becomes the round's first win when there is none; a big win also replaces a first win that
/// was not big.
#[verifier::opaque]
pub open spec fn settled_claim(r: RoomModel, g: GameModel, i: int, c: EndClaim, now: i64) -> RoomModel {
    let p = r.players[i];
    let t = p.team->0;
    let team = in_team_mode(p);
    let ps1 = r.players.update(i, PlayerModel { round_result: None, ..p });
    let ps2 = if team { team_round_set(ps1, t, None) } else { ps1 };
    let g1 = if team { GameModel { team_round_results: g.team_round_results.remove(t), ..g } } else { g };
    let res = claim_text(c);
    let ps3 = ps2.update(i, PlayerModel { round_result: Some(res), ..ps2[i] });
    let shared = team && (c is Surrender || c is Lose);
    let ps4 = if shared { team_round_set(ps3, t, Some(res)) } else { ps3 };
    let g2 = if shared {
        GameModel { team_round_results: g1.team_round_results.insert(t, res), ..g1 }
    } else if c is Win && g1.first_winner is None {
        GameModel { first_winner: Some(winner_marker(p, false, Some(now))), ..g1 }
    } else if c is BigWin && (g1.first_winner is None || !g1.first_winner->0.is_big_win) {
        GameModel { first_winner: Some(winner_marker(p, true, Some(now))), ..g1 }
    } else {
        g1
    };
    RoomModel { players: ps4, current_game: Some(g2), last_active: now, ..r }
}

/// A winning claim of a player in a real team, outside non-stop rounds, wins for the team.
pub open spec fn victory_due(g: GameModel, p: PlayerModel, c: EndClaim) -> bool {
    claim_wins(c) && !nonstop_on(g.settings) && in_team_mode(p)
}

#[verifier::opaque]
pub open spec fn after_victory(r: RoomModel, due: bool, pid: Seq<char>) -> RoomModel {
    if due {
        match victory_team(r, pid) {
            Some(t) => victory_room(r, t, pid),
            None => r,
        }
    } else {
        r
    }
}

/// The synchronised-round bookkeeping of player `pid` (at `i`, team `t` when `in_team`): a
/// winning claim outside non-stop rounds is the round's winner; the player is done with the
/// round, and in non-stop rounds so are the active teammates.
#[verifier::opaque]
pub open spec fn sync_noted(
    r: RoomModel,
    i: int,
    c: EndClaim,
    pid: Seq<char>,
    nonstop: bool,
    in_team: bool,
    t: Seq<char>,
) -> RoomModel {
    match r.current_game {
        None => r,
        Some(g) => {
            let g1 = if !nonstop && claim_wins(c) {
                GameModel {
                    sync_winner_found: true,
                    sync_winner: Some(WinnerMarkerModel {
                        id: pid,
                        username: r.players[i].username,
                        is_big_win: c is BigWin,
                        timestamp: None,
                    }),
                    ..g
                }
            } else {
                g
            };
            let mates = if nonstop && in_team { victory_members(r.players, t, pid).to_set() } else { Set::empty() };
            RoomModel {
                current_game: Some(GameModel {
                    sync_players_completed: g1.sync_players_completed.insert(pid).union(mates),
                    ..g1
                }),
                ..r
            }
        },
    }
}

/// The room after player `pid` asked at `now` to end the round with `req`, and the claim it
/// counted as. The room counts as active at `now` in every case; the request is refused for a
/// player not in the room and when no game runs.
pub open spec fn round_end_outcome(r: RoomModel, pid: Seq<char>, req: Seq<char>, now: i64) -> (RoomModel, Result<EndClaim, Seq<char>>) {
    let r1 = RoomModel { last_active: now, ..r };
    match find_player(r.players, pid) {
        None => (r1, Err("连接中断了"@)),
        Some(i) => match r.current_game {
            None => (r1, Err("游戏未开始或已结束"@)),
            Some(g) => {
                let p = r.players[i];
                let c = claim_of(g, p, req);
                let ra = settled_claim(r1, g, i, c, now);
                let rb = after_victory(ra, victory_due(g, p, c), pid);
                let rc = if sync_on(g.settings) {
                    sync_noted(rb, i, c, pid, nonstop_on(g.settings), in_team_mode(p), p.team->0)
                } else {
                    rb
                };
                (rc, Ok(c))
            },
        },
    }
}

/// A client's claim alone never records a win: when a player ends the round, the result that
/// the player gets is a win or a big win only if a win was asked for and the player's last
/// guess names the answer, a big win only on the first attempt; asking for a win without
/// such a guess gives a loss.
pub proof fn law_claim_alone_never_wins(r: RoomModel, pid: Seq<char>, req: Seq<char>, now: i64)
    requires
        r.current_game is Some,
        find_player(r.players, pid) is Some,
    ensures
        ({
            let g = r.current_game->0;
            let i = find_player(r.players, pid)->0;
            let p = r.players[i];
            let res = settled_claim(RoomModel { last_active: now, ..r }, g, i, claim_of(g, p, req), now).players[i].round_result;
            &&& round_end_outcome(r, pid, req, now).1 == Ok::<EndClaim, Seq<char>>(claim_of(g, p, req))
            &&& (res == Some(win_text()) || res == Some(big_win_text())) ==> (req == "win"@ || req == "bigwin"@)
                && last_guess_names_answer(g, p.username)
            &&& res == Some(big_win_text()) ==> p.attempt_marks.len() == 1
            &&& (req != "surrender"@ && !last_guess_names_answer(g, p.username)) ==> res == Some(dead_text())
        }),
{
    reveal(settled_claim);
    crate::gameplay::rules::lemma_find_player_result(r.players, pid);
    assert(win_text() != dead_text() && win_text() != surrender_text() && win_text() != big_win_text());
    assert(big_win_text() != dead_text() && big_win_text() != surrender_text());
}

/// The messages of the victory of the team of `pid` in room `r`, the players being `ps` after it.
#[verifier::opaque]
pub open spec fn victory_events(r: RoomModel, pid: Seq<char>, events: Seq<RoomEvent>, ps: Seq<PlayerModel>) -> bool {
    let t = victory_team(r, pid)->0;
    &&& events.len() == victory_members(r.players, t, pid).len() + 1
    &&& forall|k: int| 0 <= k < events.len() - 1 ==> (#[trigger] events[k] matches RoomEvent::TeamWin { target, winner_name }
        && target@ == victory_members(r.players, t, pid)[k]
        && winner_name@ == r.players[find_player(r.players, pid)->0].username)
    &&& plain_update(events.last(), ps)
}


proof fn lemma_team_win_len(ps: Seq<PlayerModel>, ids: Seq<Seq<char>>)
    ensures
        crate::gameplay::standard_flow::team_win_all(ps, ids).len() == ps.len(),
    decreases ids.len(),
{
    if ids.len() > 0 {
        lemma_team_win_len(ps, ids.drop_last());
        crate::gameplay::rules::lemma_find_player_result(
            crate::gameplay::standard_flow::team_win_all(ps, ids.drop_last()),
            ids.last(),
        );
    }
}

/// A team victory keeps the number of players.
proof fn lemma_victory_keeps_players(r: RoomModel, t: Seq<char>, wid: Seq<char>)
    requires
        r.current_game is Some,
    ensures
        victory_room(r, t, wid).players.len() == r.players.len(),
{
    let ids = victory_members(r.players, t, wid);
    let qs = crate::gameplay::standard_flow::team_win_all(r.players, ids);
    lemma_team_win_len(r.players, ids);
    crate::gameplay::rules::lemma_find_player_result(qs, wid);
}

fn last_guess_hits(game: &CurrentGame, name: &str) -> (r: bool)
    ensures
        r == last_guess_names_answer(game@, name@),
{
    match history_index(&game.guesses, name) {
        None => false,
        Some(k) => {
            let h = &game.guesses[k];
            proof {
                assert(histories_view(game.guesses@)[k as int] == game.guesses@[k as int]@);
            }
            let n = h.guesses.len();
            if n == 0 {
                false
            } else {
                proof {
                    assert(h@.guesses[n - 1] == h.guesses@[n - 1]@);
                }
                h.guesses[n - 1].guess_data.id == game.character.id
            }
        },
    }
}

fn claim_for(game: &CurrentGame, p: &Player, req: &str) -> (c: EndClaim)
    ensures
        c == claim_of(game@, p@, req@),
{
    if text_eq(req, "surrender") {
        return EndClaim::Surrender;
    }
    let asked = text_eq(req, "win") || text_eq(req, "bigwin");
    if asked && last_guess_hits(game, p.username.as_str()) {
        if p.attempt_marks.len() == 1 && !player_is_big_winner(p) {
            EndClaim::BigWin
        } else {
            EndClaim::Win
        }
    } else {
        EndClaim::Lose
    }
}

/// Gives every active member of team `t` the round result `res` (none to clear it).
fn set_team_round(players: &mut Vec<Player>, t: &str, res: Option<&str>)
    ensures
        players_view(final(players)@) == team_round_set(
            players_view(old(players)@),
            t@,
            match res { Some(s) => Some(s@), None => None },
        ),
{
    let ghost ps0 = players_view(players@);
    let ghost rv = match res { Some(s) => Some(s@), None => None::<Seq<char>> };
    let mut i: usize = 0;
    while i < players.len()
        invariant
            0 <= i <= players@.len(),
            players@.len() == ps0.len(),
            rv == match res { Some(s) => Some(s@), None => None::<Seq<char>> },
            forall|j: int| 0 <= j < i ==> #[trigger] players@[j]@ == team_round_set(ps0, t@, rv)[j],
            forall|j: int| i <= j < ps0.len() ==> #[trigger] players@[j]@ == ps0[j],
        decreases players@.len() - i,
    {
        let ghost before = players@;
        assert(before[i as int]@ == ps0[i as int]);
        if crate::gameplay::rules::is_active_team_member(&players[i], t) {
            match res {
                Some(s) => set_player_result(&mut players[i], s),
                None => clear_player_result(&mut players[i]),
            }
        }
        assert forall|j: int| 0 <= j < players@.len() && j != i implies #[trigger] players@[j] == before[j] by {}
        assert(players@[i as int]@ == team_round_set(ps0, t@, rv)[i as int]);
        i = i + 1;
    }
    assert(players_view(players@) =~= team_round_set(ps0, t@, rv));
}

/// Applies claim `c` of player `idx` at `now`, as `settled_claim` says.
#[verifier::rlimit(60)]
fn settle_claim(room: &mut Room, idx: usize, c: EndClaim, now: i64)
    requires
        old(room).wf(),
        old(room).current_game is Some,
        idx < old(room).players@.len(),
    ensures
        final(room).wf(),
        final(room)@ == settled_claim(old(room)@, old(room)@.current_game->0, idx as int, c, now),
        final(room)@.players.len() == old(room)@.players.len(),
{
    reveal(settled_claim);
    let ghost r0 = room@;
    let ghost g0 = r0.current_game->0;
    let ghost i = idx as int;
    let ghost p0 = r0.players[i];
    assert(players_view(room.players@)[i] == room.players@[i]@);
    room.last_active = now;
    let team = team_mode(&room.players[idx]);
    let t: String = match &room.players[idx].team {
        Some(x) => x.clone(),
        None => String::new(),
    };
    assert(team ==> t@ == p0.team->0);
    let ghost ps_a = players_view(room.players@);
    clear_player_result(&mut room.players[idx]);
    assert(players_view(room.players@) =~= ps_a.update(i, PlayerModel { round_result: None, ..p0 }));
    if team {
        match &mut room.current_game {
            Some(game) => clear_team_result(game, t.as_str()),
            None => {},
        }
        set_team_round(&mut room.players, t.as_str(), None);
    }
    proof { lemma_mark_texts(); }
    let res: &str = match c {
        EndClaim::Surrender => RESULT_SURRENDER,
        EndClaim::Win => RESULT_WIN,
        EndClaim::BigWin => RESULT_BIG_WIN,
        EndClaim::Lose => RESULT_DEAD,
    };
    assert(res@ == claim_text(c));
    let ghost ps_b = players_view(room.players@);
    assert(ps_b.len() == r0.players.len());
    assert(room.players@[i]@ == ps_b[i]);
    set_player_result(&mut room.players[idx], res);
    assert(players_view(room.players@) =~= ps_b.update(i, PlayerModel { round_result: Some(res@), ..ps_b[i] }));
    let shared = team && (c == EndClaim::Surrender || c == EndClaim::Lose);
    let pid = room.players[idx].id.clone();
    let pname = room.players[idx].username.clone();
    assert(pid@ == p0.id && pname@ == p0.username);
    match &mut room.current_game {
        None => {},
        Some(game) => {
            if shared {
                set_team_result(game, t.as_str(), res);
            } else if c == EndClaim::Win {
                if game.first_winner.is_none() {
                    game.first_winner = Some(WinnerMarker { id: pid, username: pname, is_big_win: false, timestamp: Some(now) });
                }
            } else if c == EndClaim::BigWin {
                let replace = match &game.first_winner {
                    Some(fw) => !fw.is_big_win,
                    None => true,
                };
                if replace {
                    game.first_winner = Some(WinnerMarker { id: pid, username: pname, is_big_win: true, timestamp: Some(now) });
                }
            }
        },
    }
    if shared {
        set_team_round(&mut room.players, t.as_str(), Some(res));
    }
}

/// The synchronised-round bookkeeping of player `pid` at `idx`, as `sync_noted` says.
#[verifier::rlimit(40)]
pub(crate) fn note_sync_end(room: &mut Room, idx: usize, pid: &str, c: EndClaim, nonstop: bool, in_team: bool, t: &str)
    requires
        old(room).wf(),
        idx < old(room).players@.len(),
    ensures
        final(room).wf(),
        final(room)@ == sync_noted(old(room)@, idx as int, c, pid@, nonstop, in_team, t@),
        final(room)@.players == old(room)@.players,
{
    reveal(sync_noted);
    let ghost r0 = room@;
    let mates: Vec<String> = if nonstop && in_team {
        team_members_except(&room.players, t, pid)
    } else {
        Vec::new()
    };
    let ghost ids = texts(mates@);
    assert(ids.to_set() =~= (if nonstop && in_team { victory_members(r0.players, t@, pid@).to_set() } else { Set::empty() }));
    assert(players_view(room.players@)[idx as int] == room.players@[idx as int]@);
    let name = room.players[idx].username.clone();
    match &mut room.current_game {
        None => {},
        Some(game) => {
            let ghost g0 = game@;
            if !nonstop && (c == EndClaim::Win || c == EndClaim::BigWin) {
                game.sync_winner_found = true;
                game.sync_winner = Some(WinnerMarker {
                    id: pid.to_string(),
                    username: name,
                    is_big_win: c == EndClaim::BigWin,
                    timestamp: None,
                });
            }
            let ghost g1 = game@;
            game.sync_players_completed.insert(pid.to_string());
            let mut k: usize = 0;
            assert(ids.take(0).to_set() =~= Set::<Seq<char>>::empty());
            assert(game@.sync_players_completed =~= g1.sync_players_completed.insert(pid@).union(ids.take(0).to_set()));
            while k < mates.len()
                invariant
                    k <= mates@.len(),
                    ids == texts(mates@),
                    game.wf(),
                    game@ == (GameModel {
                        sync_players_completed: g1.sync_players_completed.insert(pid@).union(ids.take(k as int).to_set()),
                        ..g1
                    }),
                decreases mates@.len() - k,
            {
                game.sync_players_completed.insert(mates[k].clone());
                proof {
                    assert(ids.take(k + 1) =~= ids.take(k as int).push(ids[k as int]));
                    crate::gameplay::tagban::lemma_push_to_set(ids.take(k as int), ids[k as int]);
                }
                assert(game@.sync_players_completed =~= g1.sync_players_completed.insert(pid@).union(ids.take(k + 1).to_set()));
                k = k + 1;
            }
            assert(ids.take(mates@.len() as int) =~= ids);
        },
    }
}

/// The team victory that a winning claim causes when `due`, as `after_victory` says.
#[verifier::rlimit(40)]
pub(crate) fn team_victory_step(room: &mut Room, actor: &str, due: bool) -> (events: Vec<RoomEvent>)
    requires
        old(room).wf(),
    ensures
        final(room).wf(),
        final(room)@ == after_victory(old(room)@, due, actor@),
        final(room)@.players.len() == old(room)@.players.len(),
        if due && victory_team(old(room)@, actor@) is Some {
            victory_events(old(room)@, actor@, events@, final(room)@.players)
        } else {
            events@.len() == 0
        },
{
    reveal(after_victory);
    reveal(victory_events);
    if due {
        let ghost r0 = room@;
        let events = mark_team_victory(room, actor);
        proof {
            if let Some(tv) = victory_team(r0, actor@) {
                lemma_victory_keeps_players(r0, tv, actor@);
            }
        }
        events
    } else {
        Vec::new()
    }
}

/// The player on socket `actor` ends the round at `now`, asking for `requested`: "surrender",
/// "win" or "bigwin" (anything else is a loss). Returns how the end counted, the messages of a
/// team victory it caused, and whether the round is synchronised.
#[verifier::rlimit(60)]
pub fn end_round_on_request(room: &mut Room, actor: &str, requested: &str, now: i64) -> (r: Result<RoundEnd, &'static str>)
    requires
        old(room).wf(),
    ensures
        final(room).wf(),
        final(room)@ == round_end_outcome(old(room)@, actor@, requested@, now).0,
        match round_end_outcome(old(room)@, actor@, requested@, now).1 {
            Err(m) => r matches Err(e) && e@ == m,
            Ok(c) => r matches Ok(out) && out.claim == c && {
                let g = old(room)@.current_game->0;
                let i = find_player(old(room)@.players, actor@)->0;
                let p = old(room)@.players[i];
                let ra = settled_claim(RoomModel { last_active: now, ..old(room)@ }, g, i, c, now);
                &&& out.sync_mode == sync_on(g.settings)
                &&& if victory_due(g, p, c) && victory_team(ra, actor@) is Some {
                    victory_events(ra, actor@, out.events@, final(room)@.players)
                } else {
                    out.events@.len() == 0
                }
            },
        },
{
    room.last_active = now;
    let idx = match find_player_index(&room.players, actor) {
        Some(i) => i,
        None => return Err("连接中断了"),
    };
    let ghost i = idx as int;
    let ghost r1 = room@;
    assert(r1 == RoomModel { last_active: now, ..old(room)@ });
    assert(players_view(room.players@)[i] == room.players@[i]@);
    let (claim, sync_mode, nonstop) = match &room.current_game {
        None => return Err("游戏未开始或已结束"),
        Some(game) => (
            claim_for(game, &room.players[idx], requested),
            settings_sync(&game.settings),
            settings_nonstop(&game.settings),
        ),
    };
    let ghost g = r1.current_game->0;
    let ghost p = r1.players[i];
    let in_team = team_mode(&room.players[idx]);
    let t: String = match &room.players[idx].team {
        Some(x) => x.clone(),
        None => String::new(),
    };
    assert(in_team ==> t@ == p.team->0);
    settle_claim(room, idx, claim, now);
    let due = (claim == EndClaim::Win || claim == EndClaim::BigWin) && !nonstop && in_team;
    assert(due == victory_due(g, p, claim));
    let events = team_victory_step(room, actor, due);
    let ghost rb = room@;
    if sync_mode {
        note_sync_end(room, idx, actor, claim, nonstop, in_team, t.as_str());
        assert(sync_noted(rb, i, claim, actor@, nonstop, in_team, t@)
            == sync_noted(rb, i, claim, actor@, nonstop_on(g.settings), in_team_mode(p), p.team->0)) by {
            reveal(sync_noted);
        }
    }
    Ok(RoundEnd { claim, events, sync_mode })
}


} // verus!
