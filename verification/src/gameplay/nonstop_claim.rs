//! Claiming the win of a non-stop round, and scoring the winner.
use vstd::prelude::*;
use crate::gameplay::events::RoomEvent;
use crate::gameplay::flow::with_result;
use crate::gameplay::guess::{latest_guess_is_answer, latest_guess_matches_answer};
use crate::gameplay::marks::{is_big_winning, lemma_mark_texts, player_is_big_winner, set_player_result, RESULT_BIG_WIN, RESULT_WIN};
use crate::gameplay::nonstop::winners_view;
use crate::gameplay::round_end::{
    after_victory, claim_text, note_sync_end, sync_noted, team_victory_step, victory_events, EndClaim,
};
use crate::gameplay::rules::{find_player, find_player_index, in_team_mode, team_mode};
use crate::gameplay::scoring::{quick_guess_bonus, winner_score, winner_total};
use crate::gameplay::standard_flow::victory_team;
use crate::settings::{settings_sync, sync_on};
use crate::state::{
    CurrentGame, GameModel, NonstopWinner, Player, NonstopWinnerBonuses, NonstopWinnerModel, PlayerModel, Room, RoomModel,
    players_view,
};
use crate::text::text_eq;

verus! {

/// A recorded non-stop win, for the caller to send on.
pub struct NonstopClaim {
    pub is_big_win: bool,
    /// The messages of the team victory it caused.
    pub events: Vec<RoomEvent>,
    /// The round is synchronised: its progress is due next.
    pub sync_mode: bool,
}

/// A winner of the non-stop round is in team `t`.
pub open spec fn team_has_won(ws: Seq<NonstopWinnerModel>, t: Seq<char>) -> bool {
    exists|k: int| 0 <= k < ws.len() && (#[trigger] ws[k]).team == Some(t)
}

/// Player `pid` already won the non-stop round.
pub open spec fn has_won(ws: Seq<NonstopWinnerModel>, pid: Seq<char>) -> bool {
    exists|k: int| 0 <= k < ws.len() && (#[trigger] ws[k]).id == pid
}

/// The room after player `pid` claimed at `now` the win of a non-stop round, and whether it
/// counts as a big win (none when the player had already won). The room counts as active at
/// `now` in every case. Refused without a game, for a player not in the room, for an observer,
/// when the player's latest guess does not name the answer, and when a teammate already won.
/// Otherwise the player wins (a big win on the first attempt) and is no longer counted as
/// done; in a real team the team wins; in a synchronised round the player and the active
/// teammates are done.
pub open spec fn nonstop_claim_outcome(r: RoomModel, pid: Seq<char>, now: i64) -> (RoomModel, Result<Option<bool>, Seq<char>>) {
    let r1 = RoomModel { last_active: now, ..r };
    match r.current_game {
        None => (r1, Err("房间不存在或游戏未开始"@)),
        Some(g) => match find_player(r.players, pid) {
            None => (r1, Err("连接中断了"@)),
            Some(i) => {
                let p = r.players[i];
                if p.temp_observer {
                    (r1, Err("旁观者无法猜测"@))
                } else if !latest_guess_is_answer(r, pid) {
                    (r1, Err("血战结算必须由服务端确认的正确猜测触发"@))
                } else if in_team_mode(p) && team_has_won(g.nonstop_winners, p.team->0) {
                    (r1, Err("你的队友已经猜对了，你无法继续猜测"@))
                } else if has_won(g.nonstop_winners, pid) {
                    (r1, Ok(None))
                } else {
                    let big = p.attempt_marks.len() == 1;
                    let c = if big { EndClaim::BigWin } else { EndClaim::Win };
                    let ra = RoomModel {
                        players: r.players.update(i, with_result(p, claim_text(c))),
                        current_game: Some(GameModel { sync_players_completed: g.sync_players_completed.remove(pid), ..g }),
                        ..r1
                    };
                    let rb = after_victory(ra, in_team_mode(p), pid);
                    let rc = if sync_on(g.settings) {
                        sync_noted(rb, i, c, pid, true, in_team_mode(p), p.team->0)
                    } else {
                        rb
                    };
                    (rc, Ok(Some(big)))
                }
            },
        },
    }
}

fn any_team_winner(ws: &Vec<NonstopWinner>, t: &str) -> (r: bool)
    ensures
        r == team_has_won(winners_view(ws@), t@),
{
    let ghost wv = winners_view(ws@);
    let mut k: usize = 0;
    while k < ws.len()
        invariant
            k <= ws@.len(),
            wv == winners_view(ws@),
            forall|j: int| 0 <= j < k ==> (#[trigger] wv[j]).team != Some(t@),
        decreases ws@.len() - k,
    {
        assert(wv[k as int] == ws@[k as int]@);
        let hit = match &ws[k].team {
            Some(x) => text_eq(x.as_str(), t),
            None => false,
        };
        if hit {
            return true;
        }
        k = k + 1;
    }
    false
}

fn any_winner_id(ws: &Vec<NonstopWinner>, pid: &str) -> (r: bool)
    ensures
        r == has_won(winners_view(ws@), pid@),
{
    let ghost wv = winners_view(ws@);
    let mut k: usize = 0;
    while k < ws.len()
        invariant
            k <= ws@.len(),
            wv == winners_view(ws@),
            forall|j: int| 0 <= j < k ==> (#[trigger] wv[j]).id != pid@,
        decreases ws@.len() - k,
    {
        assert(wv[k as int] == ws@[k as int]@);
        if text_eq(ws[k].id.as_str(), pid) {
            return true;
        }
        k = k + 1;
    }
    false
}

/// The player on socket `actor` claims at `now` the win of a non-stop round. `Ok(Some(..))`
/// when the win was recorded, `Ok(None)` when the player had already won. A synchronised
/// round's progress is due next, then `record_nonstop_winner`.
#[verifier::rlimit(60)]
pub fn claim_nonstop_win(room: &mut Room, actor: &str, now: i64) -> (r: Result<Option<NonstopClaim>, &'static str>)
    requires
        old(room).wf(),
    ensures
        final(room).wf(),
        final(room)@ == nonstop_claim_outcome(old(room)@, actor@, now).0,
        match nonstop_claim_outcome(old(room)@, actor@, now).1 {
            Ok(None) => r matches Ok(None),
            Ok(Some(b)) => r matches Ok(Some(out)) && out.is_big_win == b && {
                let g = old(room)@.current_game->0;
                let i = find_player(old(room)@.players, actor@)->0;
                let p = old(room)@.players[i];
                let ra = RoomModel {
                    players: old(room)@.players.update(i, with_result(p, claim_text(if b { EndClaim::BigWin } else { EndClaim::Win }))),
                    current_game: Some(GameModel { sync_players_completed: g.sync_players_completed.remove(actor@), ..g }),
                    last_active: now,
                    ..old(room)@
                };
                &&& out.sync_mode == sync_on(g.settings)
                &&& if in_team_mode(p) && victory_team(ra, actor@) is Some {
                    victory_events(ra, actor@, out.events@, final(room)@.players)
                } else {
                    out.events@.len() == 0
                }
            },
            Err(m) => r matches Err(e) && e@ == m,
        },
{
    room.last_active = now;
    let ghost r1 = room@;
    assert(r1 == RoomModel { last_active: now, ..old(room)@ });
    if room.current_game.is_none() {
        return Err("房间不存在或游戏未开始");
    }
    let idx = match find_player_index(&room.players, actor) {
        Some(i) => i,
        None => return Err("连接中断了"),
    };
    let ghost i = idx as int;
    let ghost p = r1.players[i];
    assert(players_view(room.players@)[i] == room.players@[i]@);
    if room.players[idx].temp_observer {
        return Err("旁观者无法猜测");
    }
    if !latest_guess_matches_answer(room, actor) {
        return Err("血战结算必须由服务端确认的正确猜测触发");
    }
    let in_team = team_mode(&room.players[idx]);
    let t: String = match &room.players[idx].team {
        Some(x) => x.clone(),
        None => String::new(),
    };
    assert(in_team ==> t@ == p.team->0);
    let (teammate_won, already, sync_mode) = match &room.current_game {
        None => (false, false, false),
        Some(game) => (
            in_team && any_team_winner(&game.nonstop_winners, t.as_str()),
            any_winner_id(&game.nonstop_winners, actor),
            settings_sync(&game.settings),
        ),
    };
    if teammate_won {
        return Err("你的队友已经猜对了，你无法继续猜测");
    }
    if already {
        return Ok(None);
    }
    let big = room.players[idx].attempt_marks.len() == 1;
    let c = if big { EndClaim::BigWin } else { EndClaim::Win };
    proof { lemma_mark_texts(); }
    let res = if big { RESULT_BIG_WIN } else { RESULT_WIN };
    let ghost before = players_view(room.players@);
    set_player_result(&mut room.players[idx], res);
    assert(players_view(room.players@) =~= before.update(i, with_result(p, claim_text(c))));
    match &mut room.current_game {
        None => {},
        Some(game) => game.sync_players_completed.remove(actor),
    }
    let events = team_victory_step(room, actor, in_team);
    let ghost rb = room@;
    if sync_mode {
        note_sync_end(room, idx, actor, c, true, in_team, t.as_str());
        assert(sync_noted(rb, i, c, actor@, true, in_team, t@)
            == sync_noted(rb, i, c, actor@, true, in_team_mode(p), p.team->0)) by {
            reveal(sync_noted);
        }
    }
    Ok(Some(NonstopClaim { is_big_win: big, events, sync_mode }))
}

/// The rank part of a non-stop winner's score: the players still in the round when the win
/// came (the starting count less the winners so far), at least one; one without a game.
pub open spec fn nonstop_rank_base(g: Option<GameModel>) -> int {
    let d = match g {
        Some(x) => x.nonstop_total_players - (x.nonstop_winners.len() as i32),
        None => 0,
    };
    if d > 1 { d } else { 1 }
}

/// The number of rounds that scores a quick guess: the attempt limit, ten without settings.
pub open spec fn nonstop_rounds(g: Option<GameModel>) -> i32 {
    match g {
        Some(x) => match x.settings {
            Some(st) => st.max_attempts as i32,
            None => 10,
        },
        None => 10,
    }
}

/// The points of non-stop winner `p`.
pub open spec fn nonstop_points(g: Option<GameModel>, p: PlayerModel) -> int {
    winner_total(
        (p.attempt_marks.len() as i32) as int,
        is_big_winning(p.round_result),
        nonstop_rank_base(g),
        nonstop_rounds(g) as int,
    )
}

/// The room once player `pid` is scored as a non-stop winner (a big win when `big`): the
/// player gains `nonstop_points`, and the round's winners list gets the player with the
/// points and the bonuses they include.
#[verifier::opaque]
pub open spec fn nonstop_recorded(r: RoomModel, pid: Seq<char>, big: bool) -> RoomModel {
    match find_player(r.players, pid) {
        None => r,
        Some(i) => {
            let p = r.players[i];
            let pts = nonstop_points(r.current_game, p);
            let gc = (p.attempt_marks.len() as i32) as int;
            let bw = is_big_winning(p.round_result);
            RoomModel {
                players: r.players.update(i, PlayerModel { score: (p.score + pts) as i32, ..p }),
                current_game: match r.current_game {
                    Some(g) => Some(GameModel {
                        nonstop_winners: g.nonstop_winners.push(NonstopWinnerModel {
                            id: pid,
                            username: p.username,
                            is_big_win: big,
                            team: p.team,
                            score: pts as i32,
                            bonuses: NonstopWinnerBonuses {
                                big_win: if bw { 12 } else { 0 },
                                quick_guess: if bw { 0 } else { quick_guess_bonus(gc, nonstop_rounds(r.current_game) as int) as i32 },
                            },
                        }),
                        ..g
                    }),
                    None => None,
                },
                ..r
            }
        },
    }
}

fn nonstop_score_inputs(game: &Option<CurrentGame>) -> (r: (i32, i32))
    requires
        game matches Some(g) ==> g@.nonstop_winners.len() <= i32::MAX
            && i32::MIN <= g@.nonstop_total_players - g@.nonstop_winners.len() <= i32::MAX - 12,
    ensures
        r.0 == nonstop_rank_base(crate::state::opt_game(*game)),
        r.0 <= i32::MAX - 12,
        r.1 == nonstop_rounds(crate::state::opt_game(*game)),
{
    let (total, count, rounds): (i32, i32, i32) = match game {
        Some(g) => (
            g.nonstop_total_players,
            g.nonstop_winners.len() as i32,
            match &g.settings {
                Some(st) => st.max_attempts as i32,
                None => 10,
            },
        ),
        None => (1, 0, 10),
    };
    let d = total - count;
    let rank = if d > 1 { d } else { 1 };
    (rank, rounds)
}

fn nonstop_points_for(game: &Option<CurrentGame>, p: &Player) -> (r: crate::gameplay::scoring::ScoreResult)
    requires
        game matches Some(g) ==> g@.nonstop_winners.len() <= i32::MAX
            && i32::MIN <= g@.nonstop_total_players - g@.nonstop_winners.len() <= i32::MAX - 12,
    ensures
        r.total_score == nonstop_points(crate::state::opt_game(*game), p@),
        r.bonuses.big_win == (if is_big_winning(p@.round_result) { 12int } else { 0int }),
        r.bonuses.quick_guess == (if is_big_winning(p@.round_result) { 0int } else {
            quick_guess_bonus((p@.attempt_marks.len() as i32) as int, nonstop_rounds(crate::state::opt_game(*game)) as int)
        }),
{
    let (rank, rounds) = nonstop_score_inputs(game);
    winner_score(p.attempt_marks.len() as i32, player_is_big_winner(p), rank, rounds)
}

/// Scores the player on socket `actor` as a winner of the non-stop round; `false` (and nothing
/// changes) when the player is not in the room.
#[verifier::rlimit(40)]
pub fn record_nonstop_winner(room: &mut Room, actor: &str, is_big_win: bool) -> (r: bool)
    requires
        old(room).wf(),
        old(room)@.current_game matches Some(g) ==> g.nonstop_winners.len() <= i32::MAX
            && i32::MIN <= g.nonstop_total_players - g.nonstop_winners.len() <= i32::MAX - 12,
        find_player(old(room)@.players, actor@) matches Some(i) ==> i32::MIN <= old(room)@.players[i].score
            + nonstop_points(old(room)@.current_game, old(room)@.players[i]) <= i32::MAX,
    ensures
        final(room).wf(),
        r == find_player(old(room)@.players, actor@) is Some,
        final(room)@ == nonstop_recorded(old(room)@, actor@, is_big_win),
{
    let idx = match find_player_index(&room.players, actor) {
        Some(i) => i,
        None => {
            proof { reveal(nonstop_recorded); }
            return false;
        },
    };
    let ghost i = idx as int;
    let ghost r0 = room@;
    let ghost p = r0.players[i];
    assert(players_view(room.players@)[i] == room.players@[i]@);
    let sr = nonstop_points_for(&room.current_game, &room.players[idx]);
    let score = sr.total_score;
    let ghost before = players_view(room.players@);
    room.players[idx].score = room.players[idx].score + score;
    assert(players_view(room.players@) =~= before.update(i, PlayerModel { score: (p.score + score) as i32, ..p }));
    let name = room.players[idx].username.clone();
    let team: Option<String> = match &room.players[idx].team {
        Some(x) => Some(x.clone()),
        None => None,
    };
    assert(crate::settings::opt_text(team) == p.team);
    match &mut room.current_game {
        None => {},
        Some(game) => {
            let ghost g0 = game@;
            game.nonstop_winners.push(NonstopWinner {
                id: actor.to_string(),
                username: name,
                is_big_win,
                team,
                score,
                bonuses: NonstopWinnerBonuses { big_win: sr.bonuses.big_win, quick_guess: sr.bonuses.quick_guess },
            });
            assert(winners_view(game.nonstop_winners@) =~= g0.nonstop_winners.push(game.nonstop_winners@.last()@));
        },
    }
    proof { reveal(nonstop_recorded); }
    true
}

} // verus!
