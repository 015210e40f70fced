//! Attempt marks and round results of players and teams.
use vstd::prelude::*;
use crate::keyed::{marks_of, texts};
use crate::state::{CurrentGame, GameModel, Player, PlayerModel};
use crate::text::text_eq;

verus! {

pub const ATTEMPT_TIMEOUT: &'static str = "timeout";
pub const ATTEMPT_PARTIAL: &'static str = "partial";
pub const ATTEMPT_CORRECT: &'static str = "correct";
pub const ATTEMPT_WRONG: &'static str = "wrong";

pub const RESULT_WIN: &'static str = "win";
pub const RESULT_BIG_WIN: &'static str = "bigWin";
pub const RESULT_DEAD: &'static str = "dead";
pub const RESULT_SURRENDER: &'static str = "surrender";
pub const RESULT_TEAM_WIN: &'static str = "teamWin";

pub open spec fn timeout_text() -> Seq<char> { seq!['t', 'i', 'm', 'e', 'o', 'u', 't'] }
pub open spec fn partial_text() -> Seq<char> { seq!['p', 'a', 'r', 't', 'i', 'a', 'l'] }
pub open spec fn correct_text() -> Seq<char> { seq!['c', 'o', 'r', 'r', 'e', 'c', 't'] }
pub open spec fn wrong_text() -> Seq<char> { seq!['w', 'r', 'o', 'n', 'g'] }
pub open spec fn win_text() -> Seq<char> { seq!['w', 'i', 'n'] }
pub open spec fn big_win_text() -> Seq<char> { seq!['b', 'i', 'g', 'W', 'i', 'n'] }
pub open spec fn dead_text() -> Seq<char> { seq!['d', 'e', 'a', 'd'] }
pub open spec fn surrender_text() -> Seq<char> { seq!['s', 'u', 'r', 'r', 'e', 'n', 'd', 'e', 'r'] }
pub open spec fn team_win_text() -> Seq<char> { seq!['t', 'e', 'a', 'm', 'W', 'i', 'n'] }

/// The mark and result literals hold the texts that the spec functions above name.
pub proof fn lemma_mark_texts()
    ensures
        ATTEMPT_TIMEOUT@ == timeout_text(),
        ATTEMPT_PARTIAL@ == partial_text(),
        ATTEMPT_CORRECT@ == correct_text(),
        ATTEMPT_WRONG@ == wrong_text(),
        RESULT_WIN@ == win_text(),
        RESULT_BIG_WIN@ == big_win_text(),
        RESULT_DEAD@ == dead_text(),
        RESULT_SURRENDER@ == surrender_text(),
        RESULT_TEAM_WIN@ == team_win_text(),
{
    reveal_strlit("timeout");
    reveal_strlit("partial");
    reveal_strlit("correct");
    reveal_strlit("wrong");
    reveal_strlit("win");
    reveal_strlit("bigWin");
    reveal_strlit("dead");
    reveal_strlit("surrender");
    reveal_strlit("teamWin");
    assert(ATTEMPT_TIMEOUT@ =~= timeout_text());
    assert(ATTEMPT_PARTIAL@ =~= partial_text());
    assert(ATTEMPT_CORRECT@ =~= correct_text());
    assert(ATTEMPT_WRONG@ =~= wrong_text());
    assert(RESULT_WIN@ =~= win_text());
    assert(RESULT_BIG_WIN@ =~= big_win_text());
    assert(RESULT_DEAD@ =~= dead_text());
    assert(RESULT_SURRENDER@ =~= surrender_text());
    assert(RESULT_TEAM_WIN@ =~= team_win_text());
}

/// A round result that counts as winning: a win, a big win or a team win.
pub open spec fn is_winning(r: Option<Seq<char>>) -> bool {
    r matches Some(s) && (s == win_text() || s == big_win_text() || s == team_win_text())
}

pub open spec fn is_big_winning(r: Option<Seq<char>>) -> bool {
    r == Some(big_win_text())
}

pub fn player_attempt_count(player: &Player) -> (r: usize)
    ensures
        r == player@.attempt_marks.len(),
{
    player.attempt_marks.len()
}

pub fn player_has_result(player: &Player) -> (r: bool)
    ensures
        r == player@.round_result is Some,
{
    player.round_result.is_some()
}

pub fn player_is_winner(player: &Player) -> (r: bool)
    ensures
        r == is_winning(player@.round_result),
{
    proof { lemma_mark_texts(); }
    match &player.round_result {
        Some(s) => text_eq(s.as_str(), RESULT_WIN) || text_eq(s.as_str(), RESULT_BIG_WIN)
            || text_eq(s.as_str(), RESULT_TEAM_WIN),
        None => false,
    }
}

pub fn player_is_big_winner(player: &Player) -> (r: bool)
    ensures
        r == is_big_winning(player@.round_result),
{
    proof { lemma_mark_texts(); }
    match &player.round_result {
        Some(s) => text_eq(s.as_str(), RESULT_BIG_WIN),
        None => false,
    }
}

pub fn player_result(player: &Player) -> (r: Option<&str>)
    ensures
        match r {
            Some(s) => player@.round_result == Some(s@),
            None => player@.round_result is None,
        },
{
    match &player.round_result {
        Some(s) => Some(s.as_str()),
        None => None,
    }
}

pub fn set_player_result(player: &mut Player, result: &str)
    ensures
        final(player)@ == (PlayerModel { round_result: Some(result@), ..old(player)@ }),
{
    player.round_result = Some(result.to_string());
}

pub fn clear_player_result(player: &mut Player)
    ensures
        final(player)@ == (PlayerModel { round_result: None, ..old(player)@ }),
{
    player.round_result = None;
}

pub fn push_player_attempt(player: &mut Player, mark: &str)
    ensures
        final(player)@ == (PlayerModel {
            attempt_marks: old(player)@.attempt_marks.push(mark@),
            ..old(player)@
        }),
{
    player.attempt_marks.push(mark.to_string());
    assert(texts(player.attempt_marks@) =~= texts(old(player).attempt_marks@).push(mark@));
}

pub fn team_attempt_count(game: &CurrentGame, team_id: &str) -> (r: usize)
    requires
        game.wf(),
    ensures
        r == marks_of(game@.team_attempt_marks, team_id@).len(),
{
    game.team_attempt_marks.count(team_id)
}

pub fn team_has_result(game: &CurrentGame, team_id: &str) -> (r: bool)
    requires
        game.wf(),
    ensures
        r == game@.team_round_results.dom().contains(team_id@),
{
    game.team_round_results.contains_key(team_id)
}

pub fn push_team_attempt(game: &mut CurrentGame, team_id: &str, mark: &str)
    requires
        old(game).wf(),
    ensures
        final(game).wf(),
        final(game)@ == (GameModel {
            team_attempt_marks: old(game)@.team_attempt_marks.insert(
                team_id@,
                marks_of(old(game)@.team_attempt_marks, team_id@).push(mark@),
            ),
            ..old(game)@
        }),
{
    game.team_attempt_marks.push(team_id, mark.to_string());
}

pub fn set_team_result(game: &mut CurrentGame, team_id: &str, result: &str)
    requires
        old(game).wf(),
    ensures
        final(game).wf(),
        final(game)@ == (GameModel {
            team_round_results: old(game)@.team_round_results.insert(team_id@, result@),
            ..old(game)@
        }),
{
    game.team_round_results.insert(team_id, result.to_string());
}

pub fn clear_team_result(game: &mut CurrentGame, team_id: &str)
    requires
        old(game).wf(),
    ensures
        final(game).wf(),
        final(game)@ == (GameModel {
            team_round_results: old(game)@.team_round_results.remove(team_id@),
            ..old(game)@
        }),
{
    game.team_round_results.remove(team_id);
}

} // verus!
