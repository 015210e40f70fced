//! Per-player score changes shown at the end of a round.
use vstd::prelude::*;
use crate::gameplay::marks::{
    big_win_text, dead_text, is_big_winning, player_is_big_winner, player_result, surrender_text,
    team_win_text, win_text, RESULT_BIG_WIN, RESULT_DEAD, RESULT_SURRENDER, RESULT_TEAM_WIN,
    RESULT_WIN, lemma_mark_texts,
};
use crate::gameplay::rules::{find_player, find_player_index, is_spectator, is_spectator_team};
use crate::gameplay::scoring::ScoreResult;
use crate::keyed::{IdSet, TextMap};
use crate::state::{NonstopWinner, NonstopWinnerModel, Player, PlayerModel, players_view};
use crate::text::text_eq;

verus! {

#[derive(Clone, Copy)]
pub struct ScoreBreakdown {
    pub rank: Option<i32>,
    pub base: Option<i32>,
    pub big_win: Option<i32>,
    pub quick_guess: Option<i32>,
    pub partial: Option<i32>,
}

pub open spec fn empty_breakdown() -> ScoreBreakdown {
    ScoreBreakdown { rank: None, base: None, big_win: None, quick_guess: None, partial: None }
}

pub struct ScoreChange {
    pub score: i32,
    pub breakdown: ScoreBreakdown,
    pub result: String,
}

pub struct ScoreChangeModel {
    pub score: i32,
    pub breakdown: ScoreBreakdown,
    pub result: Seq<char>,
}

impl View for ScoreChange {
    type V = ScoreChangeModel;

    open spec fn view(&self) -> ScoreChangeModel {
        ScoreChangeModel { score: self.score, breakdown: self.breakdown, result: self.result@ }
    }
}

pub open spec fn changes_view(m: Map<Seq<char>, ScoreChange>) -> Map<Seq<char>, ScoreChangeModel> {
    m.map_values(|c: ScoreChange| c@)
}

/// The label of a round result in the score details.
pub open spec fn result_label(r: Option<Seq<char>>) -> Seq<char> {
    if r == Some(big_win_text()) {
        seq!['b', 'i', 'g', 'w', 'i', 'n']
    } else if r == Some(win_text()) {
        seq!['w', 'i', 'n']
    } else if r == Some(team_win_text()) {
        seq!['t', 'e', 'a', 'm', 'w', 'i', 'n']
    } else if r == Some(dead_text()) {
        seq!['l', 'o', 's', 'e']
    } else if r == Some(surrender_text()) {
        seq!['s', 'u', 'r', 'r', 'e', 'n', 'd', 'e', 'r']
    } else {
        Seq::empty()
    }
}

pub fn score_result_label(player: &Player) -> (r: &'static str)
    ensures
        r@ == result_label(player@.round_result),
{
    proof {
        lemma_mark_texts();
        reveal_strlit("bigwin");
        reveal_strlit("win");
        reveal_strlit("teamwin");
        reveal_strlit("lose");
        reveal_strlit("surrender");
        reveal_strlit("");
    }
    let r = match player_result(player) {
        Some(s) => {
            if text_eq(s, RESULT_BIG_WIN) {
                "bigwin"
            } else if text_eq(s, RESULT_WIN) {
                "win"
            } else if text_eq(s, RESULT_TEAM_WIN) {
                "teamwin"
            } else if text_eq(s, RESULT_DEAD) {
                "lose"
            } else if text_eq(s, RESULT_SURRENDER) {
                "surrender"
            } else {
                ""
            }
        },
        None => "",
    };
    assert(r@ =~= result_label(player@.round_result));
    r
}

/// Players that get a score line: everyone but the answer setter, spectators only while they
/// watch as temporary observers.
pub open spec fn scored_player(p: PlayerModel) -> bool {
    !p.is_answer_setter && (!is_spectator_team(p.team) || p.temp_observer)
}

/// The score line of a player that did not win: 1 for the partial-correct award, else 0.
pub open spec fn non_winner_change(p: PlayerModel, awardees: Set<Seq<char>>) -> ScoreChangeModel {
    let has_partial = awardees.contains(p.id);
    ScoreChangeModel {
        score: if has_partial { 1 } else { 0 },
        breakdown: ScoreBreakdown { partial: if has_partial { Some(1) } else { None }, ..empty_breakdown() },
        result: result_label(p.round_result),
    }
}

/// The score line of a winner of a standard round.
pub open spec fn standard_winner_change(p: PlayerModel, results: Map<Seq<char>, ScoreResult>) -> ScoreChangeModel {
    let has = results.dom().contains(p.id);
    ScoreChangeModel {
        score: if has { results[p.id].total_score } else { 0 },
        breakdown: ScoreBreakdown {
            base: Some(2),
            big_win: Some(if has { results[p.id].bonuses.big_win } else { 0 }),
            quick_guess: Some(if has { results[p.id].bonuses.quick_guess } else { 0 }),
            ..empty_breakdown()
        },
        result: result_label(p.round_result),
    }
}

/// Score lines of a standard round, player by player (a later player with the same id wins).
pub open spec fn standard_changes(ps: Seq<PlayerModel>, winners: Set<Seq<char>>, results: Map<Seq<char>, ScoreResult>, awardees: Set<Seq<char>>) -> Map<Seq<char>, ScoreChangeModel>
    decreases ps.len(),
{
    if ps.len() == 0 {
        Map::empty()
    } else {
        let m = standard_changes(ps.drop_last(), winners, results, awardees);
        let p = ps.last();
        if scored_player(p) {
            m.insert(p.id, if winners.contains(p.id) { standard_winner_change(p, results) } else { non_winner_change(p, awardees) })
        } else {
            m
        }
    }
}

pub open spec fn id_set(ps: Seq<PlayerModel>) -> Set<Seq<char>> {
    Set::new(|id: Seq<char>| exists|i: int| 0 <= i < ps.len() && ps[i].id == id)
}

fn contains_player_id(ps: &Vec<Player>, id: &str) -> (r: bool)
    ensures
        r == id_set(players_view(ps@)).contains(id@),
{
    match find_player_index(ps, id) {
        Some(i) => {
            proof { crate::gameplay::rules::lemma_find_player_result(players_view(ps@), id@); }
            assert(players_view(ps@)[i as int].id == id@);
            true
        },
        None => {
            proof {
                if id_set(players_view(ps@)).contains(id@) {
                    let k = choose|k: int| 0 <= k < players_view(ps@).len() && players_view(ps@)[k].id == id@;
                    assert(find_player(players_view(ps@), id@) is Some);
                }
            }
            false
        },
    }
}

fn scored(p: &Player) -> (r: bool)
    ensures
        r == scored_player(p@),
{
    !p.is_answer_setter && (!is_spectator(&p.team) || p.temp_observer)
}

fn non_winner_line(p: &Player, awardees: &IdSet) -> (r: ScoreChange)
    ensures
        r@ == non_winner_change(p@, awardees@),
{
    let has_partial = awardees.contains(p.id.as_str());
    let label = score_result_label(p);
    ScoreChange {
        score: if has_partial { 1 } else { 0 },
        breakdown: ScoreBreakdown {
            rank: None,
            base: None,
            big_win: None,
            quick_guess: None,
            partial: if has_partial { Some(1) } else { None },
        },
        result: label.to_string(),
    }
}

pub fn build_score_changes_standard(
    players: &Vec<Player>,
    actual_winners: &Vec<Player>,
    winner_score_results: &TextMap<ScoreResult>,
    partial_awardees: &IdSet,
) -> (r: TextMap<ScoreChange>)
    requires
        winner_score_results.wf(),
    ensures
        r.wf(),
        changes_view(r@) == standard_changes(players_view(players@), id_set(players_view(actual_winners@)),
            winner_score_results@, partial_awardees@),
{
    let ghost ps = players_view(players@);
    let ghost winners = id_set(players_view(actual_winners@));
    let mut out: TextMap<ScoreChange> = TextMap::new();
    let mut i: usize = 0;
    assert(changes_view(out@) =~= standard_changes(ps.take(0), winners, winner_score_results@, partial_awardees@));
    while i < players.len()
        invariant
            i <= players@.len(),
            ps == players_view(players@),
            winners == id_set(players_view(actual_winners@)),
            winner_score_results.wf(),
            out.wf(),
            changes_view(out@) == standard_changes(ps.take(i as int), winners, winner_score_results@, partial_awardees@),
        decreases players@.len() - i,
    {
        let p = &players[i];
        assert(ps.take(i + 1).drop_last() =~= ps.take(i as int));
        assert(ps.take(i + 1).last() == p@);
        if scored(p) {
            let line = if contains_player_id(actual_winners, p.id.as_str()) {
                let label = score_result_label(p);
                let (score, big_bonus, quick_bonus) = match winner_score_results.get(p.id.as_str()) {
                    Some(res) => (res.total_score, res.bonuses.big_win, res.bonuses.quick_guess),
                    None => (0, 0, 0),
                };
                ScoreChange {
                    score,
                    breakdown: ScoreBreakdown {
                        rank: None,
                        base: Some(2),
                        big_win: Some(big_bonus),
                        quick_guess: Some(quick_bonus),
                        partial: None,
                    },
                    result: label.to_string(),
                }
            } else {
                non_winner_line(p, partial_awardees)
            };
            let ghost lv = line@;
            assert(lv == (if winners.contains(p@.id) { standard_winner_change(p@, winner_score_results@) } else { non_winner_change(p@, partial_awardees@) }));
            out.insert(p.id.clone(), line);
            assert(changes_view(out@) =~= standard_changes(ps.take(i as int), winners, winner_score_results@, partial_awardees@).insert(p@.id, lv));
        }
        i = i + 1;
    }
    assert(ps.take(ps.len() as int) =~= ps);
    out
}

/// The score line of the winner at rank `rank` (from 1) of a non-stop round.
pub open spec fn nonstop_winner_change(w: NonstopWinnerModel, rank: int, big: bool) -> ScoreChangeModel {
    let big_win_bonus: int = if w.bonuses.big_win == 0 && big { 12 } else { w.bonuses.big_win as int };
    let quick: int = w.bonuses.quick_guess as int;
    let base: int = if w.score - big_win_bonus - quick > 0 { w.score - big_win_bonus - quick } else { 0 };
    ScoreChangeModel {
        score: w.score,
        breakdown: ScoreBreakdown {
            rank: Some(rank as i32),
            base: Some(base as i32),
            big_win: if big_win_bonus != 0 { Some(big_win_bonus as i32) } else { None },
            quick_guess: if quick != 0 { Some(quick as i32) } else { None },
            ..empty_breakdown()
        },
        result: if big { seq!['b', 'i', 'g', 'w', 'i', 'n'] } else { seq!['w', 'i', 'n'] },
    }
}

/// Whether the first player with the winner's id has a big-win result.
pub open spec fn winner_is_big(ps: Seq<PlayerModel>, id: Seq<char>) -> bool {
    match find_player(ps, id) {
        Some(k) => is_big_winning(ps[k].round_result),
        None => false,
    }
}

pub open spec fn winner_changes(ps: Seq<PlayerModel>, ws: Seq<NonstopWinnerModel>) -> Map<Seq<char>, ScoreChangeModel>
    decreases ws.len(),
{
    if ws.len() == 0 {
        Map::empty()
    } else {
        let w = ws.last();
        winner_changes(ps, ws.drop_last()).insert(w.id, nonstop_winner_change(w, ws.len() as int, winner_is_big(ps, w.id)))
    }
}

pub open spec fn winner_id_set(ws: Seq<NonstopWinnerModel>) -> Set<Seq<char>> {
    Set::new(|id: Seq<char>| exists|i: int| 0 <= i < ws.len() && ws[i].id == id)
}

pub open spec fn other_changes(m: Map<Seq<char>, ScoreChangeModel>, ps: Seq<PlayerModel>, winners: Set<Seq<char>>, awardees: Set<Seq<char>>) -> Map<Seq<char>, ScoreChangeModel>
    decreases ps.len(),
{
    if ps.len() == 0 {
        m
    } else {
        let prev = other_changes(m, ps.drop_last(), winners, awardees);
        let p = ps.last();
        if scored_player(p) && !winners.contains(p.id) { prev.insert(p.id, non_winner_change(p, awardees)) } else { prev }
    }
}

/// Score lines of a non-stop round: the winners by rank, then everyone else who gets a line.
pub open spec fn nonstop_changes(ps: Seq<PlayerModel>, ws: Seq<NonstopWinnerModel>, awardees: Set<Seq<char>>) -> Map<Seq<char>, ScoreChangeModel> {
    other_changes(winner_changes(ps, ws), ps, winner_id_set(ws), awardees)
}

fn win_label(big: bool) -> (r: &'static str)
    ensures
        r@ == (if big { seq!['b', 'i', 'g', 'w', 'i', 'n'] } else { seq!['w', 'i', 'n'] }),
{
    proof {
        reveal_strlit("bigwin");
        reveal_strlit("win");
    }
    let r = if big { "bigwin" } else { "win" };
    assert(r@ =~= (if big { seq!['b', 'i', 'g', 'w', 'i', 'n'] } else { seq!['w', 'i', 'n'] }));
    r
}

fn is_winner_id(ws: &Vec<NonstopWinner>, id: &str) -> (r: bool)
    ensures
        r == winner_id_set(ws@.map_values(|w: NonstopWinner| w@)).contains(id@),
{
    let ghost wv = ws@.map_values(|w: NonstopWinner| w@);
    let mut i: usize = 0;
    while i < ws.len()
        invariant
            i <= ws@.len(),
            wv == ws@.map_values(|w: NonstopWinner| w@),
            forall|j: int| 0 <= j < i ==> wv[j].id != id@,
        decreases ws@.len() - i,
    {
        if text_eq(ws[i].id.as_str(), id) {
            assert(wv[i as int].id == id@);
            return true;
        }
        i = i + 1;
    }
    false
}

pub fn build_score_changes_nonstop(
    players: &Vec<Player>,
    nonstop_winners: &Vec<NonstopWinner>,
    partial_awardees: &IdSet,
) -> (r: TextMap<ScoreChange>)
    requires
        forall|i: int| 0 <= i < nonstop_winners@.len() ==> #[trigger] nonstop_winners@[i].score - nonstop_winners@[i].bonuses.big_win
            - nonstop_winners@[i].bonuses.quick_guess <= i32::MAX && nonstop_winners@[i].bonuses.big_win as int
            + nonstop_winners@[i].bonuses.quick_guess as int <= i32::MAX,
        nonstop_winners@.len() < i32::MAX,
    ensures
        r.wf(),
        changes_view(r@) == nonstop_changes(players_view(players@), nonstop_winners@.map_values(|w: NonstopWinner| w@), partial_awardees@),
{
    let ghost ps = players_view(players@);
    let ghost wv = nonstop_winners@.map_values(|w: NonstopWinner| w@);
    let mut out: TextMap<ScoreChange> = TextMap::new();
    let mut k: usize = 0;
    assert(changes_view(out@) =~= winner_changes(ps, wv.take(0)));
    while k < nonstop_winners.len()
        invariant
            k <= nonstop_winners@.len(),
            nonstop_winners@.len() < i32::MAX,
            wv == nonstop_winners@.map_values(|w: NonstopWinner| w@),
            ps == players_view(players@),
            forall|i: int| 0 <= i < nonstop_winners@.len() ==> #[trigger] nonstop_winners@[i].score - nonstop_winners@[i].bonuses.big_win
                - nonstop_winners@[i].bonuses.quick_guess <= i32::MAX && nonstop_winners@[i].bonuses.big_win as int
                + nonstop_winners@[i].bonuses.quick_guess as int <= i32::MAX,
            out.wf(),
            changes_view(out@) == winner_changes(ps, wv.take(k as int)),
        decreases nonstop_winners@.len() - k,
    {
        let w = &nonstop_winners[k];
        assert(wv.take(k + 1).drop_last() =~= wv.take(k as int));
        assert(wv.take(k + 1).last() == w@);
        let is_big_win = match find_player_index(players, w.id.as_str()) {
            Some(j) => {
                assert(ps[j as int] == players@[j as int]@);
                player_is_big_winner(&players[j])
            },
            None => false,
        };
        let big_win_bonus: i32 = if w.bonuses.big_win == 0 && is_big_win { 12 } else { w.bonuses.big_win };
        let quick_guess_bonus = w.bonuses.quick_guess;
        let score = w.score;
        let raw: i64 = score as i64 - big_win_bonus as i64 - quick_guess_bonus as i64;
        let base_score: i32 = if raw > 0 { raw as i32 } else { 0 };
        let line = ScoreChange {
            score,
            breakdown: ScoreBreakdown {
                rank: Some((k + 1) as i32),
                base: Some(base_score),
                big_win: if big_win_bonus != 0 { Some(big_win_bonus) } else { None },
                quick_guess: if quick_guess_bonus != 0 { Some(quick_guess_bonus) } else { None },
                partial: None,
            },
            result: win_label(is_big_win).to_string(),
        };
        let ghost lv = line@;
        proof { crate::gameplay::rules::lemma_find_player_result(ps, w@.id); }
        assert(is_big_win == winner_is_big(ps, w@.id));
        let ghost spec_line = nonstop_winner_change(w@, (k + 1) as int, winner_is_big(ps, w@.id));
        assert(lv.score == spec_line.score);
        assert(lv.breakdown == spec_line.breakdown);
        assert(lv.result == spec_line.result);
        assert(lv == spec_line);
        out.insert(w.id.clone(), line);
        assert(changes_view(out@) =~= winner_changes(ps, wv.take(k as int)).insert(w@.id, lv));
        k = k + 1;
    }
    assert(wv.take(wv.len() as int) =~= wv);
    let ghost base_map = changes_view(out@);
    let ghost winners = winner_id_set(wv);
    let mut i: usize = 0;
    assert(ps.take(0) =~= Seq::<PlayerModel>::empty());
    while i < players.len()
        invariant
            i <= players@.len(),
            wv == nonstop_winners@.map_values(|w: NonstopWinner| w@),
            ps == players_view(players@),
            winners == winner_id_set(wv),
            out.wf(),
            changes_view(out@) == other_changes(base_map, ps.take(i as int), winners, partial_awardees@),
        decreases players@.len() - i,
    {
        let p = &players[i];
        assert(ps.take(i + 1).drop_last() =~= ps.take(i as int));
        assert(ps.take(i + 1).last() == p@);
        if scored(p) && !is_winner_id(nonstop_winners, p.id.as_str()) {
            let line = non_winner_line(p, partial_awardees);
            let ghost lv = line@;
            out.insert(p.id.clone(), line);
            assert(changes_view(out@) =~= other_changes(base_map, ps.take(i as int), winners, partial_awardees@).insert(p@.id, lv));
        }
        i = i + 1;
    }
    assert(ps.take(ps.len() as int) =~= ps);
    out
}

} // verus!
