//! Who wins a standard round, and the points the winners, partial guessers and setter get.
use vstd::prelude::*;
use crate::gameplay::marks::{
    RESULT_BIG_WIN, big_win_text, is_big_winning, is_winning, lemma_mark_texts, player_is_big_winner,
    player_is_winner,
};
use crate::gameplay::rules::{find_player, find_player_index, is_spectator, is_spectator_team, lemma_find_player_result, score_plus, add_score};
use crate::gameplay::scores::scored_player;
use crate::gameplay::scoring::{ScoreBonuses, ScoreResult, quick_guess_bonus, winner_score, winner_total};
use crate::keyed::{IdSet, TextMap};
use crate::state::{Player, PlayerModel, WinnerMarker, WinnerMarkerModel, avatar_key, opt_marker, players_view};
use crate::text::{decimal_text, i64_to_text, text_eq};
use crate::gameplay::details::{DetailModel, details_view, generate_score_details, score_details};
use crate::gameplay::events::{EventKind, RoomEvent, SetterDetail, SetterField, kinds};
use crate::gameplay::partial::{compute_partial_awardees_from_guess_history_guesses, earliest_partial, first_partial};
use crate::gameplay::scores::{build_score_changes_standard, changes_view, id_set, standard_changes};
use crate::gameplay::scoring::{setter_score, setter_score_value};
use crate::gameplay::standard_flow::{any_observer, players_snapshot, revert_setter_observers, setter_reason, setter_score_reason};
use crate::gameplay::tagban::{merge_entries, merge_pending_tag_bans};
use crate::settings::{nonstop_on, settings_nonstop, settings_sync, sync_on};
use crate::state::{GameModel, Room, RoomModel, histories_view, tag_bans_snapshot, tag_bans_view};

verus! {

/// What a search for a player looks for among the players that get a score line.
pub enum Pick {
    ById(Seq<char>),
    BigWinner,
    Winner,
    AvatarWinner(Seq<char>),
}

pub open spec fn picks(p: PlayerModel, k: Pick) -> bool {
    scored_player(p) && match k {
        Pick::ById(id) => p.id == id,
        Pick::BigWinner => is_big_winning(p.round_result),
        Pick::Winner => is_winning(p.round_result),
        Pick::AvatarWinner(key) => is_winning(p.round_result) && (p.avatar_id matches Some(a) && avatar_key(a) == key),
    }
}

/// Position of the first player the search finds.
#[verifier::opaque]
pub open spec fn first_pick(ps: Seq<PlayerModel>, k: Pick) -> Option<int> {
    if exists|i: int| 0 <= i < ps.len() && #[trigger] picks(ps[i], k) {
        Some(choose|i: int| 0 <= i < ps.len() && #[trigger] picks(ps[i], k) && forall|j: int| 0 <= j < i ==> !picks(ps[j], k))
    } else {
        None
    }
}

pub open spec fn or_pick(a: Option<int>, b: Option<int>) -> Option<int> {
    if a is Some { a } else { b }
}

/// The winner of a round that is not synchronised: a big winner first (the first winner if it
/// won big, else the first big winner), then a winner whose avatar is the answer (counted as a
/// big win), then the first winner or else the first player with a winning result.
pub open spec fn standard_pick(ps: Seq<PlayerModel>, fw: Option<WinnerMarkerModel>, answer_key: Seq<char>) -> Option<PlayerModel> {
    let big_i = if fw is Some && fw->0.is_big_win {
        or_pick(first_pick(ps, Pick::ById(fw->0.id)), first_pick(ps, Pick::BigWinner))
    } else {
        first_pick(ps, Pick::BigWinner)
    };
    if big_i is Some {
        Some(ps[big_i->0])
    } else if first_pick(ps, Pick::AvatarWinner(answer_key)) is Some {
        Some(PlayerModel { round_result: Some(big_win_text()), ..ps[first_pick(ps, Pick::AvatarWinner(answer_key))->0] })
    } else {
        let w_i = if fw is Some && !fw->0.is_big_win {
            or_pick(first_pick(ps, Pick::ById(fw->0.id)), first_pick(ps, Pick::Winner))
        } else {
            first_pick(ps, Pick::Winner)
        };
        if w_i is Some { Some(ps[w_i->0]) } else { None }
    }
}

/// The players with a score line and a winning result, in order.
pub open spec fn sync_winners(ps: Seq<PlayerModel>) -> Seq<PlayerModel>
    decreases ps.len(),
{
    if ps.len() == 0 {
        Seq::empty()
    } else {
        let prev = sync_winners(ps.drop_last());
        if picks(ps.last(), Pick::Winner) { prev.push(ps.last()) } else { prev }
    }
}

/// The winners of the round: in a synchronised round all players with a winning result,
/// otherwise the one `standard_pick` gives, if any.
pub open spec fn round_winners(ps: Seq<PlayerModel>, sync: bool, fw: Option<WinnerMarkerModel>, answer_id: i64) -> Seq<PlayerModel> {
    if sync {
        sync_winners(ps)
    } else {
        match standard_pick(ps, fw, decimal_text(answer_id as int)) {
            Some(w) => seq![w],
            None => Seq::empty(),
        }
    }
}

pub enum PickKey<'a> {
    ById(&'a str),
    BigWinner,
    Winner,
    AvatarWinner(&'a str),
}

pub open spec fn key_view(k: PickKey) -> Pick {
    match k {
        PickKey::ById(s) => Pick::ById(s@),
        PickKey::BigWinner => Pick::BigWinner,
        PickKey::Winner => Pick::Winner,
        PickKey::AvatarWinner(s) => Pick::AvatarWinner(s@),
    }
}

fn scored(p: &Player) -> (r: bool)
    ensures
        r == scored_player(p@),
{
    !p.is_answer_setter && (!is_spectator(&p.team) || p.temp_observer)
}

fn is_pick(p: &Player, k: &PickKey) -> (r: bool)
    ensures
        r == picks(p@, key_view(*k)),
{
    if !scored(p) {
        return false;
    }
    match k {
        PickKey::ById(id) => text_eq(p.id.as_str(), id),
        PickKey::BigWinner => player_is_big_winner(p),
        PickKey::Winner => player_is_winner(p),
        PickKey::AvatarWinner(key) => {
            if !player_is_winner(p) {
                return false;
            }
            match &p.avatar_id {
                Some(a) => {
                    let s = a.as_key_string();
                    text_eq(s.as_str(), key)
                },
                None => false,
            }
        },
    }
}

/// Position of the first player the search finds (see `first_pick`).
pub fn find_pick(players: &Vec<Player>, k: &PickKey) -> (r: Option<usize>)
    ensures
        match r {
            Some(i) => i < players@.len() && first_pick(players_view(players@), key_view(*k)) == Some(i as int),
            None => first_pick(players_view(players@), key_view(*k)) is None,
        },
{
    let ghost ps = players_view(players@);
    let ghost kv = key_view(*k);
    let mut i: usize = 0;
    while i < players.len()
        invariant
            i <= players@.len(),
            ps == players_view(players@),
            kv == key_view(*k),
            forall|j: int| 0 <= j < i ==> !picks(ps[j], kv),
        decreases players@.len() - i,
    {
        if is_pick(&players[i], k) {
            proof {
                reveal(first_pick);
                assert(picks(ps[i as int], kv));
                let c = choose|c: int| 0 <= c < ps.len() && #[trigger] picks(ps[c], kv) && forall|j: int| 0 <= j < c ==> !picks(ps[j], kv);
                assert(c == i as int) by {
                    if c < i { assert(!picks(ps[c], kv)); }
                    if c > i { assert(!picks(ps[i as int], kv)); }
                }
                assert(first_pick(ps, kv) == Some(i as int));
            }
            return Some(i);
        }
        i = i + 1;
    }
    proof { reveal(first_pick); }
    None
}

pub fn opt_pick_first(a: Option<usize>, b: Option<usize>) -> (r: Option<usize>)
    ensures
        r == (if a is Some { a } else { b }),
{
    match a {
        Some(_) => a,
        None => b,
    }
}

pub open spec fn opt_index(o: Option<usize>) -> Option<int> {
    match o {
        Some(i) => Some(i as int),
        None => None,
    }
}

/// The winner of a round that is not synchronised (see `standard_pick`).
#[verifier::rlimit(40)]
pub fn pick_standard_winner(players: &Vec<Player>, first_winner: &Option<WinnerMarker>, answer_id: i64) -> (r: Option<Player>)
    ensures
        match r {
            Some(w) => standard_pick(players_view(players@), opt_marker(*first_winner), decimal_text(answer_id as int)) == Some(w@),
            None => standard_pick(players_view(players@), opt_marker(*first_winner), decimal_text(answer_id as int)) is None,
        },
{
    let ghost ps = players_view(players@);
    let big_fw = match first_winner {
        Some(fw) => fw.is_big_win,
        None => false,
    };
    let big_i = if big_fw {
        let fw_id = match first_winner {
            Some(fw) => fw.id.as_str(),
            None => "",
        };
        let a = find_pick(players, &PickKey::ById(fw_id));
        let b = find_pick(players, &PickKey::BigWinner);
        opt_pick_first(a, b)
    } else {
        find_pick(players, &PickKey::BigWinner)
    };
    match big_i {
        Some(i) => {
            return Some(players[i].duplicate());
        },
        None => {},
    }
    let key = i64_to_text(answer_id);
    match find_pick(players, &PickKey::AvatarWinner(key.as_str())) {
        Some(i) => {
            let mut w = players[i].duplicate();
            proof { lemma_mark_texts(); }
            w.round_result = Some(RESULT_BIG_WIN.to_string());
            return Some(w);
        },
        None => {},
    }
    let plain_fw = match first_winner {
        Some(fw) => !fw.is_big_win,
        None => false,
    };
    let w_i = if plain_fw {
        let fw_id = match first_winner {
            Some(fw) => fw.id.as_str(),
            None => "",
        };
        let a = find_pick(players, &PickKey::ById(fw_id));
        let b = find_pick(players, &PickKey::Winner);
        opt_pick_first(a, b)
    } else {
        find_pick(players, &PickKey::Winner)
    };
    match w_i {
        Some(i) => Some(players[i].duplicate()),
        None => None,
    }
}

/// The winners of the round (see `round_winners`).
pub fn select_winners(players: &Vec<Player>, sync: bool, first_winner: &Option<WinnerMarker>, answer_id: i64) -> (r: Vec<Player>)
    ensures
        players_view(r@) == round_winners(players_view(players@), sync, opt_marker(*first_winner), answer_id),
{
    let ghost ps = players_view(players@);
    let mut out: Vec<Player> = Vec::new();
    if sync {
        let mut i: usize = 0;
        while i < players.len()
            invariant
                i <= players@.len(),
                ps == players_view(players@),
                players_view(out@) == sync_winners(ps.take(i as int)),
            decreases players@.len() - i,
        {
            assert(ps.take(i + 1).drop_last() =~= ps.take(i as int));
            assert(ps.take(i + 1).last() == players@[i as int]@);
            if is_pick(&players[i], &PickKey::Winner) {
                let ghost before = players_view(out@);
                out.push(players[i].duplicate());
                assert(players_view(out@) =~= before.push(players@[i as int]@));
            }
            i = i + 1;
        }
        assert(ps.take(players@.len() as int) =~= ps);
    } else {
        match pick_standard_winner(players, first_winner, answer_id) {
            Some(w) => {
                out.push(w);
                assert(players_view(out@) =~= seq![out@[0]@]);
            },
            None => {
                assert(players_view(out@) =~= Seq::<PlayerModel>::empty());
            },
        }
    }
    out
}


/// A player's attempt count as the score formulas take it.
pub open spec fn attempts_i32(p: PlayerModel) -> i32 {
    p.attempt_marks.len() as i32
}

/// The score of a winner of a standard round (base 2).
pub open spec fn result_for(p: PlayerModel, rounds: i32) -> ScoreResult {
    let big = is_big_winning(p.round_result);
    ScoreResult {
        total_score: winner_total(attempts_i32(p) as int, big, 2, rounds as int) as i32,
        guess_count: attempts_i32(p),
        is_big_win: big,
        bonuses: ScoreBonuses {
            big_win: if big { 12 } else { 0 },
            quick_guess: if big { 0 } else { quick_guess_bonus(attempts_i32(p) as int, rounds as int) as i32 },
        },
    }
}

/// The winner whose guesses set the score: the first winner if among the winners, else the
/// first of them.
pub open spec fn primary_index(ws: Seq<PlayerModel>, fw: Option<WinnerMarkerModel>) -> Option<int> {
    let by_id = if fw is Some { first_pick(ws, Pick::ById(fw->0.id)) } else { None };
    or_pick(by_id, if ws.len() > 0 { Some(0int) } else { None })
}

/// `pts` added to the first player with id `id`.
pub open spec fn add_points(ps: Seq<PlayerModel>, id: Seq<char>, pts: i32) -> Seq<PlayerModel> {
    match find_player(ps, id) {
        Some(i) => ps.update(i, PlayerModel { score: score_plus(ps[i].score, pts), ..ps[i] }),
        None => ps,
    }
}

/// Every winner gets `pts` points.
pub open spec fn award_winners(ps: Seq<PlayerModel>, ws: Seq<PlayerModel>, pts: i32) -> Seq<PlayerModel>
    decreases ws.len(),
{
    if ws.len() == 0 {
        ps
    } else {
        add_points(award_winners(ps, ws.drop_last(), pts), ws.last().id, pts)
    }
}

/// The winners' score records, all equal to `res`.
pub open spec fn winner_results(ws: Seq<PlayerModel>, res: ScoreResult) -> Map<Seq<char>, ScoreResult>
    decreases ws.len(),
{
    if ws.len() == 0 {
        Map::empty()
    } else {
        winner_results(ws.drop_last(), res).insert(ws.last().id, res)
    }
}

/// The partial-correct point: one more for a guessing player that did not win and is awarded.
pub open spec fn partial_point(p: PlayerModel, winners: Set<Seq<char>>, awardees: Set<Seq<char>>) -> PlayerModel {
    if !p.is_answer_setter && !is_spectator_team(p.team) && !winners.contains(p.id) && awardees.contains(p.id) {
        PlayerModel { score: score_plus(p.score, 1), ..p }
    } else {
        p
    }
}

pub open spec fn award_partials(ps: Seq<PlayerModel>, winners: Set<Seq<char>>, awardees: Set<Seq<char>>) -> Seq<PlayerModel> {
    ps.map_values(|p: PlayerModel| partial_point(p, winners, awardees))
}

/// Whether every player with a score line has a result or has left.
pub open spec fn all_ended(ps: Seq<PlayerModel>) -> bool {
    forall|i: int| 0 <= i < ps.len() && #[trigger] scored_player(ps[i]) ==> ps[i].round_result is Some || ps[i].disconnected
}

pub fn players_all_ended(players: &Vec<Player>) -> (r: bool)
    ensures
        r == all_ended(players_view(players@)),
{
    let ghost ps = players_view(players@);
    let mut i: usize = 0;
    while i < players.len()
        invariant
            i <= players@.len(),
            ps == players_view(players@),
            forall|j: int| 0 <= j < i && #[trigger] scored_player(ps[j]) ==> ps[j].round_result is Some || ps[j].disconnected,
        decreases players@.len() - i,
    {
        let p = &players[i];
        if scored(p) && !crate::gameplay::marks::player_has_result(p) && !p.disconnected {
            assert(scored_player(ps[i as int]));
            return false;
        }
        i = i + 1;
    }
    true
}

/// Adds `pts` to each winner's score (see `award_winners`).
pub fn give_winner_points(players: &mut Vec<Player>, winners: &Vec<Player>, pts: i32)
    ensures
        players_view(final(players)@) == award_winners(players_view(old(players)@), players_view(winners@), pts),
        final(players)@.len() == old(players)@.len(),
{
    let ghost ws = players_view(winners@);
    let ghost ps0 = players_view(players@);
    let mut k: usize = 0;
    while k < winners.len()
        invariant
            k <= winners@.len(),
            ws == players_view(winners@),
            players_view(players@) == award_winners(ps0, ws.take(k as int), pts),
            players@.len() == ps0.len(),
        decreases winners@.len() - k,
    {
        assert(ws.take(k + 1).drop_last() =~= ws.take(k as int));
        assert(ws.take(k + 1).last() == winners@[k as int]@);
        let ghost before = players_view(players@);
        match find_player_index(players, winners[k].id.as_str()) {
            Some(i) => {
                let s = add_score(players[i].score, pts);
                players[i].score = s;
                assert(players_view(players@) =~= before.update(i as int, PlayerModel { score: score_plus(before[i as int].score, pts), ..before[i as int] }));
            },
            None => {},
        }
        k = k + 1;
    }
    assert(ws.take(winners@.len() as int) =~= ws);
}

/// Records `res` as the score of every winner.
pub fn results_of_winners(winners: &Vec<Player>, res: &ScoreResult) -> (r: TextMap<ScoreResult>)
    ensures
        r.wf(),
        r@ == winner_results(players_view(winners@), *res),
{
    let ghost ws = players_view(winners@);
    let mut out: TextMap<ScoreResult> = TextMap::new();
    let mut k: usize = 0;
    while k < winners.len()
        invariant
            k <= winners@.len(),
            ws == players_view(winners@),
            out.wf(),
            out@ == winner_results(ws.take(k as int), *res),
        decreases winners@.len() - k,
    {
        assert(ws.take(k + 1).drop_last() =~= ws.take(k as int));
        assert(ws.take(k + 1).last() == winners@[k as int]@);
        let copy = ScoreResult { total_score: res.total_score, guess_count: res.guess_count, is_big_win: res.is_big_win, bonuses: res.bonuses };
        out.insert(winners[k].id.clone(), copy);
        k = k + 1;
    }
    assert(ws.take(winners@.len() as int) =~= ws);
    out
}

/// Gives the partial-correct point (see `award_partials`).
pub fn give_partial_points(players: &mut Vec<Player>, winners: &IdSet, awardees: &IdSet)
    ensures
        players_view(final(players)@) == award_partials(players_view(old(players)@), winners@, awardees@),
        final(players)@.len() == old(players)@.len(),
{
    let ghost ps0 = players_view(players@);
    let mut i: usize = 0;
    while i < players.len()
        invariant
            i <= players@.len(),
            players@.len() == ps0.len(),
            forall|j: int| 0 <= j < i ==> #[trigger] players@[j]@ == partial_point(ps0[j], winners@, awardees@),
            forall|j: int| i <= j < ps0.len() ==> #[trigger] players@[j]@ == ps0[j],
        decreases players@.len() - i,
    {
        let ghost before = players@;
        assert(before[i as int]@ == ps0[i as int]);
        let give = !players[i].is_answer_setter && !is_spectator(&players[i].team)
            && !winners.contains(players[i].id.as_str()) && awardees.contains(players[i].id.as_str());
        if give {
            let s = add_score(players[i].score, 1);
            players[i].score = s;
            assert(players@[i as int]@ == PlayerModel { score: score_plus(ps0[i as int].score, 1), ..ps0[i as int] });
        } else {
            assert(players@[i as int] == before[i as int]);
        }
        assert(players@[i as int]@ == partial_point(ps0[i as int], winners@, awardees@));
        assert forall|j: int| 0 <= j < players@.len() && j != i implies #[trigger] players@[j] == before[j] by {}
        i = i + 1;
    }
    assert(players_view(players@) =~= award_partials(ps0, winners@, awardees@));
}

/// The ids of the winners.
pub fn winner_ids(winners: &Vec<Player>) -> (r: IdSet)
    ensures
        r.wf(),
        r@ == crate::gameplay::scores::id_set(players_view(winners@)),
{
    let ghost ws = players_view(winners@);
    let mut out = IdSet::new();
    let mut k: usize = 0;
    while k < winners.len()
        invariant
            k <= winners@.len(),
            ws == players_view(winners@),
            out.wf(),
            out@ == crate::gameplay::scores::id_set(ws.take(k as int)),
        decreases winners@.len() - k,
    {
        out.insert(winners[k].id.clone());
        assert(out@ =~= crate::gameplay::scores::id_set(ws.take(k + 1))) by {
            assert forall|x: Seq<char>| out@.contains(x) <==> crate::gameplay::scores::id_set(ws.take(k + 1)).contains(x) by {
                let a = ws.take(k + 1);
                let b = ws.take(k as int);
                if crate::gameplay::scores::id_set(a).contains(x) {
                    let j = choose|j: int| 0 <= j < a.len() && a[j].id == x;
                    if j < k {
                        assert(b[j].id == x);
                    }
                }
                if crate::gameplay::scores::id_set(b).contains(x) {
                    let j = choose|j: int| 0 <= j < b.len() && b[j].id == x;
                    assert(a[j].id == x);
                }
                if x == winners@[k as int].id@ {
                    assert(ws.take(k + 1)[k as int].id == x);
                }
            }
        }
        k = k + 1;
    }
    assert(ws.take(winners@.len() as int) =~= ws);
    out
}


/// The attempt limit that the score formulas take: the settings' limit, 10 without settings.
pub open spec fn rounds_of(g: GameModel) -> i32 {
    match g.settings {
        Some(x) => x.max_attempts as i32,
        None => 10,
    }
}

/// In a synchronised round the pending tag bans join the list when the round is settled.
pub open spec fn merges_bans(g: GameModel) -> bool {
    sync_on(g.settings) && g.tag_ban_state_pending.len() > 0
}

pub open spec fn merged_bans(g: GameModel) -> GameModel {
    if merges_bans(g) {
        GameModel {
            tag_ban_state: merge_entries(g.tag_ban_state, g.tag_ban_state_pending).0,
            tag_ban_state_pending: Seq::empty(),
            ..g
        }
    } else {
        g
    }
}

pub open spec fn bans_announced(g: GameModel) -> bool {
    merges_bans(g) && merge_entries(g.tag_ban_state, g.tag_ban_state_pending).1
}

#[verifier::opaque]
pub open spec fn winners_of(ps: Seq<PlayerModel>, g: GameModel) -> Seq<PlayerModel> {
    round_winners(ps, sync_on(g.settings), g.first_winner, g.character.id)
}

pub enum Stage {
    /// A synchronised round with a winner waits for the others to finish their turn.
    Wait,
    /// No winner yet and someone still playing.
    Open,
    /// The round ends now.
    Settle,
}

pub open spec fn standard_stage(r: RoomModel, g: GameModel, force: bool) -> Stage {
    let ws = winners_of(r.players, g);
    let ended = all_ended(r.players);
    if sync_on(g.settings) && ws.len() > 0 && !ended && !g.sync_ready_to_end && !force {
        Stage::Wait
    } else if ws.len() == 0 && !ended {
        Stage::Open
    } else {
        Stage::Settle
    }
}

pub open spec fn primary_of(ws: Seq<PlayerModel>, g: GameModel) -> Option<PlayerModel> {
    match primary_index(ws, g.first_winner) {
        Some(i) => Some(ws[i]),
        None => None,
    }
}

pub open spec fn zero_result() -> ScoreResult {
    ScoreResult { total_score: 0, guess_count: 0, is_big_win: false, bonuses: ScoreBonuses { big_win: 0, quick_guess: 0 } }
}

/// The score every winner gets: that of the primary winner.
pub open spec fn primary_result(ws: Seq<PlayerModel>, g: GameModel) -> ScoreResult {
    match primary_of(ws, g) {
        Some(pw) => result_for(pw, rounds_of(g)),
        None => zero_result(),
    }
}

pub open spec fn awardees_of(g: GameModel) -> Set<Seq<char>> {
    earliest_partial(first_partial(g.guesses))
}

/// The players once winners and partial guessers have their points.
pub open spec fn after_partials(ps: Seq<PlayerModel>, g: GameModel) -> Seq<PlayerModel> {
    let ws = winners_of(ps, g);
    award_partials(award_winners(ps, ws, primary_result(ws, g).total_score), id_set(ws), awardees_of(g))
}

pub open spec fn winner_guess_count(ws: Seq<PlayerModel>, g: GameModel) -> i32 {
    match primary_of(ws, g) {
        Some(pw) => attempts_i32(pw),
        None => 0,
    }
}

pub open spec fn has_big_winner(ws: Seq<PlayerModel>, g: GameModel) -> bool {
    primary_of(ws, g) matches Some(pw) && is_big_winning(pw.round_result)
}

pub open spec fn setter_points(ws: Seq<PlayerModel>, g: GameModel) -> i32 {
    let big = has_big_winner(ws, g);
    setter_score_value(winner_guess_count(ws, g) as int, big, if big { primary_result(ws, g).total_score as int } else { 0 },
        rounds_of(g) as int) as i32
}

/// Position of the first answer setter.
#[verifier::opaque]
pub open spec fn first_setter(ps: Seq<PlayerModel>) -> Option<int> {
    if exists|i: int| 0 <= i < ps.len() && #[trigger] ps[i].is_answer_setter {
        Some(choose|i: int| 0 <= i < ps.len() && #[trigger] ps[i].is_answer_setter && forall|j: int| 0 <= j < i ==> !ps[j].is_answer_setter)
    } else {
        None
    }
}

pub open spec fn after_setter(ps: Seq<PlayerModel>, g: GameModel) -> Seq<PlayerModel> {
    let p2 = after_partials(ps, g);
    match first_setter(p2) {
        Some(i) => p2.update(i, PlayerModel { score: score_plus(p2[i].score, setter_points(winners_of(ps, g), g)), ..p2[i] }),
        None => p2,
    }
}

/// A player once the round is over: no longer watching or setting, and a player who joined
/// during the round leaves the team and is not ready.
pub open spec fn closed_player(p: PlayerModel) -> PlayerModel {
    let q = PlayerModel { temp_observer: false, is_answer_setter: false, ..p };
    if p.joined_during_game == Some(true) {
        PlayerModel { team: None, joined_during_game: Some(false), ready: false, ..q }
    } else {
        q
    }
}

pub open spec fn settled_room(r: RoomModel, g: GameModel) -> RoomModel {
    RoomModel {
        players: after_setter(r.players, g).map_values(|p: PlayerModel| closed_player(p)),
        current_game: None,
        ..r
    }
}

/// The setter's line of the score details.
pub open spec fn setter_detail(ps: Seq<PlayerModel>, g: GameModel) -> Option<DetailModel> {
    let p2 = after_partials(ps, g);
    let ws = winners_of(ps, g);
    match first_setter(p2) {
        Some(i) => Some(DetailModel::Setter {
            username: p2[i].username,
            score: setter_points(ws, g),
            reason: setter_reason(winner_guess_count(ws, g) as int, has_big_winner(ws, g), rounds_of(g) as int),
        }),
        None => None,
    }
}

/// The score details sent when the round ends.
pub open spec fn settled_details(ps: Seq<PlayerModel>, g: GameModel) -> Seq<DetailModel> {
    let ws = winners_of(ps, g);
    score_details(after_setter(ps, g),
        standard_changes(after_partials(ps, g), id_set(ws), winner_results(ws, primary_result(ws, g)), awardees_of(g)),
        setter_detail(ps, g))
}

/// What is sent once the round is settled.
pub open spec fn settle_kinds(r: RoomModel) -> Seq<EventKind> {
    let revert = if any_observer(r.players) { seq![EventKind::UpdatePlayers] } else { Seq::empty() };
    seq![EventKind::GameEnded] + revert + seq![EventKind::UpdatePlayers, EventKind::LobbyRoomsUpdated]
}

pub fn find_setter(players: &Vec<Player>) -> (r: Option<usize>)
    ensures
        match r {
            Some(i) => i < players@.len() && first_setter(players_view(players@)) == Some(i as int),
            None => first_setter(players_view(players@)) is None,
        },
{
    let ghost ps = players_view(players@);
    let mut i: usize = 0;
    while i < players.len()
        invariant
            i <= players@.len(),
            ps == players_view(players@),
            forall|j: int| 0 <= j < i ==> !ps[j].is_answer_setter,
        decreases players@.len() - i,
    {
        if players[i].is_answer_setter {
            proof {
                reveal(first_setter);
                assert(ps[i as int].is_answer_setter);
                let c = choose|c: int| 0 <= c < ps.len() && #[trigger] ps[c].is_answer_setter && forall|j: int| 0 <= j < c ==> !ps[j].is_answer_setter;
                assert(c == i as int) by {
                    if c < i { assert(!ps[c].is_answer_setter); }
                    if c > i { assert(!ps[i as int].is_answer_setter); }
                }
            }
            return Some(i);
        }
        i = i + 1;
    }
    proof { reveal(first_setter); }
    None
}

/// Ends the round for everyone: see `closed_player` (temporary observers were ended before).
pub fn close_players(players: &mut Vec<Player>)
    ensures
        players_view(final(players)@) == players_view(old(players)@).map_values(|p: PlayerModel| closed_player(PlayerModel { temp_observer: false, ..p })),
{
    let ghost ps0 = players_view(players@);
    let mut i: usize = 0;
    while i < players.len()
        invariant
            i <= players@.len(),
            players@.len() == ps0.len(),
            forall|j: int| 0 <= j < i ==> #[trigger] players@[j]@ == closed_player(PlayerModel { temp_observer: false, ..ps0[j] }),
            forall|j: int| i <= j < ps0.len() ==> #[trigger] players@[j]@ == ps0[j],
        decreases players@.len() - i,
    {
        let ghost before = players@;
        assert(before[i as int]@ == ps0[i as int]);
        players[i].temp_observer = false;
        players[i].is_answer_setter = false;
        if players[i].joined_during_game == Some(true) {
            players[i].team = None;
            players[i].joined_during_game = Some(false);
            players[i].ready = false;
        }
        assert(players@[i as int]@ == closed_player(PlayerModel { temp_observer: false, ..ps0[i as int] }));
        assert forall|j: int| 0 <= j < players@.len() && j != i implies #[trigger] players@[j] == before[j] by {}
        i = i + 1;
    }
    assert(players_view(players@) =~= ps0.map_values(|p: PlayerModel| closed_player(PlayerModel { temp_observer: false, ..p })));
}




proof fn lemma_min_setter_exists(ps: Seq<PlayerModel>, i: int)
    requires
        0 <= i < ps.len(),
        ps[i].is_answer_setter,
    ensures
        exists|k: int| 0 <= k < ps.len() && #[trigger] ps[k].is_answer_setter && forall|j: int| 0 <= j < k ==> !ps[j].is_answer_setter,
    decreases i,
{
    if exists|j: int| 0 <= j < i && #[trigger] ps[j].is_answer_setter {
        let j = choose|j: int| 0 <= j < i && #[trigger] ps[j].is_answer_setter;
        lemma_min_setter_exists(ps, j);
    } else {
        assert(forall|j: int| 0 <= j < i ==> !ps[j].is_answer_setter);
    }
}

/// `first_setter` gives a position in range.
pub proof fn lemma_first_setter(ps: Seq<PlayerModel>)
    ensures
        first_setter(ps) matches Some(k) ==> 0 <= k < ps.len() && ps[k].is_answer_setter,
{
    reveal(first_setter);
    if exists|i: int| 0 <= i < ps.len() && #[trigger] ps[i].is_answer_setter {
        let i = choose|i: int| 0 <= i < ps.len() && #[trigger] ps[i].is_answer_setter;
        lemma_min_setter_exists(ps, i);
    }
}

/// Points change scores only: the watching flags stay as they were.
#[verifier::rlimit(40)]
pub proof fn lemma_observers_kept(ps: Seq<PlayerModel>, g: GameModel)
    ensures
        after_setter(ps, g).len() == ps.len(),
        forall|i: int| 0 <= i < ps.len() ==> #[trigger] after_setter(ps, g)[i].temp_observer == ps[i].temp_observer,
        any_observer(after_setter(ps, g)) == any_observer(ps),
{
    let ws = winners_of(ps, g);
    let pts = primary_result(ws, g).total_score;
    lemma_award_winners_flags(ps, ws, pts);
    let p1 = award_winners(ps, ws, pts);
    let p2 = after_partials(ps, g);
    assert(p2.len() == ps.len());
    assert forall|i: int| 0 <= i < ps.len() implies #[trigger] p2[i].temp_observer == ps[i].temp_observer by {
        assert(p1[i].temp_observer == ps[i].temp_observer);
    }
    let p3 = after_setter(ps, g);
    lemma_first_setter(p2);
    assert forall|i: int| 0 <= i < ps.len() implies #[trigger] p3[i].temp_observer == ps[i].temp_observer by {
        assert(p2[i].temp_observer == ps[i].temp_observer);
    }
    if any_observer(ps) {
        let i = choose|i: int| 0 <= i < ps.len() && #[trigger] ps[i].temp_observer;
        assert(p3[i].temp_observer);
    }
    if any_observer(p3) {
        let i = choose|i: int| 0 <= i < p3.len() && #[trigger] p3[i].temp_observer;
        assert(ps[i].temp_observer);
    }
}

proof fn lemma_award_winners_flags(ps: Seq<PlayerModel>, ws: Seq<PlayerModel>, pts: i32)
    ensures
        award_winners(ps, ws, pts).len() == ps.len(),
        forall|i: int| 0 <= i < ps.len() ==> #[trigger] award_winners(ps, ws, pts)[i].temp_observer == ps[i].temp_observer,
        forall|i: int| 0 <= i < ps.len() ==> #[trigger] award_winners(ps, ws, pts)[i].id == ps[i].id,
    decreases ws.len(),
{
    if ws.len() > 0 {
        lemma_award_winners_flags(ps, ws.drop_last(), pts);
        let q = award_winners(ps, ws.drop_last(), pts);
        lemma_find_player_result(q, ws.last().id);
        match find_player(q, ws.last().id) {
            Some(k) => {
                assert forall|i: int| 0 <= i < ps.len() implies #[trigger] award_winners(ps, ws, pts)[i].temp_observer == ps[i].temp_observer by {
                    assert(q[i].temp_observer == ps[i].temp_observer);
                }
                assert forall|i: int| 0 <= i < ps.len() implies #[trigger] award_winners(ps, ws, pts)[i].id == ps[i].id by {
                    assert(q[i].id == ps[i].id);
                }
            },
            None => {},
        }
    }
}

} // verus!
