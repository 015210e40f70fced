//! Ending a non-stop round once every player has a result.
use vstd::prelude::*;
use crate::gameplay::details::{details_view, generate_score_details, setter_line, DetailModel, score_details};
use crate::gameplay::events::{EventKind, RoomEvent, SetterDetail, SetterField, kinds};
use crate::gameplay::marks::{is_big_winning, player_has_result, player_is_big_winner};
use crate::gameplay::partial::{compute_partial_awardees_from_guess_history, partial_awards_ok};
use crate::gameplay::rules::{add_score, find_player, find_player_index, is_spectator, is_spectator_team, lemma_find_player_result, score_plus};
use crate::gameplay::scores::{build_score_changes_nonstop, changes_view, nonstop_changes, winner_id_set, winner_is_big};
use crate::gameplay::scoring::{calculate_nonstop_setter_score, nonstop_setter_score_value};
use crate::gameplay::settle::{award_partials, find_setter, first_setter, give_partial_points, lemma_first_setter, partial_point};
use crate::gameplay::standard_flow::{any_observer, nonstop_setter_reason, nonstop_setter_score_reason, players_snapshot, revert_setter_observers};
use crate::keyed::IdSet;
use crate::settings::{nonstop_on, settings_nonstop};
use crate::state::{CurrentGame, GameModel, NonstopWinner, NonstopWinnerModel, Player, PlayerModel, Room, RoomModel, histories_view, players_view};

verus! {

/// Players counted in a non-stop round: connected guessers.
pub open spec fn nonstop_active(p: PlayerModel) -> bool {
    !p.is_answer_setter && !is_spectator_team(p.team) && !p.disconnected
}

pub open spec fn active_count(ps: Seq<PlayerModel>) -> nat
    decreases ps.len(),
{
    if ps.len() == 0 { 0 } else { active_count(ps.drop_last()) + if nonstop_active(ps.last()) { 1nat } else { 0nat } }
}

/// Counted players still without a result.
pub open spec fn remaining_count(ps: Seq<PlayerModel>) -> nat
    decreases ps.len(),
{
    if ps.len() == 0 {
        0
    } else {
        remaining_count(ps.drop_last()) + if nonstop_active(ps.last()) && ps.last().round_result is None { 1nat } else { 0nat }
    }
}

pub open spec fn winners_view(ws: Seq<NonstopWinner>) -> Seq<NonstopWinnerModel> {
    ws.map_values(|w: NonstopWinner| w@)
}

/// Position of the first winner whose player won big.
#[verifier::opaque]
pub open spec fn first_big(ps: Seq<PlayerModel>, ws: Seq<NonstopWinnerModel>) -> Option<int> {
    if exists|k: int| 0 <= k < ws.len() && #[trigger] winner_is_big(ps, ws[k].id) {
        Some(choose|k: int| 0 <= k < ws.len() && #[trigger] winner_is_big(ps, ws[k].id) && forall|j: int| 0 <= j < k ==> !winner_is_big(ps, ws[j].id))
    } else {
        None
    }
}

pub open spec fn nonstop_setter_points(ps: Seq<PlayerModel>, ws: Seq<NonstopWinnerModel>, total: i32) -> i32 {
    let big = first_big(ps, ws);
    nonstop_setter_score_value(big is Some, if big is Some { ws[big->0].score as int } else { 0 }, (ws.len() as i32) as int, total as int) as i32
}

/// The players once the round is scored: partial points, then the setter's points.
pub open spec fn nonstop_scored(ps: Seq<PlayerModel>, g: GameModel, aw: Set<Seq<char>>) -> Seq<PlayerModel> {
    let ws = g.nonstop_winners;
    let p1 = award_partials(ps, winner_id_set(ws), aw);
    let total = active_count(ps) as i32;
    match first_setter(p1) {
        Some(i) => p1.update(i, PlayerModel { score: score_plus(p1[i].score, nonstop_setter_points(p1, ws, total)), ..p1[i] }),
        None => p1,
    }
}

pub open spec fn nonstop_closed(p: PlayerModel) -> PlayerModel {
    PlayerModel { temp_observer: false, is_answer_setter: false, ..p }
}

pub open spec fn nonstop_settled(r: RoomModel, g: GameModel, aw: Set<Seq<char>>) -> RoomModel {
    RoomModel {
        players: nonstop_scored(r.players, g, aw).map_values(|p: PlayerModel| nonstop_closed(p)),
        current_game: None,
        ..r
    }
}

pub open spec fn nonstop_setter_detail(ps: Seq<PlayerModel>, g: GameModel, aw: Set<Seq<char>>) -> Option<DetailModel> {
    let ws = g.nonstop_winners;
    let p1 = award_partials(ps, winner_id_set(ws), aw);
    let total = active_count(ps) as i32;
    let big = first_big(p1, ws);
    match first_setter(p1) {
        Some(i) => Some(DetailModel::Setter {
            username: p1[i].username,
            score: nonstop_setter_points(p1, ws, total),
            reason: nonstop_setter_reason(big is Some, (ws.len() as i32) as int, total as int),
        }),
        None => None,
    }
}

pub open spec fn nonstop_details(ps: Seq<PlayerModel>, g: GameModel, aw: Set<Seq<char>>) -> Seq<DetailModel> {
    let p1 = award_partials(ps, winner_id_set(g.nonstop_winners), aw);
    score_details(nonstop_scored(ps, g, aw), nonstop_changes(p1, g.nonstop_winners, aw), nonstop_setter_detail(ps, g, aw))
}

pub open spec fn nonstop_kinds(r: RoomModel) -> Seq<EventKind> {
    let revert = if any_observer(r.players) { seq![EventKind::UpdatePlayers] } else { Seq::empty() };
    seq![EventKind::GameEnded] + revert + seq![EventKind::ResetReadyStatus, EventKind::UpdatePlayers, EventKind::LobbyRoomsUpdated]
}

/// Scores of the winners fit the arithmetic of their score lines.
pub open spec fn score_fits(w: NonstopWinnerModel) -> bool {
    w.score - w.bonuses.big_win - w.bonuses.quick_guess <= i32::MAX && w.bonuses.big_win as int + w.bonuses.quick_guess as int <= i32::MAX
}

pub open spec fn winner_scores_fit(ws: Seq<NonstopWinnerModel>) -> bool {
    &&& ws.len() < i32::MAX
    &&& forall|i: int| 0 <= i < ws.len() ==> score_fits(#[trigger] ws[i])
}

fn is_active(p: &Player) -> (r: bool)
    ensures
        r == nonstop_active(p@),
{
    !p.is_answer_setter && !is_spectator(&p.team) && !p.disconnected
}

/// Counted players, and those of them still without a result.
pub fn count_active(players: &Vec<Player>) -> (r: (usize, usize))
    ensures
        r.0 == active_count(players_view(players@)),
        r.1 == remaining_count(players_view(players@)),
        r.0 <= players@.len(),
{
    let ghost ps = players_view(players@);
    let mut a: usize = 0;
    let mut rem: usize = 0;
    let mut i: usize = 0;
    while i < players.len()
        invariant
            i <= players@.len(),
            ps == players_view(players@),
            a == active_count(ps.take(i as int)),
            rem == remaining_count(ps.take(i as int)),
            rem <= a <= i,
        decreases players@.len() - i,
    {
        assert(ps.take(i + 1).drop_last() =~= ps.take(i as int));
        assert(ps.take(i + 1).last() == players@[i as int]@);
        if is_active(&players[i]) {
            a = a + 1;
            if !player_has_result(&players[i]) {
                rem = rem + 1;
            }
        }
        i = i + 1;
    }
    assert(ps.take(players@.len() as int) =~= ps);
    (a, rem)
}

fn is_big_winner_id(players: &Vec<Player>, id: &str) -> (r: bool)
    ensures
        r == winner_is_big(players_view(players@), id@),
{
    match find_player_index(players, id) {
        Some(i) => player_is_big_winner(&players[i]),
        None => false,
    }
}

fn find_big_winner(players: &Vec<Player>, ws: &Vec<NonstopWinner>) -> (r: Option<usize>)
    ensures
        match r {
            Some(k) => k < ws@.len() && first_big(players_view(players@), winners_view(ws@)) == Some(k as int),
            None => first_big(players_view(players@), winners_view(ws@)) is None,
        },
{
    let ghost ps = players_view(players@);
    let ghost wv = winners_view(ws@);
    let mut k: usize = 0;
    while k < ws.len()
        invariant
            k <= ws@.len(),
            ps == players_view(players@),
            wv == winners_view(ws@),
            forall|j: int| 0 <= j < k ==> !winner_is_big(ps, wv[j].id),
        decreases ws@.len() - k,
    {
        if is_big_winner_id(players, ws[k].id.as_str()) {
            proof {
                reveal(first_big);
                assert(winner_is_big(ps, wv[k as int].id));
                let c = choose|c: int| 0 <= c < wv.len() && #[trigger] winner_is_big(ps, wv[c].id) && forall|j: int| 0 <= j < c ==> !winner_is_big(ps, wv[j].id);
                assert(c == k as int) by {
                    if c < k { assert(!winner_is_big(ps, wv[c].id)); }
                    if c > k { assert(!winner_is_big(ps, wv[k as int].id)); }
                }
            }
            return Some(k);
        }
        k = k + 1;
    }
    proof { reveal(first_big); }
    None
}

/// The winners' ids.
fn nonstop_winner_ids(ws: &Vec<NonstopWinner>) -> (r: IdSet)
    ensures
        r.wf(),
        r@ == winner_id_set(winners_view(ws@)),
{
    let ghost wv = winners_view(ws@);
    let mut out = IdSet::new();
    let mut k: usize = 0;
    while k < ws.len()
        invariant
            k <= ws@.len(),
            wv == winners_view(ws@),
            out.wf(),
            out@ == winner_id_set(wv.take(k as int)),
        decreases ws@.len() - k,
    {
        out.insert(ws[k].id.clone());
        assert(out@ =~= winner_id_set(wv.take(k + 1))) by {
            let a = wv.take(k + 1);
            let b = wv.take(k as int);
            assert forall|x: Seq<char>| out@.contains(x) <==> winner_id_set(a).contains(x) by {
                if winner_id_set(a).contains(x) {
                    let j = choose|j: int| 0 <= j < a.len() && a[j].id == x;
                    if j < k { assert(b[j].id == x); }
                }
                if winner_id_set(b).contains(x) {
                    let j = choose|j: int| 0 <= j < b.len() && b[j].id == x;
                    assert(a[j].id == x);
                }
                if x == ws@[k as int].id@ {
                    assert(a[k as int].id == x);
                }
            }
        }
        k = k + 1;
    }
    assert(wv.take(ws@.len() as int) =~= wv);
    out
}


fn nonstop_score(players: &mut Vec<Player>, game: &CurrentGame, awardees: &IdSet, total: i32)
    -> (r: (crate::keyed::TextMap<crate::gameplay::scores::ScoreChange>, Option<SetterDetail>))
    requires
        total == active_count(players_view(old(players)@)) as i32,
        total < i32::MAX,
        winner_scores_fit(game@.nonstop_winners),
    ensures
        players_view(final(players)@) == nonstop_scored(players_view(old(players)@), game@, awardees@),
        final(players)@.len() == old(players)@.len(),
        r.0.wf(),
        changes_view(r.0@) == nonstop_changes(award_partials(players_view(old(players)@), winner_id_set(game@.nonstop_winners), awardees@),
            game@.nonstop_winners, awardees@),
        setter_line(r.1) == nonstop_setter_detail(players_view(old(players)@), game@, awardees@),
{
    let ghost ps0 = players_view(players@);
    let ghost g = game@;
    let wids = nonstop_winner_ids(&game.nonstop_winners);
    give_partial_points(players, &wids, awardees);
    let ghost p1 = players_view(players@);
    let winners_count: i32 = #[verifier::truncate] (game.nonstop_winners.len() as i32);
    let (has_big, big_score) = match find_big_winner(players, &game.nonstop_winners) {
        Some(k) => (true, game.nonstop_winners[k].score),
        None => (false, 0),
    };
    assert forall|i: int| 0 <= i < game.nonstop_winners@.len() implies #[trigger] game.nonstop_winners@[i].score
        - game.nonstop_winners@[i].bonuses.big_win - game.nonstop_winners@[i].bonuses.quick_guess <= i32::MAX
        && game.nonstop_winners@[i].bonuses.big_win as int + game.nonstop_winners@[i].bonuses.quick_guess as int <= i32::MAX by {
        assert(g.nonstop_winners[i] == game.nonstop_winners@[i]@);
        assert(score_fits(g.nonstop_winners[i]));
    }
    let changes = build_score_changes_nonstop(players, &game.nonstop_winners, awardees);
    let setter_info = match find_setter(players) {
        Some(i) => {
            let username = players[i].username.clone();
            let pts = calculate_nonstop_setter_score(has_big, big_score, winners_count, total);
            assert(pts == nonstop_setter_points(p1, g.nonstop_winners, total));
            let s = add_score(players[i].score, pts);
            players[i].score = s;
            assert(players_view(players@) =~= p1.update(i as int, PlayerModel { score: score_plus(p1[i as int].score, pts), ..p1[i as int] }));
            Some(SetterDetail { username, score: pts, reason: nonstop_setter_score_reason(has_big, winners_count, total) })
        },
        None => None,
    };
    (changes, setter_info)
}

fn end_setting(players: &mut Vec<Player>)
    ensures
        players_view(final(players)@) == players_view(old(players)@).map_values(|p: PlayerModel| PlayerModel { is_answer_setter: false, ..p }),
{
    let ghost ps0 = players_view(players@);
    let mut i: usize = 0;
    while i < players.len()
        invariant
            i <= players@.len(),
            players@.len() == ps0.len(),
            forall|j: int| 0 <= j < i ==> #[trigger] players@[j]@ == (PlayerModel { is_answer_setter: false, ..ps0[j] }),
            forall|j: int| i <= j < ps0.len() ==> #[trigger] players@[j]@ == ps0[j],
        decreases players@.len() - i,
    {
        let ghost before = players@;
        assert(before[i as int]@ == ps0[i as int]);
        players[i].is_answer_setter = false;
        assert forall|j: int| 0 <= j < players@.len() && j != i implies #[trigger] players@[j] == before[j] by {}
        i = i + 1;
    }
    assert(players_view(players@) =~= ps0.map_values(|p: PlayerModel| PlayerModel { is_answer_setter: false, ..p }));
}

proof fn lemma_nonstop_observers(ps: Seq<PlayerModel>, g: GameModel, aw: Set<Seq<char>>)
    ensures
        any_observer(nonstop_scored(ps, g, aw)) == any_observer(ps),
        nonstop_scored(ps, g, aw).len() == ps.len(),
{
    let p1 = award_partials(ps, winner_id_set(g.nonstop_winners), aw);
    let p2 = nonstop_scored(ps, g, aw);
    lemma_first_setter(p1);
    assert forall|i: int| 0 <= i < ps.len() implies #[trigger] p2[i].temp_observer == ps[i].temp_observer by {
        assert(p1[i].temp_observer == ps[i].temp_observer);
    }
    if any_observer(ps) {
        let i = choose|i: int| 0 <= i < ps.len() && #[trigger] ps[i].temp_observer;
        assert(p2[i].temp_observer);
    }
    if any_observer(p2) {
        let i = choose|i: int| 0 <= i < p2.len() && #[trigger] p2[i].temp_observer;
        assert(ps[i].temp_observer);
    }
}


fn nonstop_settle(room: &mut Room, game: CurrentGame, awardees: &IdSet, total_i: i32) -> (events: Vec<RoomEvent>)
    requires
        old(room).current_game is None,
        old(room)@.players.len() < i32::MAX,
        total_i == active_count(old(room)@.players) as i32,
        total_i < i32::MAX,
        winner_scores_fit(game@.nonstop_winners),
    ensures
        final(room)@ == nonstop_settled(old(room)@, game@, awardees@),
        final(room).current_game is None,
        events@[0] matches RoomEvent::GameEnded { guesses, score_details, answer }
            && histories_view(guesses@) == game@.guesses && answer@ == game@.character
            && details_view(score_details@) == nonstop_details(old(room)@.players, game@, awardees@),
        kinds(events@) == nonstop_kinds(old(room)@),
{
    let ghost r0 = room@;
    let ghost g = game@;
    let mut events: Vec<RoomEvent> = Vec::new();
    let (changes, setter_info) = nonstop_score(&mut room.players, &game, awardees, total_i);
    let ghost p2 = players_view(room.players@);
    let details = generate_score_details(&room.players, &changes, setter_info);
    events.push(RoomEvent::GameEnded { guesses: game.guesses, score_details: details, answer: game.character });
    proof { lemma_nonstop_observers(r0.players, g, awardees@); }
    match revert_setter_observers(room) {
        Some(e) => events.push(e),
        None => {},
    }
    end_setting(&mut room.players);
    assert(players_view(room.players@) =~= p2.map_values(|p: PlayerModel| nonstop_closed(p)));
    events.push(RoomEvent::ResetReadyStatus);
    events.push(RoomEvent::UpdatePlayers { players: players_snapshot(&room.players), is_public: Some(room.is_public), answer_setter: SetterField::Null });
    events.push(RoomEvent::LobbyRoomsUpdated);
    assert(kinds(events@) =~= nonstop_kinds(r0));
    events
}

/// A non-stop round ends from `r0` to `r1` once nobody is left to play (`done`), with partial
/// awards as `partial_awards_ok` allows, sending the round's end with its score details
/// first; otherwise nothing changes and nothing is sent.
pub open spec fn nonstop_finish(r0: RoomModel, r1: RoomModel, done: bool, evs: Seq<RoomEvent>) -> bool {
    match r0.current_game {
        Some(g) => if nonstop_on(g.settings) && remaining_count(r0.players) == 0 {
            &&& done
            &&& exists|aw: Set<Seq<char>>| partial_awards_ok(r0, aw) && r1 == #[trigger] nonstop_settled(r0, g, aw)
                && (evs[0] matches RoomEvent::GameEnded { guesses, score_details, answer }
                    && histories_view(guesses@) == g.guesses && answer@ == g.character
                    && details_view(score_details@) == nonstop_details(r0.players, g, aw))
            &&& kinds(evs) == nonstop_kinds(r0)
        } else {
            r1 == r0 && !done && evs.len() == 0
        },
        None => r1 == r0 && !done && evs.len() == 0,
    }
}

/// Ends a non-stop round once every counted player has a result: the partial-correct points
/// (awarded as `partial_awards_ok` allows), the setter's points, the score details, then the
/// round is closed; the result is `true`. Otherwise nothing happens.
#[verifier::rlimit(60)]
pub fn finalize_nonstop_game(room: &mut Room) -> (r: (bool, Vec<RoomEvent>))
    requires
        old(room).wf(),
        old(room)@.players.len() < i32::MAX,
        old(room)@.current_game matches Some(g) ==> winner_scores_fit(g.nonstop_winners),
    ensures
        final(room).wf(),
        final(room)@.players.len() == old(room)@.players.len(),
        nonstop_finish(old(room)@, final(room)@, r.0, r.1@),
{
    let ghost r0 = room@;
    let mut events: Vec<RoomEvent> = Vec::new();
    let on = match &room.current_game {
        Some(g) => settings_nonstop(&g.settings),
        None => false,
    };
    if !on {
        return (false, events);
    }
    let (total, remaining) = count_active(&room.players);
    if remaining > 0 {
        return (false, events);
    }
    let awardees = compute_partial_awardees_from_guess_history(room);
    let game = room.current_game.take().unwrap();
    let ghost g = game@;
    let mut more = nonstop_settle(room, game, &awardees, total as i32);
    let ghost tail = more@;
    events.append(&mut more);
    assert(events@ =~= tail);
    assert(partial_awards_ok(r0, awardees@));
    assert(room@ == nonstop_settled(r0, g, awardees@));
    assert(r0.current_game == Some(g));
    proof { lemma_nonstop_observers(r0.players, g, awardees@); }
    (true, events)
}

} // verus!
