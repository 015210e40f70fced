//! Ending a standard round: settle it when it is over, or tell the room to wait.
use vstd::prelude::*;
use crate::gameplay::details::{details_view, generate_score_details, setter_line};
use crate::gameplay::rules::{find_player, lemma_find_player_result};
use crate::gameplay::events::{RoomEvent, SetterDetail, SetterField, kinds};
use crate::gameplay::marks::{player_attempt_count, player_is_big_winner};
use crate::gameplay::partial::compute_partial_awardees_from_guess_history_guesses;
use crate::gameplay::rules::{add_score, score_plus};
use crate::gameplay::scores::{ScoreChange, build_score_changes_standard, changes_view, standard_changes, id_set};
use crate::gameplay::scoring::{ScoreBonuses, ScoreResult, setter_score, winner_score};
use crate::gameplay::settle::{
    Stage, bans_announced, merged_bans, merges_bans, players_all_ended, select_winners, standard_stage,
    close_players, lemma_observers_kept, settle_kinds, settled_details, settled_room,
    PickKey, after_partials, after_setter, awardees_of, closed_player, find_pick, find_setter, give_partial_points,
    give_winner_points, has_big_winner, opt_index, opt_pick_first, primary_index, primary_result, results_of_winners,
    rounds_of, setter_detail, setter_points, winner_guess_count, winner_ids, winner_results, winners_of,
};
use crate::gameplay::standard_flow::{any_observer, plain_update, players_snapshot, revert_setter_observers, setter_score_reason};
use crate::keyed::TextMap;
use crate::settings::{nonstop_on, settings_nonstop, settings_sync};
use crate::gameplay::tagban::merge_pending_tag_bans;
use crate::state::{RoomModel, tag_bans_snapshot, tag_bans_view, CurrentGame, GameModel, Player, PlayerModel, Room, histories_view, players_view};

verus! {

/// The score of the primary winner (see `primary_result`).
fn primary_score(game: &CurrentGame, winners: &Vec<Player>) -> (r: ScoreResult)
    ensures
        r == primary_result(players_view(winners@), game@),
{
    let ghost ws = players_view(winners@);
    let ghost g = game@;
    let rounds: i32 = match &game.settings {
        Some(x) => #[verifier::truncate] (x.max_attempts as i32),
        None => 10,
    };
    assert(rounds == rounds_of(g));
    let by_id = match &game.first_winner {
        Some(fw) => find_pick(winners, &PickKey::ById(fw.id.as_str())),
        None => None,
    };
    let first = if winners.len() > 0 { Some(0usize) } else { None };
    let pidx = opt_pick_first(by_id, first);
    assert(opt_index(pidx) == primary_index(ws, g.first_winner));
    match pidx {
        Some(i) => {
            let cnt: i32 = #[verifier::truncate] (player_attempt_count(&winners[i]) as i32);
            let big = player_is_big_winner(&winners[i]);
            winner_score(cnt, big, 2, rounds)
        },
        None => ScoreResult { total_score: 0, guess_count: 0, is_big_win: false, bonuses: ScoreBonuses { big_win: 0, quick_guess: 0 } },
    }
}

/// Gives the round's points and returns the score lines and the setter's line.
fn score_round(players: &mut Vec<Player>, game: &CurrentGame, winners: &Vec<Player>) -> (r: (TextMap<ScoreChange>, Option<SetterDetail>))
    requires
        players_view(winners@) == winners_of(players_view(old(players)@), game@),
    ensures
        players_view(final(players)@) == after_setter(players_view(old(players)@), game@),
        final(players)@.len() == old(players)@.len(),
        r.0.wf(),
        changes_view(r.0@) == standard_changes(after_partials(players_view(old(players)@), game@),
            id_set(players_view(winners@)), winner_results(players_view(winners@), primary_result(players_view(winners@), game@)),
            awardees_of(game@)),
        setter_line(r.1) == setter_detail(players_view(old(players)@), game@),
{
    let ghost ps0 = players_view(players@);
    let ghost ws = players_view(winners@);
    let ghost g = game@;
    let rounds: i32 = match &game.settings {
        Some(x) => #[verifier::truncate] (x.max_attempts as i32),
        None => 10,
    };
    assert(rounds == rounds_of(g));
    let awardees = compute_partial_awardees_from_guess_history_guesses(&game.guesses);
    let res = primary_score(game, winners);
    let pts = res.total_score;
    let wgc = res.guess_count;
    let has_big = res.is_big_win;
    assert(wgc == winner_guess_count(ws, g) && has_big == has_big_winner(ws, g));
    give_winner_points(players, winners, pts);
    let results = results_of_winners(winners, &res);
    let wids = winner_ids(winners);
    give_partial_points(players, &wids, &awardees);
    let ghost p2 = players_view(players@);
    assert(p2 == after_partials(ps0, g));
    let changes = build_score_changes_standard(players, winners, &results, &awardees);
    let big_actual = if has_big { pts } else { 0 };
    let setter_pts = setter_score(wgc, has_big, big_actual, rounds);
    assert(setter_pts == setter_points(ws, g));
    let setter_info = match find_setter(players) {
        Some(i) => {
            let username = players[i].username.clone();
            let s = add_score(players[i].score, setter_pts);
            players[i].score = s;
            assert(players_view(players@) =~= p2.update(i as int, PlayerModel { score: score_plus(p2[i as int].score, setter_pts), ..p2[i as int] }));
            Some(SetterDetail { username, score: setter_pts, reason: setter_score_reason(wgc, has_big, big_actual, rounds) })
        },
        None => None,
    };
    (changes, setter_info)
}


/// Settles the round: points, the score details, then the round is closed for every player.
fn settle_round(room: &mut Room, game: CurrentGame, winners: Vec<Player>) -> (events: Vec<RoomEvent>)
    requires
        old(room).current_game is None,
        old(room)@.players.len() <= i32::MAX,
        players_view(winners@) == winners_of(old(room)@.players, game@),
    ensures
        final(room)@ == settled_room(old(room)@, game@),
        final(room).current_game is None,
        kinds(events@) == settle_kinds(old(room)@),
        events@[0] matches RoomEvent::GameEnded { guesses, score_details, answer }
            && histories_view(guesses@) == game@.guesses && answer@ == game@.character
            && details_view(score_details@) == settled_details(old(room)@.players, game@),
{
    let ghost r0 = room@;
    let ghost g = game@;
    let ghost ps0 = r0.players;
    let (changes, setter_info) = score_round(&mut room.players, &game, &winners);
    let ghost p3 = players_view(room.players@);
    let details = generate_score_details(&room.players, &changes, setter_info);
    let mut events: Vec<RoomEvent> = Vec::new();
    events.push(RoomEvent::GameEnded { guesses: game.guesses, score_details: details, answer: game.character });
    proof { lemma_observers_kept(ps0, g); }
    match revert_setter_observers(room) {
        Some(e) => events.push(e),
        None => {},
    }
    close_players(&mut room.players);
    assert(players_view(room.players@) =~= p3.map_values(|p: PlayerModel| closed_player(p)));
    events.push(RoomEvent::UpdatePlayers { players: players_snapshot(&room.players), is_public: Some(room.is_public), answer_setter: SetterField::Null });
    events.push(RoomEvent::LobbyRoomsUpdated);
    assert(kinds(events@) =~= settle_kinds(r0));
    events
}


/// The room after `finalize_standard_game`.
pub open spec fn finalized_room(r: RoomModel, force: bool) -> RoomModel {
    match r.current_game {
        None => r,
        Some(g) => if nonstop_on(g.settings) {
            r
        } else {
            match standard_stage(r, merged_bans(g), force) {
                Stage::Settle => settled_room(r, merged_bans(g)),
                _ => RoomModel { current_game: Some(merged_bans(g)), ..r },
            }
        },
    }
}

pub open spec fn ban_kinds(g: GameModel) -> Seq<crate::gameplay::events::EventKind> {
    if bans_announced(g) { seq![crate::gameplay::events::EventKind::TagBanStateUpdate] } else { Seq::empty() }
}

/// What ending a standard round from `r` sends, and whether it ended (`done`): nothing without
/// a round or in a non-stop round; otherwise the tag-ban list when it grew, then by
/// `standard_stage` the player list (waiting for the others), nothing more (the round goes
/// on), or the round's end with its score details and what follows it (`settle_kinds`).
pub open spec fn finalize_msgs(r: RoomModel, force: bool, done: bool, evs: Seq<RoomEvent>) -> bool {
    match r.current_game {
        None => !done && evs.len() == 0,
        Some(g) => if nonstop_on(g.settings) {
            !done && evs.len() == 0
        } else {
            &&& bans_announced(g) ==> (evs[0] matches RoomEvent::TagBanStateUpdate { state }
                && tag_bans_view(state@) == merged_bans(g).tag_ban_state)
            &&& match standard_stage(r, merged_bans(g), force) {
                Stage::Wait => {
                    &&& !done
                    &&& kinds(evs) == ban_kinds(g).push(crate::gameplay::events::EventKind::UpdatePlayers)
                    &&& plain_update(evs.last(), r.players)
                },
                Stage::Open => !done && kinds(evs) == ban_kinds(g),
                Stage::Settle => {
                    &&& done
                    &&& kinds(evs) == ban_kinds(g) + settle_kinds(r)
                    &&& evs[ban_kinds(g).len() as int] matches RoomEvent::GameEnded { guesses, score_details, answer }
                        && histories_view(guesses@) == g.guesses && answer@ == g.character
                        && details_view(score_details@) == settled_details(r.players, merged_bans(g))
                },
            }
        },
    }
}

/// Ends a standard round when it is over. Nothing happens without a round or in a non-stop
/// round. In a synchronised round the pending tag bans join the list first (sent if it
/// changed). Then, by `standard_stage`: a synchronised round with a winner waits for the
/// others (the player list goes out), a round without winner where someone still plays
/// goes on, and otherwise the round is settled (`settled_room`): the score details, the
/// player lists and the lobby update go out, and the result is `true`.
pub fn finalize_standard_game(room: &mut Room, force: bool) -> (r: (bool, Vec<RoomEvent>))
    requires
        old(room).wf(),
        old(room)@.players.len() <= i32::MAX,
    ensures
        final(room).wf(),
        final(room)@ == finalized_room(old(room)@, force),
        final(room)@.players.len() == old(room)@.players.len(),
        finalize_msgs(old(room)@, force, r.0, r.1@),
{
    let ghost r0 = room@;
    let mut events: Vec<RoomEvent> = Vec::new();
    if room.current_game.is_none() {
        return (false, events);
    }
    let mut game = room.current_game.take().unwrap();
    let ghost g = game@;
    if settings_nonstop(&game.settings) {
        room.current_game = Some(game);
        return (false, events);
    }
    let sync = settings_sync(&game.settings);
    if sync && game.tag_ban_state_pending.len() > 0 {
        let changed = merge_pending_tag_bans(&mut game.tag_ban_state, &game.tag_ban_state_pending);
        game.tag_ban_state_pending.clear();
        if changed {
            events.push(RoomEvent::TagBanStateUpdate { state: tag_bans_snapshot(&game.tag_ban_state) });
        }
    }
    assert(game@ == merged_bans(g)) by {
        if merges_bans(g) {
            assert(game@.tag_ban_state_pending =~= Seq::<crate::state::TagBanModel>::empty());
        }
    }
    assert(kinds(events@) =~= ban_kinds(g));
    let ghost g1 = game@;
    let ended = players_all_ended(&room.players);
    let winners = select_winners(&room.players, sync, &game.first_winner, game.character.id);
    proof { reveal(winners_of); }
    assert(players_view(winners@) == winners_of(r0.players, g1));
    if sync && winners.len() > 0 && !ended && !game.sync_ready_to_end && !force {
        room.current_game = Some(game);
        events.push(RoomEvent::UpdatePlayers { players: players_snapshot(&room.players), is_public: None, answer_setter: SetterField::Omitted });
        assert(kinds(events@) =~= ban_kinds(g).push(crate::gameplay::events::EventKind::UpdatePlayers));
        return (false, events);
    }
    if winners.len() == 0 && !ended {
        room.current_game = Some(game);
        return (false, events);
    }
    let ghost before = events@;
    let mut rest = settle_round(room, game, winners);
    let ghost tail = rest@;
    events.append(&mut rest);
    assert(events@ =~= before + tail);
    assert(kinds(events@) =~= ban_kinds(g) + kinds(tail));
    proof { lemma_observers_kept(r0.players, g1); }
    (true, events)
}

} // verus!
