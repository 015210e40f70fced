//! Moving a synchronised round on once every player has taken the turn.
use vstd::prelude::*;
use crate::gameplay::events::{EventKind, RoomEvent, SyncStatus, kinds};
use crate::gameplay::finalize::{finalize_msgs, finalize_standard_game, finalized_room};
use crate::gameplay::sync::{
    collect_statuses, count_done, done_count, newly_done, should_skip_sync_waiting, skips_waiting, statuses_view,
    sync_entries, waiting_key,
};
use crate::gameplay::tagban::{fresh_entries, new_tag_entries, state_tags};
use crate::keyed::IdSet;
use crate::settings::{nonstop_on, settings_nonstop, settings_sync, settings_tag_ban, sync_on, tag_ban_on};
use crate::state::{CurrentGame, GameModel, Player, PlayerModel, Room, RoomModel, players_view, tag_bans_snapshot, tag_bans_view};

verus! {

/// Done this turn: those done before and the candidates whose turn record is this turn.
pub open spec fn sync_done(ps: Seq<PlayerModel>, g: GameModel) -> Set<Seq<char>> {
    g.sync_players_completed + newly_done(ps, g.sync_round)
}

/// At the end of a turn, with tag bans on, the pending tags not yet banned join the list.
pub open spec fn appends_bans(g: GameModel) -> bool {
    tag_ban_on(g.settings) && g.tag_ban_state_pending.len() > 0
}

pub open spec fn new_bans(g: GameModel) -> Seq<crate::state::TagBanModel> {
    fresh_entries(state_tags(g.tag_ban_state), g.tag_ban_state_pending)
}

pub open spec fn bans_appended(g: GameModel) -> GameModel {
    if appends_bans(g) {
        GameModel { tag_ban_state: g.tag_ban_state + new_bans(g), tag_ban_state_pending: Seq::empty(), ..g }
    } else {
        g
    }
}

pub open spec fn turn_ban_kinds(g: GameModel) -> Seq<EventKind> {
    if appends_bans(g) && new_bans(g).len() > 0 { seq![EventKind::TagBanStateUpdate] } else { Seq::empty() }
}

pub open spec fn waiting_kinds(skip: bool) -> Seq<EventKind> {
    if skip { Seq::empty() } else { seq![EventKind::SyncWaiting] }
}

/// The notice that says who is done with the turn.
pub open spec fn waiting_notice(e: RoomEvent, round: u32, es: Seq<crate::gameplay::sync::SyncStatusModel>) -> bool {
    e matches RoomEvent::SyncWaiting { round: rd, statuses, completed_count, total_count }
        && rd == round && statuses_view(statuses@) == es && completed_count == done_count(es) && total_count == es.len()
}

/// The players when a new turn starts: nobody has taken it yet.
pub open spec fn turn_reset(ps: Seq<PlayerModel>) -> Seq<PlayerModel> {
    ps.map_values(|p: PlayerModel| PlayerModel { sync_completed_round: None, ..p })
}

/// The room when the next turn starts at time `now`.
pub open spec fn next_turn(r: RoomModel, g: GameModel, now: i64) -> RoomModel {
    let ps = turn_reset(r.players);
    let round = (g.sync_round + 1) as u32;
    RoomModel {
        players: ps,
        current_game: Some(GameModel {
            sync_ready_to_end: false,
            sync_round: round,
            sync_players_completed: Set::empty(),
            sync_round_start_rank: if nonstop_on(g.settings) { (g.nonstop_winners.len() + 1) as u32 } else { g.sync_round_start_rank },
            last_sync_waiting_key: Some(waiting_key(round, sync_entries(ps, Set::empty()))),
            last_sync_waiting_at: now,
            ..g
        }),
        ..r
    }
}

/// The game after a waiting notice is sent or skipped.
pub open spec fn noted(g: GameModel, key: Seq<char>, force: bool, now: i64) -> GameModel {
    if skips_waiting(g, key, force, now) {
        g
    } else {
        GameModel { last_sync_waiting_key: Some(key), last_sync_waiting_at: now, ..g }
    }
}

fn reset_turns(players: &mut Vec<Player>)
    ensures
        players_view(final(players)@) == turn_reset(players_view(old(players)@)),
{
    let ghost ps0 = players_view(players@);
    let mut i: usize = 0;
    while i < players.len()
        invariant
            i <= players@.len(),
            players@.len() == ps0.len(),
            forall|j: int| 0 <= j < i ==> #[trigger] players@[j]@ == (PlayerModel { sync_completed_round: None, ..ps0[j] }),
            forall|j: int| i <= j < ps0.len() ==> #[trigger] players@[j]@ == ps0[j],
        decreases players@.len() - i,
    {
        let ghost before = players@;
        assert(before[i as int]@ == ps0[i as int]);
        players[i].sync_completed_round = None;
        assert forall|j: int| 0 <= j < players@.len() && j != i implies #[trigger] players@[j] == before[j] by {}
        i = i + 1;
    }
    assert(players_view(players@) =~= turn_reset(ps0));
}

/// Appends the pending tags not yet banned (see `bans_appended`); the list goes out if it grew.
fn append_turn_bans(game: &mut CurrentGame) -> (r: Option<RoomEvent>)
    requires
        old(game).wf(),
    ensures
        final(game).wf(),
        final(game)@ == bans_appended(old(game)@),
        r is Some == (appends_bans(old(game)@) && new_bans(old(game)@).len() > 0),
        r matches Some(e) ==> (e matches RoomEvent::TagBanStateUpdate { state } && tag_bans_view(state@) == final(game)@.tag_ban_state),
{
    if settings_tag_ban(&game.settings) && game.tag_ban_state_pending.len() > 0 {
        let mut fresh = new_tag_entries(&game.tag_ban_state, &game.tag_ban_state_pending);
        let ghost fv = tag_bans_view(fresh@);
        let ghost before = tag_bans_view(game.tag_ban_state@);
        let grew = fresh.len() > 0;
        game.tag_ban_state.append(&mut fresh);
        assert(tag_bans_view(game.tag_ban_state@) =~= before + fv);
        game.tag_ban_state_pending.clear();
        assert(tag_bans_view(game.tag_ban_state_pending@) =~= Seq::<crate::state::TagBanModel>::empty());
        if grew {
            return Some(RoomEvent::TagBanStateUpdate { state: tag_bans_snapshot(&game.tag_ban_state) });
        }
        return None;
    }
    None
}



/// Starts the next turn (see `next_turn`) and sends its start and waiting notice.
fn start_next_turn(room: &mut Room, game: CurrentGame, now: i64) -> (events: Vec<RoomEvent>)
    requires
        old(room).current_game is None,
        game.wf(),
        game@.sync_round < u32::MAX,
        game@.nonstop_winners.len() < u32::MAX,
    ensures
        final(room).wf(),
        final(room)@ == next_turn(old(room)@, game@, now),
        kinds(events@) == seq![EventKind::SyncRoundStart, EventKind::SyncWaiting],
        events@[0] matches RoomEvent::SyncRoundStart { round } && round == game@.sync_round + 1,
        waiting_notice(events@[1], (game@.sync_round + 1) as u32, sync_entries(next_turn(old(room)@, game@, now).players, Set::empty())),
{
    let ghost r0 = room@;
    let ghost g = game@;
    let mut game = game;
    game.sync_ready_to_end = false;
    game.sync_round = game.sync_round + 1;
    game.sync_players_completed.clear();
    game.last_sync_waiting_key = None;
    game.last_sync_waiting_at = 0;
    reset_turns(&mut room.players);
    if settings_nonstop(&game.settings) {
        game.sync_round_start_rank = (game.nonstop_winners.len() + 1) as u32;
    }
    let next = collect_statuses(&room.players, &game.sync_players_completed);
    let next_round = game.sync_round;
    let mut events: Vec<RoomEvent> = Vec::new();
    events.push(RoomEvent::SyncRoundStart { round: next_round });
    let n_done = count_done(&next);
    let _ = should_skip_sync_waiting(&mut game, next_round, &next, true, now);
    let total = next.len();
    events.push(RoomEvent::SyncWaiting { round: next_round, statuses: next, completed_count: n_done, total_count: total });
    room.current_game = Some(game);
    assert(kinds(events@) =~= seq![EventKind::SyncRoundStart, EventKind::SyncWaiting]);
    events
}

/// What taking stock of a synchronised round at `now` does: from `r0` to `r1`, sending
/// `evs` (see `update_sync_progress_at`).
pub open spec fn sync_progress(r0: RoomModel, r1: RoomModel, evs: Seq<RoomEvent>, now: i64) -> bool {
    match r0.current_game {
        None => r1 == r0 && evs.len() == 0,
        Some(g) => {
            let ps = r0.players;
            if !sync_on(g.settings) || sync_entries(ps, g.sync_players_completed).len() == 0 {
                r1 == r0 && evs.len() == 0
            } else {
                let done = sync_done(ps, g);
                let es = sync_entries(ps, done);
                let g1 = GameModel { sync_players_completed: done, ..g };
                if done_count(es) < es.len() {
                    let skip = skips_waiting(g1, waiting_key(g.sync_round, es), false, now);
                    &&& r1 == (RoomModel { current_game: Some(noted(g1, waiting_key(g.sync_round, es), false, now)), ..r0 })
                    &&& kinds(evs) == waiting_kinds(skip)
                    &&& !skip ==> waiting_notice(evs[0], g.sync_round, es)
                } else {
                    let g2 = bans_appended(g1);
                    let n = turn_ban_kinds(g1).len() as int;
                    &&& n == 1 ==> (evs[0] matches RoomEvent::TagBanStateUpdate { state }
                        && tag_bans_view(state@) == g2.tag_ban_state)
                    &&& if !nonstop_on(g.settings) && g.sync_winner_found {
                        let g3 = GameModel { sync_ready_to_end: true, ..g2 };
                        let skip = skips_waiting(g3, waiting_key(g.sync_round, es), false, now);
                        let r3 = RoomModel { current_game: Some(noted(g3, waiting_key(g.sync_round, es), false, now)), ..r0 };
                        let m = (turn_ban_kinds(g1) + waiting_kinds(skip)).len() as int;
                        &&& r1 == finalized_room(r3, true)
                        &&& kinds(evs).take(m) == turn_ban_kinds(g1) + waiting_kinds(skip)
                        &&& !skip ==> (evs[n] matches RoomEvent::SyncWaiting { round, statuses, completed_count, total_count }
                            && round == g.sync_round && statuses_view(statuses@) == es && completed_count == es.len() && total_count == es.len())
                        &&& exists|d: bool| #[trigger] finalize_msgs(r3, true, d, evs.skip(m))
                    } else {
                        let r3 = next_turn(r0, g2, now);
                        &&& r1 == r3
                        &&& kinds(evs) == turn_ban_kinds(g1) + seq![EventKind::SyncRoundStart, EventKind::SyncWaiting]
                        &&& evs[n] matches RoomEvent::SyncRoundStart { round } && round == g.sync_round + 1
                        &&& waiting_notice(evs[evs.len() - 1], (g.sync_round + 1) as u32, sync_entries(r3.players, Set::empty()))
                    }
                }
            }
        },
    }
}

/// Takes stock of a synchronised round at time `now`. Without a round, outside synchronised
/// mode, or with no player taking turns, nothing happens. Otherwise the candidates whose turn
/// record is this turn count as done (`sync_done`). If someone is still to play, the waiting
/// notice goes out (unless it repeats the last one too soon). If all are done: with tag bans
/// on, the pending tags not yet banned join the list; then, if a winner was found in a round
/// that is not non-stop, the round is ready to end, the notice goes out as above and the
/// round is finalized; otherwise the next turn starts (`next_turn`) and its start and
/// waiting notice go out.
#[verifier::rlimit(60)]
pub fn update_sync_progress_at(room: &mut Room, now: i64) -> (events: Vec<RoomEvent>)
    requires
        old(room).wf(),
        old(room)@.players.len() <= i32::MAX,
        old(room)@.current_game matches Some(g) ==> g.sync_round < u32::MAX && g.nonstop_winners.len() < u32::MAX,
    ensures
        final(room).wf(),
        final(room)@.players.len() == old(room)@.players.len(),
        final(room)@.current_game matches Some(g2) ==> (old(room)@.current_game matches Some(g)
            && g2.nonstop_winners == g.nonstop_winners && g2.settings == g.settings),
        sync_progress(old(room)@, final(room)@, events@, now),
{
    let ghost r0 = room@;
    let mut events: Vec<RoomEvent> = Vec::new();
    if room.current_game.is_none() {
        return events;
    }
    let mut game = room.current_game.take().unwrap();
    let ghost g = game@;
    if !settings_sync(&game.settings) {
        room.current_game = Some(game);
        return events;
    }
    let probe = collect_statuses(&room.players, &game.sync_players_completed);
    if probe.len() == 0 {
        room.current_game = Some(game);
        return events;
    }
    let round = game.sync_round;
    crate::gameplay::sync::note_completed_pub(&room.players, &mut game.sync_players_completed, round);
    let ghost g1 = game@;
    let statuses = collect_statuses(&room.players, &game.sync_players_completed);
    let ghost es = statuses_view(statuses@);
    let done = count_done(&statuses);
    if done < statuses.len() {
        let skip = should_skip_sync_waiting(&mut game, round, &statuses, false, now);
        if !skip {
            let total = statuses.len();
            events.push(RoomEvent::SyncWaiting { round, statuses, completed_count: done, total_count: total });
        }
        room.current_game = Some(game);
        assert(kinds(events@) =~= waiting_kinds(skip));
        return events;
    }
    match append_turn_bans(&mut game) {
        Some(e) => events.push(e),
        None => {},
    }
    assert(kinds(events@) =~= turn_ban_kinds(g1));
    let ghost g2 = game@;
    if !settings_nonstop(&game.settings) && game.sync_winner_found {
        game.sync_ready_to_end = true;
        let skip = should_skip_sync_waiting(&mut game, round, &statuses, false, now);
        if !skip {
            let total = statuses.len();
            events.push(RoomEvent::SyncWaiting { round, statuses, completed_count: total, total_count: total });
        }
        let ghost head = kinds(events@);
        assert(head =~= turn_ban_kinds(g1) + waiting_kinds(skip));
        room.current_game = Some(game);
        let ghost rf = room@;
        let (d, mut more) = finalize_standard_game(room, true);
        let ghost before = events@;
        let ghost tail = more@;
        events.append(&mut more);
        assert(kinds(events@).take(head.len() as int) =~= head) by {
            assert(events@.take(before.len() as int) =~= before);
        }
        assert(events@.skip(before.len() as int) =~= tail);
        assert(finalize_msgs(rf, true, d, events@.skip(before.len() as int)));
        return events;
    }
    let mut more = start_next_turn(room, game, now);
    let ghost before = events@;
    events.append(&mut more);
    assert(kinds(events@) =~= turn_ban_kinds(g1) + seq![EventKind::SyncRoundStart, EventKind::SyncWaiting]);
    events
}

} // verus!
