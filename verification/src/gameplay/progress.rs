//! Broadcasting the state of a synchronised or non-stop round, and the step that moves a
//! standard round on after each change.
use vstd::prelude::*;
use crate::gameplay::events::{EventKind, RankedWinner, RoomEvent, kinds};
use crate::gameplay::finalize::{finalize_msgs, finalize_standard_game, finalized_room};
use crate::gameplay::nonstop::{active_count, count_active, finalize_nonstop_game, nonstop_finish, remaining_count, winner_scores_fit};
use crate::state::now_millis;
use crate::gameplay::sync::{collect_statuses, count_done, should_skip_sync_waiting, skips_waiting, statuses_view, sync_entries, waiting_key};
use crate::gameplay::turns::{noted, update_sync_progress_at, waiting_kinds, waiting_notice};
use crate::settings::{nonstop_on, settings_nonstop, settings_sync, sync_on};
use crate::state::{GameModel, NonstopWinnerModel, Room, RoomModel};

verus! {

pub struct RankedModel {
    pub username: Seq<char>,
    pub rank: i32,
    pub score: i32,
}

impl View for RankedWinner {
    type V = RankedModel;

    open spec fn view(&self) -> RankedModel {
        RankedModel { username: self.username@, rank: self.rank, score: self.score }
    }
}

/// The winners of a non-stop round with their rank, in order.
pub open spec fn ranked(ws: Seq<NonstopWinnerModel>) -> Seq<RankedModel> {
    Seq::new(ws.len(), |i: int| RankedModel { username: ws[i].username, rank: (i + 1) as i32, score: ws[i].score })
}

/// The progress notice of a non-stop round.
pub open spec fn progress_notice(e: RoomEvent, ws: Seq<NonstopWinnerModel>, remaining: nat, total: nat) -> bool {
    e matches RoomEvent::NonstopProgress { winners, remaining_count, total_count }
        && winners@.map_values(|w: RankedWinner| w@) == ranked(ws) && remaining_count == remaining && total_count == total
}

/// The game after the state broadcast: in a synchronised round the waiting notice is sent
/// (or skipped when it repeats the last one too soon, unless `force`).
pub open spec fn broadcast_game(ps: Seq<crate::state::PlayerModel>, g: GameModel, force: bool, now: i64) -> GameModel {
    if sync_on(g.settings) {
        noted(g, waiting_key(g.sync_round, sync_entries(ps, g.sync_players_completed)), force, now)
    } else {
        g
    }
}

pub open spec fn broadcast_skips(ps: Seq<crate::state::PlayerModel>, g: GameModel, force: bool, now: i64) -> bool {
    skips_waiting(g, waiting_key(g.sync_round, sync_entries(ps, g.sync_players_completed)), force, now)
}

/// The state sent out at `now` from `r1`, leaving `r2`: in a synchronised round the waiting
/// notice (unless it repeats the last one too soon and `force` is off), in a non-stop round
/// the ranked winners with how many players are left of how many.
pub open spec fn broadcast_msgs(r1: RoomModel, r2: RoomModel, evs: Seq<RoomEvent>, force: bool, now: i64) -> bool {
    match r1.current_game {
        None => r2 == r1 && evs.len() == 0,
        Some(g) => {
            let ps = r1.players;
            let sync_part = if sync_on(g.settings) { waiting_kinds(broadcast_skips(ps, g, force, now)) } else { Seq::empty() };
            let nonstop_part = if nonstop_on(g.settings) { seq![EventKind::NonstopProgress] } else { Seq::empty() };
            &&& r2 == (RoomModel { current_game: Some(broadcast_game(ps, g, force, now)), ..r1 })
            &&& kinds(evs) == sync_part + nonstop_part
            &&& sync_part.len() == 1 ==> waiting_notice(evs[0], g.sync_round, sync_entries(ps, g.sync_players_completed))
            &&& nonstop_on(g.settings) ==> progress_notice(evs.last(), g.nonstop_winners, remaining_count(ps), active_count(ps))
        },
    }
}

/// Sends the state of a synchronised round (who is done with the turn) and of a non-stop
/// round (the ranked winners, and how many players are left of how many).
pub fn emit_sync_and_nonstop_state_at(room: &mut Room, force_sync_waiting: bool, now: i64) -> (events: Vec<RoomEvent>)
    requires
        old(room).wf(),
    ensures
        final(room).wf(),
        broadcast_msgs(old(room)@, final(room)@, events@, force_sync_waiting, now),
{
    let ghost r0 = room@;
    let mut events: Vec<RoomEvent> = Vec::new();
    if room.current_game.is_none() {
        return events;
    }
    let mut game = room.current_game.take().unwrap();
    let ghost g = game@;
    if settings_sync(&game.settings) {
        let statuses = collect_statuses(&room.players, &game.sync_players_completed);
        let round = game.sync_round;
        let skip = should_skip_sync_waiting(&mut game, round, &statuses, force_sync_waiting, now);
        if !skip {
            let done = count_done(&statuses);
            let total = statuses.len();
            events.push(RoomEvent::SyncWaiting { round, statuses, completed_count: done, total_count: total });
        }
    }
    let ghost head = events@;
    if settings_nonstop(&game.settings) {
        let (total, remaining) = count_active(&room.players);
        let mut winners: Vec<RankedWinner> = Vec::new();
        let mut k: usize = 0;
        while k < game.nonstop_winners.len()
            invariant
                k <= game.nonstop_winners@.len(),
                game.nonstop_winners@.len() == g.nonstop_winners.len(),
                forall|j: int| 0 <= j < game.nonstop_winners@.len() ==> #[trigger] game.nonstop_winners@[j]@ == g.nonstop_winners[j],
                winners@.len() == k,
                forall|j: int| 0 <= j < k ==> #[trigger] winners@[j]@ == ranked(g.nonstop_winners)[j],
            decreases game.nonstop_winners@.len() - k,
        {
            let next: usize = k + 1;
            let rank: i32 = #[verifier::truncate] (next as i32);
            let ghost before = winners@;
            winners.push(RankedWinner { username: game.nonstop_winners[k].username.clone(), rank, score: game.nonstop_winners[k].score });
            assert(game.nonstop_winners@[k as int]@ == g.nonstop_winners[k as int]);
            assert(ranked(g.nonstop_winners)[k as int] == RankedModel {
                username: g.nonstop_winners[k as int].username, rank: (k + 1) as i32, score: g.nonstop_winners[k as int].score });
            assert(winners@[k as int]@.rank == (k + 1) as i32);
            assert(winners@[k as int]@.username == g.nonstop_winners[k as int].username);
            assert(winners@[k as int]@ == ranked(g.nonstop_winners)[k as int]);
            assert forall|j: int| 0 <= j < k implies #[trigger] winners@[j] == before[j] by {}
            k = k + 1;
        }
        assert(winners@.map_values(|w: RankedWinner| w@) =~= ranked(g.nonstop_winners));
        events.push(RoomEvent::NonstopProgress { winners, remaining_count: remaining, total_count: total });
    }
    room.current_game = Some(game);
    proof {
        let ps = r0.players;
        let sync_part = if sync_on(g.settings) { waiting_kinds(broadcast_skips(ps, g, force_sync_waiting, now)) } else { Seq::empty() };
        let nonstop_part = if nonstop_on(g.settings) { seq![EventKind::NonstopProgress] } else { Seq::empty() };
        assert(room@ == (RoomModel { current_game: Some(broadcast_game(ps, g, force_sync_waiting, now)), ..r0 }));
        assert(kinds(events@) == sync_part + nonstop_part);
        assert(sync_part.len() == 1 ==> waiting_notice(events@[0], g.sync_round, sync_entries(ps, g.sync_players_completed)));
        assert(nonstop_on(g.settings) ==> progress_notice(events@.last(), g.nonstop_winners, remaining_count(ps), active_count(ps)));
    }
    events
}

/// `emit_sync_and_nonstop_state_at` at the time of the system clock.
pub fn emit_sync_and_nonstop_state(room: &mut Room, force_sync_waiting: bool) -> (events: Vec<RoomEvent>)
    requires
        old(room).wf(),
    ensures
        final(room).wf(),
        exists|now: i64| #[trigger] any_time(now) && broadcast_msgs(old(room)@, final(room)@, events@, force_sync_waiting, now),
{
    let now = now_millis();
    let events = emit_sync_and_nonstop_state_at(room, force_sync_waiting, now);
    assert(any_time(now));
    events
}

/// Any reading of the clock: the clock is not modelled.
pub open spec fn any_time(now: i64) -> bool {
    true
}


/// `update_sync_progress_at` at the time of the system clock.
pub fn update_sync_progress(room: &mut Room) -> (events: Vec<RoomEvent>)
    requires
        old(room).wf(),
        old(room)@.players.len() <= i32::MAX,
        old(room)@.current_game matches Some(g) ==> g.sync_round < u32::MAX && g.nonstop_winners.len() < u32::MAX,
    ensures
        final(room).wf(),
        final(room)@.players.len() == old(room)@.players.len(),
        exists|now: i64| #[trigger] any_time(now) && crate::gameplay::turns::sync_progress(old(room)@, final(room)@, events@, now),
{
    let now = now_millis();
    let events = update_sync_progress_at(room, now);
    assert(any_time(now));
    events
}

/// The stages of `run_standard_flow_at` from `r0` through `r1` and `r2` to `r3`, sending
/// `e1`, `e2` and `e3`: the synchronised turn taken stock of (in synchronised mode), the
/// state sent out (when asked), then the round ended if over, non-stop or standard.
pub open spec fn flow_stages_via(
    r0: RoomModel, r1: RoomModel, r2: RoomModel, r3: RoomModel,
    e1: Seq<RoomEvent>, e2: Seq<RoomEvent>, e3: Seq<RoomEvent>,
    done: bool, force: bool, broadcast: bool, now: i64,
) -> bool {
    &&& (if r0.current_game matches Some(g) && sync_on(g.settings) {
        crate::gameplay::turns::sync_progress(r0, r1, e1, now)
    } else {
        r1 == r0 && e1.len() == 0
    })
    &&& (if broadcast { broadcast_msgs(r1, r2, e2, false, now) } else { r2 == r1 && e2.len() == 0 })
    &&& (if r2.current_game matches Some(g2) && nonstop_on(g2.settings) {
        nonstop_finish(r2, r3, done, e3)
    } else {
        r3 == finalized_room(r2, force) && finalize_msgs(r2, force, done, e3)
    })
}

/// `r3` and the messages `evs` come from `r0` through the stages of `run_standard_flow_at`.
pub open spec fn flow_stages(r0: RoomModel, r3: RoomModel, evs: Seq<RoomEvent>, done: bool, force: bool, broadcast: bool, now: i64) -> bool {
    exists|r1: RoomModel, r2: RoomModel, e1: Seq<RoomEvent>, e2: Seq<RoomEvent>, e3: Seq<RoomEvent>|
        #[trigger] flow_stages_via(r0, r1, r2, r3, e1, e2, e3, done, force, broadcast, now) && evs == e1 + e2 + e3
}

/// After a change in a round: a synchronised round takes stock of the turn, the state goes
/// out when asked, and the round ends if it is over (non-stop or standard). `true` when this
/// last step ended the round.
#[verifier::rlimit(40)]
pub fn run_standard_flow_at(room: &mut Room, force_finalize: bool, broadcast_state: bool, now: i64) -> (r: (bool, Vec<RoomEvent>))
    requires
        old(room).wf(),
        old(room)@.players.len() < i32::MAX,
        old(room)@.current_game matches Some(g) ==> g.sync_round < u32::MAX && g.nonstop_winners.len() < u32::MAX
            && winner_scores_fit(g.nonstop_winners),
    ensures
        final(room).wf(),
        final(room)@.players.len() == old(room)@.players.len(),
        old(room)@.current_game is None ==> final(room)@ == old(room)@ && !r.0 && r.1@.len() == 0,
        r.0 ==> final(room)@.current_game is None,
        (old(room)@.current_game matches Some(g) && !sync_on(g.settings) && !nonstop_on(g.settings) && !broadcast_state)
            ==> final(room)@ == finalized_room(old(room)@, force_finalize),
        old(room)@.current_game is Some ==> flow_stages(old(room)@, final(room)@, r.1@, r.0, force_finalize, broadcast_state, now),
{
    let ghost r0 = room@;
    let mut events: Vec<RoomEvent> = Vec::new();
    let sync = match &room.current_game {
        Some(g) => settings_sync(&g.settings),
        None => { return (false, events); },
    };
    let ghost g0 = room@.current_game->0;
    let mut e1: Vec<RoomEvent> = Vec::new();
    if sync {
        e1 = update_sync_progress_at(room, now);
    }
    let ghost r1 = room@;
    let ghost v1 = e1@;
    events.append(&mut e1);
    let mut e2: Vec<RoomEvent> = Vec::new();
    if broadcast_state {
        e2 = emit_sync_and_nonstop_state_at(room, false, now);
    }
    let ghost r2 = room@;
    let ghost v2 = e2@;
    events.append(&mut e2);
    let nonstop = match &room.current_game {
        Some(g) => settings_nonstop(&g.settings),
        None => false,
    };
    let (done, mut e3) = if nonstop { finalize_nonstop_game(room) } else { finalize_standard_game(room, force_finalize) };
    let ghost v3 = e3@;
    events.append(&mut e3);
    assert(events@ =~= v1 + v2 + v3);
    assert(flow_stages_via(r0, r1, r2, room@, v1, v2, v3, done, force_finalize, broadcast_state, now));
    (done, events)
}

/// `run_standard_flow_at` at the time of the system clock.
pub fn run_standard_flow(room: &mut Room, force_finalize: bool, broadcast_state: bool) -> (r: (bool, Vec<RoomEvent>))
    requires
        old(room).wf(),
        old(room)@.players.len() < i32::MAX,
        old(room)@.current_game matches Some(g) ==> g.sync_round < u32::MAX && g.nonstop_winners.len() < u32::MAX
            && winner_scores_fit(g.nonstop_winners),
    ensures
        final(room).wf(),
        old(room)@.current_game is None ==> final(room)@ == old(room)@ && !r.0 && r.1@.len() == 0,
        r.0 ==> final(room)@.current_game is None,
        (old(room)@.current_game matches Some(g) && !sync_on(g.settings) && !nonstop_on(g.settings) && !broadcast_state)
            ==> final(room)@ == finalized_room(old(room)@, force_finalize),
        exists|now: i64| #[trigger] any_time(now)
            && (old(room)@.current_game is Some ==> flow_stages(old(room)@, final(room)@, r.1@, r.0, force_finalize, broadcast_state, now)),
{
    let now = now_millis();
    let r = run_standard_flow_at(room, force_finalize, broadcast_state, now);
    assert(any_time(now));
    r
}

} // verus!
