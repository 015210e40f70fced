//! Round set-up, observers, team victories and the end-of-round settlement.
use vstd::prelude::*;
use crate::gameplay::events::{RoomEvent, SetterField};
use crate::gameplay::marks::{RESULT_TEAM_WIN, lemma_mark_texts, team_win_text};
use crate::gameplay::rules::{
    find_player, find_player_index, is_spectator, is_spectator_team, lemma_find_player_result,
};
use crate::keyed::{IdSet, TeamMarks, TeamResults, texts};
use crate::settings::{GameSettings, nonstop_on, opt_settings, opt_text, settings_nonstop, settings_sync, sync_on};
use crate::state::{
    CharacterPayload, CurrentGame, GameModel, HistoryModel, Player, PlayerGuessHistory,
    PlayerModel, Room, RoomModel, histories_view, opt_texts, players_view,
};
use crate::text::text_eq;
use crate::state::now_millis;

verus! {

/// Copies of all players.
pub fn players_snapshot(ps: &Vec<Player>) -> (r: Vec<Player>)
    ensures
        players_view(r@) == players_view(ps@),
{
    let mut out: Vec<Player> = Vec::new();
    let mut i: usize = 0;
    while i < ps.len()
        invariant
            i <= ps@.len(),
            out@.len() == i,
            forall|j: int| 0 <= j < i ==> #[trigger] out@[j]@ == ps@[j]@,
        decreases ps@.len() - i,
    {
        out.push(ps[i].duplicate());
        i = i + 1;
    }
    assert(players_view(out@) =~= players_view(ps@));
    out
}

/// Reason shown for the setter's score in a standard round.
pub open spec fn setter_reason(winner_guess_count: int, has_big_winner: bool, total_rounds: int) -> Seq<char> {
    if has_big_winner {
        "纯在送分"@
    } else if winner_guess_count > 0 {
        if winner_guess_count <= 3 {
            "太简单了"@
        } else if 2 * winner_guess_count > total_rounds {
            "难度适中"@
        } else {
            ""@
        }
    } else {
        "没人猜中"@
    }
}

pub fn setter_score_reason(winner_guess_count: i32, has_big_winner: bool, big_winner_score: i32, total_rounds: i32) -> (r: &'static str)
    ensures
        r@ == setter_reason(winner_guess_count as int, has_big_winner, total_rounds as int),
{
    if has_big_winner {
        return "纯在送分";
    }
    if winner_guess_count > 0 {
        if winner_guess_count <= 3 {
            return "太简单了";
        }
        if 2 * (winner_guess_count as i64) > total_rounds as i64 {
            return "难度适中";
        }
        return "";
    }
    let _ = big_winner_score;
    "没人猜中"
}

/// Reason shown for the setter's score in a non-stop round.
pub open spec fn nonstop_setter_reason(has_big_winner: bool, winners_count: int, total_players_count: int) -> Seq<char> {
    let total = if total_players_count > 1 { total_players_count } else { 1 };
    if has_big_winner {
        "纯在送分"@
    } else if winners_count == 0 {
        "无人猜中"@
    } else if 4 * winners_count <= total {
        "难度偏高"@
    } else if 4 * winners_count >= 3 * total {
        "难度偏低"@
    } else {
        "难度适中"@
    }
}

pub fn nonstop_setter_score_reason(has_big_winner: bool, winners_count: i32, total_players_count: i32) -> (r: &'static str)
    ensures
        r@ == nonstop_setter_reason(has_big_winner, winners_count as int, total_players_count as int),
{
    if has_big_winner {
        return "纯在送分";
    }
    if winners_count == 0 {
        return "无人猜中";
    }
    let total: i64 = if total_players_count > 1 { total_players_count as i64 } else { 1 };
    let w: i64 = winners_count as i64;
    if 4 * w <= total {
        return "难度偏高";
    }
    if 4 * w >= 3 * total {
        return "难度偏低";
    }
    "难度适中"
}

/// Whether `p` counts as an active player when a round starts.
pub open spec fn starts_active(p: PlayerModel, setter: Option<Seq<char>>) -> bool {
    !p.disconnected && !is_spectator_team(p.team) && !p.temp_observer && setter != Some(p.id)
}

pub open spec fn count_starting(ps: Seq<PlayerModel>, setter: Option<Seq<char>>) -> nat
    decreases ps.len(),
{
    if ps.len() == 0 {
        0
    } else {
        count_starting(ps.drop_last(), setter) + if starts_active(ps.last(), setter) { 1nat } else { 0nat }
    }
}

/// A player's state at the start of a round.
pub open spec fn reset_for_round(p: PlayerModel, setter: Option<Seq<char>>) -> PlayerModel {
    PlayerModel {
        attempt_marks: Seq::empty(),
        round_result: None,
        temp_observer: false,
        sync_completed_round: None,
        is_answer_setter: setter == Some(p.id),
        ..p
    }
}

/// Empty guess histories for the players who guess this round, in player order.
pub open spec fn starting_histories(ps: Seq<PlayerModel>, setter: Option<Seq<char>>) -> Seq<HistoryModel>
    decreases ps.len(),
{
    if ps.len() == 0 {
        Seq::empty()
    } else {
        let prev = starting_histories(ps.drop_last(), setter);
        let p = ps.last();
        if setter != Some(p.id) && !is_spectator_team(p.team) {
            prev.push(HistoryModel { username: p.username, guesses: Seq::empty() })
        } else {
            prev
        }
    }
}

/// One empty mark list per real team of the players.
pub open spec fn starting_team_marks(ps: Seq<PlayerModel>) -> Map<Seq<char>, Seq<Seq<char>>>
    decreases ps.len(),
{
    if ps.len() == 0 {
        Map::empty()
    } else {
        let prev = starting_team_marks(ps.drop_last());
        let p = ps.last();
        if p.team is Some && !is_spectator_team(p.team) && !prev.dom().contains(p.team->0) {
            prev.insert(p.team->0, Seq::empty())
        } else {
            prev
        }
    }
}

/// The room once a round starts at time `now` with answer `c`.
pub open spec fn started_room(r: RoomModel, c: crate::state::CharacterModel, settings: Option<crate::settings::SettingsModel>,
    hints: Option<Seq<Seq<char>>>, setter: Option<Seq<char>>, now: i64) -> RoomModel {
    RoomModel {
        players: r.players.map_values(|p: PlayerModel| reset_for_round(p, setter)),
        current_game: Some(GameModel {
            character: c,
            settings,
            guesses: starting_histories(r.players, setter),
            team_attempt_marks: starting_team_marks(r.players),
            team_round_results: Map::empty(),
            hints,
            sync_round: 1,
            sync_players_completed: Set::empty(),
            sync_winner_found: false,
            sync_winner: None,
            sync_ready_to_end: false,
            sync_round_start_rank: 1,
            nonstop_winners: Seq::empty(),
            nonstop_total_players: count_starting(r.players, setter) as i32,
            first_winner: None,
            tag_ban_state: Seq::empty(),
            tag_ban_state_pending: Seq::empty(),
            last_sync_waiting_key: None,
            last_sync_waiting_at: 0,
        }),
        last_active: now,
        ..r
    }
}

fn is_setter(setter: Option<&str>, id: &str) -> (r: bool)
    ensures
        r == (crate::settings::opt_str(setter) == Some(id@)),
{
    match setter {
        Some(s) => text_eq(s, id),
        None => false,
    }
}

/// Clears a player's round state and sets whether they set the answer.
fn reset_player(p: &mut Player, setter_here: bool)
    ensures
        final(p)@ == (PlayerModel {
            attempt_marks: Seq::empty(),
            round_result: None,
            temp_observer: false,
            sync_completed_round: None,
            is_answer_setter: setter_here,
            ..old(p)@
        }),
{
    p.attempt_marks.clear();
    p.round_result = None;
    if p.temp_observer {
        p.temp_observer = false;
    }
    p.sync_completed_round = None;
    p.is_answer_setter = setter_here;
    assert(texts(p.attempt_marks@) =~= Seq::<Seq<char>>::empty());
}

proof fn lemma_count_step(ps: Seq<PlayerModel>, i: int, setter: Option<Seq<char>>)
    requires
        0 <= i < ps.len(),
    ensures
        count_starting(ps.take(i + 1), setter) == count_starting(ps.take(i), setter)
            + if starts_active(ps[i], setter) { 1nat } else { 0nat },
        starting_histories(ps.take(i + 1), setter) == (if setter != Some(ps[i].id) && !is_spectator_team(ps[i].team) {
            starting_histories(ps.take(i), setter).push(HistoryModel { username: ps[i].username, guesses: Seq::empty() })
        } else {
            starting_histories(ps.take(i), setter)
        }),
        starting_team_marks(ps.take(i + 1)) == (if ps[i].team is Some && !is_spectator_team(ps[i].team)
            && !starting_team_marks(ps.take(i)).dom().contains(ps[i].team->0) {
            starting_team_marks(ps.take(i)).insert(ps[i].team->0, Seq::empty())
        } else {
            starting_team_marks(ps.take(i))
        }),
{
    assert(ps.take(i + 1).drop_last() =~= ps.take(i));
    assert(ps.take(i + 1).last() == ps[i]);
}

/// Starts a round at time `now`: resets every player's round state, marks the answer setter,
/// opens an empty guess history for each guessing player and an empty mark list per team.
pub fn init_game_state_at(
    room: &mut Room,
    character: CharacterPayload,
    settings: Option<GameSettings>,
    hints: Option<Vec<String>>,
    answer_setter_id: Option<&str>,
    now: i64,
)
    ensures
        final(room).wf(),
        final(room)@ == started_room(old(room)@, character@, opt_settings(settings), opt_texts(hints),
            crate::settings::opt_str(answer_setter_id), now),
{
    let ghost setter = crate::settings::opt_str(answer_setter_id);
    let ghost ps0 = players_view(room.players@);
    let ghost r0 = room@;
    let mut count: usize = 0;
    let mut i: usize = 0;
    while i < room.players.len()
        invariant
            i <= room.players@.len(),
            ps0 == players_view(room.players@),
            setter == crate::settings::opt_str(answer_setter_id),
            count == count_starting(ps0.take(i as int), setter),
            count <= i,
        decreases room.players@.len() - i,
    {
        proof { lemma_count_step(ps0, i as int, setter); }
        let p = &room.players[i];
        assert(ps0[i as int] == p@);
        let active = !p.disconnected && !is_spectator(&p.team) && !p.temp_observer
            && !is_setter(answer_setter_id, p.id.as_str());
        assert(active == starts_active(ps0[i as int], setter));
        if active {
            count = count + 1;
        }
        i = i + 1;
    }
    assert(ps0.take(ps0.len() as int) =~= ps0);
    let mut guesses: Vec<PlayerGuessHistory> = Vec::new();
    let mut i: usize = 0;
    while i < room.players.len()
        invariant
            i <= room.players@.len(),
            room.players@.len() == ps0.len(),
            setter == crate::settings::opt_str(answer_setter_id),
            forall|j: int| 0 <= j < i ==> #[trigger] room.players@[j]@ == reset_for_round(ps0[j], setter),
            forall|j: int| i <= j < ps0.len() ==> #[trigger] room.players@[j]@ == ps0[j],
            room@ == (RoomModel { players: room@.players, ..r0 }),
            histories_view(guesses@) == starting_histories(ps0.take(i as int), setter),
        decreases room.players@.len() - i,
    {
        proof { lemma_count_step(ps0, i as int, setter); }
        let ghost before = room.players@;
        let ghost hs = histories_view(guesses@);
        assert(before[i as int]@ == ps0[i as int]);
        let setter_here = is_setter(answer_setter_id, room.players[i].id.as_str());
        let guessing = !setter_here && !is_spectator(&room.players[i].team);
        if guessing {
            let h = PlayerGuessHistory { username: room.players[i].username.clone(), guesses: Vec::new() };
            assert(h@.guesses =~= Seq::<crate::state::GuessModel>::empty());
            assert(h@ == HistoryModel { username: ps0[i as int].username, guesses: Seq::empty() });
            guesses.push(h);
            assert(histories_view(guesses@) =~= hs.push(h@));
        }
        reset_player(&mut room.players[i], setter_here);
        assert(room.players@[i as int]@ == reset_for_round(ps0[i as int], setter));
        assert forall|j: int| 0 <= j < room.players@.len() && j != i implies #[trigger] room.players@[j] == before[j] by {}
        i = i + 1;
    }
    assert(ps0.take(ps0.len() as int) =~= ps0);
    assert(players_view(room.players@) =~= ps0.map_values(|p: PlayerModel| reset_for_round(p, setter)));
    let mut marks = TeamMarks::new();
    let mut i: usize = 0;
    while i < room.players.len()
        invariant
            i <= room.players@.len(),
            room.players@.len() == ps0.len(),
            forall|j: int| 0 <= j < ps0.len() ==> #[trigger] room.players@[j]@ == reset_for_round(ps0[j], setter),
            marks.wf(),
            marks@ == starting_team_marks(ps0.take(i as int)),
        decreases room.players@.len() - i,
    {
        proof { lemma_count_step(ps0, i as int, setter); }
        assert(room.players@[i as int]@.team == ps0[i as int].team);
        match &room.players[i].team {
            Some(t) => {
                if !is_spectator(&room.players[i].team) {
                    marks.ensure_team(t.as_str());
                }
            },
            None => {},
        }
        i = i + 1;
    }
    assert(ps0.take(ps0.len() as int) =~= ps0);
    assert(players_view(room.players@) =~= ps0.map_values(|p: PlayerModel| reset_for_round(p, setter)));
    let game = CurrentGame {
        character,
        settings,
        guesses,
        team_attempt_marks: marks,
        team_round_results: TeamResults::new(),
        hints,
        sync_round: 1,
        sync_players_completed: IdSet::new(),
        sync_winner_found: false,
        sync_winner: None,
        sync_ready_to_end: false,
        sync_round_start_rank: 1,
        nonstop_winners: Vec::new(),
        nonstop_total_players: #[verifier::truncate] (count as i32),
        first_winner: None,
        tag_ban_state: Vec::new(),
        tag_ban_state_pending: Vec::new(),
        last_sync_waiting_key: None,
        last_sync_waiting_at: 0,
    };
    room.current_game = Some(game);
    room.last_active = now;
    assert(room@.current_game->0.nonstop_winners =~= Seq::<crate::state::NonstopWinnerModel>::empty());
    assert(room@.current_game->0.tag_ban_state =~= Seq::<crate::state::TagBanModel>::empty());
    assert(room@.current_game->0.tag_ban_state_pending =~= Seq::<crate::state::TagBanModel>::empty());
    assert(room@.current_game->0.guesses == starting_histories(ps0, setter));
    assert(room@.current_game->0.team_attempt_marks == starting_team_marks(ps0));
    let ghost target = started_room(old(room)@, character@, opt_settings(settings), opt_texts(hints), setter, now);
    assert(room@.players =~= target.players);
}


/// The players with every temporary observer back in the game.
pub open spec fn unobserved(ps: Seq<PlayerModel>) -> Seq<PlayerModel> {
    ps.map_values(|p: PlayerModel| PlayerModel { temp_observer: false, ..p })
}

pub open spec fn any_observer(ps: Seq<PlayerModel>) -> bool {
    exists|i: int| 0 <= i < ps.len() && #[trigger] ps[i].temp_observer
}

/// An update of the player list, without the visibility and the setter fields.
pub open spec fn plain_update(e: RoomEvent, ps: Seq<PlayerModel>) -> bool {
    e matches RoomEvent::UpdatePlayers { players, is_public, answer_setter }
        && players_view(players@) == ps && is_public is None && answer_setter is Omitted
}

/// Ends every temporary observation; the players update is sent only if one ended.
pub fn revert_setter_observers(room: &mut Room) -> (r: Option<RoomEvent>)
    ensures
        final(room)@ == (RoomModel { players: unobserved(old(room)@.players), ..old(room)@ }),
        final(room).wf() == old(room).wf(),
        r is Some == any_observer(old(room)@.players),
        r matches Some(e) ==> plain_update(e, final(room)@.players),
{
    let ghost r0 = room@;
    let ghost ps0 = room@.players;
    let mut changed = false;
    let mut i: usize = 0;
    while i < room.players.len()
        invariant
            i <= room.players@.len(),
            room.players@.len() == ps0.len(),
            room@ == (RoomModel { players: room@.players, ..r0 }),
            room.current_game == old(room).current_game,
            forall|j: int| 0 <= j < i ==> #[trigger] room.players@[j]@ == (PlayerModel { temp_observer: false, ..ps0[j] }),
            forall|j: int| i <= j < ps0.len() ==> #[trigger] room.players@[j]@ == ps0[j],
            changed == exists|j: int| 0 <= j < i && #[trigger] ps0[j].temp_observer,
        decreases room.players@.len() - i,
    {
        let ghost before = room.players@;
        assert(before[i as int]@ == ps0[i as int]);
        if room.players[i].temp_observer {
            room.players[i].temp_observer = false;
            changed = true;
        }
        assert(room.players@[i as int]@ == (PlayerModel { temp_observer: false, ..ps0[i as int] }));
        assert(changed == exists|j: int| 0 <= j < i + 1 && #[trigger] ps0[j].temp_observer) by {
            if ps0[i as int].temp_observer {
                assert(ps0[i as int].temp_observer);
            } else if exists|j: int| 0 <= j < i + 1 && #[trigger] ps0[j].temp_observer {
                let j = choose|j: int| 0 <= j < i + 1 && #[trigger] ps0[j].temp_observer;
                assert(j < i);
            }
        }
        assert forall|j: int| 0 <= j < room.players@.len() && j != i implies #[trigger] room.players@[j] == before[j] by {}
        i = i + 1;
    }
    assert(room@.players =~= unobserved(ps0));
    if changed {
        Some(RoomEvent::UpdatePlayers { players: players_snapshot(&room.players), is_public: None, answer_setter: SetterField::Omitted })
    } else {
        None
    }
}

/// A member of the setter's team, other than the setter, who watches while the setter's
/// answer is guessed.
pub open spec fn observer_mark(p: PlayerModel, t: Seq<char>, setter_id: Seq<char>) -> PlayerModel {
    if p.team == Some(t) && p.id != setter_id && !p.is_answer_setter && !p.disconnected {
        PlayerModel { temp_observer: true, ..p }
    } else {
        p
    }
}

/// The setter's team, when the setter is in the room and in a real team.
pub open spec fn setter_team(r: RoomModel, setter_id: Seq<char>) -> Option<Seq<char>> {
    match find_player(r.players, setter_id) {
        Some(i) => if r.players[i].team is Some && !is_spectator_team(r.players[i].team) { r.players[i].team } else { None },
        None => None,
    }
}

/// An update of the player list that carries the answer setter's id.
pub open spec fn setter_update(e: RoomEvent, ps: Seq<PlayerModel>, setter: Option<Seq<char>>) -> bool {
    e matches RoomEvent::UpdatePlayers { players, is_public, answer_setter }
        && players_view(players@) == ps && is_public is None
        && (answer_setter matches SetterField::Id(a) && opt_text(a) == setter)
}

/// Makes the setter's teammates temporary observers; sends the player list (with the
/// setter field) if the setter is in a real team, and does nothing otherwise.
pub fn apply_setter_observers(room: &mut Room, setter_id: &str) -> (r: Option<RoomEvent>)
    ensures
        final(room).wf() == old(room).wf(),
        match setter_team(old(room)@, setter_id@) {
            Some(t) => {
                &&& final(room)@ == (RoomModel {
                    players: old(room)@.players.map_values(|p: PlayerModel| observer_mark(p, t, setter_id@)),
                    ..old(room)@
                })
                &&& r matches Some(e) && setter_update(e, final(room)@.players, old(room)@.answer_setter_id)
            },
            None => final(room)@ == old(room)@ && r is None,
        },
{
    let ghost r0 = room@;
    let ghost ps0 = room@.players;
    proof { lemma_find_player_result(ps0, setter_id@); }
    let idx = match find_player_index(&room.players, setter_id) {
        Some(i) => i,
        None => { return None; },
    };
    let team = match &room.players[idx].team {
        Some(t) => t.clone(),
        None => { return None; },
    };
    if is_spectator(&room.players[idx].team) {
        return None;
    }
    let ghost t = team@;
    let mut i: usize = 0;
    while i < room.players.len()
        invariant
            i <= room.players@.len(),
            room.players@.len() == ps0.len(),
            room@ == (RoomModel { players: room@.players, ..r0 }),
            room.current_game == old(room).current_game,
            t == team@,
            forall|j: int| 0 <= j < i ==> #[trigger] room.players@[j]@ == observer_mark(ps0[j], t, setter_id@),
            forall|j: int| i <= j < ps0.len() ==> #[trigger] room.players@[j]@ == ps0[j],
        decreases room.players@.len() - i,
    {
        let ghost before = room.players@;
        assert(before[i as int]@ == ps0[i as int]);
        let in_team = match &room.players[i].team {
            Some(pt) => text_eq(pt.as_str(), team.as_str()),
            None => false,
        };
        if in_team && !text_eq(room.players[i].id.as_str(), setter_id) && !room.players[i].is_answer_setter
            && !room.players[i].disconnected {
            room.players[i].temp_observer = true;
        }
        assert(room.players@[i as int]@ == observer_mark(ps0[i as int], t, setter_id@));
        assert forall|j: int| 0 <= j < room.players@.len() && j != i implies #[trigger] room.players@[j] == before[j] by {}
        i = i + 1;
    }
    assert(room@.players =~= ps0.map_values(|p: PlayerModel| observer_mark(p, t, setter_id@)));
    Some(RoomEvent::UpdatePlayers {
        players: players_snapshot(&room.players),
        is_public: None,
        answer_setter: SetterField::Id(crate::state::dup_opt_text(&room.answer_setter_id)),
    })
}


/// The teammates of the winner `wid` in team `t` that share the win: connected players of
/// the team other than the winner and the setter, in order.
pub open spec fn victory_members(ps: Seq<PlayerModel>, t: Seq<char>, wid: Seq<char>) -> Seq<Seq<char>>
    decreases ps.len(),
{
    if ps.len() == 0 {
        Seq::empty()
    } else {
        let prev = victory_members(ps.drop_last(), t, wid);
        let p = ps.last();
        if p.team == Some(t) && p.id != wid && !p.is_answer_setter && !p.disconnected { prev.push(p.id) } else { prev }
    }
}

/// The first player with id `id` wins with the team and watches the rest of the round.
pub open spec fn team_win_one(ps: Seq<PlayerModel>, id: Seq<char>) -> Seq<PlayerModel> {
    match find_player(ps, id) {
        Some(i) => ps.update(i, PlayerModel { round_result: Some(team_win_text()), temp_observer: true, ..ps[i] }),
        None => ps,
    }
}

pub open spec fn team_win_all(ps: Seq<PlayerModel>, ids: Seq<Seq<char>>) -> Seq<PlayerModel>
    decreases ids.len(),
{
    if ids.len() == 0 { ps } else { team_win_one(team_win_all(ps, ids.drop_last()), ids.last()) }
}

/// The winner watches the rest of a synchronised round that is not non-stop.
pub open spec fn winner_watches(ps: Seq<PlayerModel>, g: GameModel, wid: Seq<char>) -> Seq<PlayerModel> {
    if !nonstop_on(g.settings) && sync_on(g.settings) {
        match find_player(ps, wid) {
            Some(i) => if !is_spectator_team(ps[i].team) { ps.update(i, PlayerModel { temp_observer: true, ..ps[i] }) } else { ps },
            None => ps,
        }
    } else {
        ps
    }
}

/// The team of the winner `wid`, when there is a round and the winner is in a real team.
pub open spec fn victory_team(r: RoomModel, wid: Seq<char>) -> Option<Seq<char>> {
    match r.current_game {
        Some(_) => match find_player(r.players, wid) {
            Some(i) => if r.players[i].team is Some && !is_spectator_team(r.players[i].team) { r.players[i].team } else { None },
            None => None,
        },
        None => None,
    }
}

/// The room once the team of `wid` has won.
pub open spec fn victory_room(r: RoomModel, t: Seq<char>, wid: Seq<char>) -> RoomModel {
    let g = r.current_game->0;
    let ids = victory_members(r.players, t, wid);
    RoomModel {
        players: winner_watches(team_win_all(r.players, ids), g, wid),
        current_game: Some(GameModel {
            team_round_results: g.team_round_results.insert(t, team_win_text()),
            sync_players_completed: g.sync_players_completed.difference(ids.to_set()),
            ..g
        }),
        ..r
    }
}

proof fn lemma_victory_ids(ps: Seq<PlayerModel>, t: Seq<char>, wid: Seq<char>)
    ensures
        forall|j: int| 0 <= j < victory_members(ps, t, wid).len() ==>
            exists|i: int| 0 <= i < ps.len() && ps[i].id == #[trigger] victory_members(ps, t, wid)[j],
    decreases ps.len(),
{
    if ps.len() > 0 {
        lemma_victory_ids(ps.drop_last(), t, wid);
        let prev = victory_members(ps.drop_last(), t, wid);
        assert forall|j: int| 0 <= j < victory_members(ps, t, wid).len() implies
            exists|i: int| 0 <= i < ps.len() && ps[i].id == #[trigger] victory_members(ps, t, wid)[j] by {
            if j < prev.len() {
                let i = choose|i: int| 0 <= i < ps.drop_last().len() && ps.drop_last()[i].id == prev[j];
                assert(ps[i].id == prev[j]);
            } else {
                assert(ps[ps.len() - 1].id == victory_members(ps, t, wid)[j]);
            }
        }
    }
}

pub(crate) fn team_members_except(players: &Vec<Player>, t: &str, wid: &str) -> (r: Vec<String>)
    ensures
        texts(r@) == victory_members(players_view(players@), t@, wid@),
{
    let ghost ps = players_view(players@);
    let mut out: Vec<String> = Vec::new();
    let mut i: usize = 0;
    while i < players.len()
        invariant
            i <= players@.len(),
            ps == players_view(players@),
            texts(out@) == victory_members(ps.take(i as int), t@, wid@),
        decreases players@.len() - i,
    {
        assert(ps.take(i + 1).drop_last() =~= ps.take(i as int));
        assert(ps.take(i + 1).last() == players@[i as int]@);
        let p = &players[i];
        let in_team = match &p.team {
            Some(pt) => text_eq(pt.as_str(), t),
            None => false,
        };
        if in_team && !text_eq(p.id.as_str(), wid) && !p.is_answer_setter && !p.disconnected {
            out.push(p.id.clone());
            assert(texts(out@) =~= victory_members(ps.take(i + 1), t@, wid@));
        }
        i = i + 1;
    }
    assert(ps.take(players@.len() as int) =~= ps);
    out
}


/// Each listed teammate (first player with the id) wins with the team and watches; the ids
/// leave the set of players done with the synchronised round. One message per teammate.
#[verifier::rlimit(50)]
#[verifier::spinoff_prover]
fn share_team_win(players: &mut Vec<Player>, completed: &mut IdSet, members: &Vec<String>, winner_name: &String) -> (events: Vec<RoomEvent>)
    requires
        old(completed).wf(),
        forall|j: int| 0 <= j < texts(members@).len() ==> find_player(players_view(old(players)@), #[trigger] texts(members@)[j]) is Some,
    ensures
        final(completed).wf(),
        final(completed)@ == old(completed)@.difference(texts(members@).to_set()),
        players_view(final(players)@) == team_win_all(players_view(old(players)@), texts(members@)),
        events@.len() == members@.len(),
        forall|j: int| 0 <= j < events@.len() ==> (#[trigger] events@[j] matches RoomEvent::TeamWin { target, winner_name: n }
            && target@ == texts(members@)[j] && n@ == winner_name@),
{
    let ghost ids = texts(members@);
    let ghost ps0 = players_view(players@);
    let ghost c0 = completed@;
    let mut events: Vec<RoomEvent> = Vec::new();
    proof {
        assert(ids.take(0).to_set() =~= Set::<Seq<char>>::empty());
        assert(c0.difference(ids.take(0).to_set()) =~= c0);
        assert(ids.take(0) =~= Seq::<Seq<char>>::empty());
    }
    let mut k: usize = 0;
    while k < members.len()
        invariant
            k <= members@.len(),
            ids == texts(members@),
            completed.wf(),
            completed@ == c0.difference(ids.take(k as int).to_set()),
            players_view(players@) == team_win_all(ps0, ids.take(k as int)),
            players@.len() == ps0.len(),
            forall|i: int| 0 <= i < ps0.len() ==> #[trigger] players@[i]@.id == ps0[i].id,
            forall|j: int| 0 <= j < ids.len() ==> find_player(ps0, #[trigger] ids[j]) is Some,
            events@.len() == k,
            forall|j: int| 0 <= j < k ==> (#[trigger] events@[j] matches RoomEvent::TeamWin { target, winner_name: n }
                && target@ == ids[j] && n@ == winner_name@),
        decreases members@.len() - k,
    {
        assert(ids.take(k + 1).drop_last() =~= ids.take(k as int));
        assert(ids.take(k + 1).last() == members@[k as int]@);
        let ghost before = players_view(players@);
        proof {
            lemma_mark_texts();
            lemma_find_player_result(before, members@[k as int]@);
            lemma_find_player_result(ps0, ids[k as int]);
            let i0 = find_player(ps0, ids[k as int])->0;
            assert(before[i0].id == ids[k as int]);
        }
        let i = find_player_index(players, members[k].as_str()).unwrap();
        players[i].round_result = Some(RESULT_TEAM_WIN.to_string());
        players[i].temp_observer = true;
        assert(players_view(players@) =~= before.update(i as int, PlayerModel {
            round_result: Some(team_win_text()), temp_observer: true, ..before[i as int]
        }));
        assert forall|j: int| 0 <= j < ps0.len() implies #[trigger] players@[j]@.id == ps0[j].id by {
            if j != i { assert(players@[j]@ == before[j]); }
        }
        completed.remove(members[k].as_str());
        events.push(RoomEvent::TeamWin { target: players[i].id.clone(), winner_name: winner_name.clone() });
        proof {
            assert(ids.take(k + 1) =~= ids.take(k as int).push(ids[k as int]));
            crate::gameplay::tagban::lemma_push_to_set(ids.take(k as int), ids[k as int]);
            assert(completed@ =~= c0.difference(ids.take(k + 1).to_set()));
        }
        k = k + 1;
    }
    assert(ids.take(members@.len() as int) =~= ids);
    events
}

/// The whole team of the winner `winner_id` wins: the team's result, and for each teammate
/// that shares the win (`victory_members`) a team win, watching the rest of the round, no
/// longer counted as done in the synchronised round, and a message; in a synchronised round
/// that is not non-stop the winner watches too. Then the player list goes out. Without a
/// round, or with the winner absent or outside a real team, nothing happens.
#[verifier::rlimit(80)]
pub fn mark_team_victory(room: &mut Room, winner_id: &str) -> (events: Vec<RoomEvent>)
    requires
        old(room).wf(),
    ensures
        final(room).wf(),
        match victory_team(old(room)@, winner_id@) {
            Some(t) => {
                &&& final(room)@ == victory_room(old(room)@, t, winner_id@)
                &&& events@.len() == victory_members(old(room)@.players, t, winner_id@).len() + 1
                &&& forall|k: int| 0 <= k < events@.len() - 1 ==> (#[trigger] events@[k] matches RoomEvent::TeamWin { target, winner_name }
                    && target@ == victory_members(old(room)@.players, t, winner_id@)[k]
                    && winner_name@ == old(room)@.players[find_player(old(room)@.players, winner_id@)->0].username)
                &&& plain_update(events@.last(), final(room)@.players)
            },
            None => final(room)@ == old(room)@ && events@.len() == 0,
        },
{
    let ghost r0 = room@;
    let ghost ps0 = room@.players;
    let mut events: Vec<RoomEvent> = Vec::new();
    if room.current_game.is_none() {
        return events;
    }
    proof { lemma_find_player_result(ps0, winner_id@); lemma_mark_texts(); }
    let widx = match find_player_index(&room.players, winner_id) {
        Some(i) => i,
        None => { return events; },
    };
    let team = match &room.players[widx].team {
        Some(t) => t.clone(),
        None => { return events; },
    };
    if is_spectator(&room.players[widx].team) {
        return events;
    }
    let winner_name = room.players[widx].username.clone();
    let ghost t = team@;
    let mut game = room.current_game.take().unwrap();
    crate::gameplay::marks::set_team_result(&mut game, team.as_str(), RESULT_TEAM_WIN);
    let members = team_members_except(&room.players, team.as_str(), winner_id);
    let ghost ids = texts(members@);
    let ghost g0 = game@;
    proof {
        assert(ps0 =~= players_view(room.players@));
        assert(forall|j: int| 0 <= j < ids.len() ==> find_player(ps0, #[trigger] ids[j]) is Some) by {
            lemma_victory_ids(ps0, t, winner_id@);
            assert forall|j: int| 0 <= j < ids.len() implies find_player(ps0, #[trigger] ids[j]) is Some by {
                lemma_find_player_result(ps0, ids[j]);
                let i = choose|i: int| 0 <= i < ps0.len() && ps0[i].id == ids[j];
            }
        }
    }
    let shared = share_team_win(&mut room.players, &mut game.sync_players_completed, &members, &winner_name);
    events = shared;
    let ghost ps1 = players_view(room.players@);
    if !settings_nonstop(&game.settings) && settings_sync(&game.settings) {
        proof { lemma_find_player_result(ps1, winner_id@); }
        match find_player_index(&room.players, winner_id) {
            Some(i) => {
                if !is_spectator(&room.players[i].team) {
                    room.players[i].temp_observer = true;
                    assert(players_view(room.players@) =~= ps1.update(i as int, PlayerModel { temp_observer: true, ..ps1[i as int] }));
                }
            },
            None => {},
        }
    }
    room.current_game = Some(game);
    events.push(RoomEvent::UpdatePlayers { players: players_snapshot(&room.players), is_public: None, answer_setter: SetterField::Omitted });
    events
}


/// Starts a round now (see `init_game_state_at`); the room's last-active time is the clock's.
pub fn init_game_state(
    room: &mut Room,
    character: CharacterPayload,
    settings: Option<GameSettings>,
    hints: Option<Vec<String>>,
    answer_setter_id: Option<&str>,
)
    ensures
        final(room).wf(),
        exists|now: i64| final(room)@ == #[trigger] started_room(old(room)@, character@, opt_settings(settings), opt_texts(hints),
            crate::settings::opt_str(answer_setter_id), now),
{
    let now = now_millis();
    init_game_state_at(room, character, settings, hints, answer_setter_id, now);
}

} // verus!
