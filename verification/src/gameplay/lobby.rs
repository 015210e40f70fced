//! Rules of the room outside a round: team changes, choosing the setter, who sees the answer,
//! and how outgoing events are prioritised.
use vstd::prelude::*;
use crate::gameplay::rules::{find_player, find_player_index, is_spectator, is_spectator_team, lemma_find_player_result};
use crate::state::{AvatarId, CharacterPayload, Player, PlayerModel, Room, RoomModel, avatar_key, avatar_unset, opt_avatar, players_view};
use crate::text::{append_text, is_blank, push_char, text_eq};

verus! {

/// Players of the room that are connected.
pub open spec fn connected_count(ps: Seq<PlayerModel>) -> nat
    decreases ps.len(),
{
    if ps.len() == 0 { 0 } else { connected_count(ps.drop_last()) + if ps.last().disconnected { 0nat } else { 1nat } }
}

pub fn active_room_player_count(room: &Room) -> (r: usize)
    ensures
        r == connected_count(room@.players),
{
    let ghost ps = room@.players;
    let mut n: usize = 0;
    let mut i: usize = 0;
    while i < room.players.len()
        invariant
            i <= room.players@.len(),
            ps == players_view(room.players@),
            n == connected_count(ps.take(i as int)),
            n <= i,
        decreases room.players@.len() - i,
    {
        assert(ps.take(i + 1).drop_last() =~= ps.take(i as int));
        assert(ps.take(i + 1).last() == room.players@[i as int]@);
        if !room.players[i].disconnected {
            n = n + 1;
        }
        i = i + 1;
    }
    assert(ps.take(room.players@.len() as int) =~= ps);
    n
}

/// Why a player may not change team now, in the order the checks are made.
pub open spec fn team_change_refusal(r: RoomModel, p: PlayerModel) -> Option<Seq<char>> {
    if r.current_game is Some {
        Some("游戏进行中不能切换队伍或旁观状态"@)
    } else if r.waiting_for_answer {
        Some("等待出题时不能切换队伍或旁观状态"@)
    } else if p.ready {
        Some("已准备后不能切换队伍或旁观状态，请先取消准备"@)
    } else if p.disconnected {
        Some("断线玩家不能切换队伍或旁观状态"@)
    } else {
        None
    }
}

pub fn can_player_change_team(room: &Room, player: &Player) -> (r: Result<(), &'static str>)
    ensures
        match r {
            Ok(_) => team_change_refusal(room@, player@) is None,
            Err(m) => team_change_refusal(room@, player@) == Some(m@),
        },
{
    if room.current_game.is_some() {
        return Err("游戏进行中不能切换队伍或旁观状态");
    }
    if room.waiting_for_answer {
        return Err("等待出题时不能切换队伍或旁观状态");
    }
    if player.ready {
        return Err("已准备后不能切换队伍或旁观状态，请先取消准备");
    }
    if player.disconnected {
        return Err("断线玩家不能切换队伍或旁观状态");
    }
    Ok(())
}

/// Whether `actor` is a connected host of the room.
pub open spec fn is_connected_host(ps: Seq<PlayerModel>, actor: Seq<char>) -> bool {
    exists|i: int| 0 <= i < ps.len() && #[trigger] ps[i].id == actor && ps[i].is_host && !ps[i].disconnected
}

/// The check of a host's choice of answer setter: the refusal message, or the setter's name.
pub open spec fn setter_choice(r: RoomModel, actor: Seq<char>, setter: Seq<char>) -> Result<Seq<char>, Seq<char>> {
    if !is_connected_host(r.players, actor) {
        Err("只有房主可以选择出题人"@)
    } else if r.current_game is Some {
        Err("游戏进行中不能更换出题人"@)
    } else if r.waiting_for_answer {
        Err("正在等待出题，不能重复指定出题人"@)
    } else {
        match find_player(r.players, setter) {
            None => Err("找不到选中的玩家"@),
            Some(i) => {
                let p = r.players[i];
                if p.disconnected {
                    Err("不能选择断线玩家出题"@)
                } else if is_spectator_team(p.team) || p.temp_observer {
                    Err("旁观者不能作为出题人"@)
                } else if !p.is_host && !p.ready {
                    Err("只能选择已准备玩家出题"@)
                } else {
                    Ok(p.username)
                }
            },
        }
    }
}

fn has_connected_host(players: &Vec<Player>, actor: &str) -> (r: bool)
    ensures
        r == is_connected_host(players_view(players@), actor@),
{
    let ghost ps = players_view(players@);
    let mut i: usize = 0;
    while i < players.len()
        invariant
            i <= players@.len(),
            ps == players_view(players@),
            forall|j: int| 0 <= j < i ==> !(#[trigger] ps[j].id == actor@ && ps[j].is_host && !ps[j].disconnected),
        decreases players@.len() - i,
    {
        let p = &players[i];
        if text_eq(p.id.as_str(), actor) && p.is_host && !p.disconnected {
            assert(ps[i as int].id == actor@ && ps[i as int].is_host && !ps[i as int].disconnected);
            return true;
        }
        i = i + 1;
    }
    false
}

pub fn validate_answer_setter(room: &Room, actor_id: &str, setter_id: &str) -> (r: Result<String, &'static str>)
    ensures
        match r {
            Ok(name) => setter_choice(room@, actor_id@, setter_id@) == Ok::<Seq<char>, Seq<char>>(name@),
            Err(m) => setter_choice(room@, actor_id@, setter_id@) == Err::<Seq<char>, Seq<char>>(m@),
        },
{
    let found = has_connected_host(&room.players, actor_id);
    if !found {
        return Err("只有房主可以选择出题人");
    }
    if room.current_game.is_some() {
        return Err("游戏进行中不能更换出题人");
    }
    if room.waiting_for_answer {
        return Err("正在等待出题，不能重复指定出题人");
    }
    proof { lemma_find_player_result(room@.players, setter_id@); }
    let k = match find_player_index(&room.players, setter_id) {
        Some(k) => k,
        None => { return Err("找不到选中的玩家"); },
    };
    let setter = &room.players[k];
    if setter.disconnected {
        return Err("不能选择断线玩家出题");
    }
    if is_spectator(&setter.team) || setter.temp_observer {
        return Err("旁观者不能作为出题人");
    }
    if !setter.is_host && !setter.ready {
        return Err("只能选择已准备玩家出题");
    }
    Ok(setter.username.clone())
}

/// Events of which only the latest per target is worth sending.
pub open spec fn coalescing(event: Seq<char>) -> bool {
    event == "updatePlayers"@ || event == "guessHistoryUpdate"@ || event == "syncWaiting"@ || event == "nonstopProgress"@
}

pub fn is_coalescing_event(event: &str) -> (r: bool)
    ensures
        r == coalescing(event@),
{
    text_eq(event, "updatePlayers") || text_eq(event, "guessHistoryUpdate") || text_eq(event, "syncWaiting")
        || text_eq(event, "nonstopProgress")
}

#[derive(Clone, Copy, PartialEq, Eq, Structural)]
pub enum EmitPriority {
    Low,
    Normal,
    High,
}

/// Events the players must not miss.
pub open spec fn urgent(event: Seq<char>) -> bool {
    event == "gameStart"@ || event == "gameEnded"@ || event == "answerReveal"@ || event == "roundResult"@
        || event == "playerKicked"@ || event == "roomClosed"@ || event == "hostTransferred"@ || event == "waitForAnswerCanceled"@
}

pub fn emit_priority(event: &str) -> (r: EmitPriority)
    ensures
        r == (if coalescing(event@) { EmitPriority::Low } else if urgent(event@) { EmitPriority::High } else { EmitPriority::Normal }),
{
    if is_coalescing_event(event) {
        return EmitPriority::Low;
    }
    if text_eq(event, "gameStart") || text_eq(event, "gameEnded") || text_eq(event, "answerReveal")
        || text_eq(event, "roundResult") || text_eq(event, "playerKicked") || text_eq(event, "roomClosed")
        || text_eq(event, "hostTransferred") || text_eq(event, "waitForAnswerCanceled") {
        return EmitPriority::High;
    }
    EmitPriority::Normal
}

/// The key under which a target's pending coalesced event waits: the target, NUL, the event.
pub fn coalesced_key(target: &str, event: &str) -> (r: String)
    ensures
        r@ == target@ + seq!['\u{0}'] + event@,
{
    let mut out = String::new();
    append_text(&mut out, target);
    push_char(&mut out, '\u{0}');
    append_text(&mut out, event);
    out
}

/// The key a player's socket is bound under: the stable id, or the legacy name key when blank.
pub fn player_socket_key(room_id: &str, player: &Player) -> (r: String)
    ensures
        r@ == (if is_blank(player@.stable_player_id) {
            room_id@ + seq![':', ':', 'l', 'e', 'g', 'a', 'c', 'y', '-', 'n', 'a', 'm', 'e', ':', ':'] + crate::state::canonical_name(player@.username)
        } else {
            player@.stable_player_id
        }),
{
    if crate::text::blank(player.stable_player_id.as_str()) {
        crate::state::legacy_player_key(room_id, player.username.as_str())
    } else {
        player.stable_player_id.clone()
    }
}

pub fn is_empty_avatar(value: &Option<AvatarId>) -> (r: bool)
    ensures
        r == (match opt_avatar(*value) { Some(a) => avatar_unset(a), None => true }),
{
    match value {
        Some(a) => a.is_empty(),
        None => true,
    }
}

pub fn avatar_to_string(value: &Option<AvatarId>) -> (r: String)
    ensures
        r@ == (match opt_avatar(*value) { Some(a) => avatar_key(a), None => Seq::empty() }),
{
    match value {
        Some(a) => a.as_key_string(),
        None => String::new(),
    }
}

/// Who may see the answer during a round: the setter, spectators, temporary observers and
/// players with a result.
pub open spec fn sees_answer(p: PlayerModel) -> bool {
    p.is_answer_setter || is_spectator_team(p.team) || p.temp_observer || p.round_result is Some
}

pub fn can_see_answer(player: &Player) -> (r: bool)
    ensures
        r == sees_answer(player@),
{
    player.is_answer_setter || is_spectator(&player.team) || player.temp_observer
        || crate::gameplay::marks::player_has_result(player)
}

/// Whether a round runs and the first player with id `pid` may see its answer.
pub open spec fn reveals(r: RoomModel, pid: Seq<char>) -> bool {
    r.current_game is Some && (find_player(r.players, pid) matches Some(i) && sees_answer(r.players[i]))
}

/// The answer a player may be shown: with a round running, when the first player with that
/// id may see it.
pub fn answer_reveal_for(room: &Room, player_id: &str) -> (r: Option<CharacterPayload>)
    ensures
        match r {
            Some(c) => reveals(room@, player_id@) && (room@.current_game matches Some(g) && c@ == g.character),
            None => !reveals(room@, player_id@),
        },
{
    let game = match &room.current_game {
        Some(g) => g,
        None => { return None; },
    };
    proof { lemma_find_player_result(room@.players, player_id@); }
    let k = match find_player_index(&room.players, player_id) {
        Some(k) => k,
        None => { return None; },
    };
    if !can_see_answer(&room.players[k]) {
        return None;
    }
    Some(game.character.duplicate())
}

/// Players broadcasts closer together than this are merged, in milliseconds.
pub const PLAYERS_BROADCAST_COOLDOWN_MS: i64 = 120;

impl Room {
    /// A players broadcast goes out at `now`: the extra fields waiting for it are handed over
    /// (to be merged with the new ones, the new ones winning), nothing is due any more and the
    /// last broadcast is now.
    pub fn take_players_broadcast_extra(&mut self, now: i64) -> (r: Option<String>)
        ensures
            crate::settings::opt_text(r) == old(self)@.pending_player_broadcast_extra,
            final(self)@ == (RoomModel {
                pending_player_broadcast_extra: None,
                player_broadcast_due_at: None,
                last_players_broadcast_at: Some(now),
                ..old(self)@
            }),
    {
        let r = self.pending_player_broadcast_extra.take();
        self.player_broadcast_due_at = None;
        self.last_players_broadcast_at = Some(now);
        r
    }

    /// A deferred players broadcast is due at `now`.
    pub fn players_flush_due(&self, now: i64) -> (r: bool)
        ensures
            r == (self.player_broadcast_due_at matches Some(d) && now >= d),
    {
        match self.player_broadcast_due_at {
            Some(d) => now >= d,
            None => false,
        }
    }
}

/// The team a player asks for: none for an empty or missing value, otherwise one digit from
/// `0` to `8` (team `0` being the spectators); anything else is refused.
pub open spec fn team_value(raw: Option<Seq<char>>) -> Result<Option<Seq<char>>, Seq<char>> {
    match raw {
        None => Ok(None),
        Some(t) => if t.len() == 0 {
            Ok(None)
        } else if t.len() == 1 && '0' <= t[0] && t[0] <= '8' {
            Ok(Some(t))
        } else {
            Err("Invalid team value"@)
        },
    }
}

pub fn parse_team_value(raw: Option<&str>) -> (r: Result<Option<String>, &'static str>)
    ensures
        match team_value(match raw { Some(t) => Some(t@), None => None }) {
            Ok(v) => r matches Ok(x) && crate::settings::opt_text(x) == v,
            Err(m) => r matches Err(e) && e@ == m,
        },
{
    match raw {
        None => Ok(None),
        Some(t) => {
            let cs = crate::text::chars_of(t);
            if cs.len() == 0 {
                Ok(None)
            } else if cs.len() == 1 && '0' <= cs[0] && cs[0] <= '8' {
                Ok(Some(t.to_string()))
            } else {
                Err("Invalid team value")
            }
        },
    }
}

/// The room after the player on socket `actor` asked for team `team`: refused as
/// `team_change_refusal` says; `Ok(false)` with nothing changed when the socket has no player
/// in the room; otherwise the player's team is set.
pub open spec fn team_changed(r: RoomModel, actor: Seq<char>, team: Option<Seq<char>>) -> Result<(RoomModel, bool), Seq<char>> {
    match find_player(r.players, actor) {
        None => Ok((r, false)),
        Some(i) => match team_change_refusal(r, r.players[i]) {
            Some(m) => Err(m),
            None => Ok((RoomModel { players: r.players.update(i, PlayerModel { team, ..r.players[i] }), ..r }, true)),
        },
    }
}

pub fn change_team(room: &mut Room, actor: &str, team: Option<String>) -> (r: Result<bool, &'static str>)
    requires
        old(room).wf(),
    ensures
        final(room).wf(),
        match team_changed(old(room)@, actor@, crate::settings::opt_text(team)) {
            Ok((r1, changed)) => r == Ok::<bool, &'static str>(changed) && final(room)@ == r1,
            Err(m) => r matches Err(e) && e@ == m && final(room)@ == old(room)@,
        },
{
    let i = match find_player_index(&room.players, actor) {
        Some(i) => i,
        None => return Ok(false),
    };
    let ghost ps0 = players_view(room.players@);
    assert(ps0[i as int] == room.players@[i as int]@);
    match can_player_change_team(room, &room.players[i]) {
        Err(m) => return Err(m),
        Ok(_) => {},
    }
    let ghost tv = crate::settings::opt_text(team);
    room.players[i].team = team;
    assert(players_view(room.players@) =~= ps0.update(i as int, PlayerModel { team: tv, ..ps0[i as int] }));
    Ok(true)
}

} // verus!
