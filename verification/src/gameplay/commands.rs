//! The lobby commands of a room: readiness, visibility, the room's name, manual mode,
//! player messages, kicking a player and handing the host's role over.
use vstd::prelude::*;
use crate::gameplay::rules::{find_player, find_player_index};
use crate::settings::SettingsModel;
use crate::state::{GameModel, Player, PlayerModel, Room, RoomModel, players_view};
use crate::text::{append_text, text_eq, trim_spec};

verus! {

/// The player on socket `actor` is the host.
pub open spec fn is_host_actor(ps: Seq<PlayerModel>, actor: Seq<char>) -> bool {
    exists|k: int| 0 <= k < ps.len() && (#[trigger] ps[k]).id == actor && ps[k].is_host
}

fn host_actor(players: &Vec<Player>, actor: &str) -> (r: bool)
    ensures
        r == is_host_actor(players_view(players@), actor@),
{
    let ghost ps = players_view(players@);
    let mut i: usize = 0;
    while i < players.len()
        invariant
            i <= players@.len(),
            ps == players_view(players@),
            forall|k: int| 0 <= k < i ==> !((#[trigger] ps[k]).id == actor@ && ps[k].is_host),
        decreases players@.len() - i,
    {
        assert(ps[i as int] == players@[i as int]@);
        if players[i].is_host && text_eq(players[i].id.as_str(), actor) {
            return true;
        }
        i = i + 1;
    }
    false
}

/// Player `i` replaced by `p`.
fn replace_player(players: &mut Vec<Player>, i: usize, p: Player)
    requires
        i < old(players)@.len(),
    ensures
        players_view(final(players)@) == players_view(old(players)@).update(i as int, p@),
{
    let ghost ps0 = players_view(players@);
    let ghost pm = p@;
    let _ = players.remove(i);
    players.insert(i, p);
    assert(players_view(players@) =~= ps0.update(i as int, pm));
}

/// Toggling readiness: refused for a player not in the room, the host, during a game or
/// while the room waits for the answer.
pub open spec fn ready_toggled(r0: RoomModel, actor: Seq<char>) -> Result<RoomModel, Seq<char>> {
    match find_player(r0.players, actor) {
        None => Err("连接中断了"@),
        Some(i) => if r0.players[i].is_host {
            Err("房主不需要准备"@)
        } else if r0.current_game is Some {
            Err("游戏进行中不能更改准备状态"@)
        } else if r0.waiting_for_answer {
            Err("等待出题时不能更改准备状态"@)
        } else {
            Ok(RoomModel {
                players: r0.players.update(i, PlayerModel { ready: !r0.players[i].ready, ..r0.players[i] }),
                ..r0
            })
        },
    }
}

pub fn toggle_ready(room: &mut Room, actor: &str) -> (r: Result<(), &'static str>)
    requires
        old(room).wf(),
    ensures
        final(room).wf(),
        match ready_toggled(old(room)@, actor@) {
            Ok(r1) => r is Ok && final(room)@ == r1,
            Err(m) => r matches Err(e) && e@ == m && final(room)@ == old(room)@,
        },
{
    let i = match find_player_index(&room.players, actor) {
        Some(i) => i,
        None => return Err("连接中断了"),
    };
    if room.players[i].is_host {
        return Err("房主不需要准备");
    }
    if room.current_game.is_some() {
        return Err("游戏进行中不能更改准备状态");
    }
    if room.waiting_for_answer {
        return Err("等待出题时不能更改准备状态");
    }
    let ghost ps0 = room@.players;
    let mut p = room.players.remove(i);
    p.ready = !p.ready;
    let ghost pm = p@;
    room.players.insert(i, p);
    assert(players_view(room.players@) =~= ps0.update(i as int, pm));
    Ok(())
}

/// Only the host may make the room public or private.
pub open spec fn visibility_toggled(r0: RoomModel, actor: Seq<char>) -> Result<RoomModel, Seq<char>> {
    if is_host_actor(r0.players, actor) {
        Ok(RoomModel { is_public: !r0.is_public, ..r0 })
    } else {
        Err("只有房主可以更改房间状态"@)
    }
}

pub fn toggle_visibility(room: &mut Room, actor: &str) -> (r: Result<(), &'static str>)
    requires
        old(room).wf(),
    ensures
        final(room).wf(),
        match visibility_toggled(old(room)@, actor@) {
            Ok(r1) => r is Ok && final(room)@ == r1,
            Err(m) => r matches Err(e) && e@ == m && final(room)@ == old(room)@,
        },
{
    if !host_actor(&room.players, actor) {
        return Err("只有房主可以更改房间状态");
    }
    room.is_public = !room.is_public;
    Ok(())
}

/// Only the host may change the game settings. Without settings in the request nothing
/// changes and the answer is `false`; with them they are stored, the room counts as active
/// at `now`, and the answer is `true`.
pub open spec fn settings_updated(r0: RoomModel, actor: Seq<char>, s: Option<SettingsModel>, now: i64) -> Result<(RoomModel, bool), Seq<char>> {
    if !is_host_actor(r0.players, actor) {
        Err("只有房主可以更改设置"@)
    } else {
        match s {
            None => Ok((r0, false)),
            Some(x) => Ok((RoomModel { settings: Some(x), last_active: now, ..r0 }, true)),
        }
    }
}

pub fn update_game_settings(
    room: &mut Room,
    actor: &str,
    settings: Option<crate::settings::GameSettings>,
    now: i64,
) -> (r: Result<bool, &'static str>)
    requires
        old(room).wf(),
    ensures
        final(room).wf(),
        match settings_updated(old(room)@, actor@, crate::settings::opt_settings(settings), now) {
            Ok((r1, applied)) => r == Ok::<bool, &'static str>(applied) && final(room)@ == r1,
            Err(m) => r matches Err(e) && e@ == m && final(room)@ == old(room)@,
        },
{
    if !host_actor(&room.players, actor) {
        return Err("只有房主可以更改设置");
    }
    match settings {
        None => Ok(false),
        Some(s) => {
            room.settings = Some(s);
            room.last_active = now;
            Ok(true)
        },
    }
}

/// A room's name as sent: trimmed, then at most 30 characters.
pub open spec fn room_name_of(raw: Seq<char>) -> Seq<char> {
    let t = trim_spec(raw);
    if t.len() <= 30 { t } else { t.take(30) }
}

/// Only the host may rename the room; the name kept is returned.
pub open spec fn renamed(r0: RoomModel, actor: Seq<char>, raw: Seq<char>) -> Result<RoomModel, Seq<char>> {
    if is_host_actor(r0.players, actor) {
        Ok(RoomModel { room_name: room_name_of(raw), ..r0 })
    } else {
        Err("只有房主可以修改房名"@)
    }
}

pub fn rename_room(room: &mut Room, actor: &str, raw_name: &str) -> (r: Result<String, &'static str>)
    requires
        old(room).wf(),
    ensures
        final(room).wf(),
        match renamed(old(room)@, actor@, raw_name@) {
            Ok(r1) => r matches Ok(n) && n@ == room_name_of(raw_name@) && final(room)@ == r1,
            Err(m) => r matches Err(e) && e@ == m && final(room)@ == old(room)@,
        },
{
    let t = crate::text::trim(raw_name);
    let name = crate::web::truncate_chars(t.as_str(), 30);
    if !host_actor(&room.players, actor) {
        return Err("只有房主可以修改房名");
    }
    room.room_name = name.clone();
    Ok(name)
}

/// Everyone but the host is marked ready.
pub open spec fn all_ready(ps: Seq<PlayerModel>) -> Seq<PlayerModel> {
    ps.map_values(|p: PlayerModel| if p.is_host { p } else { PlayerModel { ready: true, ..p } })
}

fn make_all_ready(players: &mut Vec<Player>)
    ensures
        players_view(final(players)@) == all_ready(players_view(old(players)@)),
{
    let ghost ps0 = players_view(players@);
    let mut stack: Vec<Player> = Vec::new();
    while players.len() > 0
        invariant
            ps0 == players_view(old(players)@),
            players@.len() + stack@.len() == ps0.len(),
            forall|k: int| 0 <= k < players@.len() ==> (#[trigger] players@[k])@ == ps0[k],
            forall|k: int| 0 <= k < stack@.len() ==> (#[trigger] stack@[k])@ == all_ready(ps0)[ps0.len() - 1 - k],
        decreases players@.len(),
    {
        let mut p = players.pop().unwrap();
        if !p.is_host {
            p.ready = true;
        }
        stack.push(p);
    }
    while stack.len() > 0
        invariant
            players@.len() + stack@.len() == ps0.len(),
            forall|k: int| 0 <= k < stack@.len() ==> (#[trigger] stack@[k])@ == all_ready(ps0)[ps0.len() - 1 - k],
            forall|k: int| 0 <= k < players@.len() ==> (#[trigger] players@[k])@ == all_ready(ps0)[k],
        decreases stack@.len(),
    {
        let p = stack.pop().unwrap();
        players.push(p);
    }
    assert(players_view(players@) =~= all_ready(ps0));
}

/// The host may start setting the answer by hand when no game runs and no answer is awaited;
/// everyone else is then ready.
pub open spec fn manual_mode_entered(r0: RoomModel, actor: Seq<char>) -> Result<RoomModel, Seq<char>> {
    if !is_host_actor(r0.players, actor) {
        Err("只有房主可以进入出题模式"@)
    } else if r0.current_game is Some {
        Err("游戏进行中不能进入出题模式"@)
    } else if r0.waiting_for_answer {
        Err("正在等待出题，不能重复进入出题模式"@)
    } else {
        Ok(RoomModel { players: all_ready(r0.players), ..r0 })
    }
}

pub fn enter_manual_mode(room: &mut Room, actor: &str) -> (r: Result<(), &'static str>)
    requires
        old(room).wf(),
    ensures
        final(room).wf(),
        match manual_mode_entered(old(room)@, actor@) {
            Ok(r1) => r is Ok && final(room)@ == r1,
            Err(m) => r matches Err(e) && e@ == m && final(room)@ == old(room)@,
        },
{
    if !host_actor(&room.players, actor) {
        return Err("只有房主可以进入出题模式");
    }
    if room.current_game.is_some() {
        return Err("游戏进行中不能进入出题模式");
    }
    if room.waiting_for_answer {
        return Err("正在等待出题，不能重复进入出题模式");
    }
    make_all_ready(&mut room.players);
    Ok(())
}

/// Sets the message of the player on socket `actor`; `false` when there is none.
pub fn update_player_message(room: &mut Room, actor: &str, message: String) -> (r: bool)
    requires
        old(room).wf(),
    ensures
        final(room).wf(),
        match find_player(old(room)@.players, actor@) {
            Some(i) => r && final(room)@ == (RoomModel {
                players: old(room)@.players.update(i, PlayerModel { message: message@, ..old(room)@.players[i] }),
                ..old(room)@
            }),
            None => !r && final(room)@ == old(room)@,
        },
{
    let i = match find_player_index(&room.players, actor) {
        Some(i) => i,
        None => return false,
    };
    let ghost ps0 = room@.players;
    let mut p = room.players.remove(i);
    p.message = message;
    let ghost pm = p@;
    room.players.insert(i, p);
    assert(players_view(room.players@) =~= ps0.update(i as int, pm));
    true
}

/// A kicked player: its socket and name, and the notice for a wait for the answer to call off.
pub struct Kicked {
    pub id: String,
    pub username: String,
    pub cancel_message: Option<String>,
}

/// Kicking: only the host, not oneself, and only a player in the room. The player leaves the
/// room and no longer counts as done with its turn; if it was the chosen setter, the wait for
/// the answer is called off with a notice naming it.
pub open spec fn kick_result(r0: RoomModel, actor: Seq<char>, target: Seq<char>) -> Result<(RoomModel, Option<Seq<char>>), Seq<char>> {
    if !is_host_actor(r0.players, actor) {
        Err("只有房主可以踢出玩家"@)
    } else if target == actor {
        Err("无法踢出自己"@)
    } else {
        match find_player(r0.players, target) {
            None => Err("找不到要踢出的玩家"@),
            Some(i) => {
                let p = r0.players[i];
                let cancel = if r0.answer_setter_id == Some(p.id) {
                    Some("指定的出题人 "@ + p.username + " 已被踢出，等待已取消"@)
                } else {
                    None
                };
                let game = match r0.current_game {
                    Some(g) => Some(GameModel { sync_players_completed: g.sync_players_completed.remove(p.id), ..g }),
                    None => None,
                };
                Ok((RoomModel { players: r0.players.remove(i), current_game: game, ..r0 }, cancel))
            },
        }
    }
}

pub fn kick_player(room: &mut Room, actor: &str, player_id: &str) -> (r: Result<Kicked, &'static str>)
    requires
        old(room).wf(),
    ensures
        final(room).wf(),
        match kick_result(old(room)@, actor@, player_id@) {
            Ok((r1, cancel)) => r matches Ok(k) && final(room)@ == r1
                && k.id@ == player_id@ && crate::settings::opt_text(k.cancel_message) == cancel
                && k.username@ == old(room)@.players[find_player(old(room)@.players, player_id@)->0].username,
            Err(m) => r matches Err(e) && e@ == m && final(room)@ == old(room)@,
        },
{
    let ghost r0 = room@;
    if !host_actor(&room.players, actor) {
        return Err("只有房主可以踢出玩家");
    }
    if text_eq(player_id, actor) {
        return Err("无法踢出自己");
    }
    let i = match find_player_index(&room.players, player_id) {
        Some(i) => i,
        None => return Err("找不到要踢出的玩家"),
    };
    proof {
        crate::gameplay::rules::lemma_find_player_result(r0.players, player_id@);
    }
    let ghost ps0 = room@.players;
    let p = room.players.remove(i);
    assert(players_view(room.players@) =~= ps0.remove(i as int));
    let setter = match &room.answer_setter_id {
        Some(s) => text_eq(s.as_str(), p.id.as_str()),
        None => false,
    };
    let cancel_message = if setter {
        let mut m = String::new();
        append_text(&mut m, "指定的出题人 ");
        append_text(&mut m, p.username.as_str());
        append_text(&mut m, " 已被踢出，等待已取消");
        assert(m@ =~= "指定的出题人 "@ + p.username@ + " 已被踢出，等待已取消"@);
        Some(m)
    } else {
        None
    };
    if room.current_game.is_some() {
        let mut g = room.current_game.take().unwrap();
        g.sync_players_completed.remove(p.id.as_str());
        room.current_game = Some(g);
    }
    Ok(Kicked { id: p.id, username: p.username, cancel_message })
}

/// The host's role handed to `new_id`: that player becomes host and not ready, the old host
/// ready, everyone else not host.
pub open spec fn handed_over(ps: Seq<PlayerModel>, new_id: Seq<char>, actor: Seq<char>) -> Seq<PlayerModel> {
    ps.map_values(|p: PlayerModel| if p.id == new_id {
        PlayerModel { is_host: true, ready: false, ..p }
    } else if p.id == actor {
        PlayerModel { is_host: false, ready: true, ..p }
    } else {
        PlayerModel { is_host: false, ..p }
    })
}

/// The name of the last player on socket `id`, empty for none.
pub open spec fn last_name_with_id(ps: Seq<PlayerModel>, id: Seq<char>) -> Seq<char>
    decreases ps.len(),
{
    if ps.len() == 0 {
        Seq::empty()
    } else if ps.last().id == id {
        ps.last().username
    } else {
        last_name_with_id(ps.drop_last(), id)
    }
}

fn hand_over(players: &mut Vec<Player>, new_id: &str, actor: &str) -> (name: String)
    ensures
        players_view(final(players)@) == handed_over(players_view(old(players)@), new_id@, actor@),
        name@ == last_name_with_id(players_view(old(players)@), new_id@),
{
    let ghost ps0 = players_view(players@);
    let mut stack: Vec<Player> = Vec::new();
    let mut name = String::new();
    let mut named = false;
    assert(ps0.take(players@.len() as int) =~= ps0);
    while players.len() > 0
        invariant
            ps0 == players_view(old(players)@),
            players@.len() + stack@.len() == ps0.len(),
            forall|k: int| 0 <= k < players@.len() ==> (#[trigger] players@[k])@ == ps0[k],
            forall|k: int| 0 <= k < stack@.len() ==> (#[trigger] stack@[k])@ == handed_over(ps0, new_id@, actor@)[ps0.len() - 1 - k],
            named ==> name@ == last_name_with_id(ps0, new_id@),
            !named ==> last_name_with_id(ps0, new_id@) == last_name_with_id(ps0.take(players@.len() as int), new_id@),
            !named ==> name@ == Seq::<char>::empty(),
        decreases players@.len(),
    {
        let ghost n = players@.len() as int;
        let mut p = players.pop().unwrap();
        assert(p@ == ps0[n - 1]);
        assert(ps0.take(n).drop_last() =~= ps0.take(n - 1));
        assert(ps0.take(n).last() == ps0[n - 1]);
        if text_eq(p.id.as_str(), new_id) {
            p.is_host = true;
            p.ready = false;
            if !named {
                name = p.username.clone();
                named = true;
            }
        } else {
            p.is_host = false;
            if text_eq(p.id.as_str(), actor) {
                p.ready = true;
            }
        }
        stack.push(p);
    }
    proof {
        if !named {
            assert(ps0.take(0) =~= Seq::<PlayerModel>::empty());
        }
    }
    while stack.len() > 0
        invariant
            players@.len() + stack@.len() == ps0.len(),
            forall|k: int| 0 <= k < stack@.len() ==> (#[trigger] stack@[k])@ == handed_over(ps0, new_id@, actor@)[ps0.len() - 1 - k],
            forall|k: int| 0 <= k < players@.len() ==> (#[trigger] players@[k])@ == handed_over(ps0, new_id@, actor@)[k],
        decreases stack@.len(),
    {
        let p = stack.pop().unwrap();
        players.push(p);
    }
    assert(players_view(players@) =~= handed_over(ps0, new_id@, actor@));
    name
}

/// A handed-over host's role: the old host's name, the new host and its name, and the notice
/// for a wait for the answer to call off.
pub struct HandOver {
    pub old_host_name: String,
    pub new_host_id: String,
    pub new_host_name: String,
    pub cancel_message: Option<String>,
}

/// Handing the host's role over: the actor must be in the room and host, the new host in the
/// room and connected. A wait for the answer is called off with a notice naming the new host.
pub open spec fn hand_over_result(r0: RoomModel, actor: Seq<char>, new_id: Seq<char>) -> Result<(RoomModel, Seq<char>, Seq<char>, Option<Seq<char>>), Seq<char>> {
    match find_player(r0.players, actor) {
        None => Err("连接中断了"@),
        Some(a) => if !r0.players[a].is_host {
            Err("只有房主可以转移权限"@)
        } else {
            match find_player(r0.players, new_id) {
                None => Err("无法将房主转移给该玩家"@),
                Some(n) => if r0.players[n].disconnected {
                    Err("无法将房主转移给该玩家"@)
                } else {
                    let name = last_name_with_id(r0.players, new_id);
                    let cancel = if r0.waiting_for_answer {
                        Some("房主权限已转移给 "@ + name + "，等待出题已取消"@)
                    } else {
                        None
                    };
                    Ok((
                        RoomModel { host: new_id, players: handed_over(r0.players, new_id, actor), ..r0 },
                        r0.players[a].username,
                        name,
                        cancel,
                    ))
                },
            }
        },
    }
}

pub fn transfer_host(room: &mut Room, actor: &str, new_host_id: &str) -> (r: Result<HandOver, &'static str>)
    requires
        old(room).wf(),
    ensures
        final(room).wf(),
        match hand_over_result(old(room)@, actor@, new_host_id@) {
            Ok((r1, old_name, new_name, cancel)) => r matches Ok(h) && final(room)@ == r1
                && h.old_host_name@ == old_name && h.new_host_id@ == new_host_id@
                && h.new_host_name@ == new_name && crate::settings::opt_text(h.cancel_message) == cancel,
            Err(m) => r matches Err(e) && e@ == m && final(room)@ == old(room)@,
        },
{
    let a = match find_player_index(&room.players, actor) {
        Some(a) => a,
        None => return Err("连接中断了"),
    };
    if !room.players[a].is_host {
        return Err("只有房主可以转移权限");
    }
    let old_name = room.players[a].username.clone();
    match find_player_index(&room.players, new_host_id) {
        Some(n) => if room.players[n].disconnected {
            return Err("无法将房主转移给该玩家");
        },
        None => return Err("无法将房主转移给该玩家"),
    }
    let mut host = String::new();
    append_text(&mut host, new_host_id);
    assert(host@ =~= new_host_id@);
    room.host = host;
    let new_name = hand_over(&mut room.players, new_host_id, actor);
    let cancel_message = if room.waiting_for_answer {
        let mut m = String::new();
        append_text(&mut m, "房主权限已转移给 ");
        append_text(&mut m, new_name.as_str());
        append_text(&mut m, "，等待出题已取消");
        assert(m@ =~= "房主权限已转移给 "@ + new_name@ + "，等待出题已取消"@);
        Some(m)
    } else {
        None
    };
    let mut id = String::new();
    append_text(&mut id, new_host_id);
    assert(id@ =~= new_host_id@);
    Ok(HandOver { old_host_name: old_name, new_host_id: id, new_host_name: new_name, cancel_message })
}

/// Every player is the host, ready, or gone.
pub open spec fn all_set(ps: Seq<PlayerModel>) -> bool {
    forall|k: int| 0 <= k < ps.len() ==> (#[trigger] ps[k]).is_host || ps[k].ready || ps[k].disconnected
}

/// Why a game cannot start: only the host starts it, not while one runs, and only when every
/// player is ready (or gone).
pub open spec fn start_refusal(r: RoomModel, actor: Seq<char>) -> Option<Seq<char>> {
    if !is_host_actor(r.players, actor) {
        Some("只有房主可以开始游戏"@)
    } else if r.current_game is Some {
        Some("游戏已经在进行中"@)
    } else if !all_set(r.players) {
        Some("所有玩家必须准备好才能开始游戏"@)
    } else {
        None
    }
}

pub fn game_start_refusal(room: &Room, actor: &str) -> (r: Option<&'static str>)
    ensures
        crate::settings::opt_str(r) == start_refusal(room@, actor@),
{
    if !host_actor(&room.players, actor) {
        return Some("只有房主可以开始游戏");
    }
    if room.current_game.is_some() {
        return Some("游戏已经在进行中");
    }
    let ghost ps = room@.players;
    let mut i: usize = 0;
    while i < room.players.len()
        invariant
            i <= room.players@.len(),
            ps == players_view(room.players@),
            ps == room@.players,
            is_host_actor(ps, actor@),
            room@.current_game is None,
            forall|k: int| 0 <= k < i ==> (#[trigger] ps[k]).is_host || ps[k].ready || ps[k].disconnected,
        decreases room.players@.len() - i,
    {
        assert(ps[i as int] == room.players@[i as int]@);
        let p = &room.players[i];
        if !(p.is_host || p.ready || p.disconnected) {
            assert(!all_set(ps));
            return Some("所有玩家必须准备好才能开始游戏");
        }
        i = i + 1;
    }
    None
}

/// The players kept when a game starts: those still connected, and those gone who scored.
pub open spec fn kept_at_start(ps: Seq<PlayerModel>) -> Seq<PlayerModel>
    decreases ps.len(),
{
    if ps.len() == 0 {
        ps
    } else {
        let p = kept_at_start(ps.drop_last());
        if !ps.last().disconnected || ps.last().score > 0 { p.push(ps.last()) } else { p }
    }
}

/// Drops the players who left without scoring, as a game starts.
pub fn drop_departed_without_points(room: &mut Room)
    requires
        old(room).wf(),
    ensures
        final(room).wf(),
        final(room)@ == (RoomModel { players: kept_at_start(old(room)@.players), ..old(room)@ }),
{
    let ghost ps0 = room@.players;
    let n = room.players.len();
    let mut stack: Vec<Player> = Vec::new();
    while room.players.len() > 0
        invariant
            room.wf(),
            ps0.len() == n,
            ps0 == players_view(old(room).players@),
            room.players@.len() + stack@.len() == ps0.len(),
            forall|k: int| 0 <= k < room.players@.len() ==> (#[trigger] room.players@[k])@ == ps0[k],
            forall|k: int| 0 <= k < stack@.len() ==> (#[trigger] stack@[k])@ == ps0[ps0.len() - 1 - k],
            room.host == old(room).host,
            room.is_public == old(room).is_public,
            room.room_name == old(room).room_name,
            room.last_active == old(room).last_active,
            room.current_game == old(room).current_game,
            room.answer_setter_id == old(room).answer_setter_id,
            room.waiting_for_answer == old(room).waiting_for_answer,
            room.settings == old(room).settings,
            room.last_players_broadcast_at == old(room).last_players_broadcast_at,
            room.pending_player_broadcast_extra == old(room).pending_player_broadcast_extra,
            room.player_broadcast_due_at == old(room).player_broadcast_due_at,
            room.player_broadcast_flush_scheduled == old(room).player_broadcast_flush_scheduled,
        decreases room.players@.len(),
    {
        let p = room.players.pop().unwrap();
        stack.push(p);
    }
    assert(ps0.take(0) =~= Seq::<PlayerModel>::empty());
    let mut i: usize = 0;
    while stack.len() > 0
        invariant
            room.wf(),
            ps0.len() == n,
            i + stack@.len() == ps0.len(),
            forall|k: int| 0 <= k < stack@.len() ==> (#[trigger] stack@[k])@ == ps0[ps0.len() - 1 - k],
            players_view(room.players@) == kept_at_start(ps0.take(i as int)),
            room.host == old(room).host,
            room.is_public == old(room).is_public,
            room.room_name == old(room).room_name,
            room.last_active == old(room).last_active,
            room.current_game == old(room).current_game,
            room.answer_setter_id == old(room).answer_setter_id,
            room.waiting_for_answer == old(room).waiting_for_answer,
            room.settings == old(room).settings,
            room.last_players_broadcast_at == old(room).last_players_broadcast_at,
            room.pending_player_broadcast_extra == old(room).pending_player_broadcast_extra,
            room.player_broadcast_due_at == old(room).player_broadcast_due_at,
            room.player_broadcast_flush_scheduled == old(room).player_broadcast_flush_scheduled,
        decreases stack@.len(),
    {
        let p = stack.pop().unwrap();
        assert(p@ == ps0[i as int]);
        assert(ps0.take(i + 1).drop_last() =~= ps0.take(i as int));
        assert(ps0.take(i + 1).last() == ps0[i as int]);
        if !p.disconnected || p.score > 0 {
            let ghost before = players_view(room.players@);
            room.players.push(p);
            assert(players_view(room.players@) =~= before.push(ps0[i as int]));
        }
        i = i + 1;
    }
    assert(ps0.take(ps0.len() as int) =~= ps0);
}

/// The room once the host on socket `actor` has chosen `setter` to set the answer: refused as
/// `setter_choice` says; otherwise nobody watches any longer, the room waits for that
/// player's answer, and the setter's teammates in a real team watch the round.
pub open spec fn setter_chosen(r: RoomModel, actor: Seq<char>, setter: Seq<char>) -> Result<RoomModel, Seq<char>> {
    match crate::gameplay::lobby::setter_choice(r, actor, setter) {
        Err(m) => Err(m),
        Ok(_) => {
            let r1 = RoomModel {
                players: crate::gameplay::standard_flow::unobserved(r.players),
                answer_setter_id: Some(setter),
                waiting_for_answer: true,
                ..r
            };
            Ok(match crate::gameplay::standard_flow::setter_team(r1, setter) {
                Some(t) => RoomModel {
                    players: r1.players.map_values(|p: PlayerModel| crate::gameplay::standard_flow::observer_mark(p, t, setter)),
                    ..r1
                },
                None => r1,
            })
        },
    }
}

/// The host chooses the answer setter; the setter's name is returned.
pub fn choose_answer_setter(room: &mut Room, actor: &str, setter_id: &str) -> (r: Result<String, &'static str>)
    requires
        old(room).wf(),
    ensures
        final(room).wf(),
        match setter_chosen(old(room)@, actor@, setter_id@) {
            Ok(r1) => r matches Ok(name) && final(room)@ == r1
                && crate::gameplay::lobby::setter_choice(old(room)@, actor@, setter_id@) == Ok::<Seq<char>, Seq<char>>(name@),
            Err(m) => r matches Err(e) && e@ == m && final(room)@ == old(room)@,
        },
{
    let name = match crate::gameplay::lobby::validate_answer_setter(room, actor, setter_id) {
        Ok(n) => n,
        Err(m) => return Err(m),
    };
    let _ = crate::gameplay::standard_flow::revert_setter_observers(room);
    room.answer_setter_id = Some(setter_id.to_string());
    room.waiting_for_answer = true;
    let _ = crate::gameplay::standard_flow::apply_setter_observers(room, setter_id);
    Ok(name)
}

/// Every host-only command sent by someone who is not the host is refused: kicking a player,
/// handing the host's role over, changing the settings, renaming the room, making it public
/// or private, entering manual mode, choosing the answer setter and starting the game. Each
/// command's contract leaves the room unchanged when it refuses.
pub proof fn law_host_only_commands_refuse_others(
    r: RoomModel,
    actor: Seq<char>,
    target: Seq<char>,
    raw_name: Seq<char>,
    s: Option<SettingsModel>,
    now: i64,
)
    requires
        !is_host_actor(r.players, actor),
    ensures
        kick_result(r, actor, target) is Err,
        hand_over_result(r, actor, target) is Err,
        settings_updated(r, actor, s, now) is Err,
        renamed(r, actor, raw_name) is Err,
        visibility_toggled(r, actor) is Err,
        manual_mode_entered(r, actor) is Err,
        crate::gameplay::lobby::setter_choice(r, actor, target) is Err,
        setter_chosen(r, actor, target) is Err,
        start_refusal(r, actor) is Some,
{
    crate::gameplay::rules::lemma_find_player_result(r.players, actor);
    if let Some(a) = find_player(r.players, actor) {
        assert(!r.players[a].is_host);
    }
    if crate::gameplay::lobby::is_connected_host(r.players, actor) {
        let i = choose|i: int| 0 <= i < r.players.len() && #[trigger] r.players[i].id == actor && r.players[i].is_host
            && !r.players[i].disconnected;
        assert(is_host_actor(r.players, actor));
    }
}
} // verus!
