//! Joining a room: creating one, rejoining it from the same socket, reconnecting to a
//! player left behind, or taking a new seat.
use vstd::prelude::*;
use crate::gameplay::lobby::{active_room_player_count, connected_count, is_empty_avatar};
use crate::keyed::texts;
use crate::state::{
    AvatarId, AvatarModel, GameModel, Player, PlayerModel, Room, RoomModel, TagBanEntry, TagBanModel, avatar_key,
    avatar_unset, ensure_player_stable_id_at, opt_avatar, players_view, stable_id, tag_bans_view,
};
use crate::settings::opt_text;
use crate::text::{is_blank, text_eq};
use crate::rooms::MAX_ROOM_PLAYERS;

verus! {

/// Rooms the server holds at most.
pub const MAX_ROOMS: usize = 259;

/// Why a room cannot be created: no name given, the id taken, or the server full.
pub open spec fn create_refusal(username: Seq<char>, exists: bool, count: int) -> Option<Seq<char>> {
    if is_blank(username) {
        Some("请输入用户名"@)
    } else if exists {
        Some("房间已存在，请换一个房间号或直接加入该房间"@)
    } else if count >= MAX_ROOMS {
        Some("服务器房间数量已满，请稍后再试"@)
    } else {
        None
    }
}

pub fn create_room_refusal(username: &str, room_exists: bool, room_count: usize) -> (r: Option<&'static str>)
    ensures
        crate::settings::opt_str(r) == create_refusal(username@, room_exists, room_count as int),
{
    if crate::text::blank(username) {
        Some("请输入用户名")
    } else if room_exists {
        Some("房间已存在，请换一个房间号或直接加入该房间")
    } else if room_count >= MAX_ROOMS {
        Some("服务器房间数量已满，请稍后再试")
    } else {
        None
    }
}

/// A player who has just arrived.
pub open spec fn arrived(
    id: Seq<char>, stable: Seq<char>, username: Seq<char>, is_host: bool, team: Option<Seq<char>>,
    joined_during_game: Option<bool>, avatar: Option<AvatarModel>, image: Option<Seq<char>>,
) -> PlayerModel {
    PlayerModel {
        id,
        stable_player_id: stable,
        username,
        is_host,
        score: 0,
        ready: false,
        attempt_marks: Seq::empty(),
        round_result: None,
        message: Seq::empty(),
        team,
        disconnected: false,
        avatar_id: avatar,
        avatar_image: image,
        joined_during_game,
        temp_observer: false,
        sync_completed_round: None,
        is_answer_setter: false,
    }
}

fn new_player(
    id: String, stable: String, username: String, is_host: bool, team: Option<String>,
    joined_during_game: Option<bool>, avatar_id: Option<AvatarId>, avatar_image: Option<String>,
) -> (p: Player)
    ensures
        p@ == arrived(id@, stable@, username@, is_host, opt_text(team), joined_during_game, opt_avatar(avatar_id), opt_text(avatar_image)),
{
    let p = Player {
        id,
        stable_player_id: stable,
        username,
        is_host,
        score: 0,
        ready: false,
        attempt_marks: Vec::new(),
        round_result: None,
        message: String::new(),
        team,
        disconnected: false,
        avatar_id,
        avatar_image,
        joined_during_game,
        temp_observer: false,
        sync_completed_round: None,
        is_answer_setter: false,
    };
    assert(texts(p.attempt_marks@) =~= Seq::<Seq<char>>::empty());
    p
}

/// A new public room at `now` with its creator as host.
pub fn hosted_room(
    socket_id: &str, stable_player_id: String, username: String, avatar_id: Option<AvatarId>,
    avatar_image: Option<String>, now: i64,
) -> (r: Room)
    ensures
        r.wf(),
        r@ == (RoomModel {
            host: socket_id@,
            is_public: true,
            room_name: Seq::empty(),
            players: seq![arrived(socket_id@, stable_player_id@, username@, true, None, None, opt_avatar(avatar_id), opt_text(avatar_image))],
            last_active: now,
            current_game: None,
            answer_setter_id: None,
            waiting_for_answer: false,
            settings: None,
            last_players_broadcast_at: None,
            pending_player_broadcast_extra: None,
            player_broadcast_due_at: None,
            player_broadcast_flush_scheduled: false,
        }),
{
    let mut host = String::new();
    crate::text::append_text(&mut host, socket_id);
    let mut id = String::new();
    crate::text::append_text(&mut id, socket_id);
    let p = new_player(id, stable_player_id, username, true, None, None, avatar_id, avatar_image);
    let mut players: Vec<Player> = Vec::new();
    players.push(p);
    let r = Room {
        host,
        is_public: true,
        room_name: String::new(),
        players,
        last_active: now,
        current_game: None,
        answer_setter_id: None,
        waiting_for_answer: false,
        settings: None,
        last_players_broadcast_at: None,
        pending_player_broadcast_extra: None,
        player_broadcast_due_at: None,
        player_broadcast_flush_scheduled: false,
    };
    assert(players_view(r.players@) =~= seq![r.players@[0]@]);
    r
}

/// The first player whose stable id is `s`.
pub open spec fn stable_index(ps: Seq<PlayerModel>, s: Seq<char>) -> Option<int>
    decreases ps.len(),
{
    if ps.len() == 0 {
        None
    } else if ps[0].stable_player_id == s {
        Some(0)
    } else {
        match stable_index(ps.drop_first(), s) {
            Some(i) => Some(i + 1),
            None => None,
        }
    }
}

/// The first player whose name, lowercased, is `lname`.
pub open spec fn name_index(ps: Seq<PlayerModel>, lname: Seq<char>) -> Option<int>
    decreases ps.len(),
{
    if ps.len() == 0 {
        None
    } else if crate::text::lowercase_text(ps[0].username) == lname {
        Some(0)
    } else {
        match name_index(ps.drop_first(), lname) {
            Some(i) => Some(i + 1),
            None => None,
        }
    }
}

proof fn lemma_indices_in_range(ps: Seq<PlayerModel>, s: Seq<char>)
    ensures
        stable_index(ps, s) matches Some(i) ==> 0 <= i < ps.len(),
        name_index(ps, s) matches Some(i) ==> 0 <= i < ps.len(),
    decreases ps.len(),
{
    if ps.len() > 0 {
        lemma_indices_in_range(ps.drop_first(), s);
    }
}

spec fn shifted(o: Option<int>, k: int) -> Option<int> {
    match o {
        Some(i) => Some(i + k),
        None => None,
    }
}

fn find_stable(players: &Vec<Player>, s: &str) -> (r: Option<usize>)
    ensures
        match r {
            Some(k) => stable_index(players_view(players@), s@) == Some(k as int),
            None => stable_index(players_view(players@), s@) is None,
        },
        r matches Some(i) ==> i < players@.len(),
{
    proof {
        lemma_indices_in_range(players_view(players@), s@);
    }
    let ghost ps = players_view(players@);
    let mut i: usize = 0;
    assert(ps.skip(0) =~= ps);
    while i < players.len()
        invariant
            i <= players@.len(),
            ps == players_view(players@),
            stable_index(ps, s@) == shifted(stable_index(ps.skip(i as int), s@), i as int),
        decreases players@.len() - i,
    {
        assert(ps.skip(i as int)[0] == players@[i as int]@);
        if text_eq(players[i].stable_player_id.as_str(), s) {
            return Some(i);
        }
        assert(ps.skip(i as int).drop_first() =~= ps.skip(i + 1));
        i = i + 1;
    }
    assert(ps.skip(i as int) =~= Seq::<PlayerModel>::empty());
    None
}

fn find_name(players: &Vec<Player>, lname: &str) -> (r: Option<usize>)
    ensures
        match r {
            Some(k) => name_index(players_view(players@), lname@) == Some(k as int),
            None => name_index(players_view(players@), lname@) is None,
        },
        r matches Some(i) ==> i < players@.len(),
{
    proof {
        lemma_indices_in_range(players_view(players@), lname@);
    }
    let ghost ps = players_view(players@);
    let mut i: usize = 0;
    assert(ps.skip(0) =~= ps);
    while i < players.len()
        invariant
            i <= players@.len(),
            ps == players_view(players@),
            name_index(ps, lname@) == shifted(name_index(ps.skip(i as int), lname@), i as int),
        decreases players@.len() - i,
    {
        assert(ps.skip(i as int)[0] == players@[i as int]@);
        let l = crate::text::to_lowercase(players[i].username.as_str());
        if text_eq(l.as_str(), lname) {
            return Some(i);
        }
        assert(ps.skip(i as int).drop_first() =~= ps.skip(i + 1));
        i = i + 1;
    }
    assert(ps.skip(i as int) =~= Seq::<PlayerModel>::empty());
    None
}

/// The revealer `from` renamed `to` in every entry.
pub open spec fn renamed(es: Seq<TagBanModel>, from: Seq<char>, to: Seq<char>) -> Seq<TagBanModel> {
    es.map_values(|e: TagBanModel| TagBanModel {
        tag: e.tag,
        revealer: e.revealer.map_values(|x: Seq<char>| if x == from { to } else { x }),
    })
}

fn rename_revealers(es: &Vec<TagBanEntry>, from: &str, to: &str) -> (r: Vec<TagBanEntry>)
    ensures
        tag_bans_view(r@) == renamed(tag_bans_view(es@), from@, to@),
{
    let mut out: Vec<TagBanEntry> = Vec::new();
    let mut i: usize = 0;
    while i < es.len()
        invariant
            i <= es@.len(),
            out@.len() == i,
            forall|k: int| 0 <= k < i ==> (#[trigger] out@[k])@ == renamed(tag_bans_view(es@), from@, to@)[k],
        decreases es@.len() - i,
    {
        let e = &es[i];
        let mut rev: Vec<String> = Vec::new();
        let mut j: usize = 0;
        while j < e.revealer.len()
            invariant
                j <= e.revealer@.len(),
                rev@.len() == j,
                forall|k: int| 0 <= k < j ==> (#[trigger] rev@[k])@ == (if e.revealer@[k]@ == from@ { to@ } else { e.revealer@[k]@ }),
            decreases e.revealer@.len() - j,
        {
            if text_eq(e.revealer[j].as_str(), from) {
                let mut t = String::new();
                crate::text::append_text(&mut t, to);
                rev.push(t);
            } else {
                rev.push(e.revealer[j].clone());
            }
            j = j + 1;
        }
        let ne = TagBanEntry { tag: e.tag.clone(), revealer: rev };
        assert(ne@.revealer =~= e@.revealer.map_values(|x: Seq<char>| if x == from@ { to@ } else { x }));
        out.push(ne);
        i = i + 1;
    }
    assert(tag_bans_view(out@) =~= renamed(tag_bans_view(es@), from@, to@));
    out
}

/// A player left behind, bound to socket `socket` again: connected, with a stable id, and
/// with the avatar (and its picture, if sent) that came along, if any.
pub open spec fn rebound(
    p: PlayerModel, room_id: Seq<char>, socket: Seq<char>, avatar: Option<AvatarModel>,
    image: Option<Seq<char>>, now: i64,
) -> PlayerModel {
    let p1 = PlayerModel { id: socket, disconnected: false, ..p };
    let p2 = if is_blank(p1.stable_player_id) {
        PlayerModel { stable_player_id: stable_id(room_id, p1.username, None, now), ..p1 }
    } else {
        p1
    };
    if avatar matches Some(a) && !avatar_unset(a) {
        PlayerModel { avatar_id: avatar, avatar_image: if image is Some { image } else { p2.avatar_image }, ..p2 }
    } else {
        p2
    }
}

/// The room after player `i` is bound to `socket` again; the old socket's reveals of banned
/// tags pass to the new one.
pub open spec fn reconnected_room(
    r: RoomModel, i: int, room_id: Seq<char>, socket: Seq<char>, avatar: Option<AvatarModel>,
    image: Option<Seq<char>>, now: i64,
) -> RoomModel {
    let old_id = r.players[i].id;
    RoomModel {
        players: r.players.update(i, rebound(r.players[i], room_id, socket, avatar, image, now)),
        current_game: match r.current_game {
            Some(g) => Some(GameModel {
                tag_ban_state: renamed(g.tag_ban_state, old_id, socket),
                tag_ban_state_pending: renamed(g.tag_ban_state_pending, old_id, socket),
                ..g
            }),
            None => None,
        },
        ..r
    }
}

/// Some connected player already wears the avatar `a`.
pub open spec fn avatar_worn(ps: Seq<PlayerModel>, a: AvatarModel) -> bool {
    exists|k: int| 0 <= k < ps.len() && !(#[trigger] ps[k]).disconnected
        && (ps[k].avatar_id matches Some(b) && !avatar_unset(b) && avatar_key(b) == avatar_key(a))
}

/// How a join ends.
pub enum JoinOutcome {
    /// The same socket asked again: nothing changes.
    Rejoined(usize),
    /// A player left behind (disconnected, or on a socket that is gone) is bound again; the
    /// socket it had before.
    Reconnected(usize, String),
    /// A new seat, at this position.
    Joined(usize),
    /// Refused, with the reason shown.
    Refused(&'static str),
}

pub enum JoinModel {
    Rejoined(int),
    Reconnected(int, Seq<char>),
    Joined(int),
    Refused(Seq<char>),
}

pub open spec fn join_view(o: JoinOutcome) -> JoinModel {
    match o {
        JoinOutcome::Rejoined(i) => JoinModel::Rejoined(i as int),
        JoinOutcome::Reconnected(i, s) => JoinModel::Reconnected(i as int, s@),
        JoinOutcome::Joined(i) => JoinModel::Joined(i as int),
        JoinOutcome::Refused(m) => JoinModel::Refused(m@),
    }
}

/// The join of `username` on `socket` to an existing room at `now`: the player is found by
/// stable id, else by name (case folded). The same socket rejoins. A player left behind is
/// bound again, unless both sides show different avatars; a connected player on a live
/// socket keeps the name. Otherwise a seat is taken, if one is free and the avatar is not
/// worn already: as an observer (team "0") during a game.
pub open spec fn join_result(
    r0: RoomModel, room_id: Seq<char>, socket: Seq<char>, username: Seq<char>, stable: Seq<char>,
    avatar: Option<AvatarModel>, image: Option<Seq<char>>, active: Seq<Seq<char>>, now: i64,
) -> (RoomModel, JoinModel) {
    let r = RoomModel { last_active: now, ..r0 };
    let found = match stable_index(r.players, stable) {
        Some(i) => Some(i),
        None => name_index(r.players, crate::text::lowercase_text(username)),
    };
    let incoming_empty = match avatar { Some(a) => avatar_unset(a), None => true };
    match found {
        Some(i) => {
            let p = r.players[i];
            if p.id == socket {
                (r, JoinModel::Rejoined(i))
            } else if p.disconnected {
                let prev_empty = match p.avatar_id { Some(a) => avatar_unset(a), None => true };
                let prev_key = match p.avatar_id { Some(a) => avatar_key(a), None => Seq::empty() };
                let inc_key = match avatar { Some(a) => avatar_key(a), None => Seq::empty() };
                if !incoming_empty && !prev_empty && prev_key != inc_key {
                    (r, JoinModel::Refused("头像信息和原玩家不一致，无法作为同一玩家重连；请换一个名字加入"@))
                } else {
                    (reconnected_room(r, i, room_id, socket, avatar, image, now), JoinModel::Reconnected(i, p.id))
                }
            } else if !active.contains(p.id) {
                (reconnected_room(r, i, room_id, socket, avatar, image, now), JoinModel::Reconnected(i, p.id))
            } else {
                (r, JoinModel::Refused("这个名字已经在房间里，请换一个名字；如果这是你自己的旧标签页，请关闭旧标签页或刷新当前页"@))
            }
        },
        None => {
            if connected_count(r.players) >= MAX_ROOM_PLAYERS {
                (r, JoinModel::Refused("房间人数已满，请加入其他房间"@))
            } else if avatar matches Some(a) && avatar_worn(r.players, a) {
                (r, JoinModel::Refused("头像已被房间内其他玩家使用，请重新抽取头像或换一个名字"@))
            } else {
                let in_game = r.current_game is Some;
                let p = arrived(socket, stable, username, false, if in_game { Some("0"@) } else { None },
                    Some(in_game), avatar, image);
                (RoomModel { players: r.players.push(p), ..r }, JoinModel::Joined(r.players.len() as int))
            }
        },
    }
}

fn avatar_taken(players: &Vec<Player>, a: &AvatarId) -> (r: bool)
    ensures
        r == avatar_worn(players_view(players@), a@),
{
    let key = a.as_key_string();
    let ghost ps = players_view(players@);
    let mut i: usize = 0;
    while i < players.len()
        invariant
            i <= players@.len(),
            ps == players_view(players@),
            key@ == avatar_key(a@),
            forall|k: int| 0 <= k < i ==> !(!(#[trigger] ps[k]).disconnected
                && (ps[k].avatar_id matches Some(b) && !avatar_unset(b) && avatar_key(b) == avatar_key(a@))),
        decreases players@.len() - i,
    {
        let p = &players[i];
        assert(ps[i as int] == p@);
        if !p.disconnected {
            match &p.avatar_id {
                Some(b) => {
                    if !b.is_empty() {
                        let bk = b.as_key_string();
                        if text_eq(bk.as_str(), key.as_str()) {
                            return true;
                        }
                    }
                },
                None => {},
            }
        }
        i = i + 1;
    }
    false
}

fn contains_text(v: &Vec<String>, x: &str) -> (r: bool)
    ensures
        r == texts(v@).contains(x@),
{
    crate::gameplay::details::texts_contain(v, x)
}

/// Binds player `i` to `socket` again (see `reconnected_room`); returns the socket it had.
fn reconnect(
    room: &mut Room, i: usize, room_id: &str, socket_id: &str, avatar_id: Option<AvatarId>,
    avatar_image: Option<String>, now: i64,
) -> (previous: String)
    requires
        old(room).wf(),
        i < old(room).players@.len(),
    ensures
        final(room).wf(),
        previous@ == old(room)@.players[i as int].id,
        final(room)@ == reconnected_room(old(room)@, i as int, room_id@, socket_id@, opt_avatar(avatar_id), opt_text(avatar_image), now),
{
    let ghost r0 = room@;
    let mut p = room.players.remove(i);
    let previous = p.id.clone();
    let mut sid = String::new();
    crate::text::append_text(&mut sid, socket_id);
    p.id = sid;
    p.disconnected = false;
    let _ = ensure_player_stable_id_at(room_id, &mut p, now);
    if !is_empty_avatar(&avatar_id) {
        p.avatar_id = avatar_id;
        if avatar_image.is_some() {
            p.avatar_image = avatar_image;
        }
    }
    let ghost pm = p@;
    room.players.insert(i, p);
    assert(players_view(room.players@) =~= r0.players.update(i as int, pm));
    if room.current_game.is_some() {
        let mut g = room.current_game.take().unwrap();
        g.tag_ban_state = rename_revealers(&g.tag_ban_state, previous.as_str(), socket_id);
        g.tag_ban_state_pending = rename_revealers(&g.tag_ban_state_pending, previous.as_str(), socket_id);
        room.current_game = Some(g);
    }
    previous
}

/// Joins `username` on `socket_id` to this room at `now` (see `join_result`); `active_sockets`
/// are the sockets still connected to the room.
pub fn join_room(
    room: &mut Room,
    room_id: &str,
    socket_id: &str,
    username: &str,
    stable_player_id: String,
    avatar_id: Option<AvatarId>,
    avatar_image: Option<String>,
    active_sockets: &Vec<String>,
    now: i64,
) -> (r: JoinOutcome)
    requires
        old(room).wf(),
    ensures
        final(room).wf(),
        (final(room)@, join_view(r)) == join_result(old(room)@, room_id@, socket_id@, username@, stable_player_id@,
            opt_avatar(avatar_id), opt_text(avatar_image), texts(active_sockets@), now),
{
    room.last_active = now;
    let ghost r = room@;
    proof {
        lemma_indices_in_range(r.players, stable_player_id@);
        lemma_indices_in_range(r.players, crate::text::lowercase_text(username@));
    }
    let lname = crate::text::to_lowercase(username);
    let by_stable = find_stable(&room.players, stable_player_id.as_str());
    assert(players_view(room.players@) == r.players);
    let found = match by_stable {
        Some(i) => Some(i),
        None => find_name(&room.players, lname.as_str()),
    };
    proof {
        lemma_indices_in_range(r.players, stable_player_id@);
        lemma_indices_in_range(r.players, crate::text::lowercase_text(username@));
        let sf = match stable_index(r.players, stable_player_id@) {
            Some(i) => Some(i),
            None => name_index(r.players, crate::text::lowercase_text(username@)),
        };
        match found {
            Some(i) => assert(sf == Some(i as int)),
            None => assert(sf is None),
        }
    }
    match found {
        Some(i) => {
            assert(r.players[i as int] == room.players@[i as int]@);
            if text_eq(room.players[i].id.as_str(), socket_id) {
                assert(r == room@);
                return JoinOutcome::Rejoined(i);
            }
            if room.players[i].disconnected {
                let incoming_empty = is_empty_avatar(&avatar_id);
                let prev_empty = is_empty_avatar(&room.players[i].avatar_id);
                if !incoming_empty && !prev_empty {
                    let prev_key = crate::gameplay::lobby::avatar_to_string(&room.players[i].avatar_id);
                    let inc_key = crate::gameplay::lobby::avatar_to_string(&avatar_id);
                    if !text_eq(prev_key.as_str(), inc_key.as_str()) {
                        return JoinOutcome::Refused("头像信息和原玩家不一致，无法作为同一玩家重连；请换一个名字加入");
                    }
                }
                let previous = reconnect(room, i, room_id, socket_id, avatar_id, avatar_image, now);
                return JoinOutcome::Reconnected(i, previous);
            }
            if !contains_text(active_sockets, room.players[i].id.as_str()) {
                let previous = reconnect(room, i, room_id, socket_id, avatar_id, avatar_image, now);
                return JoinOutcome::Reconnected(i, previous);
            }
            JoinOutcome::Refused("这个名字已经在房间里，请换一个名字；如果这是你自己的旧标签页，请关闭旧标签页或刷新当前页")
        },
        None => {
            if active_room_player_count(room) >= MAX_ROOM_PLAYERS {
                return JoinOutcome::Refused("房间人数已满，请加入其他房间");
            }
            let taken = match &avatar_id {
                Some(a) => avatar_taken(&room.players, a),
                None => false,
            };
            if taken {
                return JoinOutcome::Refused("头像已被房间内其他玩家使用，请重新抽取头像或换一个名字");
            }
            let in_game = room.current_game.is_some();
            let team = if in_game {
                let mut t = String::new();
                crate::text::push_char(&mut t, '0');
                Some(t)
            } else {
                None
            };
            proof {
                reveal_strlit("0");
            }
            let mut sid = String::new();
            crate::text::append_text(&mut sid, socket_id);
            assert(sid@ =~= socket_id@);
            let mut name = String::new();
            crate::text::append_text(&mut name, username);
            assert(name@ =~= username@);
            assert(team matches Some(t) ==> t@ =~= "0"@);
            let p = new_player(sid, stable_player_id, name, false, team, Some(in_game), avatar_id, avatar_image);
            let n = room.players.len();
            let ghost before = room@.players;
            room.players.push(p);
            assert(players_view(room.players@) =~= before.push(room.players@[n as int]@));
            JoinOutcome::Joined(n)
        },
    }
}

/// A refused join changes nothing in the room but the time of its last activity; so does
/// asking again from the same socket.
pub proof fn law_refused_join_changes_nothing(
    r0: RoomModel, room_id: Seq<char>, socket: Seq<char>, username: Seq<char>, stable: Seq<char>,
    avatar: Option<AvatarModel>, image: Option<Seq<char>>, active: Seq<Seq<char>>, now: i64,
)
    ensures
        ({
            let (r1, out) = join_result(r0, room_id, socket, username, stable, avatar, image, active, now);
            (out is Refused || out is Rejoined) ==> r1 == (RoomModel { last_active: now, ..r0 })
        }),
{
}

/// A new seat is only given while fewer than `MAX_ROOM_PLAYERS` players are connected, so
/// the room then holds at most that many connected players.
pub proof fn law_new_seat_within_limit(
    r0: RoomModel, room_id: Seq<char>, socket: Seq<char>, username: Seq<char>, stable: Seq<char>,
    avatar: Option<AvatarModel>, image: Option<Seq<char>>, active: Seq<Seq<char>>, now: i64,
)
    ensures
        ({
            let (r1, out) = join_result(r0, room_id, socket, username, stable, avatar, image, active, now);
            out is Joined ==> connected_count(r1.players) <= MAX_ROOM_PLAYERS
                && connected_count(r1.players) == connected_count(r0.players) + 1
        }),
{
    let (r1, out) = join_result(r0, room_id, socket, username, stable, avatar, image, active, now);
    if out is Joined {
        assert(r1.players.drop_last() =~= r0.players);
    }
}

} // verus!
