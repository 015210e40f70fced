//! The room routes' rules: which rooms are listed how, which one a quick join picks from,
//! which are closed as idle, and who may act as administrator.
use vstd::prelude::*;
use crate::gameplay::lobby::{active_room_player_count, connected_count};
use crate::state::{PlayerModel, Room, players_view};
use crate::text::{append_text, is_blank, text_eq, trim_spec};

verus! {

/// Players a room takes at most.
pub const MAX_ROOM_PLAYERS: usize = 8;

/// A room without a game is closed after this long without activity, in milliseconds.
pub const ROOM_STALE_MS: i64 = 300_000;

impl Room {
    /// The room is public and has a free seat.
    pub fn joinable(&self) -> (r: bool)
        ensures
            r == (self.is_public && connected_count(self@.players) < MAX_ROOM_PLAYERS),
    {
        self.is_public && active_room_player_count(self) < MAX_ROOM_PLAYERS
    }

    /// The room has no game and has been idle for longer than `ROOM_STALE_MS` at `now`.
    pub fn is_stale(&self, now: i64) -> (r: bool)
        requires
            i64::MIN <= now - self.last_active <= i64::MAX,
        ensures
            r == (self.current_game is None && now - self.last_active > ROOM_STALE_MS),
    {
        self.current_game.is_none() && now - self.last_active > ROOM_STALE_MS
    }
}

/// The ids of the rooms that `keep` picks, in order.
pub open spec fn joinable_ids(rooms: Seq<(String, Room)>) -> Seq<Seq<char>>
    decreases rooms.len(),
{
    if rooms.len() == 0 {
        Seq::empty()
    } else {
        let p = joinable_ids(rooms.drop_last());
        let (id, room) = rooms.last();
        if room.is_public && connected_count(room@.players) < MAX_ROOM_PLAYERS { p.push(id@) } else { p }
    }
}

/// The ids of the rooms a quick join may pick from, in order.
pub fn joinable_room_ids(rooms: &Vec<(String, Room)>) -> (r: Vec<String>)
    ensures
        crate::keyed::texts(r@) == joinable_ids(rooms@),
{
    let mut out: Vec<String> = Vec::new();
    let mut i: usize = 0;
    assert(rooms@.take(0) =~= Seq::<(String, Room)>::empty());
    while i < rooms.len()
        invariant
            i <= rooms@.len(),
            crate::keyed::texts(out@) == joinable_ids(rooms@.take(i as int)),
        decreases rooms@.len() - i,
    {
        assert(rooms@.take(i + 1).drop_last() =~= rooms@.take(i as int));
        assert(rooms@.take(i + 1).last() == rooms@[i as int]);
        if rooms[i].1.joinable() {
            let ghost before = crate::keyed::texts(out@);
            out.push(rooms[i].0.clone());
            assert(crate::keyed::texts(out@) =~= before.push(rooms@[i as int].0@));
        }
        i = i + 1;
    }
    assert(rooms@.take(rooms@.len() as int) =~= rooms@);
    out
}

/// The ids of the rooms idle at `now`, in order.
pub open spec fn stale_ids(rooms: Seq<(String, Room)>, now: i64) -> Seq<Seq<char>>
    decreases rooms.len(),
{
    if rooms.len() == 0 {
        Seq::empty()
    } else {
        let p = stale_ids(rooms.drop_last(), now);
        let (id, room) = rooms.last();
        if room.current_game is None && now - room.last_active > ROOM_STALE_MS { p.push(id@) } else { p }
    }
}

/// The ids of the rooms to close as idle at `now`, in order.
pub fn stale_room_ids(rooms: &Vec<(String, Room)>, now: i64) -> (r: Vec<String>)
    requires
        forall|k: int| 0 <= k < rooms@.len() ==> i64::MIN <= now - (#[trigger] rooms@[k]).1.last_active <= i64::MAX,
    ensures
        crate::keyed::texts(r@) == stale_ids(rooms@, now),
{
    let mut out: Vec<String> = Vec::new();
    let mut i: usize = 0;
    assert(rooms@.take(0) =~= Seq::<(String, Room)>::empty());
    while i < rooms.len()
        invariant
            i <= rooms@.len(),
            forall|k: int| 0 <= k < rooms@.len() ==> i64::MIN <= now - (#[trigger] rooms@[k]).1.last_active <= i64::MAX,
            crate::keyed::texts(out@) == stale_ids(rooms@.take(i as int), now),
        decreases rooms@.len() - i,
    {
        assert(rooms@.take(i + 1).drop_last() =~= rooms@.take(i as int));
        assert(rooms@.take(i + 1).last() == rooms@[i as int]);
        if rooms[i].1.is_stale(now) {
            let ghost before = crate::keyed::texts(out@);
            out.push(rooms[i].0.clone());
            assert(crate::keyed::texts(out@) =~= before.push(rooms@[i as int].0@));
        }
        i = i + 1;
    }
    assert(rooms@.take(rooms@.len() as int) =~= rooms@);
    out
}

/// A message of the idle-room cleanup.
pub enum CleanupNotice {
    /// Sent to the room `room_id` as it is closed.
    RoomClosed { room_id: String, message: String },
    /// The lobby's list of rooms changed.
    LobbyRoomsUpdated,
}

/// The message a room closed as idle gets.
pub open spec fn idle_close_message() -> Seq<char> {
    "房间因长时间无活动已关闭"@
}

/// The messages for closing the rooms `ids`: one per room, in order, then one lobby update
/// when any room was closed.
pub open spec fn cleanup_notices(ids: Seq<Seq<char>>, ns: Seq<CleanupNotice>) -> bool {
    &&& ns.len() == if ids.len() > 0 { ids.len() + 1 } else { 0 }
    &&& forall|k: int| 0 <= k < ids.len() ==> (#[trigger] ns[k] matches CleanupNotice::RoomClosed { room_id, message }
        && room_id@ == ids[k] && message@ == idle_close_message())
    &&& ids.len() > 0 ==> ns.last() is LobbyRoomsUpdated
}

/// One tick of the idle-room cleanup at `now`: the rooms to remove (those `stale_ids` names)
/// and the messages that go out.
pub fn cleanup_tick(rooms: &Vec<(String, Room)>, now: i64) -> (r: (Vec<String>, Vec<CleanupNotice>))
    requires
        forall|k: int| 0 <= k < rooms@.len() ==> i64::MIN <= now - (#[trigger] rooms@[k]).1.last_active <= i64::MAX,
    ensures
        crate::keyed::texts(r.0@) == stale_ids(rooms@, now),
        cleanup_notices(stale_ids(rooms@, now), r.1@),
{
    let ids = stale_room_ids(rooms, now);
    let mut notices: Vec<CleanupNotice> = Vec::new();
    let mut k: usize = 0;
    while k < ids.len()
        invariant
            k <= ids@.len(),
            notices@.len() == k,
            forall|j: int| 0 <= j < k ==> (#[trigger] notices@[j] matches CleanupNotice::RoomClosed { room_id, message }
                && room_id@ == ids@[j]@ && message@ == idle_close_message()),
        decreases ids@.len() - k,
    {
        let m = "房间因长时间无活动已关闭";
        notices.push(CleanupNotice::RoomClosed { room_id: ids[k].clone(), message: m.to_string() });
        k = k + 1;
    }
    if ids.len() > 0 {
        notices.push(CleanupNotice::LobbyRoomsUpdated);
    }
    (ids, notices)
}

/// No room with a game in progress is closed as idle: in a registry where each id names one
/// room, the ids that the cleanup picks are those of rooms without a game.
pub proof fn law_cleanup_spares_games(rooms: Seq<(String, Room)>, now: i64)
    requires
        forall|a: int, b: int| 0 <= a < b < rooms.len() ==> (#[trigger] rooms[a]).0@ != (#[trigger] rooms[b]).0@,
    ensures
        forall|k: int| 0 <= k < rooms.len() && (#[trigger] rooms[k]).1.current_game is Some
            ==> !stale_ids(rooms, now).contains(rooms[k].0@),
    decreases rooms.len(),
{
    if rooms.len() > 0 {
        let init = rooms.drop_last();
        assert forall|a: int, b: int| 0 <= a < b < init.len() implies (#[trigger] init[a]).0@ != (#[trigger] init[b]).0@ by {
            assert(init[a] == rooms[a] && init[b] == rooms[b]);
        }
        law_cleanup_spares_games(init, now);
        lemma_stale_ids_from(init, now);
        assert forall|k: int| 0 <= k < rooms.len() && (#[trigger] rooms[k]).1.current_game is Some
            implies !stale_ids(rooms, now).contains(rooms[k].0@) by {
            let last = rooms.last();
            if k < rooms.len() - 1 {
                assert(init[k] == rooms[k]);
                assert(last.0@ != rooms[k].0@);
            }
        }
    }
}

/// Every id that the cleanup picks is the id of one of the rooms.
proof fn lemma_stale_ids_from(rooms: Seq<(String, Room)>, now: i64)
    ensures
        forall|j: int| 0 <= j < stale_ids(rooms, now).len() ==>
            exists|k: int| 0 <= k < rooms.len() && rooms[k].0@ == #[trigger] stale_ids(rooms, now)[j],
    decreases rooms.len(),
{
    if rooms.len() > 0 {
        let init = rooms.drop_last();
        lemma_stale_ids_from(init, now);
        assert forall|j: int| 0 <= j < stale_ids(rooms, now).len() implies
            exists|k: int| 0 <= k < rooms.len() && rooms[k].0@ == #[trigger] stale_ids(rooms, now)[j] by {
            if j < stale_ids(init, now).len() {
                let k = choose|k: int| 0 <= k < init.len() && init[k].0@ == stale_ids(init, now)[j];
                assert(rooms[k] == init[k]);
            } else {
                assert(rooms[rooms.len() - 1].0@ == stale_ids(rooms, now)[j]);
            }
        }
    }
}

/// The name of the first player marked as host.
pub open spec fn first_host_name(ps: Seq<PlayerModel>) -> Option<Seq<char>>
    decreases ps.len(),
{
    if ps.len() == 0 {
        None
    } else if ps[0].is_host {
        Some(ps[0].username)
    } else {
        first_host_name(ps.drop_first())
    }
}

/// The name of the first player with socket id `id`.
pub open spec fn first_name_with_id(ps: Seq<PlayerModel>, id: Seq<char>) -> Option<Seq<char>>
    decreases ps.len(),
{
    if ps.len() == 0 {
        None
    } else if ps[0].id == id {
        Some(ps[0].username)
    } else {
        first_name_with_id(ps.drop_first(), id)
    }
}

/// The host's name shown for a room: the player marked as host, else the player with the
/// room's host id, else nothing.
pub open spec fn shown_host_name(ps: Seq<PlayerModel>, host: Seq<char>) -> Seq<char> {
    match first_host_name(ps) {
        Some(n) => n,
        None => match first_name_with_id(ps, host) {
            Some(n) => n,
            None => Seq::empty(),
        },
    }
}

/// The names of the connected players, in order.
pub open spec fn connected_names(ps: Seq<PlayerModel>) -> Seq<Seq<char>>
    decreases ps.len(),
{
    if ps.len() == 0 {
        Seq::empty()
    } else {
        let p = connected_names(ps.drop_last());
        if ps.last().disconnected { p } else { p.push(ps.last().username) }
    }
}

/// What the room list shows of a room.
pub struct RoomListing {
    pub host_name: String,
    pub display_room_name: String,
    pub player_names: Vec<String>,
    pub player_count: usize,
    pub is_game_started: bool,
}

fn host_name_of(room: &Room) -> (r: String)
    ensures
        r@ == shown_host_name(room@.players, room@.host),
{
    let ghost ps = room@.players;
    let mut i: usize = 0;
    assert(ps.skip(0) =~= ps);
    while i < room.players.len()
        invariant
            i <= room.players@.len(),
            ps == players_view(room.players@),
            first_host_name(ps) == first_host_name(ps.skip(i as int)),
        decreases room.players@.len() - i,
    {
        assert(ps.skip(i as int)[0] == room.players@[i as int]@);
        if room.players[i].is_host {
            return room.players[i].username.clone();
        }
        assert(ps.skip(i as int).drop_first() =~= ps.skip(i + 1));
        i = i + 1;
    }
    assert(ps.skip(i as int) =~= Seq::<PlayerModel>::empty());
    let mut j: usize = 0;
    while j < room.players.len()
        invariant
            j <= room.players@.len(),
            ps == players_view(room.players@),
            first_host_name(ps) is None,
            first_name_with_id(ps, room@.host) == first_name_with_id(ps.skip(j as int), room@.host),
        decreases room.players@.len() - j,
    {
        assert(ps.skip(j as int)[0] == room.players@[j as int]@);
        if text_eq(room.players[j].id.as_str(), room.host.as_str()) {
            return room.players[j].username.clone();
        }
        assert(ps.skip(j as int).drop_first() =~= ps.skip(j + 1));
        j = j + 1;
    }
    assert(ps.skip(j as int) =~= Seq::<PlayerModel>::empty());
    String::new()
}

impl Room {
    /// What the room list shows of this room: the host's name, the room's name (the host's
    /// room where it has none), the connected players and whether a game runs.
    pub fn public_listing(&self) -> (r: RoomListing)
        ensures
            r.host_name@ == shown_host_name(self@.players, self@.host),
            r.display_room_name@ == (if is_blank(self@.room_name) {
                shown_host_name(self@.players, self@.host) + "的房间"@
            } else {
                self@.room_name
            }),
            crate::keyed::texts(r.player_names@) == connected_names(self@.players),
            r.player_count == connected_count(self@.players),
            r.is_game_started == (self.current_game is Some),
    {
        let host_name = host_name_of(self);
        let mut display = String::new();
        if crate::text::blank(self.room_name.as_str()) {
            append_text(&mut display, host_name.as_str());
            append_text(&mut display, "的房间");
        } else {
            append_text(&mut display, self.room_name.as_str());
        }
        let ghost ps = self@.players;
        let mut names: Vec<String> = Vec::new();
        let mut i: usize = 0;
        assert(ps.take(0) =~= Seq::<PlayerModel>::empty());
        while i < self.players.len()
            invariant
                i <= self.players@.len(),
                ps == players_view(self.players@),
                crate::keyed::texts(names@) == connected_names(ps.take(i as int)),
            decreases self.players@.len() - i,
        {
            assert(ps.take(i + 1).drop_last() =~= ps.take(i as int));
            assert(ps.take(i + 1).last() == self.players@[i as int]@);
            if !self.players[i].disconnected {
                let ghost before = crate::keyed::texts(names@);
                names.push(self.players[i].username.clone());
                assert(crate::keyed::texts(names@) =~= before.push(self.players@[i as int]@.username));
            }
            i = i + 1;
        }
        assert(ps.take(ps.len() as int) =~= ps);
        RoomListing {
            host_name,
            display_room_name: display,
            player_names: names,
            player_count: active_room_player_count(self),
            is_game_started: self.current_game.is_some(),
        }
    }
}

/// The configured administrator token: trimmed, and only when something is left.
pub open spec fn admin_token(configured: Option<Seq<char>>) -> Option<Seq<char>> {
    match configured {
        Some(t) => if trim_spec(t).len() > 0 { Some(trim_spec(t)) } else { None },
        None => None,
    }
}

/// A request is an administrator's when a token is configured and the request carries it: in
/// the `x-admin-token` header, as a bearer token, or in the query.
pub open spec fn admin_request(
    configured: Option<Seq<char>>,
    header_token: Option<Seq<char>>,
    authorization: Option<Seq<char>>,
    query_token: Option<Seq<char>>,
) -> bool {
    match admin_token(configured) {
        None => false,
        Some(expected) => {
            ||| header_token == Some(expected)
            ||| (authorization matches Some(a) && a.len() >= 7 && a.take(7) == "Bearer "@ && a.skip(7) == expected)
            ||| query_token == Some(expected)
        },
    }
}

fn opt_eq(value: Option<&str>, expected: &str) -> (r: bool)
    ensures
        r == (crate::settings::opt_str(value) == Some(expected@)),
{
    match value {
        Some(v) => text_eq(v, expected),
        None => false,
    }
}

fn bearer_matches(authorization: Option<&str>, expected: &str) -> (r: bool)
    ensures
        r == (crate::settings::opt_str(authorization) matches Some(a)
            && a.len() >= 7 && a.take(7) == "Bearer "@ && a.skip(7) == expected@),
{
    match authorization {
        Some(a) => {
            let cs = crate::text::chars_of(a);
            if cs.len() < 7 {
                return false;
            }
            let head = crate::text::string_of_range(&cs, 0, 7);
            let tail = crate::text::string_of_range(&cs, 7, cs.len());
            assert(head@ =~= a@.take(7));
            assert(tail@ =~= a@.skip(7));
            text_eq(head.as_str(), "Bearer ") && text_eq(tail.as_str(), expected)
        },
        None => false,
    }
}

/// Whether a request is an administrator's, from the configured token and what it carries.
pub fn is_admin_request(
    configured: Option<&str>,
    header_token: Option<&str>,
    authorization: Option<&str>,
    query_token: Option<&str>,
) -> (r: bool)
    ensures
        r == admin_request(
            crate::settings::opt_str(configured), crate::settings::opt_str(header_token),
            crate::settings::opt_str(authorization), crate::settings::opt_str(query_token),
        ),
{
    let expected = match configured {
        Some(c) => crate::text::trim(c),
        None => return false,
    };
    if crate::text::chars_of(expected.as_str()).len() == 0 {
        return false;
    }
    opt_eq(header_token, expected.as_str()) || bearer_matches(authorization, expected.as_str())
        || opt_eq(query_token, expected.as_str())
}

/// The link a quick join sends: the English client for `lang=en`, else the configured one.
pub fn quick_join_url(lang: Option<&str>, base_url: &str, room_id: &str) -> (r: String)
    ensures
        r@ == (if crate::settings::opt_str(lang) == Some("en"@) {
            "https://vertikarl.github.io/anime-character-guessr-english/#"@
        } else {
            base_url@
        }) + "/multiplayer/"@ + room_id@,
{
    let mut out = String::new();
    if opt_eq(lang, "en") {
        append_text(&mut out, "https://vertikarl.github.io/anime-character-guessr-english/#");
    } else {
        append_text(&mut out, base_url);
    }
    append_text(&mut out, "/multiplayer/");
    append_text(&mut out, room_id);
    out
}

/// `rand::random_range(0..n)`: a number below `n` drawn by the thread-local generator. It
/// panics on an empty range, hence `n > 0`; which number comes is left open.
#[verifier::external_body]
fn random_below(n: usize) -> (r: usize)
    requires
        n > 0,
    ensures
        r < n,
{
    rand::random_range(0..n)
}

/// The public room a quick join goes to, drawn at random among `ids`; none when there is none.
pub fn pick_quick_join_room(ids: &Vec<String>) -> (r: Option<String>)
    ensures
        r is None <==> ids@.len() == 0,
        r matches Some(id) ==> crate::keyed::texts(ids@).contains(id@),
{
    if ids.len() == 0 {
        return None;
    }
    let k = random_below(ids.len());
    let id = ids[k].clone();
    assert(crate::keyed::texts(ids@)[k as int] == id@);
    Some(id)
}

} // verus!
