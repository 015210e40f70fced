//! A socket leaving its room: its player stays as disconnected, the host's role passes on,
//! and a wait for the answer it was part of is called off.
use vstd::prelude::*;
use crate::gameplay::rules::{find_player, find_player_index};
use crate::state::{GameModel, Player, PlayerModel, Room, RoomModel, players_view};
use crate::settings::opt_text;
use crate::text::{append_text, text_eq};

verus! {

/// The first connected player on another socket than `socket`.
pub open spec fn next_host_index(ps: Seq<PlayerModel>, socket: Seq<char>) -> Option<int>
    decreases ps.len(),
{
    if ps.len() == 0 {
        None
    } else if !ps[0].disconnected && ps[0].id != socket {
        Some(0)
    } else {
        match next_host_index(ps.drop_first(), socket) {
            Some(i) => Some(i + 1),
            None => None,
        }
    }
}

proof fn lemma_next_host_in_range(ps: Seq<PlayerModel>, socket: Seq<char>)
    ensures
        next_host_index(ps, socket) matches Some(i) ==> 0 <= i < ps.len() && !ps[i].disconnected && ps[i].id != socket,
    decreases ps.len(),
{
    if ps.len() > 0 {
        lemma_next_host_in_range(ps.drop_first(), socket);
    }
}

/// The players on socket `id` made host and not ready.
pub open spec fn crowned(ps: Seq<PlayerModel>, id: Seq<char>) -> Seq<PlayerModel> {
    ps.map_values(|p: PlayerModel| if p.id == id { PlayerModel { is_host: true, ready: false, ..p } } else { p })
}

/// The host's role passed on: from the player called `old_name` to `new_id`, called `new_name`.
pub struct HostTransfer {
    pub old_host_name: String,
    pub new_host_id: String,
    pub new_host_name: String,
}

pub struct HostTransferModel {
    pub old_host_name: Seq<char>,
    pub new_host_id: Seq<char>,
    pub new_host_name: Seq<char>,
}

/// What leaving did besides marking the player: a new host, and the notice for a wait for the
/// answer to call off.
pub struct LeaveOutcome {
    pub host_transferred: Option<HostTransfer>,
    pub cancel_message: Option<String>,
}

pub struct LeaveModel {
    pub host_transferred: Option<HostTransferModel>,
    pub cancel_message: Option<Seq<char>>,
}

pub open spec fn leave_view(o: LeaveOutcome) -> LeaveModel {
    LeaveModel {
        host_transferred: match o.host_transferred {
            Some(t) => Some(HostTransferModel {
                old_host_name: t.old_host_name@,
                new_host_id: t.new_host_id@,
                new_host_name: t.new_host_name@,
            }),
            None => None,
        },
        cancel_message: opt_text(o.cancel_message),
    }
}

/// Socket `socket` leaves room `r0`. Without its player nothing happens. Otherwise the player
/// stays, disconnected; if it was the host, the first connected player on another socket
/// becomes host (and not ready). The wait for the answer is called off, with a notice naming
/// the player, when it was the chosen setter, or the host while the room waited. The socket no
/// longer counts as done with its turn.
pub open spec fn leave_result(r0: RoomModel, socket: Seq<char>) -> Option<(RoomModel, LeaveModel)> {
    match find_player(r0.players, socket) {
        None => None,
        Some(i) => {
            let ps = r0.players;
            let name = ps[i].username;
            let was_host = r0.host == socket;
            let next = if was_host { next_host_index(ps, socket) } else { None };
            let (ps1, host, transfer) = match next {
                Some(j) => {
                    let c = crowned(ps, ps[j].id);
                    (
                        c.update(i, PlayerModel { is_host: false, disconnected: true, ..c[i] }),
                        ps[j].id,
                        Some(HostTransferModel { old_host_name: name, new_host_id: ps[j].id, new_host_name: ps[j].username }),
                    )
                },
                None => (ps.update(i, PlayerModel { disconnected: true, ..ps[i] }), r0.host, None),
            };
            let cancel = if r0.answer_setter_id == Some(socket) {
                Some("指定的出题人 "@ + name + " 已离开，等待被取消"@)
            } else if was_host && r0.waiting_for_answer {
                Some("房主 "@ + name + " 已离开，等待出题已取消"@)
            } else {
                None
            };
            let game = match r0.current_game {
                Some(g) => Some(GameModel { sync_players_completed: g.sync_players_completed.remove(socket), ..g }),
                None => None,
            };
            Some((
                RoomModel { players: ps1, host, current_game: game, ..r0 },
                LeaveModel { host_transferred: transfer, cancel_message: cancel },
            ))
        },
    }
}

fn next_host(players: &Vec<Player>, socket: &str) -> (r: Option<usize>)
    ensures
        match r {
            Some(k) => next_host_index(players_view(players@), socket@) == Some(k as int) && k < players@.len(),
            None => next_host_index(players_view(players@), socket@) is None,
        },
{
    let ghost ps = players_view(players@);
    let mut i: usize = 0;
    assert(ps.skip(0) =~= ps);
    while i < players.len()
        invariant
            i <= players@.len(),
            ps == players_view(players@),
            next_host_index(ps, socket@) == (match next_host_index(ps.skip(i as int), socket@) {
                Some(k) => Some(k + i),
                None => None,
            }),
        decreases players@.len() - i,
    {
        assert(ps.skip(i as int)[0] == players@[i as int]@);
        if !players[i].disconnected && !text_eq(players[i].id.as_str(), socket) {
            return Some(i);
        }
        assert(ps.skip(i as int).drop_first() =~= ps.skip(i + 1));
        i = i + 1;
    }
    assert(ps.skip(i as int) =~= Seq::<PlayerModel>::empty());
    None
}

fn crown(players: &mut Vec<Player>, id: &str)
    ensures
        players_view(final(players)@) == crowned(players_view(old(players)@), id@),
{
    let ghost ps0 = players_view(players@);
    let mut out: Vec<Player> = Vec::new();
    while players.len() > 0
        invariant
            ps0 == players_view(old(players)@),
            players@.len() + out@.len() == ps0.len(),
            forall|k: int| 0 <= k < players@.len() ==> (#[trigger] players@[k])@ == ps0[k],
            forall|k: int| 0 <= k < out@.len() ==> (#[trigger] out@[k])@ == crowned(ps0, id@)[ps0.len() - 1 - k],
        decreases players@.len(),
    {
        let mut p = players.pop().unwrap();
        let ghost k = players@.len() as int;
        assert(p@ == ps0[k]);
        if text_eq(p.id.as_str(), id) {
            p.is_host = true;
            p.ready = false;
        }
        out.push(p);
    }
    while out.len() > 0
        invariant
            players@.len() + out@.len() == ps0.len(),
            forall|k: int| 0 <= k < out@.len() ==> (#[trigger] out@[k])@ == crowned(ps0, id@)[ps0.len() - 1 - k],
            forall|k: int| 0 <= k < players@.len() ==> (#[trigger] players@[k])@ == crowned(ps0, id@)[k],
        decreases out@.len(),
    {
        let p = out.pop().unwrap();
        players.push(p);
    }
    assert(players_view(players@) =~= crowned(ps0, id@));
}

fn set_player(players: &mut Vec<Player>, i: usize, host: bool, keep_host: bool)
    requires
        i < old(players)@.len(),
    ensures
        players_view(final(players)@) == players_view(old(players)@).update(i as int, PlayerModel {
            is_host: if keep_host { old(players)@[i as int]@.is_host } else { host },
            disconnected: true,
            ..old(players)@[i as int]@
        }),
{
    let ghost ps0 = players_view(players@);
    let mut p = players.remove(i);
    if !keep_host {
        p.is_host = host;
    }
    p.disconnected = true;
    let ghost pm = p@;
    players.insert(i, p);
    assert(players_view(players@) =~= ps0.update(i as int, pm));
}

/// Socket `socket_id` leaves this room (see `leave_result`); `None` when no player is on it.
pub fn leave_room(room: &mut Room, socket_id: &str) -> (r: Option<LeaveOutcome>)
    requires
        old(room).wf(),
    ensures
        final(room).wf(),
        match leave_result(old(room)@, socket_id@) {
            None => r is None && final(room)@ == old(room)@,
            Some((r1, out)) => r matches Some(o) && final(room)@ == r1 && leave_view(o) == out,
        },
{
    let ghost r0 = room@;
    let i = match find_player_index(&room.players, socket_id) {
        Some(i) => i,
        None => return None,
    };
    let name = room.players[i].username.clone();
    let was_host = text_eq(room.host.as_str(), socket_id);
    let next = if was_host { next_host(&room.players, socket_id) } else { None };
    proof {
        lemma_next_host_in_range(r0.players, socket_id@);
    }
    let mut transfer: Option<HostTransfer> = None;
    match next {
        Some(j) => {
            let new_id = room.players[j].id.clone();
            let new_name = room.players[j].username.clone();
            crown(&mut room.players, new_id.as_str());
            assert(players_view(room.players@).len() == room.players@.len());
            assert(crowned(r0.players, new_id@).len() == r0.players.len());
            set_player(&mut room.players, i, false, false);
            let mut h = String::new();
            append_text(&mut h, new_id.as_str());
            assert(h@ =~= new_id@);
            room.host = h;
            transfer = Some(HostTransfer { old_host_name: name.clone(), new_host_id: new_id, new_host_name: new_name });
        },
        None => {
            set_player(&mut room.players, i, false, true);
            assert(players_view(room.players@) =~= r0.players.update(i as int, PlayerModel { disconnected: true, ..r0.players[i as int] }));
        },
    }
    let setter_left = match &room.answer_setter_id {
        Some(s) => text_eq(s.as_str(), socket_id),
        None => false,
    };
    let cancel_message = if setter_left {
        let mut m = String::new();
        append_text(&mut m, "指定的出题人 ");
        append_text(&mut m, name.as_str());
        append_text(&mut m, " 已离开，等待被取消");
        assert(m@ =~= "指定的出题人 "@ + name@ + " 已离开，等待被取消"@);
        Some(m)
    } else if was_host && room.waiting_for_answer {
        let mut m = String::new();
        append_text(&mut m, "房主 ");
        append_text(&mut m, name.as_str());
        append_text(&mut m, " 已离开，等待出题已取消");
        assert(m@ =~= "房主 "@ + name@ + " 已离开，等待出题已取消"@);
        Some(m)
    } else {
        None
    };
    if room.current_game.is_some() {
        let mut g = room.current_game.take().unwrap();
        g.sync_players_completed.remove(socket_id);
        room.current_game = Some(g);
    }
    proof {
        assert(name@ == r0.players[i as int].username);
        let res = leave_result(r0, socket_id@);
        assert(res is Some);
        let (r1, out) = res->0;
        assert(out.cancel_message == opt_text(cancel_message));
        assert(room@.players == r1.players);
        assert(room@.host == r1.host);
        assert(room@.current_game == r1.current_game);
        assert(room@ == r1);
    }
    Some(LeaveOutcome { host_transferred: transfer, cancel_message })
}

} // verus!
