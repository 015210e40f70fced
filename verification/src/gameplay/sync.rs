//! Synchronised rounds: who has played this turn, the waiting notice, and the next turn.
use vstd::prelude::*;
use crate::gameplay::events::{RankedWinner, RoomEvent, SyncStatus};
use crate::gameplay::marks::player_has_result;
use crate::gameplay::rules::{is_spectator, is_spectator_team};
use crate::keyed::IdSet;
use crate::state::{CurrentGame, GameModel, Player, PlayerModel, players_view};
use crate::text::{append_text, decimal_text, push_char, text_less, text_lt};

verus! {

/// Shortest time between two identical waiting notices, in milliseconds.
pub const SYNC_WAITING_MIN_INTERVAL_MS: i64 = 150;

pub struct SyncStatusModel {
    pub id: Seq<char>,
    pub username: Seq<char>,
    pub completed: bool,
}

impl View for SyncStatus {
    type V = SyncStatusModel;

    open spec fn view(&self) -> SyncStatusModel {
        SyncStatusModel { id: self.id@, username: self.username@, completed: self.completed }
    }
}

pub open spec fn statuses_view(v: Seq<SyncStatus>) -> Seq<SyncStatusModel> {
    v.map_values(|s: SyncStatus| s@)
}

/// Players who take part in the turns: connected guessers without a result yet.
pub open spec fn sync_candidate(p: PlayerModel) -> bool {
    !p.is_answer_setter && !is_spectator_team(p.team) && !p.disconnected && p.round_result is None
}

/// The progress of each candidate, in player order; done means in `done`.
pub open spec fn sync_entries(ps: Seq<PlayerModel>, done: Set<Seq<char>>) -> Seq<SyncStatusModel>
    decreases ps.len(),
{
    if ps.len() == 0 {
        Seq::empty()
    } else {
        let prev = sync_entries(ps.drop_last(), done);
        let p = ps.last();
        if sync_candidate(p) {
            prev.push(SyncStatusModel { id: p.id, username: p.username, completed: done.contains(p.id) })
        } else {
            prev
        }
    }
}

pub open spec fn done_count(es: Seq<SyncStatusModel>) -> nat
    decreases es.len(),
{
    if es.len() == 0 { 0 } else { done_count(es.drop_last()) + if es.last().completed { 1nat } else { 0nat } }
}

/// Where `id` goes among entries sorted by id, after those with the same id.
pub open spec fn insert_pos(s: Seq<SyncStatusModel>, id: Seq<char>) -> int
    decreases s.len(),
{
    if s.len() == 0 {
        0
    } else if text_lt(id, s[0].id) {
        0
    } else {
        1 + insert_pos(s.drop_first(), id)
    }
}

/// The entries in increasing id order; entries with equal ids keep their order.
pub open spec fn sort_by_id(es: Seq<SyncStatusModel>) -> Seq<SyncStatusModel>
    decreases es.len(),
{
    if es.len() == 0 {
        Seq::empty()
    } else {
        let s = sort_by_id(es.drop_last());
        s.insert(insert_pos(s, es.last().id), es.last())
    }
}

pub open spec fn key_entry(e: SyncStatusModel) -> Seq<char> {
    e.id + seq![':'] + if e.completed { seq!['1'] } else { seq!['0'] }
}

/// The entries' keys joined by `|`.
pub open spec fn join_entries(es: Seq<SyncStatusModel>) -> Seq<char>
    decreases es.len(),
{
    if es.len() == 0 {
        Seq::empty()
    } else if es.len() == 1 {
        key_entry(es[0])
    } else {
        join_entries(es.drop_last()) + seq!['|'] + key_entry(es.last())
    }
}

/// The key of a waiting notice: the turn and each player's progress, by id.
pub open spec fn waiting_key(round: u32, es: Seq<SyncStatusModel>) -> Seq<char> {
    seq!['r', ':'] + decimal_text(round as int) + seq!['|'] + join_entries(sort_by_id(es))
}

fn insert_position(s: &Vec<SyncStatus>, id: &str) -> (p: usize)
    ensures
        p as int == insert_pos(statuses_view(s@), id@),
        p <= s@.len(),
{
    let ghost sv = statuses_view(s@);
    let mut p: usize = 0;
    assert(sv.skip(0) =~= sv);
    while p < s.len() && !text_less(id, s[p].id.as_str())
        invariant
            p <= s@.len(),
            sv == statuses_view(s@),
            insert_pos(sv, id@) == p + insert_pos(sv.skip(p as int), id@),
        decreases s@.len() - p,
    {
        assert(sv.skip(p as int).drop_first() =~= sv.skip(p + 1));
        assert(sv.skip(p as int)[0] == s@[p as int]@);
        p = p + 1;
    }
    if p < s.len() {
        assert(sv.skip(p as int)[0] == s@[p as int]@);
    }
    p
}

fn copy_status(s: &SyncStatus) -> (r: SyncStatus)
    ensures
        r@ == s@,
{
    SyncStatus { id: s.id.clone(), username: s.username.clone(), completed: s.completed }
}

fn sorted_statuses(v: &Vec<SyncStatus>) -> (r: Vec<SyncStatus>)
    ensures
        statuses_view(r@) == sort_by_id(statuses_view(v@)),
{
    let ghost vv = statuses_view(v@);
    let mut out: Vec<SyncStatus> = Vec::new();
    let mut i: usize = 0;
    while i < v.len()
        invariant
            i <= v@.len(),
            vv == statuses_view(v@),
            statuses_view(out@) == sort_by_id(vv.take(i as int)),
        decreases v@.len() - i,
    {
        assert(vv.take(i + 1).drop_last() =~= vv.take(i as int));
        assert(vv.take(i + 1).last() == v@[i as int]@);
        let p = insert_position(&out, v[i].id.as_str());
        let ghost before = statuses_view(out@);
        out.insert(p, copy_status(&v[i]));
        assert(statuses_view(out@) =~= before.insert(p as int, v@[i as int]@));
        i = i + 1;
    }
    assert(vv.take(v@.len() as int) =~= vv);
    out
}

/// The key of a waiting notice (see `waiting_key`).
pub fn build_sync_waiting_key(round: u32, statuses: &Vec<SyncStatus>) -> (r: String)
    ensures
        r@ == waiting_key(round, statuses_view(statuses@)),
{
    let sorted = sorted_statuses(statuses);
    let ghost sv = statuses_view(sorted@);
    let mut out = String::new();
    push_char(&mut out, 'r');
    push_char(&mut out, ':');
    let digits = crate::text::i64_to_text(round as i64);
    append_text(&mut out, digits.as_str());
    push_char(&mut out, '|');
    let ghost head = out@;
    assert(head =~= seq!['r', ':'] + decimal_text(round as int) + seq!['|']);
    let mut i: usize = 0;
    while i < sorted.len()
        invariant
            i <= sorted@.len(),
            sv == statuses_view(sorted@),
            out@ == head + join_entries(sv.take(i as int)),
        decreases sorted@.len() - i,
    {
        assert(sv.take(i + 1).drop_last() =~= sv.take(i as int));
        assert(sv.take(i + 1).last() == sorted@[i as int]@);
        if i > 0 {
            push_char(&mut out, '|');
        }
        append_text(&mut out, sorted[i].id.as_str());
        push_char(&mut out, ':');
        push_char(&mut out, if sorted[i].completed { '1' } else { '0' });
        proof {
            if i == 0 {
                assert(sv.take(1) =~= seq![sv[0]]);
            }
        }
        assert(out@ =~= head + join_entries(sv.take(i + 1)));
        i = i + 1;
    }
    assert(sv.take(sorted@.len() as int) =~= sv);
    out
}

/// Whether a waiting notice repeats the last one too soon, unless `force`; when it goes
/// out, its key and time are remembered.
pub open spec fn skips_waiting(g: GameModel, key: Seq<char>, force: bool, now: i64) -> bool {
    !force && g.last_sync_waiting_key == Some(key) && (now as int) - (g.last_sync_waiting_at as int) < SYNC_WAITING_MIN_INTERVAL_MS as int
}

pub fn should_skip_sync_waiting(game: &mut CurrentGame, round: u32, statuses: &Vec<SyncStatus>, force: bool, now: i64) -> (r: bool)
    requires
        old(game).wf(),
    ensures
        final(game).wf(),
        r == skips_waiting(old(game)@, waiting_key(round, statuses_view(statuses@)), force, now),
        final(game)@ == (if r { old(game)@ } else {
            GameModel {
                last_sync_waiting_key: Some(waiting_key(round, statuses_view(statuses@))),
                last_sync_waiting_at: now,
                ..old(game)@
            }
        }),
{
    let key = build_sync_waiting_key(round, statuses);
    if !force {
        match &game.last_sync_waiting_key {
            Some(k) => {
                if crate::text::text_eq(k.as_str(), key.as_str()) && (now as i128) - (game.last_sync_waiting_at as i128) < SYNC_WAITING_MIN_INTERVAL_MS as i128 {
                    return true;
                }
            },
            None => {},
        }
    }
    game.last_sync_waiting_key = Some(key);
    game.last_sync_waiting_at = now;
    false
}


fn is_candidate(p: &Player) -> (r: bool)
    ensures
        r == sync_candidate(p@),
{
    !p.is_answer_setter && !is_spectator(&p.team) && !p.disconnected && !player_has_result(p)
}

/// The progress of each candidate (see `sync_entries`).
pub fn collect_statuses(players: &Vec<Player>, done: &IdSet) -> (r: Vec<SyncStatus>)
    ensures
        statuses_view(r@) == sync_entries(players_view(players@), done@),
{
    let ghost ps = players_view(players@);
    let mut out: Vec<SyncStatus> = Vec::new();
    let mut i: usize = 0;
    while i < players.len()
        invariant
            i <= players@.len(),
            ps == players_view(players@),
            statuses_view(out@) == sync_entries(ps.take(i as int), done@),
        decreases players@.len() - i,
    {
        assert(ps.take(i + 1).drop_last() =~= ps.take(i as int));
        assert(ps.take(i + 1).last() == players@[i as int]@);
        let p = &players[i];
        if is_candidate(p) {
            let st = SyncStatus { id: p.id.clone(), username: p.username.clone(), completed: done.contains(p.id.as_str()) };
            let ghost before = statuses_view(out@);
            let ghost sv = st@;
            out.push(st);
            assert(statuses_view(out@) =~= before.push(sv));
        }
        i = i + 1;
    }
    assert(ps.take(players@.len() as int) =~= ps);
    out
}

/// How many entries are done.
pub fn count_done(statuses: &Vec<SyncStatus>) -> (r: usize)
    ensures
        r == done_count(statuses_view(statuses@)),
{
    let ghost sv = statuses_view(statuses@);
    let mut n: usize = 0;
    let mut i: usize = 0;
    while i < statuses.len()
        invariant
            i <= statuses@.len(),
            sv == statuses_view(statuses@),
            n == done_count(sv.take(i as int)),
            n <= i,
        decreases statuses@.len() - i,
    {
        assert(sv.take(i + 1).drop_last() =~= sv.take(i as int));
        assert(sv.take(i + 1).last() == statuses@[i as int]@);
        if statuses[i].completed {
            n = n + 1;
        }
        i = i + 1;
    }
    assert(sv.take(statuses@.len() as int) =~= sv);
    n
}

/// Ids of the candidates that finished the current turn.
pub open spec fn newly_done(ps: Seq<PlayerModel>, round: u32) -> Set<Seq<char>> {
    Set::new(|id: Seq<char>| exists|i: int| 0 <= i < ps.len() && #[trigger] sync_candidate(ps[i])
        && ps[i].sync_completed_round == Some(round) && ps[i].id == id)
}

/// Counts as done every candidate whose turn record is the current turn.
pub fn note_completed_pub(players: &Vec<Player>, done: &mut IdSet, round: u32)
    requires
        old(done).wf(),
    ensures
        final(done).wf(),
        final(done)@ == old(done)@ + newly_done(players_view(players@), round),
{
    let ghost ps = players_view(players@);
    let mut i: usize = 0;
    while i < players.len()
        invariant
            i <= players@.len(),
            ps == players_view(players@),
            done.wf(),
            done@ == old(done)@ + newly_done(ps.take(i as int), round),
        decreases players@.len() - i,
    {
        let p = &players[i];
        let ghost before = done@;
        if is_candidate(p) && p.sync_completed_round == Some(round) {
            done.insert(p.id.clone());
        }
        assert(done@ =~= old(done)@ + newly_done(ps.take(i + 1), round)) by {
            assert forall|x: Seq<char>| #[trigger] newly_done(ps.take(i + 1), round).contains(x) <==>
                (newly_done(ps.take(i as int), round).contains(x) || (sync_candidate(ps[i as int])
                    && ps[i as int].sync_completed_round == Some(round) && ps[i as int].id == x)) by {
                let a = ps.take(i + 1);
                let b = ps.take(i as int);
                if newly_done(a, round).contains(x) {
                    let j = choose|j: int| 0 <= j < a.len() && #[trigger] sync_candidate(a[j]) && a[j].sync_completed_round == Some(round) && a[j].id == x;
                    if j < i { assert(b[j] == a[j]); assert(sync_candidate(b[j])); }
                }
                if newly_done(b, round).contains(x) {
                    let j = choose|j: int| 0 <= j < b.len() && #[trigger] sync_candidate(b[j]) && b[j].sync_completed_round == Some(round) && b[j].id == x;
                    assert(a[j] == b[j]); assert(sync_candidate(a[j]));
                }
                if sync_candidate(ps[i as int]) && ps[i as int].sync_completed_round == Some(round) && ps[i as int].id == x {
                    assert(a[i as int] == ps[i as int]); assert(sync_candidate(a[i as int]));
                }
            }
        }
        i = i + 1;
    }
    assert(ps.take(players@.len() as int) =~= ps);
}

} // verus!
