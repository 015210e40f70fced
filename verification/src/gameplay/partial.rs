//! Who earns the partial-correct point at the end of a round.
use vstd::prelude::*;
use crate::gameplay::rules::{is_spectator, is_spectator_team};
use crate::keyed::{IdSet, TextMap};
use crate::state::{GuessModel, HistoryModel, Player, PlayerGuessHistory, PlayerModel, Room, RoomModel, histories_view, players_view};
use crate::text::{text_eq, text_less, text_lt};

verus! {

/// `m` after looking at guess `g`, the `j`-th of its history: a partial (and not correct) guess
/// of a player not seen yet records the position `j`.
pub open spec fn note_guess(m: Map<Seq<char>, int>, g: GuessModel, j: int) -> Map<Seq<char>, int> {
    if g.is_partial_correct && !g.is_correct && !m.dom().contains(g.player_id) {
        m.insert(g.player_id, j)
    } else {
        m
    }
}

pub open spec fn note_history(m: Map<Seq<char>, int>, gs: Seq<GuessModel>) -> Map<Seq<char>, int>
    decreases gs.len(),
{
    if gs.len() == 0 {
        m
    } else {
        note_guess(note_history(m, gs.drop_last()), gs.last(), gs.len() - 1)
    }
}

/// For each player with a partial-correct guess: the position, within its history, of the
/// first such guess (histories taken in order).
pub open spec fn first_partial(hs: Seq<HistoryModel>) -> Map<Seq<char>, int>
    decreases hs.len(),
{
    if hs.len() == 0 {
        Map::empty()
    } else {
        note_history(first_partial(hs.drop_last()), hs.last().guesses)
    }
}

/// Players whose first partial-correct guess came earliest.
pub open spec fn earliest_partial(m: Map<Seq<char>, int>) -> Set<Seq<char>> {
    Set::new(|pid: Seq<char>| m.dom().contains(pid) && forall|q: Seq<char>| m.dom().contains(q) ==> m[pid] <= m[q])
}

fn first_partial_indices(hs: &Vec<PlayerGuessHistory>) -> (r: TextMap<usize>)
    ensures
        r.wf(),
        r@.map_values(|v: usize| v as int) == first_partial(histories_view(hs@)),
{
    let ghost hv = histories_view(hs@);
    let mut m: TextMap<usize> = TextMap::new();
    let mut i: usize = 0;
    assert(m@.map_values(|v: usize| v as int) =~= first_partial(hv.take(0)));
    while i < hs.len()
        invariant
            i <= hs@.len(),
            hv == histories_view(hs@),
            m.wf(),
            m@.map_values(|v: usize| v as int) == first_partial(hv.take(i as int)),
        decreases hs@.len() - i,
    {
        let h = &hs[i];
        let ghost base = first_partial(hv.take(i as int));
        assert(hv.take(i + 1).drop_last() =~= hv.take(i as int));
        assert(hv.take(i + 1).last() == h@);
        let mut j: usize = 0;
        assert(h@.guesses.take(0) =~= Seq::<GuessModel>::empty());
        while j < h.guesses.len()
            invariant
                j <= h.guesses@.len(),
                h@ == hv[i as int],
                m.wf(),
                m@.map_values(|v: usize| v as int) == note_history(base, h@.guesses.take(j as int)),
            decreases h.guesses@.len() - j,
        {
            let g = &h.guesses[j];
            assert(h@.guesses.take(j + 1).drop_last() =~= h@.guesses.take(j as int));
            assert(h@.guesses.take(j + 1).last() == g@);
            if g.is_partial_correct && !g.is_correct {
                match m.index_of(g.player_id.as_str()) {
                    Some(_) => {},
                    None => {
                        let ghost before = m@;
                        m.insert(g.player_id.clone(), j);
                        assert(m@.map_values(|v: usize| v as int) =~= before.map_values(|v: usize| v as int).insert(g@.player_id, j as int));
                    },
                }
            }
            j = j + 1;
        }
        assert(h@.guesses.take(h@.guesses.len() as int) =~= h@.guesses);
        i = i + 1;
    }
    assert(hv.take(hv.len() as int) =~= hv);
    m
}

/// Award from the guess history alone: every player whose first partial-correct guess came
/// earliest.
pub fn compute_partial_awardees_from_guess_history_guesses(guesses: &Vec<PlayerGuessHistory>) -> (r: IdSet)
    ensures
        r.wf(),
        r@ == earliest_partial(first_partial(histories_view(guesses@))),
{
    let m = first_partial_indices(guesses);
    let ghost mv = m@.map_values(|v: usize| v as int);
    let mut awardees = IdSet::new();
    if m.keys.len() == 0 {
        assert(earliest_partial(mv) =~= Set::<Seq<char>>::empty()) by {
            assert forall|pid: Seq<char>| !mv.dom().contains(pid) by {
                if mv.dom().contains(pid) {
                    let k = choose|k: int| 0 <= k < m.keys@.len() && m.keys@[k]@ == pid;
                }
            }
        }
        return awardees;
    }
    let mut best: usize = m.vals[0];
    let mut k: usize = 1;
    while k < m.vals.len()
        invariant
            m.wf(),
            1 <= k <= m.vals@.len(),
            exists|a: int| 0 <= a < k && m.vals@[a] == best,
            forall|a: int| 0 <= a < k ==> best <= m.vals@[a],
        decreases m.vals@.len() - k,
    {
        if m.vals[k] < best {
            best = m.vals[k];
        }
        k = k + 1;
    }
    let mut k: usize = 0;
    while k < m.keys.len()
        invariant
            m.wf(),
            k <= m.keys@.len(),
            awardees.wf(),
            forall|a: int| 0 <= a < m.vals@.len() ==> best <= m.vals@[a],
            awardees@ == Set::new(|pid: Seq<char>| exists|a: int| 0 <= a < k && m.keys@[a]@ == pid && m.vals@[a] == best),
        decreases m.keys@.len() - k,
    {
        let ghost before = awardees@;
        if m.vals[k] == best {
            awardees.insert(m.keys[k].clone());
        }
        assert(awardees@ =~= Set::new(|pid: Seq<char>| exists|a: int| 0 <= a < k + 1 && m.keys@[a]@ == pid && m.vals@[a] == best)) by {
            assert forall|pid: Seq<char>| #[trigger] awardees@.contains(pid) == (exists|a: int| 0 <= a < k + 1 && m.keys@[a]@ == pid && m.vals@[a] == best) by {
                if exists|a: int| 0 <= a < k + 1 && m.keys@[a]@ == pid && m.vals@[a] == best {
                    let a = choose|a: int| 0 <= a < k + 1 && m.keys@[a]@ == pid && m.vals@[a] == best;
                    if a < k {
                        assert(before.contains(pid));
                    }
                }
            }
        }
        k = k + 1;
    }
    assert(awardees@ =~= earliest_partial(mv)) by {
        assert forall|pid: Seq<char>| #[trigger] awardees@.contains(pid) == earliest_partial(mv).contains(pid) by {
            if awardees@.contains(pid) {
                let a = choose|a: int| 0 <= a < m.keys@.len() && m.keys@[a]@ == pid && m.vals@[a] == best;
                assert(crate::keyed::text_set(m.keys@).contains(pid));
                assert(crate::keyed::key_index(m.keys@, pid) == a);
                assert forall|q: Seq<char>| mv.dom().contains(q) implies mv[pid] <= mv[q] by {
                    let b = crate::keyed::key_index(m.keys@, q);
                    let bb = choose|bb: int| 0 <= bb < m.keys@.len() && m.keys@[bb]@ == q;
                    assert(0 <= b < m.keys@.len());
                }
            }
            if earliest_partial(mv).contains(pid) {
                let a = crate::keyed::key_index(m.keys@, pid);
                let aa = choose|aa: int| 0 <= aa < m.keys@.len() && m.keys@[aa]@ == pid;
                assert(0 <= a < m.keys@.len());
                let w = choose|w: int| 0 <= w < m.vals@.len() && m.vals@[w] == best;
                let qk = m.keys@[w]@;
                assert(crate::keyed::text_set(m.keys@).contains(qk));
                let wb = crate::keyed::key_index(m.keys@, qk);
                assert(mv.dom().contains(qk));
                assert(wb == w);
                assert(mv[pid] <= mv[qk]);
                assert(m.vals@[a] == best);
            }
        }
    }
    awardees
}

/// Position of the last player with id `id` (later players shadow earlier ones).
pub open spec fn last_player(ps: Seq<PlayerModel>, id: Seq<char>) -> Option<int> {
    if exists|i: int| 0 <= i < ps.len() && ps[i].id == id {
        Some(choose|i: int| 0 <= i < ps.len() && ps[i].id == id && forall|j: int| i < j < ps.len() ==> ps[j].id != id)
    } else {
        None
    }
}

/// Whether the player belongs to a real team (not empty, not the spectators).
pub open spec fn in_real_team(p: PlayerModel) -> bool {
    p.team matches Some(t) && t.len() > 0 && !is_spectator_team(p.team)
}

/// The group a partial award is competed for: the player's team, or the player alone.
pub open spec fn award_group(p: PlayerModel, pid: Seq<char>) -> (bool, Seq<char>) {
    if in_real_team(p) { (true, p.team->0) } else { (false, pid) }
}

#[verifier::opaque]
/// Whether `pid` competes for a partial award: a partial guess on record, and a player
/// (the last one with that id) who is neither the answer setter nor a spectator.
pub open spec fn award_candidate(ps: Seq<PlayerModel>, m: Map<Seq<char>, int>, pid: Seq<char>) -> bool {
    m.dom().contains(pid) && match last_player(ps, pid) {
        Some(k) => !ps[k].is_answer_setter && !is_spectator_team(ps[k].team),
        None => false,
    }
}

#[verifier::opaque]
pub open spec fn candidate_group(ps: Seq<PlayerModel>, pid: Seq<char>) -> (bool, Seq<char>) {
    award_group(ps[last_player(ps, pid)->0], pid)
}

/// Candidate `a` beats candidate `b`: an earlier first partial guess, or the same position and
/// a smaller name.
pub open spec fn beats(ps: Seq<PlayerModel>, m: Map<Seq<char>, int>, a: Seq<char>, b: Seq<char>) -> bool {
    m[a] < m[b] || (m[a] == m[b] && text_lt(ps[last_player(ps, a)->0].username, ps[last_player(ps, b)->0].username))
}

/// `aw` holds one best candidate per group: every member is a candidate that no candidate of
/// its group beats, every group with a candidate has a member, and no group has two.
pub open spec fn is_award_set(ps: Seq<PlayerModel>, m: Map<Seq<char>, int>, aw: Set<Seq<char>>) -> bool {
    &&& forall|a: Seq<char>| #[trigger] aw.contains(a) ==> award_candidate(ps, m, a)
        && forall|c: Seq<char>| award_candidate(ps, m, c) && candidate_group(ps, c) == candidate_group(ps, a) ==> !beats(ps, m, c, a)
    &&& forall|c: Seq<char>| #[trigger] award_candidate(ps, m, c) ==> exists|a: Seq<char>| aw.contains(a) && candidate_group(ps, a) == candidate_group(ps, c)
    &&& forall|a: Seq<char>, b: Seq<char>| aw.contains(a) && aw.contains(b) && candidate_group(ps, a) == candidate_group(ps, b) ==> a == b
}

/// The partial awards of the room: none without a round.
pub open spec fn partial_awards_ok(r: RoomModel, aw: Set<Seq<char>>) -> bool {
    match r.current_game {
        None => aw == Set::<Seq<char>>::empty(),
        Some(g) => is_award_set(r.players, first_partial(g.guesses), aw),
    }
}

proof fn lemma_last_player(ps: Seq<PlayerModel>, id: Seq<char>, i: int)
    requires
        0 <= i < ps.len(),
        ps[i].id == id,
        forall|j: int| i < j < ps.len() ==> ps[j].id != id,
    ensures
        last_player(ps, id) == Some(i),
{
    let k = choose|k: int| 0 <= k < ps.len() && ps[k].id == id && forall|j: int| k < j < ps.len() ==> ps[j].id != id;
    assert(0 <= k < ps.len() && ps[k].id == id && forall|j: int| k < j < ps.len() ==> ps[j].id != id);
    if k < i {
        assert(ps[i].id != id);
    }
    if i < k {
        assert(ps[k].id != id);
    }
}

fn last_player_index(players: &Vec<Player>, id: &str) -> (r: Option<usize>)
    ensures
        match r {
            Some(i) => i < players@.len() && last_player(players_view(players@), id@) == Some(i as int),
            None => last_player(players_view(players@), id@) is None,
        },
{
    let ghost ps = players_view(players@);
    let mut i: usize = players.len();
    while i > 0
        invariant
            i <= players@.len(),
            ps == players_view(players@),
            forall|j: int| i <= j < ps.len() ==> ps[j].id != id@,
        decreases i,
    {
        i = i - 1;
        if text_eq(players[i].id.as_str(), id) {
            proof { lemma_last_player(ps, id@, i as int); }
            return Some(i);
        }
    }
    None
}

/// The best candidate seen so far in one group.
pub struct Best {
    pub player_id: String,
    pub idx: usize,
    pub username: String,
}

/// `b` is the best candidate of group `(is_team, g)` among the candidates in `seen`.
pub open spec fn best_ok(ps: Seq<PlayerModel>, m: Map<Seq<char>, int>, seen: Set<Seq<char>>, is_team: bool, g: Seq<char>, b: Best) -> bool {
    &&& seen.contains(b.player_id@) && award_candidate(ps, m, b.player_id@)
    &&& candidate_group(ps, b.player_id@) == (is_team, g)
    &&& b.idx as int == m[b.player_id@]
    &&& b.username@ == ps[last_player(ps, b.player_id@)->0].username
    &&& forall|c: Seq<char>| seen.contains(c) && award_candidate(ps, m, c) && candidate_group(ps, c) == (is_team, g) ==> !beats(ps, m, c, b.player_id@)
}

#[verifier::opaque]
pub open spec fn table_ok(ps: Seq<PlayerModel>, m: Map<Seq<char>, int>, seen: Set<Seq<char>>, is_team: bool, t: Map<Seq<char>, Best>) -> bool {
    forall|g: Seq<char>| #[trigger] t.dom().contains(g) ==> best_ok(ps, m, seen, is_team, g, t[g])
}

#[verifier::opaque]
pub open spec fn covered(ps: Seq<PlayerModel>, m: Map<Seq<char>, int>, seen: Set<Seq<char>>, teams: Set<Seq<char>>, solos: Set<Seq<char>>) -> bool {
    forall|c: Seq<char>| seen.contains(c) && #[trigger] award_candidate(ps, m, c) ==> {
        let gr = candidate_group(ps, c);
        if gr.0 { teams.contains(gr.1) } else { solos.contains(gr.1) }
    }
}

fn real_team(p: &Player) -> (r: bool)
    ensures
        r == in_real_team(p@),
{
    match &p.team {
        Some(t) => crate::text::chars_of(t.as_str()).len() > 0 && !is_spectator(&p.team),
        None => false,
    }
}

/// Offers candidate `pid` (first partial at `idx`, named `name`) to the table of its group `key`.
#[verifier::rlimit(100)]
fn offer(table: &mut TextMap<Best>, key: &str, pid: &str, idx: usize, name: &str,
    ghost_ps: Ghost<Seq<PlayerModel>>, ghost_m: Ghost<Map<Seq<char>, int>>, ghost_seen: Ghost<Set<Seq<char>>>, is_team: Ghost<bool>)
    requires
        old(table).wf(),
        award_candidate(ghost_ps@, ghost_m@, pid@),
        candidate_group(ghost_ps@, pid@) == (is_team@, key@),
        idx as int == ghost_m@[pid@],
        name@ == ghost_ps@[last_player(ghost_ps@, pid@)->0].username,
        table_ok(ghost_ps@, ghost_m@, ghost_seen@, is_team@, old(table)@),
        !old(table)@.dom().contains(key@) ==> forall|c: Seq<char>| ghost_seen@.contains(c)
            && award_candidate(ghost_ps@, ghost_m@, c) ==> candidate_group(ghost_ps@, c) != (is_team@, key@),
    ensures
        final(table).wf(),
        final(table)@.dom() == old(table)@.dom().insert(key@),
        table_ok(ghost_ps@, ghost_m@, ghost_seen@.insert(pid@), is_team@, final(table)@),
{
    let ghost ps = ghost_ps@;
    let ghost m = ghost_m@;
    let ghost seen = ghost_seen@;
    let ghost seen2 = seen.insert(pid@);
    let ghost tm = is_team@;
    let ghost old_t = table@;
    proof { reveal(table_ok); }
    let replace = match table.get(key) {
        None => true,
        Some(cur) => idx < cur.idx || (idx == cur.idx && text_less(name, cur.username.as_str())),
    };
    if replace {
        proof {
            if old_t.dom().contains(key@) {
                let b = old_t[key@];
                assert(best_ok(ps, m, seen, tm, key@, b));
                assert(beats(ps, m, pid@, b.player_id@));
                assert forall|c: Seq<char>| seen2.contains(c) && award_candidate(ps, m, c) && candidate_group(ps, c) == (tm, key@)
                    implies !beats(ps, m, c, pid@) by {
                    if c == pid@ {
                        crate::text::lemma_text_lt_strict(name@, name@, name@);
                    } else {
                        assert(!beats(ps, m, c, b.player_id@));
                        crate::text::lemma_text_lt_strict(ps[last_player(ps, c)->0].username, name@, b.username@);
                    }
                }
            } else {
                assert forall|c: Seq<char>| seen2.contains(c) && award_candidate(ps, m, c) && candidate_group(ps, c) == (tm, key@)
                    implies !beats(ps, m, c, pid@) by {
                    if c == pid@ {
                        crate::text::lemma_text_lt_strict(name@, name@, name@);
                    }
                }
            }
        }
        let best = Best { player_id: pid.to_string(), idx, username: name.to_string() };
        assert(best_ok(ps, m, seen2, tm, key@, best));
        table.insert(key.to_string(), best);
        proof {
            assert forall|g: Seq<char>| #[trigger] table@.dom().contains(g) implies best_ok(ps, m, seen2, tm, g, table@[g]) by {
                if g != key@ {
                    let b = old_t[g];
                    assert(best_ok(ps, m, seen, tm, g, b));
                    assert(table@[g] == b);
                }
            }
            assert(table@.dom() =~= old_t.dom().insert(key@));
        }
    } else {
        proof {
            let b = old_t[key@];
            assert(old_t.dom().contains(key@));
            assert(best_ok(ps, m, seen, tm, key@, b));
            assert(!beats(ps, m, pid@, b.player_id@));
            assert forall|g: Seq<char>| #[trigger] table@.dom().contains(g) implies best_ok(ps, m, seen2, tm, g, table@[g]) by {
                assert(best_ok(ps, m, seen, tm, g, old_t[g]));
            }
            assert(table@.dom() =~= old_t.dom().insert(key@));
        }
    }
}

/// Ids of the best entries of a table.
fn collect_ids(table: &TextMap<Best>, awardees: &mut IdSet)
    requires
        old(awardees).wf(),
    ensures
        final(awardees).wf(),
        final(awardees)@ == old(awardees)@.union(Set::new(|pid: Seq<char>| exists|a: int| 0 <= a < table.vals@.len() && table.vals@[a].player_id@ == pid)),
{
    let ghost start = awardees@;
    let mut j: usize = 0;
    assert(awardees@ =~= start.union(Set::new(|pid: Seq<char>| exists|a: int| 0 <= a < 0 && table.vals@[a].player_id@ == pid)));
    while j < table.vals.len()
        invariant
            j <= table.vals@.len(),
            awardees.wf(),
            awardees@ == start.union(Set::new(|pid: Seq<char>| exists|a: int| 0 <= a < j && table.vals@[a].player_id@ == pid)),
        decreases table.vals@.len() - j,
    {
        let ghost before = awardees@;
        awardees.insert(table.vals[j].player_id.clone());
        assert(awardees@ =~= start.union(Set::new(|pid: Seq<char>| exists|a: int| 0 <= a < j + 1 && table.vals@[a].player_id@ == pid))) by {
            assert forall|pid: Seq<char>| #[trigger] awardees@.contains(pid) == start.union(Set::new(|pid: Seq<char>| exists|a: int| 0 <= a < j + 1 && table.vals@[a].player_id@ == pid)).contains(pid) by {
                if exists|a: int| 0 <= a < j + 1 && table.vals@[a].player_id@ == pid {
                    let a = choose|a: int| 0 <= a < j + 1 && table.vals@[a].player_id@ == pid;
                    if a < j {
                        assert(before.contains(pid));
                    }
                }
            }
        }
        j = j + 1;
    }
}

/// A value of a well-formed table is its entry for its own key.
proof fn lemma_table_entry(t: &TextMap<Best>, x: int)
    requires
        t.wf(),
        0 <= x < t.vals@.len(),
    ensures
        t@.dom().contains(t.keys@[x]@),
        t@[t.keys@[x]@] == t.vals@[x],
{
    let g = t.keys@[x]@;
    assert(crate::keyed::text_set(t.keys@).contains(g));
    assert(crate::keyed::key_index(t.keys@, g) == x);
}

/// An entry of a well-formed table is one of its values.
proof fn lemma_table_value(t: &TextMap<Best>, g: Seq<char>)
    requires
        t.wf(),
        t@.dom().contains(g),
    ensures
        exists|x: int| 0 <= x < t.vals@.len() && t.keys@[x]@ == g && t.vals@[x] == t@[g],
{
    let x = crate::keyed::key_index(t.keys@, g);
    let xx = choose|xx: int| 0 <= xx < t.keys@.len() && t.keys@[xx]@ == g;
    assert(0 <= x < t.keys@.len() && t.keys@[x]@ == g);
    assert(t.vals@[x] == t@[g]);
}

#[verifier::rlimit(100)]
proof fn lemma_awards(ps: Seq<PlayerModel>, m: Map<Seq<char>, int>, all: Set<Seq<char>>, teams: &TextMap<Best>, solos: &TextMap<Best>, aw: Set<Seq<char>>)
    requires
        teams.wf(),
        solos.wf(),
        table_ok(ps, m, all, true, teams@),
        table_ok(ps, m, all, false, solos@),
        covered(ps, m, all, teams@.dom(), solos@.dom()),
        forall|c: Seq<char>| award_candidate(ps, m, c) ==> all.contains(c),
        aw == Set::<Seq<char>>::empty().union(Set::new(|pid: Seq<char>| exists|a: int| 0 <= a < teams.vals@.len() && teams.vals@[a].player_id@ == pid))
            .union(Set::new(|pid: Seq<char>| exists|a: int| 0 <= a < solos.vals@.len() && solos.vals@[a].player_id@ == pid)),
    ensures
        is_award_set(ps, m, aw),
{
    reveal(table_ok);
    reveal(covered);
    let team_ids = Set::new(|pid: Seq<char>| exists|a: int| 0 <= a < teams.vals@.len() && teams.vals@[a].player_id@ == pid);
    assert forall|a: Seq<char>| #[trigger] aw.contains(a) implies award_candidate(ps, m, a)
        && (forall|c: Seq<char>| award_candidate(ps, m, c) && candidate_group(ps, c) == candidate_group(ps, a) ==> !beats(ps, m, c, a)) by {
        if team_ids.contains(a) {
            let x = choose|x: int| 0 <= x < teams.vals@.len() && teams.vals@[x].player_id@ == a;
            lemma_table_entry(teams, x);
            assert(best_ok(ps, m, all, true, teams.keys@[x]@, teams.vals@[x]));
        } else {
            let x = choose|x: int| 0 <= x < solos.vals@.len() && solos.vals@[x].player_id@ == a;
            lemma_table_entry(solos, x);
            assert(best_ok(ps, m, all, false, solos.keys@[x]@, solos.vals@[x]));
        }
    }
    assert forall|c: Seq<char>| #[trigger] award_candidate(ps, m, c) implies exists|a: Seq<char>| aw.contains(a) && candidate_group(ps, a) == candidate_group(ps, c) by {
        assert(all.contains(c));
        let gr = candidate_group(ps, c);
        if gr.0 {
            lemma_table_value(teams, gr.1);
            let x = choose|x: int| 0 <= x < teams.vals@.len() && teams.keys@[x]@ == gr.1 && teams.vals@[x] == teams@[gr.1];
            assert(best_ok(ps, m, all, true, gr.1, teams@[gr.1]));
            assert(aw.contains(teams.vals@[x].player_id@));
        } else {
            lemma_table_value(solos, gr.1);
            let x = choose|x: int| 0 <= x < solos.vals@.len() && solos.keys@[x]@ == gr.1 && solos.vals@[x] == solos@[gr.1];
            assert(best_ok(ps, m, all, false, gr.1, solos@[gr.1]));
            assert(aw.contains(solos.vals@[x].player_id@));
        }
    }
    assert forall|a: Seq<char>, b: Seq<char>| aw.contains(a) && aw.contains(b) && candidate_group(ps, a) == candidate_group(ps, b) implies a == b by {
        if team_ids.contains(a) {
            let x = choose|x: int| 0 <= x < teams.vals@.len() && teams.vals@[x].player_id@ == a;
            lemma_table_entry(teams, x);
            assert(best_ok(ps, m, all, true, teams.keys@[x]@, teams.vals@[x]));
            if team_ids.contains(b) {
                let y = choose|y: int| 0 <= y < teams.vals@.len() && teams.vals@[y].player_id@ == b;
                lemma_table_entry(teams, y);
                assert(best_ok(ps, m, all, true, teams.keys@[y]@, teams.vals@[y]));
            } else {
                let y = choose|y: int| 0 <= y < solos.vals@.len() && solos.vals@[y].player_id@ == b;
                lemma_table_entry(solos, y);
                assert(best_ok(ps, m, all, false, solos.keys@[y]@, solos.vals@[y]));
            }
        } else {
            let x = choose|x: int| 0 <= x < solos.vals@.len() && solos.vals@[x].player_id@ == a;
            lemma_table_entry(solos, x);
            assert(best_ok(ps, m, all, false, solos.keys@[x]@, solos.vals@[x]));
            if team_ids.contains(b) {
                let y = choose|y: int| 0 <= y < teams.vals@.len() && teams.vals@[y].player_id@ == b;
                lemma_table_entry(teams, y);
                assert(best_ok(ps, m, all, true, teams.keys@[y]@, teams.vals@[y]));
            } else {
                let y = choose|y: int| 0 <= y < solos.vals@.len() && solos.vals@[y].player_id@ == b;
                lemma_table_entry(solos, y);
                assert(best_ok(ps, m, all, false, solos.keys@[y]@, solos.vals@[y]));
            }
        }
    }
}

pub open spec fn seen_prefix(keys: Seq<String>, k: int) -> Set<Seq<char>> {
    Set::new(|pid: Seq<char>| exists|a: int| 0 <= a < k && keys[a]@ == pid)
}

/// One candidate step: offers `pid` (first partial at `idx`) to the table of its group.
#[verifier::rlimit(60)]
fn consider(players: &Vec<Player>, pid: &str, idx: usize, teams: &mut TextMap<Best>, solos: &mut TextMap<Best>,
    mv: Ghost<Map<Seq<char>, int>>, seen: Ghost<Set<Seq<char>>>)
    requires
        old(teams).wf(),
        old(solos).wf(),
        mv@.dom().contains(pid@),
        mv@[pid@] == idx as int,
        table_ok(players_view(players@), mv@, seen@, true, old(teams)@),
        table_ok(players_view(players@), mv@, seen@, false, old(solos)@),
        covered(players_view(players@), mv@, seen@, old(teams)@.dom(), old(solos)@.dom()),
    ensures
        final(teams).wf(),
        final(solos).wf(),
        table_ok(players_view(players@), mv@, seen@.insert(pid@), true, final(teams)@),
        table_ok(players_view(players@), mv@, seen@.insert(pid@), false, final(solos)@),
        covered(players_view(players@), mv@, seen@.insert(pid@), final(teams)@.dom(), final(solos)@.dom()),
{
    let ghost ps = players_view(players@);
    let ghost seen2 = seen@.insert(pid@);
    let ghost old_teams = teams@;
    let ghost old_solos = solos@;
    let mut considered = false;
    let mut as_team = false;
    match last_player_index(players, pid) {
        None => {},
        Some(pi) => {
            let p = &players[pi];
            assert(ps[pi as int] == p@);
            if !(p.is_answer_setter || is_spectator(&p.team)) {
                considered = true;
                proof {
                    reveal(award_candidate);
                    reveal(candidate_group);
                    reveal(covered);
                }
                if real_team(p) {
                    as_team = true;
                    let t = match &p.team {
                        Some(t) => t.as_str(),
                        None => "",
                    };
                    offer(teams, t, pid, idx, p.username.as_str(), Ghost(ps), mv, seen, Ghost(true));
                } else {
                    offer(solos, pid, pid, idx, p.username.as_str(), Ghost(ps), mv, seen, Ghost(false));
                }
            }
        },
    }
    proof {
        reveal(table_ok);
        reveal(covered);
        if !considered {
            reveal(award_candidate);
            assert(!award_candidate(ps, mv@, pid@));
        } else {
            reveal(award_candidate);
            reveal(candidate_group);
            assert(award_candidate(ps, mv@, pid@));
            assert(candidate_group(ps, pid@).0 == as_team);
        }
        if !considered || !as_team {
            assert(teams@ == old_teams);
            assert forall|g: Seq<char>| #[trigger] teams@.dom().contains(g) implies best_ok(ps, mv@, seen2, true, g, teams@[g]) by {
                assert(best_ok(ps, mv@, seen@, true, g, teams@[g]));
            }
        }
        if !considered || as_team {
            assert(solos@ == old_solos);
            assert forall|g: Seq<char>| #[trigger] solos@.dom().contains(g) implies best_ok(ps, mv@, seen2, false, g, solos@[g]) by {
                assert(best_ok(ps, mv@, seen@, false, g, solos@[g]));
            }
        }
    }
}

pub fn compute_partial_awardees_from_guess_history(room: &Room) -> (r: IdSet)
    ensures
        r.wf(),
        partial_awards_ok(room@, r@),
{
    let game = match &room.current_game {
        Some(g) => g,
        None => {
            return IdSet::new();
        },
    };
    let ghost ps = players_view(room.players@);
    let m = first_partial_indices(&game.guesses);
    let ghost mv = m@.map_values(|v: usize| v as int);
    let mut teams: TextMap<Best> = TextMap::new();
    let mut solos: TextMap<Best> = TextMap::new();
    let mut k: usize = 0;
    proof {
        reveal(table_ok);
        reveal(covered);
    }
    while k < m.keys.len()
        invariant
            m.wf(),
            k <= m.keys@.len(),
            mv == m@.map_values(|v: usize| v as int),
            ps == players_view(room.players@),
            teams.wf(),
            solos.wf(),
            table_ok(ps, mv, seen_prefix(m.keys@, k as int), true, teams@),
            table_ok(ps, mv, seen_prefix(m.keys@, k as int), false, solos@),
            covered(ps, mv, seen_prefix(m.keys@, k as int), teams@.dom(), solos@.dom()),
        decreases m.keys@.len() - k,
    {
        let ghost seen = seen_prefix(m.keys@, k as int);
        assert(seen_prefix(m.keys@, k + 1) =~= seen.insert(m.keys@[k as int]@));
        proof {
            assert(crate::keyed::text_set(m.keys@).contains(m.keys@[k as int]@));
            assert(crate::keyed::key_index(m.keys@, m.keys@[k as int]@) == k);
        }
        consider(&room.players, m.keys[k].as_str(), m.vals[k], &mut teams, &mut solos, Ghost(mv), Ghost(seen));
        k = k + 1;
    }
    let ghost all = seen_prefix(m.keys@, m.keys@.len() as int);
    assert forall|pid: Seq<char>| award_candidate(ps, mv, pid) implies all.contains(pid) by {
        reveal(award_candidate);
        let a = choose|a: int| 0 <= a < m.keys@.len() && m.keys@[a]@ == pid;
    }
    let mut awardees = IdSet::new();
    collect_ids(&teams, &mut awardees);
    collect_ids(&solos, &mut awardees);
    proof {
        lemma_awards(ps, mv, all, &teams, &solos, awardees@);
    }
    awardees
}

} // verus!
