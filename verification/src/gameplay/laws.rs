//! Properties the round logic keeps across calls and states.
use vstd::prelude::*;
use crate::gameplay::nonstop::{nonstop_closed, nonstop_settled};
use crate::gameplay::scoring::{quick_guess_bonus, winner_total};
use crate::gameplay::settle::{after_setter, closed_player, settled_room};
use crate::gameplay::standard_flow::{reset_for_round, started_room, unobserved};
use crate::gameplay::tagban::{merge_entries, merge_entry, state_tags};
use crate::gameplay::turns::{next_turn, turn_reset};
use crate::settings::SettingsModel;
use crate::state::{CharacterModel, GameModel, PlayerModel, RoomModel, TagBanModel, canonical_session, stable_id};

verus! {

/// A valid session id alone makes the stable id: two players of the same room with the same
/// session get the same id, whatever their names and the time.
pub proof fn law_session_id_ignores_username(room_id: Seq<char>, u1: Seq<char>, u2: Seq<char>, session: Option<Seq<char>>, t1: i64, t2: i64)
    requires
        canonical_session(session) is Some,
    ensures
        stable_id(room_id, u1, session, t1) == stable_id(room_id, u2, session, t2),
{
}

/// Without a valid session id the stable id starts with the room, `::legacy::`, the trimmed
/// lower-case name and `::`.
pub proof fn law_legacy_id_prefix(room_id: Seq<char>, u: Seq<char>, session: Option<Seq<char>>, t: i64)
    requires
        canonical_session(session) is None,
    ensures
        ({
            let prefix = room_id + seq![':', ':', 'l', 'e', 'g', 'a', 'c', 'y', ':', ':'] + crate::state::canonical_name(u) + seq![':', ':'];
            stable_id(room_id, u, session, t).take(prefix.len() as int) == prefix
        }),
{
    let prefix = room_id + seq![':', ':', 'l', 'e', 'g', 'a', 'c', 'y', ':', ':'] + crate::state::canonical_name(u) + seq![':', ':'];
    assert(stable_id(room_id, u, session, t) == prefix + crate::text::decimal_text(t as int));
    assert((prefix + crate::text::decimal_text(t as int)).take(prefix.len() as int) =~= prefix);
}

/// When a standard round is settled, nobody remains answer setter or temporary observer, and
/// nobody who joined during the round stays in a team.
pub proof fn law_settled_round_is_closed(r: RoomModel, g: GameModel)
    ensures
        settled_room(r, g).current_game is None,
        forall|i: int| 0 <= i < settled_room(r, g).players.len() ==> {
            let p = #[trigger] settled_room(r, g).players[i];
            !p.is_answer_setter && !p.temp_observer && p.joined_during_game != Some(true)
        },
{
}

/// When a non-stop round is settled, nobody remains answer setter or temporary observer.
pub proof fn law_nonstop_round_is_closed(r: RoomModel, g: GameModel, aw: Set<Seq<char>>)
    ensures
        nonstop_settled(r, g, aw).current_game is None,
        forall|i: int| 0 <= i < nonstop_settled(r, g, aw).players.len() ==>
            !(#[trigger] nonstop_settled(r, g, aw).players[i]).is_answer_setter && !nonstop_settled(r, g, aw).players[i].temp_observer,
{
}

/// Ending temporary observation twice is ending it once.
pub proof fn law_revert_observers_idempotent(ps: Seq<PlayerModel>)
    ensures
        unobserved(unobserved(ps)) == unobserved(ps),
{
    assert(unobserved(unobserved(ps)) =~= unobserved(ps));
}

/// A winner's score lies between the base and the base plus the big-win bonus, and a big
/// win gives exactly the base plus 12.
pub proof fn law_winner_score_bounds(guess_count: int, is_big_win: bool, base: int, total_rounds: int)
    ensures
        base <= winner_total(guess_count, is_big_win, base, total_rounds) <= base + 12,
        is_big_win ==> winner_total(guess_count, is_big_win, base, total_rounds) == base + 12,
        !is_big_win ==> winner_total(guess_count, is_big_win, base, total_rounds) <= base + 2,
{
}

/// A tag of the ban list stays in it through any merge of revealed tags.
pub proof fn law_merge_keeps_tags(state: Seq<TagBanModel>, pending: Seq<TagBanModel>)
    ensures
        merge_entries(state, pending).0.len() >= state.len(),
        forall|i: int| 0 <= i < state.len() ==> #[trigger] merge_entries(state, pending).0[i].tag == state[i].tag,
    decreases pending.len(),
{
    if pending.len() > 0 {
        law_merge_keeps_tags(state, pending.drop_last());
        let s1 = merge_entries(state, pending.drop_last()).0;
        lemma_merge_entry_keeps(s1, pending.last());
        assert forall|i: int| 0 <= i < state.len() implies #[trigger] merge_entries(state, pending).0[i].tag == state[i].tag by {
            assert(s1[i].tag == state[i].tag);
        }
    }
}

proof fn lemma_merge_entry_keeps(state: Seq<TagBanModel>, e: TagBanModel)
    ensures
        merge_entry(state, e).0.len() >= state.len(),
        forall|i: int| 0 <= i < state.len() ==> #[trigger] merge_entry(state, e).0[i].tag == state[i].tag,
{
    crate::gameplay::tagban::lemma_tag_index(state, crate::text::trim_spec(e.tag));
}

/// A new turn starts with nobody done: every player's turn record is cleared, the set of
/// players done is empty and the turn number goes up by one.
pub proof fn law_next_turn_starts_fresh(r: RoomModel, g: GameModel, now: i64)
    requires
        g.sync_round < u32::MAX,
    ensures
        next_turn(r, g, now).current_game->0.sync_players_completed == Set::<Seq<char>>::empty(),
        next_turn(r, g, now).current_game->0.sync_round == g.sync_round + 1,
        next_turn(r, g, now).players.len() == r.players.len(),
        forall|i: int| 0 <= i < r.players.len() ==> (#[trigger] next_turn(r, g, now).players[i]).sync_completed_round is None,
{
}

/// A round starts with every player's marks and result cleared, and exactly the players
/// with the setter's id marked as answer setter.
pub proof fn law_round_start_resets_players(r: RoomModel, c: CharacterModel, settings: Option<SettingsModel>,
    hints: Option<Seq<Seq<char>>>, setter: Option<Seq<char>>, now: i64)
    ensures
        forall|i: int| 0 <= i < r.players.len() ==> {
            let p = #[trigger] started_room(r, c, settings, hints, setter, now).players[i];
            &&& p.attempt_marks.len() == 0
            &&& p.round_result is None
            &&& !p.temp_observer
            &&& p.is_answer_setter == (setter == Some(r.players[i].id))
        },
{
}

} // verus!
