use character_guessr::gameplay::progress::run_standard_flow_at;
use character_guessr::gameplay::events::{RoomEvent, ScoreDetail, SyncStatus};
use character_guessr::gameplay::finalize::finalize_standard_game;
use character_guessr::gameplay::flow::handle_player_timeout;
use character_guessr::gameplay::marks::{clear_player_result, clear_team_result, ATTEMPT_TIMEOUT, RESULT_DEAD, RESULT_TEAM_WIN, RESULT_WIN};
use character_guessr::gameplay::nonstop::finalize_nonstop_game;
use character_guessr::gameplay::scoring::{calculate_nonstop_setter_score, calculate_setter_score, calculate_winner_score, setter_score};
use character_guessr::gameplay::standard_flow::{
    apply_setter_observers, init_game_state_at, mark_team_victory, revert_setter_observers,
};
use character_guessr::gameplay::sync::build_sync_waiting_key;
use character_guessr::gameplay::tagban::{merge_pending_tag_bans, new_tag_entries};
use character_guessr::gameplay::turns::update_sync_progress_at;
use character_guessr::keyed::{IdSet, TeamMarks, TeamResults};
use character_guessr::settings::GameSettings;
use character_guessr::state::{
    canonical_player_session_id, ensure_player_stable_id, ensure_player_stable_id_at, legacy_player_key, new_player_stable_id, new_player_stable_id_for_session,
    CharacterPayload, CurrentGame, NonstopWinner, NonstopWinnerBonuses, Player, Room, TagBanEntry,
};

fn player(id: &str, username: &str) -> Player {
    Player {
        id: id.to_string(),
        stable_player_id: format!("stable-{}", id),
        username: username.to_string(),
        is_host: false,
        score: 0,
        ready: true,
        attempt_marks: Vec::new(),
        round_result: None,
        message: String::new(),
        team: None,
        disconnected: false,
        avatar_id: None,
        avatar_image: None,
        joined_during_game: None,
        temp_observer: false,
        sync_completed_round: None,
        is_answer_setter: false,
    }
}

fn game(settings: GameSettings) -> CurrentGame {
    CurrentGame {
        character: CharacterPayload { id: 1, fields: "{}".to_string() },
        settings: Some(settings),
        guesses: Vec::new(),
        team_attempt_marks: TeamMarks::new(),
        team_round_results: TeamResults::new(),
        hints: None,
        sync_round: 1,
        sync_players_completed: IdSet::new(),
        sync_winner_found: false,
        sync_winner: None,
        sync_ready_to_end: false,
        sync_round_start_rank: 1,
        nonstop_winners: Vec::new(),
        nonstop_total_players: 0,
        first_winner: None,
        tag_ban_state: Vec::new(),
        tag_ban_state_pending: Vec::new(),
        last_sync_waiting_key: None,
        last_sync_waiting_at: 0,
    }
}

fn room(players: Vec<Player>, g: Option<CurrentGame>) -> Room {
    Room {
        host: "host".to_string(),
        is_public: true,
        room_name: "room".to_string(),
        players,
        last_active: 0,
        current_game: g,
        answer_setter_id: None,
        waiting_for_answer: false,
        settings: None,
        last_players_broadcast_at: None,
        pending_player_broadcast_extra: None,
        player_broadcast_due_at: None,
        player_broadcast_flush_scheduled: false,
    }
}

fn ban(tag: &str, revealer: &[&str]) -> TagBanEntry {
    TagBanEntry { tag: tag.to_string(), revealer: revealer.iter().map(|s| s.to_string()).collect() }
}

#[test]
fn session_backed_stable_id_ignores_username() {
    let alice = new_player_stable_id_for_session("room-1", "Alice", Some("session_1234"));
    let bob = new_player_stable_id_for_session("room-1", "Bob", Some("session_1234"));

    assert_eq!(alice, "room-1::session::session_1234");
    assert_eq!(alice, bob);
}

#[test]
fn invalid_session_id_uses_legacy_username_fallback() {
    let id = new_player_stable_id_for_session("room-1", " Alice ", Some("bad session"));

    assert!(id.starts_with("room-1::legacy::alice::"));
}

#[test]
fn session_ids_are_trimmed_and_checked() {
    assert_eq!(canonical_player_session_id(Some("  abcd1234  ")), Some("abcd1234".to_string()));
    assert_eq!(canonical_player_session_id(Some("short")), None);
    assert_eq!(canonical_player_session_id(Some("abc def12345")), None);
    assert_eq!(canonical_player_session_id(None), None);
    assert_eq!(legacy_player_key("room-1", " Bob "), "room-1::legacy-name::bob");
}

#[test]
fn blank_stable_ids_are_filled_in_once() {
    let mut p = player("p1", " Carl ");
    p.stable_player_id = "  ".to_string();
    let id = ensure_player_stable_id_at("room-1", &mut p, 42);
    assert_eq!(id, "room-1::legacy::carl::42");
    assert_eq!(p.stable_player_id, id);
    let again = ensure_player_stable_id_at("room-1", &mut p, 99);
    assert_eq!(again, id);
}

#[test]
fn winner_and_setter_scores() {
    let r = calculate_winner_score("\u{274C}\u{274C}\u{270C}", 2, 10);
    assert_eq!(r.guess_count, 2);
    assert!(!r.is_big_win);
    assert_eq!(r.total_score, 4);
    let big = calculate_winner_score("\u{274C}\u{1F451}", 2, 10);
    assert!(big.is_big_win);
    assert_eq!(big.total_score, 14);
    assert_eq!(big.bonuses.big_win, 12);
    assert_eq!(setter_score(5, false, 0, 8), 1);
    assert_eq!(setter_score(0, false, 0, 10), -1);
    assert_eq!(setter_score(2, true, 14, 10), -7);
    assert_eq!(calculate_nonstop_setter_score(false, 0, 2, 4), 4);
    assert_eq!(calculate_nonstop_setter_score(false, 0, 0, 4), -4);
    assert_eq!(calculate_nonstop_setter_score(false, 0, 1, 4), 2);
}

#[test]
fn standard_round_is_settled_with_points() {
    let mut alice = player("p1", "alice");
    alice.round_result = Some(RESULT_WIN.to_string());
    alice.attempt_marks = vec!["wrong".to_string(), "wrong".to_string(), "correct".to_string()];
    let mut bob = player("p2", "bob");
    bob.round_result = Some(RESULT_DEAD.to_string());
    let mut sam = player("p3", "sam");
    sam.is_answer_setter = true;
    let mut r = room(vec![alice, bob, sam], Some(game(GameSettings::default())));
    let (done, events) = finalize_standard_game(&mut r, false);
    assert!(done);
    assert!(r.current_game.is_none());
    assert_eq!(r.players[0].score, 4);
    assert_eq!(r.players[1].score, 0);
    assert_eq!(r.players[2].score, -1);
    assert!(!r.players[2].is_answer_setter);
    assert_eq!(events.len(), 3);
    match &events[0] {
        RoomEvent::GameEnded { score_details, answer, .. } => {
            assert_eq!(answer.id, 1);
            assert_eq!(score_details.len(), 3);
            match &score_details[2] {
                ScoreDetail::Setter(s) => {
                    assert_eq!(s.score, -1);
                    assert_eq!(s.reason, "太简单了");
                },
                _ => panic!("setter line expected last"),
            }
        },
        _ => panic!("game end expected first"),
    }
    assert!(matches!(events[2], RoomEvent::LobbyRoomsUpdated));
}

#[test]
fn standard_round_goes_on_while_someone_plays() {
    let alice = player("p1", "alice");
    let mut r = room(vec![alice], Some(game(GameSettings::default())));
    let (done, events) = finalize_standard_game(&mut r, false);
    assert!(!done);
    assert!(events.is_empty());
    assert!(r.current_game.is_some());
}

#[test]
fn round_start_resets_players_and_marks_the_setter() {
    let mut a = player("p1", "alice");
    a.attempt_marks = vec!["wrong".to_string()];
    a.round_result = Some(RESULT_DEAD.to_string());
    let mut b = player("p2", "bob");
    b.team = Some("0".to_string());
    let mut c = player("p3", "carl");
    c.disconnected = true;
    c.team = Some("7".to_string());
    let mut r = room(vec![a, b, c], None);
    init_game_state_at(&mut r, CharacterPayload { id: 5, fields: "{}".to_string() }, None, None, Some("p1"), 77);
    assert_eq!(r.last_active, 77);
    assert!(r.players[0].is_answer_setter);
    assert!(r.players[0].attempt_marks.is_empty());
    assert!(r.players[0].round_result.is_none());
    let g = r.current_game.as_ref().unwrap();
    assert_eq!(g.nonstop_total_players, 0);
    assert_eq!(g.guesses.len(), 1);
    assert_eq!(g.guesses[0].username, "carl");
    assert!(g.team_attempt_marks.contains_key("7"));
    assert_eq!(g.character.id, 5);
}

#[test]
fn setter_team_watches_and_is_released() {
    let mut s = player("s", "sam");
    s.team = Some("1".to_string());
    let mut t = player("t", "tom");
    t.team = Some("1".to_string());
    let mut u = player("u", "una");
    u.team = Some("2".to_string());
    let mut r = room(vec![s, t, u], None);
    let e = apply_setter_observers(&mut r, "s");
    assert!(e.is_some());
    assert!(!r.players[0].temp_observer);
    assert!(r.players[1].temp_observer);
    assert!(!r.players[2].temp_observer);
    assert!(revert_setter_observers(&mut r).is_some());
    assert!(!r.players[1].temp_observer);
    assert!(revert_setter_observers(&mut r).is_none());
}

#[test]
fn team_victory_is_shared() {
    let mut w = player("w", "wes");
    w.team = Some("1".to_string());
    let mut t = player("t", "tom");
    t.team = Some("1".to_string());
    let mut d = player("d", "dee");
    d.team = Some("1".to_string());
    d.disconnected = true;
    let mut r = room(vec![w, t, d], Some(game(GameSettings::default())));
    let events = mark_team_victory(&mut r, "w");
    assert_eq!(events.len(), 2);
    match &events[0] {
        RoomEvent::TeamWin { target, winner_name } => {
            assert_eq!(target, "t");
            assert_eq!(winner_name, "wes");
        },
        _ => panic!("team win message expected"),
    }
    assert_eq!(r.players[1].round_result.as_deref(), Some(RESULT_TEAM_WIN));
    assert!(r.players[1].temp_observer);
    assert!(r.players[2].round_result.is_none());
    assert!(r.current_game.as_ref().unwrap().team_round_results.contains_key("1"));
}

#[test]
fn waiting_key_lists_players_by_id() {
    let statuses = vec![
        SyncStatus { id: "b".to_string(), username: "B".to_string(), completed: true },
        SyncStatus { id: "a".to_string(), username: "A".to_string(), completed: false },
    ];
    assert_eq!(build_sync_waiting_key(3, &statuses), "r:3|a:0|b:1");
    assert_eq!(build_sync_waiting_key(7, &Vec::new()), "r:7|");
}

#[test]
fn synchronised_turns_wait_then_advance() {
    let mut settings = GameSettings::default();
    settings.sync_mode = true;
    let mut a = player("a", "ann");
    a.sync_completed_round = Some(1);
    let b = player("b", "ben");
    let mut r = room(vec![a, b], Some(game(settings)));
    let events = update_sync_progress_at(&mut r, 1000);
    assert_eq!(events.len(), 1);
    match &events[0] {
        RoomEvent::SyncWaiting { round, completed_count, total_count, .. } => {
            assert_eq!(*round, 1);
            assert_eq!(*completed_count, 1);
            assert_eq!(*total_count, 2);
        },
        _ => panic!("waiting notice expected"),
    }
    assert_eq!(r.current_game.as_ref().unwrap().last_sync_waiting_key.as_deref(), Some("r:1|a:1|b:0"));
    let repeated = update_sync_progress_at(&mut r, 1010);
    assert!(repeated.is_empty());
    r.players[1].sync_completed_round = Some(1);
    let events = update_sync_progress_at(&mut r, 2000);
    assert_eq!(events.len(), 2);
    assert!(matches!(events[0], RoomEvent::SyncRoundStart { round: 2 }));
    let g = r.current_game.as_ref().unwrap();
    assert_eq!(g.sync_round, 2);
    assert!(r.players.iter().all(|p| p.sync_completed_round.is_none()));
}

#[test]
fn revealed_tags_merge_into_the_ban_list() {
    let mut state = vec![ban("tag1", &["u2"])];
    let pending = vec![ban(" tag1 ", &["u1", "u2"]), ban("  ", &["x"]), ban("tag2", &["u3"])];
    assert!(merge_pending_tag_bans(&mut state, &pending));
    assert_eq!(state.len(), 2);
    assert_eq!(state[0].tag, "tag1");
    assert_eq!(state[0].revealer, vec!["u1".to_string(), "u2".to_string()]);
    assert_eq!(state[1].tag, "tag2");
    assert_eq!(state[1].revealer, vec!["u3".to_string()]);
    assert!(!merge_pending_tag_bans(&mut state, &vec![ban("tag1", &["u2"])]));
}

#[test]
fn only_new_tags_are_appended_at_turn_end() {
    let state = vec![ban("a", &[])];
    let pending = vec![ban(" a ", &["q"]), ban("b", &["x", "y", "x"]), ban("b", &["z"])];
    let fresh = new_tag_entries(&state, &pending);
    assert_eq!(fresh.len(), 1);
    assert_eq!(fresh[0].tag, "b");
    assert_eq!(fresh[0].revealer, vec!["x".to_string(), "y".to_string()]);
}

#[test]
fn nonstop_round_ends_when_everyone_has_a_result() {
    let mut settings = GameSettings::default();
    settings.nonstop_mode = true;
    let mut a = player("a", "ann");
    a.round_result = Some(RESULT_WIN.to_string());
    let mut b = player("b", "ben");
    b.round_result = Some(RESULT_DEAD.to_string());
    let mut s = player("s", "sam");
    s.is_answer_setter = true;
    let mut g = game(settings);
    g.nonstop_winners.push(NonstopWinner {
        id: "a".to_string(),
        username: "ann".to_string(),
        is_big_win: false,
        team: None,
        score: 4,
        bonuses: NonstopWinnerBonuses { big_win: 0, quick_guess: 2 },
    });
    let mut r = room(vec![a, b, s], Some(g));
    let (done, events) = finalize_nonstop_game(&mut r);
    assert!(done);
    assert!(r.current_game.is_none());
    assert_eq!(r.players[2].score, 2);
    assert!(matches!(events[1], RoomEvent::ResetReadyStatus));
}

#[test]
fn setter_scores_from_the_winners_marks() {
    assert_eq!(calculate_setter_score("\u{274C}\u{1F451}", 2, 14, 10), -7);
    assert_eq!(calculate_setter_score("wwwww", 5, 0, 8), 1);
    assert_eq!(calculate_setter_score("ww", 2, 0, 10), -1);
    assert_eq!(calculate_setter_score("", 0, 0, 10), -1);
}

#[test]
fn results_are_cleared() {
    let mut p = player("p1", "alice");
    p.round_result = Some(RESULT_WIN.to_string());
    clear_player_result(&mut p);
    assert_eq!(p.round_result, None);
    let mut g = game(GameSettings::default());
    g.team_round_results.insert("1", RESULT_TEAM_WIN.to_string());
    assert!(g.team_round_results.contains_key("1"));
    clear_team_result(&mut g, "1");
    assert!(!g.team_round_results.contains_key("1"));
}

#[test]
fn a_timeout_counts_as_an_attempt() {
    let mut r = room(vec![player("p1", "alice"), player("p2", "bob")], Some(game(GameSettings::default())));
    let out = handle_player_timeout(&mut r, "p1");
    assert_eq!(out.affected_player_ids, vec!["p1".to_string()]);
    assert!(!out.needs_sync_update);
    assert_eq!(r.players[0].attempt_marks, vec![ATTEMPT_TIMEOUT.to_string()]);
    assert!(r.players[1].attempt_marks.is_empty());
    let none = handle_player_timeout(&mut r, "nobody");
    assert!(none.affected_player_ids.is_empty());
    let mut idle = room(vec![player("p1", "alice")], None);
    assert!(handle_player_timeout(&mut idle, "p1").affected_player_ids.is_empty());
}

#[test]
fn fresh_stable_ids_follow_the_legacy_form() {
    let id = new_player_stable_id("room-1", " Carl ");
    assert!(id.starts_with("room-1::legacy::carl::"));
    let mut p = player("p1", "Dana");
    p.stable_player_id = String::new();
    let got = ensure_player_stable_id("room-1", &mut p);
    assert!(got.starts_with("room-1::legacy::dana::"));
    assert_eq!(p.stable_player_id, got);
}

#[test]
fn a_synchronised_round_with_a_winner_ends_when_all_are_done() {
    let mut settings = GameSettings::default();
    settings.sync_mode = true;
    let mut a = player("a", "ann");
    a.sync_completed_round = Some(1);
    a.round_result = Some(RESULT_WIN.to_string());
    let mut b = player("b", "ben");
    b.sync_completed_round = Some(1);
    let mut g = game(settings);
    g.sync_winner_found = true;
    let mut r = room(vec![a, b], Some(g));
    let events = update_sync_progress_at(&mut r, 5000);
    assert!(matches!(events[0], RoomEvent::SyncWaiting { round: 1, completed_count: 1, total_count: 1, .. }));
    assert!(events.iter().any(|e| matches!(e, RoomEvent::GameEnded { .. })));
    assert!(r.current_game.is_none());
}

#[test]
fn the_flow_step_sends_the_end_of_a_standard_round() {
    let mut a = player("a", "ann");
    a.round_result = Some(RESULT_WIN.to_string());
    let mut b = player("b", "ben");
    b.round_result = Some(RESULT_DEAD.to_string());
    let mut r = room(vec![a, b], Some(game(GameSettings::default())));
    let (done, events) = run_standard_flow_at(&mut r, false, false, 10);
    assert!(done);
    assert!(matches!(events[0], RoomEvent::GameEnded { .. }));
    assert!(r.current_game.is_none());
}
