use character_guessr::gameplay::details::generate_score_details;
use character_guessr::gameplay::events::{PlayerDetail, ScoreDetail, SetterDetail};
use character_guessr::gameplay::guess::{apply_guess, latest_guess_matches_answer, GuessCommand};
use character_guessr::gameplay::marks::{
    player_attempt_count, player_has_result, push_player_attempt, ATTEMPT_TIMEOUT, ATTEMPT_WRONG, RESULT_BIG_WIN,
    RESULT_DEAD, RESULT_WIN,
};
use character_guessr::gameplay::scores::{build_score_changes_nonstop, build_score_changes_standard};
use character_guessr::gameplay::scoring::{ScoreBonuses, ScoreResult};
use character_guessr::keyed::{IdSet, TeamMarks, TeamResults, TextMap};
use character_guessr::settings::GameSettings;
use character_guessr::state::{CharacterPayload, CurrentGame, NonstopWinner, NonstopWinnerBonuses, Player, Room};

fn test_player(id: &str, username: &str, result: Option<&str>) -> Player {
    Player {
        id: id.to_string(),
        stable_player_id: format!("stable-{}", id),
        username: username.to_string(),
        is_host: false,
        score: 0,
        ready: true,
        attempt_marks: Vec::new(),
        round_result: result.map(str::to_string),
        message: String::new(),
        team: None,
        disconnected: false,
        avatar_id: None,
        avatar_image: None,
        joined_during_game: None,
        temp_observer: false,
        sync_completed_round: None,
        is_answer_setter: false,
    }
}

fn character(id: i64, name: &str) -> CharacterPayload {
    CharacterPayload { id, fields: format!("{{\"name\":\"{}\"}}", name) }
}

fn test_game(answer: CharacterPayload, settings: GameSettings) -> CurrentGame {
    CurrentGame {
        character: answer,
        settings: Some(settings),
        guesses: Vec::new(),
        team_attempt_marks: TeamMarks::new(),
        team_round_results: TeamResults::new(),
        hints: None,
        sync_round: 1,
        sync_players_completed: IdSet::new(),
        sync_winner_found: false,
        sync_winner: None,
        sync_ready_to_end: false,
        sync_round_start_rank: 1,
        nonstop_winners: Vec::new(),
        nonstop_total_players: 0,
        first_winner: None,
        tag_ban_state: Vec::new(),
        tag_ban_state_pending: Vec::new(),
        last_sync_waiting_key: None,
        last_sync_waiting_at: 0,
    }
}

fn test_room() -> Room {
    let mut player = test_player("socket-1", "alice", None);
    player.stable_player_id = "stable-1".to_string();
    Room {
        host: "host".to_string(),
        is_public: true,
        room_name: String::new(),
        players: vec![player],
        last_active: 0,
        current_game: Some(test_game(character(1, "answer"), GameSettings::default())),
        answer_setter_id: None,
        waiting_for_answer: false,
        settings: Some(GameSettings::default()),
        last_players_broadcast_at: None,
        pending_player_broadcast_extra: None,
        player_broadcast_due_at: None,
        player_broadcast_flush_scheduled: false,
    }
}

fn guess(actor: &str, c: CharacterPayload, is_correct: bool, is_partial_correct: bool) -> GuessCommand {
    GuessCommand { actor_id: actor.to_string(), character: c, is_correct, is_partial_correct }
}

fn find_player_detail<'a>(details: &'a [ScoreDetail], username: &str) -> Option<&'a PlayerDetail> {
    for d in details {
        match d {
            ScoreDetail::Player(p) if p.username == username => return Some(p),
            ScoreDetail::Team { members, .. } => {
                if let Some(m) = members.iter().find(|m| m.username == username) {
                    return Some(m);
                }
            },
            _ => {},
        }
    }
    None
}

#[test]
fn latest_guess_must_be_correct_answer_for_nonstop_settlement() {
    let mut room = test_room();
    assert!(!latest_guess_matches_answer(&room, "socket-1"));

    assert!(apply_guess(&mut room, guess("socket-1", character(2, "wrong"), false, false)).is_ok());
    assert!(!latest_guess_matches_answer(&room, "socket-1"));

    assert!(apply_guess(&mut room, guess("socket-1", character(1, "answer"), true, false)).is_ok());
    assert!(latest_guess_matches_answer(&room, "socket-1"));
}

#[test]
fn records_server_loaded_character_id() {
    let mut room = test_room();
    let outcome = match apply_guess(&mut room, guess("socket-1", character(2, "server guess"), false, false)) {
        Ok(o) => o,
        Err(_) => panic!("guess should be accepted"),
    };

    assert!(!outcome.is_correct);
    let guesses = &room.current_game.as_ref().unwrap().guesses;
    assert_eq!(guesses.len(), 1);
    assert_eq!(guesses[0].guesses[0].guess_data.id, 2);
}

#[test]
fn records_server_loaded_guess_and_attempt_mark() {
    let mut room = test_room();
    let outcome = match apply_guess(&mut room, guess("socket-1", character(2, "guess"), false, false)) {
        Ok(o) => o,
        Err(_) => panic!("guess should be accepted"),
    };

    assert!(!outcome.is_correct);
    assert_eq!(room.players[0].attempt_marks, vec![ATTEMPT_WRONG.to_string()]);
    let guesses = &room.current_game.as_ref().unwrap().guesses;
    assert_eq!(guesses.len(), 1);
    assert_eq!(guesses[0].guesses[0].guess_data.id, 2);
}

#[test]
fn timeout_is_only_an_attempt_identifier() {
    let mut player = test_player("p1", "p", None);
    player.ready = false;
    push_player_attempt(&mut player, ATTEMPT_TIMEOUT);
    assert_eq!(player_attempt_count(&player), 1);
    assert!(!player_has_result(&player));
}

#[test]
fn standard_score_details_preserve_winner_breakdown_shape() {
    let winner = test_player("p1", "alice", Some(RESULT_BIG_WIN));
    let loser = test_player("p2", "bob", Some(RESULT_DEAD));
    let players = vec![winner.duplicate(), loser];
    let mut winner_scores = TextMap::new();
    winner_scores.insert(
        winner.id.clone(),
        ScoreResult { total_score: 14, guess_count: 1, is_big_win: true, bonuses: ScoreBonuses { big_win: 12, quick_guess: 0 } },
    );

    let score_changes = build_score_changes_standard(&players, &vec![winner], &winner_scores, &IdSet::new());
    let details = generate_score_details(&players, &score_changes, None);
    let alice = find_player_detail(&details, "alice").expect("winner details should be emitted");

    assert_eq!(alice.score, 14);
    assert_eq!(alice.result, "bigwin");
    assert_eq!(alice.breakdown.base, Some(2));
    assert_eq!(alice.breakdown.big_win, Some(12));
    assert_eq!(alice.breakdown.quick_guess, Some(0));
}

#[test]
fn nonstop_score_details_preserve_ranked_breakdown_shape() {
    let winner = test_player("p1", "alice", Some(RESULT_WIN));
    let players = vec![winner.duplicate()];
    let winners = vec![NonstopWinner {
        id: winner.id.clone(),
        username: winner.username.clone(),
        is_big_win: false,
        team: None,
        score: 4,
        bonuses: NonstopWinnerBonuses { big_win: 0, quick_guess: 2 },
    }];

    let score_changes = build_score_changes_nonstop(&players, &winners, &IdSet::new());
    let details = generate_score_details(&players, &score_changes, None);
    let alice = find_player_detail(&details, "alice").expect("winner details should be emitted");

    assert_eq!(alice.score, 4);
    assert_eq!(alice.result, "win");
    assert_eq!(alice.breakdown.rank, Some(1));
    assert_eq!(alice.breakdown.base, Some(2));
    assert_eq!(alice.breakdown.quick_guess, Some(2));
}

#[test]
fn score_details_group_teams_and_put_the_setter_last() {
    let mut a = test_player("a", "ann", Some(RESULT_WIN));
    a.team = Some("1".to_string());
    let mut b = test_player("b", "ben", Some(RESULT_DEAD));
    b.team = Some("1".to_string());
    let mut c = test_player("c", "cid", Some(RESULT_DEAD));
    c.team = Some("2".to_string());
    let d = test_player("d", "dan", None);
    let mut setter = test_player("s", "sam", None);
    setter.is_answer_setter = true;
    let mut spectator = test_player("x", "xia", None);
    spectator.team = Some("0".to_string());
    let players = vec![a, b, c, d, setter, spectator];
    let changes = TextMap::new();
    let details = generate_score_details(
        &players,
        &changes,
        Some(SetterDetail { username: "sam".to_string(), score: -1, reason: "太简单了" }),
    );
    assert_eq!(details.len(), 4);
    match &details[0] {
        ScoreDetail::Team { team_id, team_score, members } => {
            assert_eq!(team_id, "1");
            assert_eq!(*team_score, 0);
            assert_eq!(members.len(), 2);
            assert_eq!(members[0].username, "ann");
            assert_eq!(members[1].username, "ben");
        },
        _ => panic!("the team of two comes first"),
    }
    match &details[1] {
        ScoreDetail::Player(p) => assert_eq!(p.username, "dan"),
        _ => panic!("then the player without a team"),
    }
    match &details[2] {
        ScoreDetail::Player(p) => assert_eq!(p.username, "cid"),
        _ => panic!("then the only member of a one-member team"),
    }
    match &details[3] {
        ScoreDetail::Setter(s) => {
            assert_eq!(s.username, "sam");
            assert_eq!(s.score, -1);
        },
        _ => panic!("the setter's line is last"),
    }
}

#[test]
fn guess_by_unknown_player_is_rejected() {
    let mut room = test_room();
    let r = apply_guess(&mut room, guess("nobody", character(2, "x"), false, false));
    assert!(r.is_err());
    assert!(room.current_game.as_ref().unwrap().guesses.is_empty());
}
