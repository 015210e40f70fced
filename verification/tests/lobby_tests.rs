use character_guessr::rooms::pick_quick_join_room;
use character_guessr::gameplay::commands::choose_answer_setter;
use character_guessr::gameplay::lobby::{change_team, parse_team_value};
use character_guessr::gameplay::lobby::{
    active_room_player_count, answer_reveal_for, avatar_to_string, can_player_change_team, coalesced_key, emit_priority,
    is_coalescing_event, is_empty_avatar, player_socket_key, validate_answer_setter, EmitPriority,
};
use character_guessr::keyed::{IdSet, TeamMarks, TeamResults};
use character_guessr::gameplay::join::{create_room_refusal, hosted_room, join_room, JoinOutcome};
use character_guessr::gameplay::leave::leave_room;
use character_guessr::gameplay::observer::enter_observer_mode;
use character_guessr::gameplay::round_end::{end_round_on_request, EndClaim};
use character_guessr::gameplay::nonstop_claim::{claim_nonstop_win, record_nonstop_winner};
use character_guessr::gameplay::events::RoomEvent;
use character_guessr::state::{GuessEntry, PlayerGuessHistory};
use character_guessr::gameplay::commands::{drop_departed_without_points, enter_manual_mode, game_start_refusal, kick_player, rename_room, toggle_ready, toggle_visibility, transfer_host, update_game_settings, update_player_message};
use character_guessr::rooms::{cleanup_tick, CleanupNotice, is_admin_request, joinable_room_ids, quick_join_url, stale_room_ids};
use character_guessr::outbox::{coalesced_event_of, high_overflow_accepts, overflow_action, OverflowAction};
use character_guessr::settings::GameSettings;
use character_guessr::state::{AvatarId, CharacterPayload, CurrentGame, Player, Room, TagBanEntry};

fn player(id: &str, username: &str) -> Player {
    Player {
        id: id.to_string(),
        stable_player_id: String::new(),
        username: username.to_string(),
        is_host: false,
        score: 0,
        ready: false,
        attempt_marks: Vec::new(),
        round_result: None,
        message: String::new(),
        team: None,
        disconnected: false,
        avatar_id: None,
        avatar_image: None,
        joined_during_game: None,
        temp_observer: false,
        sync_completed_round: None,
        is_answer_setter: false,
    }
}

fn room(players: Vec<Player>) -> Room {
    Room {
        host: "h".to_string(),
        is_public: false,
        room_name: String::new(),
        players,
        last_active: 0,
        current_game: None,
        answer_setter_id: None,
        waiting_for_answer: false,
        settings: None,
        last_players_broadcast_at: None,
        pending_player_broadcast_extra: None,
        player_broadcast_due_at: None,
        player_broadcast_flush_scheduled: false,
    }
}

fn game() -> CurrentGame {
    CurrentGame {
        character: CharacterPayload { id: 3, fields: "{}".to_string() },
        settings: None,
        guesses: Vec::new(),
        team_attempt_marks: TeamMarks::new(),
        team_round_results: TeamResults::new(),
        hints: None,
        sync_round: 1,
        sync_players_completed: IdSet::new(),
        sync_winner_found: false,
        sync_winner: None,
        sync_ready_to_end: false,
        sync_round_start_rank: 1,
        nonstop_winners: Vec::new(),
        nonstop_total_players: 0,
        first_winner: None,
        tag_ban_state: Vec::new(),
        tag_ban_state_pending: Vec::new(),
        last_sync_waiting_key: None,
        last_sync_waiting_at: 0,
    }
}

#[test]
fn the_host_chooses_a_ready_setter() {
    let mut host = player("h", "hana");
    host.is_host = true;
    let mut bob = player("b", "bob");
    bob.ready = true;
    let mut watcher = player("w", "wu");
    watcher.team = Some("0".to_string());
    watcher.ready = true;
    let r = room(vec![host, bob, watcher, player("n", "nia")]);
    assert_eq!(validate_answer_setter(&r, "h", "b"), Ok("bob".to_string()));
    assert_eq!(validate_answer_setter(&r, "b", "b"), Err("只有房主可以选择出题人"));
    assert_eq!(validate_answer_setter(&r, "h", "w"), Err("旁观者不能作为出题人"));
    assert_eq!(validate_answer_setter(&r, "h", "n"), Err("只能选择已准备玩家出题"));
    assert_eq!(validate_answer_setter(&r, "h", "x"), Err("找不到选中的玩家"));
    assert_eq!(validate_answer_setter(&r, "h", "h"), Ok("hana".to_string()));
}

#[test]
fn team_changes_wait_for_the_lobby() {
    let mut r = room(vec![player("a", "ann")]);
    assert_eq!(can_player_change_team(&r, &r.players[0]), Ok(()));
    r.waiting_for_answer = true;
    assert_eq!(can_player_change_team(&r, &r.players[0]), Err("等待出题时不能切换队伍或旁观状态"));
    r.waiting_for_answer = false;
    r.players[0].ready = true;
    assert_eq!(can_player_change_team(&r, &r.players[0]), Err("已准备后不能切换队伍或旁观状态，请先取消准备"));
}

#[test]
fn events_get_priorities() {
    assert!(emit_priority("updatePlayers") == EmitPriority::Low);
    assert!(emit_priority("gameEnded") == EmitPriority::High);
    assert!(emit_priority("chat") == EmitPriority::Normal);
    assert!(is_coalescing_event("syncWaiting"));
    assert!(!is_coalescing_event("gameStart"));
    assert_eq!(coalesced_key("sock", "ev"), "sock\u{0}ev");
}

#[test]
fn socket_keys_and_avatars() {
    let mut p = player("p", " Ann ");
    assert_eq!(player_socket_key("r1", &p), "r1::legacy-name::ann");
    p.stable_player_id = "r1::session::abcdefgh".to_string();
    assert_eq!(player_socket_key("r1", &p), "r1::session::abcdefgh");
    assert!(is_empty_avatar(&None));
    assert!(is_empty_avatar(&Some(AvatarId::Number(0))));
    assert!(!is_empty_avatar(&Some(AvatarId::Text("cat".to_string()))));
    assert_eq!(avatar_to_string(&Some(AvatarId::Number(42))), "42");
    assert_eq!(avatar_to_string(&None), "");
}

#[test]
fn the_answer_is_revealed_to_those_who_may_see_it() {
    let mut setter = player("s", "sam");
    setter.is_answer_setter = true;
    let mut r = room(vec![setter, player("g", "gus")]);
    r.players[1].disconnected = true;
    assert_eq!(active_room_player_count(&r), 1);
    assert!(answer_reveal_for(&r, "s").is_none());
    r.current_game = Some(game());
    assert_eq!(answer_reveal_for(&r, "s").map(|c| c.id), Some(3));
    assert!(answer_reveal_for(&r, "g").is_none());
}

#[test]
fn players_broadcasts_hand_over_waiting_extras() {
    let mut r = room(vec![player("s1", "alice")]);
    r.pending_player_broadcast_extra = Some("{\"x\":1}".to_string());
    r.player_broadcast_due_at = Some(500);
    assert!(!r.players_flush_due(499));
    assert!(r.players_flush_due(500));
    let extra = r.take_players_broadcast_extra(600);
    assert_eq!(extra, Some("{\"x\":1}".to_string()));
    assert_eq!(r.pending_player_broadcast_extra, None);
    assert_eq!(r.player_broadcast_due_at, None);
    assert_eq!(r.last_players_broadcast_at, Some(600));
    assert!(!r.players_flush_due(1_000));
}

#[test]
fn full_outboxes_coalesce_queue_or_drop() {
    assert_eq!(overflow_action(EmitPriority::Low, false), OverflowAction::Coalesce);
    assert_eq!(overflow_action(EmitPriority::High, true), OverflowAction::Coalesce);
    assert_eq!(overflow_action(EmitPriority::High, false), OverflowAction::Overflow);
    assert_eq!(overflow_action(EmitPriority::Normal, false), OverflowAction::Drop);
    assert!(high_overflow_accepts(255));
    assert!(!high_overflow_accepts(256));
    assert_eq!(coalesced_event_of("sock1\u{0}syncWaiting", "sock1"), Some("syncWaiting"));
    assert_eq!(coalesced_event_of("sock1\u{0}gameStart", "sock1"), None);
    assert_eq!(coalesced_event_of("sock2\u{0}syncWaiting", "sock1"), None);
    assert_eq!(coalesced_event_of("sock1", "sock1"), None);
}

#[test]
fn rooms_to_join_and_to_close() {
    let mut open = room(vec![player("s1", "alice")]);
    open.is_public = true;
    assert!(open.joinable());
    let closed = room(vec![player("s2", "bob")]);
    assert!(!closed.joinable());
    let mut full = room((0..8).map(|i| player(&format!("s{i}"), &format!("p{i}"))).collect());
    full.is_public = true;
    assert!(!full.joinable());
    full.players[0].disconnected = true;
    assert!(full.joinable());

    let mut playing = room(vec![]);
    playing.current_game = Some(game());
    assert!(open.is_stale(300_001));
    assert!(!open.is_stale(300_000));
    assert!(!playing.is_stale(1_000_000));

    let rooms = vec![("a".to_string(), open), ("b".to_string(), closed), ("c".to_string(), playing)];
    assert_eq!(joinable_room_ids(&rooms), vec!["a".to_string()]);
    assert_eq!(stale_room_ids(&rooms, 400_000), vec!["a".to_string(), "b".to_string()]);
}

#[test]
fn room_listings_name_the_host() {
    let mut host = player("h", "alice");
    host.is_host = false;
    let mut gone = player("s9", "carol");
    gone.disconnected = true;
    let r = room(vec![player("s1", "bob"), host, gone]);
    let listing = r.public_listing();
    assert_eq!(listing.host_name, "alice");
    assert_eq!(listing.display_room_name, "alice的房间");
    assert_eq!(listing.player_names, vec!["bob".to_string(), "alice".to_string()]);
    assert_eq!(listing.player_count, 2);
    assert!(!listing.is_game_started);
    let mut named = room(vec![]);
    named.room_name = "Lounge".to_string();
    let listing = named.public_listing();
    assert_eq!((listing.host_name.as_str(), listing.display_room_name.as_str()), ("", "Lounge"));
}

#[test]
fn administrators_and_quick_join_links() {
    assert!(!is_admin_request(None, Some("t"), None, None));
    assert!(!is_admin_request(Some("  "), Some(""), None, None));
    assert!(is_admin_request(Some(" t0k "), Some("t0k"), None, None));
    assert!(is_admin_request(Some("t0k"), None, Some("Bearer t0k"), None));
    assert!(!is_admin_request(Some("t0k"), None, Some("bearer t0k"), None));
    assert!(is_admin_request(Some("t0k"), None, None, Some("t0k")));
    assert_eq!(quick_join_url(Some("en"), "http://x", "r1"), "https://vertikarl.github.io/anime-character-guessr-english/#/multiplayer/r1");
    assert_eq!(quick_join_url(None, "http://x", "r1"), "http://x/multiplayer/r1");
}

fn join(r: &mut Room, socket: &str, name: &str, avatar: Option<AvatarId>, active: &[&str]) -> JoinOutcome {
    let active: Vec<String> = active.iter().map(|s| s.to_string()).collect();
    join_room(r, "room-1", socket, name, format!("room-1::legacy::{}::1", name.to_lowercase()), avatar, None, &active, 500)
}

#[test]
fn creating_rooms() {
    assert_eq!(create_room_refusal("  ", false, 0), Some("请输入用户名"));
    assert_eq!(create_room_refusal("a", true, 0), Some("房间已存在，请换一个房间号或直接加入该房间"));
    assert_eq!(create_room_refusal("a", false, 259), Some("服务器房间数量已满，请稍后再试"));
    assert_eq!(create_room_refusal("a", false, 258), None);
    let r = hosted_room("s1", "st1".to_string(), "alice".to_string(), None, None, 77);
    assert_eq!(r.host, "s1");
    assert!(r.is_public);
    assert_eq!(r.last_active, 77);
    assert!(r.players[0].is_host);
    assert_eq!(r.players[0].username, "alice");
}

#[test]
fn joining_takes_a_seat_or_rebinds() {
    let mut r = hosted_room("s1", "room-1::legacy::alice::1".to_string(), "alice".to_string(), None, None, 0);
    assert!(matches!(join(&mut r, "s2", "Bob", Some(AvatarId::Number(5)), &["s1"]), JoinOutcome::Joined(1)));
    assert_eq!(r.last_active, 500);
    assert_eq!(r.players[1].team, None);
    assert_eq!(r.players[1].joined_during_game, Some(false));
    // The same socket again.
    assert!(matches!(join(&mut r, "s2", "bob", None, &["s1", "s2"]), JoinOutcome::Rejoined(1)));
    // The name on a live socket is taken.
    assert!(matches!(join(&mut r, "s3", "BOB", None, &["s1", "s2"]), JoinOutcome::Refused(_)));
    // A socket that is gone is rebound.
    match join(&mut r, "s3", "bob", None, &["s1"]) {
        JoinOutcome::Reconnected(1, prev) => assert_eq!(prev, "s2"),
        _ => panic!("expected a reconnection"),
    }
    assert_eq!(r.players[1].id, "s3");
    // Disconnected with another avatar: refused.
    r.players[1].disconnected = true;
    assert!(matches!(join(&mut r, "s4", "bob", Some(AvatarId::Number(6)), &[]), JoinOutcome::Refused(_)));
    assert!(matches!(join(&mut r, "s4", "bob", Some(AvatarId::Number(5)), &[]), JoinOutcome::Reconnected(1, _)));
    assert!(!r.players[1].disconnected);
    // Someone else may not wear avatar 5.
    assert!(matches!(join(&mut r, "s5", "carol", Some(AvatarId::Number(5)), &["s1", "s4"]), JoinOutcome::Refused(_)));
}

#[test]
fn joining_during_a_game_makes_an_observer_and_moves_reveals() {
    let mut r = hosted_room("s1", "x".to_string(), "alice".to_string(), None, None, 0);
    let mut g = game();
    g.tag_ban_state = vec![TagBanEntry { tag: "t".to_string(), revealer: vec!["s1".to_string(), "s9".to_string()] }];
    r.current_game = Some(g);
    assert!(matches!(join(&mut r, "s2", "bob", None, &["s1"]), JoinOutcome::Joined(1)));
    assert_eq!(r.players[1].team, Some("0".to_string()));
    assert_eq!(r.players[1].joined_during_game, Some(true));
    r.players[0].disconnected = true;
    r.players[0].stable_player_id = "room-1::legacy::alice::1".to_string();
    assert!(matches!(join(&mut r, "s7", "alice", None, &[]), JoinOutcome::Reconnected(0, _)));
    let state = &r.current_game.as_ref().unwrap().tag_ban_state;
    assert_eq!(state[0].revealer, vec!["s7".to_string(), "s9".to_string()]);
}

#[test]
fn full_rooms_refuse_new_players() {
    let mut r = hosted_room("s0", "x".to_string(), "p0".to_string(), None, None, 0);
    for i in 1..8 {
        assert!(matches!(join(&mut r, &format!("s{i}"), &format!("p{i}"), None, &[]), JoinOutcome::Joined(_)));
    }
    match join(&mut r, "s8", "p8", None, &[]) {
        JoinOutcome::Refused(m) => assert_eq!(m, "房间人数已满，请加入其他房间"),
        _ => panic!("expected a refusal"),
    }
}

#[test]
fn leaving_passes_the_host_role_on() {
    let mut host = player("s1", "alice");
    host.is_host = true;
    let mut gone = player("s2", "bob");
    gone.disconnected = true;
    let mut next = player("s3", "carol");
    next.ready = true;
    let mut r = room(vec![host, gone, next]);
    r.host = "s1".to_string();
    r.waiting_for_answer = true;
    let out = leave_room(&mut r, "s1").unwrap();
    let t = out.host_transferred.unwrap();
    assert_eq!((t.old_host_name.as_str(), t.new_host_id.as_str(), t.new_host_name.as_str()), ("alice", "s3", "carol"));
    assert_eq!(out.cancel_message, Some("房主 alice 已离开，等待出题已取消".to_string()));
    assert_eq!(r.host, "s3");
    assert!(r.players[0].disconnected && !r.players[0].is_host);
    assert!(r.players[2].is_host && !r.players[2].ready);
    assert!(leave_room(&mut r, "nobody").is_none());
}

#[test]
fn leaving_alone_or_as_setter() {
    let mut r = room(vec![player("s1", "alice"), player("s2", "bob")]);
    r.host = "s9".to_string();
    r.answer_setter_id = Some("s2".to_string());
    let mut g = game();
    g.sync_players_completed.insert("s2".to_string());
    r.current_game = Some(g);
    let out = leave_room(&mut r, "s2").unwrap();
    assert!(out.host_transferred.is_none());
    assert_eq!(out.cancel_message, Some("指定的出题人 bob 已离开，等待被取消".to_string()));
    assert!(r.players[1].disconnected);
    assert!(!r.current_game.as_ref().unwrap().sync_players_completed.contains("s2"));
    let mut lone = room(vec![player("s1", "alice")]);
    lone.host = "s1".to_string();
    let out = leave_room(&mut lone, "s1").unwrap();
    assert!(out.host_transferred.is_none() && out.cancel_message.is_none());
    assert_eq!(lone.host, "s1");
    assert!(lone.players[0].disconnected);
}

fn hosted(players: Vec<Player>) -> Room {
    let mut r = room(players);
    r.players[0].is_host = true;
    r.host = r.players[0].id.clone();
    r
}

#[test]
fn lobby_commands_check_who_asks() {
    let mut r = hosted(vec![player("s1", "alice"), player("s2", "bob")]);
    assert_eq!(toggle_ready(&mut r, "s1"), Err("房主不需要准备"));
    assert_eq!(toggle_ready(&mut r, "s9"), Err("连接中断了"));
    assert_eq!(toggle_ready(&mut r, "s2"), Ok(()));
    assert!(r.players[1].ready);
    r.waiting_for_answer = true;
    assert_eq!(toggle_ready(&mut r, "s2"), Err("等待出题时不能更改准备状态"));
    r.waiting_for_answer = false;

    assert_eq!(toggle_visibility(&mut r, "s2"), Err("只有房主可以更改房间状态"));
    assert_eq!(toggle_visibility(&mut r, "s1"), Ok(()));
    assert!(r.is_public);

    assert_eq!(rename_room(&mut r, "s1", &format!("  {}  ", "x".repeat(40))), Ok("x".repeat(30)));
    assert_eq!(r.room_name, "x".repeat(30));
    assert_eq!(rename_room(&mut r, "s2", "mine"), Err("只有房主可以修改房名"));

    r.players[1].ready = false;
    assert_eq!(enter_manual_mode(&mut r, "s1"), Ok(()));
    assert!(r.players[1].ready && !r.players[0].ready);

    assert!(update_player_message(&mut r, "s2", "hi".to_string()));
    assert_eq!(r.players[1].message, "hi");
    assert!(!update_player_message(&mut r, "s9", "hi".to_string()));
}

#[test]
fn kicking_and_handing_over() {
    let mut r = hosted(vec![player("s1", "alice"), player("s2", "bob"), player("s3", "carol")]);
    r.answer_setter_id = Some("s3".to_string());
    assert!(matches!(kick_player(&mut r, "s2", "s3"), Err("只有房主可以踢出玩家")));
    assert!(matches!(kick_player(&mut r, "s1", "s1"), Err("无法踢出自己")));
    assert!(matches!(kick_player(&mut r, "s1", "s9"), Err("找不到要踢出的玩家")));
    let k = kick_player(&mut r, "s1", "s3").ok().unwrap();
    assert_eq!((k.id.as_str(), k.username.as_str()), ("s3", "carol"));
    assert_eq!(k.cancel_message, Some("指定的出题人 carol 已被踢出，等待已取消".to_string()));
    assert_eq!(r.players.len(), 2);

    r.players[1].disconnected = true;
    assert!(matches!(transfer_host(&mut r, "s1", "s2"), Err("无法将房主转移给该玩家")));
    r.players[1].disconnected = false;
    assert!(matches!(transfer_host(&mut r, "s2", "s1"), Err("只有房主可以转移权限")));
    r.waiting_for_answer = true;
    let h = transfer_host(&mut r, "s1", "s2").ok().unwrap();
    assert_eq!((h.old_host_name.as_str(), h.new_host_id.as_str(), h.new_host_name.as_str()), ("alice", "s2", "bob"));
    assert_eq!(h.cancel_message, Some("房主权限已转移给 bob，等待出题已取消".to_string()));
    assert_eq!(r.host, "s2");
    assert!(r.players[1].is_host && !r.players[1].ready);
    assert!(!r.players[0].is_host && r.players[0].ready);
}

#[test]
fn starting_a_game() {
    let mut r = hosted(vec![player("s1", "alice"), player("s2", "bob"), player("s3", "carol")]);
    assert_eq!(game_start_refusal(&r, "s2"), Some("只有房主可以开始游戏"));
    assert_eq!(game_start_refusal(&r, "s1"), Some("所有玩家必须准备好才能开始游戏"));
    r.players[1].ready = true;
    r.players[2].disconnected = true;
    assert_eq!(game_start_refusal(&r, "s1"), None);
    let mut scorer = player("s4", "dan");
    scorer.disconnected = true;
    scorer.score = 3;
    r.players.push(scorer);
    drop_departed_without_points(&mut r);
    let names: Vec<&str> = r.players.iter().map(|p| p.username.as_str()).collect();
    assert_eq!(names, vec!["alice", "bob", "dan"]);
    r.current_game = Some(game());
    assert_eq!(game_start_refusal(&r, "s1"), Some("游戏已经在进行中"));
}

#[test]
fn only_the_host_changes_settings() {
    let mut r = hosted(vec![player("s1", "alice"), player("s2", "bob")]);
    let mut wanted = GameSettings::default();
    wanted.max_attempts = 7;
    assert_eq!(update_game_settings(&mut r, "s2", Some(GameSettings::default()), 50), Err("只有房主可以更改设置"));
    assert!(r.settings.is_none() && r.last_active == 0);
    assert_eq!(update_game_settings(&mut r, "s1", None, 50), Ok(false));
    assert!(r.settings.is_none() && r.last_active == 0);
    assert_eq!(update_game_settings(&mut r, "s1", Some(wanted), 50), Ok(true));
    assert_eq!(r.settings.as_ref().map(|s| s.max_attempts), Some(7));
    assert_eq!(r.last_active, 50);
}

#[test]
fn watching_ends_the_round_of_the_watcher() {
    let mut r = hosted(vec![player("s1", "alice"), player("s2", "bob"), player("s3", "cara")]);
    assert_eq!(enter_observer_mode(&mut r, "s2", 40), Err("游戏未开始或已结束"));
    assert_eq!(r.last_active, 40);
    r.current_game = Some(game());
    assert_eq!(enter_observer_mode(&mut r, "s9", 41), Err("连接中断了"));
    assert_eq!(r.last_active, 41);

    r.players[1].attempt_marks = vec!["wrong".to_string(); 2];
    assert_eq!(enter_observer_mode(&mut r, "s2", 42), Ok(()));
    assert_eq!(r.players[1].round_result.as_deref(), Some("surrender"));
    assert!(r.players[1].temp_observer);

    r.players[2].attempt_marks = vec!["wrong".to_string(); 10];
    assert_eq!(enter_observer_mode(&mut r, "s3", 43), Ok(()));
    assert_eq!(r.players[2].round_result.as_deref(), Some("dead"));

    r.players[0].round_result = Some("win".to_string());
    assert_eq!(enter_observer_mode(&mut r, "s1", 44), Ok(()));
    assert_eq!(r.players[0].round_result.as_deref(), Some("win"));
    assert!(r.players[0].temp_observer);
}

#[test]
fn watching_in_a_team_ends_the_team_round() {
    let mut a = player("s2", "bob");
    a.team = Some("1".to_string());
    let mut b = player("s3", "cara");
    b.team = Some("1".to_string());
    let mut c = player("s4", "dan");
    c.team = Some("2".to_string());
    let mut r = hosted(vec![player("s1", "alice"), a, b, c]);
    r.current_game = Some(game());
    assert_eq!(enter_observer_mode(&mut r, "s2", 7), Ok(()));
    assert_eq!(r.players[1].round_result.as_deref(), Some("surrender"));
    assert_eq!(r.players[2].round_result.as_deref(), Some("surrender"));
    assert_eq!(r.players[3].round_result, None);
    assert!(r.players[1].temp_observer && !r.players[2].temp_observer);
    assert!(r.current_game.as_ref().unwrap().team_round_results.contains_key("1"));
}

fn guessed(name: &str, id: i64) -> PlayerGuessHistory {
    PlayerGuessHistory {
        username: name.to_string(),
        guesses: vec![GuessEntry {
            player_id: String::new(),
            player_name: name.to_string(),
            is_correct: id == 3,
            is_partial_correct: false,
            guess_data: CharacterPayload { id, fields: "{}".to_string() },
        }],
    }
}

#[test]
fn ending_the_round_by_request() {
    let mut r = hosted(vec![player("s1", "alice"), player("s2", "bob"), player("s3", "cara")]);
    assert_eq!(end_round_on_request(&mut r, "s2", "surrender", 5).err(), Some("游戏未开始或已结束"));
    assert_eq!(r.last_active, 5);
    let mut g = game();
    g.guesses = vec![guessed("bob", 3), guessed("cara", 8)];
    r.current_game = Some(g);
    assert_eq!(end_round_on_request(&mut r, "s9", "win", 6).err(), Some("连接中断了"));

    let out = end_round_on_request(&mut r, "s3", "win", 7).unwrap();
    assert_eq!(out.claim, EndClaim::Lose);
    assert_eq!(r.players[2].round_result.as_deref(), Some("dead"));
    assert!(out.events.is_empty() && !out.sync_mode);

    r.players[1].attempt_marks = vec!["correct".to_string()];
    let out = end_round_on_request(&mut r, "s2", "win", 8).unwrap();
    assert_eq!(out.claim, EndClaim::BigWin);
    assert_eq!(r.players[1].round_result.as_deref(), Some("bigWin"));
    let first = r.current_game.as_ref().unwrap().first_winner.as_ref().unwrap();
    assert!(first.is_big_win && first.id == "s2" && first.timestamp == Some(8));

    let out = end_round_on_request(&mut r, "s1", "surrender", 9).unwrap();
    assert_eq!(out.claim, EndClaim::Surrender);
    assert_eq!(r.players[0].round_result.as_deref(), Some("surrender"));
    assert_eq!(r.last_active, 9);
}

#[test]
fn a_team_shares_a_surrender_and_a_win() {
    let mut a = player("s2", "bob");
    a.team = Some("1".to_string());
    let mut b = player("s3", "cara");
    b.team = Some("1".to_string());
    let mut r = hosted(vec![player("s1", "alice"), a, b]);
    let mut g = game();
    g.guesses = vec![guessed("bob", 3)];
    r.current_game = Some(g);

    let out = end_round_on_request(&mut r, "s3", "surrender", 1).unwrap();
    assert_eq!(out.claim, EndClaim::Surrender);
    assert_eq!(r.players[1].round_result.as_deref(), Some("surrender"));
    assert_eq!(r.players[2].round_result.as_deref(), Some("surrender"));

    r.players[1].attempt_marks = vec!["wrong".to_string(), "correct".to_string()];
    let out = end_round_on_request(&mut r, "s2", "win", 2).unwrap();
    assert_eq!(out.claim, EndClaim::Win);
    assert_eq!(r.players[1].round_result.as_deref(), Some("win"));
    assert_eq!(r.players[2].round_result.as_deref(), Some("teamWin"));
    assert_eq!(out.events.len(), 2);
    assert!(matches!(&out.events[0], RoomEvent::TeamWin { target, winner_name } if target == "s3" && winner_name == "bob"));
}

#[test]
fn a_synchronised_round_notes_who_is_done() {
    let mut r = hosted(vec![player("s1", "alice"), player("s2", "bob")]);
    let mut g = game();
    let mut s = GameSettings::default();
    s.sync_mode = true;
    g.settings = Some(s);
    g.guesses = vec![guessed("bob", 3)];
    r.current_game = Some(g);
    r.players[1].attempt_marks = vec!["wrong".to_string(), "correct".to_string()];
    let out = end_round_on_request(&mut r, "s2", "bigwin", 3).unwrap();
    assert_eq!(out.claim, EndClaim::Win);
    assert!(out.sync_mode);
    let g = r.current_game.as_ref().unwrap();
    assert!(g.sync_players_completed.contains("s2"));
    assert!(g.sync_winner_found);
    assert_eq!(g.sync_winner.as_ref().map(|w| w.is_big_win), Some(false));
}

fn guessed_by(pid: &str, name: &str, id: i64) -> PlayerGuessHistory {
    let mut h = guessed(name, id);
    h.guesses[0].player_id = pid.to_string();
    h
}

#[test]
fn a_non_stop_win_is_checked_then_scored() {
    let mut r = hosted(vec![player("s1", "alice"), player("s2", "bob"), player("s3", "cara")]);
    assert_eq!(claim_nonstop_win(&mut r, "s2", 1).err(), Some("房间不存在或游戏未开始"));
    let mut g = game();
    g.guesses = vec![guessed_by("s2", "bob", 3), guessed_by("s3", "cara", 8)];
    r.current_game = Some(g);
    assert_eq!(claim_nonstop_win(&mut r, "s9", 2).err(), Some("连接中断了"));
    assert_eq!(claim_nonstop_win(&mut r, "s3", 2).err(), Some("血战结算必须由服务端确认的正确猜测触发"));
    r.players[1].temp_observer = true;
    assert_eq!(claim_nonstop_win(&mut r, "s2", 2).err(), Some("旁观者无法猜测"));
    r.players[1].temp_observer = false;

    r.players[1].attempt_marks = vec!["correct".to_string()];
    let claim = claim_nonstop_win(&mut r, "s2", 3).unwrap().unwrap();
    assert!(claim.is_big_win && claim.events.is_empty() && !claim.sync_mode);
    assert_eq!(r.players[1].round_result.as_deref(), Some("bigWin"));
    assert_eq!(r.last_active, 3);

    assert!(record_nonstop_winner(&mut r, "s2", claim.is_big_win));
    assert_eq!(r.players[1].score, 13);
    let w = &r.current_game.as_ref().unwrap().nonstop_winners;
    assert_eq!(w.len(), 1);
    assert!(w[0].id == "s2" && w[0].is_big_win && w[0].score == 13 && w[0].bonuses.big_win == 12);

    assert!(claim_nonstop_win(&mut r, "s2", 4).unwrap().is_none());
    assert!(!record_nonstop_winner(&mut r, "s9", false));
}

#[test]
fn a_teammate_cannot_win_twice_in_non_stop() {
    let mut a = player("s2", "bob");
    a.team = Some("1".to_string());
    let mut b = player("s3", "cara");
    b.team = Some("1".to_string());
    let mut r = hosted(vec![player("s1", "alice"), a, b]);
    let mut g = game();
    g.guesses = vec![guessed_by("s2", "bob", 3), guessed_by("s3", "cara", 3)];
    r.current_game = Some(g);
    r.players[1].attempt_marks = vec!["wrong".to_string(), "correct".to_string()];
    let claim = claim_nonstop_win(&mut r, "s2", 1).unwrap().unwrap();
    assert!(!claim.is_big_win);
    assert_eq!(claim.events.len(), 2);
    assert_eq!(r.players[2].round_result.as_deref(), Some("teamWin"));
    assert!(record_nonstop_winner(&mut r, "s2", false));
    assert!(r.players[2].temp_observer);
    assert_eq!(claim_nonstop_win(&mut r, "s3", 2).err(), Some("旁观者无法猜测"));
    r.players[2].temp_observer = false;
    assert_eq!(claim_nonstop_win(&mut r, "s3", 2).err(), Some("你的队友已经猜对了，你无法继续猜测"));
}

#[test]
fn idle_rooms_without_a_game_are_closed() {
    let mut idle = room(vec![player("s1", "alice")]);
    idle.last_active = 0;
    let mut playing = room(vec![player("s2", "bob")]);
    playing.last_active = 0;
    playing.current_game = Some(game());
    let mut fresh = room(vec![player("s3", "cara")]);
    fresh.last_active = 200_000;
    let rooms = vec![("r1".to_string(), idle), ("r2".to_string(), playing), ("r3".to_string(), fresh)];
    let (ids, notices) = cleanup_tick(&rooms, 300_001);
    assert_eq!(ids, vec!["r1".to_string()]);
    assert_eq!(notices.len(), 2);
    assert!(matches!(&notices[0], CleanupNotice::RoomClosed { room_id, message } if room_id == "r1" && message == "房间因长时间无活动已关闭"));
    assert!(matches!(notices[1], CleanupNotice::LobbyRoomsUpdated));
    let (ids, notices) = cleanup_tick(&rooms, 300_000);
    assert!(ids.is_empty() && notices.is_empty());
}

#[test]
fn a_player_picks_a_team_before_getting_ready() {
    assert_eq!(parse_team_value(None), Ok(None));
    assert_eq!(parse_team_value(Some("")), Ok(None));
    assert_eq!(parse_team_value(Some("3")), Ok(Some("3".to_string())));
    assert_eq!(parse_team_value(Some("9")), Err("Invalid team value"));
    assert_eq!(parse_team_value(Some("12")), Err("Invalid team value"));
    let mut r = hosted(vec![player("s1", "alice"), player("s2", "bob")]);
    assert_eq!(change_team(&mut r, "s9", Some("1".to_string())), Ok(false));
    assert_eq!(change_team(&mut r, "s2", Some("2".to_string())), Ok(true));
    assert_eq!(r.players[1].team.as_deref(), Some("2"));
    r.players[1].ready = true;
    assert_eq!(change_team(&mut r, "s2", None), Err("已准备后不能切换队伍或旁观状态，请先取消准备"));
    assert_eq!(r.players[1].team.as_deref(), Some("2"));
}

#[test]
fn choosing_a_setter_makes_the_room_wait_and_the_setters_team_watch() {
    let mut b = player("s2", "bob");
    b.ready = true;
    b.team = Some("1".to_string());
    let mut c = player("s3", "cara");
    c.ready = true;
    c.team = Some("1".to_string());
    let mut d = player("s4", "dan");
    d.ready = true;
    d.temp_observer = true;
    let mut r = hosted(vec![player("s1", "alice"), b, c, d]);
    assert_eq!(choose_answer_setter(&mut r, "s2", "s3"), Err("只有房主可以选择出题人"));
    assert!(!r.waiting_for_answer);
    assert_eq!(choose_answer_setter(&mut r, "s1", "s2"), Ok("bob".to_string()));
    assert!(r.waiting_for_answer);
    assert_eq!(r.answer_setter_id.as_deref(), Some("s2"));
    assert!(!r.players[1].temp_observer && r.players[2].temp_observer && !r.players[3].temp_observer);
    assert_eq!(choose_answer_setter(&mut r, "s1", "s3"), Err("正在等待出题，不能重复指定出题人"));
}

#[test]
fn a_quick_join_draws_one_of_the_public_rooms() {
    assert_eq!(pick_quick_join_room(&Vec::new()), None);
    let ids = vec!["a".to_string(), "b".to_string(), "c".to_string()];
    for _ in 0..20 {
        let id = pick_quick_join_room(&ids).unwrap();
        assert!(ids.contains(&id));
    }
    assert_eq!(pick_quick_join_room(&vec!["only".to_string()]), Some("only".to_string()));
}
