use character_guessr::candidates::{characters_per_subject, sorted_unique_ids, top_n_limit, CandidateCacheKey};
use character_guessr::cache::{SearchCache, SEARCH_CACHE_MAX_ENTRIES};
use character_guessr::actor::{elapsed_micros_clamped, room_command_stats_total};
use character_guessr::limiter::{public_write_key, PublicWriteLimiter, PUBLIC_WRITE_WINDOW_MILLIS};
use character_guessr::records::{
    bug_report, config_from_values, non_empty, roulette_entry, parse_u16, stats_character_id, stats_character_name, LimitQuery,
    ScoreSubmission,
};
use character_guessr::feedback::{build_feedback, CharacterFacts};
use character_guessr::payload::{appearance_order, list_appearances, SubjectInfo, SubjectTag};
use character_guessr::settings::GameSettings;
use character_guessr::tally::{payload_parts, raw_tags_take};
use character_guessr::state::RoomCommandStats;
use character_guessr::web::parse_i64;

fn submission(user_id: &str, username: &str, score_delta: i64) -> ScoreSubmission {
    ScoreSubmission { user_id: user_id.to_string(), username: username.to_string(), score_delta }
}

#[test]
fn limiter_lets_through_up_to_the_limit() {
    let mut limiter = PublicWriteLimiter::new();
    assert!(limiter.enforce_public_write_limit("submit", "peer:1", 1_000, 2).is_ok());
    assert!(limiter.enforce_public_write_limit("submit", "peer:1", 2_000, 2).is_ok());
    let refused = limiter.enforce_public_write_limit("submit", "peer:1", 3_000, 2).unwrap_err();
    assert_eq!(refused.status, 429);
    assert_eq!(refused.message, "too many requests, please retry later");
    // Another client and another scope are counted apart.
    assert!(limiter.enforce_public_write_limit("submit", "peer:2", 3_000, 2).is_ok());
    assert!(limiter.enforce_public_write_limit("stats", "peer:1", 3_000, 2).is_ok());
    assert_eq!(limiter.key_count(), 3);
}

#[test]
fn limiter_forgets_requests_outside_the_window() {
    let mut limiter = PublicWriteLimiter::new();
    assert!(limiter.enforce_public_write_limit("s", "c", 0, 1).is_ok());
    assert!(limiter.enforce_public_write_limit("s", "c", PUBLIC_WRITE_WINDOW_MILLIS, 1).is_err());
    assert!(limiter.enforce_public_write_limit("s", "c", PUBLIC_WRITE_WINDOW_MILLIS + 1, 1).is_ok());
}

#[test]
fn limiter_with_zero_limit_refuses() {
    let mut limiter = PublicWriteLimiter::new();
    assert!(limiter.enforce_public_write_limit("s", "c", 5, 0).is_err());
    assert_eq!(limiter.key_count(), 1);
}

#[test]
fn limiter_prunes_idle_keys_over_the_key_limit() {
    let mut limiter = PublicWriteLimiter::new();
    for i in 0..4097u64 {
        assert!(limiter.enforce_public_write_limit("s", &format!("c{i}"), 0, 5).is_ok());
    }
    assert_eq!(limiter.key_count(), 4097);
    let later = PUBLIC_WRITE_WINDOW_MILLIS * 2;
    assert!(limiter.enforce_public_write_limit("s", "fresh", later, 5).is_ok());
    assert_eq!(limiter.key_count(), 1);
}

#[test]
fn write_keys_join_scope_and_client() {
    assert_eq!(public_write_key("leaderboard-submit", "peer:1.2.3.4"), "leaderboard-submit:peer:1.2.3.4");
}

#[test]
fn score_submissions_are_checked_in_order() {
    assert!(submission("u1", "alice", 10).validate().is_ok());
    assert!(submission("u1", "alice", -10_000).validate().is_ok());
    let e = submission("", "alice", 10).validate().unwrap_err();
    assert_eq!((e.status, e.message.as_str()), (400, "user_id is required"));
    let e = submission(&"x".repeat(129), "alice", 10).validate().unwrap_err();
    assert_eq!((e.status, e.message.as_str()), (413, "user_id is too long"));
    let e = submission("u1", &"y".repeat(81), 10).validate().unwrap_err();
    assert_eq!((e.status, e.message.as_str()), (413, "username is too long"));
    let e = submission("u1", "alice", 10_001).validate().unwrap_err();
    assert_eq!((e.status, e.message.as_str()), (400, "score_delta is out of range"));
}

#[test]
fn usage_counts_need_a_positive_character_id() {
    assert_eq!(stats_character_id(Some(7)).unwrap(), 7);
    let e = stats_character_id(None).unwrap_err();
    assert_eq!((e.status, e.message.as_str()), (400, "characterId must be a number"));
    let e = stats_character_id(Some(0)).unwrap_err();
    assert_eq!((e.status, e.message.as_str()), (400, "characterId must be positive"));
    assert_eq!(stats_character_name(Some("  Saber  ")), "Saber");
    assert_eq!(stats_character_name(None), "");
    assert_eq!(stats_character_name(Some("z".repeat(200).as_str())).chars().count(), 128);
}

#[test]
fn listing_limits() {
    assert_eq!(LimitQuery { limit: None }.rows(), 30);
    assert_eq!(LimitQuery { limit: Some(0) }.rows(), 1);
    assert_eq!(LimitQuery { limit: Some(500) }.rows(), 100);
    assert_eq!(LimitQuery { limit: Some(42) }.rows(), 42);
}

#[test]
fn integer_parsing_follows_the_documented_form() {
    assert_eq!(parse_i64("12"), Some(12));
    assert_eq!(parse_i64("+5"), Some(5));
    assert_eq!(parse_i64("-0"), Some(0));
    assert_eq!(parse_i64("-"), None);
    assert_eq!(parse_i64(""), None);
    assert_eq!(parse_i64(" 1"), None);
    assert_eq!(parse_i64("9223372036854775808"), None);
    assert_eq!(parse_u16("65535"), Some(65535));
    assert_eq!(parse_u16("65536"), None);
    assert_eq!(parse_u16("-1"), None);
}

#[test]
fn configuration_defaults_and_port_errors() {
    let c = config_from_values(None, None, None, None, None, None).ok().unwrap();
    assert_eq!(c.port, 3001);
    assert_eq!(c.archive_db_path, "../archive.sqlite");
    assert_eq!(c.app_db_path, "data/app.sqlite");
    assert_eq!(c.tantivy_index_dir, "data/tantivy");
    assert_eq!(c.image_cache_dir, "data/images");
    assert_eq!(c.client_url, "http://localhost:5173,http://localhost:3000,http://localhost");
    let c = config_from_values(Some("8080".to_string()), Some("a.db".to_string()), None, None, None, None)
        .ok()
        .unwrap();
    assert_eq!((c.port, c.archive_db_path.as_str()), (8080, "a.db"));
    assert_eq!(
        config_from_values(Some("http".to_string()), None, None, None, None, None).err().unwrap(),
        "PORT must be a valid u16"
    );
}

#[test]
fn optional_texts() {
    assert_eq!(non_empty(&"".to_string()), None);
    assert_eq!(non_empty(&"Saber".to_string()), Some("Saber".to_string()));
}

#[test]
fn command_counters() {
    let mut stats = RoomCommandStats::default();
    stats.record_queued();
    stats.record_queued();
    stats.finish_command(40);
    stats.finish_command(15);
    stats.record_rejected();
    assert_eq!((stats.queued, stats.processed, stats.rejected), (0, 2, 1));
    assert_eq!((stats.total_micros, stats.max_micros), (55, 40));
    let other = RoomCommandStats { queued: 3, processed: 1, rejected: 0, total_micros: 100, max_micros: 90 };
    let total = room_command_stats_total(&vec![stats, other]);
    assert_eq!((total.queued, total.processed, total.rejected), (3, 3, 1));
    assert_eq!((total.total_micros, total.max_micros), (155, 90));
    let empty = room_command_stats_total(&Vec::new());
    assert_eq!((empty.queued, empty.max_micros), (0, 0));
    assert_eq!(elapsed_micros_clamped(7), 7);
    assert_eq!(elapsed_micros_clamped(u128::MAX), u64::MAX);
}

fn strs(v: &[&str]) -> Vec<String> {
    v.iter().map(|x| x.to_string()).collect()
}

fn facts_pair() -> (CharacterFacts, CharacterFacts) {
    let guess = CharacterFacts {
        id: 1,
        appearances: strs(&["A", "B", "C"]),
        latest_appearance: 2010,
        earliest_appearance: 2000,
        meta_tags: strs(&["m1", "m2"]),
        raw_tags: strs(&["t1", "t2", "t3", "t4"]),
        character_tags: strs(&["c1", "c2"]),
        anime_vas: strs(&["v1", "v2"]),
    };
    let answer = CharacterFacts {
        id: 2,
        appearances: strs(&["B", "D"]),
        latest_appearance: 2012,
        earliest_appearance: -1,
        meta_tags: strs(&["m2"]),
        raw_tags: strs(&["t3", "t1"]),
        character_tags: strs(&["c2"]),
        anime_vas: strs(&["v2", "v3"]),
    };
    (guess, answer)
}

#[test]
fn feedback_with_common_tags() {
    let (guess, answer) = facts_pair();
    let mut settings = GameSettings::default();
    settings.common_tags = true;
    settings.subject_tag_num = 3;
    settings.character_tag_num = 1;
    let f = build_feedback(&guess, &answer, &settings);
    assert!(!f.is_correct);
    assert!(f.is_partial_correct);
    assert_eq!(f.shared_appearances, strs(&["B"]));
    assert_eq!(f.appearances_count, "+");
    assert_eq!(f.latest_appearance, "-");
    assert_eq!(f.earliest_appearance, "?");
    assert_eq!(f.meta_tags_guess, strs(&["t1", "t3", "t2", "c2", "v1", "v2"]));
    assert_eq!(f.meta_tags_shared, strs(&["t1", "t3", "c2", "v2"]));
}

#[test]
fn feedback_with_plain_meta_tags() {
    let (guess, answer) = facts_pair();
    let mut settings = GameSettings::default();
    settings.common_tags = false;
    let f = build_feedback(&guess, &answer, &settings);
    assert_eq!(f.meta_tags_guess, strs(&["m1", "m2"]));
    assert_eq!(f.meta_tags_shared, strs(&["m2"]));
    let same = build_feedback(&guess, &guess, &settings);
    assert!(same.is_correct);
    assert!(!same.is_partial_correct);
    assert_eq!(same.appearances_count, "=");
    assert_eq!(same.latest_appearance, "=");
}

fn tag(name: &str, count: i64) -> SubjectTag {
    SubjectTag { name: Some(name.to_string()), count }
}

fn work(id: i64, role: i64, stype: i64, year: i32, popularity: i64, name: &str, name_cn: &str, tags: Vec<SubjectTag>, meta: &[&str]) -> SubjectInfo {
    SubjectInfo {
        id,
        role,
        stype,
        year,
        popularity,
        name: name.to_string(),
        name_cn: name_cn.to_string(),
        tags,
        meta_tags: meta.iter().map(|m| Some(m.to_string())).collect(),
    }
}

fn works() -> Vec<SubjectInfo> {
    vec![
        work(10, 2, 2, 2005, 100, "A", "", vec![tag("原创动画", 10), tag("日常", 5), tag("2005", 9)], &["日本", "TV"]),
        work(11, 1, 2, 2010, 300, "B", "乙", vec![tag("日常", 2), tag("搞笑", 4)], &["原创", "搞笑"]),
        work(12, 1, 4, 2012, 500, "C", "", vec![tag("日常", 1)], &[]),
        work(13, 2, 2, 2030, 50, "D", "", vec![], &[]),
    ]
}

#[test]
fn appearances_count_anime_of_past_years_by_popularity() {
    let subjects = works();
    let settings = GameSettings::default();
    let order = appearance_order(&settings, &subjects, 2025);
    assert_eq!(order, vec![1, 0]);
    let a = list_appearances(&subjects, &order);
    assert_eq!(a.names, strs(&["乙", "A"]));
    assert_eq!(a.ids, vec![11, 10]);
    assert_eq!((a.latest, a.earliest), (2010, 2005));
    // With no work passing, every work counts.
    let mut games = GameSettings::default();
    games.meta_tags = strs(&["三次元"]);
    assert_eq!(appearance_order(&games, &subjects, 2025), vec![2, 1, 0, 3]);
}

#[test]
fn subject_filters_follow_the_source_aliases() {
    let subjects = works();
    let mut settings = GameSettings::default();
    settings.meta_tags = strs(&["", "原创"]);
    assert!(settings.matches_subject(&subjects[0]));
    assert!(!settings.matches_subject(&subjects[1]));
    settings.meta_tags = strs(&["", "", "TV"]);
    assert!(settings.matches_subject(&subjects[0]));
    assert!(!settings.matches_subject(&subjects[1]));
}

#[test]
fn common_tag_counts_merge_the_top_source() {
    let subjects = works();
    let settings = GameSettings::default();
    let parts = payload_parts(&settings, &subjects, 2025);
    assert_eq!(parts.order, vec![1, 0]);
    let raw: Vec<(String, i64)> = parts.raw_tags.clone();
    assert_eq!(raw, vec![("搞笑".to_string(), 12), ("日常".to_string(), 11), ("原创".to_string(), 10)]);
    assert!(parts.meta_tags.is_empty());
    assert_eq!(raw_tags_take(&raw, 11, 1), 2);
    assert_eq!(raw_tags_take(&raw, 11, 3), 3);
    assert_eq!(raw_tags_take(&raw, 1, 0), 3);
}

#[test]
fn meta_tags_take_source_meta_then_regions() {
    let subjects = works();
    let mut settings = GameSettings::default();
    settings.common_tags = false;
    settings.subject_tag_num = 2;
    let parts = payload_parts(&settings, &subjects, 2025);
    assert_eq!(parts.meta_tags, strs(&["原创", "搞笑", "日本"]));
    assert!(parts.raw_tags.is_empty());
}

#[test]
fn candidate_keys_normalise_the_settings() {
    let mut settings = GameSettings::default();
    settings.added_subject_ids = vec![5, 3, 5, 1];
    settings.top_n_subjects = Some(5000);
    settings.character_num = 80;
    let key = CandidateCacheKey::from_settings(&settings);
    assert_eq!(key.added_subject_ids, vec![1, 3, 5]);
    assert_eq!(key.top_n_subjects, Some(3000));
    assert_eq!(key.character_num, 50);
    assert_eq!(top_n_limit(Some(0)), None);
    assert_eq!(top_n_limit(Some(20)), Some(20));
    assert_eq!(characters_per_subject(0), 1);
    assert_eq!(sorted_unique_ids(&vec![]), Vec::<i64>::new());
}

#[test]
fn subject_filters_as_sql() {
    let mut settings = GameSettings::default();
    settings.meta_tags = strs(&["动画", "漫画改", "搞笑"]);
    assert_eq!(settings.subject_filter_values(), strs(&["动画", "漫画改", "漫改", "漫画改编", "搞笑", "搞笑"]));
    let sql = settings.subject_filter_sql();
    assert!(sql.starts_with(" AND EXISTS ("));
    assert!(sql.contains("IN (?,?,?)"));
    assert_eq!(sql.matches(" AND ").count(), 3);
    settings.meta_tags = strs(&["全部"]);
    assert_eq!(settings.subject_filter_sql(), "");
    assert!(settings.subject_filter_values().is_empty());
}

#[test]
fn bug_reports_are_checked_and_cut() {
    let r = bug_report(None, Some("  crash on join "), "l", "e", &"d".repeat(70_000)).ok().unwrap();
    assert_eq!(r.bug_type, "unknown");
    assert_eq!(r.description, "crash on join");
    assert_eq!((r.logs.as_str(), r.errors.as_str()), ("l", "e"));
    assert_eq!(r.diagnostic_data.chars().count(), 60_000);
    let e = bug_report(Some("ui"), Some("   "), "", "", "").err().unwrap();
    assert_eq!((e.status, e.message.as_str()), (400, "description is required"));
    let e = bug_report(Some(&"t".repeat(65)), Some("x"), "", "", "").err().unwrap();
    assert_eq!((e.status, e.message.as_str()), (413, "bugType is too long"));
    let e = bug_report(Some("ui"), Some(&"x".repeat(4_001)), "", "", "").err().unwrap();
    assert_eq!((e.status, e.message.as_str()), (413, "description is too long"));
}

#[test]
fn roulette_previews() {
    let a = roulette_entry(7, "json", " ", "http://g/7.jpg");
    assert_eq!((a.tier, a.image_medium.as_str(), a.image_grid.as_str()), ("A", "http://g/7.jpg", "/img/7.webp"));
    let b = roulette_entry(8, "bgm", "http://m/8.jpg", "");
    assert_eq!((b.tier, b.image_medium.as_str()), ("B", "http://m/8.jpg"));
    let c = roulette_entry(9, "bgm", "", "");
    assert_eq!(c.image_medium, "/img/9.webp");
}

#[test]
fn search_cache_expires_and_evicts_oldest() {
    let mut cache: SearchCache<String> = SearchCache::new();
    cache.put("a".to_string(), "A".to_string(), 0);
    cache.put("b".to_string(), "B".to_string(), 10);
    assert_eq!(cache.get("a", 59_999).cloned(), Some("A".to_string()));
    assert_eq!(cache.get("a", 60_000), None);
    assert_eq!(cache.entries.keys.len(), 1);
    assert_eq!(cache.get("b", 60_000).cloned(), Some("B".to_string()));
    // Putting at a later time first drops what expired at the front.
    cache.put("c".to_string(), "C".to_string(), 70_000);
    assert_eq!(cache.order, vec!["c".to_string()]);
    // Over the size, the oldest go first.
    let mut big: SearchCache<u32> = SearchCache::new();
    for i in 0..257u32 {
        big.put(format!("k{i}"), i, 1);
    }
    assert_eq!(big.entries.keys.len(), SEARCH_CACHE_MAX_ENTRIES);
    assert_eq!(big.get("k0", 2), None);
    assert_eq!(big.get("k1", 2).copied(), Some(1));
    assert_eq!(big.order.first().map(|s| s.as_str()), Some("k1"));
}
