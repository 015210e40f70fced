use character_guessr::catalog::{compare_count, compare_year, push_unique, source_aliases};
use character_guessr::infobox::{
    cjk_sub_terms, collect_alias_block, expanded_tantivy_search_terms, extract_infobox_field, infobox_aliases, is_cjk,
    normalize_alias_type, parse_character_infobox, parse_year, push_alias, search_tokens, AliasEntry,
};
use character_guessr::search::{
    character_relevance_bucket, fts_query_with_char_fallback, merge_subject_rows, normalize_search_keyword,
    sanitize_query, subject_fts_query, subject_relevance_bucket,
};
use character_guessr::settings::{AddedSubject, GameSettings};
use character_guessr::web::{
    choose_image_source, image_cache_key, image_proxy_url, normalize_client_key, normalize_limit, positive_query_id,
    truncate_chars, validate_chars, ImageKind, ImageVariant,
};

const INFOBOX: &str = "{{Infobox Crt\n|简体中文名= 阿尔托莉雅 \n|别名={\n[英文名|Saber]\n[罗马字|Arutoria]\n[Altria]\n}\n|性别= 女\n}}";

fn s(v: &[&str]) -> Vec<String> {
    v.iter().map(|x| x.to_string()).collect()
}

#[test]
fn truncation_and_length_checks() {
    assert_eq!(truncate_chars("東京タワー", 2), "東京");
    assert_eq!(truncate_chars("abc", 5), "abc");
    assert!(validate_chars("abc", "name", 3).is_ok());
    let e = validate_chars("abcd", "name", 3).unwrap_err();
    assert_eq!(e.status, 413);
    assert_eq!(e.message, "name is too long");
}

#[test]
fn client_keys_keep_the_first_address() {
    assert_eq!(normalize_client_key("  1.2.3.4 , 5.6.7.8", "ip"), "ip:1.2.3.4");
    assert_eq!(normalize_client_key("", "ip"), "ip:unknown");
    assert_eq!(normalize_client_key("a b!", "ip"), "ip:ab");
    let long = "x".repeat(100);
    assert_eq!(normalize_client_key(&long, "k"), format!("k:{}", "x".repeat(80)));
}

#[test]
fn image_paths_and_sources() {
    assert_eq!(image_cache_key(ImageKind::Character, ImageVariant::Grid, 5), "5");
    assert_eq!(image_cache_key(ImageKind::Character, ImageVariant::Medium, 5), "m:5");
    assert_eq!(image_cache_key(ImageKind::Subject, ImageVariant::Medium, 5), "sm:5");
    assert_eq!(image_proxy_url(ImageKind::Subject, ImageVariant::Medium, 7), "/img/subject/medium/7.webp");
    assert_eq!(image_proxy_url(ImageKind::Character, ImageVariant::Grid, 7), "/img/7.webp");
    assert_eq!(choose_image_source(" m ".to_string(), "  ".to_string(), ImageVariant::Grid), Some("m".to_string()));
    assert_eq!(choose_image_source("".to_string(), "".to_string(), ImageVariant::Medium), None);
    assert!(ImageVariant::from_query(Some("medium")) == ImageVariant::Medium);
    assert_eq!(ImageVariant::from_query(None).as_str(), "grid");
}

#[test]
fn query_limits_and_ids() {
    assert_eq!(normalize_limit(None), 30);
    assert_eq!(normalize_limit(Some(0)), 1);
    assert_eq!(normalize_limit(Some(500)), 100);
    assert_eq!(positive_query_id(Some("12"), "id"), Ok(12));
    assert_eq!(positive_query_id(Some("-3"), "id"), Err("id must be a positive number".to_string()));
    assert_eq!(positive_query_id(None, "subjectId"), Err("subjectId must be a positive number".to_string()));
}

#[test]
fn public_bounds_are_applied() {
    let mut settings = GameSettings::default();
    settings.start_year = Some(2050);
    settings.end_year = Some(1700);
    settings.meta_tags = s(&["  动画 ", "", &"x".repeat(60), "", ""]);
    settings.max_attempts = 0;
    settings.time_limit = Some(5);
    settings.use_hints = vec![3, -1, 0, 5];
    settings.added_subjects = vec![
        AddedSubject { id: 5, name: " A ".to_string(), name_cn: String::new(), type_json: None },
        AddedSubject { id: -1, name: "B".to_string(), name_cn: String::new(), type_json: None },
        AddedSubject { id: 5, name: "C".to_string(), name_cn: String::new(), type_json: None },
        AddedSubject { id: 2, name: "D".to_string(), name_cn: String::new(), type_json: None },
    ];
    settings.added_subject_ids = vec![9, 2, 0];
    settings.normalize_public_bounds();
    assert_eq!(settings.start_year, Some(1800));
    assert_eq!(settings.end_year, Some(2038));
    assert_eq!(settings.meta_tags, s(&["动画", "", &"x".repeat(48)]));
    assert_eq!(settings.max_attempts, 1);
    assert_eq!(settings.time_limit, Some(15));
    assert_eq!(settings.use_hints, vec![3, 5]);
    assert_eq!(settings.added_subjects.len(), 2);
    assert_eq!(settings.added_subjects[0].name, "A");
    assert_eq!(settings.added_subjects[1].id, 2);
    assert_eq!(settings.added_subject_ids, vec![2, 5, 9]);
}

#[test]
fn meta_tags_choose_the_subjects() {
    let mut settings = GameSettings::default();
    assert_eq!(settings.subject_types(), vec![2]);
    assert_eq!(settings.primary_meta_filter(), None);
    settings.meta_tags = s(&["全部", "漫画改", ""]);
    assert_eq!(settings.subject_types(), vec![1, 2, 4, 6]);
    assert_eq!(settings.source_filter(), Some("漫画改"));
    assert_eq!(settings.genre_filter(), None);
    settings.meta_tags = s(&["热血"]);
    assert_eq!(settings.primary_meta_filter(), Some("热血"));
    assert_eq!(source_aliases("漫画改"), s(&["漫画改", "漫改", "漫画改编"]));
    assert_eq!(source_aliases("其他"), s(&["其他"]));
}

#[test]
fn counts_and_years_compare() {
    assert_eq!(compare_count(5, 5), "=");
    assert_eq!(compare_count(7, 5), "+");
    assert_eq!(compare_count(9, 5), "++");
    assert_eq!(compare_count(4, 5), "-");
    assert_eq!(compare_count(1, 5), "--");
    assert_eq!(compare_year(-1, -1), "=");
    assert_eq!(compare_year(-1, 2000), "?");
    assert_eq!(compare_year(2001, 2000), "+");
    let mut target = s(&["a"]);
    push_unique(&mut target, s(&["b", "a", "b"]));
    assert_eq!(target, s(&["a", "b"]));
}

#[test]
fn names_split_into_search_terms() {
    assert_eq!(search_tokens("Saber / 阿尔托莉雅·潘德拉贡 (Fate)"), s(&["Saber", "阿尔托莉雅", "潘德拉贡", "Fate"]));
    assert_eq!(cjk_sub_terms("东京塔"), s(&["东京", "东京塔", "京塔", "京塔"]));
    assert!(cjk_sub_terms("ab").is_empty());
    assert!(cjk_sub_terms("东").is_empty());
    assert!(is_cjk('京'));
    assert!(!is_cjk('a'));
    assert_eq!(expanded_tantivy_search_terms(&vec!["Saber", "东京塔"]), "Saber 东京 东京塔 京塔");
}

#[test]
fn infobox_fields_and_aliases() {
    assert_eq!(extract_infobox_field(INFOBOX, "简体中文名"), Some("阿尔托莉雅".to_string()));
    assert_eq!(extract_infobox_field(INFOBOX, "性别"), Some("女".to_string()));
    assert_eq!(extract_infobox_field(INFOBOX, "生日"), None);
    assert_eq!(infobox_aliases(INFOBOX), "Saber Arutoria Altria");
    assert_eq!(infobox_aliases("no aliases"), "");
    let mut aliases: Vec<AliasEntry> = Vec::new();
    collect_alias_block(INFOBOX, &mut aliases);
    assert_eq!(aliases.len(), 3);
    assert_eq!(aliases[0].value, "Saber");
    assert_eq!(aliases[0].alias_type, "en");
    assert_eq!(aliases[2].alias_type, "unkeyed");
    assert_eq!(normalize_alias_type("昵称"), ("nickname", 50));
    assert_eq!(normalize_alias_type("whatever"), ("other", 90));
    push_alias(&mut aliases, " Saber ", "en", 30);
    assert_eq!(aliases.len(), 3);
    push_alias(&mut aliases, "  ", "en", 30);
    assert_eq!(aliases.len(), 3);
}

#[test]
fn character_infobox_is_parsed() {
    let parsed = parse_character_infobox(INFOBOX);
    assert_eq!(parsed.name_cn, Some("阿尔托莉雅".to_string()));
    assert_eq!(parsed.name_en, Some("Saber".to_string()));
    assert_eq!(parsed.romaji, Some("Arutoria".to_string()));
    assert_eq!(parsed.gender, "female");
    assert_eq!(parsed.aliases.len(), 4);
    assert_eq!(parsed.aliases[3].alias_type, "cn");
    assert_eq!(parsed.aliases[3].priority, 10);
    assert_eq!(parse_year("2004-01-30"), 2004);
    assert_eq!(parse_year("unknown"), -1);
}

#[test]
fn keywords_are_cleaned_for_full_text_search() {
    assert_eq!(sanitize_query("  a\"b:c(d) "), "abcd");
    assert_eq!(normalize_search_keyword(&"y".repeat(70)), "y".repeat(64));
    assert_eq!(subject_fts_query("hello world-2"), "hello* AND world* AND 2*");
    assert_eq!(subject_fts_query("  "), "");
    assert_eq!(fts_query_with_char_fallback("东京 塔"), "东京* AND 塔*");
}

#[test]
fn fallback_rows_fill_up_to_the_limit() {
    let row = |id: i64| (id, 2, format!("n{}", id), String::new(), String::new());
    let mut rows = vec![row(1)];
    merge_subject_rows(&mut rows, vec![row(1), row(2), row(3)], 2);
    assert_eq!(rows.len(), 2);
    assert_eq!(rows[1].0, 2);
}

#[test]
fn search_results_are_ranked() {
    assert_eq!(character_relevance_bucket("Saber", "阿尔托莉雅", "Altria Pendragon", "Altria", "aruto", "Altria"), 2);
    assert_eq!(character_relevance_bucket("Saber", "阿尔托莉雅", "", "", "", " Saber "), 0);
    assert_eq!(character_relevance_bucket("Saber", "", "", "", "", "Sab"), 1);
    assert_eq!(character_relevance_bucket("Saber", "", "AltriaPendragon", "", "", "Pendra"), 3);
    assert_eq!(character_relevance_bucket("Saber", "", "", "", "", "  "), 9);
    assert_eq!(subject_relevance_bucket("Fate/stay night", "命运之夜", "stay"), 2);
    assert_eq!(subject_relevance_bucket("Fate/stay night", "命运之夜", "zzz"), 3);
}

#[test]
fn player_names_compare_without_case_or_spaces() {
    use_canonical();
}

fn use_canonical() {
    let a = character_guessr::state::canonical_username("  Alice ");
    let b = character_guessr::state::canonical_username("alice");
    assert_eq!(a, "alice");
    assert_eq!(a, b);
    assert_eq!(character_guessr::state::canonical_username("ÄBC"), "äbc");
}
