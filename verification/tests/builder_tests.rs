use character_guessr::archive_dump::{kept_relations, kept_subjects};
use character_guessr::dump::{image_sources_from_json, image_sources_from_lines};
use character_guessr::dump::{character_voice_actors, seiyu_of, DumpLineError, PersonRow};
use character_guessr::builder::{
    character_popularity, keep_character, keep_relation, keep_subject, parse_builder_args, subject_collects,
    ArgsOutcome, FavoriteCounts, DEFAULT_DB_PATH, DEFAULT_DUMP_DIR,
};

fn args(v: &[&str]) -> Vec<String> {
    v.iter().map(|s| s.to_string()).collect()
}

fn run(v: &[&str]) -> character_guessr::builder::BuilderArgs {
    match parse_builder_args(&args(v)) {
        Ok(ArgsOutcome::Run(a)) => a,
        _ => panic!("expected settings"),
    }
}

#[test]
fn builder_defaults_and_options() {
    let a = run(&[]);
    assert_eq!(a.mode, "build-archive");
    assert_eq!(a.dump_dir, DEFAULT_DUMP_DIR);
    assert_eq!(a.out_db, DEFAULT_DB_PATH);
    let a = run(&["-m", "rebuild-fts", "--app-db", "app.db", "--images-json", "img.jsonl", "--tantivy-dir", "t"]);
    assert_eq!((a.mode.as_str(), a.app_db.as_str(), a.images_path.as_str(), a.tantivy_index_dir.as_str()),
        ("rebuild-fts", "app.db", "img.jsonl", "t"));
    let a = run(&["dump", "out.sqlite"]);
    assert_eq!((a.dump_dir.as_str(), a.out_db.as_str()), ("dump", "out.sqlite"));
    let a = run(&["-d", "d1", "pos"]);
    assert_eq!((a.dump_dir.as_str(), a.out_db.as_str()), ("d1", "pos"));
}

#[test]
fn builder_help_and_errors() {
    assert!(matches!(parse_builder_args(&args(&["x", "--help", "--bogus"])), Ok(ArgsOutcome::Help)));
    assert_eq!(parse_builder_args(&args(&["--out"])).err().unwrap(), "--out requires a value");
    assert_eq!(parse_builder_args(&args(&["-m"])).err().unwrap(), "--mode requires a value");
    assert_eq!(parse_builder_args(&args(&["--bogus"])).err().unwrap(), "Unknown option: --bogus");
    assert_eq!(parse_builder_args(&args(&["a", "b", "c"])).err().unwrap(), "Unexpected extra argument: c");
}

#[test]
fn dump_records_kept() {
    let f = FavoriteCounts { wish: 10, done: 60, doing: 20, on_hold: 5, dropped: 5 };
    assert_eq!(subject_collects(&f), 100);
    assert!(keep_subject(2, false, 0, 100));
    assert!(!keep_subject(2, false, 0, 99));
    assert!(keep_subject(2, false, 3, 0));
    assert!(keep_subject(4, false, 0, 50));
    assert!(!keep_subject(4, true, 10, 500));
    assert!(!keep_subject(1, false, 10, 500));
    assert!(keep_relation(true, 2));
    assert!(!keep_relation(true, 3));
    assert!(!keep_relation(false, 1));
    assert!(keep_character(true, 1));
    assert!(!keep_character(true, 0));
    assert_eq!(character_popularity(7, 3), 10);
}

fn lines(v: &[&str]) -> Vec<String> {
    v.iter().map(|s| s.to_string()).collect()
}

#[test]
fn a_voice_actor_has_the_seiyu_career_and_a_name() {
    let row = |id: Option<i64>, careers: Option<Vec<Option<&str>>>, name: Option<&str>| PersonRow {
        id,
        careers: careers.map(|c| c.into_iter().map(|x| x.map(|s| s.to_string())).collect()),
        name: name.map(|s| s.to_string()),
    };
    assert_eq!(seiyu_of(&row(Some(4), Some(vec![Some("artist"), Some("seiyu")]), Some("  Kana  "))), Some((4, "Kana".to_string())));
    assert_eq!(seiyu_of(&row(Some(4), Some(vec![Some("artist")]), Some("Kana"))), None);
    assert_eq!(seiyu_of(&row(Some(4), None, Some("Kana"))), None);
    assert_eq!(seiyu_of(&row(Some(4), Some(vec![None, Some("seiyu")]), Some("   "))), None);
    assert_eq!(seiyu_of(&row(None, Some(vec![Some("seiyu")]), Some("Kana"))), None);
}

#[test]
fn voice_actors_come_from_the_dump_lines() {
    let persons = lines(&[
        r#"{"id":1,"name":" Aoi ","career":["seiyu"]}"#,
        "",
        r#"{"id":2,"name":"Ben","career":["writer"]}"#,
        r#"{"id":3,"name":"Cho","career":["seiyu","artist"]}"#,
        r#"{"id":1,"name":"Aoi Y","career":["seiyu"]}"#,
    ]);
    let links = lines(&[
        r#"{"type":0,"subject_id":10,"character_id":100,"person_id":1}"#,
        r#"{"type":0,"subject_id":10,"character_id":100,"person_id":1}"#,
        r#"{"type":1,"subject_id":10,"character_id":100,"person_id":3}"#,
        r#"{"type":0,"subject_id":10,"character_id":100,"person_id":2}"#,
        r#"{"type":0,"subject_id":99,"character_id":100,"person_id":3}"#,
        "   ",
        r#"{"type":0,"subject_id":10,"character_id":200,"person_id":3}"#,
        r#"{"type":0,"subject_id":10,"character_id":300,"person_id":3}"#,
        r#"{"type":0,"subject_id":10,"character_id":100,"person_id":3}"#,
    ]);
    let out = character_voice_actors(&persons, &links, &vec![10], &vec![100, 200]).unwrap();
    assert_eq!(out, vec![
        (100, vec!["Aoi Y".to_string(), "Cho".to_string()]),
        (200, vec!["Cho".to_string()]),
    ]);
    let many: Vec<String> = (1..=10)
        .map(|k| format!(r#"{{"id":{},"name":"V{}","career":["seiyu"]}}"#, k, k))
        .collect();
    let many_links: Vec<String> = (1..=10)
        .map(|k| format!(r#"{{"type":0,"subject_id":10,"character_id":100,"person_id":{}}}"#, k))
        .collect();
    let out = character_voice_actors(&many, &many_links, &vec![10], &vec![100]).unwrap();
    assert_eq!(out[0].1.len(), 8);
    assert_eq!(out[0].1[7], "V8");
}

#[test]
fn a_line_that_is_not_json_stops_the_reading() {
    let persons = lines(&[r#"{"id":1,"name":"Aoi","career":["seiyu"]}"#, "{not json", "also bad"]);
    assert_eq!(character_voice_actors(&persons, &Vec::new(), &vec![], &vec![]), Err(DumpLineError::PersonLine(1)));
    let persons = lines(&[r#"{"id":1,"name":"Aoi","career":["seiyu"]}"#]);
    let links = lines(&["", r#"{"type":0}"#, "oops"]);
    assert_eq!(character_voice_actors(&persons, &links, &vec![], &vec![]), Err(DumpLineError::LinkLine(2)));
}

#[test]
fn kept_works_come_from_the_work_lines() {
    let work = lines(&[
        r#"{"id":1,"type":2,"nsfw":false,"rank":0,"favorite":{"wish":50,"done":40,"doing":10,"on_hold":0,"dropped":0},"name":"A","name_cn":"甲","date":"2004-10-02","score":7.5,"tags":[{"name":"x"}]}"#,
        r#"{"id":2,"type":2,"favorite":{"wish":5},"name":"B"}"#,
        "",
        r#"{"id":3,"type":4,"rank":12,"name":"C","date":"unknown"}"#,
        r#"{"id":4,"type":4,"nsfw":true,"rank":12}"#,
        r#"{"id":5,"type":1,"rank":3}"#,
    ]);
    let kept = kept_subjects(&work).unwrap();
    assert_eq!(kept.len(), 2);
    assert_eq!((kept[0].id, kept[0].type_id, kept[0].collects, kept[0].year), (1, 2, 100, 2004));
    assert_eq!(kept[0].name_cn, "甲");
    assert_eq!(kept[0].score.as_deref(), Some("7.5"));
    assert_eq!(kept[0].tags_json, r#"[{"name":"x"}]"#);
    assert_eq!(kept[0].meta_tags_json, "[]");
    assert_eq!((kept[1].id, kept[1].year, kept[1].collects), (3, -1, 0));
    assert_eq!(kept[1].date, "unknown");
    assert_eq!(kept[1].score, None);
    assert_eq!(kept_subjects(&lines(&["{", "x"])).err(), Some(0));
}

#[test]
fn kept_roles_are_main_or_supporting_roles_of_kept_works() {
    let roles = lines(&[
        r#"{"subject_id":1,"character_id":10,"type":1,"order":0}"#,
        r#"{"subject_id":1,"character_id":11,"type":3,"order":1}"#,
        r#"{"subject_id":9,"character_id":12,"type":2,"order":2}"#,
        r#"{"subject_id":1,"character_id":13,"type":2}"#,
    ]);
    let kept = kept_relations(&roles, &vec![1]).unwrap();
    let got: Vec<(i64, i64, i64, i64)> = kept.iter().map(|r| (r.subject_id, r.character_id, r.role_type, r.order)).collect();
    assert_eq!(got, vec![(1, 10, 1, 0), (1, 13, 2, 0)]);
    assert_eq!(kept_relations(&lines(&["", "nope"]), &vec![1]).err(), Some(1));
}

#[test]
fn image_sources_keep_kept_characters_with_an_image() {
    let ls = lines(&[
        r#" {"id":100,"image_medium":[" https://m/100.jpg "],"image_grid":["https://g/100.jpg"]} "#,
        r#"{"id":200,"image_medium":["https://m/200.jpg"]}"#,
        r#"{"id":100,"image_medium":[],"image_grid":[""]}"#,
        "   ",
    ]);
    let got = image_sources_from_lines(&ls, &vec![100]).unwrap();
    assert_eq!(got.len(), 1);
    assert_eq!((got[0].character_id, got[0].medium.as_str(), got[0].grid.as_str()), (100, "https://m/100.jpg", "https://g/100.jpg"));
    assert_eq!(image_sources_from_lines(&lines(&["{bad"]), &vec![100]).err(), Some(0));
    let json = r#"[{"id":100,"image_grid":["g"]},{"id":7,"image_grid":["h"]}]"#;
    let got = image_sources_from_json(json, &vec![100, 7]).unwrap();
    assert_eq!(got.iter().map(|s| s.character_id).collect::<Vec<_>>(), vec![100, 7]);
    assert_eq!(image_sources_from_json(r#"{"id":1}"#, &vec![1]).unwrap().len(), 0);
    assert!(image_sources_from_json("not json", &vec![1]).is_none());
}
