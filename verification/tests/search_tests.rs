use character_guessr::images::{cached_image_file_name, image_body_accepted, webp_cache_entry, MAX_IMAGE_BYTES};
use character_guessr::ranking::{rank_character_hits, rank_subject_hits, CharacterHit, SubjectHit};
use character_guessr::search_request::{character_search_request, subject_search_request};

fn png_bytes() -> Vec<u8> {
    let img = image::RgbImage::from_pixel(2, 2, image::Rgb([10, 200, 30]));
    let mut out = std::io::Cursor::new(Vec::new());
    image::DynamicImage::ImageRgb8(img).write_to(&mut out, image::ImageFormat::Png).unwrap();
    out.into_inner()
}

#[test]
fn image_bodies_up_to_five_megabytes_are_kept() {
    assert_eq!(MAX_IMAGE_BYTES, 5 * 1024 * 1024);
    assert!(image_body_accepted(5 * 1024 * 1024));
    assert!(!image_body_accepted(5 * 1024 * 1024 + 1));
}

#[test]
fn cached_images_are_named_after_their_key() {
    assert_eq!(cached_image_file_name("data/images", "s:123"), "data/images/s_123.webp");
    assert_eq!(cached_image_file_name("img", "77"), "img/77.webp");
}

#[test]
fn a_downloaded_image_becomes_webp() {
    let png = png_bytes();
    let (path, webp) = webp_cache_entry("img", "s:5", &png).unwrap();
    assert_eq!(path, "img/s_5.webp");
    assert_ne!(webp, png);
    assert_eq!(&webp[0..4], b"RIFF");
    assert_eq!(&webp[8..12], b"WEBP");
    assert!(webp_cache_entry("img", "5", b"not an image").is_none());
    let big = vec![0u8; 5 * 1024 * 1024 + 1];
    assert!(webp_cache_entry("img", "5", &big).is_none());
}

fn character(name: &str, aliases: &str, popularity: u64, score_key: u64) -> CharacterHit {
    CharacterHit {
        name: name.to_string(),
        name_cn: String::new(),
        aliases: aliases.to_string(),
        name_en: String::new(),
        romaji: String::new(),
        popularity,
        score_key,
    }
}

#[test]
fn characters_rank_by_match_then_score_then_popularity() {
    let hits = vec![
        character("Sakura Haruno", "", 5, 9),
        character("Ino", "Sakura fan", 50, 9),
        character("Sakura", "", 1, 1),
        character("Sakuraba", "", 3, 4),
        character("Sakura Kinomoto", "", 9, 4),
        character("Tomoyo", "friend of Sakura", 70, 9),
    ];
    let all = rank_character_hits(&hits, "Sakura", 0, 10);
    assert_eq!(all, vec![2, 0, 4, 3, 5, 1]);
    assert_eq!(rank_character_hits(&hits, "Sakura", 1, 2), vec![0, 4]);
    assert_eq!(rank_character_hits(&hits, "Sakura", 6, 2), Vec::<usize>::new());
    let equal = vec![character("A", "", 1, 1), character("B", "", 1, 1)];
    assert_eq!(rank_character_hits(&equal, "zzz", 0, 5), vec![0, 1]);
}

fn subject(name: &str, subject_type: i64, popularity: u64, score_key: u64) -> SubjectHit {
    SubjectHit { name: name.to_string(), name_cn: String::new(), subject_type, popularity, score_key }
}

#[test]
fn subjects_of_other_kinds_are_left_out() {
    let hits = vec![
        subject("Clannad After Story", 2, 10, 5),
        subject("Clannad", 4, 1, 1),
        subject("Clannad", 1, 99, 9),
        subject("My Clannad", 2, 3, 7),
    ];
    assert_eq!(rank_subject_hits(&hits, "Clannad", &vec![2, 4], 10), vec![1, 0, 3]);
    assert_eq!(rank_subject_hits(&hits, "Clannad", &vec![2, 4], 2), vec![1, 0]);
    assert_eq!(rank_subject_hits(&hits, "Clannad", &vec![1], 10), vec![2]);
}

#[test]
fn a_character_search_request_is_read_with_its_defaults() {
    assert!(character_search_request(None, None, None).is_none());
    assert!(character_search_request(Some("   "), None, None).is_none());
    assert!(character_search_request(Some("\"()\""), None, None).is_none());
    assert!(character_search_request(Some("sakura"), None, Some("101")).is_none());
    let q = character_search_request(Some("  sa:kura "), Some("99"), Some("100")).unwrap();
    assert_eq!((q.keyword.as_str(), q.limit, q.offset), ("sakura", 50, 100));
    let q = character_search_request(Some("sakura"), Some("x"), Some("-1")).unwrap();
    assert_eq!((q.limit, q.offset), (10, 0));
    let q = character_search_request(Some("sakura"), Some("7"), None).unwrap();
    assert_eq!(q.limit, 7);
}

#[test]
fn a_subject_search_request_sorts_its_kinds() {
    assert!(subject_search_request(Some(""), None, None).is_none());
    let q = subject_search_request(Some("clannad"), None, None).unwrap();
    assert_eq!((q.keyword.as_str(), q.limit, q.types.clone()), ("clannad", 10, vec![2, 4]));
    let q = subject_search_request(Some("clannad"), Some("3"), Some("6, 1,x,6,")).unwrap();
    assert_eq!((q.limit, q.types.clone()), (3, vec![1, 6]));
    let q = subject_search_request(Some("clannad"), None, Some("x,y")).unwrap();
    assert_eq!(q.types, vec![2, 4]);
}
