//! The records of the HTTP API: leaderboard rows and score submissions, usage counts of
//! characters, search documents, listing limits, and the server's configuration.
use vstd::prelude::*;
use crate::text::{append_text, chars_of, integer_text_value, trim, trim_spec};
use crate::web::{GuardRejection, normalize_limit, truncate_chars};

verus! {

/// Submissions of scores per client and minute.
pub const LEADERBOARD_SUBMIT_LIMIT_PER_MINUTE: usize = 20;
/// The longest user id accepted, in characters.
pub const MAX_USER_ID_CHARS: usize = 128;
/// The longest user name accepted, in characters.
pub const MAX_USERNAME_CHARS: usize = 80;
/// The largest change of score one game may submit, either way.
pub const MAX_SCORE_DELTA_ABS: i64 = 10_000;
/// Writes of usage counts per client and minute.
pub const STATS_WRITE_LIMIT_PER_MINUTE: usize = 120;
/// The longest character name stored with a usage count, in characters.
pub const MAX_CHARACTER_NAME_CHARS: usize = 128;

/// A row of the leaderboard.
pub struct LeaderboardEntry {
    pub user_id: String,
    pub username: String,
    pub score: i64,
    pub games_played: i64,
    pub rank: i64,
}

/// A player's score change from one finished game.
pub struct ScoreSubmission {
    pub user_id: String,
    pub username: String,
    /// The score earned this game (may be negative).
    pub score_delta: i64,
}

/// A rejection with `status` and the message `message`.
fn rejection(status: u16, message: &str) -> (r: GuardRejection)
    ensures
        r.status == status,
        r.message@ == message@,
{
    let mut m = String::new();
    append_text(&mut m, message);
    GuardRejection { status, message: m }
}

/// A submission is taken when it names a user, its texts are short enough and its score
/// change lies within the bound.
pub open spec fn submission_ok(user_id: Seq<char>, username: Seq<char>, delta: int) -> bool {
    &&& user_id.len() > 0
    &&& user_id.len() <= MAX_USER_ID_CHARS
    &&& username.len() <= MAX_USERNAME_CHARS
    &&& -MAX_SCORE_DELTA_ABS <= delta <= MAX_SCORE_DELTA_ABS
}

impl ScoreSubmission {
    /// The checks made before a submission is stored, in order: a user id is required, the
    /// user id and the name must not be too long, the score change must be in range.
    pub fn validate(&self) -> (r: Result<(), GuardRejection>)
        ensures
            r is Ok <==> submission_ok(self.user_id@, self.username@, self.score_delta as int),
            r matches Err(e) ==> (
                if self.user_id@.len() == 0 {
                    e.status == 400 && e.message@ == "user_id is required"@
                } else if self.user_id@.len() > MAX_USER_ID_CHARS {
                    e.status == 413 && e.message@ == "user_id"@ + " is too long"@
                } else if self.username@.len() > MAX_USERNAME_CHARS {
                    e.status == 413 && e.message@ == "username"@ + " is too long"@
                } else {
                    e.status == 400 && e.message@ == "score_delta is out of range"@
                }
            ),
    {
        let id_chars = chars_of(self.user_id.as_str());
        if id_chars.len() == 0 {
            return Err(rejection(400, "user_id is required"));
        }
        match crate::web::validate_chars(self.user_id.as_str(), "user_id", MAX_USER_ID_CHARS) {
            Err(e) => return Err(e),
            Ok(()) => {},
        }
        match crate::web::validate_chars(self.username.as_str(), "username", MAX_USERNAME_CHARS) {
            Err(e) => return Err(e),
            Ok(()) => {},
        }
        if self.score_delta < -MAX_SCORE_DELTA_ABS || self.score_delta > MAX_SCORE_DELTA_ABS {
            return Err(rejection(400, "score_delta is out of range"));
        }
        Ok(())
    }
}

/// The character id of a usage-count write: a positive number is required.
pub fn stats_character_id(value: Option<i64>) -> (r: Result<i64, GuardRejection>)
    ensures
        match value {
            None => r matches Err(e) && e.status == 400 && e.message@ == "characterId must be a number"@,
            Some(id) => if id > 0 {
                r == Ok::<i64, GuardRejection>(id)
            } else {
                r matches Err(e) && e.status == 400 && e.message@ == "characterId must be positive"@
            },
        },
{
    match value {
        Some(id) => if id > 0 {
            Ok(id)
        } else {
            Err(rejection(400, "characterId must be positive"))
        },
        None => Err(rejection(400, "characterId must be a number")),
    }
}

/// The character name stored with a usage count: trimmed, then cut to its first
/// `MAX_CHARACTER_NAME_CHARS` characters; empty when none was sent.
pub fn stats_character_name(value: Option<&str>) -> (r: String)
    ensures
        r@ == (match value {
            Some(v) => {
                let t = trim_spec(v@);
                if t.len() <= MAX_CHARACTER_NAME_CHARS { t } else { t.take(MAX_CHARACTER_NAME_CHARS as int) }
            },
            None => Seq::<char>::empty(),
        }),
{
    match value {
        Some(v) => {
            let t = trim(v);
            truncate_chars(t.as_str(), MAX_CHARACTER_NAME_CHARS)
        },
        None => String::new(),
    }
}

/// The `limit` query of the usage listings.
pub struct LimitQuery {
    pub limit: Option<i64>,
}

impl LimitQuery {
    /// The number of rows to list: 30 by default, between 1 and 100.
    pub fn rows(&self) -> (r: i64)
        ensures
            r == (match self.limit { Some(l) => if l < 1 { 1 } else if l > 100 { 100 } else { l }, None => 30 }),
    {
        normalize_limit(self.limit)
    }
}

/// A character found by the full-text search, with its default work.
pub struct CharacterSearchDoc {
    pub id: i64,
    pub name: String,
    pub name_cn: String,
    pub name_en: String,
    pub romaji: String,
    pub gender: String,
    pub popularity: i64,
    pub default_subject_id: Option<i64>,
    pub default_subject_name: String,
    pub default_subject_name_cn: String,
}

/// A text that is sent only when it is not empty.
pub fn non_empty(s: &String) -> (r: Option<String>)
    ensures
        match r {
            Some(t) => s@.len() > 0 && t@ == s@,
            None => s@.len() == 0,
        },
{
    let cs = chars_of(s.as_str());
    if cs.len() == 0 {
        None
    } else {
        let mut t = String::new();
        append_text(&mut t, s.as_str());
        Some(t)
    }
}

/// The configuration of the server.
pub struct Config {
    pub port: u16,
    pub archive_db_path: String,
    pub app_db_path: String,
    pub tantivy_index_dir: String,
    /// Directory for locally cached / transcoded character images.
    pub image_cache_dir: String,
    /// Comma-separated list of allowed CORS origins. Empty/`*` allows any.
    pub client_url: String,
}

/// What `str::parse::<u16>` gives for a text: the number it writes, where that fits.
pub open spec fn parsed_u16(s: Seq<char>) -> Option<u16> {
    match integer_text_value(s, false) {
        Some(v) => if 0 <= v <= u16::MAX { Some(v as u16) } else { None },
        None => None,
    }
}

/// `str::parse::<u16>`: as its documentation has it, an optional `+` sign followed by ASCII
/// digits and nothing else, within the range of `u16`; `None` otherwise.
#[verifier::external_body]
pub fn parse_u16(s: &str) -> (r: Option<u16>)
    ensures
        r == parsed_u16(s@),
{
    s.parse::<u16>().ok()
}

/// The given value, or the default where none was given.
fn value_or(value: Option<String>, default: &str) -> (r: String)
    ensures
        r@ == (match value { Some(v) => v@, None => default@ }),
{
    match value {
        Some(v) => v,
        None => {
            let mut d = String::new();
            append_text(&mut d, default);
            d
        },
    }
}

/// The configuration from the values of its settings, each taken where given and
/// defaulted where not: the port must be a number that fits 16 bits.
pub fn config_from_values(
    port: Option<String>,
    archive_db_path: Option<String>,
    app_db_path: Option<String>,
    tantivy_index_dir: Option<String>,
    image_cache_dir: Option<String>,
    client_url: Option<String>,
) -> (r: Result<Config, String>)
    ensures
        ({
            let port_text = match port { Some(p) => p@, None => "3001"@ };
            match r {
                Ok(c) => parsed_u16(port_text) == Some(c.port)
                    && c.archive_db_path@ == (match archive_db_path { Some(v) => v@, None => "../archive.sqlite"@ })
                    && c.app_db_path@ == (match app_db_path { Some(v) => v@, None => "data/app.sqlite"@ })
                    && c.tantivy_index_dir@ == (match tantivy_index_dir { Some(v) => v@, None => "data/tantivy"@ })
                    && c.image_cache_dir@ == (match image_cache_dir { Some(v) => v@, None => "data/images"@ })
                    && c.client_url@ == (match client_url {
                        Some(v) => v@,
                        None => "http://localhost:5173,http://localhost:3000,http://localhost"@,
                    }),
                Err(m) => parsed_u16(port_text) is None && m@ == "PORT must be a valid u16"@,
            }
        }),
{
    let port_text = value_or(port, "3001");
    let port = match parse_u16(port_text.as_str()) {
        Some(p) => p,
        None => {
            let mut m = String::new();
            append_text(&mut m, "PORT must be a valid u16");
            return Err(m);
        },
    };
    Ok(Config {
        port,
        archive_db_path: value_or(archive_db_path, "../archive.sqlite"),
        app_db_path: value_or(app_db_path, "data/app.sqlite"),
        tantivy_index_dir: value_or(tantivy_index_dir, "data/tantivy"),
        image_cache_dir: value_or(image_cache_dir, "data/images"),
        client_url: value_or(client_url, "http://localhost:5173,http://localhost:3000,http://localhost"),
    })
}

/// Bug reports per client and minute.
pub const BUG_FEEDBACK_LIMIT_PER_MINUTE: usize = 6;
/// The longest bug type accepted, in characters.
pub const MAX_BUG_TYPE_CHARS: usize = 64;
/// The longest bug description accepted, in characters.
pub const MAX_BUG_DESCRIPTION_CHARS: usize = 4_000;
/// Logs and diagnostics attached to a bug report are cut to this many characters.
pub const MAX_BUG_BLOB_CHARS: usize = 60_000;

/// A bug report as it is stored.
pub struct BugReport {
    pub bug_type: String,
    pub description: String,
    pub logs: String,
    pub errors: String,
    pub diagnostic_data: String,
}

/// At most the first `n` characters of `s`.
pub open spec fn cut(s: Seq<char>, n: int) -> Seq<char> {
    if s.len() <= n { s } else { s.take(n) }
}

/// A bug report from its fields: the type (trimmed, "unknown" when absent) and the
/// description (trimmed, required) must not be too long; the attached texts are cut.
pub fn bug_report(
    bug_type: Option<&str>,
    description: Option<&str>,
    logs: &str,
    errors: &str,
    diagnostic_data: &str,
) -> (r: Result<BugReport, GuardRejection>)
    ensures
        ({
            let t = trim_spec(match crate::settings::opt_str(bug_type) { Some(v) => v, None => "unknown"@ });
            let d = trim_spec(match crate::settings::opt_str(description) { Some(v) => v, None => Seq::<char>::empty() });
            match r {
                Ok(b) => t.len() <= MAX_BUG_TYPE_CHARS && d.len() > 0 && d.len() <= MAX_BUG_DESCRIPTION_CHARS
                    && b.bug_type@ == t && b.description@ == d
                    && b.logs@ == cut(logs@, MAX_BUG_BLOB_CHARS as int)
                    && b.errors@ == cut(errors@, MAX_BUG_BLOB_CHARS as int)
                    && b.diagnostic_data@ == cut(diagnostic_data@, MAX_BUG_BLOB_CHARS as int),
                Err(e) => if t.len() > MAX_BUG_TYPE_CHARS {
                    e.status == 413 && e.message@ == "bugType"@ + " is too long"@
                } else if d.len() == 0 {
                    e.status == 400 && e.message@ == "description is required"@
                } else {
                    d.len() > MAX_BUG_DESCRIPTION_CHARS && e.status == 413
                        && e.message@ == "description"@ + " is too long"@
                },
            }
        }),
{
    let t = match bug_type {
        Some(v) => trim(v),
        None => trim("unknown"),
    };
    match crate::web::validate_chars(t.as_str(), "bugType", MAX_BUG_TYPE_CHARS) {
        Err(e) => return Err(e),
        Ok(()) => {},
    }
    let d = match description {
        Some(v) => trim(v),
        None => {
            proof { reveal_strlit(""); }
            trim("")
        },
    };
    if chars_of(d.as_str()).len() == 0 {
        return Err(rejection(400, "description is required"));
    }
    match crate::web::validate_chars(d.as_str(), "description", MAX_BUG_DESCRIPTION_CHARS) {
        Err(e) => return Err(e),
        Ok(()) => {},
    }
    Ok(BugReport {
        bug_type: t,
        description: d,
        logs: truncate_chars(logs, MAX_BUG_BLOB_CHARS),
        errors: truncate_chars(errors, MAX_BUG_BLOB_CHARS),
        diagnostic_data: truncate_chars(diagnostic_data, MAX_BUG_BLOB_CHARS),
    })
}

/// A character offered by the avatar roulette.
pub struct RouletteEntry {
    pub id: i64,
    pub tier: &'static str,
    /// The picture shown while the roulette turns.
    pub image_medium: String,
    pub image_grid: String,
}

/// A roulette entry from a stored image source: the medium image, else the grid one, else
/// the proxied grid image as preview; tier "A" for sources from the data dump.
pub fn roulette_entry(id: i64, source: &str, image_medium: &str, image_grid: &str) -> (r: RouletteEntry)
    ensures
        r.id == id,
        r.tier@ == (if source@ == "json"@ || source@ == "jsonl"@ { "A"@ } else { "B"@ }),
        r.image_grid@ == "/img/"@ + crate::text::decimal_text(id as int) + ".webp"@,
        r.image_medium@ == (if trim_spec(image_medium@).len() > 0 {
            image_medium@
        } else if trim_spec(image_grid@).len() > 0 {
            image_grid@
        } else {
            "/img/"@ + crate::text::decimal_text(id as int) + ".webp"@
        }),
{
    let grid = crate::web::image_proxy_url(crate::web::ImageKind::Character, crate::web::ImageVariant::Grid, id);
    let preview = if !crate::text::blank(image_medium) {
        let mut p = String::new();
        append_text(&mut p, image_medium);
        p
    } else if !crate::text::blank(image_grid) {
        let mut p = String::new();
        append_text(&mut p, image_grid);
        p
    } else {
        crate::web::image_proxy_url(crate::web::ImageKind::Character, crate::web::ImageVariant::Grid, id)
    };
    let tier = if crate::text::text_eq(source, "json") || crate::text::text_eq(source, "jsonl") { "A" } else { "B" };
    RouletteEntry { id, tier, image_medium: preview, image_grid: grid }
}

} // verus!
