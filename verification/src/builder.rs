//! The archive builder's rules: its command line, and which works, roles and characters of
//! the data dump it keeps.
use vstd::prelude::*;
use crate::keyed::texts;
use crate::text::{append_text, chars_of, text_eq};

verus! {

/// Where the data dump lies by default.
pub const DEFAULT_DUMP_DIR: &'static str = "../dump-2026-04-28.210420Z";
/// Where the archive is written by default.
pub const DEFAULT_DB_PATH: &'static str = "../archive.sqlite";
/// The application database by default.
pub const DEFAULT_APP_DB_PATH: &'static str = "../server-rs/data/app.sqlite";
/// The character image sources by default.
pub const DEFAULT_IMAGES_JSON_PATH: &'static str = "../dump-2026-04-28.210420Z/character-images.jsonlines";
/// The search index directory by default.
pub const DEFAULT_TANTIVY_INDEX_DIR: &'static str = "../server-rs/data/tantivy";

/// The settings an option sets.
#[derive(Clone, Copy, PartialEq, Eq, Structural)]
pub enum ArgKey {
    Mode,
    DumpDir,
    Out,
    AppDb,
    ImagesPath,
    TantivyDir,
}

/// The setting an option names, and the option's name in messages.
pub open spec fn arg_key(a: Seq<char>) -> Option<(ArgKey, Seq<char>)> {
    if a == "-m"@ || a == "--mode"@ {
        Some((ArgKey::Mode, "--mode"@))
    } else if a == "-d"@ || a == "--dump-dir"@ {
        Some((ArgKey::DumpDir, "--dump-dir"@))
    } else if a == "-o"@ || a == "--out"@ {
        Some((ArgKey::Out, "--out"@))
    } else if a == "--app-db"@ {
        Some((ArgKey::AppDb, "--app-db"@))
    } else if a == "--images-path"@ {
        Some((ArgKey::ImagesPath, "--images-path"@))
    } else if a == "--tantivy-dir"@ {
        Some((ArgKey::TantivyDir, "--tantivy-dir"@))
    } else if a == "--images-json"@ {
        Some((ArgKey::ImagesPath, "--images-json"@))
    } else {
        None
    }
}

/// The settings given so far.
pub struct ArgState {
    pub mode: Option<Seq<char>>,
    pub dump_dir: Option<Seq<char>>,
    pub out_db: Option<Seq<char>>,
    pub app_db: Option<Seq<char>>,
    pub images_path: Option<Seq<char>>,
    pub tantivy_index_dir: Option<Seq<char>>,
}

/// `st` with the setting `k` given as `v`.
pub open spec fn with_setting(st: ArgState, k: ArgKey, v: Seq<char>) -> ArgState {
    match k {
        ArgKey::Mode => ArgState { mode: Some(v), ..st },
        ArgKey::DumpDir => ArgState { dump_dir: Some(v), ..st },
        ArgKey::Out => ArgState { out_db: Some(v), ..st },
        ArgKey::AppDb => ArgState { app_db: Some(v), ..st },
        ArgKey::ImagesPath => ArgState { images_path: Some(v), ..st },
        ArgKey::TantivyDir => ArgState { tantivy_index_dir: Some(v), ..st },
    }
}

/// How reading the command line ends.
pub enum ParseEnd {
    Help,
    Done(ArgState),
    Failed(Seq<char>),
}

/// The rest of the command line `args` read from `st`: help, an option and its value, an
/// unknown option, or a positional dump directory then output path.
pub open spec fn parse_from(args: Seq<Seq<char>>, st: ArgState) -> ParseEnd
    decreases args.len(),
{
    if args.len() == 0 {
        ParseEnd::Done(st)
    } else {
        let a = args[0];
        if a == "-h"@ || a == "--help"@ {
            ParseEnd::Help
        } else if arg_key(a) is Some {
            let (k, name) = arg_key(a)->0;
            if args.len() < 2 {
                ParseEnd::Failed(name + " requires a value"@)
            } else {
                parse_from(args.skip(2), with_setting(st, k, args[1]))
            }
        } else if a.len() > 0 && a[0] == '-' {
            ParseEnd::Failed("Unknown option: "@ + a)
        } else if st.dump_dir is None {
            parse_from(args.drop_first(), ArgState { dump_dir: Some(a), ..st })
        } else if st.out_db is None {
            parse_from(args.drop_first(), ArgState { out_db: Some(a), ..st })
        } else {
            ParseEnd::Failed("Unexpected extra argument: "@ + a)
        }
    }
}

/// No setting given yet.
pub open spec fn no_settings() -> ArgState {
    ArgState { mode: None, dump_dir: None, out_db: None, app_db: None, images_path: None, tantivy_index_dir: None }
}

/// A given setting, or its default.
pub open spec fn or_default(v: Option<Seq<char>>, d: Seq<char>) -> Seq<char> {
    match v {
        Some(x) => x,
        None => d,
    }
}

/// The builder's settings.
pub struct BuilderArgs {
    pub dump_dir: String,
    pub out_db: String,
    pub app_db: String,
    pub images_path: String,
    pub tantivy_index_dir: String,
    /// build-archive | rebuild-fts | build-tantivy | migrate-app
    pub mode: String,
}

/// What the command line asks for.
pub enum ArgsOutcome {
    Help,
    Run(BuilderArgs),
}

struct ArgSlots {
    mode: Option<String>,
    dump_dir: Option<String>,
    out_db: Option<String>,
    app_db: Option<String>,
    images_path: Option<String>,
    tantivy_index_dir: Option<String>,
}

spec fn slot(o: Option<String>) -> Option<Seq<char>> {
    match o {
        Some(s) => Some(s@),
        None => None,
    }
}

spec fn slots_view(s: ArgSlots) -> ArgState {
    ArgState {
        mode: slot(s.mode),
        dump_dir: slot(s.dump_dir),
        out_db: slot(s.out_db),
        app_db: slot(s.app_db),
        images_path: slot(s.images_path),
        tantivy_index_dir: slot(s.tantivy_index_dir),
    }
}

fn key_of(a: &str) -> (r: Option<(ArgKey, &'static str)>)
    ensures
        match r {
            Some((k, n)) => arg_key(a@) == Some((k, n@)),
            None => arg_key(a@) is None,
        },
{
    if text_eq(a, "-m") || text_eq(a, "--mode") {
        Some((ArgKey::Mode, "--mode"))
    } else if text_eq(a, "-d") || text_eq(a, "--dump-dir") {
        Some((ArgKey::DumpDir, "--dump-dir"))
    } else if text_eq(a, "-o") || text_eq(a, "--out") {
        Some((ArgKey::Out, "--out"))
    } else if text_eq(a, "--app-db") {
        Some((ArgKey::AppDb, "--app-db"))
    } else if text_eq(a, "--images-path") {
        Some((ArgKey::ImagesPath, "--images-path"))
    } else if text_eq(a, "--tantivy-dir") {
        Some((ArgKey::TantivyDir, "--tantivy-dir"))
    } else if text_eq(a, "--images-json") {
        Some((ArgKey::ImagesPath, "--images-json"))
    } else {
        None
    }
}

fn text_of(s: &str) -> (r: String)
    ensures
        r@ == s@,
{
    let mut r = String::new();
    append_text(&mut r, s);
    r
}

fn or_default_text(v: Option<String>, d: &str) -> (r: String)
    ensures
        r@ == or_default(slot(v), d@),
{
    match v {
        Some(x) => x,
        None => text_of(d),
    }
}

/// Reads the builder's command line (without the program name).
pub fn parse_builder_args(args: &Vec<String>) -> (r: Result<ArgsOutcome, String>)
    ensures
        match parse_from(texts(args@), no_settings()) {
            ParseEnd::Help => r matches Ok(ArgsOutcome::Help),
            ParseEnd::Failed(m) => r matches Err(e) && e@ == m,
            ParseEnd::Done(st) => r matches Ok(ArgsOutcome::Run(a))
                && a.mode@ == or_default(st.mode, "build-archive"@)
                && a.dump_dir@ == or_default(st.dump_dir, DEFAULT_DUMP_DIR@)
                && a.out_db@ == or_default(st.out_db, DEFAULT_DB_PATH@)
                && a.app_db@ == or_default(st.app_db, DEFAULT_APP_DB_PATH@)
                && a.images_path@ == or_default(st.images_path, DEFAULT_IMAGES_JSON_PATH@)
                && a.tantivy_index_dir@ == or_default(st.tantivy_index_dir, DEFAULT_TANTIVY_INDEX_DIR@),
        },
{
    let ghost all = texts(args@);
    let mut s = ArgSlots { mode: None, dump_dir: None, out_db: None, app_db: None, images_path: None, tantivy_index_dir: None };
    let mut i: usize = 0;
    assert(all.skip(0) =~= all);
    while i < args.len()
        invariant
            i <= args@.len(),
            all == texts(args@),
            parse_from(all, no_settings()) == parse_from(all.skip(i as int), slots_view(s)),
        decreases args@.len() - i,
    {
        let a = args[i].as_str();
        let ghost rest = all.skip(i as int);
        assert(rest[0] == a@);
        assert(rest.len() == args@.len() - i);
        if text_eq(a, "-h") || text_eq(a, "--help") {
            return Ok(ArgsOutcome::Help);
        }
        match key_of(a) {
            Some((k, name)) => {
                if i + 1 >= args.len() {
                    let mut m = String::new();
                    append_text(&mut m, name);
                    append_text(&mut m, " requires a value");
                    return Err(m);
                }
                let v = args[i + 1].clone();
                assert(rest[1] == v@);
                assert(rest.skip(2) =~= all.skip(i + 2));
                match k {
                    ArgKey::Mode => s.mode = Some(v),
                    ArgKey::DumpDir => s.dump_dir = Some(v),
                    ArgKey::Out => s.out_db = Some(v),
                    ArgKey::AppDb => s.app_db = Some(v),
                    ArgKey::ImagesPath => s.images_path = Some(v),
                    ArgKey::TantivyDir => s.tantivy_index_dir = Some(v),
                }
                i = i + 2;
            },
            None => {
                let cs = chars_of(a);
                if cs.len() > 0 && cs[0] == '-' {
                    let mut m = String::new();
                    append_text(&mut m, "Unknown option: ");
                    append_text(&mut m, a);
                    return Err(m);
                }
                assert(rest.drop_first() =~= all.skip(i + 1));
                if s.dump_dir.is_none() {
                    s.dump_dir = Some(args[i].clone());
                } else if s.out_db.is_none() {
                    s.out_db = Some(args[i].clone());
                } else {
                    let mut m = String::new();
                    append_text(&mut m, "Unexpected extra argument: ");
                    append_text(&mut m, a);
                    return Err(m);
                }
                i = i + 1;
            },
        }
    }
    assert(all.skip(i as int) =~= Seq::<Seq<char>>::empty());
    Ok(ArgsOutcome::Run(BuilderArgs {
        dump_dir: or_default_text(s.dump_dir, DEFAULT_DUMP_DIR),
        out_db: or_default_text(s.out_db, DEFAULT_DB_PATH),
        app_db: or_default_text(s.app_db, DEFAULT_APP_DB_PATH),
        images_path: or_default_text(s.images_path, DEFAULT_IMAGES_JSON_PATH),
        tantivy_index_dir: or_default_text(s.tantivy_index_dir, DEFAULT_TANTIVY_INDEX_DIR),
        mode: or_default_text(s.mode, "build-archive"),
    }))
}

/// The collection counts of a work in the dump.
pub struct FavoriteCounts {
    pub wish: i64,
    pub done: i64,
    pub doing: i64,
    pub on_hold: i64,
    pub dropped: i64,
}

/// How many users have collected the work, in any state.
pub open spec fn collects_total(f: FavoriteCounts) -> int {
    f.wish + f.done + f.doing + f.on_hold + f.dropped
}

/// The sum of the collection counts; each partial sum must fit.
pub fn subject_collects(f: &FavoriteCounts) -> (r: i64)
    requires
        i64::MIN <= f.wish + f.done <= i64::MAX,
        i64::MIN <= f.wish + f.done + f.doing <= i64::MAX,
        i64::MIN <= f.wish + f.done + f.doing + f.on_hold <= i64::MAX,
        i64::MIN <= collects_total(*f) <= i64::MAX,
    ensures
        r == collects_total(*f),
{
    f.wish + f.done + f.doing + f.on_hold + f.dropped
}

/// A work of the dump is kept when it is an anime (type 2) collected at least 100 times or
/// ranked, or a game (type 4) collected at least 50 times or ranked, and not marked NSFW.
pub open spec fn keeps_subject(type_id: i64, nsfw: bool, rank: i64, collects: i64) -> bool {
    &&& type_id == 2 || type_id == 4
    &&& !nsfw
    &&& (type_id == 2 && (collects >= 100 || rank > 0)) || (type_id == 4 && (collects >= 50 || rank > 0))
}

pub fn keep_subject(type_id: i64, nsfw: bool, rank: i64, collects: i64) -> (r: bool)
    ensures
        r == keeps_subject(type_id, nsfw, rank, collects),
{
    if type_id != 2 && type_id != 4 {
        return false;
    }
    if nsfw {
        return false;
    }
    let is_anime_valid = type_id == 2 && (collects >= 100 || rank > 0);
    let is_game_valid = type_id == 4 && (collects >= 50 || rank > 0);
    is_anime_valid || is_game_valid
}

/// A role is kept when its work was kept and it is a main (1) or supporting (2) role.
pub fn keep_relation(subject_kept: bool, role_type: i64) -> (r: bool)
    ensures
        r == (subject_kept && (role_type == 1 || role_type == 2)),
{
    subject_kept && (role_type == 1 || role_type == 2)
}

/// A character is kept when one of its roles was kept and someone has collected it.
pub fn keep_character(has_kept_role: bool, collects: i64) -> (r: bool)
    ensures
        r == (has_kept_role && collects > 0),
{
    has_kept_role && collects > 0
}

/// A character's popularity: its collections and comments together.
pub fn character_popularity(collects: i64, comments: i64) -> (r: i64)
    requires
        i64::MIN <= collects + comments <= i64::MAX,
    ensures
        r == collects + comments,
{
    collects + comments
}

pub(crate) fn has_name(names: &Vec<String>, n: &str) -> (r: bool)
    ensures
        r == texts(names@).contains(n@),
{
    let mut k: usize = 0;
    while k < names.len()
        invariant
            k <= names@.len(),
            forall|j: int| 0 <= j < k ==> names@[j]@ != n@,
        decreases names@.len() - k,
    {
        if text_eq(names[k].as_str(), n) {
            assert(texts(names@)[k as int] == n@);
            return true;
        }
        k = k + 1;
    }
    proof {
        if texts(names@).contains(n@) {
            let j = choose|j: int| 0 <= j < texts(names@).len() && texts(names@)[j] == n@;
            assert(names@[j]@ == n@);
        }
    }
    false
}

} // verus!
