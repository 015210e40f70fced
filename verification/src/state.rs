//! Room, player and round state, and the stable ids that identify players.
use vstd::prelude::*;
use crate::keyed::{IdSet, TeamMarks, TeamResults, texts};
use crate::settings::{GameSettings, SettingsModel, opt_settings, opt_text};

verus! {

/// A player's avatar: a catalogue number or a free-form key.
pub enum AvatarId {
    Number(i64),
    Text(String),
}

pub enum AvatarModel {
    Number(i64),
    Text(Seq<char>),
}

impl View for AvatarId {
    type V = AvatarModel;

    open spec fn view(&self) -> AvatarModel {
        match self {
            AvatarId::Number(n) => AvatarModel::Number(*n),
            AvatarId::Text(s) => AvatarModel::Text(s@),
        }
    }
}

pub open spec fn opt_avatar(a: Option<AvatarId>) -> Option<AvatarModel> {
    match a {
        Some(x) => Some(x@),
        None => None,
    }
}

pub struct Player {
    pub id: String,
    pub stable_player_id: String,
    pub username: String,
    pub is_host: bool,
    pub score: i32,
    pub ready: bool,
    pub attempt_marks: Vec<String>,
    pub round_result: Option<String>,
    pub message: String,
    pub team: Option<String>,
    pub disconnected: bool,
    pub avatar_id: Option<AvatarId>,
    pub avatar_image: Option<String>,
    pub joined_during_game: Option<bool>,
    pub temp_observer: bool,
    pub sync_completed_round: Option<u32>,
    pub is_answer_setter: bool,
}

pub struct PlayerModel {
    pub id: Seq<char>,
    pub stable_player_id: Seq<char>,
    pub username: Seq<char>,
    pub is_host: bool,
    pub score: i32,
    pub ready: bool,
    pub attempt_marks: Seq<Seq<char>>,
    pub round_result: Option<Seq<char>>,
    pub message: Seq<char>,
    pub team: Option<Seq<char>>,
    pub disconnected: bool,
    pub avatar_id: Option<AvatarModel>,
    pub avatar_image: Option<Seq<char>>,
    pub joined_during_game: Option<bool>,
    pub temp_observer: bool,
    pub sync_completed_round: Option<u32>,
    pub is_answer_setter: bool,
}

impl View for Player {
    type V = PlayerModel;

    open spec fn view(&self) -> PlayerModel {
        PlayerModel {
            id: self.id@,
            stable_player_id: self.stable_player_id@,
            username: self.username@,
            is_host: self.is_host,
            score: self.score,
            ready: self.ready,
            attempt_marks: texts(self.attempt_marks@),
            round_result: opt_text(self.round_result),
            message: self.message@,
            team: opt_text(self.team),
            disconnected: self.disconnected,
            avatar_id: opt_avatar(self.avatar_id),
            avatar_image: opt_text(self.avatar_image),
            joined_during_game: self.joined_during_game,
            temp_observer: self.temp_observer,
            sync_completed_round: self.sync_completed_round,
            is_answer_setter: self.is_answer_setter,
        }
    }
}

/// The models of a list of players.
pub open spec fn players_view(ps: Seq<Player>) -> Seq<PlayerModel> {
    ps.map_values(|p: Player| p@)
}

/// A character as sent to clients: its id and the remaining fields as JSON object text.
pub struct CharacterPayload {
    pub id: i64,
    pub fields: String,
}

pub struct CharacterModel {
    pub id: i64,
    pub fields: Seq<char>,
}

impl View for CharacterPayload {
    type V = CharacterModel;

    open spec fn view(&self) -> CharacterModel {
        CharacterModel { id: self.id, fields: self.fields@ }
    }
}

pub struct GuessEntry {
    pub player_id: String,
    pub player_name: String,
    pub is_correct: bool,
    pub is_partial_correct: bool,
    pub guess_data: CharacterPayload,
}

pub struct GuessModel {
    pub player_id: Seq<char>,
    pub player_name: Seq<char>,
    pub is_correct: bool,
    pub is_partial_correct: bool,
    pub guess_data: CharacterModel,
}

impl View for GuessEntry {
    type V = GuessModel;

    open spec fn view(&self) -> GuessModel {
        GuessModel {
            player_id: self.player_id@,
            player_name: self.player_name@,
            is_correct: self.is_correct,
            is_partial_correct: self.is_partial_correct,
            guess_data: self.guess_data@,
        }
    }
}

pub struct PlayerGuessHistory {
    pub username: String,
    pub guesses: Vec<GuessEntry>,
}

pub struct HistoryModel {
    pub username: Seq<char>,
    pub guesses: Seq<GuessModel>,
}

impl View for PlayerGuessHistory {
    type V = HistoryModel;

    open spec fn view(&self) -> HistoryModel {
        HistoryModel {
            username: self.username@,
            guesses: self.guesses@.map_values(|g: GuessEntry| g@),
        }
    }
}

pub open spec fn histories_view(hs: Seq<PlayerGuessHistory>) -> Seq<HistoryModel> {
    hs.map_values(|h: PlayerGuessHistory| h@)
}

pub struct WinnerMarker {
    pub id: String,
    pub username: String,
    pub is_big_win: bool,
    pub timestamp: Option<i64>,
}

pub struct WinnerMarkerModel {
    pub id: Seq<char>,
    pub username: Seq<char>,
    pub is_big_win: bool,
    pub timestamp: Option<i64>,
}

impl View for WinnerMarker {
    type V = WinnerMarkerModel;

    open spec fn view(&self) -> WinnerMarkerModel {
        WinnerMarkerModel {
            id: self.id@,
            username: self.username@,
            is_big_win: self.is_big_win,
            timestamp: self.timestamp,
        }
    }
}

pub open spec fn opt_marker(m: Option<WinnerMarker>) -> Option<WinnerMarkerModel> {
    match m {
        Some(x) => Some(x@),
        None => None,
    }
}

#[derive(Clone, Copy)]
pub struct NonstopWinnerBonuses {
    pub big_win: i32,
    pub quick_guess: i32,
}

pub struct NonstopWinner {
    pub id: String,
    pub username: String,
    pub is_big_win: bool,
    pub team: Option<String>,
    pub score: i32,
    pub bonuses: NonstopWinnerBonuses,
}

pub struct NonstopWinnerModel {
    pub id: Seq<char>,
    pub username: Seq<char>,
    pub is_big_win: bool,
    pub team: Option<Seq<char>>,
    pub score: i32,
    pub bonuses: NonstopWinnerBonuses,
}

impl View for NonstopWinner {
    type V = NonstopWinnerModel;

    open spec fn view(&self) -> NonstopWinnerModel {
        NonstopWinnerModel {
            id: self.id@,
            username: self.username@,
            is_big_win: self.is_big_win,
            team: opt_text(self.team),
            score: self.score,
            bonuses: self.bonuses,
        }
    }
}

pub struct TagBanEntry {
    pub tag: String,
    pub revealer: Vec<String>,
}

pub struct TagBanModel {
    pub tag: Seq<char>,
    pub revealer: Seq<Seq<char>>,
}

impl View for TagBanEntry {
    type V = TagBanModel;

    open spec fn view(&self) -> TagBanModel {
        TagBanModel { tag: self.tag@, revealer: texts(self.revealer@) }
    }
}

pub open spec fn tag_bans_view(v: Seq<TagBanEntry>) -> Seq<TagBanModel> {
    v.map_values(|e: TagBanEntry| e@)
}

pub struct CurrentGame {
    pub character: CharacterPayload,
    pub settings: Option<GameSettings>,
    pub guesses: Vec<PlayerGuessHistory>,
    pub team_attempt_marks: TeamMarks,
    pub team_round_results: TeamResults,
    pub hints: Option<Vec<String>>,
    pub sync_round: u32,
    pub sync_players_completed: IdSet,
    pub sync_winner_found: bool,
    pub sync_winner: Option<WinnerMarker>,
    pub sync_ready_to_end: bool,
    pub sync_round_start_rank: u32,
    pub nonstop_winners: Vec<NonstopWinner>,
    pub nonstop_total_players: i32,
    pub first_winner: Option<WinnerMarker>,
    pub tag_ban_state: Vec<TagBanEntry>,
    pub tag_ban_state_pending: Vec<TagBanEntry>,
    pub last_sync_waiting_key: Option<String>,
    pub last_sync_waiting_at: i64,
}

pub struct GameModel {
    pub character: CharacterModel,
    pub settings: Option<SettingsModel>,
    pub guesses: Seq<HistoryModel>,
    pub team_attempt_marks: Map<Seq<char>, Seq<Seq<char>>>,
    pub team_round_results: Map<Seq<char>, Seq<char>>,
    pub hints: Option<Seq<Seq<char>>>,
    pub sync_round: u32,
    pub sync_players_completed: Set<Seq<char>>,
    pub sync_winner_found: bool,
    pub sync_winner: Option<WinnerMarkerModel>,
    pub sync_ready_to_end: bool,
    pub sync_round_start_rank: u32,
    pub nonstop_winners: Seq<NonstopWinnerModel>,
    pub nonstop_total_players: i32,
    pub first_winner: Option<WinnerMarkerModel>,
    pub tag_ban_state: Seq<TagBanModel>,
    pub tag_ban_state_pending: Seq<TagBanModel>,
    pub last_sync_waiting_key: Option<Seq<char>>,
    pub last_sync_waiting_at: i64,
}

pub open spec fn opt_texts(o: Option<Vec<String>>) -> Option<Seq<Seq<char>>> {
    match o {
        Some(v) => Some(texts(v@)),
        None => None,
    }
}

impl View for CurrentGame {
    type V = GameModel;

    open spec fn view(&self) -> GameModel {
        GameModel {
            character: self.character@,
            settings: opt_settings(self.settings),
            guesses: histories_view(self.guesses@),
            team_attempt_marks: self.team_attempt_marks@,
            team_round_results: self.team_round_results@,
            hints: opt_texts(self.hints),
            sync_round: self.sync_round,
            sync_players_completed: self.sync_players_completed@,
            sync_winner_found: self.sync_winner_found,
            sync_winner: opt_marker(self.sync_winner),
            sync_ready_to_end: self.sync_ready_to_end,
            sync_round_start_rank: self.sync_round_start_rank,
            nonstop_winners: self.nonstop_winners@.map_values(|w: NonstopWinner| w@),
            nonstop_total_players: self.nonstop_total_players,
            first_winner: opt_marker(self.first_winner),
            tag_ban_state: tag_bans_view(self.tag_ban_state@),
            tag_ban_state_pending: tag_bans_view(self.tag_ban_state_pending@),
            last_sync_waiting_key: opt_text(self.last_sync_waiting_key),
            last_sync_waiting_at: self.last_sync_waiting_at,
        }
    }
}

impl CurrentGame {
    /// The keyed collections of the round are well formed.
    pub open spec fn wf(&self) -> bool {
        &&& self.team_attempt_marks.wf()
        &&& self.team_round_results.wf()
        &&& self.sync_players_completed.wf()
    }
}

pub struct Room {
    pub host: String,
    pub is_public: bool,
    pub room_name: String,
    pub players: Vec<Player>,
    pub last_active: i64,
    pub current_game: Option<CurrentGame>,
    pub answer_setter_id: Option<String>,
    pub waiting_for_answer: bool,
    pub settings: Option<GameSettings>,
    pub last_players_broadcast_at: Option<i64>,
    /// Extra fields waiting for the next players broadcast, as JSON object text.
    pub pending_player_broadcast_extra: Option<String>,
    pub player_broadcast_due_at: Option<i64>,
    pub player_broadcast_flush_scheduled: bool,
}

pub struct RoomModel {
    pub host: Seq<char>,
    pub is_public: bool,
    pub room_name: Seq<char>,
    pub players: Seq<PlayerModel>,
    pub last_active: i64,
    pub current_game: Option<GameModel>,
    pub answer_setter_id: Option<Seq<char>>,
    pub waiting_for_answer: bool,
    pub settings: Option<SettingsModel>,
    pub last_players_broadcast_at: Option<i64>,
    pub pending_player_broadcast_extra: Option<Seq<char>>,
    pub player_broadcast_due_at: Option<i64>,
    pub player_broadcast_flush_scheduled: bool,
}

pub open spec fn opt_game(g: Option<CurrentGame>) -> Option<GameModel> {
    match g {
        Some(x) => Some(x@),
        None => None,
    }
}

impl View for Room {
    type V = RoomModel;

    open spec fn view(&self) -> RoomModel {
        RoomModel {
            host: self.host@,
            is_public: self.is_public,
            room_name: self.room_name@,
            players: players_view(self.players@),
            last_active: self.last_active,
            current_game: opt_game(self.current_game),
            answer_setter_id: opt_text(self.answer_setter_id),
            waiting_for_answer: self.waiting_for_answer,
            settings: opt_settings(self.settings),
            last_players_broadcast_at: self.last_players_broadcast_at,
            pending_player_broadcast_extra: opt_text(self.pending_player_broadcast_extra),
            player_broadcast_due_at: self.player_broadcast_due_at,
            player_broadcast_flush_scheduled: self.player_broadcast_flush_scheduled,
        }
    }
}

impl Room {
    /// The round's keyed collections are well formed.
    pub open spec fn wf(&self) -> bool {
        self.current_game matches Some(g) ==> g.wf()
    }
}

/// Counters of the commands a room has run.
#[derive(Clone, Copy)]
pub struct RoomCommandStats {
    pub queued: usize,
    pub processed: u64,
    pub rejected: u64,
    pub total_micros: u64,
    pub max_micros: u64,
}

/// A command run against a room, labelled by the socket event that caused it.
#[derive(Clone, Copy)]
pub enum RoomCommand {
    SocketEvent(&'static str),
}


/// The key of an avatar: the number's decimal text, or the free-form key itself.
pub open spec fn avatar_key(a: AvatarModel) -> Seq<char> {
    match a {
        AvatarModel::Number(n) => crate::text::decimal_text(n as int),
        AvatarModel::Text(s) => s,
    }
}

/// An avatar counts as unset when its number is 0 or its key is blank.
pub open spec fn avatar_unset(a: AvatarModel) -> bool {
    match a {
        AvatarModel::Number(n) => n == 0,
        AvatarModel::Text(s) => crate::text::is_blank(s),
    }
}

impl AvatarId {
    pub fn is_empty(&self) -> (r: bool)
        ensures
            r == avatar_unset(self@),
    {
        match self {
            AvatarId::Number(n) => *n == 0,
            AvatarId::Text(s) => crate::text::blank(s.as_str()),
        }
    }

    pub fn as_key_string(&self) -> (r: String)
        ensures
            r@ == avatar_key(self@),
    {
        match self {
            AvatarId::Number(n) => crate::text::i64_to_text(*n),
            AvatarId::Text(s) => s.clone(),
        }
    }
}

impl AvatarId {
    pub fn duplicate(&self) -> (r: AvatarId)
        ensures
            r@ == self@,
    {
        match self {
            AvatarId::Number(n) => AvatarId::Number(*n),
            AvatarId::Text(s) => AvatarId::Text(s.clone()),
        }
    }
}

pub fn dup_opt_text(o: &Option<String>) -> (r: Option<String>)
    ensures
        opt_text(r) == opt_text(*o),
{
    match o {
        Some(s) => Some(s.clone()),
        None => None,
    }
}

impl Player {
    /// A copy of the player, field for field.
    pub fn duplicate(&self) -> (r: Player)
        ensures
            r@ == self@,
    {
        Player {
            id: self.id.clone(),
            stable_player_id: self.stable_player_id.clone(),
            username: self.username.clone(),
            is_host: self.is_host,
            score: self.score,
            ready: self.ready,
            attempt_marks: crate::keyed::clone_texts(&self.attempt_marks),
            round_result: dup_opt_text(&self.round_result),
            message: self.message.clone(),
            team: dup_opt_text(&self.team),
            disconnected: self.disconnected,
            avatar_id: match &self.avatar_id {
                Some(a) => Some(a.duplicate()),
                None => None,
            },
            avatar_image: dup_opt_text(&self.avatar_image),
            joined_during_game: self.joined_during_game,
            temp_observer: self.temp_observer,
            sync_completed_round: self.sync_completed_round,
            is_answer_setter: self.is_answer_setter,
        }
    }
}

impl CharacterPayload {
    pub fn duplicate(&self) -> (r: CharacterPayload)
        ensures
            r@ == self@,
    {
        CharacterPayload { id: self.id, fields: self.fields.clone() }
    }
}

impl GuessEntry {
    pub fn duplicate(&self) -> (r: GuessEntry)
        ensures
            r@ == self@,
    {
        GuessEntry {
            player_id: self.player_id.clone(),
            player_name: self.player_name.clone(),
            is_correct: self.is_correct,
            is_partial_correct: self.is_partial_correct,
            guess_data: self.guess_data.duplicate(),
        }
    }
}


impl TagBanEntry {
    pub fn duplicate(&self) -> (r: TagBanEntry)
        ensures
            r@ == self@,
    {
        TagBanEntry { tag: self.tag.clone(), revealer: crate::keyed::clone_texts(&self.revealer) }
    }
}

/// Copies of the entries of a tag-ban list.
pub fn tag_bans_snapshot(v: &Vec<TagBanEntry>) -> (r: Vec<TagBanEntry>)
    ensures
        tag_bans_view(r@) == tag_bans_view(v@),
{
    let mut out: Vec<TagBanEntry> = Vec::new();
    let mut i: usize = 0;
    while i < v.len()
        invariant
            i <= v@.len(),
            out@.len() == i,
            forall|j: int| 0 <= j < i ==> #[trigger] out@[j]@ == v@[j]@,
        decreases v@.len() - i,
    {
        out.push(v[i].duplicate());
        i = i + 1;
    }
    assert(tag_bans_view(out@) =~= tag_bans_view(v@));
    out
}

/// The milliseconds since the Unix epoch, from the system clock (`chrono::Utc::now`).
#[verifier::external_body]
pub fn now_millis() -> (r: i64) {
    chrono::Utc::now().timestamp_millis()
}

/// A player name as ids use it: trimmed and in lower case.
pub open spec fn canonical_name(s: Seq<char>) -> Seq<char> {
    crate::text::lowercase_text(crate::text::trim_spec(s))
}

pub fn canonical_username(username: &str) -> (r: String)
    ensures
        r@ == canonical_name(username@),
        crate::text::all_ascii(crate::text::trim_spec(username@)) ==> r@ == crate::text::ascii_lower(crate::text::trim_spec(username@)),
{
    let t = crate::text::trim(username);
    crate::text::to_lowercase(t.as_str())
}

/// Characters a session id may hold: ASCII letters and digits, `-` and `_`.
pub open spec fn session_char(c: char) -> bool {
    crate::text::is_ascii_alphanumeric_spec(c) || c == '-' || c == '_'
}

/// A session id once trimmed, when it is 8 to 128 characters of `session_char`.
pub open spec fn canonical_session(s: Option<Seq<char>>) -> Option<Seq<char>> {
    match s {
        Some(x) => {
            let t = crate::text::trim_spec(x);
            if 8 <= t.len() <= 128 && forall|i: int| 0 <= i < t.len() ==> #[trigger] session_char(t[i]) { Some(t) } else { None }
        },
        None => None,
    }
}

pub fn canonical_player_session_id(player_session_id: Option<&str>) -> (r: Option<String>)
    ensures
        opt_text(r) == canonical_session(crate::settings::opt_str(player_session_id)),
{
    let s = match player_session_id {
        Some(s) => s,
        None => { return None; },
    };
    let t = crate::text::trim(s);
    let cs = crate::text::chars_of(t.as_str());
    if cs.len() < 8 || cs.len() > 128 {
        return None;
    }
    let mut i: usize = 0;
    while i < cs.len()
        invariant
            i <= cs@.len(),
            cs@ == t@,
            t@ == crate::text::trim_spec(s@),
            player_session_id == Some(s),
            forall|j: int| 0 <= j < i ==> #[trigger] session_char(cs@[j]),
        decreases cs@.len() - i,
    {
        let c = cs[i];
        if !(crate::text::is_ascii_alphanumeric(c) || c == '-' || c == '_') {
            assert(!session_char(t@[i as int]));
            assert(!(forall|j: int| 0 <= j < t@.len() ==> #[trigger] session_char(t@[j])));
            assert(canonical_session(crate::settings::opt_str(player_session_id)) is None);
            return None;
        }
        i = i + 1;
    }
    Some(t)
}

/// `room::session::sid` for a valid session id `sid`, else `room::legacy::name::now`.
pub open spec fn stable_id(room_id: Seq<char>, username: Seq<char>, session: Option<Seq<char>>, now: i64) -> Seq<char> {
    match canonical_session(session) {
        Some(sid) => room_id + seq![':', ':', 's', 'e', 's', 's', 'i', 'o', 'n', ':', ':'] + sid,
        None => room_id + seq![':', ':', 'l', 'e', 'g', 'a', 'c', 'y', ':', ':'] + canonical_name(username)
            + seq![':', ':'] + crate::text::decimal_text(now as int),
    }
}

/// A new stable id for a player at time `now` (see `stable_id`).
pub fn new_player_stable_id_for_session_at(room_id: &str, username: &str, player_session_id: Option<&str>, now: i64) -> (r: String)
    ensures
        r@ == stable_id(room_id@, username@, crate::settings::opt_str(player_session_id), now),
{
    let mut out = String::new();
    crate::text::append_text(&mut out, room_id);
    match canonical_player_session_id(player_session_id) {
        Some(sid) => {
            let sep = "::session::";
            proof { reveal_strlit("::session::"); }
            crate::text::append_text(&mut out, sep);
            crate::text::append_text(&mut out, sid.as_str());
        },
        None => {
            let sep = "::legacy::";
            let colons = "::";
            proof { reveal_strlit("::legacy::"); reveal_strlit("::"); }
            crate::text::append_text(&mut out, sep);
            let name = canonical_username(username);
            crate::text::append_text(&mut out, name.as_str());
            crate::text::append_text(&mut out, colons);
            let t = crate::text::i64_to_text(now);
            crate::text::append_text(&mut out, t.as_str());
        },
    }
    out
}

/// Any reading of the clock: the clock is not modelled.
pub open spec fn clock_reading(now: i64) -> bool {
    true
}

/// A new stable id for a player, stamped with the system clock when there is no valid session.
pub fn new_player_stable_id_for_session(room_id: &str, username: &str, player_session_id: Option<&str>) -> (r: String)
    ensures
        exists|now: i64| #[trigger] clock_reading(now) && r@ == stable_id(room_id@, username@, crate::settings::opt_str(player_session_id), now),
{
    let now = now_millis();
    let r = new_player_stable_id_for_session_at(room_id, username, player_session_id, now);
    assert(clock_reading(now));
    r
}

pub fn new_player_stable_id(room_id: &str, username: &str) -> (r: String)
    ensures
        exists|now: i64| #[trigger] clock_reading(now) && r@ == stable_id(room_id@, username@, None, now),
{
    new_player_stable_id_for_session(room_id, username, None)
}

/// A non-white-space character keeps a text from being blank.
pub proof fn lemma_not_blank(s: Seq<char>, k: int)
    requires
        0 <= k < s.len(),
        !crate::text::is_white_space_spec(s[k]),
    ensures
        crate::text::trim_spec(s).len() > 0,
{
    lemma_leading_at_most(s, k);
    let lw = crate::text::leading_ws(s) as int;
    let front = s.skip(lw);
    assert(front[k - lw] == s[k]);
    lemma_trailing_at_most(front, k - lw);
}

proof fn lemma_leading_at_most(s: Seq<char>, k: int)
    requires
        0 <= k < s.len(),
        !crate::text::is_white_space_spec(s[k]),
    ensures
        crate::text::leading_ws(s) <= k,
    decreases s.len(),
{
    if s.len() > 0 && crate::text::is_white_space_spec(s[0]) {
        assert(s.drop_first()[k - 1] == s[k]);
        lemma_leading_at_most(s.drop_first(), k - 1);
    }
}

proof fn lemma_trailing_at_most(s: Seq<char>, k: int)
    requires
        0 <= k < s.len(),
        !crate::text::is_white_space_spec(s[k]),
    ensures
        crate::text::trailing_ws(s) <= s.len() - 1 - k,
    decreases s.len(),
{
    if s.len() > 0 && crate::text::is_white_space_spec(s.last()) {
        assert(s.drop_last()[k] == s[k]);
        lemma_trailing_at_most(s.drop_last(), k);
    }
}

/// A generated stable id is never blank.
pub proof fn lemma_stable_id_not_blank(room_id: Seq<char>, username: Seq<char>, session: Option<Seq<char>>, now: i64)
    ensures
        !crate::text::is_blank(stable_id(room_id, username, session, now)),
{
    let s = stable_id(room_id, username, session, now);
    assert(s[room_id.len() as int] == ':');
    lemma_not_blank(s, room_id.len() as int);
}

/// The player once its stable id is made sure of at `now`: a blank id is replaced by a new
/// one (`stable_id` without a session); any other is kept.
pub open spec fn stable_ensured(p: PlayerModel, room_id: Seq<char>, now: i64) -> PlayerModel {
    if crate::text::is_blank(p.stable_player_id) {
        PlayerModel { stable_player_id: stable_id(room_id, p.username, None, now), ..p }
    } else {
        p
    }
}

/// Makes sure the player has a stable id, generating one at `now` when it is blank; returns it.
pub fn ensure_player_stable_id_at(room_id: &str, player: &mut Player, now: i64) -> (r: String)
    ensures
        final(player)@ == stable_ensured(old(player)@, room_id@, now),
        r@ == final(player)@.stable_player_id,
{
    if crate::text::blank(player.stable_player_id.as_str()) {
        player.stable_player_id = new_player_stable_id_for_session_at(room_id, player.username.as_str(), None, now);
    }
    player.stable_player_id.clone()
}

/// `ensure_player_stable_id_at` at the time of the system clock.
pub fn ensure_player_stable_id(room_id: &str, player: &mut Player) -> (r: String)
    ensures
        exists|now: i64| #[trigger] clock_reading(now) && final(player)@ == stable_ensured(old(player)@, room_id@, now),
        r@ == final(player)@.stable_player_id,
{
    let now = now_millis();
    let r = ensure_player_stable_id_at(room_id, player, now);
    assert(clock_reading(now));
    r
}

/// Making sure of a stable id a second time, at any time, changes nothing: the id once made
/// is kept.
pub proof fn law_stable_id_is_kept(p: PlayerModel, room_id: Seq<char>, now1: i64, now2: i64)
    ensures
        stable_ensured(stable_ensured(p, room_id, now1), room_id, now2) == stable_ensured(p, room_id, now1),
{
    lemma_stable_id_not_blank(room_id, p.username, None, now1);
}

/// `room::legacy-name::name`, the key of a player known by name only.
pub fn legacy_player_key(room_id: &str, username: &str) -> (r: String)
    ensures
        r@ == room_id@ + seq![':', ':', 'l', 'e', 'g', 'a', 'c', 'y', '-', 'n', 'a', 'm', 'e', ':', ':'] + canonical_name(username@),
{
    let mut out = String::new();
    crate::text::append_text(&mut out, room_id);
    let sep = "::legacy-name::";
    proof { reveal_strlit("::legacy-name::"); }
    crate::text::append_text(&mut out, sep);
    let name = canonical_username(username);
    crate::text::append_text(&mut out, name.as_str());
    out
}

impl RoomCommand {
    pub fn label(self) -> (r: &'static str)
        ensures
            r == (match self {
                RoomCommand::SocketEvent(l) => l,
            }),
    {
        match self {
            RoomCommand::SocketEvent(label) => label,
        }
    }
}

} // verus!
