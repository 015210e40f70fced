//! What a room transition asks the socket layer to send, in order.
use vstd::prelude::*;
use crate::gameplay::scores::ScoreBreakdown;
use crate::state::{CharacterPayload, Player, PlayerGuessHistory, TagBanEntry};

verus! {

/// One line of the score details shown when a round ends.
pub struct PlayerDetail {
    pub id: String,
    pub username: String,
    pub team: Option<String>,
    pub score: i32,
    pub breakdown: ScoreBreakdown,
    pub result: String,
}

/// The answer setter's line of the score details.
pub struct SetterDetail {
    pub username: String,
    pub score: i32,
    pub reason: &'static str,
}

pub enum ScoreDetail {
    /// A team with more than one scored member, and the sum of their scores.
    Team { team_id: String, team_score: i64, members: Vec<PlayerDetail> },
    Player(PlayerDetail),
    Setter(SetterDetail),
}

/// A player's progress in a synchronised round.
pub struct SyncStatus {
    pub id: String,
    pub username: String,
    pub completed: bool,
}

/// A winner of a non-stop round, as shown while the round goes on.
pub struct RankedWinner {
    pub username: String,
    pub rank: i32,
    pub score: i32,
}

/// The `answerSetterId` field of a players update.
pub enum SetterField {
    Omitted,
    Null,
    Id(Option<String>),
}

pub enum RoomEvent {
    UpdatePlayers { players: Vec<Player>, is_public: Option<bool>, answer_setter: SetterField },
    TagBanStateUpdate { state: Vec<TagBanEntry> },
    GameEnded { guesses: Vec<PlayerGuessHistory>, score_details: Vec<ScoreDetail>, answer: CharacterPayload },
    ResetReadyStatus,
    LobbyRoomsUpdated,
    SyncWaiting { round: u32, statuses: Vec<SyncStatus>, completed_count: usize, total_count: usize },
    SyncRoundStart { round: u32 },
    NonstopProgress { winners: Vec<RankedWinner>, remaining_count: usize, total_count: usize },
    /// Sent to one teammate of a player who guessed right.
    TeamWin { target: String, winner_name: String },
}

/// The kind of an event, for contracts that speak of the order of what is sent.
pub enum EventKind {
    UpdatePlayers,
    TagBanStateUpdate,
    GameEnded,
    ResetReadyStatus,
    LobbyRoomsUpdated,
    SyncWaiting,
    SyncRoundStart,
    NonstopProgress,
    TeamWin,
}

pub open spec fn kind_of(e: RoomEvent) -> EventKind {
    match e {
        RoomEvent::UpdatePlayers { .. } => EventKind::UpdatePlayers,
        RoomEvent::TagBanStateUpdate { .. } => EventKind::TagBanStateUpdate,
        RoomEvent::GameEnded { .. } => EventKind::GameEnded,
        RoomEvent::ResetReadyStatus => EventKind::ResetReadyStatus,
        RoomEvent::LobbyRoomsUpdated => EventKind::LobbyRoomsUpdated,
        RoomEvent::SyncWaiting { .. } => EventKind::SyncWaiting,
        RoomEvent::SyncRoundStart { .. } => EventKind::SyncRoundStart,
        RoomEvent::NonstopProgress { .. } => EventKind::NonstopProgress,
        RoomEvent::TeamWin { .. } => EventKind::TeamWin,
    }
}

pub open spec fn kinds(es: Seq<RoomEvent>) -> Seq<EventKind> {
    es.map_values(|e: RoomEvent| kind_of(e))
}

} // verus!
