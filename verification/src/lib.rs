//! The rules of an anime-character guessing game, verified: rooms, rounds and scores, the
//! feedback on a guess, the payload of a character drawn from its works, search keywords
//! and infoboxes, the limits on public writes, and the archive builder's filters.
pub mod text;
pub mod keyed;
pub mod settings;
pub mod state;
pub mod gameplay;
pub mod web;
pub mod limiter;
pub mod actor;
pub mod records;
pub mod feedback;
pub mod payload;
pub mod tally;
pub mod outbox;
pub mod candidates;
pub mod rooms;
pub mod builder;
pub mod dump;
pub mod archive_dump;
pub mod cache;
pub mod bounds;
pub mod catalog;
pub mod infobox;
pub mod search;
pub mod images;
pub mod ranking;
pub mod search_request;
