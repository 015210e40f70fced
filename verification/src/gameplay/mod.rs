pub mod rules;
pub mod marks;
pub mod scoring;
pub mod flow;
pub mod guess;
pub mod scores;
pub mod partial;
pub mod events;
pub mod details;
pub mod tagban;
pub mod settle;
pub mod finalize;
pub mod sync;
pub mod turns;
pub mod nonstop;
pub mod progress;
pub mod laws;
pub mod lobby;
pub mod standard_flow;
pub mod join;
pub mod leave;
pub mod commands;
pub mod observer;
pub mod round_end;
pub mod nonstop_claim;
