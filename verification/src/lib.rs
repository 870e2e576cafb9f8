//! The decisions an AI agent's headless game client makes: its command
//! line, its control protocol, its event log, and its edits.
pub mod cli;
pub mod config;
pub mod text;
pub mod json;
pub mod protocol;
pub mod events;
pub mod observe;
pub mod edit;
pub mod gifts;
pub mod texture;
pub mod serve;
pub mod look;
pub mod control;
