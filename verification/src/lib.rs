//! Turn bookkeeping, configuration handling and request building for a
//! bot that plays Hive games on hivegame.com through external AI engines.

pub mod hashing;
pub mod turn_tracker;
pub mod config;
pub mod hivegame_bot_api;
pub mod game_turn;
pub mod game_monitor;
