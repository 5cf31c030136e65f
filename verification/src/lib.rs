//! Verified core of the MHW Radar hunting assistant: log storage and
//! statistics, quest/connection session tracking, HTTP request parsing for the
//! panel API, update-package validation and small text utilities.

pub mod text;
pub mod clock;
pub mod log;
pub mod game_data;
pub mod stats;
pub mod reader;
pub mod session;
pub mod ipc;
pub mod target;
pub mod update;
pub mod updater;
pub mod status;
