//! Per-guild sequential playback queue with a score board, verified with Verus.

pub mod board;
pub mod command;
pub mod connection;
pub mod guild_queue;
pub mod text;
pub mod youtube_dl;
