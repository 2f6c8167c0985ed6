//! A verified core for a desktop multiplexer of interactive terminal
//! sessions: a registry of pseudo-terminal (PTY) sessions with lifecycle
//! operations, an output relay that preserves per-session byte order, and a
//! persistence adapter that snapshots session descriptors deterministically
//! and restores them across restarts.

pub mod clock;
pub mod codec;
pub mod commands;
pub mod config;
pub mod database;
pub mod errors;
pub mod ids;
pub mod pty;
pub mod relay;
pub mod session;
pub mod shutdown;
pub mod strutil;
pub mod terminal;
