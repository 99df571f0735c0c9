//! A verified core for a hotkey-driven autoclicker daemon.
//!
//! The library holds the daemon's logic: the edge-triggered hotkey matcher
//! with its modifier expressions, the text command parser, the structured
//! control packet codec, and the shared configuration record that the
//! control plane mutates and the click loop consumes. Device polling,
//! sockets and timers live outside, in the thin binary around the library.

pub mod command;
pub mod hotkey;
pub mod keys;
pub mod packet;
pub mod server;
pub mod split;
pub mod text;
