//! Terminal emulator core: grid storage, VT state machine, selection,
//! search, vi-mode motions and configuration rules.
pub mod config;
pub mod grid;
pub mod index;
pub mod pty;
pub mod render;
pub mod selection;
pub mod session;
pub mod terminal;
pub mod text;
