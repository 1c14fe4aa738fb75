//! Session bookkeeping that involves no I/O: identifiers, the sidebar's
//! visibility rules and restored-session records.
pub mod persistence;
pub mod sidebar;

use vstd::prelude::*;
use crate::pty::{PtyConfig, PtySize};
use crate::terminal::CursorStyle;

verus! {

/// Session identifier (increasing).
#[derive(Debug, Clone, Copy, PartialEq, Eq, Structural, Hash)]
pub struct SessionId(pub u64);


/// What a session is started from; `spawn_reader` starts its I/O threads.
pub struct SpawnParams<F> {
    pub pty_config: PtyConfig,
    pub pty_size: PtySize,
    pub terminal_rows: usize,
    pub terminal_cols: usize,
    pub scrollback: usize,
    pub default_cursor_style: CursorStyle,
    pub default_cursor_blinking: bool,
    pub spawn_reader: F,
}

} // verus!
