//! Pseudo-terminal parameters.
use vstd::prelude::*;

verus! {

/// Terminal size reported to the pty.
#[derive(Debug, Clone, Copy, PartialEq, Eq, Structural)]
pub struct PtySize {
    pub rows: u16,
    pub cols: u16,
    pub pixel_width: u16,
    pub pixel_height: u16,
}

impl PtySize {
    /// `rows` x `cols` with no pixel size.
    pub fn new(rows: u16, cols: u16) -> (r: Self)
        ensures
            r == (PtySize { rows, cols, pixel_width: 0, pixel_height: 0 }),
    {
        PtySize { rows, cols, pixel_width: 0, pixel_height: 0 }
    }
}

impl Default for PtySize {
    fn default() -> (r: Self)
        ensures
            r == (PtySize { rows: 24, cols: 80, pixel_width: 0, pixel_height: 0 }),
    {
        PtySize::new(24, 80)
    }
}

/// How to start the shell of a pty.
#[derive(Debug, Clone)]
pub struct PtyConfig {
    /// Shell to run; `None` uses `$SHELL` or `/bin/sh`.
    pub shell: Option<String>,
    /// Extra arguments for the shell.
    pub args: Vec<String>,
    /// Working directory.
    pub working_directory: Option<String>,
    /// Extra environment variables.
    pub env: Vec<(String, String)>,
}

impl PtyConfig {
    /// A configuration running `shell` with no arguments, directory or
    /// extra environment.
    pub fn with_shell(shell: Option<String>) -> (r: Self)
        ensures
            r.shell == shell,
            r.args@.len() == 0,
            r.working_directory is None,
            r.env@.len() == 0,
    {
        PtyConfig { shell, args: Vec::new(), working_directory: None, env: Vec::new() }
    }
}

} // verus!
