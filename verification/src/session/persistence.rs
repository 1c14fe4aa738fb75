//! Validation of restored session records.
use vstd::prelude::*;
use crate::text::{str_chars, utf8_len, utf8_len_of};

verus! {

/// Largest working-directory path kept, in bytes.
pub const MAX_WORKING_DIRECTORY_BYTES: usize = 4096;
/// Largest custom session name kept, in bytes.
pub const MAX_CUSTOM_NAME_BYTES: usize = 256;

/// What is restored of one session.
#[derive(Debug, Clone)]
pub struct SessionRestoreInfo {
    /// Name the user gave the session.
    pub custom_name: Option<String>,
    /// Working directory.
    pub working_directory: Option<String>,
}

/// `o` when its text is at most `max` bytes, else `None`.
pub open spec fn within_bytes(o: Option<String>, max: nat) -> Option<String> {
    match o {
        Some(s) => if utf8_len(s@) <= max { Some(s) } else { None },
        None => None,
    }
}

fn keep_if_short(o: Option<String>, max: usize) -> (r: Option<String>)
    requires
        max < usize::MAX,
    ensures
        r == within_bytes(o, max as nat),
{
    match o {
        Some(s) => {
            let cs = str_chars(s.as_str());
            assert(cs@ == s@);
            let sl = cs.as_slice();
            assert(sl@ == s@);
            let n = utf8_len_of(sl);
            if n <= max { Some(s) } else { None }
        },
        None => None,
    }
}

impl SessionRestoreInfo {
    /// Drops a working directory over 4096 bytes and a name over 256 bytes.
    pub fn validated(self) -> (r: Self)
        ensures
            r.working_directory == within_bytes(self.working_directory, MAX_WORKING_DIRECTORY_BYTES as nat),
            r.custom_name == within_bytes(self.custom_name, MAX_CUSTOM_NAME_BYTES as nat),
    {
        let working_directory = keep_if_short(self.working_directory, MAX_WORKING_DIRECTORY_BYTES);
        let custom_name = keep_if_short(self.custom_name, MAX_CUSTOM_NAME_BYTES);
        SessionRestoreInfo { custom_name, working_directory }
    }
}


/// One saved session: its working directory and name.
#[derive(Debug, Clone)]
pub struct SessionSnapshot {
    pub cwd: String,
    pub custom_name: Option<String>,
}

/// The active session index of a window with `session_count` sessions:
/// `active_session_index` where it names one of them, else 0.
pub fn validated_active_index(active_session_index: usize, session_count: usize) -> (r: usize)
    ensures
        r == (if active_session_index < session_count { active_session_index } else { 0 }),
{
    if session_count == 0 || active_session_index >= session_count {
        0
    } else {
        active_session_index
    }
}

/// Lowest window coordinate kept when a saved geometry is restored.
pub const MIN_WINDOW_POS: i32 = -16384;

/// Highest window coordinate kept when a saved geometry is restored.
pub const MAX_WINDOW_POS: i32 = 65536;

/// A saved window coordinate clamped into `MIN_WINDOW_POS..=MAX_WINDOW_POS`.
pub fn clamp_window_pos(v: i32) -> (r: i32)
    ensures
        r == (if v < MIN_WINDOW_POS { MIN_WINDOW_POS } else if v > MAX_WINDOW_POS { MAX_WINDOW_POS } else { v }),
{
    if v < MIN_WINDOW_POS {
        MIN_WINDOW_POS
    } else if v > MAX_WINDOW_POS {
        MAX_WINDOW_POS
    } else {
        v
    }
}

} // verus!
