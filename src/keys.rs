use vstd::prelude::*;

verus! {

/// The key code bound to workspace 0; the next nine codes select workspaces 1 to 9.
pub const WORKSPACE_KEY_BASE: u32 = 10;

/// The number of workspaces reachable from the keyboard.
pub const WORKSPACE_KEY_COUNT: u32 = 10;

/// The workspace that a key code selects, if any.
pub open spec fn key_workspace(code: u32) -> Option<u32> {
    if WORKSPACE_KEY_BASE <= code < WORKSPACE_KEY_BASE + WORKSPACE_KEY_COUNT {
        Some((code - WORKSPACE_KEY_BASE) as u32)
    } else {
        None
    }
}

/// Interprets a key code pressed together with the window-manager modifier:
/// codes of the workspace band select a workspace, others do nothing.
pub fn workspace_for_key(code: u32) -> (r: Option<u32>)
    ensures
        r == key_workspace(code),
{
    if WORKSPACE_KEY_BASE <= code && code < WORKSPACE_KEY_BASE + WORKSPACE_KEY_COUNT {
        Some(code - WORKSPACE_KEY_BASE)
    } else {
        None
    }
}

} // verus!
