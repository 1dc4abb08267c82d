use vstd::prelude::*;

verus! {

/// Whether the server prints its diagnostic messages.
///
/// The server keeps one value of this type for the whole process, behind a
/// lock; it starts switched off.
pub struct DebugMode {
    enabled: bool,
}

impl View for DebugMode {
    type V = bool;

    closed spec fn view(&self) -> bool {
        self.enabled
    }
}

impl DebugMode {
    /// The setting the server starts with: diagnostics off.
    pub fn new() -> (mode: DebugMode)
        ensures
            mode@ == false,
    {
        DebugMode { enabled: false }
    }
}

/// Switches diagnostics on (`flag == true`) or off.
pub fn change_debug(mode: &mut DebugMode, flag: bool)
    ensures
        final(mode)@ == flag,
{
    if flag {
        mode.enabled = true;
    } else {
        mode.enabled = false;
    }
}

/// Whether diagnostics are currently switched on.
pub fn print_debug(mode: &DebugMode) -> (on: bool)
    ensures
        on == mode@,
{
    if mode.enabled {
        true
    } else {
        false
    }
}

} // verus!
