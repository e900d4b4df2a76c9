//! Settings of the server.
use vstd::prelude::*;

verus! {

/// How the Windows capture endpoint's friendly name (the name that Discord and Windows show for
/// the mic) is managed.
#[derive(Debug)]
pub enum MicRenameMode {
    /// No renaming; Discord shows the virtual cable's own name.
    Off,
    /// Rename once at startup to this fixed name.
    Static(String),
    /// Rename on every pairing to the phone's reported device name.
    Auto,
}

impl Clone for MicRenameMode {
    fn clone(&self) -> (copy: MicRenameMode)
        ensures
            copy == *self,
    {
        match self {
            MicRenameMode::Off => MicRenameMode::Off,
            MicRenameMode::Static(name) => MicRenameMode::Static(name.clone()),
            MicRenameMode::Auto => MicRenameMode::Auto,
        }
    }
}

} // verus!
