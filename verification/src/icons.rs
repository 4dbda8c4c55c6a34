//! The named icons used across the interface (the Silk set); the shell
//! maps each to its bundled image.

use vstd::prelude::*;

verus! {

/// The named icons used across the UI.
#[derive(Clone, Copy, PartialEq, Eq, Structural, Debug)]
pub enum Icon {
    Refresh,
    Compose,
    Send,
    Delete,
    Read,
    Unread,
    Message,
    Save,
    Search,
    Add,
    Folder,
    Inbox,
    Lock,
    OkMark,
    Warning,
    In,
    Out,
    Station,
    Partner,
    Certificate,
    Key,
    Attach,
    Logo,
}

} // verus!
