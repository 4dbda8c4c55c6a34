//! Verified core of the AS2Expert desktop client: the message grid, the folder
//! tree, the maintenance modules and the connection settings, as plain data
//! and state transitions that the windowing shell drives.

use vstd::prelude::*;

pub mod chars;
pub mod config;
pub mod events;
pub mod folders;
pub mod forms;
pub mod icons;
pub mod json;
pub mod laws;
pub mod maint;
pub mod messages;
pub mod model;
pub mod order;
pub mod session;
pub mod state;
pub mod text;

verus! {

} // verus!
