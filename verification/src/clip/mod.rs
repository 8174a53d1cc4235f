pub mod model;
pub mod mime;
pub mod dedup;
pub mod settings;
pub mod privacy;
pub mod search;
pub mod thumbnail;
pub mod db;
pub mod runtime;
pub mod wayland;

use vstd::prelude::*;

use self::model::{EntryId, Flavor};
use self::settings::Settings;

verus! {

/// What the popup, or a one-off run of the program, asks of the history
/// service.
#[derive(Clone, Debug, PartialEq, Eq)]
pub enum ClipCommand {
    /// Put the entry back on the clipboard, and paste it where `paste` is
    /// set.
    Use { id: EntryId, paste: bool },
    /// Delete the entry.
    Delete(EntryId),
    /// Empty the history, pins too where `include_pinned` is set.
    Clear { include_pinned: bool },
    /// Pin the entry, or unpin it.
    SetPinned { id: EntryId, pinned: bool },
    /// Offer these flavours as the clipboard selection.
    Offer { flavors: Vec<Flavor> },
    /// Take these settings.
    Settings(Settings),
}

} // verus!
