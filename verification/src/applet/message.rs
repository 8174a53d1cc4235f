//! What the popup is told: by the toolkit about its surfaces and the
//! pointer, by the history service, and by the user's clicks and keys.

use vstd::prelude::*;

use super::keys::Action;
use crate::clip::model::{EntryId, Snapshot};
use crate::clip::settings::Settings;

verus! {

/// A surface of the toolkit, by its number.
#[derive(Clone, Copy, Debug, PartialEq, Eq, Structural)]
pub struct SurfaceId(pub u64);

/// One thing that happened, for the popup to answer. `R` is where the
/// toolkit measured a row's menu button, `H` a thumbnail as the toolkit
/// draws it; the popup only keeps them.
#[derive(Clone, Debug)]
pub enum Message<R, H> {
    /// The panel button was pressed.
    TogglePopup,
    /// The popup is asked to open, as by the global shortcut.
    ShowPopup,
    SurfaceOpened(SurfaceId),
    SurfaceClosed(SurfaceId),
    SurfaceFocused(SurfaceId),
    SurfaceUnfocused(SurfaceId),
    PointerEntered(SurfaceId),
    PointerLeft(SurfaceId),
    PointerMoved(SurfaceId),
    /// A moment after the popup opened: from now on a click outside it
    /// closes it.
    ArmOutsideClose(SurfaceId),
    /// A moment after the popup lost the keyboard: close it unless one of
    /// its surfaces has it back.
    CloseIfUnfocused(SurfaceId),
    OpenRowMenu(EntryId),
    PlaceRowMenu(EntryId, Option<R>),
    CloseRowMenu,
    Snapshot(Snapshot),
    SettingsChanged(Settings),
    Search(String),
    Focus(EntryId),
    Key(Action),
    Confirm(EntryId),
    TogglePin(EntryId),
    Delete(EntryId),
    ConfirmClear(bool),
    Clear,
    ThumbnailLoaded(EntryId, Option<H>),
    FormatsLoaded(EntryId, Vec<String>),
    ShowSettings(bool),
    ShowDetails(Option<EntryId>),
    Setting(Settings),
    OpenLink(&'static str),
    Relayout,
}

/// Whether the message is a choice, or leaves the page, so that an open
/// row menu is put away: keys decide for themselves, and what only moves
/// the pointer, the focus or the surfaces leaves the menu open.
pub open spec fn puts_menu_away<R, H>(message: Message<R, H>) -> bool {
    match message {
        Message::CloseRowMenu | Message::Confirm(_) | Message::TogglePin(_) | Message::Delete(_)
        | Message::ConfirmClear(_) | Message::Clear | Message::Search(_) | Message::ShowSettings(_)
        | Message::ShowDetails(_) | Message::Setting(_) | Message::TogglePopup
        | Message::ShowPopup | Message::SurfaceClosed(_) => true,
        _ => false,
    }
}

/// Whether the message puts an open row menu away; see `puts_menu_away`.
pub fn closes_row_menu<R, H>(message: &Message<R, H>) -> (r: bool)
    ensures
        r == puts_menu_away(*message),
{
    match message {
        Message::CloseRowMenu | Message::Confirm(_) | Message::TogglePin(_) | Message::Delete(_)
        | Message::ConfirmClear(_) | Message::Clear | Message::Search(_) | Message::ShowSettings(_)
        | Message::ShowDetails(_) | Message::Setting(_) | Message::TogglePopup
        | Message::ShowPopup | Message::SurfaceClosed(_) => true,
        _ => false,
    }
}

} // verus!
