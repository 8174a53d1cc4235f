//! The popup as a whole: its surfaces, the page it shows, the row menu and
//! the thumbnails it asks for, and what it asks the toolkit and the history
//! service to do in answer to each message.

use std::time::Instant;

use vstd::prelude::*;

use super::keys::Action;
use super::message::{closes_row_menu, puts_menu_away, Message, SurfaceId};
use super::thumbs::{held, inserted, others, Drawn, Thumbs, CAPACITY};
use super::{
    acted, detailed, find, find_entry, fresh, guarded_at, is_pinned, just_dismissed, listed, listed_ids,
    millis_between, newest, newest_of, place_of, position, searched, settled, Browse, BrowseView, Effect,
    REOPEN_GUARD_MS,
};
use crate::clip::model::{CaptureState, EntryId, EntryKind, EntryMeta, Snapshot};
use crate::clip::settings::{sanitised_spec, Settings};
use crate::clip::ClipCommand;

verus! {

/// The most thumbnails asked for after one snapshot.
pub const PER_SNAPSHOT: usize = 24;

/// Whether the popup is open, and as which surface.
#[derive(Clone, Copy, Debug, PartialEq, Eq, Structural)]
pub enum PopupState {
    Closed,
    Open(SurfaceId),
}

/// What the popup asks the toolkit or the history service to do.
#[derive(Clone, Debug, PartialEq, Eq)]
pub enum Task {
    /// Open the popup as this new surface.
    CreatePopup(SurfaceId),
    /// Close the popup's surface.
    DestroyPopup(SurfaceId),
    /// Open the helper layer that takes the keyboard, as this new surface.
    GrabKeyboard(SurfaceId),
    /// Close the helper layer.
    ReleaseKeyboard(SurfaceId),
    /// Let the keyboard follow clicks away from the helper layer.
    KeyboardOnDemand(SurfaceId),
    /// Send `ArmOutsideClose` for the popup a moment from now.
    ArmSoon(SurfaceId),
    /// Send `CloseIfUnfocused` for the popup a moment from now.
    RecheckSoon(SurfaceId),
    /// Put the keyboard focus in the search field.
    FocusSearch,
    /// Scroll the row into view.
    Reveal(EntryId),
    /// Measure where the row's menu button is, and send `PlaceRowMenu`.
    PlaceRowMenu(EntryId),
    /// Ask the history service.
    Send(ClipCommand),
    /// Keep these settings.
    SaveSettings(Settings),
    /// Load the entry's thumbnail, and send `ThumbnailLoaded`.
    LoadThumbnail(EntryId),
    /// Load the formats the entry was kept in, and send `FormatsLoaded`.
    LoadFormats(EntryId),
    /// Open the link in the browser.
    OpenLink(&'static str),
    /// Lay the popup out again.
    Relayout,
}

/// The icon the panel button shows.
#[derive(Clone, Copy, Debug, PartialEq, Eq, Structural)]
pub enum PanelIcon {
    /// Capture is paused by private mode.
    Paused,
    /// Capture could not start.
    Warning,
    /// Capture runs, or is starting.
    Clipboard,
}

/// The icon the panel button shows for the capture state.
pub fn panel_icon(capture: &CaptureState) -> (r: PanelIcon)
    ensures
        r == match capture {
            CaptureState::Paused => PanelIcon::Paused,
            CaptureState::Unavailable { .. } => PanelIcon::Warning,
            _ => PanelIcon::Clipboard,
        },
{
    match capture {
        CaptureState::Paused => PanelIcon::Paused,
        CaptureState::Unavailable { .. } => PanelIcon::Warning,
        CaptureState::Starting | CaptureState::Active(_) => PanelIcon::Clipboard,
    }
}

/// The popup's state. `R` is where the toolkit measured a row's menu
/// button, `H` a thumbnail as the toolkit draws it.
pub struct ClipKeep<R, H> {
    snapshot: Snapshot,
    popup: PopupState,
    keyboard_surface: Option<SurfaceId>,
    focused_surface: Option<SurfaceId>,
    pointer_inside_popup: bool,
    outside_close_armed: bool,
    dismissed_at: Option<Instant>,
    settings: Settings,
    browse: Browse,
    menu: Option<(EntryId, Option<R>)>,
    thumbs: Thumbs<H>,
    formats: Option<(EntryId, Vec<String>)>,
}

/// What a `ClipKeep` holds.
pub struct Shown<R, H> {
    pub snapshot: Snapshot,
    pub popup: PopupState,
    pub keyboard_surface: Option<SurfaceId>,
    pub focused_surface: Option<SurfaceId>,
    pub pointer_inside_popup: bool,
    pub outside_close_armed: bool,
    pub dismissed_at: Option<Instant>,
    pub settings: Settings,
    pub browse: BrowseView,
    pub menu: Option<(EntryId, Option<R>)>,
    pub drawn: Seq<Drawn<H>>,
    pub waiting: Seq<EntryId>,
    pub formats: Option<(EntryId, Seq<String>)>,
}

impl<R, H> View for ClipKeep<R, H> {
    type V = Shown<R, H>;

    closed spec fn view(&self) -> Shown<R, H> {
        Shown {
            snapshot: self.snapshot,
            popup: self.popup,
            keyboard_surface: self.keyboard_surface,
            focused_surface: self.focused_surface,
            pointer_inside_popup: self.pointer_inside_popup,
            outside_close_armed: self.outside_close_armed,
            dismissed_at: self.dismissed_at,
            settings: self.settings,
            browse: self.browse@,
            menu: self.menu,
            drawn: self.thumbs.entries(),
            waiting: self.thumbs.waiting(),
            formats: match self.formats {
                Some((id, mimes)) => Some((id, mimes@)),
                None => None,
            },
        }
    }
}

impl<R, H> Shown<R, H> {
    /// The thumbnail cache is consistent; see `Thumbs::wf`.
    pub open spec fn wf(self) -> bool {
        &&& super::thumbs::unique(super::thumbs::ids_of(self.drawn))
        &&& super::thumbs::unique(self.waiting)
        &&& super::thumbs::loaded_count(self.drawn) <= CAPACITY
    }

    /// The entries of the snapshot.
    pub open spec fn entries(self) -> Seq<EntryMeta> {
        self.snapshot.entries@
    }
}

/// The popup's surface, while it is open.
pub open spec fn popup_of<R, H>(s: Shown<R, H>) -> Option<SurfaceId> {
    match s.popup {
        PopupState::Open(id) => Some(id),
        PopupState::Closed => None,
    }
}

/// Back to the list, unfiltered, with no menu open and no formats shown.
pub open spec fn reset_view<R, H>(s: Shown<R, H>) -> Shown<R, H> {
    Shown { menu: None, browse: fresh(), formats: None, ..s }
}

/// The helper layer let go of, where there is one.
pub open spec fn release_keyboard<R, H>(s: Shown<R, H>) -> (Shown<R, H>, Seq<Task>) {
    match s.keyboard_surface {
        Some(k) => (
            Shown {
                keyboard_surface: None,
                focused_surface: if s.focused_surface == Some(k) {
                    None
                } else {
                    s.focused_surface
                },
                ..s
            },
            seq![Task::ReleaseKeyboard(k)],
        ),
        None => (s, seq![]),
    }
}

/// The popup gone: nothing of it focused, entered or armed, the view reset
/// and the keyboard let go of.
pub open spec fn shut<R, H>(s: Shown<R, H>) -> (Shown<R, H>, Seq<Task>) {
    release_keyboard(
        Shown {
            popup: PopupState::Closed,
            focused_surface: None,
            pointer_inside_popup: false,
            outside_close_armed: false,
            ..reset_view(s)
        },
    )
}

/// The popup closed by the applet, where it is open.
pub open spec fn close_popup<R, H>(s: Shown<R, H>) -> (Shown<R, H>, Seq<Task>) {
    match s.popup {
        PopupState::Open(id) => (shut(s).0, seq![Task::DestroyPopup(id)] + shut(s).1),
        PopupState::Closed => (s, seq![]),
    }
}

/// The toolkit closed the surface `id`: where it was the popup, the popup
/// is gone.
pub open spec fn surface_closed<R, H>(s: Shown<R, H>, id: SurfaceId) -> (Shown<R, H>, Seq<Task>) {
    if s.popup == PopupState::Open(id) {
        shut(s)
    } else {
        (s, seq![])
    }
}

/// The popup opened as the surface `fresh`, where it is closed: on the
/// list, unfiltered, focused on the newest copy.
pub open spec fn open_popup<R, H>(s: Shown<R, H>, fresh: SurfaceId) -> (Shown<R, H>, Seq<Task>) {
    match s.popup {
        PopupState::Open(_) => (s, seq![]),
        PopupState::Closed => {
            let r = reset_view(s);
            (
                Shown {
                    browse: BrowseView { focused: newest_of(s.entries()), ..r.browse },
                    focused_surface: None,
                    pointer_inside_popup: false,
                    outside_close_armed: false,
                    dismissed_at: None,
                    popup: PopupState::Open(fresh),
                    ..r
                },
                seq![Task::CreatePopup(fresh)],
            )
        },
    }
}

/// The panel button pressed: an open popup closes; a closed one opens,
/// unless `guarded`, that is unless the press is the one that dismissed it
/// a moment ago.
pub open spec fn toggle_popup<R, H>(s: Shown<R, H>, guarded: bool, fresh: SurfaceId) -> (
    Shown<R, H>,
    Seq<Task>,
) {
    match s.popup {
        PopupState::Open(_) => close_popup(s),
        PopupState::Closed => {
            let t = Shown { dismissed_at: None, ..s };
            if guarded {
                (t, seq![])
            } else {
                open_popup(t, fresh)
            }
        },
    }
}

/// Scroll to the focused row, if there is one.
pub open spec fn reveal_focus<R, H>(s: Shown<R, H>) -> Seq<Task> {
    match s.browse.focused {
        Some(id) => seq![Task::Reveal(id)],
        None => seq![],
    }
}

/// The popup's surface is up: the keyboard is taken through a helper
/// layer (as the surface `fresh`, unless one is there), the search field
/// focused, the focused row shown, and clicks outside armed a moment later.
pub open spec fn surface_opened<R, H>(s: Shown<R, H>, id: SurfaceId, fresh: SurfaceId) -> (
    Shown<R, H>,
    Seq<Task>,
) {
    if popup_of(s) != Some(id) {
        (s, seq![])
    } else {
        let t = match s.keyboard_surface {
            Some(_) => s,
            None => Shown { keyboard_surface: Some(fresh), ..s },
        };
        let grab = match s.keyboard_surface {
            Some(_) => seq![],
            None => seq![Task::GrabKeyboard(fresh)],
        };
        (t, grab + seq![Task::FocusSearch] + reveal_focus(t) + seq![Task::ArmSoon(id)])
    }
}

/// The surface `id` got the keyboard.
pub open spec fn surface_focused<R, H>(s: Shown<R, H>, id: SurfaceId) -> (Shown<R, H>, Seq<Task>) {
    if popup_of(s) == Some(id) {
        (Shown { focused_surface: Some(id), ..s }, seq![])
    } else if s.keyboard_surface != Some(id) {
        (s, seq![])
    } else {
        (Shown { focused_surface: Some(id), ..s }, seq![Task::KeyboardOnDemand(id)])
    }
}

/// The popup dismissed at `now`: closed, and the time kept so that the
/// click that dismissed it does not open it again.
pub open spec fn dismiss<R, H>(s: Shown<R, H>, now: Instant) -> (Shown<R, H>, Seq<Task>) {
    close_popup(Shown { dismissed_at: Some(now), ..s })
}

/// The surface `id` lost the keyboard at `now`. Where it is the popup's
/// and a click outside is armed with the pointer away, the popup is
/// dismissed; otherwise it is looked at again a moment later.
pub open spec fn surface_unfocused<R, H>(s: Shown<R, H>, id: SurfaceId, now: Instant) -> (
    Shown<R, H>,
    Seq<Task>,
) {
    if !(popup_of(s) == Some(id) || s.keyboard_surface == Some(id)) {
        (s, seq![])
    } else {
        let t = if s.focused_surface == Some(id) {
            Shown { focused_surface: None, ..s }
        } else {
            s
        };
        if t.outside_close_armed && !t.pointer_inside_popup {
            dismiss(t, now)
        } else {
            match popup_of(t) {
                Some(popup) => (t, seq![Task::RecheckSoon(popup)]),
                None => (t, seq![]),
            }
        }
    }
}

/// A moment after the popup lost the keyboard: where none of its surfaces
/// has it back, it is dismissed at `now`.
pub open spec fn close_if_unfocused<R, H>(s: Shown<R, H>, popup: SurfaceId, now: Instant) -> (
    Shown<R, H>,
    Seq<Task>,
) {
    if popup_of(s) != Some(popup) || s.focused_surface is Some {
        (s, seq![])
    } else {
        dismiss(s, now)
    }
}

/// The pointer entered or left the surface `id`.
pub open spec fn pointer_at<R, H>(s: Shown<R, H>, id: SurfaceId, inside: bool) -> Shown<R, H> {
    if popup_of(s) == Some(id) {
        Shown { pointer_inside_popup: inside, ..s }
    } else {
        s
    }
}

/// From now on a click outside the popup `id` closes it.
pub open spec fn armed<R, H>(s: Shown<R, H>, id: SurfaceId) -> Shown<R, H> {
    if popup_of(s) == Some(id) {
        Shown { outside_close_armed: true, ..s }
    } else {
        s
    }
}

/// The menu of the row `id` toggled: opened (and the row focused, its
/// button measured), or closed where it was the one open.
pub open spec fn open_row_menu<R, H>(s: Shown<R, H>, id: EntryId) -> (Shown<R, H>, Seq<Task>) {
    if s.menu matches Some((current, _)) && current == id {
        (Shown { menu: None, ..s }, seq![])
    } else {
        (
            Shown {
                menu: Some((id, None)),
                browse: BrowseView { focused: Some(id), ..s.browse },
                ..s
            },
            seq![Task::PlaceRowMenu(id)],
        )
    }
}

/// Where the menu of the row `id` goes, if it is still the one open.
pub open spec fn place_row_menu<R, H>(s: Shown<R, H>, id: EntryId, bounds: Option<R>) -> Shown<R, H> {
    if s.menu matches Some((current, _)) && current == id {
        Shown { menu: Some((id, bounds)), ..s }
    } else {
        s
    }
}

/// The thumbnail of `id` asked for, unless it is loaded or on its way.
pub open spec fn load_thumbnail<R, H>(s: Shown<R, H>, id: EntryId) -> (Shown<R, H>, Seq<Task>) {
    if held(s.drawn, id) is None && !s.waiting.contains(id) {
        (Shown { waiting: s.waiting.push(id), ..s }, seq![Task::LoadThumbnail(id)])
    } else {
        (s, seq![])
    }
}

/// The thumbnails of `ids` asked for in turn.
pub open spec fn load_all<R, H>(s: Shown<R, H>, ids: Seq<EntryId>) -> (Shown<R, H>, Seq<Task>)
    decreases ids.len(),
{
    if ids.len() == 0 {
        (s, seq![])
    } else {
        let first = load_thumbnail(s, ids[0]);
        let rest = load_all(first.0, ids.drop_first());
        (rest.0, first.1 + rest.1)
    }
}

/// The images of `entries`, in order, whose thumbnails are neither loaded
/// nor on their way, at most `room` of them.
pub open spec fn wanted_images<H>(
    entries: Seq<EntryMeta>,
    drawn: Seq<Drawn<H>>,
    waiting: Seq<EntryId>,
    room: nat,
) -> Seq<EntryId>
    decreases entries.len(),
{
    if entries.len() == 0 || room == 0 {
        seq![]
    } else {
        let e = entries[0];
        if e.kind == EntryKind::Image && held(drawn, e.id) is None && !waiting.contains(e.id) {
            seq![e.id] + wanted_images(entries.drop_first(), drawn, waiting, (room - 1) as nat)
        } else {
            wanted_images(entries.drop_first(), drawn, waiting, room)
        }
    }
}

/// A new snapshot: focus settles on a row still listed, the missing
/// thumbnails of its first images are asked for, and the popup laid out
/// again.
pub open spec fn snapshot_arrived<R, H>(s: Shown<R, H>, snapshot: Snapshot) -> (Shown<R, H>, Seq<Task>) {
    let t = Shown {
        snapshot: snapshot,
        browse: settled(s.browse, snapshot.entries@),
        ..s
    };
    let loads = load_all(
        t,
        wanted_images(snapshot.entries@, t.drawn, t.waiting, PER_SNAPSHOT as nat),
    );
    (loads.0, loads.1 + seq![Task::Relayout])
}

/// Settings changed elsewhere: taken, within their ranges, and passed on to
/// the history service.
pub open spec fn settings_changed<R, H>(s: Shown<R, H>, settings: Settings) -> (Shown<R, H>, Seq<Task>) {
    let taken = sanitised_spec(settings);
    (Shown { settings: taken, ..s }, seq![Task::Send(ClipCommand::Settings(taken))])
}

/// Settings changed on the settings page: kept, then taken.
pub open spec fn apply_settings<R, H>(s: Shown<R, H>, settings: Settings) -> (Shown<R, H>, Seq<Task>) {
    let kept = sanitised_spec(settings);
    (settings_changed(s, kept).0, seq![Task::SaveSettings(kept)] + settings_changed(s, kept).1)
}

/// The search field now reads `query`; focus goes to the first match.
pub open spec fn search<R, H>(s: Shown<R, H>, query: Seq<char>) -> (Shown<R, H>, Seq<Task>) {
    let t = Shown { browse: searched(s.browse, query, s.entries()), ..s };
    (t, reveal_focus(t))
}

/// What the details page of `id` loads once it is open: its formats, and
/// the thumbnail of an image.
pub open spec fn details_loads<R, H>(s: Shown<R, H>, id: EntryId, kind: EntryKind) -> (
    Shown<R, H>,
    Seq<Task>,
) {
    let t = Shown { formats: None, ..s };
    if kind == EntryKind::Image {
        (load_thumbnail(t, id).0, seq![Task::LoadFormats(id)] + load_thumbnail(t, id).1)
    } else {
        (t, seq![Task::LoadFormats(id)])
    }
}

/// The details page opened on `id`, or closed where the snapshot does not
/// hold it; the formats of an earlier page are forgotten either way.
pub open spec fn show_details<R, H>(s: Shown<R, H>, id: Option<EntryId>) -> (Shown<R, H>, Seq<Task>) {
    let d = detailed(s.browse, id, s.entries());
    let t = Shown { browse: d.0, formats: None, ..s };
    match d.1 {
        Effect::Details(shown, kind) => details_loads(t, shown, kind),
        _ => (t, seq![]),
    }
}

/// The entry used: put back on the clipboard (and pasted, where the
/// settings say so), and the popup closed.
pub open spec fn confirm<R, H>(s: Shown<R, H>, id: EntryId) -> (Shown<R, H>, Seq<Task>) {
    (
        close_popup(s).0,
        seq![Task::Send(ClipCommand::Use { id, paste: s.settings.paste_on_use })] + close_popup(s).1,
    )
}

/// Whether the entry `id` is pinned in the snapshot.
pub open spec fn pinned_in(entries: Seq<EntryMeta>, id: EntryId) -> bool {
    find_entry(entries, id) matches Some(k) && entries[k].pinned is Some
}

/// The entry pinned, or unpinned where it is pinned.
pub open spec fn toggle_pin<R, H>(s: Shown<R, H>, id: EntryId) -> (Shown<R, H>, Seq<Task>) {
    (s, seq![Task::Send(ClipCommand::SetPinned { id, pinned: !pinned_in(s.entries(), id) })])
}

/// The entry deleted; its place is kept, for focus to go to the row that
/// takes it.
pub open spec fn delete<R, H>(s: Shown<R, H>, id: EntryId) -> (Shown<R, H>, Seq<Task>) {
    let place = match place_of(listed_ids(s.entries(), s.browse.query), id) {
        Some(k) => Some(k as usize),
        None => None,
    };
    (Shown { browse: BrowseView { restore: place, ..s.browse }, ..s }, seq![Task::Send(ClipCommand::Delete(id))])
}

/// The history cleared but for its pins, and the thumbnails forgotten.
pub open spec fn clear<R, H>(s: Shown<R, H>) -> (Shown<R, H>, Seq<Task>) {
    (
        Shown {
            browse: BrowseView { clearing: false, ..s.browse },
            drawn: seq![],
            waiting: seq![],
            ..s
        },
        seq![Task::Send(ClipCommand::Clear { include_pinned: false })],
    )
}

/// What the popup does about an effect of a key.
pub open spec fn carry_out<R, H>(s: Shown<R, H>, effect: Effect) -> (Shown<R, H>, Seq<Task>) {
    match effect {
        Effect::Nothing => (s, seq![]),
        Effect::Reveal => (s, reveal_focus(s)),
        Effect::FocusSearch => (s, seq![Task::FocusSearch]),
        Effect::Close => close_popup(s),
        Effect::Use(id) => confirm(s, id),
        Effect::Delete(id) => (s, seq![Task::Send(ClipCommand::Delete(id))]),
        Effect::Pin(id, pinned) => (s, seq![Task::Send(ClipCommand::SetPinned { id, pinned })]),
        Effect::Details(id, kind) => details_loads(s, id, kind),
        Effect::Clear => clear(s),
    }
}

/// Whether the key opens the details page of the focused row, forgetting
/// the formats of an earlier one, whether or not the snapshot holds it.
pub open spec fn opens_details(b: BrowseView, action: Action) -> bool {
    action == Action::ShowDetails && b.details is None && !b.showing_settings && b.focused is Some
}

/// What a key does; see `acted`.
pub open spec fn act<R, H>(s: Shown<R, H>, action: Action) -> (Shown<R, H>, Seq<Task>) {
    let a = acted(s.browse, action, s.entries());
    let t = Shown {
        browse: a.0,
        formats: if opens_details(s.browse, action) {
            None
        } else {
            s.formats
        },
        ..s
    };
    carry_out(t, a.1)
}

/// A key: an open row menu is put away, and Escape does nothing more
/// then; any other key acts as well.
pub open spec fn key<R, H>(s: Shown<R, H>, action: Action) -> (Shown<R, H>, Seq<Task>) {
    let t = Shown { menu: None, ..s };
    if s.menu is Some && action == Action::Dismiss {
        (t, seq![])
    } else {
        act(t, action)
    }
}

/// What the popup does about `message`: an open row menu is put away
/// first where the message calls for it; `guarded` tells whether a press
/// of the panel button comes just after a dismissal, `now` is the time and
/// `fresh` the surface a new popup or helper layer takes.
pub open spec fn updated<R, H>(
    s: Shown<R, H>,
    message: Message<R, H>,
    guarded: bool,
    now: Instant,
    fresh: SurfaceId,
) -> (Shown<R, H>, Seq<Task>) {
    let s = if s.menu is Some && puts_menu_away(message) {
        Shown { menu: None, ..s }
    } else {
        s
    };
    match message {
        Message::Relayout | Message::CloseRowMenu => (s, seq![]),
        Message::TogglePopup => toggle_popup(s, guarded, fresh),
        Message::ShowPopup => open_popup(s, fresh),
        Message::SurfaceOpened(id) => surface_opened(s, id, fresh),
        Message::SurfaceClosed(id) => surface_closed(s, id),
        Message::SurfaceFocused(id) => surface_focused(s, id),
        Message::SurfaceUnfocused(id) => surface_unfocused(s, id, now),
        Message::PointerEntered(id) | Message::PointerMoved(id) => (pointer_at(s, id, true), seq![]),
        Message::PointerLeft(id) => (pointer_at(s, id, false), seq![]),
        Message::ArmOutsideClose(id) => (armed(s, id), seq![]),
        Message::CloseIfUnfocused(id) => close_if_unfocused(s, id, now),
        Message::OpenRowMenu(id) => open_row_menu(s, id),
        Message::PlaceRowMenu(id, bounds) => (place_row_menu(s, id, bounds), seq![]),
        Message::Snapshot(snapshot) => snapshot_arrived(s, snapshot),
        Message::SettingsChanged(settings) => settings_changed(s, settings),
        Message::Search(query) => search(s, query@),
        Message::Focus(id) => (Shown { browse: BrowseView { focused: Some(id), ..s.browse }, ..s }, seq![]),
        Message::Key(action) => key(s, action),
        Message::Confirm(id) => confirm(s, id),
        Message::TogglePin(id) => toggle_pin(s, id),
        Message::Delete(id) => delete(s, id),
        Message::ConfirmClear(asking) => (
            Shown { browse: BrowseView { clearing: asking, ..s.browse }, ..s },
            seq![],
        ),
        Message::Clear => clear(s),
        Message::ThumbnailLoaded(id, handle) => (
            Shown { drawn: inserted(s.drawn, id, handle), waiting: others(s.waiting, id), ..s },
            seq![],
        ),
        Message::FormatsLoaded(id, mimes) => (
            if s.browse.details == Some(id) {
                Shown { formats: Some((id, mimes@)), ..s }
            } else {
                s
            },
            seq![],
        ),
        Message::ShowSettings(showing) => (
            Shown {
                browse: BrowseView {
                    showing_settings: showing,
                    details: None,
                    clearing: false,
                    ..s.browse
                },
                ..s
            },
            seq![],
        ),
        Message::ShowDetails(id) => show_details(s, id),
        Message::Setting(settings) => apply_settings(s, settings),
        Message::OpenLink(url) => (s, seq![Task::OpenLink(url)]),
    }
}

/// The surfaces are held consistently: the helper layer exists only while
/// the popup is open, and the surface with the keyboard is the popup or the
/// helper layer, if any.
pub open spec fn surfaces_held<R, H>(s: Shown<R, H>) -> bool {
    &&& s.keyboard_surface is Some ==> s.popup is Open
    &&& s.focused_surface matches Some(f) ==> (s.popup == PopupState::Open(f)
        || s.keyboard_surface == Some(f))
}

/// Every message keeps the surfaces held consistently.
pub proof fn every_message_keeps_the_surfaces_held<R, H>(
    s: Shown<R, H>,
    message: Message<R, H>,
    guarded: bool,
    now: Instant,
    fresh: SurfaceId,
)
    requires
        surfaces_held(s),
    ensures
        surfaces_held(updated(s, message, guarded, now, fresh).0),
{
    let t = if s.menu is Some && puts_menu_away(message) {
        Shown { menu: None, ..s }
    } else {
        s
    };
    assert(surfaces_held(close_popup(t).0));
    match message {
        Message::Key(action) => {
            let k = Shown { menu: None, ..t };
            let a = acted(k.browse, action, k.entries());
            let u = Shown {
                browse: a.0,
                formats: if opens_details(k.browse, action) {
                    None
                } else {
                    k.formats
                },
                ..k
            };
            assert(surfaces_held(close_popup(u).0));
        },
        Message::Snapshot(snapshot) => {
            let u = Shown { snapshot: snapshot, browse: settled(t.browse, snapshot.entries@), ..t };
            lemma_loads_keep_surfaces(
                u,
                wanted_images(snapshot.entries@, u.drawn, u.waiting, PER_SNAPSHOT as nat),
            );
        },
        _ => {},
    }
}

/// Asking for thumbnails leaves the surfaces as they are.
proof fn lemma_loads_keep_surfaces<R, H>(s: Shown<R, H>, ids: Seq<EntryId>)
    ensures
        ({
            let t = load_all(s, ids).0;
            &&& t.popup == s.popup
            &&& t.keyboard_surface == s.keyboard_surface
            &&& t.focused_surface == s.focused_surface
            &&& t.menu == s.menu
        }),
    decreases ids.len(),
{
    if ids.len() > 0 {
        lemma_loads_keep_surfaces(load_thumbnail(s, ids[0]).0, ids.drop_first());
    }
}

/// A choice, or leaving the page, puts an open row menu away.
pub proof fn a_choice_puts_the_menu_away<R, H>(
    s: Shown<R, H>,
    message: Message<R, H>,
    guarded: bool,
    now: Instant,
    fresh: SurfaceId,
)
    requires
        puts_menu_away(message),
    ensures
        updated(s, message, guarded, now, fresh).0.menu is None,
{
}

/// Whether the tasks put an entry back on the clipboard.
pub open spec fn uses_an_entry(tasks: Seq<Task>) -> bool {
    exists|k: int| 0 <= k < tasks.len() && (#[trigger] tasks[k]) matches Task::Send(ClipCommand::Use { .. })
}

/// Whether `task` pastes: it sends a `Use` command that asks for the paste.
pub open spec fn pastes(task: Task) -> bool {
    task matches Task::Send(ClipCommand::Use { paste: true, .. })
}

/// Whether `task` sends a `Use` command that asks for no paste.
pub open spec fn uses_without_paste(task: Task) -> bool {
    task matches Task::Send(ClipCommand::Use { paste: false, .. })
}

/// Loading thumbnails asks the history service nothing.
proof fn lemma_loads_send_nothing<R, H>(s: Shown<R, H>, ids: Seq<EntryId>)
    ensures
        forall|k: int| 0 <= k < load_all(s, ids).1.len() ==> (#[trigger] load_all(s, ids).1[k]) is LoadThumbnail,
    decreases ids.len(),
{
    if ids.len() > 0 {
        let first = load_thumbnail(s, ids[0]);
        lemma_loads_send_nothing(first.0, ids.drop_first());
        let rest = load_all(first.0, ids.drop_first());
        assert forall|k: int| 0 <= k < load_all(s, ids).1.len() implies (#[trigger] load_all(s, ids).1[k]) is LoadThumbnail by {
            if k >= first.1.len() {
                assert(load_all(s, ids).1[k] == rest.1[k - first.1.len()]);
            }
        }
    }
}

/// Closing the popup asks the history service nothing.
proof fn lemma_closing_sends_nothing<R, H>(s: Shown<R, H>)
    ensures
        forall|k: int| 0 <= k < close_popup(s).1.len() ==> !((#[trigger] close_popup(s).1[k]) is Send),
{
    let tasks = close_popup(s).1;
    assert forall|k: int| 0 <= k < tasks.len() implies !((#[trigger] tasks[k]) is Send) by {
        match s.popup {
            PopupState::Open(id) => {
                if k > 0 {
                    assert(tasks[k] == shut(s).1[k - 1]);
                }
            },
            PopupState::Closed => {},
        }
    }
}

/// Using an entry from the popup sends exactly one `Use` command: first,
/// for that entry, asking for the paste exactly when the settings say to
/// paste on use. With pasting off, nothing is pasted.
pub proof fn using_an_entry_pastes_as_the_settings_say<R, H>(
    s: Shown<R, H>,
    id: EntryId,
    guarded: bool,
    now: Instant,
    fresh: SurfaceId,
)
    ensures
        ({
            let tasks = updated(s, Message::Confirm(id), guarded, now, fresh).1;
            &&& tasks.len() > 0
            &&& tasks[0] == Task::Send(ClipCommand::Use { id, paste: s.settings.paste_on_use })
            &&& forall|k: int| 0 < k < tasks.len() ==> !((#[trigger] tasks[k]) is Send)
            &&& !s.settings.paste_on_use ==> forall|k: int| 0 <= k < tasks.len() ==> !pastes(#[trigger] tasks[k])
        }),
{
    let t = if s.menu is Some && puts_menu_away(Message::<R, H>::Confirm(id)) {
        Shown { menu: None, ..s }
    } else {
        s
    };
    lemma_closing_sends_nothing(t);
    let tasks = updated(s, Message::Confirm(id), guarded, now, fresh).1;
    assert forall|k: int| 0 < k < tasks.len() implies !((#[trigger] tasks[k]) is Send) by {
        assert(tasks[k] == close_popup(t).1[k - 1]);
    }
}

/// Whatever the message, a `Use` command the popup sends asks for the paste
/// exactly when the settings say to paste on use.
pub proof fn every_use_pastes_as_the_settings_say<R, H>(
    s: Shown<R, H>,
    message: Message<R, H>,
    guarded: bool,
    now: Instant,
    fresh: SurfaceId,
)
    ensures
        ({
            let tasks = updated(s, message, guarded, now, fresh).1;
            &&& forall|k: int| 0 <= k < tasks.len() && pastes(#[trigger] tasks[k]) ==> s.settings.paste_on_use
            &&& forall|k: int| 0 <= k < tasks.len() && uses_without_paste(#[trigger] tasks[k]) ==> !s.settings.paste_on_use
        }),
{
    let t = if s.menu is Some && puts_menu_away(message) {
        Shown { menu: None, ..s }
    } else {
        s
    };
    let tasks = updated(s, message, guarded, now, fresh).1;
    assert forall|k: int| 0 <= k < tasks.len() && (pastes(#[trigger] tasks[k]) || uses_without_paste(tasks[k]))
        implies (pastes(tasks[k]) ==> s.settings.paste_on_use) && (uses_without_paste(tasks[k]) ==> !s.settings.paste_on_use) by {
        match message {
            Message::Confirm(id) => {
                lemma_closing_sends_nothing(t);
                if k > 0 {
                    assert(tasks[k] == close_popup(t).1[k - 1]);
                }
            },
            Message::Key(action) => {
                let u = Shown { menu: None, ..t };
                let a = acted(u.browse, action, u.entries());
                let v = Shown {
                    browse: a.0,
                    formats: if opens_details(u.browse, action) {
                        None
                    } else {
                        u.formats
                    },
                    ..u
                };
                lemma_closing_sends_nothing(v);
                if k > 0 && a.1 is Use {
                    assert(tasks[k] == close_popup(v).1[k - 1]);
                }
            },
            Message::Snapshot(snapshot) => {
                let u = Shown { snapshot: snapshot, browse: settled(t.browse, snapshot.entries@), ..t };
                let ids = wanted_images(snapshot.entries@, u.drawn, u.waiting, PER_SNAPSHOT as nat);
                lemma_loads_send_nothing(u, ids);
                if k < load_all(u, ids).1.len() {
                    assert(tasks[k] == load_all(u, ids).1[k]);
                }
                assert(!pastes(tasks[k]) && !uses_without_paste(tasks[k]));
            },
            _ => {
                lemma_closing_sends_nothing(t);
            },
        }
    }
}

/// Dismissing the popup, by Escape, by a click elsewhere or by the panel
/// button, never uses an entry, so it never pastes anything.
pub proof fn dismissing_never_pastes<R, H>(
    s: Shown<R, H>,
    message: Message<R, H>,
    guarded: bool,
    now: Instant,
    fresh: SurfaceId,
)
    requires
        message matches Message::Key(Action::Dismiss) || message is SurfaceUnfocused
            || message is CloseIfUnfocused || message is TogglePopup || message is SurfaceClosed,
    ensures
        !uses_an_entry(updated(s, message, guarded, now, fresh).1),
{
    let t = if s.menu is Some && puts_menu_away(message) {
        Shown { menu: None, ..s }
    } else {
        s
    };
    let tasks = updated(s, message, guarded, now, fresh).1;
    assert forall|k: int| 0 <= k < tasks.len() implies !((#[trigger] tasks[k]) matches Task::Send(
        ClipCommand::Use { .. },
    )) by {
        match message {
            Message::Key(action) => {
                let u = Shown { menu: None, ..t };
                let a = acted(u.browse, action, u.entries());
                assert(!(a.1 is Use));
            },
            _ => {},
        }
    }
}

/// A row menu stays open through what is not a choice: a new snapshot,
/// the pointer moving, focus moving between rows or surfaces, a new layout.
pub proof fn the_menu_stays_through_what_is_not_a_choice<R, H>(
    s: Shown<R, H>,
    message: Message<R, H>,
    guarded: bool,
    now: Instant,
    fresh: SurfaceId,
)
    requires
        message is Snapshot || message is PointerEntered || message is PointerMoved
            || message is PointerLeft || message is Focus || message is SurfaceFocused
            || message is Relayout || message is ArmOutsideClose,
    ensures
        updated(s, message, guarded, now, fresh).0.menu == s.menu,
{
    match message {
        Message::Snapshot(snapshot) => {
            let u = Shown { snapshot: snapshot, browse: settled(s.browse, snapshot.entries@), ..s };
            lemma_loads_keep_surfaces(
                u,
                wanted_images(snapshot.entries@, u.drawn, u.waiting, PER_SNAPSHOT as nat),
            );
        },
        _ => {},
    }
}

/// Escape with a row menu open only puts the menu away: the popup stays
/// as it is, on the same page.
pub proof fn escape_puts_the_menu_away_first<R, H>(
    s: Shown<R, H>,
    guarded: bool,
    now: Instant,
    fresh: SurfaceId,
)
    requires
        s.menu is Some,
    ensures
        updated(s, Message::Key(Action::Dismiss), guarded, now, fresh) == (
            Shown { menu: None, ..s },
            Seq::<Task>::empty(),
        ),
{
}

/// Closing the popup forgets what it showed and lets go of the keyboard.
pub proof fn closing_forgets_the_view<R, H>(s: Shown<R, H>)
    requires
        s.popup is Open,
    ensures
        ({
            let c = close_popup(s);
            &&& c.0.popup == PopupState::Closed
            &&& c.0.keyboard_surface is None
            &&& c.0.focused_surface is None
            &&& c.0.browse == fresh()
            &&& c.0.menu is None
            &&& c.0.formats is None
            &&& c.1[0] == Task::DestroyPopup(s.popup->Open_0)
        }),
{
}

/// With the popup closed and not just dismissed, the panel button opens it,
/// on the newest copy, and a second press closes it again.
pub proof fn the_button_opens_then_closes<R, H>(
    s: Shown<R, H>,
    now: Instant,
    fresh: SurfaceId,
    later: SurfaceId,
)
    requires
        s.popup == PopupState::Closed,
        s.dismissed_at is None,
        surfaces_held(s),
    ensures
        ({
            let opened = updated(s, Message::TogglePopup, guarded_at(s.dismissed_at, now), now, fresh).0;
            &&& opened.popup == PopupState::Open(fresh)
            &&& opened.browse.focused == newest_of(s.entries())
            &&& updated(opened, Message::TogglePopup, guarded_at(opened.dismissed_at, now), now, later).0.popup
                == PopupState::Closed
        }),
{
}

/// The popup dismissed by a click outside keeps when it was dismissed, and
/// the press of the panel button that came with that click leaves it closed.
pub proof fn a_dismissing_click_does_not_reopen_the_popup<R, H>(
    s: Shown<R, H>,
    id: SurfaceId,
    now: Instant,
    fresh: SurfaceId,
)
    requires
        s.popup == PopupState::Open(id),
        s.outside_close_armed,
        !s.pointer_inside_popup,
    ensures
        ({
            let closed = updated(s, Message::SurfaceUnfocused(id), guarded_at(s.dismissed_at, now), now, fresh).0;
            &&& closed.popup == PopupState::Closed
            &&& closed.dismissed_at == Some(now)
            &&& guarded_at(closed.dismissed_at, now)
            &&& updated(closed, Message::TogglePopup, guarded_at(closed.dismissed_at, now), now, fresh).0.popup
                == PopupState::Closed
        }),
{
}

/// A press of the panel button once the guard after a dismissal has run out
/// opens the popup again.
pub proof fn a_later_click_reopens_the_popup<R, H>(
    s: Shown<R, H>,
    dismissed: Instant,
    now: Instant,
    fresh: SurfaceId,
)
    requires
        s.popup == PopupState::Closed,
        s.dismissed_at == Some(dismissed),
        dismissed != now,
        millis_between(now, dismissed) >= REOPEN_GUARD_MS,
    ensures
        !guarded_at(s.dismissed_at, now),
        updated(s, Message::TogglePopup, guarded_at(s.dismissed_at, now), now, fresh).0.popup
            == PopupState::Open(fresh),
{
}

impl<R, H> ClipKeep<R, H> {
    /// The popup, closed, over `snapshot` with `settings`.
    pub fn new(snapshot: Snapshot, settings: Settings) -> (r: Self)
        ensures
            r@.wf(),
            r@ == (Shown::<R, H> {
                snapshot: snapshot,
                popup: PopupState::Closed,
                keyboard_surface: None,
                focused_surface: None,
                pointer_inside_popup: false,
                outside_close_armed: false,
                dismissed_at: None,
                settings: settings,
                browse: fresh(),
                menu: None,
                drawn: seq![],
                waiting: seq![],
                formats: None,
            }),
    {
        let mut browse = Browse {
            query: String::new(),
            focused: None,
            restore: None,
            showing_settings: false,
            details: None,
            clearing: false,
        };
        browse.reset();
        ClipKeep {
            snapshot,
            popup: PopupState::Closed,
            keyboard_surface: None,
            focused_surface: None,
            pointer_inside_popup: false,
            outside_close_armed: false,
            dismissed_at: None,
            settings,
            browse,
            menu: None,
            thumbs: Thumbs::new(),
            formats: None,
        }
    }

    /// The snapshot shown.
    pub fn snapshot(&self) -> (r: &Snapshot)
        ensures
            *r == self@.snapshot,
    {
        &self.snapshot
    }

    /// The settings in force.
    pub fn settings(&self) -> (r: Settings)
        ensures
            r == self@.settings,
    {
        self.settings
    }

    /// The page and row shown.
    pub fn browse(&self) -> (r: &Browse)
        ensures
            r@ == self@.browse,
    {
        &self.browse
    }

    /// The popup's surface, while it is open.
    pub fn popup_id(&self) -> (r: Option<SurfaceId>)
        ensures
            r == popup_of(self@),
    {
        match self.popup {
            PopupState::Open(id) => Some(id),
            PopupState::Closed => None,
        }
    }

    /// The helper layer that holds the keyboard, while there is one.
    pub fn keyboard_surface(&self) -> (r: Option<SurfaceId>)
        ensures
            r == self@.keyboard_surface,
    {
        self.keyboard_surface
    }

    /// The row whose menu is open, with where its button is once measured.
    pub fn row_menu(&self) -> (r: &Option<(EntryId, Option<R>)>)
        ensures
            *r == self@.menu,
    {
        &self.menu
    }

    /// The formats the details page lists: those loaded for the entry it
    /// shows, and none for another one.
    pub fn formats(&self) -> (r: &[String])
        ensures
            r@ == match self@.formats {
                Some((id, mimes)) => if self@.browse.details == Some(id) {
                    mimes
                } else {
                    seq![]
                },
                None => seq![],
            },
    {
        match &self.formats {
            Some((id, mimes)) => match self.browse.details {
                Some(shown) => if shown.0 == id.0 {
                    mimes.as_slice()
                } else {
                    &[]
                },
                None => &[],
            },
            None => &[],
        }
    }

    /// The entry the details page shows, while the snapshot holds it.
    pub fn details(&self) -> (r: Option<&EntryMeta>)
        ensures
            match self@.browse.details {
                Some(id) => match find_entry(self@.entries(), id) {
                    Some(k) => r == Some(&self@.entries()[k]),
                    None => r is None,
                },
                None => r is None,
            },
    {
        let id = match self.browse.details {
            Some(id) => id,
            None => return None,
        };
        let entries: &[EntryMeta] = &self.snapshot.entries;
        match find(entries, id) {
            Some(k) => Some(&entries[k]),
            None => None,
        }
    }

    /// The thumbnails loaded.
    pub fn thumbs(&self) -> (r: &Thumbs<H>)
        ensures
            r.entries() == self@.drawn,
            r.waiting() == self@.waiting,
    {
        &self.thumbs
    }

    /// Back to the list, unfiltered, with no menu and no formats.
    fn reset_view(&mut self)
        ensures
            final(self)@ == reset_view(old(self)@),
    {
        self.browse.reset();
        self.menu = None;
        self.formats = None;
    }

    /// Lets go of the helper layer; see `release_keyboard`.
    fn release_keyboard(&mut self) -> (r: Vec<Task>)
        ensures
            (final(self)@, r@) == release_keyboard(old(self)@),
    {
        match self.keyboard_surface {
            Some(k) => {
                self.keyboard_surface = None;
                if self.focused_surface == Some(k) {
                    self.focused_surface = None;
                }
                vec![Task::ReleaseKeyboard(k)]
            },
            None => Vec::new(),
        }
    }

    /// The popup gone; see `shut`.
    fn shut(&mut self) -> (r: Vec<Task>)
        ensures
            (final(self)@, r@) == shut(old(self)@),
    {
        self.popup = PopupState::Closed;
        self.focused_surface = None;
        self.pointer_inside_popup = false;
        self.outside_close_armed = false;
        self.reset_view();
        self.release_keyboard()
    }

    /// Closes the popup; see `close_popup`.
    fn close_popup(&mut self) -> (r: Vec<Task>)
        ensures
            (final(self)@, r@) == close_popup(old(self)@),
    {
        match self.popup {
            PopupState::Open(id) => {
                let mut tasks = vec![Task::DestroyPopup(id)];
                let mut rest = self.shut();
                tasks.append(&mut rest);
                tasks
            },
            PopupState::Closed => Vec::new(),
        }
    }

    /// Opens the popup as `fresh`; see `open_popup`.
    fn open_popup(&mut self, fresh: SurfaceId) -> (r: Vec<Task>)
        ensures
            (final(self)@, r@) == open_popup(old(self)@, fresh),
    {
        if let PopupState::Open(_) = self.popup {
            return Vec::new();
        }
        self.reset_view();
        self.browse.focused = newest(&self.snapshot.entries);
        self.focused_surface = None;
        self.pointer_inside_popup = false;
        self.outside_close_armed = false;
        self.dismissed_at = None;
        self.popup = PopupState::Open(fresh);
        vec![Task::CreatePopup(fresh)]
    }

    /// The panel button, pressed at `now`; see `toggle_popup`.
    fn toggle_popup(&mut self, now: Instant, fresh: SurfaceId) -> (r: Vec<Task>)
        ensures
            (final(self)@, r@) == toggle_popup(old(self)@, guarded_at(old(self)@.dismissed_at, now), fresh),
    {
        if let PopupState::Open(_) = self.popup {
            let r = self.close_popup();
            return r;
        }
        let dismissed = self.dismissed_at;
        self.dismissed_at = None;
        let guarded = just_dismissed(dismissed, now);
        if guarded {
            assert(toggle_popup(old(self)@, true, fresh) == (final(self)@, Seq::<Task>::empty()));
            return Vec::new();
        }
        let r = self.open_popup(fresh);
        assert(toggle_popup(old(self)@, false, fresh) == (final(self)@, r@));
        r
    }

    /// Shows the focused row.
    fn revealed(&self) -> (r: Vec<Task>)
        ensures
            r@ == reveal_focus(self@),
    {
        match self.browse.focused {
            Some(id) => vec![Task::Reveal(id)],
            None => Vec::new(),
        }
    }

    /// The popup's surface is up; see `surface_opened`.
    fn opened(&mut self, id: SurfaceId, fresh: SurfaceId) -> (r: Vec<Task>)
        ensures
            (final(self)@, r@) == surface_opened(old(self)@, id, fresh),
    {
        if self.popup != PopupState::Open(id) {
            return Vec::new();
        }
        let mut tasks = Vec::new();
        if self.keyboard_surface.is_none() {
            self.keyboard_surface = Some(fresh);
            tasks.push(Task::GrabKeyboard(fresh));
        }
        tasks.push(Task::FocusSearch);
        let mut shown = self.revealed();
        tasks.append(&mut shown);
        tasks.push(Task::ArmSoon(id));
        tasks
    }

    /// The toolkit closed the surface `id`; see `surface_closed`.
    fn closed(&mut self, id: SurfaceId) -> (r: Vec<Task>)
        ensures
            (final(self)@, r@) == surface_closed(old(self)@, id),
    {
        if self.popup != PopupState::Open(id) {
            return Vec::new();
        }
        self.shut()
    }

    /// The surface `id` got the keyboard; see `surface_focused`.
    fn surface_focused(&mut self, id: SurfaceId) -> (r: Vec<Task>)
        ensures
            (final(self)@, r@) == surface_focused(old(self)@, id),
    {
        if self.popup == PopupState::Open(id) {
            self.focused_surface = Some(id);
            return Vec::new();
        }
        if self.keyboard_surface != Some(id) {
            return Vec::new();
        }
        self.focused_surface = Some(id);
        vec![Task::KeyboardOnDemand(id)]
    }

    /// Closes the popup at `now`; see `dismiss`.
    fn dismiss(&mut self, now: Instant) -> (r: Vec<Task>)
        ensures
            (final(self)@, r@) == dismiss(old(self)@, now),
    {
        self.dismissed_at = Some(now);
        self.close_popup()
    }

    /// The surface `id` lost the keyboard at `now`; see `surface_unfocused`.
    fn surface_unfocused(&mut self, id: SurfaceId, now: Instant) -> (r: Vec<Task>)
        ensures
            (final(self)@, r@) == surface_unfocused(old(self)@, id, now),
    {
        let ours = self.popup == PopupState::Open(id) || self.keyboard_surface == Some(id);
        if !ours {
            return Vec::new();
        }
        if self.focused_surface == Some(id) {
            self.focused_surface = None;
        }
        if self.outside_close_armed && !self.pointer_inside_popup {
            return self.dismiss(now);
        }
        match self.popup {
            PopupState::Open(popup) => vec![Task::RecheckSoon(popup)],
            PopupState::Closed => Vec::new(),
        }
    }

    /// A moment after the popup lost the keyboard; see `close_if_unfocused`.
    fn close_if_unfocused(&mut self, popup: SurfaceId, now: Instant) -> (r: Vec<Task>)
        ensures
            (final(self)@, r@) == close_if_unfocused(old(self)@, popup, now),
    {
        if self.popup != PopupState::Open(popup) || self.focused_surface.is_some() {
            return Vec::new();
        }
        self.dismiss(now)
    }

    /// The menu of the row `id` toggled; see `open_row_menu`.
    fn open_row_menu(&mut self, id: EntryId) -> (r: Vec<Task>)
        ensures
            (final(self)@, r@) == open_row_menu(old(self)@, id),
    {
        let current = match &self.menu {
            Some((current, _)) => Some(*current),
            None => None,
        };
        if let Some(current) = current {
            if current.0 == id.0 {
                self.menu = None;
                return Vec::new();
            }
        }
        self.menu = Some((id, None));
        self.browse.focused = Some(id);
        vec![Task::PlaceRowMenu(id)]
    }

    /// Where the menu of the row `id` goes; see `place_row_menu`.
    fn place_row_menu(&mut self, id: EntryId, bounds: Option<R>)
        ensures
            final(self)@ == place_row_menu(old(self)@, id, bounds),
    {
        let current = match &self.menu {
            Some((current, _)) => Some(*current),
            None => None,
        };
        if let Some(current) = current {
            if current.0 == id.0 {
                self.menu = Some((id, bounds));
            }
        }
    }
}

impl<R, H> ClipKeep<R, H> {
    /// Asks for the thumbnail of `id`; see `load_thumbnail`.
    fn load_thumbnail(&mut self, id: EntryId) -> (r: Vec<Task>)
        requires
            old(self)@.wf(),
        ensures
            final(self)@.wf(),
            (final(self)@, r@) == load_thumbnail(old(self)@, id),
    {
        if !self.thumbs.wants(id) {
            return Vec::new();
        }
        self.thumbs.mark_pending(id);
        vec![Task::LoadThumbnail(id)]
    }

    /// Asks for the thumbnails of `ids` in turn; see `load_all`.
    fn load_all(&mut self, ids: &[EntryId]) -> (r: Vec<Task>)
        requires
            old(self)@.wf(),
        ensures
            final(self)@.wf(),
            (final(self)@, r@) == load_all(old(self)@, ids@),
    {
        let mut tasks: Vec<Task> = Vec::new();
        let mut i: usize = 0;
        assert(ids@.skip(0) =~= ids@);
        while i < ids.len()
            invariant
                i <= ids@.len(),
                self@.wf(),
                load_all(old(self)@, ids@) == (
                    load_all(self@, ids@.skip(i as int)).0,
                    tasks@ + load_all(self@, ids@.skip(i as int)).1,
                ),
            decreases ids@.len() - i,
        {
            let ghost before = self@;
            let ghost done = tasks@;
            proof {
                assert(ids@.skip(i as int).drop_first() =~= ids@.skip(i + 1));
                assert(ids@.skip(i as int)[0] == ids@[i as int]);
            }
            let mut more = self.load_thumbnail(ids[i]);
            tasks.append(&mut more);
            proof {
                let rest = load_all(self@, ids@.skip(i + 1));
                assert(load_all(before, ids@.skip(i as int)) == (
                    rest.0,
                    load_thumbnail(before, ids@[i as int]).1 + rest.1,
                ));
                assert(tasks@ + rest.1 =~= done + (load_thumbnail(before, ids@[i as int]).1 + rest.1));
            }
            i += 1;
        }
        assert(ids@.skip(i as int) =~= Seq::<EntryId>::empty());
        assert(tasks@ + Seq::<Task>::empty() =~= tasks@);
        tasks
    }

    /// The images of the snapshot whose thumbnails are wanted; see
    /// `wanted_images`.
    fn wanted_images(&self) -> (r: Vec<EntryId>)
        ensures
            r@ == wanted_images(self@.entries(), self@.drawn, self@.waiting, PER_SNAPSHOT as nat),
    {
        let entries: &[EntryMeta] = &self.snapshot.entries;
        let ghost all = entries@;
        let mut found: Vec<EntryId> = Vec::new();
        let mut i: usize = 0;
        assert(all.skip(0) =~= all);
        while i < entries.len() && found.len() < PER_SNAPSHOT
            invariant
                entries@ == all,
                all == self@.entries(),
                i <= all.len(),
                found@.len() <= PER_SNAPSHOT,
                wanted_images(all, self@.drawn, self@.waiting, PER_SNAPSHOT as nat) == found@
                    + wanted_images(
                    all.skip(i as int),
                    self@.drawn,
                    self@.waiting,
                    (PER_SNAPSHOT - found@.len()) as nat,
                ),
            decreases all.len() - i,
        {
            let ghost room = (PER_SNAPSHOT - found@.len()) as nat;
            let ghost before = found@;
            proof {
                assert(all.skip(i as int).drop_first() =~= all.skip(i + 1));
                assert(all.skip(i as int)[0] == all[i as int]);
            }
            let e = &entries[i];
            if e.kind == EntryKind::Image && self.thumbs.wants(e.id) {
                found.push(e.id);
                proof {
                    assert(found@ + wanted_images(
                        all.skip(i + 1),
                        self@.drawn,
                        self@.waiting,
                        (room - 1) as nat,
                    ) =~= before + (seq![all[i as int].id] + wanted_images(
                        all.skip(i + 1),
                        self@.drawn,
                        self@.waiting,
                        (room - 1) as nat,
                    )));
                }
            }
            i += 1;
        }
        proof {
            if found@.len() == PER_SNAPSHOT {
                assert(wanted_images(all.skip(i as int), self@.drawn, self@.waiting, 0) =~= seq![]);
            } else {
                assert(all.skip(i as int) =~= Seq::<EntryMeta>::empty());
            }
        }
        assert(found@ + Seq::<EntryId>::empty() =~= found@);
        found
    }

    /// A new snapshot; see `snapshot_arrived`.
    fn snapshot_arrived(&mut self, snapshot: Snapshot) -> (r: Vec<Task>)
        requires
            old(self)@.wf(),
        ensures
            final(self)@.wf(),
            (final(self)@, r@) == snapshot_arrived(old(self)@, snapshot),
    {
        self.snapshot = snapshot;
        self.browse.settle_focus(&self.snapshot.entries);
        let wanted = self.wanted_images();
        let mut tasks = self.load_all(wanted.as_slice());
        tasks.push(Task::Relayout);
        tasks
    }

    /// Settings changed elsewhere; see `settings_changed`.
    fn settings_changed(&mut self, settings: Settings) -> (r: Vec<Task>)
        ensures
            (final(self)@, r@) == settings_changed(old(self)@, settings),
    {
        self.settings = settings.sanitised();
        vec![Task::Send(ClipCommand::Settings(self.settings))]
    }

    /// Settings changed on the settings page; see `apply_settings`.
    fn apply_settings(&mut self, settings: Settings) -> (r: Vec<Task>)
        ensures
            (final(self)@, r@) == apply_settings(old(self)@, settings),
    {
        let kept = settings.sanitised();
        let mut tasks = vec![Task::SaveSettings(kept)];
        let mut rest = self.settings_changed(kept);
        tasks.append(&mut rest);
        tasks
    }

    /// The search field now reads `query`; see `search`.
    fn search(&mut self, query: String) -> (r: Vec<Task>)
        ensures
            (final(self)@, r@) == search(old(self)@, query@),
    {
        self.browse.search(query, &self.snapshot.entries);
        self.revealed()
    }

    /// What the details page of `id` loads; see `details_loads`.
    fn details_loads(&mut self, id: EntryId, kind: EntryKind) -> (r: Vec<Task>)
        requires
            old(self)@.wf(),
        ensures
            final(self)@.wf(),
            (final(self)@, r@) == details_loads(old(self)@, id, kind),
    {
        self.formats = None;
        let mut tasks = vec![Task::LoadFormats(id)];
        if kind == EntryKind::Image {
            let mut more = self.load_thumbnail(id);
            tasks.append(&mut more);
        }
        tasks
    }

    /// The details page of `id`; see `show_details`.
    fn show_details(&mut self, id: Option<EntryId>) -> (r: Vec<Task>)
        requires
            old(self)@.wf(),
        ensures
            final(self)@.wf(),
            (final(self)@, r@) == show_details(old(self)@, id),
    {
        let effect = self.browse.show_details(id, &self.snapshot.entries);
        self.formats = None;
        match effect {
            Effect::Details(shown, kind) => self.details_loads(shown, kind),
            _ => Vec::new(),
        }
    }

    /// The entry used; see `confirm`.
    fn confirm(&mut self, id: EntryId) -> (r: Vec<Task>)
        ensures
            (final(self)@, r@) == confirm(old(self)@, id),
    {
        let mut tasks = vec![Task::Send(ClipCommand::Use { id, paste: self.settings.paste_on_use })];
        let mut rest = self.close_popup();
        tasks.append(&mut rest);
        tasks
    }

    /// The entry pinned or unpinned; see `toggle_pin`.
    fn toggle_pin(&self, id: EntryId) -> (r: Vec<Task>)
        ensures
            (self@, r@) == toggle_pin(self@, id),
    {
        let pinned = is_pinned(&self.snapshot.entries, id);
        vec![Task::Send(ClipCommand::SetPinned { id, pinned: !pinned })]
    }

    /// The entry deleted; see `delete`.
    fn delete(&mut self, id: EntryId) -> (r: Vec<Task>)
        ensures
            (final(self)@, r@) == delete(old(self)@, id),
    {
        let ids = listed(&self.snapshot.entries, self.browse.query.as_str());
        self.browse.restore = position(ids.as_slice(), id);
        vec![Task::Send(ClipCommand::Delete(id))]
    }

    /// The history cleared but for its pins; see `clear`.
    fn clear(&mut self) -> (r: Vec<Task>)
        ensures
            final(self)@.wf(),
            (final(self)@, r@) == clear(old(self)@),
    {
        self.browse.ask_clear(false);
        self.thumbs.clear();
        vec![Task::Send(ClipCommand::Clear { include_pinned: false })]
    }

    /// Carries out the effect of a key; see `carry_out`.
    fn carry_out(&mut self, effect: Effect) -> (r: Vec<Task>)
        requires
            old(self)@.wf(),
        ensures
            final(self)@.wf(),
            (final(self)@, r@) == carry_out(old(self)@, effect),
    {
        match effect {
            Effect::Nothing => Vec::new(),
            Effect::Reveal => self.revealed(),
            Effect::FocusSearch => vec![Task::FocusSearch],
            Effect::Close => self.close_popup(),
            Effect::Use(id) => self.confirm(id),
            Effect::Delete(id) => vec![Task::Send(ClipCommand::Delete(id))],
            Effect::Pin(id, pinned) => vec![Task::Send(ClipCommand::SetPinned { id, pinned })],
            Effect::Details(id, kind) => self.details_loads(id, kind),
            Effect::Clear => self.clear(),
        }
    }

    /// What a key does; see `act`.
    fn act(&mut self, action: Action) -> (r: Vec<Task>)
        requires
            old(self)@.wf(),
        ensures
            final(self)@.wf(),
            (final(self)@, r@) == act(old(self)@, action),
    {
        let opens = matches!(action, Action::ShowDetails) && self.browse.details.is_none()
            && !self.browse.showing_settings && self.browse.focused.is_some();
        let effect = self.browse.act(action, &self.snapshot.entries);
        if opens {
            self.formats = None;
        }
        self.carry_out(effect)
    }

    /// A key; see `key`.
    fn key(&mut self, action: Action) -> (r: Vec<Task>)
        requires
            old(self)@.wf(),
        ensures
            final(self)@.wf(),
            (final(self)@, r@) == key(old(self)@, action),
    {
        let had_menu = self.menu.is_some();
        self.menu = None;
        if had_menu && matches!(action, Action::Dismiss) {
            return Vec::new();
        }
        self.act(action)
    }
}

impl<R, H> ClipKeep<R, H> {
    /// Answers `message` at `now`; a new popup or helper layer takes the
    /// surface `fresh`. What the popup does is `updated`, where a press of
    /// the panel button is guarded as `guarded_at` says: at the instant of a
    /// dismissal or less than `REOPEN_GUARD_MS` after it.
    pub fn update(&mut self, message: Message<R, H>, now: Instant, fresh: SurfaceId) -> (r: Vec<Task>)
        requires
            old(self)@.wf(),
        ensures
            final(self)@.wf(),
            (final(self)@, r@) == updated(
                old(self)@,
                message,
                guarded_at(old(self)@.dismissed_at, now),
                now,
                fresh,
            ),
    {
        if self.menu.is_some() && closes_row_menu(&message) {
            self.menu = None;
        }
        let ghost start = self@;
        let ghost message_kept = message;
        let tasks = match message {
            Message::Relayout | Message::CloseRowMenu => Vec::new(),
            Message::TogglePopup => {
                let r = self.toggle_popup(now, fresh);
                assert((self@, r@) == updated(
                    old(self)@,
                    message_kept,
                    guarded_at(old(self)@.dismissed_at, now),
                    now,
                    fresh,
                ));
                return r;
            },
            Message::ShowPopup => self.open_popup(fresh),
            Message::SurfaceOpened(id) => self.opened(id, fresh),
            Message::SurfaceClosed(id) => self.closed(id),
            Message::SurfaceFocused(id) => self.surface_focused(id),
            Message::SurfaceUnfocused(id) => self.surface_unfocused(id, now),
            Message::PointerEntered(id) | Message::PointerMoved(id) => {
                if self.popup == PopupState::Open(id) {
                    self.pointer_inside_popup = true;
                }
                Vec::new()
            },
            Message::PointerLeft(id) => {
                if self.popup == PopupState::Open(id) {
                    self.pointer_inside_popup = false;
                }
                Vec::new()
            },
            Message::ArmOutsideClose(id) => {
                if self.popup == PopupState::Open(id) {
                    self.outside_close_armed = true;
                }
                Vec::new()
            },
            Message::CloseIfUnfocused(id) => self.close_if_unfocused(id, now),
            Message::OpenRowMenu(id) => self.open_row_menu(id),
            Message::PlaceRowMenu(id, bounds) => {
                self.place_row_menu(id, bounds);
                Vec::new()
            },
            Message::Snapshot(snapshot) => self.snapshot_arrived(snapshot),
            Message::SettingsChanged(settings) => self.settings_changed(settings),
            Message::Search(query) => self.search(query),
            Message::Focus(id) => {
                self.browse.focused = Some(id);
                Vec::new()
            },
            Message::Key(action) => self.key(action),
            Message::Confirm(id) => self.confirm(id),
            Message::TogglePin(id) => self.toggle_pin(id),
            Message::Delete(id) => self.delete(id),
            Message::ConfirmClear(asking) => {
                self.browse.ask_clear(asking);
                Vec::new()
            },
            Message::Clear => self.clear(),
            Message::ThumbnailLoaded(id, handle) => {
                self.thumbs.insert(id, handle);
                Vec::new()
            },
            Message::FormatsLoaded(id, mimes) => {
                if let Some(shown) = self.browse.details {
                    if shown.0 == id.0 {
                        self.formats = Some((id, mimes));
                    }
                }
                Vec::new()
            },
            Message::ShowSettings(showing) => {
                self.browse.show_settings(showing);
                Vec::new()
            },
            Message::ShowDetails(id) => self.show_details(id),
            Message::Setting(settings) => self.apply_settings(settings),
            Message::OpenLink(url) => vec![Task::OpenLink(url)],
        };
        assert((self@, tasks@) == updated(old(self)@, message_kept, false, now, fresh));
        tasks
    }
}

} // verus!
