use std::sync::Arc;
use std::time::Instant;

use cosmic_clip_keep::applet::keys::Action;
use cosmic_clip_keep::applet::message::{closes_row_menu, Message, SurfaceId};
use cosmic_clip_keep::applet::shell::{ClipKeep, Task};
use cosmic_clip_keep::clip::model::{CaptureState, EntryId, EntryKind, EntryMeta, Snapshot};
use cosmic_clip_keep::clip::settings::Settings;
use cosmic_clip_keep::clip::ClipCommand;

type Popup = ClipKeep<(i32, i32), &'static str>;
type Msg = Message<(i32, i32), &'static str>;

const POPUP: SurfaceId = SurfaceId(7);
const HELPER: SurfaceId = SurfaceId(8);

fn entry(id: i64, kind: EntryKind, preview: &str, pinned: Option<u32>) -> EntryMeta {
    EntryMeta {
        id: EntryId(id),
        kind,
        preview: preview.to_owned(),
        byte_size: preview.len() as u64,
        source_app: None,
        created_at: 0,
        last_used_at: 0,
        use_count: 1,
        pinned,
        image_size: None,
    }
}

fn snapshot(entries: Vec<EntryMeta>) -> Snapshot {
    Snapshot {
        capture: CaptureState::Starting,
        entries: Arc::from(entries),
        revision: 1,
    }
}

fn history() -> Snapshot {
    snapshot(vec![
        entry(1, EntryKind::Text, "pinned note", Some(0)),
        entry(2, EntryKind::Text, "hello world", None),
        entry(3, EntryKind::Image, "an image", None),
    ])
}

fn closes(message: Msg) -> bool {
    closes_row_menu(&message)
}

/// A popup opened by the panel button and up on screen.
fn open_popup(settings: Settings) -> Popup {
    let mut popup = Popup::new(history(), settings);
    let now = Instant::now();
    popup.update(Message::TogglePopup, now, POPUP);
    popup.update(Message::SurfaceOpened(POPUP), now, HELPER);
    popup
}

#[test]
fn an_open_row_menu_survives_everything_that_is_not_a_choice() {
    assert!(!closes(Message::OpenRowMenu(EntryId(1))));
    assert!(!closes(Message::PlaceRowMenu(EntryId(1), None)));
    assert!(!closes(Message::Focus(EntryId(1))));
    assert!(!closes(Message::Relayout));
    assert!(!closes(Message::SurfaceFocused(SurfaceId(0))));
    assert!(!closes(Message::SurfaceUnfocused(SurfaceId(0))));
    assert!(!closes(Message::ArmOutsideClose(SurfaceId(0))));
    assert!(!closes(Message::PointerEntered(SurfaceId(0))));
}

#[test]
fn keys_are_left_to_decide_for_themselves() {
    assert!(!closes(Message::Key(Action::Dismiss)));
}

#[test]
fn choosing_an_action_or_leaving_the_page_puts_the_menu_away() {
    assert!(closes(Message::Delete(EntryId(1))));
    assert!(closes(Message::TogglePin(EntryId(1))));
    assert!(closes(Message::ShowDetails(Some(EntryId(1)))));
    assert!(closes(Message::ShowSettings(true)));
    assert!(closes(Message::CloseRowMenu));
    assert!(closes(Message::Search(String::new())));
}

#[test]
fn the_panel_button_opens_the_popup_on_the_newest_copy() {
    let mut popup = Popup::new(history(), Settings::default());
    assert_eq!(popup.popup_id(), None);

    let tasks = popup.update(Message::TogglePopup, Instant::now(), POPUP);

    assert_eq!(tasks, vec![Task::CreatePopup(POPUP)]);
    assert_eq!(popup.popup_id(), Some(POPUP));
    assert_eq!(popup.browse().focused, Some(EntryId(2)));
}

#[test]
fn an_opened_popup_takes_the_keyboard_and_arms_outside_clicks() {
    let mut popup = Popup::new(history(), Settings::default());
    let now = Instant::now();
    popup.update(Message::TogglePopup, now, POPUP);

    let tasks = popup.update(Message::SurfaceOpened(POPUP), now, HELPER);

    assert_eq!(
        tasks,
        vec![
            Task::GrabKeyboard(HELPER),
            Task::FocusSearch,
            Task::Reveal(EntryId(2)),
            Task::ArmSoon(POPUP),
        ]
    );
    assert_eq!(popup.keyboard_surface(), Some(HELPER));
    assert_eq!(
        popup.update(Message::SurfaceFocused(HELPER), now, SurfaceId(99)),
        vec![Task::KeyboardOnDemand(HELPER)]
    );
}

#[test]
fn a_click_outside_dismisses_and_the_same_click_does_not_reopen() {
    let mut popup = open_popup(Settings::default());
    let now = Instant::now();
    popup.update(Message::ArmOutsideClose(POPUP), now, SurfaceId(99));

    let tasks = popup.update(Message::SurfaceUnfocused(POPUP), now, SurfaceId(99));
    assert_eq!(
        tasks,
        vec![Task::DestroyPopup(POPUP), Task::ReleaseKeyboard(HELPER)]
    );
    assert_eq!(popup.popup_id(), None);
    assert_eq!(popup.keyboard_surface(), None);

    let tasks = popup.update(Message::TogglePopup, now, SurfaceId(9));
    assert!(tasks.is_empty());
    assert_eq!(popup.popup_id(), None);

    let tasks = popup.update(Message::TogglePopup, now, SurfaceId(9));
    assert_eq!(tasks, vec![Task::CreatePopup(SurfaceId(9))]);
}

#[test]
fn losing_the_keyboard_with_the_pointer_inside_is_looked_at_again() {
    let mut popup = open_popup(Settings::default());
    let now = Instant::now();
    popup.update(Message::ArmOutsideClose(POPUP), now, SurfaceId(99));
    popup.update(Message::PointerEntered(POPUP), now, SurfaceId(99));

    let tasks = popup.update(Message::SurfaceUnfocused(POPUP), now, SurfaceId(99));
    assert_eq!(tasks, vec![Task::RecheckSoon(POPUP)]);
    assert_eq!(popup.popup_id(), Some(POPUP));

    popup.update(Message::SurfaceFocused(POPUP), now, SurfaceId(99));
    assert!(popup
        .update(Message::CloseIfUnfocused(POPUP), now, SurfaceId(99))
        .is_empty());
    assert_eq!(popup.popup_id(), Some(POPUP));
}

#[test]
fn escape_first_puts_the_row_menu_away() {
    let mut popup = open_popup(Settings::default());
    let now = Instant::now();

    let tasks = popup.update(Message::OpenRowMenu(EntryId(3)), now, SurfaceId(99));
    assert_eq!(tasks, vec![Task::PlaceRowMenu(EntryId(3))]);
    assert_eq!(popup.browse().focused, Some(EntryId(3)));
    popup.update(Message::PlaceRowMenu(EntryId(3), Some((4, 5))), now, SurfaceId(99));
    assert_eq!(popup.row_menu(), &Some((EntryId(3), Some((4, 5)))));

    assert!(popup
        .update(Message::Key(Action::Dismiss), now, SurfaceId(99))
        .is_empty());
    assert_eq!(popup.row_menu(), &None);
    assert_eq!(popup.popup_id(), Some(POPUP));

    let tasks = popup.update(Message::Key(Action::Dismiss), now, SurfaceId(99));
    assert_eq!(
        tasks,
        vec![Task::DestroyPopup(POPUP), Task::ReleaseKeyboard(HELPER)]
    );
}

#[test]
fn a_choice_from_the_row_menu_puts_it_away() {
    let mut popup = open_popup(Settings::default());
    let now = Instant::now();
    popup.update(Message::OpenRowMenu(EntryId(1)), now, SurfaceId(99));

    let tasks = popup.update(Message::TogglePin(EntryId(1)), now, SurfaceId(99));

    assert_eq!(
        tasks,
        vec![Task::Send(ClipCommand::SetPinned { id: EntryId(1), pinned: false })]
    );
    assert_eq!(popup.row_menu(), &None);
}

#[test]
fn using_an_entry_pastes_it_when_asked_and_closes_the_popup() {
    let settings = Settings {
        paste_on_use: true,
        ..Settings::default()
    };
    let mut popup = open_popup(settings);

    let tasks = popup.update(Message::Key(Action::Confirm), Instant::now(), SurfaceId(99));

    assert_eq!(
        tasks,
        vec![
            Task::Send(ClipCommand::Use { id: EntryId(2), paste: true }),
            Task::DestroyPopup(POPUP),
            Task::ReleaseKeyboard(HELPER),
        ]
    );
    assert_eq!(popup.popup_id(), None);
}

#[test]
fn closing_the_popup_forgets_the_search() {
    let mut popup = open_popup(Settings::default());
    let now = Instant::now();
    popup.update(Message::Search("hello".to_owned()), now, SurfaceId(99));
    assert_eq!(popup.browse().query, "hello");

    popup.update(Message::SurfaceClosed(POPUP), now, SurfaceId(99));

    assert_eq!(popup.browse().query, "");
    assert_eq!(popup.popup_id(), None);
}

#[test]
fn a_snapshot_asks_for_the_missing_thumbnails_once() {
    let mut popup = Popup::new(snapshot(Vec::new()), Settings::default());
    let now = Instant::now();

    let tasks = popup.update(Message::Snapshot(history()), now, SurfaceId(99));
    assert_eq!(tasks, vec![Task::LoadThumbnail(EntryId(3)), Task::Relayout]);

    let tasks = popup.update(Message::Snapshot(history()), now, SurfaceId(99));
    assert_eq!(tasks, vec![Task::Relayout]);

    popup.update(Message::ThumbnailLoaded(EntryId(3), Some("png")), now, SurfaceId(99));
    assert_eq!(popup.thumbs().get(EntryId(3)), Some(&"png"));
}

#[test]
fn the_details_page_loads_formats_and_shows_only_its_own() {
    let mut popup = open_popup(Settings::default());
    let now = Instant::now();

    let tasks = popup.update(Message::ShowDetails(Some(EntryId(3))), now, SurfaceId(99));
    assert_eq!(
        tasks,
        vec![Task::LoadFormats(EntryId(3)), Task::LoadThumbnail(EntryId(3))]
    );

    popup.update(Message::FormatsLoaded(EntryId(2), vec!["text/plain".to_owned()]), now, SurfaceId(99));
    assert!(popup.formats().is_empty());
    popup.update(Message::FormatsLoaded(EntryId(3), vec!["image/png".to_owned()]), now, SurfaceId(99));
    assert_eq!(popup.formats(), ["image/png".to_owned()]);
}

#[test]
fn settings_from_the_page_are_kept_and_passed_on() {
    let mut popup = Popup::new(history(), Settings::default());
    let asked = Settings {
        max_entries: 0,
        ..Settings::default()
    };

    let tasks = popup.update(Message::Setting(asked), Instant::now(), SurfaceId(99));

    let kept = Settings {
        max_entries: 1,
        ..Settings::default()
    };
    assert_eq!(
        tasks,
        vec![
            Task::SaveSettings(kept),
            Task::Send(ClipCommand::Settings(kept)),
        ]
    );
    assert_eq!(popup.settings(), kept);
}
