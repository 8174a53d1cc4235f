use std::time::{Duration, Instant};

use cosmic_clip_keep::applet::keys::Action;
use cosmic_clip_keep::applet::{
    just_dismissed, listed, newest, position, visible, within_guard, Browse, Effect,
    REOPEN_GUARD_MS, VISIBLE_ROWS,
};
use cosmic_clip_keep::clip::model::{EntryId, EntryKind, EntryMeta};

const REOPEN_GUARD: Duration = Duration::from_millis(REOPEN_GUARD_MS as u64);

fn entry(id: i64, preview: &str, pinned: Option<u32>) -> EntryMeta {
    EntryMeta {
        id: EntryId(id),
        kind: EntryKind::Text,
        preview: preview.to_owned(),
        byte_size: preview.len() as u64,
        source_app: None,
        created_at: 0,
        last_used_at: 0,
        use_count: 1,
        pinned,
        image_size: None,
    }
}

fn history() -> Vec<EntryMeta> {
    vec![
        entry(1, "pinned note", Some(0)),
        entry(2, "hello world", None),
        entry(3, "another hello", None),
        entry(4, "third", None),
    ]
}

#[test]
fn the_click_that_dismissed_the_popup_does_not_reopen_it() {
    let dismissed_at = Instant::now();

    assert!(just_dismissed(
        Some(dismissed_at),
        dismissed_at + Duration::from_millis(80)
    ));
}

#[test]
fn a_later_click_opens_the_popup_again() {
    let dismissed_at = Instant::now();

    assert!(!just_dismissed(
        Some(dismissed_at),
        dismissed_at + REOPEN_GUARD + Duration::from_millis(1)
    ));
}

#[test]
fn a_popup_that_was_never_dismissed_never_guards() {
    assert!(!just_dismissed(None, Instant::now()));
}

#[test]
fn the_guard_ends_at_its_length() {
    assert!(within_guard(399));
    assert!(!within_guard(400));
}

#[test]
fn the_search_narrows_the_list_in_history_order() {
    let entries = history();
    assert_eq!(visible(&entries, ""), vec![0, 1, 2, 3]);
    assert_eq!(visible(&entries, "HELLO"), vec![1, 2]);
    assert_eq!(listed(&entries, " hello "), vec![EntryId(2), EntryId(3)]);
    assert!(listed(&entries, "zzz").is_empty());
}

#[test]
fn the_list_shows_a_bounded_number_of_rows() {
    let entries: Vec<EntryMeta> = (0..(VISIBLE_ROWS as i64 + 5))
        .map(|id| entry(id, "row", None))
        .collect();
    assert_eq!(visible(&entries, "").len(), VISIBLE_ROWS);
}

#[test]
fn the_popup_opens_on_the_newest_copy_not_a_pin() {
    assert_eq!(newest(&history()), Some(EntryId(2)));
    assert_eq!(newest(&[entry(9, "only a pin", Some(0))]), Some(EntryId(9)));
    assert_eq!(newest(&[]), None);
}

#[test]
fn positions_are_found_where_they_are() {
    let ids = [EntryId(5), EntryId(7)];
    assert_eq!(position(&ids, EntryId(7)), Some(1));
    assert_eq!(position(&ids, EntryId(6)), None);
}

#[test]
fn the_arrows_wrap_around_the_list() {
    let entries = history();
    let mut browse = Browse::default();
    browse.open(&entries);
    assert_eq!(browse.focused, Some(EntryId(2)));

    assert_eq!(browse.act(Action::Down, &entries), Effect::Reveal);
    assert_eq!(browse.focused, Some(EntryId(3)));
    browse.act(Action::Down, &entries);
    browse.act(Action::Down, &entries);
    assert_eq!(browse.focused, Some(EntryId(1)), "down from the last row is the first");
    browse.act(Action::Up, &entries);
    assert_eq!(browse.focused, Some(EntryId(4)), "up from the first row is the last");
}

#[test]
fn typing_searches_and_focuses_the_first_match() {
    let entries = history();
    let mut browse = Browse::default();
    browse.open(&entries);

    for letter in ["a", "n"] {
        browse.act(Action::Append(letter.to_owned()), &entries);
    }
    assert_eq!(browse.query, "an");
    assert_eq!(browse.focused, Some(EntryId(3)));

    browse.act(Action::Backspace, &entries);
    assert_eq!(browse.query, "a");
    browse.act(Action::Backspace, &entries);
    browse.act(Action::Backspace, &entries);
    assert_eq!(browse.query, "");
    assert_eq!(browse.focused, Some(EntryId(1)));
}

#[test]
fn the_focused_entry_is_used_pinned_and_deleted() {
    let entries = history();
    let mut browse = Browse::default();
    browse.open(&entries);

    assert_eq!(browse.act(Action::Confirm, &entries), Effect::Use(EntryId(2)));
    assert_eq!(
        browse.act(Action::TogglePin, &entries),
        Effect::Pin(EntryId(2), true)
    );
    browse.focused = Some(EntryId(1));
    assert_eq!(
        browse.act(Action::TogglePin, &entries),
        Effect::Pin(EntryId(1), false),
        "a pinned entry is unpinned"
    );
    browse.focused = Some(EntryId(3));
    assert_eq!(browse.act(Action::Delete, &entries), Effect::Delete(EntryId(3)));
    assert_eq!(browse.restore, Some(2));
}

#[test]
fn escape_leaves_a_page_before_it_closes_the_popup() {
    let entries = history();
    let mut browse = Browse::default();
    browse.open(&entries);

    assert_eq!(
        browse.act(Action::ShowDetails, &entries),
        Effect::Details(EntryId(2), EntryKind::Text)
    );
    assert_eq!(browse.details, Some(EntryId(2)));
    assert_eq!(browse.act(Action::Down, &entries), Effect::Nothing);
    assert_eq!(browse.act(Action::Dismiss, &entries), Effect::Nothing);
    assert_eq!(browse.details, None);

    browse.show_settings(true);
    assert_eq!(browse.act(Action::Dismiss, &entries), Effect::Nothing);
    assert!(!browse.showing_settings);

    assert_eq!(browse.act(Action::Dismiss, &entries), Effect::Close);
}

#[test]
fn a_pending_clear_is_confirmed_or_cancelled() {
    let entries = history();
    let mut browse = Browse::default();
    browse.open(&entries);

    browse.ask_clear(true);
    assert_eq!(browse.act(Action::Confirm, &entries), Effect::Clear);
    assert!(!browse.clearing);

    browse.ask_clear(true);
    assert_eq!(browse.act(Action::Down, &entries), Effect::Reveal);
    assert!(!browse.clearing, "anything else cancels the clear and goes on");
}

#[test]
fn focus_settles_where_the_deleted_row_was() {
    let mut entries = history();
    let mut browse = Browse::default();
    browse.open(&entries);
    browse.focused = Some(EntryId(4));
    browse.act(Action::Delete, &entries);
    assert_eq!(browse.restore, Some(3));

    entries.pop();
    browse.settle_focus(&entries);
    assert_eq!(browse.focused, Some(EntryId(3)), "the last row takes its place");
    assert_eq!(browse.restore, None);

    browse.settle_focus(&entries);
    assert_eq!(browse.focused, Some(EntryId(3)), "a listed row keeps the focus");
}

#[test]
fn details_close_when_their_entry_is_gone() {
    let entries = history();
    let mut browse = Browse::default();
    browse.open(&entries);
    browse.show_details(Some(EntryId(4)), &entries);
    assert_eq!(browse.details, Some(EntryId(4)));

    browse.settle_focus(&entries[..3]);
    assert_eq!(browse.details, None);
    assert_eq!(browse.show_details(Some(EntryId(99)), &entries), Effect::Nothing);
}

#[test]
fn ctrl_f_goes_to_the_search_from_any_page() {
    let entries = history();
    let mut browse = Browse::default();
    browse.show_settings(true);
    assert_eq!(browse.act(Action::FocusSearch, &entries), Effect::FocusSearch);
    assert!(!browse.showing_settings);
    browse.reset();
    assert_eq!(browse, Browse::default());
}

#[test]
fn a_press_at_the_moment_of_dismissal_is_guarded() {
    let now = Instant::now();
    assert!(just_dismissed(Some(now), now));
}
