use std::sync::Arc;

use cosmic_clip_keep::applet::shell::{panel_icon, PanelIcon};
use cosmic_clip_keep::applet::thumbs::Thumbs;
use cosmic_clip_keep::applet::view::details::{facts, summary, Fact, Summary};
use cosmic_clip_keep::applet::view::history::{history_page, Empty};
use cosmic_clip_keep::clip::model::{
    Backend, CaptureState, EntryId, EntryKind, EntryMeta, Snapshot,
};

fn entry(id: i64, kind: EntryKind, preview: &str, pinned: Option<u32>) -> EntryMeta {
    EntryMeta {
        id: EntryId(id),
        kind,
        preview: preview.to_owned(),
        byte_size: 2048,
        source_app: None,
        created_at: 10,
        last_used_at: 20,
        use_count: 3,
        pinned,
        image_size: None,
    }
}

fn snapshot(capture: CaptureState, entries: Vec<EntryMeta>) -> Snapshot {
    Snapshot {
        capture,
        entries: Arc::from(entries),
        revision: 1,
    }
}

#[test]
fn pins_get_a_section_of_their_own_above_the_rest() {
    let page = history_page(
        &snapshot(
            CaptureState::Active(Backend::Ext),
            vec![
                entry(1, EntryKind::Text, "pinned hello", Some(0)),
                entry(2, EntryKind::Text, "hello", None),
                entry(3, EntryKind::Text, "other", None),
            ],
        ),
        "",
    );

    assert_eq!(page.pinned, vec![0]);
    assert_eq!(page.recent, vec![1, 2]);
    assert_eq!(page.empty, None);
    assert!(page.can_clear);
    assert!(!page.can_reset_search);
    assert_eq!(page.notice, None);
}

#[test]
fn a_search_narrows_both_sections_and_says_when_nothing_matches() {
    let history = snapshot(
        CaptureState::Active(Backend::Ext),
        vec![
            entry(1, EntryKind::Text, "pinned hello", Some(0)),
            entry(2, EntryKind::Text, "hello", None),
            entry(3, EntryKind::Text, "other", None),
        ],
    );

    let found = history_page(&history, "HELLO");
    assert_eq!(found.pinned, vec![0]);
    assert_eq!(found.recent, vec![1]);
    assert!(found.can_reset_search);

    let none = history_page(&history, "absent");
    assert!(none.pinned.is_empty() && none.recent.is_empty());
    assert_eq!(none.empty, Some(Empty::NoResults));
}

#[test]
fn an_empty_history_says_so_and_has_nothing_to_clear() {
    let page = history_page(&snapshot(CaptureState::Starting, Vec::new()), "");
    assert_eq!(page.empty, Some(Empty::History));
    assert!(!page.can_clear);

    let pins_only = history_page(
        &snapshot(
            CaptureState::Starting,
            vec![entry(1, EntryKind::Text, "kept", Some(0))],
        ),
        "",
    );
    assert!(!pins_only.can_clear, "a clear spares pins, so there is nothing to clear");
}

#[test]
fn an_unavailable_capture_is_explained_above_the_list() {
    let page = history_page(
        &snapshot(
            CaptureState::Unavailable {
                reason: "no data-control protocol".to_owned(),
            },
            Vec::new(),
        ),
        "",
    );

    assert_eq!(page.notice.as_deref(), Some("no data-control protocol"));
}

#[test]
fn the_panel_icon_follows_the_capture() {
    assert_eq!(panel_icon(&CaptureState::Paused), PanelIcon::Paused);
    assert_eq!(
        panel_icon(&CaptureState::Unavailable { reason: String::new() }),
        PanelIcon::Warning
    );
    assert_eq!(panel_icon(&CaptureState::Starting), PanelIcon::Clipboard);
    assert_eq!(panel_icon(&CaptureState::Active(Backend::Wlr)), PanelIcon::Clipboard);
}

#[test]
fn a_text_entry_is_summarised_by_its_text() {
    let thumbs: Thumbs<u8> = Thumbs::new();
    let text = entry(1, EntryKind::Text, "some copied words", None);

    match summary(&text, &thumbs) {
        Summary::Excerpt(words) => assert_eq!(words, "some copied words"),
        other => panic!("expected an excerpt, got {other:?}"),
    }
}

#[test]
fn an_image_shows_its_thumbnail_once_it_has_arrived() {
    let mut thumbs: Thumbs<u8> = Thumbs::new();
    let image = EntryMeta {
        image_size: Some((640, 480)),
        ..entry(5, EntryKind::Image, "", None)
    };

    assert!(matches!(summary(&image, &thumbs), Summary::Nothing));

    thumbs.insert(EntryId(5), Some(9));
    match summary(&image, &thumbs) {
        Summary::Picture(handle, size) => {
            assert_eq!(*handle, 9);
            assert_eq!(size, (640, 480));
        }
        other => panic!("expected a picture, got {other:?}"),
    }
}

#[test]
fn the_facts_are_listed_in_order() {
    let image = EntryMeta {
        source_app: Some("org.gnome.TextEditor".to_owned()),
        image_size: Some((640, 480)),
        ..entry(5, EntryKind::Image, "", None)
    };

    assert_eq!(
        facts(&image),
        vec![
            Fact::Source("Text Editor".to_owned()),
            Fact::Copied(10),
            Fact::Used(20),
            Fact::Copies("3".to_owned()),
            Fact::Bytes("2.0 kB".to_owned()),
            Fact::Size("640 × 480".to_owned()),
        ]
    );

    let text = entry(1, EntryKind::Text, "words", None);
    assert_eq!(facts(&text).len(), 4, "no source and no size to tell");
}
