use cosmic_clip_keep::clip::model::{
    now, timestamp_from_millis, truncate_chars, Backend, Capture, CaptureState, EntryKind,
    EntryMeta, EntryId, Flavor, Snapshot,
};

#[test]
fn now_is_after_2020() {
    assert!(now() > 1_577_836_800_000);
}

#[test]
fn entry_kind_round_trips_through_its_discriminant() {
    for kind in [EntryKind::Text, EntryKind::Image, EntryKind::Files] {
        assert_eq!(EntryKind::from_i64(kind as i64), Some(kind));
    }
    assert_eq!(EntryKind::from_i64(3), None);
    assert_eq!(EntryKind::from_i64(-1), None);
}

#[test]
fn capture_size_counts_every_flavor() {
    let capture = Capture {
        kind: EntryKind::Text,
        flavors: vec![
            Flavor::new("text/plain", b"hello".to_vec()),
            Flavor::new("text/html", b"<b>hello</b>".to_vec()),
        ],
        source_app: None,
    };

    assert_eq!(capture.byte_size(), 17);
    assert_eq!(capture.primary().unwrap().mime, "text/plain");
}

#[test]
fn a_clock_before_the_epoch_reads_as_zero_and_a_huge_one_saturates() {
    assert_eq!(timestamp_from_millis(None), 0);
    assert_eq!(timestamp_from_millis(Some(1234)), 1234);
    assert_eq!(timestamp_from_millis(Some(u128::MAX)), i64::MAX);
}

#[test]
fn an_empty_capture_has_no_primary_and_no_size() {
    let capture = Capture { kind: EntryKind::Image, flavors: vec![], source_app: None };
    assert!(capture.primary().is_none());
    assert_eq!(capture.byte_size(), 0);
}

#[test]
fn truncation_counts_characters_not_bytes() {
    assert_eq!(truncate_chars("ábcdé", 3), "ábc");
    assert_eq!(truncate_chars("ab", 3), "ab");
}

#[test]
fn the_protocols_are_named_as_the_compositor_names_them() {
    assert_eq!(Backend::Ext.protocol(), "ext_data_control_manager_v1");
    assert_eq!(Backend::Wlr.protocol(), "zwlr_data_control_manager_v1");
}

#[test]
fn a_fresh_snapshot_is_starting_and_empty() {
    let snapshot = Snapshot::default();
    assert_eq!(snapshot.capture, CaptureState::Starting);
    assert!(snapshot.entries.is_empty());
    assert_eq!(snapshot.revision, 0);
}

#[test]
fn an_entry_is_labelled_by_its_preview() {
    let meta = EntryMeta {
        id: EntryId(3),
        kind: EntryKind::Text,
        preview: "label".to_owned(),
        byte_size: 5,
        source_app: None,
        created_at: 0,
        last_used_at: 0,
        use_count: 1,
        pinned: None,
        image_size: None,
    };
    assert_eq!(meta.label(), "label");
}
