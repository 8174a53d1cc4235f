use cosmic_clip_keep::clip::db::{Db, DbError, NewEntry, Stored};
use cosmic_clip_keep::clip::model::{Capture, EntryId, EntryKind, Flavor, Thumbnail};
use cosmic_clip_keep::clip::settings::Settings;
use cosmic_clip_keep::clip::{dedup, thumbnail};

const T0: i64 = 1_700_000_000_000;

fn text(body: &str) -> Capture {
    Capture {
        kind: EntryKind::Text,
        flavors: vec![Flavor::new(
            "text/plain;charset=utf-8",
            body.as_bytes().to_vec(),
        )],
        source_app: None,
    }
}

fn store(db: &mut Db, capture: &Capture, at: i64) -> Stored {
    let hash = dedup::hash(capture);
    let preview = dedup::preview(capture);

    db.store(
        &NewEntry {
            hash: &hash,
            kind: capture.kind,
            preview: &preview,
            source_app: capture.source_app.as_deref(),
            flavors: &capture.flavors,
            thumbnail: None,
        },
        at,
    )
    .expect("the store should accept a well-formed capture")
}

fn labels(db: &Db, settings: &Settings) -> Vec<String> {
    db.list(settings)
        .expect("listing should succeed")
        .into_iter()
        .map(|entry| entry.label().to_owned())
        .collect()
}

#[test]
fn a_capture_is_stored_with_every_flavor_it_offered() {
    let mut db = Db::in_memory().unwrap();
    let capture = Capture {
        kind: EntryKind::Text,
        flavors: vec![
            Flavor::new("text/plain;charset=utf-8", b"hello".to_vec()),
            Flavor::new("text/html", b"<b>hello</b>".to_vec()),
        ],
        source_app: Some("com.system76.CosmicTerm".into()),
    };

    let stored = store(&mut db, &capture, T0);
    assert!(stored.is_new());

    let entries = db.list(&Settings::default()).unwrap();
    assert_eq!(entries.len(), 1);
    assert_eq!(entries[0].preview, "hello");
    assert_eq!(entries[0].byte_size, 17);
    assert_eq!(
        entries[0].source_app.as_deref(),
        Some("com.system76.CosmicTerm")
    );

    let primary = db.load(stored.id(), None).unwrap().unwrap();
    assert_eq!(primary.mime, "text/plain;charset=utf-8");

    let flavors = db.load_all(stored.id()).unwrap();
    assert_eq!(flavors.len(), 2);
    assert_eq!(flavors[1].mime, "text/html");
}

#[test]
fn copying_the_same_thing_again_bumps_the_entry_instead_of_duplicating_it() {
    let mut db = Db::in_memory().unwrap();

    let first = store(&mut db, &text("token"), T0);
    let second = store(&mut db, &text("token"), T0 + 1000);

    assert!(first.is_new());
    assert!(!second.is_new(), "the second copy is the same content");
    assert_eq!(first.id(), second.id());

    let entries = db.list(&Settings::default()).unwrap();
    assert_eq!(entries.len(), 1);
    assert_eq!(entries[0].use_count, 2);
    assert_eq!(entries[0].last_used_at, T0 + 1000);
    assert_eq!(entries[0].created_at, T0, "the original time is kept");
}

#[test]
fn the_list_puts_the_most_recently_used_first() {
    let mut db = Db::in_memory().unwrap();

    store(&mut db, &text("oldest"), T0);
    store(&mut db, &text("middle"), T0 + 1000);
    store(&mut db, &text("newest"), T0 + 2000);
    store(&mut db, &text("oldest"), T0 + 3000);

    assert_eq!(
        labels(&db, &Settings::default()),
        ["oldest", "newest", "middle"]
    );
}

#[test]
fn pinned_entries_sit_above_the_rest() {
    let mut db = Db::in_memory().unwrap();

    let pinned = store(&mut db, &text("kept"), T0).id();
    store(&mut db, &text("ordinary"), T0 + 1000);
    db.set_pinned(pinned, true).unwrap();

    assert_eq!(labels(&db, &Settings::default()), ["kept", "ordinary"]);
}

#[test]
fn pruning_keeps_the_newest_and_never_touches_a_pin() {
    let mut db = Db::in_memory().unwrap();

    let precious = store(&mut db, &text("precious"), T0).id();
    db.set_pinned(precious, true).unwrap();

    for index in 0..10 {
        store(&mut db, &text(&format!("entry {index}")), T0 + 1000 + index);
    }

    let settings = Settings {
        max_entries: 3,
        max_age_days: None,
        ..Settings::default()
    };
    let removed = db.prune(&settings, T0 + 100_000).unwrap();

    assert_eq!(removed, 7);
    assert_eq!(
        labels(&db, &settings),
        ["precious", "entry 9", "entry 8", "entry 7"],
        "the pin plus the three newest survive"
    );
}

#[test]
fn pruning_by_age_also_spares_pins() {
    let mut db = Db::in_memory().unwrap();
    let day = 86_400_000;

    let old_pin = store(&mut db, &text("old but pinned"), T0).id();
    db.set_pinned(old_pin, true).unwrap();
    store(&mut db, &text("old and loose"), T0);
    store(&mut db, &text("recent"), T0 + 29 * day);

    let settings = Settings {
        max_age_days: Some(30),
        ..Settings::default()
    };
    db.prune(&settings, T0 + 31 * day).unwrap();

    let mut kept = labels(&db, &settings);
    kept.sort();
    assert_eq!(kept, ["old but pinned", "recent"]);
}

#[test]
fn clearing_spares_pins_unless_asked_not_to() {
    let mut db = Db::in_memory().unwrap();
    let pinned = store(&mut db, &text("kept"), T0).id();
    store(&mut db, &text("ordinary"), T0 + 1000);
    db.set_pinned(pinned, true).unwrap();

    db.clear(false).unwrap();
    assert_eq!(labels(&db, &Settings::default()), ["kept"]);

    db.clear(true).unwrap();
    assert!(labels(&db, &Settings::default()).is_empty());
}

#[test]
fn deleting_an_entry_takes_its_content_thumbnail_and_pin_with_it() {
    let mut db = Db::in_memory().unwrap();

    let png = {
        let image = image::RgbaImage::from_pixel(8, 4, image::Rgba([1, 2, 3, 255]));
        let mut buffer = Vec::new();
        image::DynamicImage::ImageRgba8(image)
            .write_to(
                &mut std::io::Cursor::new(&mut buffer),
                image::ImageFormat::Png,
            )
            .unwrap();
        buffer
    };

    let capture = Capture {
        kind: EntryKind::Image,
        flavors: vec![Flavor::new("image/png", png.clone())],
        source_app: None,
    };
    let hash = dedup::hash(&capture);
    let generated: Thumbnail = thumbnail::generate(&png).expect("a valid png has a thumbnail");

    let id = db
        .store(
            &NewEntry {
                hash: &hash,
                kind: EntryKind::Image,
                preview: "",
                source_app: None,
                flavors: &capture.flavors,
                thumbnail: Some(&generated),
            },
            T0,
        )
        .unwrap()
        .id();

    db.set_pinned(id, true).unwrap();
    assert_eq!(db.thumbnail(id).unwrap().unwrap().width, 8);
    assert_eq!(
        db.list(&Settings::default()).unwrap()[0].image_size,
        Some((8, 4))
    );

    db.delete(id).unwrap();

    assert!(db.list(&Settings::default()).unwrap().is_empty());
    assert!(db.load(id, None).unwrap().is_none());
    assert!(db.thumbnail(id).unwrap().is_none());

    assert!(!db.contains(&hash).unwrap());
}

#[test]
fn an_unknown_entry_answers_with_nothing_rather_than_failing() {
    let mut db = Db::in_memory().unwrap();
    let missing = EntryId(999);

    assert!(db.load(missing, None).unwrap().is_none());
    assert!(db.load_all(missing).unwrap().is_empty());
    assert!(db.thumbnail(missing).unwrap().is_none());
    assert!(db.kind(missing).unwrap().is_none());

    db.touch(missing, T0).unwrap();
    db.delete(missing).unwrap();
}

#[test]
fn the_list_is_capped_at_the_configured_size() {
    let mut db = Db::in_memory().unwrap();
    for index in 0..20 {
        store(&mut db, &text(&format!("entry {index}")), T0 + index);
    }

    let settings = Settings {
        max_entries: 5,
        ..Settings::default()
    };
    assert_eq!(db.list(&settings).unwrap().len(), 5);

    let pinned = db.list(&settings).unwrap()[0].id;
    db.set_pinned(pinned, true).unwrap();
    assert_eq!(db.list(&settings).unwrap().len(), 6);
}

#[test]
fn a_selection_echoed_back_within_a_moment_is_not_counted_again() {
    let mut db = Db::in_memory().expect("an in-memory history should open");
    let capture = text("pasted again");

    let stored = store(&mut db, &capture, T0);
    db.touch(stored.id(), T0 + 10).expect("a use should record");
    store(&mut db, &capture, T0 + 20);

    let entries = db.list(&Settings::default()).unwrap();
    assert_eq!(
        entries[0].use_count, 2,
        "the click and the echo another instance captures must count once"
    );

    store(&mut db, &capture, T0 + 60_000);
    let entries = db.list(&Settings::default()).unwrap();
    assert_eq!(entries[0].use_count, 3, "a later copy still counts");
}

#[test]
fn a_flavour_is_loaded_by_its_type_and_a_later_duplicate_replaces_an_earlier_one() {
    let mut db = Db::in_memory().unwrap();
    let flavors = vec![
        Flavor::new("text/plain", b"one".to_vec()),
        Flavor::new("text/html", b"<i>one</i>".to_vec()),
        Flavor::new("text/plain", b"two".to_vec()),
    ];
    let id = db
        .store(
            &NewEntry {
                hash: &[7; 32],
                kind: EntryKind::Text,
                preview: "one",
                source_app: None,
                flavors: &flavors,
                thumbnail: None,
            },
            T0,
        )
        .unwrap()
        .id();
    let all = db.load_all(id).unwrap();
    assert_eq!(all.len(), 2);
    assert_eq!(all[0].mime, "text/html");
    assert_eq!(all[1].body, b"two");
    assert_eq!(db.load(id, Some("text/plain")).unwrap().unwrap().body, b"two");
    assert!(db.load(id, Some("TEXT/PLAIN")).unwrap().is_none());
    assert_eq!(db.kind(id).unwrap(), Some(EntryKind::Text));
}

#[test]
fn pinning_an_unknown_entry_is_refused_and_pins_line_up_in_order() {
    let mut db = Db::in_memory().unwrap();
    assert_eq!(db.set_pinned(EntryId(5), true), Err(DbError::NoSuchEntry));
    assert_eq!(db.set_pinned(EntryId(5), false), Ok(()));
    let a = store(&mut db, &text("a"), T0).id();
    let b = store(&mut db, &text("b"), T0 + 1).id();
    let c = store(&mut db, &text("c"), T0 + 2).id();
    db.set_pinned(b, true).unwrap();
    db.set_pinned(a, true).unwrap();
    db.set_pinned(a, true).unwrap();
    let entries = db.list(&Settings::default()).unwrap();
    assert_eq!(entries[0].id, b);
    assert_eq!(entries[0].pinned, Some(0));
    assert_eq!(entries[1].id, a);
    assert_eq!(entries[1].pinned, Some(1));
    assert_eq!(entries[2].id, c);
    db.set_pinned(b, false).unwrap();
    assert_eq!(labels(&db, &Settings::default()), ["a", "c", "b"]);
}

#[test]
fn a_long_preview_is_stored_cut_and_ids_climb() {
    let mut db = Db::in_memory().unwrap();
    let long = "z".repeat(500);
    let first = db
        .store(
            &NewEntry {
                hash: b"h1",
                kind: EntryKind::Text,
                preview: &long,
                source_app: None,
                flavors: &[],
                thumbnail: None,
            },
            T0,
        )
        .unwrap();
    assert_eq!(first, Stored::Inserted(EntryId(1)));
    let entries = db.list(&Settings::default()).unwrap();
    assert_eq!(entries[0].preview.chars().count(), 200);
    assert_eq!(entries[0].byte_size, 0);
    let second = store(&mut db, &text("next"), T0 + 5);
    assert_eq!(second, Stored::Inserted(EntryId(2)));
}

#[test]
fn a_history_kept_elsewhere_comes_back_as_it_was() {
    let mut db = Db::in_memory().unwrap();
    store(&mut db, &text("first"), T0);
    store(&mut db, &text("second"), T0 + 10);
    let pinned = store(&mut db, &text("pinned"), T0 + 20).id();
    db.set_pinned(pinned, true).unwrap();

    let mut records = db.records();
    assert_eq!(records.len(), 3);
    records.reverse();
    let restored = Db::restore(records).expect("a kept history restores");

    let settings = Settings::default();
    assert_eq!(labels(&restored, &settings), labels(&db, &settings));
    assert_eq!(labels(&restored, &settings), ["pinned", "second", "first"]);
    assert_eq!(
        restored.load_all(pinned).unwrap(),
        db.load_all(pinned).unwrap()
    );
}

#[test]
fn records_that_repeat_an_id_are_refused() {
    let mut db = Db::in_memory().unwrap();
    store(&mut db, &text("only"), T0);
    let mut records = db.records();
    let mut twin = db.records().remove(0);
    twin.hash = vec![9; 32];
    records.push(twin);

    assert!(matches!(Db::restore(records), Err(DbError::Corrupt)));
    assert!(matches!(Db::restore(Vec::new()), Ok(_)));
}

#[test]
fn the_history_lives_in_the_data_directory() {
    assert_eq!(
        cosmic_clip_keep::clip::db::default_path(Some("/data"), Some("/home/me"), "/tmp"),
        "/data/cosmic-clip-keep/history.db"
    );
    assert_eq!(
        cosmic_clip_keep::clip::db::default_path(Some("relative"), Some("/home/me"), "/tmp"),
        "/home/me/.local/share/cosmic-clip-keep/history.db"
    );
    assert_eq!(
        cosmic_clip_keep::clip::db::default_path(None, None, "/tmp/"),
        "/tmp/cosmic-clip-keep/history.db"
    );
}

#[test]
fn a_kind_nobody_stored_reads_as_text() {
    assert_eq!(EntryKind::read(1), EntryKind::Image);
    assert_eq!(EntryKind::read(2), EntryKind::Files);
    assert_eq!(EntryKind::read(7), EntryKind::Text);
    assert_eq!(EntryKind::read(-1), EntryKind::Text);
}
