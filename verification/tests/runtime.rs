use cosmic_clip_keep::clip::db::{Db, DbError, Stored};
use cosmic_clip_keep::clip::mime::PASSWORD_HINT;
use cosmic_clip_keep::clip::model::{Backend, CaptureState, EntryKind, Flavor};
use cosmic_clip_keep::clip::privacy::{Filter, Refusal};
use cosmic_clip_keep::clip::runtime::{
    capture_after, is_reflected_selection, kind_of_offer, on_command, plan, record, time_left,
    use_entry, Policy, Recorded, Role, Slot, SlotState, Transfer,
};
use cosmic_clip_keep::clip::settings::Settings;
use cosmic_clip_keep::clip::ClipCommand;
use cosmic_clip_keep::clip::dedup;

const T0: i64 = 1_700_000_000_000;

fn offered(mimes: &[&str]) -> Vec<String> {
    mimes.iter().map(|mime| (*mime).to_owned()).collect()
}

fn slot(mime: &str, role: Role, state: SlotState) -> Slot {
    Slot {
        mime: mime.to_owned(),
        role,
        state,
    }
}

fn text_transfer(body: &[u8], priming: bool) -> Transfer {
    Transfer {
        kind: EntryKind::Text,
        source_app: Some("org.example.Editor".to_owned()),
        slots: vec![slot(
            "text/plain;charset=utf-8",
            Role::Content,
            SlotState::Done(body.to_vec()),
        )],
        priming,
    }
}

fn png(width: u32, height: u32) -> Vec<u8> {
    let image = image::RgbaImage::new(width, height);
    let mut bytes = Vec::new();
    image::DynamicImage::ImageRgba8(image)
        .write_to(&mut std::io::Cursor::new(&mut bytes), image::ImageFormat::Png)
        .unwrap();
    bytes
}

#[test]
fn only_the_active_sources_matching_selection_is_a_reflection() {
    let owned = [1; 32];
    assert!(is_reflected_selection(true, Some(owned), owned));
    assert!(!is_reflected_selection(true, Some(owned), [2; 32]));
    assert!(!is_reflected_selection(false, Some(owned), owned));
    assert!(!is_reflected_selection(true, None, owned));
}

#[test]
fn nothing_is_read_in_private_mode_but_the_first_selection_is_still_noted() {
    let settings = Settings {
        private_mode: true,
        ..Settings::default()
    };
    let mut primed = false;

    assert!(plan(&Filter::new(&settings), &settings, &offered(&["text/plain"]), &mut primed).is_none());
    assert!(primed);
}

#[test]
fn a_text_selection_asks_for_its_flavours_and_the_hint() {
    let settings = Settings::default();
    let mut primed = false;
    let offer = offered(&["text/plain;charset=utf-8", "text/html", PASSWORD_HINT]);

    let first = plan(&Filter::new(&settings), &settings, &offer, &mut primed).unwrap();
    assert_eq!(first.kind, EntryKind::Text);
    assert_eq!(first.limit, 5 * 1024 * 1024);
    assert!(first.priming);
    assert_eq!(
        first.requests,
        vec![
            ("text/plain;charset=utf-8".to_owned(), Role::Content),
            ("text/html".to_owned(), Role::Content),
            (PASSWORD_HINT.to_owned(), Role::PasswordHint),
        ]
    );

    let second = plan(&Filter::new(&settings), &settings, &offer, &mut primed).unwrap();
    assert!(!second.priming, "only the first selection is the one found on start");
}

#[test]
fn a_hint_is_not_asked_for_when_hints_are_ignored() {
    let settings = Settings {
        respect_password_hint: false,
        ..Settings::default()
    };
    let mut primed = true;
    let offer = offered(&["image/png", PASSWORD_HINT]);

    let wanted = plan(&Filter::new(&settings), &settings, &offer, &mut primed).unwrap();
    assert_eq!(wanted.kind, EntryKind::Image);
    assert_eq!(wanted.limit, 20 * 1024 * 1024);
    assert_eq!(wanted.requests, vec![("image/png".to_owned(), Role::Content)]);
}

#[test]
fn a_selection_with_nothing_worth_keeping_is_not_read() {
    let settings = Settings::default();
    let mut primed = true;
    assert!(plan(&Filter::new(&settings), &settings, &offered(&["SAVE_TARGETS"]), &mut primed).is_none());
}

#[test]
fn a_transfer_settles_once_every_flavour_arrived_or_failed() {
    let mut transfer = Transfer {
        kind: EntryKind::Text,
        source_app: None,
        slots: vec![
            slot("text/plain", Role::Content, SlotState::Reading),
            slot("text/html", Role::Content, SlotState::Reading),
        ],
        priming: false,
    };
    assert!(!transfer.is_settled());

    assert!(transfer.slot_done(0, b"hi".to_vec()), "the first flavour is the primary one");
    assert!(!transfer.is_settled());
    transfer.slot_failed(1);
    assert!(transfer.is_settled());

    transfer.slot_failed(7);
    assert_eq!(transfer.slots.len(), 2, "an unknown flavour changes nothing");
}

#[test]
fn abandoning_fails_only_what_was_still_reading() {
    let mut transfer = Transfer {
        kind: EntryKind::Text,
        source_app: None,
        slots: vec![
            slot("text/plain", Role::Content, SlotState::Done(b"kept".to_vec())),
            slot("text/html", Role::Content, SlotState::Reading),
            slot(PASSWORD_HINT, Role::PasswordHint, SlotState::Reading),
        ],
        priming: false,
    };

    let stalled = transfer.abandon();

    assert_eq!(stalled, vec!["text/html".to_owned(), PASSWORD_HINT.to_owned()]);
    assert!(transfer.is_settled());
    assert!(matches!(transfer.slots[0].state, SlotState::Done(ref body) if body == b"kept"));
    assert!(matches!(transfer.slots[1].state, SlotState::Failed));

    let (capture, secret) = transfer.into_capture();
    assert!(secret, "a hint that never arrived counts as a secret");
    assert_eq!(capture.flavors, vec![Flavor::new("text/plain", b"kept".to_vec())]);
}

#[test]
fn the_capture_keeps_content_that_arrived_with_something_in_it() {
    let transfer = Transfer {
        kind: EntryKind::Text,
        source_app: Some("org.example.App".to_owned()),
        slots: vec![
            slot("text/plain", Role::Content, SlotState::Done(b"body".to_vec())),
            slot("text/html", Role::Content, SlotState::Done(Vec::new())),
            slot("text/rtf", Role::Content, SlotState::Failed),
            slot(PASSWORD_HINT, Role::PasswordHint, SlotState::Done(b" Secret\n".to_vec())),
            slot("text/markdown", Role::Content, SlotState::Done(b"*body*".to_vec())),
        ],
        priming: false,
    };

    let (capture, secret) = transfer.into_capture();

    assert!(secret);
    assert_eq!(capture.kind, EntryKind::Text);
    assert_eq!(capture.source_app.as_deref(), Some("org.example.App"));
    assert_eq!(
        capture.flavors,
        vec![
            Flavor::new("text/plain", b"body".to_vec()),
            Flavor::new("text/markdown", b"*body*".to_vec()),
        ]
    );
}

#[test]
fn a_hint_that_is_not_secret_lets_the_copy_through() {
    let mut transfer = text_transfer(b"hello", false);
    transfer
        .slots
        .push(slot(PASSWORD_HINT, Role::PasswordHint, SlotState::Done(b"public".to_vec())));
    let (_, secret) = transfer.into_capture();
    assert!(!secret);
    let (_, secret) = text_transfer(b"hello", false).into_capture();
    assert!(!secret, "no hint at all is no secret");
}

#[test]
fn a_finished_copy_is_stored_with_its_preview() {
    let mut db = Db::in_memory().unwrap();
    let settings = Settings::default();

    let outcome = record(
        &mut db,
        &Filter::new(&settings),
        &settings,
        text_transfer(b"  hello there  ", false),
        false,
        None,
        T0,
    );

    assert!(matches!(outcome, Recorded::Stored(Stored::Inserted(_))));
    let entries = db.list(&settings).unwrap();
    assert_eq!(entries.len(), 1);
    assert_eq!(entries[0].preview, "hello there");
    assert_eq!(entries[0].source_app.as_deref(), Some("org.example.Editor"));
    assert_eq!(entries[0].created_at, T0);
}

#[test]
fn the_same_copy_again_is_met_again() {
    let mut db = Db::in_memory().unwrap();
    let settings = Settings::default();
    let filter = Filter::new(&settings);

    record(&mut db, &filter, &settings, text_transfer(b"again", false), false, None, T0);
    let outcome = record(&mut db, &filter, &settings, text_transfer(b"again", false), false, None, T0 + 5_000);

    assert!(matches!(outcome, Recorded::Stored(Stored::Repeated(_))));
    assert_eq!(db.list(&settings).unwrap().len(), 1);
}

#[test]
fn a_refused_copy_leaves_the_history_alone() {
    let mut db = Db::in_memory().unwrap();
    let settings = Settings::default();
    let filter = Filter::new(&settings);

    let blank = record(&mut db, &filter, &settings, text_transfer(b"   ", false), false, None, T0);
    assert!(matches!(blank, Recorded::Refused(Refusal::Empty)));

    let mut secret = text_transfer(b"hunter2", false);
    secret
        .slots
        .push(slot(PASSWORD_HINT, Role::PasswordHint, SlotState::Done(b"secret".to_vec())));
    let refused = record(&mut db, &filter, &settings, secret, false, None, T0);
    assert!(matches!(refused, Recorded::Refused(Refusal::PasswordHint)));

    assert!(db.list(&settings).unwrap().is_empty());
}

#[test]
fn our_own_selection_coming_back_is_not_recorded() {
    let mut db = Db::in_memory().unwrap();
    let settings = Settings::default();
    let filter = Filter::new(&settings);
    let owned = dedup::hash_flavors(
        EntryKind::Text,
        &[Flavor::new("text/plain", b"mine".to_vec())],
    );

    let outcome = record(&mut db, &filter, &settings, text_transfer(b"mine", false), true, Some(owned), T0);
    assert!(matches!(outcome, Recorded::Reflected));
    assert!(db.list(&settings).unwrap().is_empty());

    let later = record(&mut db, &filter, &settings, text_transfer(b"mine", false), false, Some(owned), T0);
    assert!(
        matches!(later, Recorded::Stored(_)),
        "once our source is gone the selection is somebody else's"
    );
}

#[test]
fn the_selection_found_on_start_is_not_bumped_when_already_known() {
    let mut db = Db::in_memory().unwrap();
    let settings = Settings::default();
    let filter = Filter::new(&settings);

    record(&mut db, &filter, &settings, text_transfer(b"old", false), false, None, T0);
    let outcome = record(&mut db, &filter, &settings, text_transfer(b"old", true), false, None, T0 + 10_000);

    assert!(matches!(outcome, Recorded::AlreadyKnown));
    assert_eq!(db.list(&settings).unwrap()[0].last_used_at, T0);

    let fresh = record(&mut db, &filter, &settings, text_transfer(b"new", true), false, None, T0);
    assert!(matches!(fresh, Recorded::Stored(Stored::Inserted(_))));
}

#[test]
fn an_image_is_stored_with_a_thumbnail() {
    let mut db = Db::in_memory().unwrap();
    let settings = Settings::default();
    let transfer = Transfer {
        kind: EntryKind::Image,
        source_app: None,
        slots: vec![slot("image/png", Role::Content, SlotState::Done(png(3, 2)))],
        priming: false,
    };

    let outcome = record(&mut db, &Filter::new(&settings), &settings, transfer, false, None, T0);

    let Recorded::Stored(stored) = outcome else {
        panic!("the image should be stored");
    };
    let thumbnail = db.thumbnail(stored.id()).unwrap().expect("an image gets a thumbnail");
    assert_eq!((thumbnail.width, thumbnail.height), (3, 2));
    assert_eq!(db.list(&settings).unwrap()[0].image_size, Some((3, 2)));
}

#[test]
fn storing_prunes_to_the_configured_size() {
    let mut db = Db::in_memory().unwrap();
    let settings = Settings {
        max_entries: 2,
        ..Settings::default()
    };
    let filter = Filter::new(&settings);
    for (index, body) in [b"one", b"two", b"six"].iter().enumerate() {
        record(&mut db, &filter, &settings, text_transfer(*body, false), false, None, T0 + index as i64);
    }

    let previews: Vec<String> = db
        .list(&settings)
        .unwrap()
        .into_iter()
        .map(|entry| entry.preview)
        .collect();
    assert_eq!(previews, ["six", "two"]);
    let _ = DbError::NoSuchEntry;
}

#[test]
fn a_stalled_transfer_gets_what_is_left_of_its_time() {
    assert_eq!(time_left(0), Some(2000));
    assert_eq!(time_left(1500), Some(500));
    assert_eq!(time_left(2000), Some(0));
    assert_eq!(time_left(2001), None);
}

#[test]
fn flavours_put_back_on_the_clipboard_keep_their_kind() {
    assert_eq!(
        kind_of_offer(&[Flavor::new("image/png", vec![1]), Flavor::new("text/plain", vec![2])]),
        EntryKind::Image
    );
    assert_eq!(
        kind_of_offer(&[Flavor::new("text/uri-list", vec![1])]),
        EntryKind::Files
    );
    assert_eq!(kind_of_offer(&[Flavor::new("x-unknown", vec![1])]), EntryKind::Text);
    assert_eq!(kind_of_offer(&[]), EntryKind::Text);
}

#[test]
fn private_mode_pauses_capture_and_leaving_it_resumes() {
    assert_eq!(
        capture_after(CaptureState::Active(Backend::Ext), true, Some(Backend::Ext)),
        CaptureState::Paused
    );
    assert_eq!(
        capture_after(CaptureState::Paused, false, Some(Backend::Wlr)),
        CaptureState::Active(Backend::Wlr)
    );
    assert_eq!(capture_after(CaptureState::Paused, false, None), CaptureState::Starting);
    assert_eq!(
        capture_after(CaptureState::Unavailable { reason: "gone".into() }, true, None),
        CaptureState::Unavailable { reason: "gone".into() }
    );
}

#[test]
fn new_settings_take_effect_once_and_the_filter_follows() {
    let settings = Settings::default();
    let mut policy = Policy {
        settings: settings.clone(),
        filter: Filter::new(&settings),
        capture: CaptureState::Active(Backend::Ext),
    };

    assert!(!policy.apply(Settings::default(), Some(Backend::Ext)));

    let private = Settings {
        private_mode: true,
        max_entries: 0,
        ..Settings::default()
    };
    assert!(policy.apply(private, Some(Backend::Ext)));
    assert_eq!(policy.capture, CaptureState::Paused);
    assert_eq!(policy.settings.max_entries, 1, "the settings are sanitised");
    assert!(!policy.filter.accepts_offers());
}

#[test]
fn a_destination_gets_the_flavour_it_names() {
    let offered = offered(&["text/plain", "UTF8_STRING", "text/plain"]);
    assert_eq!(cosmic_clip_keep::clip::runtime::served(&offered, "UTF8_STRING"), Some(1));
    assert_eq!(cosmic_clip_keep::clip::runtime::served(&offered, "text/plain"), Some(0));
    assert_eq!(cosmic_clip_keep::clip::runtime::served(&offered, "TEXT"), None);
}

fn policy(settings: Settings) -> Policy {
    Policy {
        settings,
        filter: Filter::new(&settings),
        capture: CaptureState::Active(Backend::Ext),
    }
}

fn history_with(texts: &[&str]) -> Db {
    let mut db = Db::in_memory().unwrap();
    let settings = Settings::default();
    let filter = Filter::new(&settings);
    for (i, text) in texts.iter().enumerate() {
        record(&mut db, &filter, &settings, text_transfer(text.as_bytes(), false), false, None, T0 + i as i64);
    }
    db
}

#[test]
fn using_an_entry_offers_it_as_it_was_kept_and_counts_the_use() {
    let mut db = history_with(&["first", "second"]);
    let settings = Settings::default();
    let id = db.list(&settings).unwrap()[1].id;

    let reaction = use_entry(&mut db, id, true, T0 + 10_000);

    let (kind, flavors) = reaction.offer.expect("the entry is offered");
    assert_eq!(kind, EntryKind::Text);
    assert_eq!(flavors[0].mime, "text/plain;charset=utf-8");
    assert_eq!(flavors[0].body, b"first");
    assert!(reaction.changed && reaction.paste);
    let entries = db.list(&settings).unwrap();
    assert_eq!(entries[0].id, id, "the used entry is the newest now");
    assert_eq!(entries[0].use_count, 2);
    assert_eq!(entries[0].last_used_at, T0 + 10_000);
}

#[test]
fn using_an_entry_that_is_gone_does_nothing() {
    let mut db = history_with(&["only"]);

    let reaction = use_entry(&mut db, cosmic_clip_keep::clip::model::EntryId(999), true, T0);

    assert!(reaction.offer.is_none());
    assert!(!reaction.changed && !reaction.paste);
}

#[test]
fn commands_change_the_history_as_asked() {
    let mut db = history_with(&["a", "b", "c"]);
    let settings = Settings::default();
    let mut rules = policy(settings);
    let ids: Vec<_> = db.list(&settings).unwrap().iter().map(|entry| entry.id).collect();

    let pinned = on_command(&mut db, &mut rules, ClipCommand::SetPinned { id: ids[2], pinned: true }, T0, None);
    assert!(pinned.changed && pinned.offer.is_none());
    assert_eq!(db.list(&settings).unwrap()[0].id, ids[2], "a pin comes first");

    let deleted = on_command(&mut db, &mut rules, ClipCommand::Delete(ids[0]), T0, None);
    assert!(deleted.changed);
    assert_eq!(db.list(&settings).unwrap().len(), 2);

    let cleared = on_command(&mut db, &mut rules, ClipCommand::Clear { include_pinned: false }, T0, None);
    assert!(cleared.changed);
    let left = db.list(&settings).unwrap();
    assert_eq!(left.len(), 1);
    assert_eq!(left[0].id, ids[2], "the pin survives a clear");
}

#[test]
fn pinning_what_is_not_there_changes_nothing() {
    let mut db = history_with(&["a"]);
    let mut rules = policy(Settings::default());

    let reaction = on_command(
        &mut db,
        &mut rules,
        ClipCommand::SetPinned { id: cosmic_clip_keep::clip::model::EntryId(42), pinned: true },
        T0,
        None,
    );

    assert!(!reaction.changed);
}

#[test]
fn an_offer_is_made_as_the_kind_its_flavours_make() {
    let mut db = Db::in_memory().unwrap();
    let mut rules = policy(Settings::default());
    let flavors = vec![Flavor::new("image/png", vec![1, 2, 3])];

    let reaction = on_command(&mut db, &mut rules, ClipCommand::Offer { flavors: flavors.clone() }, T0, None);
    assert_eq!(reaction.offer, Some((EntryKind::Image, flavors)));
    assert!(!reaction.changed);

    let empty = on_command(&mut db, &mut rules, ClipCommand::Offer { flavors: Vec::new() }, T0, None);
    assert!(empty.offer.is_none());
}

#[test]
fn new_settings_prune_the_history_and_pause_capture() {
    let mut db = history_with(&["a", "b", "c"]);
    let mut rules = policy(Settings::default());
    let tighter = Settings {
        max_entries: 2,
        private_mode: true,
        ..Settings::default()
    };

    let reaction = on_command(&mut db, &mut rules, ClipCommand::Settings(tighter), T0 + 10, None);

    assert!(reaction.changed);
    assert_eq!(rules.settings, tighter);
    assert_eq!(rules.capture, CaptureState::Paused);
    assert_eq!(db.list(&tighter).unwrap().len(), 2);

    let again = on_command(&mut db, &mut rules, ClipCommand::Settings(tighter), T0 + 10, None);
    assert!(!again.changed, "the same settings change nothing");
}

#[test]
fn a_flavour_holding_the_same_bytes_again_is_left_out() {
    let transfer = Transfer {
        kind: EntryKind::Text,
        source_app: None,
        slots: vec![
            slot("text/plain;charset=utf-8", Role::Content, SlotState::Done(b"same".to_vec())),
            slot("text/html", Role::Content, SlotState::Done(b"same".to_vec())),
            slot("text/markdown", Role::Content, SlotState::Done(b"*same*".to_vec())),
        ],
        priming: false,
    };

    let (capture, _) = transfer.into_capture();

    let mimes: Vec<&str> = capture.flavors.iter().map(|flavor| flavor.mime.as_str()).collect();
    assert_eq!(mimes, vec!["text/plain;charset=utf-8", "text/markdown"]);
}

#[test]
fn plain_text_is_also_advertised_under_the_names_a_destination_may_ask_for() {
    let offered = vec!["text/plain;charset=utf-8".to_owned(), "text/html".to_owned()];

    let names: Vec<(String, usize)> = cosmic_clip_keep::clip::runtime::advertised(&offered);

    assert_eq!(
        names,
        vec![
            ("text/plain;charset=utf-8".to_owned(), 0),
            ("text/html".to_owned(), 1),
            ("UTF8_STRING".to_owned(), 0),
            ("text/plain".to_owned(), 0),
            ("STRING".to_owned(), 0),
            ("TEXT".to_owned(), 0),
        ]
    );

    let image = vec!["image/png".to_owned()];
    assert_eq!(
        cosmic_clip_keep::clip::runtime::advertised(&image),
        vec![("image/png".to_owned(), 0)]
    );
}

#[test]
fn a_flavour_whose_pipe_did_not_open_starts_failed() {
    let settings = Settings::default();
    let mut primed = true;
    let wanted = plan(
        &Filter::new(&settings),
        &settings,
        &offered(&["text/plain;charset=utf-8", "text/html", PASSWORD_HINT]),
        &mut primed,
    )
    .expect("plain text is read");

    let transfer = Transfer::begin(wanted, Some("org.example.Editor".to_owned()), &[true, false, true]);

    assert_eq!(transfer.slots.len(), 3);
    assert!(matches!(transfer.slots[0].state, SlotState::Reading));
    assert_eq!(transfer.slots[1].mime, "text/html");
    assert!(matches!(transfer.slots[1].state, SlotState::Failed));
    assert_eq!(transfer.slots[2].role, Role::PasswordHint);
    assert_eq!(transfer.source_app.as_deref(), Some("org.example.Editor"));
    assert!(!transfer.is_settled());
}
