use cosmic_clip_keep::applet::thumbs::{Thumbs, CAPACITY};
use cosmic_clip_keep::clip::model::EntryId;

fn handle() -> u32 {
    7
}

#[test]
fn an_entry_is_wanted_until_it_is_asked_about() {
    let mut thumbs = Thumbs::new();
    let id = EntryId(1);

    assert!(thumbs.wants(id));
    thumbs.mark_pending(id);
    assert!(!thumbs.wants(id), "a load is already in flight");

    thumbs.insert(id, Some(handle()));
    assert!(!thumbs.wants(id));
    assert!(thumbs.get(id).is_some());
}

#[test]
fn an_entry_with_no_thumbnail_is_remembered_as_such() {
    let mut thumbs: Thumbs<u32> = Thumbs::new();
    let id = EntryId(7);

    thumbs.insert(id, None);

    assert!(thumbs.get(id).is_none());
    assert!(
        !thumbs.wants(id),
        "asking again on every redraw would be a load per frame"
    );
}

#[test]
fn the_cache_stays_within_its_bound() {
    let mut thumbs = Thumbs::new();

    let capacity = i64::try_from(CAPACITY).unwrap();
    for index in 0..(capacity + 20) {
        thumbs.insert(EntryId(index), Some(handle()));
    }

    assert_eq!(thumbs.len(), CAPACITY);
    assert!(thumbs.get(EntryId(0)).is_none(), "the oldest went first");
    assert!(thumbs.get(EntryId(capacity + 19)).is_some());
}

#[test]
fn drawing_an_entry_again_saves_it_from_eviction() {
    let mut thumbs = Thumbs::new();
    let survivor = EntryId(0);

    thumbs.insert(survivor, Some(handle()));
    for index in 1..i64::try_from(CAPACITY).unwrap() {
        thumbs.insert(EntryId(index), Some(handle()));
    }

    thumbs.touch(survivor);
    thumbs.insert(EntryId(1000), Some(handle()));

    assert!(thumbs.get(survivor).is_some());
    assert!(
        thumbs.get(EntryId(1)).is_none(),
        "the next oldest went instead"
    );
}

#[test]
fn clearing_forgets_everything_including_pending_loads() {
    let mut thumbs = Thumbs::new();
    thumbs.insert(EntryId(1), Some(handle()));
    thumbs.mark_pending(EntryId(2));

    thumbs.clear();

    assert!(thumbs.is_empty());
    assert!(thumbs.wants(EntryId(1)));
    assert!(thumbs.wants(EntryId(2)));
}

#[test]
fn a_loaded_thumbnail_is_the_one_handed_in() {
    let mut thumbs = Thumbs::new();
    thumbs.insert(EntryId(3), Some(42u32));
    thumbs.insert(EntryId(3), Some(43u32));
    assert_eq!(thumbs.get(EntryId(3)), Some(&43));
    assert_eq!(thumbs.len(), 1);
}

#[test]
fn a_full_cache_drops_only_the_least_recently_drawn() {
    let mut thumbs = Thumbs::new();
    let capacity = i64::try_from(CAPACITY).unwrap();
    for index in 0..capacity {
        thumbs.insert(EntryId(index), Some(handle()));
    }
    assert_eq!(thumbs.len(), CAPACITY);

    thumbs.insert(EntryId(capacity), Some(handle()));

    assert_eq!(thumbs.len(), CAPACITY);
    assert!(thumbs.get(EntryId(0)).is_none());
    for index in 1..=capacity {
        assert!(thumbs.get(EntryId(index)).is_some());
    }
}
