use cosmic_clip_keep::clip::settings::{ImageSize, Settings, MAX_ENTRIES_CEILING};

#[test]
fn defaults_survive_sanitising_unchanged() {
    assert_eq!(Settings::default().sanitised(), Settings::default());
}

#[test]
fn a_fresh_install_shows_images_exactly_as_it_always_did() {
    assert_eq!(Settings::default().image_size, ImageSize::Small);
}

#[test]
fn every_image_size_is_offered() {
    assert_eq!(
        ImageSize::ALL,
        [ImageSize::Small, ImageSize::Medium, ImageSize::Large]
    );
}

#[test]
fn out_of_range_values_are_pulled_back() {
    let settings = Settings {
        max_entries: 0,
        max_age_days: Some(0),
        ..Settings::default()
    }
    .sanitised();

    assert_eq!(settings.max_entries, 1);
    assert_eq!(settings.max_age_days, None);
}

#[test]
fn a_history_too_large_is_brought_down_to_the_ceiling() {
    let settings = Settings { max_entries: 10_000, ..Settings::default() }.sanitised();
    assert_eq!(settings.max_entries, MAX_ENTRIES_CEILING);
    let twice = settings.clone().sanitised();
    assert_eq!(twice, settings);
}
