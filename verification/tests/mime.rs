use cosmic_clip_keep::clip::mime::{
    choose_mimes, size_limit, text_aliases, MAX_EXTRA_FLAVORS, PASSWORD_HINT,
};
use cosmic_clip_keep::clip::model::EntryKind;

fn offered(mimes: &[&str]) -> Vec<String> {
    mimes.iter().map(|mime| (*mime).to_owned()).collect()
}

#[test]
fn plain_text_picks_the_best_encoding_and_keeps_the_markup() {
    let wanted = choose_mimes(
        &offered(&[
            "TEXT",
            "text/html",
            "text/plain",
            "text/plain;charset=utf-8",
        ]),
        true,
    )
    .unwrap();

    assert_eq!(wanted.kind, EntryKind::Text);
    assert_eq!(wanted.mimes, ["text/plain;charset=utf-8", "text/html"]);
    assert!(!wanted.password_hint);
}

#[test]
fn every_other_text_flavour_is_kept_beside_the_plain_one() {
    let wanted = choose_mimes(
        &offered(&[
            "text/plain;charset=utf-8",
            "text/markdown",
            "text/html",
            "application/rtf",
        ]),
        true,
    )
    .unwrap();

    assert_eq!(
        wanted.mimes,
        [
            "text/plain;charset=utf-8",
            "text/html",
            "application/rtf",
            "text/markdown"
        ],
        "the well-known rich flavours lead, the rest follows as offered"
    );
}

#[test]
fn another_spelling_of_plain_text_is_not_worth_a_second_copy() {
    let wanted = choose_mimes(
        &offered(&[
            "text/plain;charset=utf-8",
            "text/plain;charset=iso-8859-1",
            "STRING",
            "TEXT",
        ]),
        true,
    )
    .unwrap();

    assert_eq!(wanted.mimes, ["text/plain;charset=utf-8"]);
}

#[test]
fn an_applications_private_target_is_left_alone() {
    let wanted = choose_mimes(
        &offered(&[
            "text/plain",
            "text/_moz_htmlcontext",
            "application/x-openoffice-embed-source-xml",
            "x-special/nautilus-clipboard",
        ]),
        true,
    )
    .unwrap();

    assert_eq!(wanted.mimes, ["text/plain"]);
}

#[test]
fn a_browsers_own_bookkeeping_targets_are_refused() {
    let wanted = choose_mimes(
        &offered(&[
            "text/plain;charset=utf-8",
            "text/html",
            "text/x-moz-url-priv",
            "text/_moz_htmlinfo",
        ]),
        true,
    )
    .unwrap();

    assert_eq!(
        wanted.mimes,
        ["text/plain;charset=utf-8", "text/html"],
        "the page url firefox tracks for itself does not belong in the history"
    );
}

#[test]
fn an_app_that_offers_the_world_does_not_fill_the_history_with_it() {
    let wanted = choose_mimes(
        &offered(&[
            "text/plain",
            "text/html",
            "text/rtf",
            "text/richtext",
            "text/markdown",
            "text/csv",
            "text/x-vcard",
        ]),
        true,
    )
    .unwrap();

    assert_eq!(wanted.mimes.len(), MAX_EXTRA_FLAVORS + 1);
    assert_eq!(wanted.mimes[0], "text/plain");
}

#[test]
fn the_flavours_a_destination_may_ask_for_are_filled_in() {
    let aliases = text_aliases(&offered(&["text/plain;charset=utf-8", "text/html"]));

    assert_eq!(aliases, ["UTF8_STRING", "text/plain", "STRING", "TEXT"]);
}

#[test]
fn nothing_is_invented_for_an_entry_that_is_not_plain_text() {
    assert!(text_aliases(&offered(&["image/png"])).is_empty());
    assert!(text_aliases(&offered(&["text/uri-list"])).is_empty());
    assert!(text_aliases(&[]).is_empty());
}

#[test]
fn an_alias_already_on_offer_is_not_offered_twice() {
    let aliases = text_aliases(&offered(&["STRING", "text/plain", "TEXT"]));

    assert!(!aliases.iter().any(|alias| alias == "STRING"));
    assert!(!aliases.iter().any(|alias| alias == "text/plain"));
    assert_eq!(
        aliases,
        ["text/plain;charset=utf-8", "UTF8_STRING"],
        "the two spellings of the utf-8 charset count as one"
    );
}

#[test]
fn an_image_wins_over_the_url_offered_beside_it() {
    let wanted = choose_mimes(&offered(&["text/plain", "image/png"]), true).unwrap();

    assert_eq!(wanted.kind, EntryKind::Image);
    assert_eq!(wanted.mimes, ["image/png"]);
}

#[test]
fn an_image_is_skipped_entirely_when_images_are_off() {
    assert_eq!(choose_mimes(&offered(&["text/plain", "image/png"]), false), None);
}

#[test]
fn files_win_over_the_paths_offered_as_text() {
    let wanted = choose_mimes(&offered(&["text/plain", "text/uri-list"]), true).unwrap();

    assert_eq!(wanted.kind, EntryKind::Files);
    assert_eq!(wanted.mimes, ["text/uri-list"]);
}

#[test]
fn the_password_hint_is_noticed_without_changing_what_is_wanted() {
    let wanted = choose_mimes(&offered(&["text/plain", PASSWORD_HINT]), true).unwrap();

    assert!(wanted.password_hint);
    assert_eq!(wanted.mimes, ["text/plain"]);
}

#[test]
fn unrecognised_offers_are_ignored() {
    assert_eq!(choose_mimes(&offered(&["application/x-qt-internal"]), true), None);
    assert_eq!(choose_mimes(&[], true), None);
}

#[test]
fn atom_names_match_regardless_of_case() {
    let wanted = choose_mimes(&offered(&["utf8_string"]), true).unwrap();

    assert_eq!(
        wanted.mimes,
        ["utf8_string"],
        "the offered spelling is kept"
    );
}

#[test]
fn images_are_allowed_more_room_than_text() {
    assert!(size_limit(EntryKind::Image) > size_limit(EntryKind::Text));
}

#[test]
fn the_size_limits_are_five_and_twenty_mebibytes() {
    assert_eq!(size_limit(EntryKind::Text), 5 * 1024 * 1024);
    assert_eq!(size_limit(EntryKind::Files), 5 * 1024 * 1024);
    assert_eq!(size_limit(EntryKind::Image), 20 * 1024 * 1024);
}

#[test]
fn the_markup_follows_a_charset_parameter_with_spaces() {
    let wanted = choose_mimes(
        &offered(&["text/plain", "text/html ; charset=utf-8", "text/plain; charset=latin1"]),
        true,
    )
    .unwrap();
    assert_eq!(wanted.mimes, ["text/plain", "text/html ; charset=utf-8"]);
}

#[test]
fn a_jpeg_is_taken_when_no_png_is_offered() {
    let wanted = choose_mimes(&offered(&["IMAGE/JPEG", "image/gif"]), true).unwrap();
    assert_eq!(wanted.kind, EntryKind::Image);
    assert_eq!(wanted.mimes, ["IMAGE/JPEG"]);
}
