use cosmic_clip_keep::applet::view::details::{
    application, bytes, details_text, digits, format_name, format_names, DETAILS_CHARS,
};
use cosmic_clip_keep::applet::view::history::{label, one_line, RowLabel};
use cosmic_clip_keep::applet::view::settings::retention_options;
use cosmic_clip_keep::clip::model::{EntryId, EntryKind, EntryMeta};

const FILES: &str = "Files";
const PLAIN: &str = "Plain text";

fn mimes(list: &[&str]) -> Vec<String> {
    list.iter().map(|mime| (*mime).to_owned()).collect()
}

#[test]
fn short_details_are_left_unchanged() {
    assert_eq!(details_text("um texto curto"), "um texto curto");
}

#[test]
fn long_details_are_ellipsized_at_four_hundred_characters() {
    let text = "á".repeat(DETAILS_CHARS + 20);
    let result = details_text(&text);

    assert_eq!(result.chars().count(), DETAILS_CHARS);
    assert!(result.ends_with("..."));
}

#[test]
fn a_text_of_exactly_the_limit_is_not_cut() {
    let text = "b".repeat(DETAILS_CHARS);
    assert_eq!(details_text(&text), text);
}

#[test]
fn an_entry_whose_formats_have_not_arrived_shows_no_row() {
    assert!(format_names(&[], FILES, PLAIN).is_empty());
}

#[test]
fn a_charset_is_not_part_of_the_name_a_reader_needs() {
    assert_eq!(
        format_name("text/plain;charset=utf-8", FILES, PLAIN),
        format_name("text/plain", FILES, PLAIN)
    );
    assert_eq!(format_name("TEXT/HTML", FILES, PLAIN), "HTML");
}

#[test]
fn the_two_spellings_of_rich_text_read_as_one_format() {
    assert_eq!(
        format_names(
            &mimes(&[
                "text/plain;charset=utf-8",
                "text/html",
                "text/rtf",
                "text/richtext"
            ]),
            FILES,
            PLAIN
        ),
        [
            format_name("text/plain", FILES, PLAIN),
            "HTML".to_owned(),
            "RTF".to_owned()
        ]
    );
}

#[test]
fn a_format_nobody_named_still_shows_what_it_is() {
    assert_eq!(
        format_name("application/x-invented", FILES, PLAIN),
        "application/x-invented"
    );
}

#[test]
fn files_and_plain_text_take_the_words_they_are_given() {
    assert_eq!(format_name("text/uri-list", FILES, PLAIN), FILES);
    assert_eq!(format_name(" UTF8_STRING ", FILES, PLAIN), PLAIN);
    assert_eq!(format_name("image/jpeg; q=1", FILES, PLAIN), "JPEG");
}

#[test]
fn an_application_id_reads_as_a_name() {
    assert_eq!(application("org.chromium.Chromium"), "Chromium");
    assert_eq!(application("com.system76.CosmicFiles"), "Cosmic Files");
}

#[test]
fn a_bare_application_id_is_capitalised() {
    assert_eq!(application("firefox"), "Firefox");
    assert_eq!(application(""), "");
    assert_eq!(application("a.b.CamelCase"), "Camel Case");
}

#[test]
fn sizes_climb_through_the_units() {
    assert_eq!(bytes(512), "512 B");
    assert_eq!(bytes(1024), "1.0 kB");
    assert_eq!(bytes(1024 * 1024 * 2), "2.0 MB");
}

#[test]
fn sizes_keep_one_truncated_decimal_and_stop_at_gigabytes() {
    assert_eq!(bytes(0), "0 B");
    assert_eq!(bytes(1023), "1023 B");
    assert_eq!(bytes(1535), "1.4 kB");
    assert_eq!(bytes(5 * 1024 * 1024 * 1024 * 1024), "5120.0 GB");
    assert_eq!(digits(90210), vec!['9', '0', '2', '1', '0']);
}

#[test]
fn a_row_shows_the_first_line_that_has_something_on_it() {
    assert_eq!(one_line("\n\n  hello \nworld"), "  hello ");
    assert_eq!(one_line("only"), "only");
    assert_eq!(one_line("   "), "");
}

#[test]
fn an_image_row_is_labelled_by_its_size() {
    let mut entry = EntryMeta {
        id: EntryId(1),
        kind: EntryKind::Image,
        preview: String::new(),
        byte_size: 10,
        source_app: None,
        created_at: 0,
        last_used_at: 0,
        use_count: 1,
        pinned: None,
        image_size: Some((640, 480)),
    };
    assert_eq!(
        label(&entry),
        RowLabel::Image {
            width: 640,
            height: 480
        }
    );
    entry.kind = EntryKind::Text;
    entry.preview = "\n first line\nsecond".to_owned();
    assert_eq!(label(&entry), RowLabel::Text(" first line".to_owned()));
}

#[test]
fn the_retention_presets_start_at_never_and_climb() {
    assert_eq!(retention_options(Some(30)), [None, Some(1), Some(7), Some(30)]);
}

#[test]
fn a_hand_written_value_joins_the_presets_in_order() {
    assert_eq!(
        retention_options(Some(14)),
        [None, Some(1), Some(7), Some(14), Some(30)]
    );
    assert_eq!(
        retention_options(Some(90)),
        [None, Some(1), Some(7), Some(30), Some(90)]
    );
    assert_eq!(retention_options(None), [None, Some(1), Some(7), Some(30)]);
}
