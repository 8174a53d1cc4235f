use cosmic_clip_keep::clip::dedup::{hash, hash_flavors, preview};
use cosmic_clip_keep::clip::model::{Capture, EntryKind, Flavor, PREVIEW_CHARS};
use sha2::{Digest, Sha256};

fn text(body: &str) -> Capture {
    Capture {
        kind: EntryKind::Text,
        flavors: vec![Flavor::new("text/plain", body.as_bytes().to_vec())],
        source_app: None,
    }
}

#[test]
fn the_same_text_hashes_the_same_regardless_of_surrounding_whitespace() {
    assert_eq!(hash(&text("hello")), hash(&text("  hello\n")));
}

#[test]
fn different_text_hashes_differently() {
    assert_ne!(hash(&text("hello")), hash(&text("hallo")));
}

#[test]
fn the_same_bytes_in_different_kinds_do_not_collide() {
    let as_text = text("data");
    let as_files = Capture {
        kind: EntryKind::Files,
        ..as_text.clone()
    };

    assert_ne!(hash(&as_text), hash(&as_files));
}

#[test]
fn the_extra_markup_flavor_does_not_change_the_hash() {
    let plain = text("hello");
    let mut with_markup = plain.clone();
    with_markup
        .flavors
        .push(Flavor::new("text/html", b"<b>hello</b>".to_vec()));

    assert_eq!(hash(&plain), hash(&with_markup));
}

#[test]
fn the_hash_is_sha256_of_the_kind_and_the_trimmed_text() {
    // SHA-256 of the single byte 0x00 followed by "abc".
    let mut expected = [0u8; 32];
    let digest = Sha256::digest([0u8, b'a', b'b', b'c']);
    expected.copy_from_slice(&digest);
    assert_eq!(hash(&text(" abc ")), expected);
    assert_eq!(
        hash_flavors(EntryKind::Image, &[Flavor::new("image/png", vec![1, 2])]),
        {
            let d = Sha256::digest([1u8, 1, 2]);
            let mut out = [0u8; 32];
            out.copy_from_slice(&d);
            out
        }
    );
}

#[test]
fn a_preview_keeps_the_lines_and_the_indentation() {
    let snippet = "fn main() {\n    println!(\"hi\");\n}";

    assert_eq!(preview(&text(snippet)), snippet);
}

#[test]
fn runs_of_spaces_inside_a_line_collapse() {
    assert_eq!(preview(&text("one   two\t\tthree")), "one two three");
}

#[test]
fn a_run_of_blank_lines_becomes_one() {
    assert_eq!(preview(&text("first\n\n\n\n\nlast")), "first\n\nlast");
}

#[test]
fn deep_indentation_is_capped() {
    let preview = preview(&text("top\n\t\t\t\tdeep"));

    assert_eq!(preview, "top\n        deep");
}

#[test]
fn a_long_preview_is_cut_at_the_character_budget() {
    let preview = preview(&text(&"a".repeat(PREVIEW_CHARS * 2)));

    assert_eq!(preview.chars().count(), PREVIEW_CHARS);
}

#[test]
fn multibyte_text_is_never_cut_mid_character() {
    let preview = preview(&text(&"á".repeat(PREVIEW_CHARS * 2)));

    assert_eq!(preview.chars().count(), PREVIEW_CHARS);
    assert!(preview.chars().all(|character| character == 'á'));
}

#[test]
fn control_characters_are_dropped() {
    assert_eq!(preview(&text("red\u{1b}[31mtext")), "red[31mtext");
}

#[test]
fn a_file_list_previews_as_its_names() {
    let capture = Capture {
        kind: EntryKind::Files,
        flavors: vec![Flavor::new(
            "text/uri-list",
            b"# comment\nfile:///home/me/a.txt\nfile:///home/me/b.png\n".to_vec(),
        )],
        source_app: None,
    };

    assert_eq!(preview(&capture), "a.txt, b.png");
}

#[test]
fn an_image_has_no_text_preview() {
    let capture = Capture {
        kind: EntryKind::Image,
        flavors: vec![Flavor::new("image/png", vec![0x89, b'P', b'N', b'G'])],
        source_app: None,
    };

    assert_eq!(preview(&capture), "");
}

#[test]
fn a_folder_with_a_trailing_slash_previews_as_its_name() {
    let capture = Capture {
        kind: EntryKind::Files,
        flavors: vec![Flavor::new("text/uri-list", b"file:///home/me/docs/\r\n".to_vec())],
        source_app: None,
    };
    assert_eq!(preview(&capture), "docs");
}

#[test]
fn lines_after_the_budget_is_spent_are_not_read() {
    let long = "x".repeat(PREVIEW_CHARS - 1);
    let body = format!("{long}\nsecond");
    assert_eq!(preview(&text(&body)), long);
}

#[test]
fn a_crlf_text_previews_like_a_lf_text() {
    assert_eq!(preview(&text("one\r\ntwo\r\n")), "one\ntwo");
}

#[test]
fn a_preview_keeps_one_blank_line_and_no_control_characters() {
    let shown = preview(&text("a\n\n\n\n\u{7}b\tc\r\n\n\n\nd"));
    assert_eq!(shown, "a\n\nb c\n\nd");
    assert!(!shown.contains("\n\n\n"));
    assert!(shown.chars().all(|c| c == '\n' || !c.is_control()));
}

#[test]
fn indentation_is_kept_up_to_eight_columns() {
    assert_eq!(preview(&text("x\n\t\t\ty")), "x\n        y");
    assert_eq!(preview(&text("x\n   y")), "x\n   y");
}

#[test]
fn a_control_character_before_a_space_adds_one_column() {
    assert_eq!(preview(&text("x\n        \u{1} y")), "x\n         y");
}
