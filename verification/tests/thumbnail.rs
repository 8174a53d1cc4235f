use cosmic_clip_keep::clip::thumbnail::{fit, generate, thumbnail_edge, MAX_EDGE};

fn png_4x2() -> Vec<u8> {
    let mut buffer = Vec::new();
    let image = image::RgbaImage::from_pixel(4, 2, image::Rgba([255, 0, 0, 255]));
    image::DynamicImage::ImageRgba8(image)
        .write_to(
            &mut std::io::Cursor::new(&mut buffer),
            image::ImageFormat::Png,
        )
        .unwrap();
    buffer
}

#[test]
fn a_small_image_keeps_its_dimensions() {
    let thumbnail = generate(&png_4x2()).unwrap();

    assert_eq!((thumbnail.width, thumbnail.height), (4, 2));
    assert!(!thumbnail.png.is_empty());
}

#[test]
fn a_large_image_reports_its_original_size() {
    let mut buffer = Vec::new();
    let image = image::RgbaImage::from_pixel(1000, 500, image::Rgba([0, 0, 255, 255]));
    image::DynamicImage::ImageRgba8(image)
        .write_to(
            &mut std::io::Cursor::new(&mut buffer),
            image::ImageFormat::Png,
        )
        .unwrap();

    let thumbnail = generate(&buffer).unwrap();

    assert_eq!((thumbnail.width, thumbnail.height), (1000, 500));
    assert!(
        thumbnail.png.len() < buffer.len(),
        "the thumbnail should be smaller than the original"
    );
}

#[test]
fn nonsense_bytes_are_not_an_image() {
    assert!(generate(b"this is not a png").is_none());
    assert!(generate(&[]).is_none());
}

#[test]
fn fitting_preserves_the_aspect_ratio() {
    assert_eq!(fit(1920, 1080, 48), (85, 48));
}

#[test]
fn fitting_never_enlarges() {
    assert_eq!(fit(20, 10, 48), (20, 10));
}

#[test]
fn a_very_wide_image_still_gets_at_least_one_pixel() {
    assert_eq!(fit(1, 10_000, 48), (1, 48));
}

#[test]
fn a_scaled_thumbnail_decodes_within_the_edge() {
    let mut buffer = Vec::new();
    let image = image::RgbaImage::from_pixel(600, 300, image::Rgba([0, 255, 0, 255]));
    image::DynamicImage::ImageRgba8(image)
        .write_to(&mut std::io::Cursor::new(&mut buffer), image::ImageFormat::Png)
        .unwrap();
    let thumbnail = generate(&buffer).unwrap();
    let decoded = image::load_from_memory(&thumbnail.png).unwrap();
    assert_eq!((decoded.width(), decoded.height()), (256, 128));
}

#[test]
fn only_an_image_larger_than_the_edge_is_scaled() {
    assert_eq!(thumbnail_edge(4, 2), None);
    assert_eq!(thumbnail_edge(MAX_EDGE, MAX_EDGE), None);
    assert_eq!(thumbnail_edge(MAX_EDGE + 1, 3), Some(MAX_EDGE));
    assert_eq!(thumbnail_edge(3, 1000), Some(MAX_EDGE));
}

#[test]
fn a_small_image_is_encoded_as_it_is() {
    let thumbnail = generate(&png_4x2()).unwrap();
    let decoded = image::load_from_memory(&thumbnail.png).unwrap();
    assert_eq!((decoded.width(), decoded.height()), (4, 2));
}

#[test]
fn a_jpeg_copy_gets_a_png_thumbnail() {
    let mut jpeg = Vec::new();
    let image = image::RgbImage::from_pixel(300, 10, image::Rgb([0, 128, 255]));
    image::DynamicImage::ImageRgb8(image)
        .write_to(&mut std::io::Cursor::new(&mut jpeg), image::ImageFormat::Jpeg)
        .unwrap();

    let thumbnail = generate(&jpeg).unwrap();
    assert_eq!((thumbnail.width, thumbnail.height), (300, 10));
    let decoded = image::load_from_memory_with_format(&thumbnail.png, image::ImageFormat::Png).unwrap();
    assert!(decoded.width() <= MAX_EDGE && decoded.height() <= MAX_EDGE);
}
