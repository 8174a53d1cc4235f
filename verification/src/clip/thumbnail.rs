//! Thumbnails of copied images, and the arithmetic that fits an image into
//! a box.

use image::{DynamicImage, ImageReader};
use vstd::prelude::*;

use super::model::Thumbnail;

verus! {

/// The longest edge a thumbnail is scaled down to.
pub const MAX_EDGE: u32 = 256;

#[verifier::external_type_specification]
#[verifier::external_body]
pub struct ExDynamicImage(DynamicImage);

/// The width and height of the image `body` holds, as the `image` crate
/// decodes it after guessing the format from its first bytes, or `None`
/// where it cannot.
pub uninterp spec fn image_dims(body: Seq<u8>) -> Option<(u32, u32)>;

/// The PNG the `image` crate encodes of the image `body` holds, first
/// scaled with `DynamicImage::thumbnail` to fit a square of `edge` where an
/// edge is given, or `None` where encoding fails. Decoding, scaling and
/// encoding depend on these bytes and that edge alone.
pub uninterp spec fn png_of(body: Seq<u8>, edge: Option<u32>) -> Option<Seq<u8>>;

/// A decoded image, with the bytes it was decoded from and the edge it was
/// scaled to fit, if it was.
pub struct Picture {
    image: DynamicImage,
    source: Ghost<Seq<u8>>,
    edge: Ghost<Option<u32>>,
}

impl View for Picture {
    type V = (Seq<u8>, Option<u32>);

    closed spec fn view(&self) -> (Seq<u8>, Option<u32>) {
        (self.source@, self.edge@)
    }
}

/// Decodes `body` with `ImageReader::with_guessed_format` and `decode`,
/// reading the size with `DynamicImage::width` and `height`. The contract
/// names the size and says nothing of the pixels.
#[verifier::external_body]
fn decode(body: &[u8]) -> (r: Option<(Picture, u32, u32)>)
    ensures
        match r {
            Some((p, w, h)) => image_dims(body@) == Some((w, h)) && p@ == (body@, None::<u32>),
            None => image_dims(body@) is None,
        },
{
    let reader = ImageReader::new(std::io::Cursor::new(body)).with_guessed_format().ok()?;
    let image = reader.decode().ok()?;
    let (w, h) = (image.width(), image.height());
    Some((Picture { image, source: Ghost(body@), edge: Ghost(None) }, w, h))
}

/// `DynamicImage::thumbnail`: the image scaled to fit `edge` by `edge`.
/// Nothing is stated of the pixels.
#[verifier::external_body]
fn shrink(picture: &Picture, edge: u32) -> (r: Picture)
    requires
        picture@.1 is None,
        0 < edge <= MAX_EDGE,
    ensures
        r@ == (picture@.0, Some(edge)),
{
    Picture {
        image: picture.image.thumbnail(edge, edge),
        source: Ghost(picture@.0),
        edge: Ghost(Some(edge)),
    }
}

/// `DynamicImage::write_to` in the PNG format, into memory: the encoded
/// bytes, or `None` where encoding failed; what comes out is named by
/// `png_of`.
#[verifier::external_body]
fn encode_png(picture: &Picture) -> (r: Option<Vec<u8>>)
    ensures
        match r {
            Some(png) => png_of(picture@.0, picture@.1) == Some(png@),
            None => png_of(picture@.0, picture@.1) is None,
        },
{
    let mut png = Vec::new();
    picture.image.write_to(&mut std::io::Cursor::new(&mut png), image::ImageFormat::Png).ok()?;
    Some(png)
}

/// The edge an image of `width` by `height` is scaled to fit: `MAX_EDGE`
/// where its longer side is longer than that, none otherwise.
pub open spec fn edge_for(width: u32, height: u32) -> Option<u32> {
    if width > MAX_EDGE || height > MAX_EDGE {
        Some(MAX_EDGE)
    } else {
        None
    }
}

/// The edge a decoded image of `width` by `height` is scaled to fit before
/// it is encoded; see `edge_for`.
pub fn thumbnail_edge(width: u32, height: u32) -> (r: Option<u32>)
    ensures
        r == edge_for(width, height),
{
    if width > MAX_EDGE || height > MAX_EDGE {
        Some(MAX_EDGE)
    } else {
        None
    }
}

/// The thumbnail of the image `body` holds: its original width and height,
/// and the PNG of it, scaled down to fit `MAX_EDGE` where it is larger; none
/// where the bytes are no image, the image has no area, or encoding fails.
pub open spec fn thumbnail_of(body: Seq<u8>) -> Option<(u32, u32, Seq<u8>)> {
    match image_dims(body) {
        Some((w, h)) => if w > 0 && h > 0 {
            match png_of(body, edge_for(w, h)) {
                Some(png) => Some((w, h, png)),
                None => None,
            }
        } else {
            None
        },
        None => None,
    }
}

/// A thumbnail of the image `body` holds, reporting the original size: an
/// image larger than `MAX_EDGE` on its longer side is scaled down to fit;
/// see `thumbnail_of`.
pub fn generate(body: &[u8]) -> (r: Option<Thumbnail>)
    ensures
        match r {
            Some(t) => thumbnail_of(body@) == Some((t.width, t.height, t.png@)),
            None => thumbnail_of(body@) is None,
        },
{
    let (decoded, width, height) = decode(body)?;
    if width == 0 || height == 0 {
        return None;
    }
    let png = match thumbnail_edge(width, height) {
        Some(edge) => {
            let scaled = shrink(&decoded, edge);
            encode_png(&scaled)?
        },
        None => encode_png(&decoded)?,
    };
    Some(Thumbnail { width, height, png })
}

/// The size an image of `width` by `height` is drawn at no taller than
/// `max_height`: unchanged if it already fits (or has no height), otherwise
/// scaled down to that height with the width scaled alike, rounded down,
/// but never below one pixel.
pub open spec fn fit_spec(width: u32, height: u32, max_height: u16) -> (u32, u32) {
    if height <= max_height || height == 0 {
        (width, height)
    } else {
        let scaled = (width as nat) * (max_height as nat) / (height as nat);
        let w = if scaled > u32::MAX {
            u32::MAX
        } else {
            scaled as u32
        };
        (if w < 1 {
            1
        } else {
            w
        }, max_height as u32)
    }
}

pub fn fit(width: u32, height: u32, max_height: u16) -> (r: (u32, u32))
    ensures
        r == fit_spec(width, height, max_height),
{
    let max_height = max_height as u32;
    if height <= max_height || height == 0 {
        return (width, height);
    }
    proof {
        assert((width as nat) * (max_height as nat) <= (u32::MAX as nat) * (u32::MAX as nat)) by (nonlinear_arith)
            requires
                width <= u32::MAX,
                max_height <= u32::MAX,
        ;
    }
    let scaled: u64 = (width as u64) * (max_height as u64) / (height as u64);
    let w: u32 = if scaled > u32::MAX as u64 {
        u32::MAX
    } else {
        scaled as u32
    };
    (if w < 1 {
        1
    } else {
        w
    }, max_height)
}

/// Fitting never makes an image taller, never wider unless it had no width,
/// and never taller than asked.
pub proof fn fitting_never_enlarges(width: u32, height: u32, max_height: u16)
    ensures
        fit_spec(width, height, max_height).1 <= height,
        height > 0 ==> fit_spec(width, height, max_height).1 <= max_height || fit_spec(
            width,
            height,
            max_height,
        ).1 == height,
        width > 0 ==> fit_spec(width, height, max_height).0 <= width,
        fit_spec(width, height, max_height).1 > max_height ==> fit_spec(width, height, max_height)
            == (width, height),
{
    if !(height <= max_height || height == 0) {
        let m = max_height as nat;
        let h = height as nat;
        let w = width as nat;
        assert(w * m <= w * h) by (nonlinear_arith)
            requires
                m < h,
        ;
        vstd::arithmetic::div_mod::lemma_div_is_ordered((w * m) as int, (w * h) as int, h as int);
        vstd::arithmetic::div_mod::lemma_div_by_multiple(w as int, h as int);
    }
}

} // verus!
