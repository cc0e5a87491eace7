//! The raster-codec boundary.  Decoding, resizing and pixel-format
//! conversion are done by the `image` crate; the library states here, and
//! only here, what it takes that crate's word for.

use image::GenericImageView;

use vstd::prelude::*;

verus! {

#[verifier::external_type_specification]
#[verifier::external_body]
pub struct ExDynamicImage(image::DynamicImage);

/// Whether a byte string decodes as a picture.  `image::load_from_memory`
/// reads the bytes alone, so success is a function of them.
pub uninterp spec fn decode_ok(bytes: Seq<u8>) -> bool;

/// A flat, alpha-unmultiplied RGBA pixel buffer: the canonical raster form
/// a worker hands to the display layer, four bytes per pixel, row by row.
pub struct RgbaBitmap {
    pub width: u32,
    pub height: u32,
    pub rgba: Vec<u8>,
}

impl RgbaBitmap {
    /// The buffer holds exactly four bytes for each of its pixels.
    pub open spec fn wf(&self) -> bool {
        self.rgba@.len() == 4 * self.width * self.height
    }
}

/// Relies on `image::load_from_memory`: it decodes from the byte string
/// alone, guessing the format from its leading bytes, so whether it returns
/// a picture is a function of the bytes.
#[verifier::external_body]
pub(crate) fn decode_image(bytes: &Vec<u8>) -> (r: Option<image::DynamicImage>)
    ensures
        r is Some <==> decode_ok(bytes@),
{
    match image::load_from_memory(bytes) {
        Ok(img) => Some(img),
        Err(_) => None,
    }
}

/// Relies on `image::GenericImageView::dimensions` for `DynamicImage`.  The
/// caller treats the pair as arbitrary and computes with whatever it gets.
#[verifier::external_body]
pub(crate) fn image_dimensions(img: &image::DynamicImage) -> (u32, u32) {
    img.dimensions()
}

/// Relies on `image::DynamicImage::resize`: it scales the picture to the
/// largest size that fits within the given bounds, preserving aspect ratio,
/// and returns a fresh picture.  Nothing about the result is assumed.
#[verifier::external_body]
pub(crate) fn resize_image(img: &image::DynamicImage, w: u32, h: u32) -> image::DynamicImage {
    img.resize(w, h, image::imageops::FilterType::Triangle)
}

/// Relies on `image::DynamicImage::to_rgba8`: the flat buffer it returns
/// holds exactly `width * height` RGBA pixels of four bytes each.
#[verifier::external_body]
pub(crate) fn image_to_rgba(img: &image::DynamicImage) -> (r: RgbaBitmap)
    ensures
        r.wf(),
{
    let buf = img.to_rgba8();
    let width = buf.width();
    let height = buf.height();
    RgbaBitmap { width, height, rgba: buf.into_raw() }
}

} // verus!
