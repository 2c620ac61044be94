//! Resampling of RGBA buffers, done by the image crate.
use vstd::prelude::*;

verus! {

/// The RGBA buffer that Lanczos3 resampling makes of a `width` by `height`
/// buffer when asked for `new_width` by `new_height`.
pub uninterp spec fn lanczos_resized(
    pixels: Seq<u8>,
    width: u32,
    height: u32,
    new_width: u32,
    new_height: u32,
) -> Seq<u8>;

/// Relies on `image::imageops::resize` with `FilterType::Lanczos3`: it
/// returns a `new_width` by `new_height` RGBA image that depends on the
/// source pixels and the sizes alone. It panics only when a buffer length
/// overflows `usize`, which `requires` leaves out.
#[verifier::external_body]
pub(crate) fn resize_lanczos(
    pixels: &Vec<u8>,
    width: u32,
    height: u32,
    new_width: u32,
    new_height: u32,
) -> (r: Vec<u8>)
    requires
        pixels@.len() == width * height * 4,
        width * new_height * 4 <= usize::MAX,
        new_width * new_height * 4 <= usize::MAX,
    ensures
        r@.len() == new_width * new_height * 4,
        r@ == lanczos_resized(pixels@, width, height, new_width, new_height),
{
    let img = image::RgbaImage::from_raw(width, height, pixels.clone()).unwrap();
    let filter = image::imageops::FilterType::Lanczos3;
    image::imageops::resize(&img, new_width, new_height, filter).into_raw()
}

} // verus!
