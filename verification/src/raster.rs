//! The boundary to the external image-resize collaborator.
//!
//! The rasterizer does not choose a resampling algorithm itself: it hands a
//! decoded image to the `image` crate and only requires back a raster of the
//! exact requested cell-grid dimensions, one row-major RGB sample per cell.

use vstd::prelude::*;

verus! {

#[verifier::external_type_specification]
#[verifier::external_body]
pub struct ExDynamicImage(image::DynamicImage);

/// Relies on `image::DynamicImage::thumbnail_exact` ("Scale this image down
/// to a specific size"; the new image's dimensions are exactly the requested
/// `nwidth` x `nheight`), `into_rgb8`, and `ImageBuffer::pixels` ("The
/// iteration order is x = 0 to width then y = 0 to height"), so the result
/// holds exactly `width * height` row-major RGB samples.
#[verifier::external_body]
pub(crate) fn resample_rgb(image: &image::DynamicImage, width: u32, height: u32) -> (samples: Vec<
    (u8, u8, u8),
>)
    requires
        (width as int) * (height as int) <= usize::MAX as int,
    ensures
        samples@.len() == (width as int) * (height as int),
{
    image.thumbnail_exact(width, height).into_rgb8().pixels().map(
        |p| (p.0[0], p.0[1], p.0[2]),
    ).collect()
}

} // verus!
