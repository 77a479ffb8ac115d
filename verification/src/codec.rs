//! The decoded image as the compressor sees it: a size, and pixels that only
//! the codec reads.

use crate::utils::{calculate_new_dimensions, planned_dimensions};
use vstd::prelude::*;

verus! {

/// `image::DynamicImage`, a decoded image of the codec. Nothing in it is read
/// here; it is carried from the decoder to the encoder.
#[verifier::external_type_specification]
#[verifier::external_body]
pub struct ExDynamicImage(image::DynamicImage);

/// The width and the height that `image::GenericImageView::dimensions`
/// reports for a decoded image. They are fixed when the image is made and
/// depend on nothing else.
pub uninterp spec fn image_size(pixels: image::DynamicImage) -> (u32, u32);

/// A decoded image together with its size.
pub struct Picture {
    width: u32,
    height: u32,
    pixels: image::DynamicImage,
}

/// Why a picture cannot be resampled to the size planned for it.
#[derive(Clone, Copy, Debug, PartialEq, Eq, Structural)]
pub enum ResizeError {
    /// The picture has no pixels.
    EmptyImage,
    /// The plan leaves a side without pixels: the picture is longer, by its
    /// proportions, than the limit lets it be at a height or width of one.
    EmptyPlan,
    /// The buffer the resampling works in would not fit in memory.
    TooLarge,
}

/// The room the codec needs to resample an image of `width` to `nwidth` by
/// `nheight`: it first makes an image of `width` by `nheight` with sixteen
/// bytes to the pixel, which has to stay below half the address space.
pub open spec fn resampling_fits(width: u32, nheight: u32) -> bool {
    32 * (width * nheight) <= usize::MAX
}

/// Whether, and why, an image of `width` by `height` cannot be resampled to
/// the size planned for it under `max_dimension`. An image that already has
/// the planned size is copied and needs no room to work in.
pub open spec fn resize_refusal(width: u32, height: u32, max_dimension: u32) -> Option<
    ResizeError,
> {
    let plan = planned_dimensions(width as nat, height as nat, max_dimension as nat);
    if width == 0 || height == 0 {
        Some(ResizeError::EmptyImage)
    } else if plan.0 == 0 || plan.1 == 0 {
        Some(ResizeError::EmptyPlan)
    } else if plan != (width as nat, height as nat) && !resampling_fits(width, plan.1 as u32) {
        Some(ResizeError::TooLarge)
    } else {
        None
    }
}

/// Wraps `image::GenericImageView::dimensions` for `image::DynamicImage`.
/// Claimed of it: what comes back is the size of `pixels`, which is what
/// `image_size` names.
#[verifier::external_body]
fn pixel_dimensions(pixels: &image::DynamicImage) -> (size: (u32, u32))
    ensures
        size == image_size(*pixels),
{
    image::GenericImageView::dimensions(pixels)
}

/// Wraps `image::DynamicImage::resize_exact` with the Lanczos filter of
/// window 3. Claimed of it, as its documentation says: what comes back has
/// the width and the height that were asked for. Nothing is claimed of its
/// pixels. Left out are the inputs on which the codec is not known to
/// return: images and sizes without pixels, sizes larger than the image, and
/// those whose working buffer `ImageBuffer::new` refuses.
#[verifier::external_body]
fn resample(pixels: &image::DynamicImage, nwidth: u32, nheight: u32) -> (out: image::DynamicImage)
    requires
        0 < nwidth <= image_size(*pixels).0,
        0 < nheight <= image_size(*pixels).1,
        (nwidth, nheight) == image_size(*pixels) || resampling_fits(
            image_size(*pixels).0,
            nheight,
        ),
    ensures
        image_size(out) == (nwidth, nheight),
{
    pixels.resize_exact(nwidth, nheight, image::imageops::FilterType::Lanczos3)
}

impl Picture {
    /// The size that is kept beside the pixels is the size of the pixels.
    #[verifier::type_invariant]
    spec fn measured(&self) -> bool {
        image_size(self.pixels) == (self.width, self.height)
    }

    /// The width in pixels.
    pub closed spec fn spec_width(&self) -> u32 {
        self.width
    }

    /// The height in pixels.
    pub closed spec fn spec_height(&self) -> u32 {
        self.height
    }

    /// The decoded image itself.
    pub closed spec fn spec_pixels(&self) -> image::DynamicImage {
        self.pixels
    }

    /// The size of this picture.
    pub open spec fn dimensions(&self) -> (nat, nat) {
        (self.spec_width() as nat, self.spec_height() as nat)
    }

    /// Takes a decoded image and reads its size.
    pub fn new(pixels: image::DynamicImage) -> (picture: Picture)
        ensures
            picture.spec_pixels() == pixels,
            (picture.spec_width(), picture.spec_height()) == image_size(pixels),
    {
        let (width, height) = pixel_dimensions(&pixels);
        Picture { width, height, pixels }
    }

    /// The width in pixels.
    #[verifier::when_used_as_spec(spec_width)]
    pub fn width(&self) -> (width: u32)
        ensures
            width == self.spec_width(),
            width == image_size(self.spec_pixels()).0,
    {
        proof {
            use_type_invariant(self);
        }
        self.width
    }

    /// The height in pixels.
    #[verifier::when_used_as_spec(spec_height)]
    pub fn height(&self) -> (height: u32)
        ensures
            height == self.spec_height(),
            height == image_size(self.spec_pixels()).1,
    {
        proof {
            use_type_invariant(self);
        }
        self.height
    }

    /// Resamples the picture to exactly the size planned for it under
    /// `max_dimension`, or tells why that cannot be done. The size of the
    /// image that comes back, as the codec reports it, is the planned one.
    pub fn resize_to_fit(&self, max_dimension: u32) -> (out: Result<Picture, ResizeError>)
        ensures
            (self.spec_width(), self.spec_height()) == image_size(self.spec_pixels()),
            match out {
                Ok(resized) => {
                    &&& resize_refusal(self.spec_width(), self.spec_height(), max_dimension) is None
                    &&& resized.dimensions() == planned_dimensions(
                        self.spec_width() as nat,
                        self.spec_height() as nat,
                        max_dimension as nat,
                    )
                    &&& image_size(resized.spec_pixels()) == (
                        resized.spec_width(),
                        resized.spec_height(),
                    )
                },
                Err(error) => resize_refusal(self.spec_width(), self.spec_height(), max_dimension)
                    == Some(error),
            },
    {
        proof {
            use_type_invariant(self);
        }
        if self.width == 0 || self.height == 0 {
            return Err(ResizeError::EmptyImage);
        }
        let (nwidth, nheight) = calculate_new_dimensions(self.width, self.height, max_dimension);
        if nwidth == 0 || nheight == 0 {
            return Err(ResizeError::EmptyPlan);
        }
        if nwidth != self.width || nheight != self.height {
            let room: u64 = (usize::MAX as u64) / 32;
            assert(self.width * nheight <= 0xffff_ffff * 0xffff_ffff) by (nonlinear_arith)
                requires
                    self.width <= 0xffff_ffff,
                    nheight <= 0xffff_ffff,
            ;
            let pixels: u64 = (self.width as u64) * (nheight as u64);
            assert(pixels <= room <==> resampling_fits(self.width, nheight));
            if pixels > room {
                return Err(ResizeError::TooLarge);
            }
        }
        let pixels = resample(&self.pixels, nwidth, nheight);
        Ok(Picture { width: nwidth, height: nheight, pixels })
    }

    /// Gives the pixels back, for the codec to encode. Their size is the
    /// size of the picture.
    pub fn into_pixels(self) -> (pixels: image::DynamicImage)
        ensures
            pixels == self.spec_pixels(),
            image_size(pixels) == (self.spec_width(), self.spec_height()),
    {
        proof {
            use_type_invariant(&self);
        }
        self.pixels
    }
}

} // verus!
