//! A decoded picture to look texels up in.

use image::GenericImageView;
use vstd::prelude::*;

verus! {

/// The decoded picture of the `image` crate. The library never looks inside
/// one: it asks for the size and for single pixels.
#[verifier::external_type_specification]
#[verifier::external_body]
pub struct ExDynamicImage(image::DynamicImage);

/// The width and the height of a picture, in pixels.
pub uninterp spec fn image_dimensions(img: image::DynamicImage) -> (nat, nat);

/// The red, green and blue of each pixel of a picture as eight-bit values,
/// by column and row, both counted from the top left.
pub uninterp spec fn image_pixels(img: image::DynamicImage) -> Map<(int, int), (u8, u8, u8)>;

/// Whether the samples of a picture are whole numbers, of eight or sixteen
/// bits, rather than floating-point numbers.
pub uninterp spec fn image_is_whole(img: image::DynamicImage) -> bool;

/// Tells the kinds of picture of the `image` crate apart: the eight variants
/// of `DynamicImage` with whole-number samples on the one side, the variants
/// with floating-point samples and any that a later version may add on the
/// other.
#[verifier::external_body]
fn is_whole(img: &image::DynamicImage) -> (r: bool)
    ensures
        r == image_is_whole(*img),
{
    match img {
        image::DynamicImage::ImageLuma8(_) => true,
        image::DynamicImage::ImageLumaA8(_) => true,
        image::DynamicImage::ImageRgb8(_) => true,
        image::DynamicImage::ImageRgba8(_) => true,
        image::DynamicImage::ImageLuma16(_) => true,
        image::DynamicImage::ImageLumaA16(_) => true,
        image::DynamicImage::ImageRgb16(_) => true,
        image::DynamicImage::ImageRgba16(_) => true,
        _ => false,
    }
}

/// The size of a picture: `GenericImageView::dimensions` of the `image`
/// crate, which reports width and height.
#[verifier::external_body]
fn dimensions_of(img: &image::DynamicImage) -> (r: (u32, u32))
    ensures
        (r.0 as nat, r.1 as nat) == image_dimensions(*img),
{
    img.dimensions()
}

/// One pixel of a picture: `GenericImageView::get_pixel` of the `image`
/// crate, of which the first three channels are kept. The crate refuses a
/// place outside the picture, so the place must lie within it; and it may
/// fail to bring a floating-point sample to eight bits, so the samples must
/// be whole numbers.
#[verifier::external_body]
fn pixel_of(img: &image::DynamicImage, x: u32, y: u32) -> (r: [u8; 3])
    requires
        image_is_whole(*img),
        x < image_dimensions(*img).0,
        y < image_dimensions(*img).1,
    ensures
        (r@[0], r@[1], r@[2]) == image_pixels(*img)[(x as int, y as int)],
{
    let pixel = img.get_pixel(x, y);
    [pixel[0], pixel[1], pixel[2]]
}

/// A picture with its size, or the lack of one.
#[derive(Clone)]
pub struct RtwImage {
    pub image_width: i32,
    pub image_height: i32,
    pub data: Option<image::DynamicImage>,
}

impl Default for RtwImage {
    /// No picture: no data, and both sizes zero.
    fn default() -> (r: Self)
        ensures
            r.image_width == 0,
            r.image_height == 0,
            r.data is None,
            r.wf(),
    {
        RtwImage { image_width: 0, image_height: 0, data: None }
    }
}

/// The place within `0..high` nearest to `x`, for a positive `high`.
pub open spec fn clamped_index(x: i32, low: i32, high: i32) -> int {
    if x < low {
        low as int
    } else if x < high {
        x as int
    } else {
        high - 1
    }
}

impl RtwImage {
    /// Whether the picture held has whole-number samples, the sizes are
    /// its own and neither is zero. It holds of no picture at all.
    pub open spec fn wf(&self) -> bool {
        match self.data {
            Some(img) => {
                &&& image_is_whole(img)
                &&& 0 < self.image_width
                &&& 0 < self.image_height
                &&& image_dimensions(img) == (self.image_width as nat, self.image_height as nat)
            },
            None => true,
        }
    }

    /// What [`RtwImage::pixel_data`] returns for the place `(x, y)`.
    pub open spec fn texel(&self, x: i32, y: i32) -> (u8, u8, u8) {
        match self.data {
            Some(img) => image_pixels(img)[(
                clamped_index(x, 0, self.image_width),
                clamped_index(y, 0, self.image_height),
            )],
            None => (255u8, 0u8, 255u8),
        }
    }

    /// Wraps a decoded picture, or the lack of one where loading failed.
    ///
    /// A picture with an empty side, with a side beyond what the size
    /// fields can hold, or with floating-point samples is taken as no
    /// picture.
    pub fn new(picture: Option<image::DynamicImage>) -> (r: Self)
        ensures
            r.wf(),
            match picture {
                Some(img) => {
                    let (w, h) = image_dimensions(img);
                    if image_is_whole(img) && 0 < w <= i32::MAX && 0 < h <= i32::MAX {
                        r.data == Some(img) && r.image_width == w && r.image_height == h
                    } else {
                        r.data is None && r.image_width == 0 && r.image_height == 0
                    }
                },
                None => r.data is None && r.image_width == 0 && r.image_height == 0,
            },
    {
        match picture {
            Some(img) => {
                let (w, h) = dimensions_of(&img);
                if is_whole(&img) && 0 < w && w <= 0x7FFF_FFFF && 0 < h && h <= 0x7FFF_FFFF {
                    RtwImage { image_width: w as i32, image_height: h as i32, data: Some(img) }
                } else {
                    RtwImage::default()
                }
            },
            None => RtwImage::default(),
        }
    }

    /// `x` held within `low..high`: `low` where `x` lies below, `high - 1`
    /// where it lies at or above `high`.
    pub fn clamp(x: i32, low: i32, high: i32) -> (r: i32)
        requires
            high > i32::MIN,
        ensures
            r == clamped_index(x, low, high),
    {
        if x < low {
            low
        } else if x < high {
            x
        } else {
            high - 1
        }
    }

    /// The colour of the pixel at column `x` and row `y`, each held within
    /// the picture; magenta where there is no picture.
    pub fn pixel_data(&self, x: i32, y: i32) -> (r: [u8; 3])
        requires
            self.wf(),
        ensures
            (r@[0], r@[1], r@[2]) == self.texel(x, y),
    {
        if let Some(img) = &self.data {
            let x_clamped = Self::clamp(x, 0, self.image_width);
            let y_clamped = Self::clamp(y, 0, self.image_height);
            pixel_of(img, x_clamped as u32, y_clamped as u32)
        } else {
            [255, 0, 255]
        }
    }
}

} // verus!
