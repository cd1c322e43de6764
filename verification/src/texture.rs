//! Surface colour: what the library decides of it.

use crate::rtw_image::RtwImage;
use crate::scalar::Scalar;
use vstd::prelude::*;

verus! {

/// A colour read off a picture.
pub struct ImageTexture {
    pub image: RtwImage,
}

impl ImageTexture {
    /// The texture that reads its colour off `image`.
    pub fn new(image: RtwImage) -> (r: Self)
        ensures
            r.image == image,
    {
        Self { image }
    }

    /// The colour at column `i` and row `j` of the picture, or nothing
    /// where the picture has no height. The caller scales the surface
    /// coordinates to the picture and paints cyan where nothing comes back.
    pub fn value(&self, i: i32, j: i32) -> (r: Option<[u8; 3]>)
        requires
            self.image.wf(),
        ensures
            self.image.image_height <= 0 ==> r is None,
            self.image.image_height > 0 ==> (r matches Some(c) && (c@[0], c@[1], c@[2])
                == self.image.texel(i, j)),
    {
        if self.image.image_height <= 0 {
            return None;
        }
        Some(self.image.pixel_data(i, j))
    }
}

/// A pattern of cubes in two colours. `inv_scale` is one over the side of
/// a cube; `even` and `odd` are the handles of the two textures.
#[derive(Clone, Copy, Debug)]
pub struct CheckerTexture {
    pub inv_scale: Scalar,
    pub even: usize,
    pub odd: usize,
}

impl CheckerTexture {
    /// The pattern with cubes of side one over `inv_scale` in the textures
    /// `e` and `o`.
    pub fn new(inv_scale: Scalar, e: usize, o: usize) -> (r: Self)
        ensures
            r == (CheckerTexture { inv_scale, even: e, odd: o }),
    {
        Self { inv_scale, even: e, odd: o }
    }

    /// The handle of the texture that colours the cube with the
    /// whole-number corner `(xinteger, yinteger, zinteger)`: the even one
    /// where the three numbers add up to an even sum, the odd one
    /// otherwise.
    pub fn value(&self, xinteger: i32, yinteger: i32, zinteger: i32) -> (r: usize)
        ensures
            r == if (xinteger + yinteger + zinteger) % 2 == 0 {
                self.even
            } else {
                self.odd
            },
    {
        let sum: i64 = xinteger as i64 + yinteger as i64 + zinteger as i64;
        let iseven = sum % 2 == 0;
        if iseven {
            self.even
        } else {
            self.odd
        }
    }
}

} // verus!
