//! The picture that a render fills in.

use vstd::prelude::*;

verus! {

/// A picture of `width` by `height` pixels, each with a red, a green and a
/// blue channel from 0 to 255, stored row by row from the top.
#[derive(Clone, Debug)]
pub struct PixelBuffer {
    pub width: u32,
    pub height: u32,
    pub data: Vec<[u8; 3]>,
}

impl PixelBuffer {
    /// Whether there is one stored pixel for each place of the picture.
    pub open spec fn wf(&self) -> bool {
        self.data@.len() == self.width * self.height
    }

    /// The pixel at column `i` and row `j`.
    pub open spec fn pixel(&self, i: int, j: int) -> [u8; 3] {
        self.data@[j * self.width + i]
    }

    /// A black picture of `width` by `height` pixels.
    pub fn new(width: u32, height: u32) -> (r: Self)
        requires
            width * height <= usize::MAX,
        ensures
            r.wf(),
            r.width == width,
            r.height == height,
            forall|i: int, j: int| 0 <= i < width && 0 <= j < height ==> r.pixel(i, j)@ == seq![0u8, 0u8, 0u8],
    {
        let n: usize = (width as u64 * height as u64) as usize;
        let mut data: Vec<[u8; 3]> = Vec::new();
        let mut k: usize = 0;
        while k < n
            invariant
                k <= n,
                data@.len() == k,
                forall|m: int| 0 <= m < k ==> (#[trigger] data@[m])@ == seq![0u8, 0u8, 0u8],
            decreases n - k,
        {
            let black: [u8; 3] = [0, 0, 0];
            assert(black@ =~= seq![0u8, 0u8, 0u8]);
            data.push(black);
            k = k + 1;
        }
        let r = PixelBuffer { width, height, data };
        proof {
            assert forall|i: int, j: int| 0 <= i < width && 0 <= j < height implies r.pixel(i, j)@
                == seq![0u8, 0u8, 0u8] by {
                lemma_place_is_within(i, j, width as int, height as int);
            }
        }
        r
    }

    /// The place in the store of the pixel at column `i` and row `j`.
    fn place(&self, i: u32, j: u32) -> (k: usize)
        requires
            self.wf(),
            i < self.width,
            j < self.height,
        ensures
            k == j * self.width + i,
            k < self.data@.len(),
    {
        proof {
            lemma_place_is_within(i as int, j as int, self.width as int, self.height as int);
            assert(j * self.width <= 0xFFFF_FFFF * 0xFFFF_FFFF) by (nonlinear_arith)
                requires
                    0 <= j <= 0xFFFF_FFFF,
                    0 <= self.width <= 0xFFFF_FFFF,
            ;
        }
        let n = self.data.len();
        let k = j as u64 * self.width as u64 + i as u64;
        assert(k < n);
        k as usize
    }

    /// The pixel at column `i` and row `j`.
    pub fn get_pixel(&self, i: u32, j: u32) -> (r: [u8; 3])
        requires
            self.wf(),
            i < self.width,
            j < self.height,
        ensures
            r == self.pixel(i as int, j as int),
    {
        let k = self.place(i, j);
        self.data[k]
    }

    /// Sets the pixel at column `i` and row `j` and leaves every other
    /// pixel as it was.
    pub fn put_pixel(&mut self, i: u32, j: u32, rgb: [u8; 3])
        requires
            old(self).wf(),
            i < old(self).width,
            j < old(self).height,
        ensures
            final(self).wf(),
            final(self).width == old(self).width,
            final(self).height == old(self).height,
            final(self).pixel(i as int, j as int) == rgb,
            forall|a: int, b: int|
                0 <= a < old(self).width && 0 <= b < old(self).height && (a != i || b != j)
                    ==> final(self).pixel(a, b) == old(self).pixel(a, b),
    {
        let k = self.place(i, j);
        self.data[k] = rgb;
        proof {
            assert forall|a: int, b: int|
                0 <= a < old(self).width && 0 <= b < old(self).height && (a != i || b != j) implies self.pixel(
                a,
                b,
            ) == old(self).pixel(a, b) by {
                lemma_place_is_within(a, b, self.width as int, self.height as int);
                lemma_places_differ(a, b, i as int, j as int, self.width as int);
            }
        }
    }
}

/// Every place of the picture has its own place in the store.
pub proof fn lemma_place_is_within(i: int, j: int, width: int, height: int)
    requires
        0 <= i < width,
        0 <= j < height,
    ensures
        0 <= j * width + i < width * height,
{
    assert(j * width + i < (j + 1) * width) by (nonlinear_arith)
        requires
            0 <= i < width,
    ;
    assert((j + 1) * width <= height * width) by (nonlinear_arith)
        requires
            j + 1 <= height,
            0 < width,
    ;
    assert(0 <= j * width) by (nonlinear_arith)
        requires
            0 <= j,
            0 < width,
    ;
    assert(height * width == width * height) by (nonlinear_arith);
}

/// Two different places of the picture lie at different places in the
/// store.
pub proof fn lemma_places_differ(a: int, b: int, i: int, j: int, width: int)
    requires
        0 <= a < width,
        0 <= i < width,
        0 <= b,
        0 <= j,
        a != i || b != j,
    ensures
        b * width + a != j * width + i,
{
    if b < j {
        assert(b * width + a < j * width + i) by (nonlinear_arith)
            requires
                b + 1 <= j,
                0 <= a < width,
                0 <= i,
        ;
    } else if j < b {
        assert(j * width + i < b * width + a) by (nonlinear_arith)
            requires
                j + 1 <= b,
                0 <= i < width,
                0 <= a,
        ;
    }
}

} // verus!
