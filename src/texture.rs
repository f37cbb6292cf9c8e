use vstd::prelude::*;

verus! {

/// `x` moved into `[0, n - 1]`.
pub open spec fn clamp_index(x: int, n: int) -> int {
    if x < 0 {
        0
    } else if x >= n {
        n - 1
    } else {
        x
    }
}

/// Byte offset of the pixel in column `i` and row `j` of a tightly packed RGB
/// image `w` pixels wide.
pub open spec fn texel_offset(w: int, i: int, j: int) -> int {
    3 * (j * w + i)
}

/// A decoded RGB image, three bytes per pixel, rows stored top to bottom
/// without padding. The empty texture has no pixels at all.
pub struct ImageTexture {
    data: Vec<u8>,
    width: i32,
    height: i32,
    bytes_per_scanline: i32,
}

impl View for ImageTexture {
    /// The pixel bytes, the width and the height.
    type V = (Seq<u8>, int, int);

    closed spec fn view(&self) -> Self::V {
        (self.data@, self.width as int, self.height as int)
    }
}

impl ImageTexture {
    #[verifier::type_invariant]
    spec fn inv(&self) -> bool {
        &&& 0 <= self.width
        &&& 0 <= self.height
        &&& self.bytes_per_scanline == 3 * self.width
        &&& self.data@.len() == self.height * self.bytes_per_scanline
    }

    /// The texture without pixels.
    pub fn new1() -> (r: Self)
        ensures
            r@.0.len() == 0,
            r@.1 == 0,
            r@.2 == 0,
    {
        ImageTexture { data: Vec::new(), width: 0, height: 0, bytes_per_scanline: 0 }
    }

    /// A texture over `data`, which holds `height` rows of `width` RGB pixels.
    /// `None` when the length does not match or a row's byte count does not
    /// fit in an `i32`.
    pub fn from_rgb8(width: u32, height: u32, data: Vec<u8>) -> (r: Option<Self>)
        ensures
            r is Some <==> (data@.len() == 3 * width * height && 3 * width <= i32::MAX
                && height <= i32::MAX),
            r matches Some(t) ==> t@ == (data@, width as int, height as int),
    {
        if width > 0x2aaa_aaaa || height > 0x7fff_ffff {
            return None;
        }
        let row: u64 = 3 * width as u64;
        assert(row * height <= 0x7fff_ffff * 0x7fff_ffff) by (nonlinear_arith)
            requires
                row <= 0x7fff_ffff,
                height <= 0x7fff_ffff,
        ;
        if data.len() as u64 != row * height as u64 {
            return None;
        }
        assert(data@.len() == height * (3 * width) && data@.len() == 3 * width * height)
            by (nonlinear_arith)
            requires
                data@.len() == row * height,
                row == 3 * width,
        ;
        Some(
            ImageTexture {
                data,
                width: width as i32,
                height: height as i32,
                bytes_per_scanline: row as i32,
            },
        )
    }

    /// Width in pixels.
    pub fn width(&self) -> (r: i32)
        ensures
            r == self@.1,
    {
        self.width
    }

    /// Height in pixels.
    pub fn height(&self) -> (r: i32)
        ensures
            r == self@.2,
    {
        self.height
    }

    /// The three bytes of the pixel nearest to column `i`, row `j`: indices
    /// outside the image are moved onto its border. `None` for the empty
    /// texture.
    pub fn texel(&self, i: i32, j: i32) -> (r: Option<(u8, u8, u8)>)
        ensures
            r is None <==> self@.0.len() == 0,
            r is Some ==> ({
                let o = texel_offset(
                    self@.1,
                    clamp_index(i as int, self@.1),
                    clamp_index(j as int, self@.2),
                );
                r == Some((self@.0[o], self@.0[o + 1], self@.0[o + 2]))
            }),
    {
        proof {
            use_type_invariant(self);
        }
        if self.data.len() == 0 {
            return None;
        }
        let w = self.width;
        let h = self.height;
        assert(w > 0 && h > 0) by (nonlinear_arith)
            requires
                self.data@.len() == h * (3 * w),
                self.data@.len() > 0,
                w >= 0,
                h >= 0,
        ;
        let ci: i32 = if i < 0 {
            0
        } else if i >= w {
            w - 1
        } else {
            i
        };
        let cj: i32 = if j < 0 {
            0
        } else if j >= h {
            h - 1
        } else {
            j
        };
        assert(3 * (cj * w + ci) + 2 < h * (3 * w)) by (nonlinear_arith)
            requires
                0 <= ci < w,
                0 <= cj < h,
        ;
        assert(0 <= cj * w) by (nonlinear_arith)
            requires
                0 <= cj,
                0 <= w,
        ;
        assert(cj * (3 * w) + ci * 3 == 3 * (cj * w + ci)) by (nonlinear_arith);
        let o: usize = cj as usize * self.bytes_per_scanline as usize + ci as usize * 3;
        Some((self.data[o], self.data[o + 1], self.data[o + 2]))
    }
}

} // verus!
