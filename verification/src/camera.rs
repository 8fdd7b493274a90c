use vstd::prelude::*;

use crate::arrays::{lemma_nonzero_product_2, positions_contents, positions_shape, PixelPositions};
use crate::scalar::Scalar;
use crate::transform::Transform;

verus! {

/// A pinhole camera without distortion.
#[derive(Clone, Copy, Debug)]
pub struct Camera {
    /// Where the camera stands and where it looks.
    pub pose: Transform,
    /// Distance from the pinhole to the image plane, in metres.
    pub focal_length: Scalar,
    /// Width of the sensor, in metres.
    pub sensor_width: Scalar,
    /// Height of the sensor, in metres.
    pub sensor_height: Scalar,
    /// Number of pixel columns.
    pub width_resolution: u32,
    /// Number of pixel rows.
    pub height_resolution: u32,
}

/// Row `k` of a pixel position table read as a pair (image row, image column).
pub open spec fn table_row(contents: Seq<usize>, k: int) -> (int, int) {
    (contents[2 * k] as int, contents[2 * k + 1] as int)
}

/// The pixel of ray `k` in an image `width` pixels wide: rays run over the
/// image row by row.
pub open spec fn pixel_of_ray(k: int, width: int) -> (int, int) {
    (k / width, k % width)
}

/// Whether `p` is the pixel position table of an image of `height` rows and
/// `width` columns: one row per pixel, row by row, each holding its image row
/// and its image column.
pub open spec fn is_position_table(p: PixelPositions, height: int, width: int) -> bool {
    &&& 0 <= height
    &&& 0 <= width
    &&& height * width <= usize::MAX
    &&& positions_shape(p) == ((height * width) as usize, 2usize)
    &&& positions_contents(p).len() == height * width * 2
    &&& forall|k: int|
        0 <= k < height * width ==> #[trigger] table_row(positions_contents(p), k) == pixel_of_ray(
            k,
            width,
        )
}


/// Each row of a camera's pixel position table is a pixel of the image: row
/// `k` holds an image row below `height` and an image column below `width`,
/// and they give back `k` as `row * width + column`.
pub proof fn law_position_table_names_pixels(p: PixelPositions, height: int, width: int, k: int)
    requires
        is_position_table(p, height, width),
        0 <= k < height * width,
    ensures
        0 <= positions_contents(p)[2 * k] < height,
        0 <= positions_contents(p)[2 * k + 1] < width,
        positions_contents(p)[2 * k] * width + positions_contents(p)[2 * k + 1] == k,
{
    assert(table_row(positions_contents(p), k) == pixel_of_ray(k, width));
    assert(width > 0) by (nonlinear_arith)
        requires
            0 <= k < height * width,
            height >= 0,
            width >= 0,
    ;
    vstd::arithmetic::div_mod::lemma_fundamental_div_mod(k, width);
    assert(k / width < height) by (nonlinear_arith)
        requires
            0 <= k < height * width,
            width > 0,
            k == width * (k / width) + k % width,
            0 <= k % width < width,
    ;
    assert((k / width) * width == width * (k / width)) by (nonlinear_arith);
}

impl Camera {
    /// The number of rays the camera casts: one per pixel.
    pub open spec fn ray_count(self) -> int {
        self.height_resolution * self.width_resolution
    }

    /// The table that gives, for each ray of the camera, the pixel it belongs
    /// to. Rays are numbered row by row, so ray `k` lands on row `k / width`,
    /// column `k % width`.
    pub fn pixel_positions(&self) -> (p: PixelPositions)
        requires
            self.ray_count() * 2 <= isize::MAX,
        ensures
            is_position_table(p, self.height_resolution as int, self.width_resolution as int),
    {
        let h = self.height_resolution as usize;
        let w = self.width_resolution as usize;
        assert(h * w * 2 <= isize::MAX);
        assert(h * w <= h * w * 2) by (nonlinear_arith)
            requires
                0 <= h * w,
        ;
        let rows: usize = h * w;
        proof {
            lemma_nonzero_product_2(rows, 2);
        }
        let mut table = PixelPositions::zeros(rows, 2);
        let ghost zero_table = positions_contents(table);
        let mut k: usize = 0;
        assert(0 * w == 0);
        for v in 0..h
            invariant
                h == self.height_resolution,
                w == self.width_resolution,
                rows == h * w,
                rows * 2 <= isize::MAX,
                k == v * w,
                positions_shape(table) == (rows, 2usize),
                positions_contents(table).len() == rows * 2,
                forall|j: int|
                    0 <= j < k ==> #[trigger] table_row(positions_contents(table), j)
                        == pixel_of_ray(j, w as int),
        {
            assert(v * w + w <= h * w) by (nonlinear_arith)
                requires
                    v < h,
            ;
            for u in 0..w
                invariant
                    h == self.height_resolution,
                    w == self.width_resolution,
                    rows == h * w,
                    rows * 2 <= isize::MAX,
                    v < h,
                    v * w + w <= rows,
                    k == v * w + u,
                    positions_shape(table) == (rows, 2usize),
                    positions_contents(table).len() == rows * 2,
                    forall|j: int|
                        0 <= j < k ==> #[trigger] table_row(positions_contents(table), j)
                            == pixel_of_ray(j, w as int),
            {
                proof {
                    vstd::arithmetic::div_mod::lemma_fundamental_div_mod_converse(
                        k as int,
                        w as int,
                        v as int,
                        u as int,
                    );
                }
                let ghost before = positions_contents(table);
                table.set(k, 0, v);
                table.set(k, 1, u);
                assert forall|j: int|
                    0 <= j < k + 1 implies #[trigger] table_row(positions_contents(table), j)
                    == pixel_of_ray(j, w as int) by {
                    if j < k {
                        assert(table_row(before, j) == pixel_of_ray(j, w as int));
                    }
                }
                k = k + 1;
            }
            assert(v * w + w == (v + 1) * w) by (nonlinear_arith);
        }
        table
    }
}

} // verus!
