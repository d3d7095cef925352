//! The raster renderer.
//!
//! Every pixel of the output raster is carried to its plane point and
//! judged by the escape evaluator; the stored intensity is `255 - n` for
//! a point that escapes at iteration `n` and `0` for a point presumed to
//! belong to the set.  The raster is a flat row-major byte buffer:
//! index = row * width + column.
//!
//! Two builders produce the raster: a sequential fill of a caller-owned
//! buffer, and a chunked build that renders disjoint bands of rows and
//! joins them.  Both are pinned to the same specification,
//! [`raster_spec`], so their outputs are byte-for-byte identical.

use vstd::prelude::*;
use vstd::pervasive::VecAdditionalExecFns;
use vstd::arithmetic::div_mod::{
    lemma_fundamental_div_mod, lemma_fundamental_div_mod_converse,
    lemma_mod_division_less_than_divisor,
};
use vstd::arithmetic::mul::{lemma_mul_inequality, lemma_mul_is_commutative, lemma_mul_nonnegative};
use crate::complex::Complex;
use crate::escape::{escape_time, escape_time_spec};
use crate::geometry::{ImageShape, PixelPosition, pixel_to_point, point_re, point_im,
    lemma_origin_pixel_maps_to_corner};

verus! {

/// The iteration budget of the renderer: intensities fit one byte.
pub const ESCAPE_LIMIT: usize = 255;

/// The intensity a pixel stores for an escape result: `255 - n` for an
/// escape at iteration `n`, `0` for a point that never escapes.
pub open spec fn intensity_from_escape(e: Option<nat>) -> u8 {
    match e {
        Some(n) => (255 - n) as u8,
        None => 0u8,
    }
}

/// The intensity one pixel of the raster holds.
pub open spec fn pixel_intensity(
    bounds: ImageShape,
    x: int,
    y: int,
    upper_left: Complex<i64>,
    lower_right: Complex<i64>,
) -> u8 {
    intensity_from_escape(
        escape_time_spec(
            point_re(bounds, x, upper_left, lower_right),
            point_im(bounds, y, upper_left, lower_right),
            ESCAPE_LIMIT as nat,
        ),
    )
}

/// The whole raster, row-major: the byte at `row * width + column` is
/// the intensity of the pixel at that column and row.
pub open spec fn raster_spec(
    bounds: ImageShape,
    upper_left: Complex<i64>,
    lower_right: Complex<i64>,
) -> Seq<u8> {
    Seq::new(
        (bounds.width * bounds.height) as nat,
        |i: int| pixel_intensity(
            bounds,
            i % (bounds.width as int),
            i / (bounds.width as int),
            upper_left,
            lower_right,
        ),
    )
}

/// One band of the raster: the rows `row_start .. row_end`, row-major,
/// exactly as the full raster holds them.
pub open spec fn band_spec(
    bounds: ImageShape,
    upper_left: Complex<i64>,
    lower_right: Complex<i64>,
    row_start: int,
    row_end: int,
) -> Seq<u8> {
    Seq::new(
        ((row_end - row_start) * bounds.width) as nat,
        |i: int| pixel_intensity(
            bounds,
            i % (bounds.width as int),
            row_start + i / (bounds.width as int),
            upper_left,
            lower_right,
        ),
    )
}

/// Adjacent bands join seamlessly: the rows `row_a .. row_b` followed by
/// the rows `row_b .. row_c` are exactly the rows `row_a .. row_c`.
pub proof fn lemma_adjacent_bands_join(
    bounds: ImageShape,
    upper_left: Complex<i64>,
    lower_right: Complex<i64>,
    row_a: int,
    row_b: int,
    row_c: int,
)
    requires
        bounds.valid(),
        0 <= row_a <= row_b <= row_c,
    ensures
        band_spec(bounds, upper_left, lower_right, row_a, row_b)
            + band_spec(bounds, upper_left, lower_right, row_b, row_c)
            == band_spec(bounds, upper_left, lower_right, row_a, row_c),
{
    let w = bounds.width as int;
    let first = band_spec(bounds, upper_left, lower_right, row_a, row_b);
    let second = band_spec(bounds, upper_left, lower_right, row_b, row_c);
    let whole = band_spec(bounds, upper_left, lower_right, row_a, row_c);
    lemma_mul_nonnegative(row_b - row_a, w);
    lemma_mul_nonnegative(row_c - row_b, w);
    assert((row_b - row_a) * w + (row_c - row_b) * w == (row_c - row_a) * w) by (nonlinear_arith);
    assert forall|i: int| 0 <= i < whole.len() implies (first + second)[i] == whole[i] by {
        if i >= first.len() {
            let j = i - (row_b - row_a) * w;
            lemma_fundamental_div_mod(j, w);
            lemma_mod_division_less_than_divisor(j, w);
            assert(i == (row_b - row_a + j / w) * w + j % w) by (nonlinear_arith)
                requires
                    j == w * (j / w) + j % w,
                    i == (row_b - row_a) * w + j,
            ;
            lemma_fundamental_div_mod_converse(i, w, row_b - row_a + j / w, j % w);
        }
    }
    assert(first + second =~= whole);
}

/// The band of every row is the whole raster.
pub proof fn lemma_full_band_is_raster(
    bounds: ImageShape,
    upper_left: Complex<i64>,
    lower_right: Complex<i64>,
)
    requires
        bounds.valid(),
    ensures
        band_spec(bounds, upper_left, lower_right, 0, bounds.height as int)
            == raster_spec(bounds, upper_left, lower_right),
{
    lemma_mul_is_commutative(bounds.height as int, bounds.width as int);
    assert(band_spec(bounds, upper_left, lower_right, 0, bounds.height as int)
        =~= raster_spec(bounds, upper_left, lower_right));
}

/// The intensity of one pixel.
fn pixel_value(
    bounds: ImageShape,
    x: usize,
    y: usize,
    upper_left: Complex<i64>,
    lower_right: Complex<i64>,
) -> (v: u8)
    requires
        bounds.valid(),
        x < bounds.width,
        y < bounds.height,
    ensures
        v == pixel_intensity(bounds, x as int, y as int, upper_left, lower_right),
{
    let point = pixel_to_point(bounds, PixelPosition { x, y }, upper_left, lower_right);
    match escape_time(point, ESCAPE_LIMIT) {
        Some(count) => 255 - (count as u8),
        None => 0,
    }
}

/// Sequential fill of a caller-owned buffer, whose length must be
/// exactly `width * height`; on return the buffer holds the raster.
pub fn render_buffer(
    pixels: &mut Vec<u8>,
    bounds: ImageShape,
    upper_left: Complex<i64>,
    lower_right: Complex<i64>,
)
    requires
        bounds.valid(),
        old(pixels)@.len() == bounds.width * bounds.height,
    ensures
        final(pixels)@ == raster_spec(bounds, upper_left, lower_right),
{
    let mut row: usize = 0;
    while row < bounds.height
        invariant
            bounds.valid(),
            row <= bounds.height,
            pixels@.len() == bounds.width * bounds.height,
            forall|i: int| 0 <= i < row * bounds.width ==> pixels@[i] == pixel_intensity(
                bounds,
                i % (bounds.width as int),
                i / (bounds.width as int),
                upper_left,
                lower_right,
            ),
        decreases bounds.height - row,
    {
        let mut column: usize = 0;
        while column < bounds.width
            invariant
                bounds.valid(),
                row < bounds.height,
                column <= bounds.width,
                pixels@.len() == bounds.width * bounds.height,
                forall|i: int| 0 <= i < row * bounds.width + column ==> pixels@[i]
                    == pixel_intensity(
                    bounds,
                    i % (bounds.width as int),
                    i / (bounds.width as int),
                    upper_left,
                    lower_right,
                ),
            decreases bounds.width - column,
        {
            proof {
                lemma_mul_inequality(row as int + 1, bounds.height as int, bounds.width as int);
                assert((row as int + 1) * (bounds.width as int)
                    == row as int * bounds.width as int + bounds.width as int) by (nonlinear_arith);
                lemma_mul_is_commutative(bounds.height as int, bounds.width as int);
            }
            let idx: usize = row * bounds.width + column;
            let v = pixel_value(bounds, column, row, upper_left, lower_right);
            pixels.set(idx, v);
            proof {
                lemma_fundamental_div_mod_converse(
                    idx as int,
                    bounds.width as int,
                    row as int,
                    column as int,
                );
            }
            column = column + 1;
        }
        proof {
            assert((row as int + 1) * (bounds.width as int)
                == row as int * bounds.width as int + bounds.width as int) by (nonlinear_arith);
        }
        row = row + 1;
    }
    proof {
        lemma_mul_is_commutative(bounds.height as int, bounds.width as int);
        assert(pixels@ =~= raster_spec(bounds, upper_left, lower_right));
    }
}

/// One band of the raster: the rows `row_start .. row_end`, row-major,
/// exactly as the full raster holds them.
pub fn render_rows(
    bounds: ImageShape,
    upper_left: Complex<i64>,
    lower_right: Complex<i64>,
    row_start: usize,
    row_end: usize,
) -> (band: Vec<u8>)
    requires
        bounds.valid(),
        row_start <= row_end <= bounds.height,
    ensures
        band@ == band_spec(bounds, upper_left, lower_right, row_start as int, row_end as int),
{
    let mut band: Vec<u8> = Vec::new();
    let mut row: usize = row_start;
    while row < row_end
        invariant
            bounds.valid(),
            row_start <= row <= row_end <= bounds.height,
            band@.len() == (row - row_start) * bounds.width,
            forall|i: int| 0 <= i < band@.len() ==> band@[i] == pixel_intensity(
                bounds,
                i % (bounds.width as int),
                row_start + i / (bounds.width as int),
                upper_left,
                lower_right,
            ),
        decreases row_end - row,
    {
        let mut column: usize = 0;
        while column < bounds.width
            invariant
                bounds.valid(),
                row_start <= row < row_end <= bounds.height,
                column <= bounds.width,
                band@.len() == (row - row_start) * bounds.width + column,
                forall|i: int| 0 <= i < band@.len() ==> band@[i] == pixel_intensity(
                    bounds,
                    i % (bounds.width as int),
                    row_start + i / (bounds.width as int),
                    upper_left,
                    lower_right,
                ),
            decreases bounds.width - column,
        {
            let v = pixel_value(bounds, column, row, upper_left, lower_right);
            band.push(v);
            proof {
                lemma_fundamental_div_mod_converse(
                    band@.len() - 1,
                    bounds.width as int,
                    row as int - row_start as int,
                    column as int,
                );
            }
            column = column + 1;
        }
        proof {
            assert((row as int - row_start as int + 1) * (bounds.width as int)
                == (row as int - row_start as int) * (bounds.width as int)
                    + bounds.width as int) by (nonlinear_arith);
        }
        row = row + 1;
    }
    proof {
        assert(band@ =~= band_spec(
            bounds,
            upper_left,
            lower_right,
            row_start as int,
            row_end as int,
        ));
    }
    band
}

/// Chunked build of the whole raster: disjoint bands of at most
/// `rows_per_task` rows are rendered one by one and joined in order.
/// The result equals the sequential raster byte for byte.
pub fn render_raster(
    bounds: ImageShape,
    upper_left: Complex<i64>,
    lower_right: Complex<i64>,
    rows_per_task: usize,
) -> (raster: Vec<u8>)
    requires
        bounds.valid(),
        rows_per_task >= 1,
    ensures
        raster@ == raster_spec(bounds, upper_left, lower_right),
{
    let mut raster: Vec<u8> = Vec::new();
    let mut row: usize = 0;
    proof {
        assert(raster@ =~= band_spec(bounds, upper_left, lower_right, 0, 0));
    }
    while row < bounds.height
        invariant
            bounds.valid(),
            rows_per_task >= 1,
            row <= bounds.height,
            raster@ == band_spec(bounds, upper_left, lower_right, 0, row as int),
        decreases bounds.height - row,
    {
        let remaining = bounds.height - row;
        let span = if remaining < rows_per_task {
            remaining
        } else {
            rows_per_task
        };
        let row_end = row + span;
        let mut band = render_rows(bounds, upper_left, lower_right, row, row_end);
        proof {
            lemma_adjacent_bands_join(
                bounds,
                upper_left,
                lower_right,
                0,
                row as int,
                row_end as int,
            );
        }
        raster.append(&mut band);
        row = row_end;
    }
    proof {
        lemma_full_band_is_raster(bounds, upper_left, lower_right);
    }
    raster
}

/// The sequential fill and the chunked build agree: two rasters built
/// for the same shape and corners are byte-for-byte identical, since
/// each is the one raster the specification allows.
pub proof fn lemma_sequential_parallel_agree(
    a: Seq<u8>,
    b: Seq<u8>,
    bounds: ImageShape,
    upper_left: Complex<i64>,
    lower_right: Complex<i64>,
)
    requires
        a == raster_spec(bounds, upper_left, lower_right),
        b == raster_spec(bounds, upper_left, lower_right),
    ensures
        a == b,
{
}

/// A one-by-one raster holds a single pixel, which renders exactly the
/// upper-left corner: its intensity is `255 - n` where `n` is the
/// corner's escape time, or `0` if the corner never escapes.
pub proof fn lemma_single_pixel(
    bounds: ImageShape,
    upper_left: Complex<i64>,
    lower_right: Complex<i64>,
)
    requires
        bounds.valid(),
        bounds.width == 1,
        bounds.height == 1,
    ensures
        raster_spec(bounds, upper_left, lower_right) == seq![
            intensity_from_escape(
                escape_time_spec(
                    upper_left.re as int,
                    upper_left.im as int,
                    ESCAPE_LIMIT as nat,
                ),
            ),
        ],
{
    lemma_origin_pixel_maps_to_corner(bounds, upper_left, lower_right);
    assert(0int % 1 == 0);
    assert(0int / 1 == 0);
    assert(raster_spec(bounds, upper_left, lower_right) =~= seq![
        intensity_from_escape(
            escape_time_spec(upper_left.re as int, upper_left.im as int, ESCAPE_LIMIT as nat),
        ),
    ]);
}

} // verus!
