use image::GenericImageView;
use mandelbrot::{
    encode_raster, escape_time, pixel_to_point, render_buffer, render_raster, render_rows,
    render_image, Complex, ImageShape, PixelPosition, ESCAPE_LIMIT, SCALE,
};

#[test]
fn test_pixel_to_point() {
    let p = pixel_to_point(
        ImageShape {
            width: 100,
            height: 200,
        },
        PixelPosition { x: 25, y: 175 },
        Complex {
            re: -SCALE,
            im: SCALE,
        },
        Complex {
            re: SCALE,
            im: -SCALE,
        },
    );
    // (-0.5, -0.75) in fixed-point form.
    assert_eq!(
        p,
        Complex {
            re: -SCALE / 2,
            im: -3 * SCALE / 4
        }
    );
}

#[test]
fn origin_never_escapes() {
    assert_eq!(escape_time(Complex { re: 0, im: 0 }, 1), None);
    assert_eq!(escape_time(Complex { re: 0, im: 0 }, 255), None);
}

#[test]
fn far_point_escapes_at_iteration_one() {
    let three = Complex {
        re: 3 * SCALE,
        im: 0,
    };
    assert_eq!(escape_time(three, 1), None);
    assert_eq!(escape_time(three, 2), Some(1));
    assert_eq!(escape_time(three, 200), Some(1));
}

#[test]
fn sequential_and_chunked_builds_agree() {
    let bounds = ImageShape {
        width: 24,
        height: 17,
    };
    let ul = Complex {
        re: -2 * SCALE,
        im: SCALE,
    };
    let lr = Complex {
        re: SCALE,
        im: -SCALE,
    };
    let mut sequential = vec![0u8; 24 * 17];
    render_buffer(&mut sequential, bounds, ul, lr);
    for rows_per_task in [1usize, 2, 5, 17, 100] {
        let chunked = render_raster(bounds, ul, lr, rows_per_task);
        assert_eq!(sequential, chunked);
    }
}

#[test]
fn bands_join_to_the_full_raster() {
    let bounds = ImageShape {
        width: 9,
        height: 7,
    };
    let ul = Complex {
        re: -2 * SCALE,
        im: SCALE,
    };
    let lr = Complex {
        re: SCALE,
        im: -SCALE,
    };
    let full = render_raster(bounds, ul, lr, 3);
    let mut joined: Vec<u8> = Vec::new();
    joined.extend_from_slice(&render_rows(bounds, ul, lr, 0, 2));
    joined.extend_from_slice(&render_rows(bounds, ul, lr, 2, 7));
    assert_eq!(full, joined);
}

#[test]
fn single_pixel_renders_the_upper_left_corner() {
    let bounds = ImageShape {
        width: 1,
        height: 1,
    };
    let ul = Complex {
        re: -SCALE / 2,
        im: SCALE / 4,
    };
    let lr = Complex {
        re: SCALE,
        im: -SCALE,
    };
    let p = pixel_to_point(bounds, PixelPosition { x: 0, y: 0 }, ul, lr);
    assert_eq!(p, ul);
    let mut buf = vec![0u8; 1];
    render_buffer(&mut buf, bounds, ul, lr);
    let expected = match escape_time(ul, ESCAPE_LIMIT) {
        Some(n) => 255 - n as u8,
        None => 0,
    };
    assert_eq!(buf[0], expected);
}

#[test]
fn intensity_is_255_minus_the_escape_index() {
    let bounds = ImageShape {
        width: 1,
        height: 1,
    };
    // The corner escapes at iteration 1, so the pixel reads 254.
    let ul = Complex {
        re: 3 * SCALE,
        im: 0,
    };
    let lr = Complex {
        re: 4 * SCALE,
        im: -SCALE,
    };
    let mut buf = vec![0u8; 1];
    render_buffer(&mut buf, bounds, ul, lr);
    assert_eq!(buf[0], 254);
    // The origin never escapes, so its pixel reads 0.
    let ul0 = Complex { re: 0, im: 0 };
    let lr0 = Complex {
        re: SCALE,
        im: -SCALE,
    };
    render_buffer(&mut buf, bounds, ul0, lr0);
    assert_eq!(buf[0], 0);
}

#[test]
fn png_round_trip_preserves_the_raster() {
    let bounds = ImageShape {
        width: 40,
        height: 30,
    };
    let ul = Complex {
        re: -2 * SCALE,
        im: SCALE,
    };
    let lr = Complex {
        re: SCALE,
        im: -SCALE,
    };
    let raster = render_raster(bounds, ul, lr, 8);
    let png = render_image(bounds, ul, lr).expect("encoding failed");
    let decoded = image::load_from_memory(&png).expect("decoding failed");
    assert_eq!(decoded.dimensions(), (40, 30));
    assert_eq!(decoded.into_luma8().into_raw(), raster);
}

#[test]
fn encoding_a_finished_raster_matches_render_image() {
    let bounds = ImageShape {
        width: 13,
        height: 11,
    };
    let ul = Complex {
        re: -2 * SCALE,
        im: SCALE,
    };
    let lr = Complex {
        re: SCALE,
        im: -SCALE,
    };
    let raster = render_raster(bounds, ul, lr, 4);
    let direct = render_image(bounds, ul, lr).expect("encoding failed");
    let staged = encode_raster(&raster, bounds).expect("encoding failed");
    assert_eq!(direct, staged);
}
