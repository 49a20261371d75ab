//! Tests of the escape evaluator, the coordinate mapper, the colour policy
//! and the one-shot frame renderer.

use rustybrot::colour::{my_colour_function, DefaultColour};
use rustybrot::mandelbrot::{evaluate, mandelbrot, Coordinate, Viewport, SCALE};
use rustybrot::pixel::{set_pixel, Pixel};

#[test]
fn evaluate_escapes_at_iteration_one() {
    // (-2, -2) has magnitude above 2 after a single update.
    let c = Coordinate {
        x: -2 * SCALE,
        y: -2 * SCALE,
    };
    assert_eq!(evaluate(c, 10, 2), 1);
}

#[test]
fn evaluate_escapes_at_iteration_two() {
    // (-1, -1) -> (-1, 1) (magnitude^2 = 2), then (-1, -3) (magnitude^2 = 10).
    let c = Coordinate { x: -SCALE, y: -SCALE };
    assert_eq!(evaluate(c, 10, 2), 2);
}

#[test]
fn evaluate_origin_never_escapes() {
    for loop_threshold in [0u32, 1, 7, 1000] {
        let c = Coordinate { x: 0, y: 0 };
        assert_eq!(evaluate(c, loop_threshold, 2), loop_threshold + 1);
        let c = Coordinate { x: 0, y: 0 };
        assert_eq!(evaluate(c, loop_threshold, 25), loop_threshold + 1);
    }
}

#[test]
fn colour_of_half_fraction() {
    // fraction 1/2: r = round(0.05 * 127.5) = 6, g = round(63.75) = 64,
    // b = round(127.5) = 128.
    let p = my_colour_function(1, 2);
    assert_eq!(p.to_slice(), [6, 64, 128, 255]);
}

#[test]
fn colour_of_full_fraction() {
    // fraction 1: r = round(12.75) = 13, g = round(127.5) = 128, b = 255.
    let p = my_colour_function(2, 2);
    assert_eq!(p.to_slice(), [13, 128, 255, 255]);
}

#[test]
fn colour_saturates_beyond_threshold() {
    // fraction 50: every channel clamps to 255.
    let p = my_colour_function(100, 2);
    assert_eq!(p.to_slice(), [255, 255, 255, 255]);
}

#[test]
fn colour_rounds_half_up() {
    // b = round(255 / 510) = round(0.5) = 1; r and g round down to 0.
    let p = my_colour_function(1, 510);
    assert_eq!(p.to_slice(), [0, 0, 1, 255]);
}

#[test]
fn pixel_to_slice_orders_channels() {
    let p = Pixel {
        r: 1,
        g: 2,
        b: 3,
        a: 4,
    };
    assert_eq!(p.to_slice(), [1, 2, 3, 4]);
    assert_eq!(set_pixel().to_slice(), [0, 0, 0, 255]);
}

#[test]
fn map_uses_each_axis_own_extent() {
    // x extent 4 over 2 pixels, y extent 2 over 1 pixel: the steps differ.
    let viewport = Viewport {
        lower_left: Coordinate {
            x: -2 * SCALE,
            y: -SCALE,
        },
        upper_right: Coordinate {
            x: 2 * SCALE,
            y: SCALE,
        },
    };
    let c = rustybrot::mandelbrot::map(0, 0, &viewport, 2, 1);
    assert_eq!(c.x, -2 * SCALE);
    assert_eq!(c.y, -SCALE);
    let c = rustybrot::mandelbrot::map(1, 0, &viewport, 2, 1);
    assert_eq!(c.x, 0);
    assert_eq!(c.y, -SCALE);
}

#[test]
fn mandelbrot_renders_flipped_row() {
    // Two pixels: column 0 samples (-1, -1) (escape count 2), column 1
    // samples (0.5, -1) (escape count 1). The sink order flips the row, so
    // column 1's colour comes first.
    let lower_left = Coordinate { x: -SCALE, y: -SCALE };
    let upper_right = Coordinate {
        x: 2 * SCALE,
        y: 2 * SCALE,
    };
    let frame = mandelbrot(lower_left, upper_right, 2, 1, 2, 10, &DefaultColour);
    assert_eq!(frame, vec![6, 64, 128, 255, 13, 128, 255, 255]);
}

#[test]
fn evaluate_accepts_largest_threshold() {
    let c = Coordinate { x: 0, y: 0 };
    assert_eq!(evaluate(c, 5, 65536), 6);
}
