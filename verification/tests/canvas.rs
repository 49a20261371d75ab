//! Tests of the canvas state machine and the frame emitter.

use rustybrot::canvas::Canvas;
use rustybrot::mandelbrot::{Coordinate, SCALE};

fn quad_canvas() -> Canvas {
    // 2 x 2 image of the square from (-2, -2) to (2, 2): samples at
    // (-2, -2), (0, -2), (-2, 0) and (0, 0); the first two escape at
    // iteration 1, the last two never escape.
    Canvas::new(
        2,
        2,
        10,
        2,
        Coordinate {
            x: -2 * SCALE,
            y: -2 * SCALE,
        },
        Coordinate {
            x: 2 * SCALE,
            y: 2 * SCALE,
        },
    )
}

#[test]
fn new_canvas_is_empty() {
    let c = quad_canvas();
    assert_eq!(c.cursor, 0);
    for x in 0..2 {
        for y in 0..2 {
            assert_eq!(c.pixel(x, y).to_slice(), [0, 0, 0, 255]);
        }
    }
}

#[test]
fn emit_of_empty_canvas_is_all_sentinel() {
    let c = quad_canvas();
    let frame = c.emit();
    assert_eq!(frame.len(), 16);
    for group in frame.chunks(4) {
        assert_eq!(group, [0, 0, 0, 255]);
    }
}

#[test]
fn advance_one_fills_in_linear_order() {
    let mut c = quad_canvas();
    c.advance_one();
    assert_eq!(c.cursor, 1);
    // (-2, -2) escapes at iteration 1; fraction 1/2 colours to (6, 64, 128).
    assert_eq!(c.pixel(0, 0).to_slice(), [6, 64, 128, 255]);
    assert_eq!(c.pixel(1, 0).to_slice(), [0, 0, 0, 255]);
}

#[test]
fn advance_batch_stops_at_completion() {
    let mut c = quad_canvas();
    c.advance_batch(3);
    assert_eq!(c.cursor, 3);
    c.advance_batch(10);
    assert_eq!(c.cursor, 4);
}

#[test]
fn advance_all_completes_and_marks_set_points() {
    let mut c = quad_canvas();
    c.advance_all();
    assert_eq!(c.cursor, 4);
    // The two escaping samples are coloured, the two in-set samples keep
    // the sentinel.
    assert_eq!(c.pixel(0, 0).to_slice(), [6, 64, 128, 255]);
    assert_eq!(c.pixel(1, 0).to_slice(), [6, 64, 128, 255]);
    assert_eq!(c.pixel(0, 1).to_slice(), [0, 0, 0, 255]);
    assert_eq!(c.pixel(1, 1).to_slice(), [0, 0, 0, 255]);
}

#[test]
fn advance_after_complete_changes_nothing() {
    let mut c = quad_canvas();
    c.advance_all();
    let frame = c.emit();
    let cursor = c.cursor;
    c.advance_batch(5);
    assert_eq!(c.cursor, cursor);
    assert_eq!(c.emit(), frame);
    c.advance_one();
    assert_eq!(c.cursor, cursor);
    assert_eq!(c.emit(), frame);
}

#[test]
fn emit_flips_the_horizontal_axis() {
    // Column 0 samples (-1, -1) (escape count 2, colour (13, 128, 255)),
    // column 1 samples (0.5, -1) (escape count 1, colour (6, 64, 128)).
    // The emitted frame puts column 1's bytes first.
    let mut c = Canvas::new(
        2,
        1,
        10,
        2,
        Coordinate { x: -SCALE, y: -SCALE },
        Coordinate {
            x: 2 * SCALE,
            y: 2 * SCALE,
        },
    );
    c.advance_all();
    assert_eq!(c.pixel(0, 0).to_slice(), [13, 128, 255, 255]);
    assert_eq!(c.pixel(1, 0).to_slice(), [6, 64, 128, 255]);
    assert_eq!(c.emit(), vec![6, 64, 128, 255, 13, 128, 255, 255]);
}

#[test]
fn one_by_one_canvas() {
    // A single pixel sampling (0, 0), which never escapes.
    let mut c = Canvas::new(
        1,
        1,
        10,
        2,
        Coordinate { x: 0, y: 0 },
        Coordinate { x: SCALE, y: SCALE },
    );
    c.advance_all();
    assert_eq!(c.cursor, 1);
    assert_eq!(c.pixel(0, 0).to_slice(), [0, 0, 0, 255]);
    assert_eq!(c.emit(), vec![0, 0, 0, 255]);
}

#[test]
fn advance_batch_of_zero_changes_nothing() {
    let mut c = quad_canvas();
    c.advance_batch(0);
    assert_eq!(c.cursor, 0);
    c.advance_batch(2);
    c.advance_batch(0);
    assert_eq!(c.cursor, 2);
}
