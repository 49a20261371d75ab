//! The escape-time kernel: fixed-point complex coordinates, the quadratic
//! recurrence `z := z*z + c`, and the escape evaluator.
//!
//! Coordinates are fixed-point numbers: an `i64` holding the plane value
//! multiplied by [`SCALE`]. All kernel arithmetic is integer arithmetic on
//! these raw values (products are taken at double scale in `i128` and scaled
//! back down), so the whole recurrence is a deterministic function of the raw
//! inputs and is stated exactly by the spec functions below.

use vstd::prelude::*;

use crate::colour::ColourPolicy;
use crate::pixel::Pixel;
use crate::pixel::set_pixel;
use crate::pixel::set_pixel_spec;

verus! {

/// Raw units per 1.0 of plane value: coordinates carry 24 fractional bits.
pub const SCALE: i64 = 0x100_0000;

/// Largest raw magnitude a coordinate component may have (a plane value of
/// 2^16). Together with [`MAX_ESCAPE_THRESHOLD`] this keeps every product in
/// the recurrence inside `i128` and every scaled-back value inside `i64`.
pub const COORD_LIMIT: i64 = 0x100_0000_0000;

/// Largest escape threshold the evaluator accepts; `threshold * SCALE` then
/// stays within [`COORD_LIMIT`].
pub const MAX_ESCAPE_THRESHOLD: u32 = 0x1_0000;

/// A point of the complex plane: real part `x`, imaginary part `y`, both in
/// raw fixed-point units ([`SCALE`] units per 1.0).
pub struct Coordinate {
    pub x: i64,
    pub y: i64,
}

/// Scales a double-scale product back to single scale: division by [`SCALE`]
/// with truncation toward zero, as the executable `rescale` computes it.
pub open spec fn fx(v: int) -> int {
    if v >= 0 {
        v / (SCALE as int)
    } else {
        -((-v) / (SCALE as int))
    }
}

/// The real part of `z*z + c` on raw values.
pub open spec fn step_re(zr: int, zi: int, cr: int) -> int {
    fx(zr * zr - zi * zi) + cr
}

/// The imaginary part of `z*z + c` on raw values.
pub open spec fn step_im(zr: int, zi: int, ci: int) -> int {
    fx(2 * (zr * zi)) + ci
}

/// The squared magnitude of `z` on raw values, at double scale.
pub open spec fn mag2(zr: int, zi: int) -> int {
    zr * zr + zi * zi
}

/// The escape count reached from state `(zr, zi)` after `counter` updates
/// already taken: applies one more update, stops when the squared magnitude
/// exceeds `tt` (the squared threshold at double scale) or when the count
/// exceeds `loop_threshold`, and recurses otherwise.
pub open spec fn escape_from(
    zr: int,
    zi: int,
    cr: int,
    ci: int,
    counter: int,
    loop_threshold: int,
    tt: int,
) -> int
    decreases loop_threshold + 1 - counter,
{
    let next_count = counter + 1;
    let nzr = step_re(zr, zi, cr);
    let nzi = step_im(zr, zi, ci);
    if mag2(nzr, nzi) > tt {
        next_count
    } else if next_count > loop_threshold {
        next_count
    } else {
        escape_from(nzr, nzi, cr, ci, next_count, loop_threshold, tt)
    }
}

/// The squared escape threshold at double scale: magnitude of `z` above
/// `escape_threshold` is squared-raw-magnitude above this.
pub open spec fn threshold_squared(escape_threshold: int) -> int {
    (escape_threshold * escape_threshold) * ((SCALE as int) * (SCALE as int))
}

/// The escape count of the point `(cr, ci)` (raw units): the value of the
/// counter when the orbit of `z := z*z + c`, started at `z = c`, first leaves
/// the disc of radius `escape_threshold`, or `loop_threshold + 1` if it has
/// not left it by then.
pub open spec fn escape_spec(cr: int, ci: int, loop_threshold: int, escape_threshold: int) -> int {
    escape_from(cr, ci, cr, ci, 0, loop_threshold, threshold_squared(escape_threshold))
}

/// The rectangular region of the complex plane mapped onto the image.
pub struct Viewport {
    pub lower_left: Coordinate,
    pub upper_right: Coordinate,
}

impl Viewport {
    /// Both corners within [`COORD_LIMIT`], and the upper-right corner
    /// strictly above and to the right of the lower-left one.
    pub open spec fn well_formed(self) -> bool {
        &&& -COORD_LIMIT <= self.lower_left.x
        &&& self.upper_right.x <= COORD_LIMIT
        &&& -COORD_LIMIT <= self.lower_left.y
        &&& self.upper_right.y <= COORD_LIMIT
        &&& self.lower_left.x < self.upper_right.x
        &&& self.lower_left.y < self.upper_right.y
    }
}

/// The raw-unit distance between adjacent pixels along one axis: the axis's
/// own extent divided by the image size along that axis.
pub open spec fn step_size(lo: int, hi: int, n: int) -> int {
    (hi - lo) / n
}

/// Divides one axis's extent by the image size along that axis.
pub(crate) fn compute_step(lo: i64, hi: i64, n: u32) -> (s: i64)
    requires
        -COORD_LIMIT <= lo < hi <= COORD_LIMIT,
        n >= 1,
    ensures
        s == step_size(lo as int, hi as int, n as int),
        s >= 0,
        lo + (n - 1) * s <= hi,
{
    let ext: i64 = hi - lo;
    let q: u64 = (ext as u64) / (n as u64);
    proof {
        vstd::arithmetic::div_mod::lemma_div_nonincreasing(ext as int, n as int);
        vstd::arithmetic::div_mod::lemma_div_pos_is_pos(ext as int, n as int);
        vstd::arithmetic::div_mod::lemma_fundamental_div_mod(ext as int, n as int);
        vstd::arithmetic::div_mod::lemma_mod_division_less_than_divisor(ext as int, n as int);
        assert((n - 1) * (q as int) == (n as int) * (q as int) - q) by (nonlinear_arith);
    }
    q as i64
}

/// The coordinate mapper: converts a pixel index into the plane coordinate
/// of that pixel's lower-left sample point within the viewport.
pub fn map(
    pixel_x: u32,
    pixel_y: u32,
    viewport: &Viewport,
    image_width: u32,
    image_height: u32,
) -> (c: Coordinate)
    requires
        viewport.well_formed(),
        1 <= image_width,
        1 <= image_height,
        pixel_x < image_width,
        pixel_y < image_height,
    ensures
        c.x == viewport.lower_left.x + pixel_x * step_size(
            viewport.lower_left.x as int,
            viewport.upper_right.x as int,
            image_width as int,
        ),
        c.y == viewport.lower_left.y + pixel_y * step_size(
            viewport.lower_left.y as int,
            viewport.upper_right.y as int,
            image_height as int,
        ),
        -COORD_LIMIT <= c.x <= COORD_LIMIT,
        -COORD_LIMIT <= c.y <= COORD_LIMIT,
{
    let sx: i64 = compute_step(viewport.lower_left.x, viewport.upper_right.x, image_width);
    let sy: i64 = compute_step(viewport.lower_left.y, viewport.upper_right.y, image_height);
    proof {
        vstd::arithmetic::mul::lemma_mul_inequality(
            pixel_x as int,
            image_width - 1,
            sx as int,
        );
        vstd::arithmetic::mul::lemma_mul_nonnegative(pixel_x as int, sx as int);
        vstd::arithmetic::mul::lemma_mul_inequality(
            pixel_y as int,
            image_height - 1,
            sy as int,
        );
        vstd::arithmetic::mul::lemma_mul_nonnegative(pixel_y as int, sy as int);
    }
    Coordinate {
        x: viewport.lower_left.x + (pixel_x as i64) * sx,
        y: viewport.lower_left.y + (pixel_y as i64) * sy,
    }
}

/// Scales a double-scale `i128` product back down to an `i64` raw value,
/// truncating toward zero.
fn rescale(v: i128) -> (r: i64)
    requires
        -0x20_0000_0000_0000_0000_0000i128 <= v <= 0x20_0000_0000_0000_0000_0000i128,
    ensures
        r == fx(v as int),
        -0x2000_0000_0000_0000i64 <= r <= 0x2000_0000_0000_0000i64,
{
    if v >= 0 {
        let q: u128 = (v as u128) / (SCALE as u128);
        proof {
            vstd::arithmetic::div_mod::lemma_div_is_ordered(
                v as int,
                0x20_0000_0000_0000_0000_0000int,
                0x100_0000int,
            );
            vstd::arithmetic::div_mod::lemma_div_by_multiple(0x2000_0000_0000_0000int, 0x100_0000int);
        }
        q as i64
    } else {
        let m: i128 = -v;
        let q: u128 = (m as u128) / (SCALE as u128);
        proof {
            vstd::arithmetic::div_mod::lemma_div_is_ordered(
                m as int,
                0x20_0000_0000_0000_0000_0000int,
                0x100_0000int,
            );
            vstd::arithmetic::div_mod::lemma_div_by_multiple(0x2000_0000_0000_0000int, 0x100_0000int);
        }
        -(q as i64)
    }
}

/// The escape evaluator: iterates `z := z*z + c` from `z = c` and returns the
/// counter value at which the orbit's magnitude first exceeds
/// `escape_threshold`, or `loop_threshold + 1` when it never does (the point
/// is then presumed to lie in the Mandelbrot set).
pub fn evaluate(coordinate: Coordinate, loop_threshold: u32, escape_threshold: u32) -> (count: u32)
    requires
        -COORD_LIMIT <= coordinate.x <= COORD_LIMIT,
        -COORD_LIMIT <= coordinate.y <= COORD_LIMIT,
        escape_threshold <= MAX_ESCAPE_THRESHOLD,
        loop_threshold < u32::MAX,
    ensures
        count == escape_spec(
            coordinate.x as int,
            coordinate.y as int,
            loop_threshold as int,
            escape_threshold as int,
        ),
        1 <= count <= loop_threshold + 1,
{
    let cr: i64 = coordinate.x;
    let ci: i64 = coordinate.y;
    let mut zr: i64 = cr;
    let mut zi: i64 = ci;
    let mut counter: u32 = 0;
    proof {
        assert((escape_threshold as int) * (escape_threshold as int)
            <= 0x1_0000_0000int) by (nonlinear_arith)
            requires
                0 <= escape_threshold <= 0x1_0000,
        ;
    }
    let t2: i128 = (escape_threshold as i128) * (escape_threshold as i128);
    let tt: i128 = t2 * ((SCALE as i128) * (SCALE as i128));
    proof {
        assert(t2 * ((SCALE as int) * (SCALE as int))
            <= 0x1_0000_0000_0000_0000_0000_0000_0000int) by (nonlinear_arith)
            requires
                0 <= t2 <= 0x1_0000_0000int,
        ;
        assert(tt <= (COORD_LIMIT as int) * (COORD_LIMIT as int)) by (nonlinear_arith)
            requires
                tt == t2 * ((SCALE as int) * (SCALE as int)),
                0 <= t2 <= 0x1_0000_0000int,
        ;
    }
    loop
        invariant_except_break
            -COORD_LIMIT <= zr <= COORD_LIMIT,
            -COORD_LIMIT <= zi <= COORD_LIMIT,
            -COORD_LIMIT <= cr <= COORD_LIMIT,
            -COORD_LIMIT <= ci <= COORD_LIMIT,
            0 <= counter <= loop_threshold,
            loop_threshold < u32::MAX,
            0 <= tt <= (COORD_LIMIT as int) * (COORD_LIMIT as int),
            tt == threshold_squared(escape_threshold as int),
            cr == coordinate.x,
            ci == coordinate.y,
            escape_from(zr as int, zi as int, cr as int, ci as int, counter as int,
                loop_threshold as int, tt as int)
                == escape_spec(coordinate.x as int, coordinate.y as int,
                    loop_threshold as int, escape_threshold as int),
        ensures
            1 <= counter <= loop_threshold + 1,
            counter == escape_spec(coordinate.x as int, coordinate.y as int,
                loop_threshold as int, escape_threshold as int),
        decreases loop_threshold + 1 - counter,
    {
        let ghost zr0 = zr as int;
        let ghost zi0 = zi as int;
        let ghost counter0 = counter as int;
        counter = counter + 1;
        proof {
            assert(zr0 * zr0 <= (COORD_LIMIT as int) * (COORD_LIMIT as int) && zr0 * zr0 >= 0)
                by (nonlinear_arith)
                requires
                    -COORD_LIMIT <= zr0 <= COORD_LIMIT,
            ;
            assert(zi0 * zi0 <= (COORD_LIMIT as int) * (COORD_LIMIT as int) && zi0 * zi0 >= 0)
                by (nonlinear_arith)
                requires
                    -COORD_LIMIT <= zi0 <= COORD_LIMIT,
            ;
            assert(-((COORD_LIMIT as int) * (COORD_LIMIT as int)) <= zr0 * zi0
                <= (COORD_LIMIT as int) * (COORD_LIMIT as int)) by (nonlinear_arith)
                requires
                    -COORD_LIMIT <= zr0 <= COORD_LIMIT,
                    -COORD_LIMIT <= zi0 <= COORD_LIMIT,
            ;
        }
        let zr2: i128 = (zr as i128) * (zr as i128);
        let zi2: i128 = (zi as i128) * (zi as i128);
        let cross: i128 = 2 * ((zr as i128) * (zi as i128));
        let nzr: i64 = rescale(zr2 - zi2) + cr;
        let nzi: i64 = rescale(cross) + ci;
        zr = nzr;
        zi = nzi;
        proof {
            assert(zr == step_re(zr0, zi0, cr as int));
            assert(zi == step_im(zr0, zi0, ci as int));
            assert((nzr as int) * (nzr as int) >= 0 && (nzr as int) * (nzr as int)
                <= 0x4000_0000_0000_0000int * 0x4000_0000_0000_0000int) by (nonlinear_arith)
                requires
                    -0x4000_0000_0000_0000int <= nzr <= 0x4000_0000_0000_0000int,
            ;
            assert((nzi as int) * (nzi as int) >= 0 && (nzi as int) * (nzi as int)
                <= 0x4000_0000_0000_0000int * 0x4000_0000_0000_0000int) by (nonlinear_arith)
                requires
                    -0x4000_0000_0000_0000int <= nzi <= 0x4000_0000_0000_0000int,
            ;
        }
        let m: i128 = (zr as i128) * (zr as i128) + (zi as i128) * (zi as i128);
        proof {
            assert(m == mag2(zr as int, zi as int));
            assert(escape_from(zr0, zi0, cr as int, ci as int, counter0,
                loop_threshold as int, tt as int)
                == if mag2(zr as int, zi as int) > tt {
                    counter0 + 1
                } else if counter0 + 1 > loop_threshold {
                    counter0 + 1
                } else {
                    escape_from(zr as int, zi as int, cr as int, ci as int, counter0 + 1,
                        loop_threshold as int, tt as int)
                });
        }
        if m > tt {
            break;
        }
        if counter > loop_threshold {
            break;
        }
        proof {
            assert(-COORD_LIMIT <= zr as int <= COORD_LIMIT && -COORD_LIMIT <= zi as int
                <= COORD_LIMIT) by (nonlinear_arith)
                requires
                    (zr as int) * (zr as int) + (zi as int) * (zi as int) <= tt,
                    tt <= (COORD_LIMIT as int) * (COORD_LIMIT as int),
                    COORD_LIMIT > 0,
            ;
        }
    }
    counter
}

/// The pixel that sink index `i` of a full frame holds: the sink's pixel
/// order runs the horizontal axis opposite to the plane's, so sink index `i`
/// shows canvas column `width - 1 - (i % width)` of row `i / width`, coloured
/// by `policy` from its escape count, or the sentinel where the count
/// exceeds `loop_threshold`.
pub open spec fn frame_pixel<C: ColourPolicy>(
    policy: &C,
    lower_left: Coordinate,
    upper_right: Coordinate,
    image_width: int,
    image_height: int,
    escape_threshold: int,
    loop_threshold: int,
    i: int,
) -> Pixel {
    let x = image_width - 1 - (i % image_width);
    let y = i / image_width;
    let cx = lower_left.x + x * step_size(lower_left.x as int, upper_right.x as int, image_width);
    let cy = lower_left.y + y * step_size(lower_left.y as int, upper_right.y as int, image_height);
    let it = escape_spec(cx, cy, loop_threshold, escape_threshold);
    if it > loop_threshold {
        set_pixel_spec()
    } else {
        policy.colour_of(it, escape_threshold)
    }
}

/// Whether the `i`th four-byte group of `out` holds exactly the channels of
/// the frame's `i`th pixel.
pub open spec fn frame_group_matches<C: ColourPolicy>(
    out: Seq<u8>,
    policy: &C,
    lower_left: Coordinate,
    upper_right: Coordinate,
    image_width: int,
    image_height: int,
    escape_threshold: int,
    loop_threshold: int,
    i: int,
) -> bool {
    let p = frame_pixel(
        policy,
        lower_left,
        upper_right,
        image_width,
        image_height,
        escape_threshold,
        loop_threshold,
        i,
    );
    &&& out[4 * i] == p.r
    &&& out[4 * i + 1] == p.g
    &&& out[4 * i + 2] == p.b
    &&& out[4 * i + 3] == p.a
}

/// Renders a whole frame in one call: one RGBA group per pixel, in the
/// sink's order (rows top to bottom of the viewport's y range, each row's
/// horizontal axis flipped as `frame_pixel` states).
pub fn mandelbrot<C: ColourPolicy>(
    lower_left: Coordinate,
    upper_right: Coordinate,
    image_width: u32,
    image_height: u32,
    escape_threshold: u32,
    loop_threshold: u32,
    colour_function: &C,
) -> (out: Vec<u8>)
    requires
        -COORD_LIMIT <= lower_left.x < upper_right.x <= COORD_LIMIT,
        -COORD_LIMIT <= lower_left.y < upper_right.y <= COORD_LIMIT,
        1 <= image_width <= 4096,
        1 <= image_height <= 4096,
        1 <= escape_threshold <= MAX_ESCAPE_THRESHOLD,
        loop_threshold < u32::MAX,
    ensures
        out@.len() == 4 * (image_width * image_height),
        forall|i: int|
            0 <= i < image_width * image_height ==> #[trigger] frame_group_matches(
                out@,
                colour_function,
                lower_left,
                upper_right,
                image_width as int,
                image_height as int,
                escape_threshold as int,
                loop_threshold as int,
                i,
            ),
{
    proof {
        assert((image_width as int) * (image_height as int) <= 0x100_0000int) by (nonlinear_arith)
            requires
                1 <= image_width <= 4096,
                1 <= image_height <= 4096,
        ;
    }
    let viewport = Viewport {
        lower_left: Coordinate { x: lower_left.x, y: lower_left.y },
        upper_right: Coordinate { x: upper_right.x, y: upper_right.y },
    };
    let total: u32 = image_width * image_height;
    let mut out: Vec<u8> = Vec::new();
    let mut i: u32 = 0;
    while i < total
        invariant
            -COORD_LIMIT <= lower_left.x < upper_right.x <= COORD_LIMIT,
            -COORD_LIMIT <= lower_left.y < upper_right.y <= COORD_LIMIT,
            1 <= image_width <= 4096,
            1 <= image_height <= 4096,
            1 <= escape_threshold <= MAX_ESCAPE_THRESHOLD,
            loop_threshold < u32::MAX,
            viewport.lower_left == lower_left,
            viewport.upper_right == upper_right,
            total == image_width * image_height,
            i <= total,
            out@.len() == 4 * i,
            forall|j: int|
                0 <= j < i ==> #[trigger] frame_group_matches(
                    out@,
                    colour_function,
                    lower_left,
                    upper_right,
                    image_width as int,
                    image_height as int,
                    escape_threshold as int,
                    loop_threshold as int,
                    j,
                ),
        decreases total - i,
    {
        proof {
            vstd::arithmetic::div_mod::lemma_mod_division_less_than_divisor(
                i as int,
                image_width as int,
            );
            vstd::arithmetic::div_mod::lemma_multiply_divide_lt(
                i as int,
                image_width as int,
                image_height as int,
            );
        }
        let px: u32 = image_width - 1 - (i % image_width);
        let py: u32 = i / image_width;
        let c = map(px, py, &viewport, image_width, image_height);
        let ghost cx = c.x as int;
        let ghost cy = c.y as int;
        let it = evaluate(c, loop_threshold, escape_threshold);
        let p: Pixel = if it > loop_threshold {
            set_pixel()
        } else {
            colour_function.colour(it, escape_threshold)
        };
        proof {
            assert(p == frame_pixel(
                colour_function,
                lower_left,
                upper_right,
                image_width as int,
                image_height as int,
                escape_threshold as int,
                loop_threshold as int,
                i as int,
            ));
        }
        let ghost out0 = out@;
        out.push(p.r);
        out.push(p.g);
        out.push(p.b);
        out.push(p.a);
        proof {
            assert forall|j: int| 0 <= j < i + 1 implies #[trigger] frame_group_matches(
                out@,
                colour_function,
                lower_left,
                upper_right,
                image_width as int,
                image_height as int,
                escape_threshold as int,
                loop_threshold as int,
                j,
            ) by {
                if j < i {
                    assert(frame_group_matches(
                        out0,
                        colour_function,
                        lower_left,
                        upper_right,
                        image_width as int,
                        image_height as int,
                        escape_threshold as int,
                        loop_threshold as int,
                        j,
                    ));
                    assert(4 * j + 3 < out0.len());
                    assert(out@[4 * j] == out0[4 * j]);
                    assert(out@[4 * j + 1] == out0[4 * j + 1]);
                    assert(out@[4 * j + 2] == out0[4 * j + 2]);
                    assert(out@[4 * j + 3] == out0[4 * j + 3]);
                } else {
                    assert(out@[4 * j] == p.r);
                    assert(out@[4 * j + 1] == p.g);
                    assert(out@[4 * j + 2] == p.b);
                    assert(out@[4 * j + 3] == p.a);
                }
            }
        }
        i = i + 1;
    }
    out
}

/// The escape count always exceeds the number of updates already taken:
/// the evaluator performs at least one update before it can stop.
pub proof fn lemma_escape_count_at_least(
    zr: int,
    zi: int,
    cr: int,
    ci: int,
    counter: int,
    loop_threshold: int,
    tt: int,
)
    ensures
        escape_from(zr, zi, cr, ci, counter, loop_threshold, tt) >= counter + 1,
    decreases loop_threshold + 1 - counter,
{
    let nzr = step_re(zr, zi, cr);
    let nzi = step_im(zr, zi, ci);
    if mag2(nzr, nzi) <= tt && counter + 1 <= loop_threshold {
        lemma_escape_count_at_least(nzr, nzi, cr, ci, counter + 1, loop_threshold, tt);
    }
}

/// From the origin the orbit never moves: one update of `z = (0, 0)` with
/// `c = (0, 0)` yields `(0, 0)` again, so the counter runs out.
proof fn lemma_origin_fixed_point(counter: int, loop_threshold: int, tt: int)
    requires
        0 <= counter <= loop_threshold,
        tt >= 0,
    ensures
        escape_from(0, 0, 0, 0, counter, loop_threshold, tt) == loop_threshold + 1,
    decreases loop_threshold - counter,
{
    assert(step_re(0, 0, 0) == 0);
    assert(step_im(0, 0, 0) == 0);
    assert(mag2(0, 0) == 0);
    if counter + 1 <= loop_threshold {
        lemma_origin_fixed_point(counter + 1, loop_threshold, tt);
    }
}

/// The point `(0, 0)` never escapes: for any positive escape threshold the
/// evaluator's count is `loop_threshold + 1`.
pub proof fn lemma_origin_never_escapes(loop_threshold: u32, escape_threshold: u32)
    requires
        escape_threshold >= 1,
    ensures
        escape_spec(0, 0, loop_threshold as int, escape_threshold as int)
            == loop_threshold + 1,
{
    let tt = threshold_squared(escape_threshold as int);
    assert(tt >= 0) by (nonlinear_arith)
        requires
            tt == ((escape_threshold as int) * (escape_threshold as int)) * ((SCALE as int) * (
            SCALE as int)),
            escape_threshold >= 1,
            SCALE >= 1,
    ;
    lemma_origin_fixed_point(0, loop_threshold as int, tt);
}

} // verus!
