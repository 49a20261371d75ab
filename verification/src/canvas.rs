//! The canvas and its render driver: a dense RGBA pixel grid filled one
//! pixel per advance call, in strictly increasing linear order, together
//! with the frame emitter that copies the grid into a sink-ordered byte
//! sequence.
//!
//! The grid is stored row-major: cell `(x, y)` of the width x height image
//! sits at linear index `y * width + x`, which is also the order in which
//! the cursor visits the pixels. Every cell at an index below the cursor
//! holds exactly the pixel the kernel computes for it; every cell at or
//! above the cursor still holds the sentinel.

use vstd::prelude::*;

use crate::colour::colour_spec;
use crate::colour::my_colour_function;
use crate::mandelbrot::COORD_LIMIT;
use crate::mandelbrot::Coordinate;
use crate::mandelbrot::MAX_ESCAPE_THRESHOLD;
use crate::mandelbrot::compute_step;
use crate::mandelbrot::escape_spec;
use crate::mandelbrot::evaluate;
use crate::mandelbrot::step_size;
use crate::pixel::Pixel;
use crate::pixel::set_pixel;
use crate::pixel::set_pixel_spec;

verus! {

/// Whether the `i`th four-byte group of `out` is the sentinel's channels:
/// black and fully opaque.
pub open spec fn group_is_set_pixel(out: Seq<u8>, i: int) -> bool {
    &&& out[4 * i] == 0
    &&& out[4 * i + 1] == 0
    &&& out[4 * i + 2] == 0
    &&& out[4 * i + 3] == 255
}

/// The canvas and its render state: the pixel grid, the cursor of the next
/// pixel to compute, and the fixed configuration of the run.
pub struct Canvas {
    pub width: u32,
    pub height: u32,
    pub grid: Vec<Pixel>,
    pub cursor: u32,
    pub loop_threshold: u32,
    pub escape_threshold: u32,
    pub lower_left: Coordinate,
    pub step_x: i64,
    pub step_y: i64,
}

impl Canvas {
    /// The number of pixels of the image.
    pub open spec fn total(self) -> int {
        self.width * self.height
    }

    /// The raw plane coordinate sampled for pixel column `x`.
    pub open spec fn sample_x(self, x: int) -> int {
        self.lower_left.x + x * self.step_x
    }

    /// The raw plane coordinate sampled for pixel row `y`.
    pub open spec fn sample_y(self, y: int) -> int {
        self.lower_left.y + y * self.step_y
    }

    /// The escape count of the pixel at linear index `i`.
    pub open spec fn escape_at(self, i: int) -> int {
        escape_spec(
            self.sample_x(i % (self.width as int)),
            self.sample_y(i / (self.width as int)),
            self.loop_threshold as int,
            self.escape_threshold as int,
        )
    }

    /// The pixel the kernel assigns to linear index `i`: the sentinel where
    /// the count exceeds `loop_threshold`, the policy's colour otherwise.
    pub open spec fn rendered_pixel(self, i: int) -> Pixel {
        let it = self.escape_at(i);
        if it > self.loop_threshold {
            set_pixel_spec()
        } else {
            colour_spec(it, self.escape_threshold as int)
        }
    }

    /// Shape and configuration bounds: a non-degenerate image within the
    /// sizes the integer kernel supports, a grid of exactly `total` cells, a
    /// cursor that never passes `total`, and sample coordinates that stay
    /// within [`COORD_LIMIT`].
    pub open spec fn wf(self) -> bool {
        &&& 1 <= self.width <= 4096
        &&& 1 <= self.height <= 4096
        &&& 1 <= self.escape_threshold <= MAX_ESCAPE_THRESHOLD
        &&& self.loop_threshold < u32::MAX
        &&& self.grid@.len() == self.width * self.height
        &&& self.cursor <= self.width * self.height
        &&& -COORD_LIMIT <= self.lower_left.x
        &&& -COORD_LIMIT <= self.lower_left.y
        &&& 0 <= self.step_x
        &&& 0 <= self.step_y
        &&& self.lower_left.x + (self.width - 1) * self.step_x <= COORD_LIMIT
        &&& self.lower_left.y + (self.height - 1) * self.step_y <= COORD_LIMIT
    }

    /// Every cell below the cursor holds its computed pixel; every cell at
    /// or above it still holds the sentinel.
    pub open spec fn pixels_match(self) -> bool {
        forall|i: int|
            0 <= i < self.total() ==> #[trigger] self.grid@[i] == if i < self.cursor {
                self.rendered_pixel(i)
            } else {
                set_pixel_spec()
            }
    }

    /// The canvas invariant: well-shaped, and the grid's contents are
    /// exactly determined by the configuration and the cursor.
    pub open spec fn inv(self) -> bool {
        &&& self.wf()
        &&& self.pixels_match()
    }

    /// Whether two canvases share dimensions, thresholds and viewport
    /// placement; advancing never changes these.
    pub open spec fn same_config(self, other: Canvas) -> bool {
        &&& self.width == other.width
        &&& self.height == other.height
        &&& self.loop_threshold == other.loop_threshold
        &&& self.escape_threshold == other.escape_threshold
        &&& self.lower_left == other.lower_left
        &&& self.step_x == other.step_x
        &&& self.step_y == other.step_y
    }

    /// Creates a canvas for a `width` x `height` image of the viewport
    /// between `lower_left` and `upper_right`: every cell holds the
    /// sentinel and the cursor is at the first pixel.
    pub fn new(
        width: u32,
        height: u32,
        loop_threshold: u32,
        escape_threshold: u32,
        lower_left: Coordinate,
        upper_right: Coordinate,
    ) -> (canvas: Canvas)
        requires
            1 <= width <= 4096,
            1 <= height <= 4096,
            1 <= escape_threshold <= MAX_ESCAPE_THRESHOLD,
            loop_threshold < u32::MAX,
            -COORD_LIMIT <= lower_left.x < upper_right.x <= COORD_LIMIT,
            -COORD_LIMIT <= lower_left.y < upper_right.y <= COORD_LIMIT,
        ensures
            canvas.inv(),
            canvas.cursor == 0,
            canvas.width == width,
            canvas.height == height,
            canvas.loop_threshold == loop_threshold,
            canvas.escape_threshold == escape_threshold,
            canvas.lower_left == lower_left,
            canvas.step_x == step_size(lower_left.x as int, upper_right.x as int, width as int),
            canvas.step_y == step_size(lower_left.y as int, upper_right.y as int, height as int),
    {
        proof {
            assert((width as int) * (height as int) <= 0x100_0000int) by (nonlinear_arith)
                requires
                    1 <= width <= 4096,
                    1 <= height <= 4096,
            ;
        }
        let step_x: i64 = compute_step(lower_left.x, upper_right.x, width);
        let step_y: i64 = compute_step(lower_left.y, upper_right.y, height);
        let total: u32 = width * height;
        let mut grid: Vec<Pixel> = Vec::new();
        let mut i: u32 = 0;
        while i < total
            invariant
                i <= total,
                grid@.len() == i,
                forall|k: int| 0 <= k < i ==> #[trigger] grid@[k] == set_pixel_spec(),
            decreases total - i,
        {
            grid.push(set_pixel());
            i = i + 1;
        }
        Canvas {
            width,
            height,
            grid,
            cursor: 0,
            loop_threshold,
            escape_threshold,
            lower_left,
            step_x,
            step_y,
        }
    }

    /// Computes the pixel under the cursor (coordinate mapper, then escape
    /// evaluator, then colour policy or sentinel), writes it into the grid,
    /// and moves the cursor forward; does nothing when already complete.
    pub fn advance_one(&mut self)
        requires
            old(self).inv(),
        ensures
            final(self).inv(),
            final(self).same_config(*old(self)),
            old(self).cursor == old(self).total() ==> *final(self) == *old(self),
            old(self).cursor < old(self).total() ==> final(self).cursor == old(self).cursor + 1,
    {
        proof {
            assert((self.width as int) * (self.height as int) <= 0x100_0000int) by (nonlinear_arith)
                requires
                    1 <= self.width <= 4096,
                    1 <= self.height <= 4096,
            ;
        }
        let total: u32 = self.width * self.height;
        if self.cursor >= total {
            return ;
        }
        let x: u32 = self.cursor % self.width;
        let y: u32 = self.cursor / self.width;
        proof {
            vstd::arithmetic::div_mod::lemma_mod_division_less_than_divisor(
                self.cursor as int,
                self.width as int,
            );
            vstd::arithmetic::div_mod::lemma_multiply_divide_lt(
                self.cursor as int,
                self.width as int,
                self.height as int,
            );
            vstd::arithmetic::mul::lemma_mul_inequality(x as int, self.width - 1, self.step_x as int);
            vstd::arithmetic::mul::lemma_mul_nonnegative(x as int, self.step_x as int);
            vstd::arithmetic::mul::lemma_mul_inequality(
                y as int,
                self.height - 1,
                self.step_y as int,
            );
            vstd::arithmetic::mul::lemma_mul_nonnegative(y as int, self.step_y as int);
        }
        let cx: i64 = self.lower_left.x + (x as i64) * self.step_x;
        let cy: i64 = self.lower_left.y + (y as i64) * self.step_y;
        let it: u32 = evaluate(
            Coordinate { x: cx, y: cy },
            self.loop_threshold,
            self.escape_threshold,
        );
        let p: Pixel = if it > self.loop_threshold {
            set_pixel()
        } else {
            my_colour_function(it, self.escape_threshold)
        };
        let ghost prev = *self;
        let idx: usize = self.cursor as usize;
        self.grid[idx] = p;
        self.cursor = self.cursor + 1;
        proof {
            assert(p == prev.rendered_pixel(prev.cursor as int));
            assert forall|i: int| 0 <= i < self.total() implies #[trigger] self.grid@[i] == if i
                < self.cursor {
                self.rendered_pixel(i)
            } else {
                set_pixel_spec()
            } by {
                assert(prev.grid@[i] == if i < prev.cursor {
                    prev.rendered_pixel(i)
                } else {
                    set_pixel_spec()
                });
                assert(self.rendered_pixel(i) == prev.rendered_pixel(i));
            }
        }
    }

    /// Calls `advance_one` up to `n` times, stopping early once the canvas
    /// is complete. After completion further calls change nothing.
    pub fn advance_batch(&mut self, n: u32)
        requires
            old(self).inv(),
        ensures
            final(self).inv(),
            final(self).same_config(*old(self)),
            final(self).cursor == vstd::math::min(old(self).cursor + n, old(self).total()),
            old(self).cursor == old(self).total() ==> *final(self) == *old(self),
    {
        proof {
            assert((self.width as int) * (self.height as int) <= 0x100_0000int) by (nonlinear_arith)
                requires
                    1 <= self.width <= 4096,
                    1 <= self.height <= 4096,
            ;
        }
        let ghost orig = *self;
        let total: u32 = self.width * self.height;
        let mut k: u32 = 0;
        while k < n
            invariant_except_break
                self.inv(),
                self.same_config(orig),
                k <= n,
                total == orig.total(),
                self.cursor == vstd::math::min(orig.cursor + k, orig.total()),
                orig.cursor == orig.total() ==> *self == orig,
            ensures
                self.inv(),
                self.same_config(orig),
                self.cursor == vstd::math::min(orig.cursor + n, orig.total()),
                orig.cursor == orig.total() ==> *self == orig,
            decreases n - k,
        {
            if self.cursor >= total {
                break ;
            }
            self.advance_one();
            k = k + 1;
        }
    }

    /// Drains the canvas to completion: every pixel computed, the cursor at
    /// `width * height`.
    pub fn advance_all(&mut self)
        requires
            old(self).inv(),
        ensures
            final(self).inv(),
            final(self).same_config(*old(self)),
            final(self).cursor == final(self).total(),
    {
        proof {
            assert((self.width as int) * (self.height as int) <= 0x100_0000int) by (nonlinear_arith)
                requires
                    1 <= self.width <= 4096,
                    1 <= self.height <= 4096,
            ;
        }
        let ghost orig = *self;
        let total: u32 = self.width * self.height;
        while self.cursor < total
            invariant
                self.inv(),
                self.same_config(orig),
                total == orig.total(),
            decreases total - self.cursor,
        {
            self.advance_one();
        }
    }

    /// The pixel the `i`th four-byte group of an emitted frame shows: the
    /// sink's horizontal axis runs opposite to the plane's, so group `i`
    /// shows canvas column `width - 1 - (i % width)` of row `i / width`.
    pub open spec fn emitted_pixel(self, i: int) -> Pixel {
        let x = self.width - 1 - (i % (self.width as int));
        let y = i / (self.width as int);
        self.grid@[y * (self.width as int) + x]
    }

    /// Whether the `i`th four-byte group of `out` holds exactly the
    /// channels of the pixel the emitter shows there.
    pub open spec fn emit_group_matches(self, out: Seq<u8>, i: int) -> bool {
        let p = self.emitted_pixel(i);
        &&& out[4 * i] == p.r
        &&& out[4 * i + 1] == p.g
        &&& out[4 * i + 2] == p.b
        &&& out[4 * i + 3] == p.a
    }

    /// The frame emitter: copies the whole grid into a flat RGBA byte
    /// sequence in the sink's order, flipping the horizontal axis.
    pub fn emit(&self) -> (out: Vec<u8>)
        requires
            self.wf(),
        ensures
            out@.len() == 4 * self.total(),
            forall|i: int| 0 <= i < self.total() ==> #[trigger] self.emit_group_matches(out@, i),
    {
        proof {
            assert((self.width as int) * (self.height as int) <= 0x100_0000int) by (nonlinear_arith)
                requires
                    1 <= self.width <= 4096,
                    1 <= self.height <= 4096,
            ;
        }
        let total: u32 = self.width * self.height;
        let mut out: Vec<u8> = Vec::new();
        let mut i: u32 = 0;
        while i < total
            invariant
                self.wf(),
                total == self.total(),
                i <= total,
                out@.len() == 4 * i,
                forall|j: int| 0 <= j < i ==> #[trigger] self.emit_group_matches(out@, j),
            decreases total - i,
        {
            proof {
                vstd::arithmetic::div_mod::lemma_mod_division_less_than_divisor(
                    i as int,
                    self.width as int,
                );
                vstd::arithmetic::div_mod::lemma_multiply_divide_lt(
                    i as int,
                    self.width as int,
                    self.height as int,
                );
            }
            let x: u32 = self.width - 1 - (i % self.width);
            let y: u32 = i / self.width;
            proof {
                vstd::arithmetic::mul::lemma_mul_inequality(y as int, self.height - 1, self.width as int);
                assert((self.height - 1) * (self.width as int) + self.width
                    == (self.height as int) * (self.width as int)) by (nonlinear_arith);
                vstd::arithmetic::mul::lemma_mul_is_commutative(self.height as int, self.width as int);
                vstd::arithmetic::mul::lemma_mul_nonnegative(y as int, self.width as int);
            }
            let idx: usize = (y as usize) * (self.width as usize) + (x as usize);
            let p = &self.grid[idx];
            let ghost out0 = out@;
            out.push(p.r);
            out.push(p.g);
            out.push(p.b);
            out.push(p.a);
            proof {
                assert forall|j: int| 0 <= j < i + 1 implies #[trigger] self.emit_group_matches(
                    out@,
                    j,
                ) by {
                    if j < i {
                        assert(self.emit_group_matches(out0, j));
                        assert(4 * j + 3 < out0.len());
                        assert(out@[4 * j] == out0[4 * j]);
                        assert(out@[4 * j + 1] == out0[4 * j + 1]);
                        assert(out@[4 * j + 2] == out0[4 * j + 2]);
                        assert(out@[4 * j + 3] == out0[4 * j + 3]);
                    } else {
                        assert(out@[4 * j] == self.emitted_pixel(j).r);
                        assert(out@[4 * j + 1] == self.emitted_pixel(j).g);
                        assert(out@[4 * j + 2] == self.emitted_pixel(j).b);
                        assert(out@[4 * j + 3] == self.emitted_pixel(j).a);
                    }
                }
            }
            i = i + 1;
        }
        out
    }

    /// A copy of the pixel of cell `(x, y)`.
    pub fn pixel(&self, x: u32, y: u32) -> (p: Pixel)
        requires
            self.wf(),
            x < self.width,
            y < self.height,
        ensures
            p == self.grid@[y * (self.width as int) + x],
    {
        proof {
            assert((self.width as int) * (self.height as int) <= 0x100_0000int) by (nonlinear_arith)
                requires
                    1 <= self.width <= 4096,
                    1 <= self.height <= 4096,
            ;
            vstd::arithmetic::mul::lemma_mul_inequality(y as int, self.height - 1, self.width as int);
            assert((self.height - 1) * (self.width as int) + self.width
                == (self.height as int) * (self.width as int)) by (nonlinear_arith);
            vstd::arithmetic::mul::lemma_mul_is_commutative(self.height as int, self.width as int);
            vstd::arithmetic::mul::lemma_mul_nonnegative(y as int, self.width as int);
        }
        let idx: usize = (y as usize) * (self.width as usize) + (x as usize);
        self.grid[idx].clone()
    }

    /// On a complete canvas, a cell holds the sentinel exactly where its
    /// point's escape count exceeded the loop threshold — every escaping
    /// point got a colour distinct from the sentinel. This needs an escape
    /// threshold of at most 510: above that, a point escaping at iteration 1
    /// rounds to a fully black colour and is indistinguishable from the
    /// sentinel.
    pub proof fn lemma_complete_marks_set_points(self)
        requires
            self.inv(),
            self.cursor == self.total(),
            self.escape_threshold <= 510,
        ensures
            forall|i: int|
                0 <= i < self.total() ==> ((#[trigger] self.grid@[i]) == set_pixel_spec()
                    <==> self.escape_at(i) > self.loop_threshold),
    {
        assert forall|i: int|
            0 <= i < self.total() implies ((#[trigger] self.grid@[i]) == set_pixel_spec()
            <==> self.escape_at(i) > self.loop_threshold) by {
            assert(self.grid@[i] == self.rendered_pixel(i));
            let it = self.escape_at(i);
            crate::mandelbrot::lemma_escape_count_at_least(
                self.sample_x(i % (self.width as int)),
                self.sample_y(i / (self.width as int)),
                self.sample_x(i % (self.width as int)),
                self.sample_y(i / (self.width as int)),
                0,
                self.loop_threshold as int,
                crate::mandelbrot::threshold_squared(self.escape_threshold as int),
            );
            if it <= self.loop_threshold {
                crate::colour::lemma_colour_not_set_pixel(it, self.escape_threshold as int);
            }
        }
    }

    /// On a canvas whose grid holds the sentinel everywhere, every four-byte
    /// group of an emitted frame is exactly `(0, 0, 0, 255)`.
    pub proof fn lemma_emit_of_sentinel_canvas(self, out: Seq<u8>)
        requires
            self.wf(),
            out.len() == 4 * self.total(),
            forall|i: int| 0 <= i < self.total() ==> #[trigger] self.grid@[i] == set_pixel_spec(),
            forall|i: int| 0 <= i < self.total() ==> #[trigger] self.emit_group_matches(out, i),
        ensures
            forall|i: int| 0 <= i < self.total() ==> #[trigger] group_is_set_pixel(out, i),
    {
        assert forall|i: int|
            0 <= i < self.total() implies #[trigger] group_is_set_pixel(out, i) by {
            let w = self.width as int;
            let x = w - 1 - (i % w);
            let y = i / w;
            vstd::arithmetic::div_mod::lemma_mod_division_less_than_divisor(i, w);
            vstd::arithmetic::div_mod::lemma_multiply_divide_lt(i, w, self.height as int);
            vstd::arithmetic::mul::lemma_mul_inequality(y, self.height - 1, w);
            assert((self.height - 1) * w + w == (self.height as int) * w) by (nonlinear_arith);
            vstd::arithmetic::mul::lemma_mul_is_commutative(self.height as int, w);
            vstd::arithmetic::mul::lemma_mul_nonnegative(y, w);
            assert(0 <= y * w + x < self.total());
            assert(self.grid@[y * w + x] == set_pixel_spec());
            assert(self.emitted_pixel(i) == set_pixel_spec());
            assert(self.emit_group_matches(out, i));
        }
    }
}

} // verus!
