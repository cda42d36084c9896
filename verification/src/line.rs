//! Integer line rasterization into a framebuffer.
//!
//! [`draw_line`] plots the integer Bresenham pixel set of a segment and clips it to the
//! framebuffer: pixels outside are simply not written. The in-bounds portion of a line is exactly
//! the pixel set of the full segment: clipping only removes pixels, it never shifts them.

use crate::color::Color;
use crate::framebuffer::{lemma_index_in_plane, lemma_index_is_injective, Framebuffer, Raster};
use vstd::prelude::*;

verus! {

/// `n` without its sign.
pub open spec fn distance(n: int) -> int {
    if n < 0 {
        -n
    } else {
        n
    }
}

/// `k * rise / run`, rounded to the nearest whole number, halves up.
pub open spec fn rounded(k: int, rise: int, run: int) -> int {
    (2 * k * rise + run) / (2 * run)
}

/// Whether the pixel `(px, py)` belongs to the segment from `(x0, y0)` to `(x1, y1)`.
///
/// Along its longer axis a segment has one pixel per step from one end to the other; across it,
/// the pixel nearest to the exact line, halves rounded away from the first end.
pub open spec fn on_line(x0: int, y0: int, x1: int, y1: int, px: int, py: int) -> bool {
    let dx = distance(x1 - x0);
    let dy = distance(y1 - y0);
    let i = if x0 < x1 {
        px - x0
    } else {
        x0 - px
    };
    let j = if y0 < y1 {
        py - y0
    } else {
        y0 - py
    };
    if dx == 0 && dy == 0 {
        px == x0 && py == y0
    } else if dx >= dy {
        0 <= i <= dx && j == rounded(i, dy, dx)
    } else {
        0 <= j <= dy && i == rounded(j, dx, dy)
    }
}

/// Both ends of a segment belong to it.
pub proof fn law_ends_are_on_the_line(x0: int, y0: int, x1: int, y1: int)
    ensures
        on_line(x0, y0, x1, y1, x0, y0),
        on_line(x0, y0, x1, y1, x1, y1),
{
    let dx = distance(x1 - x0);
    let dy = distance(y1 - y0);
    if dx >= dy && dx > 0 {
        lemma_rounded_ends(dy, dx);
    } else if dy > 0 {
        lemma_rounded_ends(dx, dy);
    }
}

/// Every pixel of a segment lies between its ends on both axes.
pub proof fn law_line_stays_between_its_ends(x0: int, y0: int, x1: int, y1: int, px: int, py: int)
    requires
        on_line(x0, y0, x1, y1, px, py),
    ensures
        x0 <= px <= x1 || x1 <= px <= x0,
        y0 <= py <= y1 || y1 <= py <= y0,
{
    let dx = distance(x1 - x0);
    let dy = distance(y1 - y0);
    if dx >= dy && dx > 0 {
        let i = if x0 < x1 {
            px - x0
        } else {
            x0 - px
        };
        lemma_rounded_bounds(i, dy, dx);
    } else if dy > 0 {
        let j = if y0 < y1 {
            py - y0
        } else {
            y0 - py
        };
        lemma_rounded_bounds(j, dx, dy);
    }
}

/// A horizontal segment has the same pixels whichever end it is drawn from.
pub proof fn law_horizontal_line_has_no_direction(x0: int, x1: int, y: int, px: int, py: int)
    ensures
        on_line(x0, y, x1, y, px, py) <==> on_line(x1, y, x0, y, px, py),
{
    let dx = distance(x1 - x0);
    if dx > 0 {
        lemma_rounded_flat(dx);
        let i = if x0 < x1 {
            px - x0
        } else {
            x0 - px
        };
        assert(2 * i * 0 + dx == dx && 2 * (dx - i) * 0 + dx == dx) by (nonlinear_arith);
    }
}

proof fn lemma_rounded_flat(run: int)
    requires
        run > 0,
    ensures
        run / (2 * run) == 0,
{
    vstd::arithmetic::div_mod::lemma_basic_div(run, 2 * run);
}

/// `rounded` is the whole number within half of the exact value, or exactly half above it.
proof fn lemma_rounded_is_nearest(k: int, rise: int, run: int)
    requires
        run > 0,
    ensures
        2 * run * rounded(k, rise, run) <= 2 * k * rise + run,
        2 * k * rise + run < 2 * run * (rounded(k, rise, run) + 1),
{
    let a = 2 * k * rise + run;
    let r = rounded(k, rise, run);
    vstd::arithmetic::div_mod::lemma_fundamental_div_mod(a, 2 * run);
    vstd::arithmetic::div_mod::lemma_mod_bound(a, 2 * run);
    assert(2 * run * (r + 1) == 2 * run * r + 2 * run) by (nonlinear_arith);
}

/// The whole number within half of the exact value is `rounded`.
proof fn lemma_nearest_is_rounded(k: int, rise: int, run: int, r: int)
    requires
        run > 0,
        2 * run * r <= 2 * k * rise + run < 2 * run * (r + 1),
    ensures
        r == rounded(k, rise, run),
{
    lemma_rounded_is_nearest(k, rise, run);
    let q = rounded(k, rise, run);
    if q < r {
        assert(2 * run * (q + 1) <= 2 * run * r) by (nonlinear_arith)
            requires
                q + 1 <= r,
                run > 0,
        ;
    }
    if r < q {
        assert(2 * run * (r + 1) <= 2 * run * q) by (nonlinear_arith)
            requires
                r + 1 <= q,
                run > 0,
        ;
    }
}

proof fn lemma_rounded_ends(rise: int, run: int)
    requires
        0 <= rise <= run,
        0 < run,
    ensures
        rounded(0, rise, run) == 0,
        rounded(run, rise, run) == rise,
{
    assert(2 * 0 * rise == 0) by (nonlinear_arith);
    lemma_nearest_is_rounded(0, rise, run, 0);
    assert(2 * run * rise <= 2 * run * rise + run < 2 * run * (rise + 1)) by (nonlinear_arith)
        requires
            run > 0,
    ;
    lemma_nearest_is_rounded(run, rise, run, rise);
}

proof fn lemma_rounded_bounds(k: int, rise: int, run: int)
    requires
        0 <= rise <= run,
        0 < run,
        0 <= k <= run,
    ensures
        0 <= rounded(k, rise, run) <= rise,
{
    lemma_rounded_is_nearest(k, rise, run);
    let q = rounded(k, rise, run);
    assert(q >= 0) by (nonlinear_arith)
        requires
            2 * k * rise + run < 2 * run * (q + 1),
            0 <= k,
            0 <= rise,
            0 < run,
    ;
    assert(q <= rise) by (nonlinear_arith)
        requires
            2 * run * q <= 2 * k * rise + run,
            k <= run,
            0 <= rise,
            0 < run,
    ;
}

/// What is on a framebuffer after a segment was drawn over `before` in `color`.
pub open spec fn drawn(before: Raster, after: Raster, x0: int, y0: int, x1: int, y1: int, color: Color) -> bool {
    &&& after.wf()
    &&& after.same_shape(before)
    &&& forall|px: int, py: int|
        #![trigger after.pixel(px, py)]
        before.contains(px, py) ==> after.pixel(px, py) == if on_line(x0, y0, x1, y1, px, py) {
            color
        } else {
            before.pixel(px, py)
        }
}

/// The pixel that the walk from `(x0, y0)` to `(x1, y1)` reaches after `n` steps.
spec fn step_pixel(x0: int, y0: int, x1: int, y1: int, n: int) -> (int, int) {
    let dx = distance(x1 - x0);
    let dy = distance(y1 - y0);
    let (i, j) = if dx >= dy {
        (n, rounded(n, dy, dx))
    } else {
        (rounded(n, dx, dy), n)
    };
    (
        if x0 < x1 {
            x0 + i
        } else {
            x0 - i
        },
        if y0 < y1 {
            y0 + j
        } else {
            y0 - j
        },
    )
}

/// Whether `(px, py)` is among the first `n` pixels of the walk.
spec fn walked(x0: int, y0: int, x1: int, y1: int, n: int, px: int, py: int) -> bool {
    exists|k: int| 0 <= k < n && #[trigger] step_pixel(x0, y0, x1, y1, k) == (px, py)
}

/// What is on a framebuffer when the first `n` pixels of the walk have been drawn.
spec fn partly_drawn(
    before: Raster,
    after: Raster,
    x0: int,
    y0: int,
    x1: int,
    y1: int,
    color: Color,
    n: int,
) -> bool {
    &&& after.wf()
    &&& after.same_shape(before)
    &&& forall|px: int, py: int|
        #![trigger after.pixel(px, py)]
        before.contains(px, py) ==> after.pixel(px, py) == if walked(x0, y0, x1, y1, n, px, py) {
            color
        } else {
            before.pixel(px, py)
        }
}

/// The pixels of the whole walk are the pixels of the segment.
proof fn lemma_walk_covers_line(x0: int, y0: int, x1: int, y1: int, px: int, py: int)
    requires
        x0 != x1 || y0 != y1,
    ensures
        on_line(x0, y0, x1, y1, px, py) <==> walked(
            x0,
            y0,
            x1,
            y1,
            1 + if distance(x1 - x0) >= distance(y1 - y0) {
                distance(x1 - x0)
            } else {
                distance(y1 - y0)
            },
            px,
            py,
        ),
{
    let dx = distance(x1 - x0);
    let dy = distance(y1 - y0);
    let k = if dx >= dy {
        distance(px - x0)
    } else {
        distance(py - y0)
    };
    if on_line(x0, y0, x1, y1, px, py) {
        assert(step_pixel(x0, y0, x1, y1, k) == (px, py));
    }
}

/// One pixel more: the frame after writing the walk's next pixel, where it is in bounds.
proof fn lemma_one_more_pixel(
    before: Raster,
    mid: Raster,
    after: Raster,
    x0: int,
    y0: int,
    x1: int,
    y1: int,
    color: Color,
    n: int,
)
    requires
        before.wf(),
        0 <= n,
        partly_drawn(before, mid, x0, y0, x1, y1, color, n),
        ({
            let (x, y) = step_pixel(x0, y0, x1, y1, n);
            if mid.contains(x, y) {
                after == mid.with_pixel(x, y, color)
            } else {
                after == mid
            }
        }),
    ensures
        partly_drawn(before, after, x0, y0, x1, y1, color, n + 1),
{
    let (x, y) = step_pixel(x0, y0, x1, y1, n);
    if mid.contains(x, y) {
        lemma_index_in_plane(x, y, mid.width as int, mid.height as int);
    }
    assert forall|px: int, py: int|
        #![trigger after.pixel(px, py)]
        before.contains(px, py) implies after.pixel(px, py) == if walked(
        x0,
        y0,
        x1,
        y1,
        n + 1,
        px,
        py,
    ) {
        color
    } else {
        before.pixel(px, py)
    } by {
        let w = before.width as int;
        lemma_index_in_plane(px, py, w, before.height as int);
        assert(mid.pixel(px, py) == mid.color[py * w + px]);
        if mid.contains(x, y) {
            lemma_index_in_plane(x, y, w, before.height as int);
            lemma_index_is_injective(px, py, x, y, w);
        }
        if (x, y) == (px, py) {
            assert(step_pixel(x0, y0, x1, y1, n) == (px, py));
        }
        if walked(x0, y0, x1, y1, n + 1, px, py) {
            let k = choose|k: int|
                0 <= k < n + 1 && #[trigger] step_pixel(x0, y0, x1, y1, k) == (px, py);
            if k < n {
                assert(0 <= k < n && step_pixel(x0, y0, x1, y1, k) == (px, py));
            }
        }
    }
}

/// The walk's decision on its longer axis: always step.
/// Its decision across: step exactly where the rounded position moves on.
proof fn lemma_walk_step(n: int, rise: int, run: int)
    requires
        0 <= rise <= run,
        0 < run,
        0 <= n < run,
    ensures
        ({
            let j = rounded(n, rise, run);
            let err = run * (j + 1) - rise * (n + 1);
            &&& 2 * err >= -rise
            &&& rounded(n + 1, rise, run) == if 2 * err <= run {
                j + 1
            } else {
                j
            }
        }),
{
    let j = rounded(n, rise, run);
    let err = run * (j + 1) - rise * (n + 1);
    lemma_rounded_is_nearest(n, rise, run);
    assert(2 * run * (j + 1) == 2 * (run * (j + 1))) by (nonlinear_arith);
    assert(2 * n * rise == 2 * (rise * n)) by (nonlinear_arith);
    assert(rise * (n + 1) == rise * n + rise) by (nonlinear_arith);
    assert(2 * (n + 1) * rise == 2 * (rise * n) + 2 * rise) by (nonlinear_arith);
    assert(2 * run * (j + 2) == 2 * (run * (j + 1)) + 2 * run) by (nonlinear_arith);
    assert(2 * run * j == 2 * (run * (j + 1)) - 2 * run) by (nonlinear_arith);
    if 2 * err <= run {
        lemma_nearest_is_rounded(n + 1, rise, run, j + 1);
    } else {
        lemma_nearest_is_rounded(n + 1, rise, run, j);
    }
}

/// Draws the line segment from `(x0, y0)` to `(x1, y1)` into `fb`, setting each covered in-bounds
/// pixel to `color`.
///
/// Coordinates are signed pixel positions and may lie outside the framebuffer: the segment is
/// clipped by skipping out-of-bounds pixels. Depth is ignored: every plotted pixel is written
/// unconditionally.
pub fn draw_line(fb: &mut Framebuffer, x0: i32, y0: i32, x1: i32, y1: i32, color: Color)
    requires
        old(fb).wf(),
        old(fb)@.width <= i32::MAX,
        old(fb)@.height <= i32::MAX,
    ensures
        drawn(old(fb)@, final(fb)@, x0 as int, y0 as int, x1 as int, y1 as int, color),
{
    let ghost before = fb@;
    let w: i64 = fb.width() as i64;
    let h: i64 = fb.height() as i64;
    let ax: i64 = x0 as i64;
    let ay: i64 = y0 as i64;
    let bx: i64 = x1 as i64;
    let by: i64 = y1 as i64;
    if w == 0 || h == 0 {
        return;
    }
    // Both ends strictly beyond the same edge: the whole segment is off-screen.
    if (ax < 0 && bx < 0) || (ax >= w && bx >= w) || (ay < 0 && by < 0) || (ay >= h && by >= h) {
        proof {
            assert forall|px: int, py: int| before.contains(px, py) implies !on_line(
                ax as int,
                ay as int,
                bx as int,
                by as int,
                px,
                py,
            ) by {
                if on_line(ax as int, ay as int, bx as int, by as int, px, py) {
                    law_line_stays_between_its_ends(
                        ax as int,
                        ay as int,
                        bx as int,
                        by as int,
                        px,
                        py,
                    );
                }
            }
        }
        return;
    }
    let mut x: i64 = ax;
    let mut y: i64 = ay;
    let dx: i64 = if ax < bx {
        bx - ax
    } else {
        ax - bx
    };
    let dy: i64 = if ay < by {
        ay - by
    } else {
        by - ay
    };
    let sx: i64 = if ax < bx {
        1
    } else {
        -1
    };
    let sy: i64 = if ay < by {
        1
    } else {
        -1
    };
    let mut err: i64 = dx + dy;
    let ghost run = if dx >= -dy {
        dx as int
    } else {
        -(dy as int)
    };
    let ghost rise = if dx >= -dy {
        -(dy as int)
    } else {
        dx as int
    };
    let ghost mut n: int = 0;
    proof {
        if run > 0 {
            lemma_rounded_ends(rise, run);
        }
    }
    if dx == 0 && dy == 0 {
        if x >= 0 && x < w && y >= 0 && y < h {
            fb.set(x as usize, y as usize, color);
        }
        proof {
            assert forall|px: int, py: int|
                #![trigger fb@.pixel(px, py)]
                before.contains(px, py) implies fb@.pixel(px, py) == if on_line(
                ax as int,
                ay as int,
                bx as int,
                by as int,
                px,
                py,
            ) {
                color
            } else {
                before.pixel(px, py)
            } by {
                let wd = before.width as int;
                lemma_index_in_plane(px, py, wd, before.height as int);
                if before.contains(x as int, y as int) {
                    lemma_index_in_plane(x as int, y as int, wd, before.height as int);
                    lemma_index_is_injective(px, py, x as int, y as int, wd);
                }
            }
        }
        return;
    }
    proof {
        let j: int = 0;
        assert(run * (j + 1) - rise * (n + 1) == run - rise) by (nonlinear_arith)
            requires
                j == 0,
                n == 0,
        ;
    }
    loop
        invariant_except_break
            partly_drawn(
                before,
                fb@,
                ax as int,
                ay as int,
                bx as int,
                by as int,
                color,
                n,
            ),
        invariant
            before == old(fb)@,
            before.wf(),
            w == before.width,
            h == before.height,
            w <= i32::MAX,
            h <= i32::MAX,
            ax == x0,
            ay == y0,
            bx == x1,
            by == y1,
            ax != bx || ay != by,
            dx == distance(bx - ax),
            -dy == distance(by - ay),
            sx == (if ax < bx {
                1int
            } else {
                -1
            }),
            sy == (if ay < by {
                1int
            } else {
                -1
            }),
            run == (if dx >= -dy {
                dx as int
            } else {
                -(dy as int)
            }),
            rise == (if dx >= -dy {
                -(dy as int)
            } else {
                dx as int
            }),
            run > 0,
            rise >= 0,
            0 <= n <= run,
            (x as int, y as int) == step_pixel(ax as int, ay as int, bx as int, by as int, n),
            err == (if dx >= -dy {
                run * (rounded(n, rise, run) + 1) - rise * (n + 1)
            } else {
                rise * (n + 1) - run * (rounded(n, rise, run) + 1)
            }),
        ensures
            n == run,
            partly_drawn(
                before,
                fb@,
                ax as int,
                ay as int,
                bx as int,
                by as int,
                color,
                n + 1,
            ),
        decreases run - n,
    {
        let ghost mid = fb@;
        if x >= 0 && x < w && y >= 0 && y < h {
            fb.set(x as usize, y as usize, color);
        }
        proof {
            lemma_one_more_pixel(
                before,
                mid,
                fb@,
                ax as int,
                ay as int,
                bx as int,
                by as int,
                color,
                n,
            );
            lemma_rounded_ends(rise, run);
            lemma_rounded_bounds(n, rise, run);
        }
        if x == bx && y == by {
            break;
        }
        proof {
            lemma_walk_step(n, rise, run);
            lemma_walk_bounds(n, rise, run);
            lemma_rounded_bounds(n + 1, rise, run);
            let j = rounded(n, rise, run);
            assert(run * (j + 2) == run * (j + 1) + run) by (nonlinear_arith);
            assert(rise * (n + 2) == rise * (n + 1) + rise) by (nonlinear_arith);
        }
        let e2: i64 = 2 * err;
        if e2 >= dy {
            err = err + dy;
            x = x + sx;
        }
        if e2 <= dx {
            err = err + dx;
            y = y + sy;
        }
        proof {
            n = n + 1;
        }
    }
    proof {
        assert forall|px: int, py: int|
            #![trigger fb@.pixel(px, py)]
            before.contains(px, py) implies fb@.pixel(px, py) == if on_line(
            ax as int,
            ay as int,
            bx as int,
            by as int,
            px,
            py,
        ) {
            color
        } else {
            before.pixel(px, py)
        } by {
            lemma_walk_covers_line(ax as int, ay as int, bx as int, by as int, px, py);
        }
    }
}

/// How far the walk's error strays from zero.
proof fn lemma_walk_bounds(n: int, rise: int, run: int)
    requires
        0 <= rise <= run,
        0 < run,
        0 <= n < run,
    ensures
        ({
            let j = rounded(n, rise, run);
            let err = run * (j + 1) - rise * (n + 1);
            -run <= err <= 2 * run
        }),
{
    let j = rounded(n, rise, run);
    lemma_rounded_is_nearest(n, rise, run);
    assert(2 * run * (j + 1) == 2 * (run * (j + 1))) by (nonlinear_arith);
    assert(2 * run * j == 2 * (run * (j + 1)) - 2 * run) by (nonlinear_arith);
    assert(2 * n * rise == 2 * (rise * n)) by (nonlinear_arith);
    assert(rise * (n + 1) == rise * n + rise) by (nonlinear_arith);
}

/// Every pixel of a segment is the nearest to the exact line on its column, or on its row where the
/// segment is steep; where two are equally near, it is the one further from the first end.
pub proof fn law_pixels_hug_the_exact_line(x0: int, y0: int, x1: int, y1: int, px: int, py: int)
    requires
        on_line(x0, y0, x1, y1, px, py),
    ensures
        ({
            let (dx, dy) = (distance(x1 - x0), distance(y1 - y0));
            let (i, j) = (distance(px - x0), distance(py - y0));
            &&& dx >= dy ==> 2 * dx * j - dx <= 2 * i * dy && (dx > 0 ==> 2 * i * dy < 2 * dx * j
                + dx)
            &&& dx < dy ==> 2 * dy * i - dy <= 2 * j * dx && 2 * j * dx < 2 * dy * i + dy
        }),
{
    let (dx, dy) = (distance(x1 - x0), distance(y1 - y0));
    let (i, j) = (distance(px - x0), distance(py - y0));
    law_line_stays_between_its_ends(x0, y0, x1, y1, px, py);
    if dx >= dy && dx > 0 {
        lemma_rounded_is_nearest(i, dy, dx);
        assert(2 * dx * (j + 1) == 2 * dx * j + 2 * dx) by (nonlinear_arith);
    } else if dx < dy {
        lemma_rounded_is_nearest(j, dx, dy);
        assert(2 * dy * (i + 1) == 2 * dy * i + 2 * dy) by (nonlinear_arith);
    } else {
        assert(2 * 0 * j == 0 && 2 * i * 0 == 0) by (nonlinear_arith);
    }
}

/// A segment has no gaps and no doubles: on each column between its ends it has exactly one pixel, or on
/// each row where it is steep.
pub proof fn law_line_has_one_pixel_per_step(x0: int, y0: int, x1: int, y1: int, at: int)
    ensures
        distance(x1 - x0) >= distance(y1 - y0) && (x0 <= at <= x1 || x1 <= at <= x0) ==> exists|py: int|
            #[trigger] on_line(x0, y0, x1, y1, at, py),
        distance(x1 - x0) < distance(y1 - y0) && (y0 <= at <= y1 || y1 <= at <= y0) ==> exists|px: int|
            #[trigger] on_line(x0, y0, x1, y1, px, at),
        forall|py: int, qy: int| #[trigger]
            on_line(x0, y0, x1, y1, at, py) && #[trigger] on_line(x0, y0, x1, y1, at, qy)
                && distance(x1 - x0) >= distance(y1 - y0) ==> py == qy,
        forall|px: int, qx: int| #[trigger]
            on_line(x0, y0, x1, y1, px, at) && #[trigger] on_line(x0, y0, x1, y1, qx, at)
                && distance(x1 - x0) < distance(y1 - y0) ==> px == qx,
{
    let (dx, dy) = (distance(x1 - x0), distance(y1 - y0));
    if dx >= dy && (x0 <= at <= x1 || x1 <= at <= x0) {
        let i = distance(at - x0);
        let j = if dx == 0 {
            0
        } else {
            rounded(i, dy, dx)
        };
        let py = if y0 < y1 {
            y0 + j
        } else {
            y0 - j
        };
        assert(on_line(x0, y0, x1, y1, at, py));
    }
    if dx < dy && (y0 <= at <= y1 || y1 <= at <= y0) {
        let j = distance(at - y0);
        let px = if x0 < x1 {
            x0 + rounded(j, dx, dy)
        } else {
            x0 - rounded(j, dx, dy)
        };
        assert(on_line(x0, y0, x1, y1, px, at));
    }
}

/// A drawn segment colors the pixels of both its ends, as far as they are inside, and nothing outside the
/// box that they span.
pub proof fn law_drawn_line_joins_its_ends(
    before: Raster,
    after: Raster,
    x0: int,
    y0: int,
    x1: int,
    y1: int,
    color: Color,
)
    requires
        drawn(before, after, x0, y0, x1, y1, color),
    ensures
        before.contains(x0, y0) ==> after.color[y0 * before.width + x0] == color,
        before.contains(x1, y1) ==> after.color[y1 * before.width + x1] == color,
        forall|px: int, py: int|
            #![trigger before.color[py * before.width + px]]
            before.contains(px, py) && ((px < x0 && px < x1) || (px > x0 && px > x1) || (py < y0 && py
                < y1) || (py > y0 && py > y1)) ==> after.color[py * before.width + px]
                == before.color[py * before.width + px],
        after.depth == before.depth,
{
    law_ends_are_on_the_line(x0, y0, x1, y1);
    assert(before.contains(x0, y0) ==> after.pixel(x0, y0) == color);
    assert(before.contains(x1, y1) ==> after.pixel(x1, y1) == color);
    assert forall|px: int, py: int|
        #![trigger before.color[py * before.width + px]]
        before.contains(px, py) && ((px < x0 && px < x1) || (px > x0 && px > x1) || (py < y0 && py
            < y1) || (py > y0 && py > y1)) implies after.color[py * before.width + px]
        == before.color[py * before.width + px] by {
        if on_line(x0, y0, x1, y1, px, py) {
            law_line_stays_between_its_ends(x0, y0, x1, y1, px, py);
        }
        assert(after.pixel(px, py) == before.pixel(px, py));
    }
}

} // verus!
