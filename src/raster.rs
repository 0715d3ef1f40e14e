//! The mathematics of rasterization: pixel offsets in a row-major buffer, the pixels of an
//! integer Bresenham line, and the edge-function test of a filled triangle.

use vstd::prelude::*;

verus! {

/// Offset of pixel `(x, y)` in a row-major buffer whose rows are `w` pixels long.
pub open spec fn index_of(x: int, y: int, w: int) -> int {
    x + y * w
}

pub(crate) proof fn lemma_index_in_frame(x: int, y: int, w: int, h: int)
    requires
        0 <= x < w,
        0 <= y < h,
    ensures
        0 <= index_of(x, y, w) < w * h,
{
    assert(0 <= y * w <= (h - 1) * w) by (nonlinear_arith)
        requires
            0 <= y <= h - 1,
            0 < w,
    ;
    assert((h - 1) * w == h * w - w) by (nonlinear_arith);
    assert(h * w == w * h) by (nonlinear_arith);
}

pub(crate) proof fn lemma_index_unique(x: int, y: int, x2: int, y2: int, w: int)
    requires
        0 <= x < w,
        0 <= x2 < w,
        index_of(x, y, w) == index_of(x2, y2, w),
    ensures
        x == x2,
        y == y2,
{
    assert((y - y2) * w == y * w - y2 * w) by (nonlinear_arith);
    if y > y2 {
        assert((y - y2) * w >= w) by (nonlinear_arith)
            requires
                y - y2 >= 1,
                w > 0,
        ;
    } else if y < y2 {
        assert((y2 - y) * w >= w) by (nonlinear_arith)
            requires
                y2 - y >= 1,
                w > 0,
        ;
        assert((y2 - y) * w == y2 * w - y * w) by (nonlinear_arith);
    }
}

/// Absolute value.
pub open spec fn abs(v: int) -> int {
    if v < 0 {
        -v
    } else {
        v
    }
}

/// The unit step from `from` toward `to` (`-1` when they are equal).
pub open spec fn step_toward(from: int, to: int) -> int {
    if from < to {
        1
    } else {
        -1
    }
}

/// The pixels that integer Bresenham plots from the state `(x, y, err)` toward `(ex, ey)`,
/// with `dx = |ex - x0|` and `dy = -|ey - y0|` fixed by the line's start `(x0, y0)`.
pub open spec fn line_from(x: int, y: int, ex: int, ey: int, dx: int, dy: int, err: int) -> Seq<
    (int, int),
>
    decreases abs(ex - x) + abs(ey - y),
{
    let e2 = 2 * err;
    let step_x = e2 >= dy;
    let step_y = e2 <= dx;
    if x == ex && y == ey {
        seq![(x, y)]
    } else if (step_x && x == ex) || (!step_x && !step_y) {
        seq![(x, y)]
    } else if step_y && y == ey {
        seq![(x, y)]
    } else {
        let nx = if step_x {
            x + step_toward(x, ex)
        } else {
            x
        };
        let ny = if step_y {
            y + step_toward(y, ey)
        } else {
            y
        };
        let e1 = if step_x {
            err + dy
        } else {
            err
        };
        let e = if step_y {
            e1 + dx
        } else {
            e1
        };
        seq![(x, y)] + line_from(nx, ny, ex, ey, dx, dy, e)
    }
}

/// The pixels of the Bresenham line from `(x0, y0)` to `(x1, y1)`, in the order plotted.
pub open spec fn bresenham_pixels(x0: int, y0: int, x1: int, y1: int) -> Seq<(int, int)> {
    let dx = abs(x1 - x0);
    let dy = -abs(y1 - y0);
    line_from(x0, y0, x1, y1, dx, dy, dx + dy)
}

/// Whether `v` lies between `a` and `b`, both included.
pub open spec fn between(v: int, a: int, b: int) -> bool {
    (a <= v <= b) || (b <= v <= a)
}

proof fn lemma_line_from_ends(x: int, y: int, ex: int, ey: int, a: int, b: int, e: int)
    requires
        0 <= abs(ex - x) <= a,
        0 <= abs(ey - y) <= b,
        e == a - b + abs(ex - x) * b - abs(ey - y) * a,
    ensures
        ({
            let line = line_from(x, y, ex, ey, a, -b, e);
            &&& line.len() > 0
            &&& line[0] == (x, y)
            &&& line.last() == (ex, ey)
            &&& forall|k: int|
                0 <= k < line.len() ==> between((#[trigger] line[k]).0, x, ex) && between(
                    line[k].1,
                    y,
                    ey,
                )
        }),
    decreases abs(ex - x) + abs(ey - y),
{
    let rx = abs(ex - x);
    let ry = abs(ey - y);
    let line = line_from(x, y, ex, ey, a, -b, e);
    let e2 = 2 * e;
    let step_x = e2 >= -b;
    let step_y = e2 <= a;
    if x == ex && y == ey {
        return;
    }
    // Neither early stop can happen away from the end point.
    if rx == 0 {
        assert(rx * b == 0) by (nonlinear_arith)
            requires
                rx == 0,
        ;
        assert(ry >= 1);
        assert(ry * a >= a) by (nonlinear_arith)
            requires
                ry >= 1,
                a >= 0,
        ;
        assert(!step_x);
    }
    if ry == 0 {
        assert(ry * a == 0) by (nonlinear_arith)
            requires
                ry == 0,
        ;
        assert(rx >= 1);
        assert(rx * b >= b) by (nonlinear_arith)
            requires
                rx >= 1,
                b >= 0,
        ;
        assert(!step_y);
    }
    let nx = if step_x {
        x + step_toward(x, ex)
    } else {
        x
    };
    let ny = if step_y {
        y + step_toward(y, ey)
    } else {
        y
    };
    let e1 = if step_x {
        e - b
    } else {
        e
    };
    let en = if step_y {
        e1 + a
    } else {
        e1
    };
    let rx2 = abs(ex - nx);
    let ry2 = abs(ey - ny);
    if step_x {
        assert(rx2 == rx - 1);
        assert((rx - 1) * b == rx * b - b) by (nonlinear_arith);
    } else {
        assert(rx2 == rx);
    }
    if step_y {
        assert(ry2 == ry - 1);
        assert((ry - 1) * a == ry * a - a) by (nonlinear_arith);
    } else {
        assert(ry2 == ry);
    }
    assert(en == a - b + rx2 * b - ry2 * a);
    lemma_line_from_ends(nx, ny, ex, ey, a, b, en);
    let rest = line_from(nx, ny, ex, ey, a, -b, en);
    assert(line == seq![(x, y)] + rest);
    assert forall|k: int| 0 <= k < line.len() implies between((#[trigger] line[k]).0, x, ex) && between(
        line[k].1,
        y,
        ey,
    ) by {
        if k > 0 {
            assert(line[k] == rest[k - 1]);
        }
    }
}

/// The Bresenham line from `(x0, y0)` to `(x1, y1)` starts at `(x0, y0)`, ends at `(x1, y1)`,
/// and keeps within the bounding box of the two.
pub proof fn lemma_bresenham_endpoints(x0: int, y0: int, x1: int, y1: int)
    ensures
        ({
            let line = bresenham_pixels(x0, y0, x1, y1);
            &&& line.len() > 0
            &&& line[0] == (x0, y0)
            &&& line.last() == (x1, y1)
            &&& line.contains((x0, y0))
            &&& line.contains((x1, y1))
            &&& forall|k: int|
                0 <= k < line.len() ==> between((#[trigger] line[k]).0, x0, x1) && between(
                    line[k].1,
                    y0,
                    y1,
                )
        }),
{
    let a = abs(x1 - x0);
    let b = abs(y1 - y0);
    assert(a * b == b * a) by (nonlinear_arith);
    lemma_line_from_ends(x0, y0, x1, y1, a, b, a - b);
    let line = bresenham_pixels(x0, y0, x1, y1);
    assert(line[0] == (x0, y0));
    assert(line[line.len() - 1] == (x1, y1));
}

/// The integer point of a pixel coordinate pair.
pub open spec fn point(p: (isize, isize)) -> (int, int) {
    (p.0 as int, p.1 as int)
}

/// The edge function of the directed edge `a -> b` at `(x, y)`: zero on the edge's line,
/// positive on its left when `y` grows downward.
pub open spec fn edge(a: (int, int), b: (int, int), x: int, y: int) -> int {
    (y - a.1) * (b.0 - a.0) - (x - a.0) * (b.1 - a.1)
}

pub open spec fn min3(a: int, b: int, c: int) -> int {
    if a <= b && a <= c {
        a
    } else if b <= c {
        b
    } else {
        c
    }
}

pub open spec fn max3(a: int, b: int, c: int) -> int {
    if a >= b && a >= c {
        a
    } else if b >= c {
        b
    } else {
        c
    }
}

/// Whether the fill of triangle `a, b, c` covers pixel `(x, y)`: the pixel lies in the
/// triangle's bounding box (edges included) and no edge function is negative there.
pub open spec fn in_triangle(a: (int, int), b: (int, int), c: (int, int), x: int, y: int) -> bool {
    &&& min3(a.0, b.0, c.0) <= x <= max3(a.0, b.0, c.0)
    &&& min3(a.1, b.1, c.1) <= y <= max3(a.1, b.1, c.1)
    &&& edge(a, b, x, y) >= 0
    &&& edge(b, c, x, y) >= 0
    &&& edge(c, a, x, y) >= 0
}

proof fn lemma_product_in_frame(a: int, b: int, h: int, w: int)
    requires
        -h < a < h,
        -w < b < w,
    ensures
        -(w * h) < a * b < w * h,
{
    if a >= 0 && b >= 0 {
        assert(a * b <= a * w) by (nonlinear_arith)
            requires
                0 <= a,
                b <= w,
        ;
        assert(a * w < h * w) by (nonlinear_arith)
            requires
                a < h,
                0 < w,
        ;
    } else if a < 0 && b < 0 {
        assert(a * b == (-a) * (-b)) by (nonlinear_arith);
        assert((-a) * (-b) <= (-a) * w) by (nonlinear_arith)
            requires
                0 <= -a,
                -b <= w,
        ;
        assert((-a) * w < h * w) by (nonlinear_arith)
            requires
                -a < h,
                0 < w,
        ;
    } else if a < 0 {
        assert(a * b == -((-a) * b)) by (nonlinear_arith);
        assert((-a) * b <= (-a) * w) by (nonlinear_arith)
            requires
                0 <= -a,
                b <= w,
        ;
        assert((-a) * w < h * w) by (nonlinear_arith)
            requires
                -a < h,
                0 < w,
        ;
    } else {
        assert(a * b == -(a * (-b))) by (nonlinear_arith);
        assert(a * (-b) <= a * w) by (nonlinear_arith)
            requires
                0 <= a,
                -b <= w,
        ;
        assert(a * w < h * w) by (nonlinear_arith)
            requires
                a < h,
                0 < w,
        ;
    }
    assert(h * w == w * h) by (nonlinear_arith);
}

/// The edge function at `(x, y)`, for points inside a `w` by `h` frame.
pub(crate) fn edge_value(w: usize, h: usize, a: (isize, isize), b: (isize, isize), x: isize, y: isize) -> (r:
    isize)
    requires
        w * h * 4 <= isize::MAX,
        0 <= a.0 < w,
        0 <= b.0 < w,
        0 <= x < w,
        0 <= a.1 < h,
        0 <= b.1 < h,
        0 <= y < h,
    ensures
        r == edge(point(a), point(b), x as int, y as int),
{
    proof {
        lemma_product_in_frame(y - a.1, b.0 - a.0, h as int, w as int);
        lemma_product_in_frame(b.1 - a.1, x - a.0, h as int, w as int);
        assert((b.1 - a.1) * (x - a.0) == (x - a.0) * (b.1 - a.1)) by (nonlinear_arith);
    }
    (y - a.1) * (b.0 - a.0) - (x - a.0) * (b.1 - a.1)
}

pub(crate) fn min3_exec(a: isize, b: isize, c: isize) -> (r: isize)
    ensures
        r == min3(a as int, b as int, c as int),
{
    if a <= b && a <= c {
        a
    } else if b <= c {
        b
    } else {
        c
    }
}

pub(crate) fn max3_exec(a: isize, b: isize, c: isize) -> (r: isize)
    ensures
        r == max3(a as int, b as int, c as int),
{
    if a >= b && a >= c {
        a
    } else if b >= c {
        b
    } else {
        c
    }
}

} // verus!
