//! The frame buffer and the drawing operations on it.

use vstd::prelude::*;

use crate::component::mesh::triangle_in_range;
use crate::raster::{
    abs,
    between,
    bresenham_pixels,
    edge_value,
    in_triangle,
    index_of,
    lemma_index_in_frame,
    lemma_index_unique,
    line_from,
    max3,
    max3_exec,
    min3,
    min3_exec,
    point,
    step_toward,
};

verus! {

/// The byte that a channel value is stored as: values outside `0..=255` become 0.
pub open spec fn channel(v: int) -> int {
    if 0 <= v <= 255 {
        v
    } else {
        0
    }
}

/// The packed value of a colour: red in the low byte, green in the next, blue in the third.
pub open spec fn packed(r: int, g: int, b: int) -> int {
    channel(r) + channel(g) * 256 + channel(b) * 65536
}

/// A colour packed into one 32-bit word, red in the low byte.
#[derive(Debug, PartialEq, Eq, Structural, Clone, Copy)]
pub struct Color(u32);

impl View for Color {
    type V = u32;

    closed spec fn view(&self) -> u32 {
        self.0
    }
}

fn channel_byte(v: i64) -> (r: u32)
    ensures
        r == channel(v as int),
        r < 256,
{
    if 0 <= v && v <= 255 {
        v as u32
    } else {
        0
    }
}

impl Color {
    /// Packs three channels; a channel outside `0..=255` is stored as 0.
    pub fn new(r: i64, g: i64, b: i64) -> (c: Color)
        ensures
            c@ == packed(r as int, g as int, b as int),
    {
        let r = channel_byte(r);
        let g = channel_byte(g);
        let b = channel_byte(b);
        assert((r | (g << 8u32) | (b << 16u32)) == r + g * 256 + b * 65536) by (bit_vector)
            requires
                r < 256u32,
                g < 256u32,
                b < 256u32,
        ;
        Color(r | (g << 8u32) | (b << 16u32))
    }

    /// The packed 32-bit value.
    pub fn rgb_u32(&self) -> (r: u32)
        ensures
            r == self@,
    {
        self.0
    }
}

/// The packed colour of the `k`-th triangle of a mesh; the palette repeats every eight.
pub open spec fn palette(k: int) -> int {
    let i = k % 8;
    if i == 0 {
        packed(255, 255, 255)
    } else if i == 1 {
        packed(0, 0, 255)
    } else if i == 2 {
        packed(255, 0, 0)
    } else if i == 3 {
        packed(0, 0, 255)
    } else if i == 4 {
        packed(0, 255, 255)
    } else if i == 5 {
        packed(255, 0, 255)
    } else if i == 6 {
        packed(255, 255, 0)
    } else {
        packed(100, 100, 100)
    }
}

fn palette_color(k: usize) -> (c: Color)
    ensures
        c@ == palette(k as int),
{
    let i = k % 8;
    if i == 0 {
        Color::new(255, 255, 255)
    } else if i == 1 {
        Color::new(0, 0, 255)
    } else if i == 2 {
        Color::new(255, 0, 0)
    } else if i == 3 {
        Color::new(0, 0, 255)
    } else if i == 4 {
        Color::new(0, 255, 255)
    } else if i == 5 {
        Color::new(255, 0, 255)
    } else if i == 6 {
        Color::new(255, 255, 0)
    } else {
        Color::new(100, 100, 100)
    }
}

/// Pixel `p` lies inside a `w` by `h` frame.
pub open spec fn on_frame(w: int, h: int, p: (isize, isize)) -> bool {
    0 <= p.0 < w && 0 <= p.1 < h
}

/// All three corners of triangle `t`, looked up in `screen`, lie inside a `w` by `h` frame.
pub open spec fn corners_on_frame(w: int, h: int, screen: Seq<(isize, isize)>, t: [usize; 3]) -> bool {
    &&& on_frame(w, h, screen[t[0] as int])
    &&& on_frame(w, h, screen[t[1] as int])
    &&& on_frame(w, h, screen[t[2] as int])
}

/// The fill of triangle `t`, with corners looked up in `screen`, covers `(x, y)`.
pub open spec fn mesh_triangle_covers(screen: Seq<(isize, isize)>, t: [usize; 3], x: int, y: int) -> bool {
    in_triangle(
        point(screen[t[0] as int]),
        point(screen[t[1] as int]),
        point(screen[t[2] as int]),
        x,
        y,
    )
}

/// The value of pixel `(x, y)`, first `prior`, after the first `n` triangles of `tris` are
/// painted over it in order, each in its palette colour; a triangle with a corner outside
/// the `w` by `h` frame is left out.
pub open spec fn mesh_pixel(
    prior: u32,
    w: int,
    h: int,
    screen: Seq<(isize, isize)>,
    tris: Seq<[usize; 3]>,
    n: int,
    x: int,
    y: int,
) -> u32
    decreases n,
{
    if n <= 0 {
        prior
    } else {
        let t = tris[n - 1];
        if corners_on_frame(w, h, screen, t) && mesh_triangle_covers(screen, t, x, y) {
            palette(n - 1) as u32
        } else {
            mesh_pixel(prior, w, h, screen, tris, n - 1, x, y)
        }
    }
}

/// How a frame's pixels are laid out for a presentation surface.
#[derive(Debug, PartialEq, Eq, Structural, Clone, Copy)]
pub enum PixelFormat {
    /// Four bytes per pixel, the packed value in little-endian order: red, green, blue, 0.
    PackedU32LowRedHighBlue,
    /// Four bytes per pixel: blue, green, red, 0 (the little-endian bytes of `0x00RRGGBB`).
    PackedU32LowBlueHighRed,
    /// Three bytes per pixel: red, green, blue.
    Rgb24Triples,
}

/// Bytes per pixel in `format`.
pub open spec fn stride(format: PixelFormat) -> int {
    match format {
        PixelFormat::Rgb24Triples => 3,
        _ => 4,
    }
}

/// Byte `c` of a stored pixel value `v` laid out in `format`; the byte above the three
/// channels is the value's high byte.
pub open spec fn pixel_byte(format: PixelFormat, v: u32, c: int) -> int {
    let red = v % 256;
    let green = (v / 256) % 256;
    let blue = (v / 65536) % 256;
    let high = v / 16777216;
    match format {
        PixelFormat::PackedU32LowRedHighBlue => if c == 0 {
            red as int
        } else if c == 1 {
            green as int
        } else if c == 2 {
            blue as int
        } else {
            high as int
        },
        PixelFormat::PackedU32LowBlueHighRed => if c == 0 {
            blue as int
        } else if c == 1 {
            green as int
        } else if c == 2 {
            red as int
        } else {
            high as int
        },
        PixelFormat::Rgb24Triples => if c == 0 {
            red as int
        } else if c == 1 {
            green as int
        } else {
            blue as int
        },
    }
}

/// Owns the frame's pixel buffer, `width * height` packed colours stored row by row.
pub struct Renderer {
    width: usize,
    height: usize,
    tmp_buffer: Vec<u32>,
}

impl Renderer {
    /// Number of pixels in a row.
    pub closed spec fn frame_width(&self) -> nat {
        self.width as nat
    }

    /// Number of rows.
    pub closed spec fn frame_height(&self) -> nat {
        self.height as nat
    }

    /// The buffer's contents.
    pub closed spec fn pixels(&self) -> Seq<u32> {
        self.tmp_buffer@
    }

    /// The buffer holds one value per pixel, and a buffer of `u32` of that size can exist.
    pub open spec fn wf(&self) -> bool {
        &&& self.pixels().len() == self.frame_width() * self.frame_height()
        &&& self.frame_width() * self.frame_height() * 4 <= isize::MAX
    }

    /// The colour value stored for pixel `(x, y)`.
    pub open spec fn pixel(&self, x: int, y: int) -> u32 {
        self.pixels()[index_of(x, y, self.frame_width() as int)]
    }

    /// Pixel `(x, y)` lies inside the frame.
    pub open spec fn in_frame(&self, x: int, y: int) -> bool {
        0 <= x < self.frame_width() && 0 <= y < self.frame_height()
    }

    /// A black frame of `width` by `height` pixels.
    pub fn new(width: usize, height: usize) -> (r: Renderer)
        requires
            width * height * 4 <= isize::MAX,
        ensures
            r.wf(),
            r.frame_width() == width,
            r.frame_height() == height,
            r.pixels() == Seq::new((width * height) as nat, |i: int| 0u32),
    {
        let tmp_buffer = vec![0u32; width * height];
        let r = Renderer { width, height, tmp_buffer };
        assert(r.pixels() =~= Seq::new((width * height) as nat, |i: int| 0u32));
        r
    }

    pub fn width(&self) -> (r: usize)
        ensures
            r == self.frame_width(),
    {
        self.width
    }

    pub fn height(&self) -> (r: usize)
        ensures
            r == self.frame_height(),
    {
        self.height
    }

    /// The pixel buffer, row by row.
    pub fn buffer(&self) -> (r: &Vec<u32>)
        ensures
            r@ == self.pixels(),
    {
        &self.tmp_buffer
    }

    /// Sets every pixel to 0.
    pub fn clear_tmp_buffer(&mut self)
        requires
            old(self).wf(),
        ensures
            final(self).wf(),
            final(self).frame_width() == old(self).frame_width(),
            final(self).frame_height() == old(self).frame_height(),
            final(self).pixels() == Seq::new(old(self).pixels().len(), |i: int| 0u32),
    {
        let n = self.tmp_buffer.len();
        let mut i: usize = 0;
        while i < n
            invariant
                n == self.tmp_buffer.len(),
                self.width == old(self).width,
                self.height == old(self).height,
                n == old(self).tmp_buffer.len(),
                0 <= i <= n,
                forall|k: int| 0 <= k < i ==> self.tmp_buffer@[k] == 0u32,
            decreases n - i,
        {
            self.tmp_buffer.set(i, 0);
            i = i + 1;
        }
        assert(self.pixels() =~= Seq::new(old(self).pixels().len(), |i: int| 0u32));
    }

    /// Stores `color` at pixel `(x, y)`.
    pub fn plot_pixel(&mut self, x: usize, y: usize, color: Color)
        requires
            old(self).wf(),
            old(self).in_frame(x as int, y as int),
        ensures
            final(self).wf(),
            final(self).frame_width() == old(self).frame_width(),
            final(self).frame_height() == old(self).frame_height(),
            final(self).pixels() == old(self).pixels().update(
                index_of(x as int, y as int, old(self).frame_width() as int),
                color@,
            ),
            forall|px: int, py: int|
                old(self).in_frame(px, py) ==> #[trigger] final(self).pixel(px, py) == if px == x
                    && py == y {
                    color@
                } else {
                    old(self).pixel(px, py)
                },
    {
        proof {
            lemma_index_in_frame(x as int, y as int, self.width as int, self.height as int);
        }
        let i = x + y * self.width;
        self.tmp_buffer.set(i, color.rgb_u32());
        proof {
            let w = self.width as int;
            assert forall|px: int, py: int| old(self).in_frame(px, py) implies #[trigger] self.pixel(
                px,
                py,
            ) == if px == x && py == y {
                color@
            } else {
                old(self).pixel(px, py)
            } by {
                lemma_index_in_frame(px, py, w, self.height as int);
                if index_of(px, py, w) == i {
                    lemma_index_unique(px, py, x as int, y as int, w);
                }
            }
        }
    }

    /// Draws the Bresenham line from `(x0, y0)` to `(end_x, end_y)`, both ends included.
    pub fn bresenham_line(&mut self, color: Color, x0: isize, y0: isize, end_x: isize, end_y: isize)
        requires
            old(self).wf(),
            old(self).in_frame(x0 as int, y0 as int),
            old(self).in_frame(end_x as int, end_y as int),
        ensures
            final(self).wf(),
            final(self).frame_width() == old(self).frame_width(),
            final(self).frame_height() == old(self).frame_height(),
            forall|px: int, py: int|
                old(self).in_frame(px, py) ==> #[trigger] final(self).pixel(px, py) == if bresenham_pixels(
                    x0 as int,
                    y0 as int,
                    end_x as int,
                    end_y as int,
                ).contains((px, py)) {
                    color@
                } else {
                    old(self).pixel(px, py)
                },
    {
        let ghost w = self.width as int;
        let ghost h = self.height as int;
        proof {
            assert(w <= w * h && h <= w * h) by (nonlinear_arith)
                requires
                    w >= 1,
                    h >= 1,
            ;
        }
        let mut curr_x = x0;
        let mut curr_y = y0;
        let dx: isize = if end_x >= curr_x {
            end_x - curr_x
        } else {
            curr_x - end_x
        };
        let dy: isize = if end_y >= curr_y {
            curr_y - end_y
        } else {
            end_y - curr_y
        };
        let mut error: isize = dx + dy;
        let sx: isize = if curr_x < end_x {
            1
        } else {
            -1
        };
        let sy: isize = if curr_y < end_y {
            1
        } else {
            -1
        };
        let ghost full = bresenham_pixels(x0 as int, y0 as int, end_x as int, end_y as int);
        let ghost mut done: Seq<(int, int)> = seq![];
        loop
            invariant_except_break
                done + line_from(
                    curr_x as int,
                    curr_y as int,
                    end_x as int,
                    end_y as int,
                    dx as int,
                    dy as int,
                    error as int,
                ) == full,
                forall|px: int, py: int|
                    old(self).in_frame(px, py) ==> #[trigger] self.pixel(px, py) == if done.contains(
                        (px, py),
                    ) {
                        color@
                    } else {
                        old(self).pixel(px, py)
                    },
            invariant
                self.wf(),
                self.frame_width() == w,
                self.frame_height() == h,
                old(self).frame_width() == w,
                old(self).frame_height() == h,
                4 * w <= isize::MAX,
                4 * h <= isize::MAX,
                old(self).in_frame(x0 as int, y0 as int),
                old(self).in_frame(end_x as int, end_y as int),
                dx == abs(end_x - x0),
                dy == -abs(end_y - y0),
                sx == step_toward(x0 as int, end_x as int),
                sy == step_toward(y0 as int, end_y as int),
                between(curr_x as int, x0 as int, end_x as int),
                between(curr_y as int, y0 as int, end_y as int),
                2 * dy <= error <= 2 * dx,
            ensures
                forall|px: int, py: int|
                    old(self).in_frame(px, py) ==> #[trigger] self.pixel(px, py) == if full.contains(
                        (px, py),
                    ) {
                        color@
                    } else {
                        old(self).pixel(px, py)
                    },
            decreases abs(end_x - curr_x) + abs(end_y - curr_y),
        {
            let ghost rest = line_from(
                curr_x as int,
                curr_y as int,
                end_x as int,
                end_y as int,
                dx as int,
                dy as int,
                error as int,
            );
            let ghost cur = (curr_x as int, curr_y as int);
            let ghost prev = done;
            self.plot_pixel(curr_x as usize, curr_y as usize, color);
            proof {
                done = done.push(cur);
                assert forall|px: int, py: int| old(self).in_frame(px, py) implies #[trigger] self.pixel(
                    px,
                    py,
                ) == if done.contains((px, py)) {
                    color@
                } else {
                    old(self).pixel(px, py)
                } by {
                    if px == cur.0 && py == cur.1 {
                        assert(done[done.len() - 1] == (px, py));
                    } else if prev.contains((px, py)) {
                        let k = choose|k: int| 0 <= k < prev.len() && prev[k] == (px, py);
                        assert(done[k] == (px, py));
                    } else {
                        assert forall|k: int| 0 <= k < done.len() implies done[k] != (px, py) by {
                            if k < prev.len() {
                                assert(done[k] == prev[k]);
                            }
                        }
                    }
                }
            }
            if curr_x == end_x && curr_y == end_y {
                assert(done =~= full);
                break ;
            }
            let e2 = error * 2;
            if e2 >= dy {
                if curr_x == end_x {
                    assert(done =~= full);
                    break ;
                }
                error += dy;
                curr_x += sx;
            }
            if e2 <= dx {
                if curr_y == end_y {
                    assert(done =~= full);
                    break ;
                }
                error += dx;
                curr_y += sy;
            }
            proof {
                let next = line_from(
                    curr_x as int,
                    curr_y as int,
                    end_x as int,
                    end_y as int,
                    dx as int,
                    dy as int,
                    error as int,
                );
                assert(rest == seq![cur] + next);
                assert(prev + rest =~= done + next);
            }
        }
    }

    /// Fills the triangle whose pixel-space corners are the three points of `triangle_tuple`:
    /// every pixel of the bounding box where all three edge functions are non-negative.
    pub fn draw_triangles(&mut self, triangle_tuple: Vec<(isize, isize)>, color: Color)
        requires
            old(self).wf(),
            triangle_tuple.len() == 3,
            forall|k: int|
                0 <= k < 3 ==> old(self).in_frame(
                    #[trigger] triangle_tuple@[k].0 as int,
                    triangle_tuple@[k].1 as int,
                ),
        ensures
            final(self).wf(),
            final(self).frame_width() == old(self).frame_width(),
            final(self).frame_height() == old(self).frame_height(),
            forall|px: int, py: int|
                old(self).in_frame(px, py) ==> #[trigger] final(self).pixel(px, py) == if in_triangle(
                    point(triangle_tuple@[0]),
                    point(triangle_tuple@[1]),
                    point(triangle_tuple@[2]),
                    px,
                    py,
                ) {
                    color@
                } else {
                    old(self).pixel(px, py)
                },
    {
        let a = triangle_tuple[0];
        let b = triangle_tuple[1];
        let c = triangle_tuple[2];
        assert(old(self).in_frame(a.0 as int, a.1 as int));
        assert(old(self).in_frame(b.0 as int, b.1 as int));
        assert(old(self).in_frame(c.0 as int, c.1 as int));
        let ghost pa = point(a);
        let ghost pb = point(b);
        let ghost pc = point(c);
        let min_x = min3_exec(a.0, b.0, c.0);
        let max_x = max3_exec(a.0, b.0, c.0);
        let min_y = min3_exec(a.1, b.1, c.1);
        let max_y = max3_exec(a.1, b.1, c.1);
        let w = self.width;
        let h = self.height;
        proof {
            assert(w <= w * h && h <= w * h) by (nonlinear_arith)
                requires
                    w >= 1,
                    h >= 1,
            ;
        }
        let mut px = min_x;
        while px <= max_x
            invariant
                self.wf(),
                self.frame_width() == w,
                self.frame_height() == h,
                old(self).frame_width() == w,
                old(self).frame_height() == h,
                self.width == w,
                self.height == h,
                w * h * 4 <= isize::MAX,
                w <= w * h,
                h <= w * h,
                old(self).in_frame(a.0 as int, a.1 as int),
                old(self).in_frame(b.0 as int, b.1 as int),
                old(self).in_frame(c.0 as int, c.1 as int),
                pa == point(a),
                pb == point(b),
                pc == point(c),
                min_x == min3(pa.0, pb.0, pc.0),
                max_x == max3(pa.0, pb.0, pc.0),
                min_y == min3(pa.1, pb.1, pc.1),
                max_y == max3(pa.1, pb.1, pc.1),
                min_x <= px <= max_x + 1,
                forall|qx: int, qy: int|
                    old(self).in_frame(qx, qy) ==> #[trigger] self.pixel(qx, qy) == if qx < px
                        && in_triangle(pa, pb, pc, qx, qy) {
                        color@
                    } else {
                        old(self).pixel(qx, qy)
                    },
            decreases max_x + 1 - px,
        {
            let mut py = min_y;
            while py <= max_y
                invariant
                    self.wf(),
                    self.frame_width() == w,
                    self.frame_height() == h,
                    old(self).frame_width() == w,
                    old(self).frame_height() == h,
                    self.width == w,
                    self.height == h,
                    w * h * 4 <= isize::MAX,
                    w <= w * h,
                    h <= w * h,
                    old(self).in_frame(a.0 as int, a.1 as int),
                    old(self).in_frame(b.0 as int, b.1 as int),
                    old(self).in_frame(c.0 as int, c.1 as int),
                    pa == point(a),
                    pb == point(b),
                    pc == point(c),
                    min_x == min3(pa.0, pb.0, pc.0),
                    max_x == max3(pa.0, pb.0, pc.0),
                    min_y == min3(pa.1, pb.1, pc.1),
                    max_y == max3(pa.1, pb.1, pc.1),
                    min_x <= px <= max_x,
                    min_y <= py <= max_y + 1,
                    forall|qx: int, qy: int|
                        old(self).in_frame(qx, qy) ==> #[trigger] self.pixel(qx, qy) == if (qx < px
                            || (qx == px && qy < py)) && in_triangle(pa, pb, pc, qx, qy) {
                            color@
                        } else {
                            old(self).pixel(qx, qy)
                        },
                decreases max_y + 1 - py,
            {
                let inside = edge_value(w, h, a, b, px, py) >= 0 && edge_value(w, h, b, c, px, py)
                    >= 0 && edge_value(w, h, c, a, px, py) >= 0;
                if inside {
                    self.plot_pixel(px as usize, py as usize, color);
                }
                py += 1;
            }
            px += 1;
        }
    }

    fn on_frame_exec(&self, p: (isize, isize)) -> (r: bool)
        ensures
            r == on_frame(self.frame_width() as int, self.frame_height() as int, p),
    {
        0 <= p.0 && (p.0 as usize) < self.width && 0 <= p.1 && (p.1 as usize) < self.height
    }

    /// Paints the triangles of a mesh in order, the `k`-th in palette colour `k`, from the
    /// pixel coordinates `screen` of its vertices; a triangle with a corner outside the frame
    /// is skipped.
    pub fn draw_mesh(&mut self, screen: &Vec<(isize, isize)>, triangles: &Vec<[usize; 3]>)
        requires
            old(self).wf(),
            forall|k: int|
                0 <= k < triangles.len() ==> triangle_in_range(
                    #[trigger] triangles@[k],
                    screen.len() as int,
                ),
        ensures
            final(self).wf(),
            final(self).frame_width() == old(self).frame_width(),
            final(self).frame_height() == old(self).frame_height(),
            forall|px: int, py: int|
                old(self).in_frame(px, py) ==> #[trigger] final(self).pixel(px, py) == mesh_pixel(
                    old(self).pixel(px, py),
                    old(self).frame_width() as int,
                    old(self).frame_height() as int,
                    screen@,
                    triangles@,
                    triangles.len() as int,
                    px,
                    py,
                ),
    {
        let ghost w = self.frame_width() as int;
        let ghost h = self.frame_height() as int;
        let mut k: usize = 0;
        while k < triangles.len()
            invariant
                self.wf(),
                self.frame_width() == w,
                self.frame_height() == h,
                old(self).frame_width() == w,
                old(self).frame_height() == h,
                0 <= k <= triangles.len(),
                forall|j: int|
                    0 <= j < triangles.len() ==> triangle_in_range(
                        #[trigger] triangles@[j],
                        screen.len() as int,
                    ),
                forall|px: int, py: int|
                    old(self).in_frame(px, py) ==> #[trigger] self.pixel(px, py) == mesh_pixel(
                        old(self).pixel(px, py),
                        w,
                        h,
                        screen@,
                        triangles@,
                        k as int,
                        px,
                        py,
                    ),
            decreases triangles.len() - k,
        {
            let t = triangles[k];
            assert(triangle_in_range(triangles@[k as int], screen.len() as int));
            let p0 = screen[t[0]];
            let p1 = screen[t[1]];
            let p2 = screen[t[2]];
            if self.on_frame_exec(p0) && self.on_frame_exec(p1) && self.on_frame_exec(p2) {
                let corners = vec![p0, p1, p2];
                let ghost before = *self;
                self.draw_triangles(corners, palette_color(k));
                assert forall|px: int, py: int| old(self).in_frame(px, py) implies #[trigger] self.pixel(
                    px,
                    py,
                ) == mesh_pixel(
                    old(self).pixel(px, py),
                    w,
                    h,
                    screen@,
                    triangles@,
                    k + 1,
                    px,
                    py,
                ) by {
                    assert(before.in_frame(px, py));
                }
            }
            k += 1;
        }
    }

    /// The frame's pixels, row by row, as bytes laid out in `format`.
    pub fn frame_bytes(&self, format: PixelFormat) -> (r: Vec<u8>)
        requires
            self.wf(),
        ensures
            r@.len() == self.pixels().len() * stride(format),
            forall|j: int, c: int|
                0 <= j < self.pixels().len() && 0 <= c < stride(format) ==> r@[j * stride(format)
                    + c] == #[trigger] pixel_byte(format, self.pixels()[j], c),
    {
        let n = self.tmp_buffer.len();
        let per_pixel: usize = match format {
            PixelFormat::Rgb24Triples => 3,
            _ => 4,
        };
        let ghost st = stride(format);
        proof {
            assert(n * 4 <= isize::MAX) by (nonlinear_arith)
                requires
                    n == self.frame_width() * self.frame_height(),
                    self.frame_width() * self.frame_height() * 4 <= isize::MAX,
            ;
        }
        let mut out: Vec<u8> = Vec::new();
        let mut j: usize = 0;
        while j < n
            invariant
                n == self.tmp_buffer.len(),
                n * 4 <= isize::MAX,
                per_pixel == st,
                st == stride(format),
                3 <= st <= 4,
                0 <= j <= n,
                out@.len() == j * st,
                forall|i: int, c: int|
                    0 <= i < j && 0 <= c < st ==> out@[i * st + c] == #[trigger] pixel_byte(
                        format,
                        self.tmp_buffer@[i],
                        c,
                    ),
            decreases n - j,
        {
            let v = self.tmp_buffer[j];
            let red = (v % 256) as u8;
            let green = ((v / 256) % 256) as u8;
            let blue = ((v / 65536) % 256) as u8;
            let high = (v / 16777216) as u8;
            let ghost before = out@;
            proof {
                assert(j * st + st <= n * 4) by (nonlinear_arith)
                    requires
                        j < n,
                        3 <= st <= 4,
                ;
            }
            match format {
                PixelFormat::PackedU32LowRedHighBlue => {
                    out.push(red);
                    out.push(green);
                    out.push(blue);
                    out.push(high);
                },
                PixelFormat::PackedU32LowBlueHighRed => {
                    out.push(blue);
                    out.push(green);
                    out.push(red);
                    out.push(high);
                },
                PixelFormat::Rgb24Triples => {
                    out.push(red);
                    out.push(green);
                    out.push(blue);
                },
            }
            proof {
                assert((j + 1) * st == j * st + st) by (nonlinear_arith);
                assert forall|i: int, c: int| 0 <= i < j + 1 && 0 <= c < st implies out@[i * st
                    + c] == #[trigger] pixel_byte(format, self.tmp_buffer@[i], c) by {
                    if i < j {
                        assert(i * st + c < j * st) by (nonlinear_arith)
                            requires
                                0 <= i < j,
                                0 <= c < st,
                        ;
                        assert(out@[i * st + c] == before[i * st + c]);
                    } else {
                        assert(i * st == j * st);
                    }
                }
            }
            j += 1;
        }
        out
    }
}

} // verus!
