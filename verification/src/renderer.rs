//! Drawing straight lines into an image.
//!
//! A line is drawn one pixel per column, or one per row where it runs more
//! along the rows than along the columns, each pixel the one nearest to the
//! exact line.

use vstd::prelude::*;
use crate::arith::lemma_mul_add;
use crate::color::Color;
use crate::geometry::Vec2i;
use crate::image::Image;
use crate::raster::Raster;

verus! {

/// The distance of a number from zero.
pub open spec fn magnitude(v: int) -> int {
    if v < 0 {
        -v
    } else {
        v
    }
}

/// Whether the line between two points runs more along the rows than
/// along the columns. Such a line is drawn with the roles of x and y
/// exchanged.
pub open spec fn is_steep(x0: int, y0: int, x1: int, y1: int) -> bool {
    magnitude(x0 - x1) < magnitude(y0 - y1)
}

/// The two ends of a line as it is walked: with x and y exchanged if the
/// line is steep, and then ordered so that the walk goes from the smaller
/// first coordinate to the larger one.
pub open spec fn line_ends(x0: int, y0: int, x1: int, y1: int) -> (int, int, int, int) {
    let (ax, ay, bx, by) = if is_steep(x0, y0, x1, y1) {
        (y0, x0, y1, x1)
    } else {
        (x0, y0, x1, y1)
    };
    if ax > bx {
        (bx, by, ax, ay)
    } else {
        (ax, ay, bx, by)
    }
}

/// Whether `m` is `k * rise / run` rounded to the nearest whole number, a
/// half rounded down: the least `m` that is not negative and for which
/// `2 * k * rise - 2 * run * m <= run`.
pub open spec fn rounded_step(k: int, rise: int, run: int, m: int) -> bool {
    &&& m >= 0
    &&& 2 * (k * rise) - 2 * (run * m) <= run
    &&& (m == 0 || 2 * (k * rise) - 2 * (run * (m - 1)) > run)
}

/// Whether `(x, y)` is a point of the walk from `(ax, ay)` to `(bx, by)`,
/// where `ax <= bx` and the walk is no steeper than a diagonal: one point
/// for each `x` from `ax` to `bx`, its `y` moved from `ay` towards `by` by
/// the rounded share of the rise.
pub open spec fn on_shallow_line(ax: int, ay: int, bx: int, by: int, x: int, y: int) -> bool {
    let m = if by > ay {
        y - ay
    } else {
        ay - y
    };
    ax <= x <= bx && rounded_step(x - ax, magnitude(by - ay), bx - ax, m)
}

/// Whether the pixel `(x, y)` belongs to the line between `(x0, y0)` and
/// `(x1, y1)`.
pub open spec fn on_line(x0: int, y0: int, x1: int, y1: int, x: int, y: int) -> bool {
    let (ax, ay, bx, by) = line_ends(x0, y0, x1, y1);
    if is_steep(x0, y0, x1, y1) {
        on_shallow_line(ax, ay, bx, by, y, x)
    } else {
        on_shallow_line(ax, ay, bx, by, x, y)
    }
}

/// The image with the line between `(x0, y0)` and `(x1, y1)` drawn in a
/// colour: every pixel of the line that lies inside the image has the bytes
/// of the colour, and every other pixel is as it was. A colour of another
/// format than the image's draws nothing.
pub open spec fn with_line(r: Raster, x0: int, y0: int, x1: int, y1: int, color: Seq<u8>) -> Raster {
    if color.len() != r.bytes_pp {
        r
    } else {
        Raster {
            data: Seq::new(
                r.data.len(),
                |i: int|
                    if on_line(x0, y0, x1, y1, r.byte_x(i), r.byte_y(i)) {
                        color[r.byte_t(i)]
                    } else {
                        r.data[i]
                    },
            ),
            ..r
        }
    }
}

/// The image with one point drawn, if the point lies inside the image and
/// the colour has the image's format.
pub open spec fn with_point(r: Raster, x: int, y: int, color: Seq<u8>) -> Raster {
    if r.in_bounds(x, y) && color.len() == r.bytes_pp {
        r.with_pixel(x, y, color)
    } else {
        r
    }
}

/// How far drawing has come: the points of the walk before column `x` are
/// drawn, and every other pixel is as it was.
spec fn drawing(
    initial: Raster,
    cur: Raster,
    ends: (int, int, int, int),
    steep: bool,
    x: int,
    color: Seq<u8>,
) -> bool {
    forall|px: int, py: int|
        initial.in_bounds(px, py) ==> #[trigger] cur.pixel_at(px, py) == if color.len()
            == initial.bytes_pp && (if steep {
            py
        } else {
            px
        }) < x && on_shallow_line(
            ends.0,
            ends.1,
            ends.2,
            ends.3,
            if steep {
                py
            } else {
                px
            },
            if steep {
                px
            } else {
                py
            },
        ) {
            color
        } else {
            initial.pixel_at(px, py)
        }
}

/// There is one rounded step for each column.
pub proof fn lemma_rounded_step_unique(k: int, rise: int, run: int, m1: int, m2: int)
    requires
        run >= 0,
        rounded_step(k, rise, run, m1),
        rounded_step(k, rise, run, m2),
    ensures
        m1 == m2,
{
    if m1 < m2 {
        assert(run * m1 <= run * (m2 - 1)) by (nonlinear_arith)
            requires
                run >= 0,
                m1 <= m2 - 1,
        ;
    }
    if m2 < m1 {
        assert(run * m2 <= run * (m1 - 1)) by (nonlinear_arith)
            requires
                run >= 0,
                m2 <= m1 - 1,
        ;
    }
}

/// The image whose pixels on the line hold the colour, and whose other
/// pixels are those of this image, is this image with the line drawn.
pub proof fn lemma_with_line_by_pixels(
    r: Raster,
    other: Raster,
    x0: int,
    y0: int,
    x1: int,
    y1: int,
    color: Seq<u8>,
)
    requires
        r.wf(),
        other.wf(),
        r.width == other.width,
        r.height == other.height,
        r.bytes_pp == other.bytes_pp,
        color.len() == r.bytes_pp,
        forall|x: int, y: int|
            r.in_bounds(x, y) ==> #[trigger] other.pixel_at(x, y) == if on_line(
                x0,
                y0,
                x1,
                y1,
                x,
                y,
            ) {
                color
            } else {
                r.pixel_at(x, y)
            },
    ensures
        other == with_line(r, x0, y0, x1, y1, color),
{
    let drawn = with_line(r, x0, y0, x1, y1, color);
    assert forall|i: int| 0 <= i < other.data.len() implies other.data[i] == drawn.data[i] by {
        let x = r.byte_x(i);
        let y = r.byte_y(i);
        let t = r.byte_t(i);
        r.lemma_byte_in_pixel(i);
        r.lemma_pixel_in_data(x, y);
        other.lemma_pixel_in_data(x, y);
        assert(other.pixel_at(x, y)[t] == other.data[other.byte_index(x, y, t)]);
        assert(r.pixel_at(x, y)[t] == r.data[r.byte_index(x, y, t)]);
    }
    assert(other.data =~= drawn.data);
}

/// The smaller of two numbers.
pub open spec fn least(a: int, b: int) -> int {
    if a < b {
        a
    } else {
        b
    }
}

/// The larger of two numbers.
pub open spec fn greatest(a: int, b: int) -> int {
    if a > b {
        a
    } else {
        b
    }
}

/// The least coordinate of three points along one axis, kept between 0 and
/// the last coordinate `limit` of the image.
pub open spec fn box_start(limit: int, a: int, b: int, c: int) -> int {
    greatest(0, least(limit, least(a, least(b, c))))
}

/// The greatest coordinate of three points along one axis, kept between 0
/// and the last coordinate `limit` of the image.
pub open spec fn box_end(limit: int, a: int, b: int, c: int) -> int {
    least(limit, greatest(0, greatest(a, greatest(b, c))))
}

fn smaller(a: i128, b: i128) -> (m: i128)
    ensures
        m == least(a as int, b as int),
{
    if a < b {
        a
    } else {
        b
    }
}

fn larger(a: i128, b: i128) -> (m: i128)
    ensures
        m == greatest(a as int, b as int),
{
    if a > b {
        a
    } else {
        b
    }
}

/// The box of pixels of an image of the given size that a triangle can
/// touch: the first and the last column, and the first and the last row, of
/// the three points, each kept inside the image. For a triangle that lies
/// beside the image the box is the nearest edge column or row.
pub fn bounding_box(width: usize, height: usize, points: [Vec2i; 3]) -> (bbox: (Vec2i, Vec2i))
    ensures
        bbox.0@ == seq![
            box_start(width - 1, points@[0]@[0] as int, points@[1]@[0] as int, points@[2]@[0] as int)
                as isize,
            box_start(height - 1, points@[0]@[1] as int, points@[1]@[1] as int, points@[2]@[1] as int)
                as isize,
        ],
        bbox.1@ == seq![
            box_end(width - 1, points@[0]@[0] as int, points@[1]@[0] as int, points@[2]@[0] as int)
                as isize,
            box_end(height - 1, points@[0]@[1] as int, points@[1]@[1] as int, points@[2]@[1] as int)
                as isize,
        ],
        0 <= bbox.0@[0] && bbox.1@[0] < width,
        0 <= bbox.0@[1] && bbox.1@[1] < height,
{
    let a = points[0].into_array();
    let b = points[1].into_array();
    let c = points[2].into_array();
    let clamp_x = width as i128 - 1;
    let clamp_y = height as i128 - 1;
    let lowest_x = smaller(a[0] as i128, smaller(b[0] as i128, c[0] as i128));
    let lowest_y = smaller(a[1] as i128, smaller(b[1] as i128, c[1] as i128));
    let highest_x = larger(a[0] as i128, larger(b[0] as i128, c[0] as i128));
    let highest_y = larger(a[1] as i128, larger(b[1] as i128, c[1] as i128));
    let bboxmin = Vec2i::new2(
        larger(0, smaller(clamp_x, lowest_x)) as isize,
        larger(0, smaller(clamp_y, lowest_y)) as isize,
    );
    let bboxmax = Vec2i::new2(
        smaller(clamp_x, larger(0, highest_x)) as isize,
        smaller(clamp_y, larger(0, highest_y)) as isize,
    );
    (bboxmin, bboxmax)
}

/// Draws one point, if it lies inside the image.
fn plot(image: &mut Image, x: i128, y: i128, color: Color)
    requires
        old(image)@.wf(),
    ensures
        final(image)@ == with_point(old(image)@, x as int, y as int, color@),
        final(image)@.wf(),
{
    if 0 <= x && x < image.width() as i128 && 0 <= y && y < image.height() as i128 {
        image.set(x as usize, y as usize, color);
    }
}

/// Something that lines can be drawn into.
pub trait Draw {
    /// The value that is drawn into.
    spec fn raster(&self) -> Raster;

    /// Draws the line between two points in a colour.
    fn draw_line(&mut self, p0: Vec2i, p1: Vec2i, color: Color)
        requires
            old(self).raster().wf(),
        ensures
            final(self).raster() == with_line(
                old(self).raster(),
                p0@[0] as int,
                p0@[1] as int,
                p1@[0] as int,
                p1@[1] as int,
                color@,
            ),
            final(self).raster().wf(),
    ;
}

impl Draw for Image {
    open spec fn raster(&self) -> Raster {
        self@
    }

    fn draw_line(&mut self, p0: Vec2i, p1: Vec2i, color: Color) {
        line_vec(p0, p1, self, color);
    }
}

/// Draws the line between the points `p0` and `p1` into the image.
pub fn line_vec(p0: Vec2i, p1: Vec2i, image: &mut Image, color: Color)
    requires
        old(image)@.wf(),
    ensures
        final(image)@ == with_line(
            old(image)@,
            p0@[0] as int,
            p0@[1] as int,
            p1@[0] as int,
            p1@[1] as int,
            color@,
        ),
        final(image)@.wf(),
{
    let a = p0.into_array();
    let b = p1.into_array();
    line(a[0], a[1], b[0], b[1], image, color);
}

/// Draws the line between `(x0, y0)` and `(x1, y1)` into the image.
///
/// The line has one pixel for each column between its ends, or one for
/// each row if it is steep, and that pixel is the nearest one to the exact
/// line. Pixels of the line outside the image are left out, and a colour of
/// another format than the image's draws nothing.
pub fn line(x0: isize, y0: isize, x1: isize, y1: isize, image: &mut Image, color: Color)
    requires
        old(image)@.wf(),
    ensures
        final(image)@ == with_line(
            old(image)@,
            x0 as int,
            y0 as int,
            x1 as int,
            y1 as int,
            color@,
        ),
        final(image)@.wf(),
{
    let ghost initial = image@;
    let ghost ends = line_ends(x0 as int, y0 as int, x1 as int, y1 as int);
    let mut ax = x0 as i128;
    let mut ay = y0 as i128;
    let mut bx = x1 as i128;
    let mut by = y1 as i128;
    let across = if ax < bx {
        bx - ax
    } else {
        ax - bx
    };
    let along = if ay < by {
        by - ay
    } else {
        ay - by
    };
    let steep = across < along;
    if steep {
        let (tx, ty) = (ax, bx);
        ax = ay;
        bx = by;
        ay = tx;
        by = ty;
    }
    if ax > bx {
        let (tx, ty) = (ax, ay);
        ax = bx;
        ay = by;
        bx = tx;
        by = ty;
    }
    assert(ends == (ax as int, ay as int, bx as int, by as int));
    let dx = bx - ax;
    let rise = if by > ay {
        by - ay
    } else {
        ay - by
    };
    let derror = rise * 2;
    let mut error: i128 = 0;
    let mut y = ay;
    let mut x = ax;
    let ghost mut m: int = 0;
    let ghost mut k_rise: int = 0;
    let ghost mut run_m: int = 0;
    proof {
        assert(0 * (rise as int) == 0) by (nonlinear_arith);
        assert((dx as int) * 0 == 0) by (nonlinear_arith);
    }
    while x <= bx
        invariant
            initial.wf(),
            image@.wf(),
            image@.width == initial.width,
            image@.height == initial.height,
            image@.bytes_pp == initial.bytes_pp,
            ends == (ax as int, ay as int, bx as int, by as int),
            isize::MIN <= ax <= bx <= isize::MAX,
            isize::MIN <= ay <= isize::MAX,
            isize::MIN <= by <= isize::MAX,
            dx == bx - ax,
            rise == magnitude(by - ay),
            0 <= rise <= dx,
            derror == rise * 2,
            ax <= x <= bx + 1,
            0 <= m <= x - ax,
            y == (if by > ay {
                ay + m
            } else {
                ay - m
            }),
            k_rise == (x - ax) * rise,
            run_m == dx * m,
            error == 2 * k_rise - 2 * run_m,
            rounded_step(x - ax, rise as int, dx as int, m),
            drawing(initial, image@, ends, steep, x as int, color@),
        decreases bx + 1 - x,
    {
        let ghost before = image@;
        if steep {
            plot(image, y, x, color);
        } else {
            plot(image, x, y, color);
        }
        proof {
            let px0 = if steep {
                y as int
            } else {
                x as int
            };
            let py0 = if steep {
                x as int
            } else {
                y as int
            };
            if before.in_bounds(px0, py0) && color@.len() == before.bytes_pp {
                before.lemma_with_pixel(px0, py0, color@);
            }
            assert forall|px: int, py: int| initial.in_bounds(px, py) implies #[trigger] image@.pixel_at(
                px,
                py,
            ) == if color@.len() == initial.bytes_pp && (if steep {
                py
            } else {
                px
            }) < x + 1 && on_shallow_line(
                ends.0,
                ends.1,
                ends.2,
                ends.3,
                if steep {
                    py
                } else {
                    px
                },
                if steep {
                    px
                } else {
                    py
                },
            ) {
                color@
            } else {
                initial.pixel_at(px, py)
            } by {
                let col = if steep {
                    py
                } else {
                    px
                };
                let row = if steep {
                    px
                } else {
                    py
                };
                assert(before.pixel_at(px, py) == if color@.len() == initial.bytes_pp && col < x
                    && on_shallow_line(ends.0, ends.1, ends.2, ends.3, col, row) {
                    color@
                } else {
                    initial.pixel_at(px, py)
                });
                if col == x {
                    let m_row = if by > ay {
                        row - ay
                    } else {
                        ay - row
                    };
                    if on_shallow_line(ends.0, ends.1, ends.2, ends.3, col, row) {
                        lemma_rounded_step_unique(x - ax, rise as int, dx as int, m, m_row);
                        assert(row == y);
                    }
                    if row == y {
                        assert(on_shallow_line(ends.0, ends.1, ends.2, ends.3, col, row));
                    }
                }
            }
        }
        error += derror;
        proof {
            lemma_mul_add(x - ax, 1, rise as int);
            k_rise = k_rise + rise;
        }
        if error > dx {
            if by > ay {
                y += 1
            } else {
                y -= 1
            };
            error -= dx * 2;
            proof {
                assert((dx as int) * (m + 1) == dx * m + dx) by (nonlinear_arith);
                m = m + 1;
                run_m = run_m + dx;
            }
        } else {
            proof {
                assert((dx as int) * (m - 1) == dx * m - dx) by (nonlinear_arith);
            }
        }
        x += 1;
    }
    proof {
        assert forall|px: int, py: int| initial.in_bounds(px, py) && color@.len()
            == initial.bytes_pp implies #[trigger] image@.pixel_at(px, py) == if on_line(
            x0 as int,
            y0 as int,
            x1 as int,
            y1 as int,
            px,
            py,
        ) {
            color@
        } else {
            initial.pixel_at(px, py)
        } by {}
        if color@.len() == initial.bytes_pp {
            lemma_with_line_by_pixels(
                initial,
                image@,
                x0 as int,
                y0 as int,
                x1 as int,
                y1 as int,
                color@,
            );
        } else {
            initial.lemma_equal_by_pixels(image@);
        }
    }
}

} // verus!
