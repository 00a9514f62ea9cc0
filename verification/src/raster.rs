//! The mathematical model of an image: its dimensions and its bytes, with
//! the pixel addressing, the effect of writing one pixel and the two flips,
//! and the facts about them that the image operations rest on.

use vstd::prelude::*;
use vstd::arithmetic::div_mod::{
    lemma_div_pos_is_pos,
    lemma_fundamental_div_mod,
    lemma_fundamental_div_mod_converse,
    lemma_mod_bound,
    lemma_multiply_divide_lt,
};
use crate::arith::{lemma_mul_add, lemma_mul_le};
use crate::rle::{lemma_pixel_bytes, pixel};

verus! {

/// An image as a value: `width` by `height` pixels of `bytes_pp` bytes each,
/// stored row by row, the pixel at `(x, y)` in the bytes from
/// `(x + y * width) * bytes_pp` on.
pub struct Raster {
    /// the number of pixels in a row
    pub width: int,
    /// the number of rows
    pub height: int,
    /// the number of bytes of one pixel
    pub bytes_pp: int,
    /// the bytes of all the pixels
    pub data: Seq<u8>,
}

impl Raster {
    /// The image has at least one pixel, a known pixel format, and exactly
    /// the bytes that its pixels take.
    pub open spec fn wf(self) -> bool {
        &&& self.width > 0
        &&& self.height > 0
        &&& (self.bytes_pp == 1 || self.bytes_pp == 3 || self.bytes_pp == 4)
        &&& self.data.len() == self.pixels() * self.bytes_pp
    }

    /// The number of pixels.
    pub open spec fn pixels(self) -> int {
        self.width * self.height
    }

    /// Whether `(x, y)` is a pixel of the image.
    pub open spec fn in_bounds(self, x: int, y: int) -> bool {
        0 <= x < self.width && 0 <= y < self.height
    }

    /// The place of the pixel `(x, y)` in row-major order.
    pub open spec fn pixel_index(self, x: int, y: int) -> int {
        x + y * self.width
    }

    /// The bytes of the pixel `(x, y)`.
    pub open spec fn pixel_at(self, x: int, y: int) -> Seq<u8> {
        pixel(self.data, self.bytes_pp, self.pixel_index(x, y))
    }

    /// The image with the bytes of the pixel `(x, y)` replaced.
    pub open spec fn with_pixel(self, x: int, y: int, bytes: Seq<u8>) -> Raster {
        let offset = self.pixel_index(x, y) * self.bytes_pp;
        Raster {
            data: self.data.subrange(0, offset) + bytes + self.data.subrange(
                offset + self.bytes_pp,
                self.data.len() as int,
            ),
            ..self
        }
    }

    /// The place in the data of byte `t` of the pixel `(x, y)`.
    pub open spec fn byte_index(self, x: int, y: int, t: int) -> int {
        self.pixel_index(x, y) * self.bytes_pp + t
    }

    /// The column of the pixel that byte `i` of the data belongs to.
    pub open spec fn byte_x(self, i: int) -> int {
        (i / self.bytes_pp) % self.width
    }

    /// The row of the pixel that byte `i` of the data belongs to.
    pub open spec fn byte_y(self, i: int) -> int {
        (i / self.bytes_pp) / self.width
    }

    /// The place of byte `i` of the data within its pixel.
    pub open spec fn byte_t(self, i: int) -> int {
        i % self.bytes_pp
    }

    /// The image with its rows in the opposite order: row `y` holds what
    /// row `height - 1 - y` held.
    pub open spec fn flipped_vertically(self) -> Raster {
        Raster {
            data: Seq::new(
                self.data.len(),
                |i: int|
                    self.data[self.byte_index(
                        self.byte_x(i),
                        self.height - 1 - self.byte_y(i),
                        self.byte_t(i),
                    )],
            ),
            ..self
        }
    }

    /// The image with its columns in the opposite order: column `x` holds
    /// what column `width - 1 - x` held.
    pub open spec fn flipped_horizontally(self) -> Raster {
        Raster {
            data: Seq::new(
                self.data.len(),
                |i: int|
                    self.data[self.byte_index(
                        self.width - 1 - self.byte_x(i),
                        self.byte_y(i),
                        self.byte_t(i),
                    )],
            ),
            ..self
        }
    }

    /// The image with every byte zero.
    pub open spec fn cleared(self) -> Raster {
        Raster { data: Seq::new(self.data.len(), |i: int| 0u8), ..self }
    }

    /// The blank image of the given dimensions: every byte zero.
    pub open spec fn blank(width: int, height: int, bytes_pp: int) -> Raster {
        Raster {
            width,
            height,
            bytes_pp,
            data: Seq::new((width * height * bytes_pp) as nat, |i: int| 0u8),
        }
    }

    /// A pixel inside the image has its place among the pixels, and its
    /// bytes lie inside the data.
    pub proof fn lemma_pixel_in_data(self, x: int, y: int)
        requires
            self.wf(),
            self.in_bounds(x, y),
        ensures
            0 <= y * self.width,
            0 <= self.pixel_index(x, y) < self.pixels(),
            self.pixel_index(x, y) <= self.pixel_index(x, y) * self.bytes_pp,
            self.pixel_index(x, y) * self.bytes_pp + self.bytes_pp <= self.data.len(),
            (self.pixel_index(x, y) + 1) * self.bytes_pp == self.pixel_index(x, y) * self.bytes_pp
                + self.bytes_pp,
            self.pixel_at(x, y).len() == self.bytes_pp,
            forall|t: int|
                0 <= t < self.bytes_pp ==> #[trigger] self.pixel_at(x, y)[t] == self.data[self.byte_index(
                    x,
                    y,
                    t,
                )],
    {
        lemma_mul_le(0, y, self.width);
        lemma_mul_le(y, self.height - 1, self.width);
        lemma_mul_add(self.height - 1, 1, self.width);
        assert(self.height * self.width == self.width * self.height) by (nonlinear_arith);
        lemma_pixel_bytes(self.data, self.bytes_pp, self.pixels(), self.pixel_index(x, y));
        lemma_mul_le(1, self.bytes_pp, self.pixel_index(x, y));
        assert(self.bytes_pp * self.pixel_index(x, y) == self.pixel_index(x, y) * self.bytes_pp)
            by (nonlinear_arith);
    }

    /// Every byte of the data belongs to one pixel inside the image.
    pub proof fn lemma_byte_in_pixel(self, i: int)
        requires
            self.wf(),
            0 <= i < self.data.len(),
        ensures
            self.in_bounds(self.byte_x(i), self.byte_y(i)),
            0 <= self.byte_t(i) < self.bytes_pp,
            self.byte_index(self.byte_x(i), self.byte_y(i), self.byte_t(i)) == i,
    {
        let bpp = self.bytes_pp;
        let w = self.width;
        let p = i / bpp;
        lemma_fundamental_div_mod(i, bpp);
        lemma_mod_bound(i, bpp);
        lemma_div_pos_is_pos(i, bpp);
        assert(bpp * self.pixels() == self.pixels() * bpp) by (nonlinear_arith);
        lemma_multiply_divide_lt(i, bpp, self.pixels());
        lemma_fundamental_div_mod(p, w);
        lemma_mod_bound(p, w);
        lemma_div_pos_is_pos(p, w);
        lemma_multiply_divide_lt(p, w, self.height);
        assert(w * (p / w) == (p / w) * w) by (nonlinear_arith);
        assert(bpp * p == p * bpp) by (nonlinear_arith);
    }

    /// A byte of a pixel inside the image lies in the data, and belongs to
    /// that pixel and to no other.
    pub proof fn lemma_pixel_of_byte(self, x: int, y: int, t: int)
        requires
            self.wf(),
            self.in_bounds(x, y),
            0 <= t < self.bytes_pp,
        ensures
            0 <= self.byte_index(x, y, t) < self.data.len(),
            self.byte_x(self.byte_index(x, y, t)) == x,
            self.byte_y(self.byte_index(x, y, t)) == y,
            self.byte_t(self.byte_index(x, y, t)) == t,
    {
        let p = self.pixel_index(x, y);
        self.lemma_pixel_in_data(x, y);
        lemma_fundamental_div_mod_converse(self.byte_index(x, y, t), self.bytes_pp, p, t);
        lemma_fundamental_div_mod_converse(p, self.width, y, x);
    }

    /// Two images of the same dimensions that agree on every pixel are equal.
    pub proof fn lemma_equal_by_pixels(self, other: Raster)
        requires
            self.wf(),
            other.wf(),
            self.width == other.width,
            self.height == other.height,
            self.bytes_pp == other.bytes_pp,
            forall|x: int, y: int|
                self.in_bounds(x, y) ==> #[trigger] self.pixel_at(x, y) == other.pixel_at(x, y),
        ensures
            self == other,
    {
        assert forall|i: int| 0 <= i < self.data.len() implies self.data[i] == other.data[i] by {
            let x = self.byte_x(i);
            let y = self.byte_y(i);
            let t = self.byte_t(i);
            self.lemma_byte_in_pixel(i);
            self.lemma_pixel_in_data(x, y);
            other.lemma_pixel_in_data(x, y);
            assert(self.pixel_at(x, y)[t] == self.data[self.byte_index(x, y, t)]);
            assert(other.pixel_at(x, y)[t] == other.data[other.byte_index(x, y, t)]);
        }
        assert(self.data =~= other.data);
    }

    /// Writing a pixel changes that pixel and no other.
    pub proof fn lemma_with_pixel(self, x: int, y: int, bytes: Seq<u8>)
        requires
            self.wf(),
            self.in_bounds(x, y),
            bytes.len() == self.bytes_pp,
        ensures
            self.with_pixel(x, y, bytes).wf(),
            self.with_pixel(x, y, bytes).pixel_at(x, y) == bytes,
            forall|x2: int, y2: int|
                self.in_bounds(x2, y2) && (x2 != x || y2 != y) ==> #[trigger] self.with_pixel(
                    x,
                    y,
                    bytes,
                ).pixel_at(x2, y2) == self.pixel_at(x2, y2),
    {
        let after = self.with_pixel(x, y, bytes);
        let bpp = self.bytes_pp;
        let offset = self.pixel_index(x, y) * bpp;
        self.lemma_pixel_in_data(x, y);
        assert(after.data.len() == self.data.len());
        assert(after.pixel_at(x, y) =~= bytes);
        assert forall|x2: int, y2: int|
            self.in_bounds(x2, y2) && (x2 != x || y2 != y) implies #[trigger] after.pixel_at(x2, y2)
            == self.pixel_at(x2, y2) by {
            self.lemma_pixel_in_data(x2, y2);
            after.lemma_pixel_in_data(x2, y2);
            assert forall|t: int| 0 <= t < bpp implies after.pixel_at(x2, y2)[t] == self.pixel_at(
                x2,
                y2,
            )[t] by {
                let j = self.byte_index(x2, y2, t);
                self.lemma_pixel_of_byte(x2, y2, t);
                if offset <= j < offset + bpp {
                    let t0 = j - offset;
                    self.lemma_pixel_of_byte(x, y, t0);
                    assert(self.byte_index(x, y, t0) == j);
                    assert(false);
                }
                assert(after.pixel_at(x2, y2)[t] == after.data[after.byte_index(x2, y2, t)]);
                assert(self.pixel_at(x2, y2)[t] == self.data[j]);
                assert(after.data[j] == self.data[j]);
            }
            assert(after.pixel_at(x2, y2) =~= self.pixel_at(x2, y2));
        }
    }

    /// The image whose pixel `(x, y)` is the pixel `(x, height - 1 - y)` of
    /// this one, for every pixel, is this image flipped vertically.
    pub proof fn lemma_flipped_vertically_by_pixels(self, other: Raster)
        requires
            self.wf(),
            other.wf(),
            self.width == other.width,
            self.height == other.height,
            self.bytes_pp == other.bytes_pp,
            forall|x: int, y: int|
                self.in_bounds(x, y) ==> #[trigger] other.pixel_at(x, y) == self.pixel_at(
                    x,
                    self.height - 1 - y,
                ),
        ensures
            other == self.flipped_vertically(),
    {
        let flipped = self.flipped_vertically();
        assert forall|i: int| 0 <= i < other.data.len() implies other.data[i]
            == flipped.data[i] by {
            let x = self.byte_x(i);
            let y = self.byte_y(i);
            let t = self.byte_t(i);
            self.lemma_byte_in_pixel(i);
            other.lemma_pixel_in_data(x, y);
            self.lemma_pixel_in_data(x, self.height - 1 - y);
            assert(other.pixel_at(x, y)[t] == other.data[other.byte_index(x, y, t)]);
            assert(self.pixel_at(x, self.height - 1 - y)[t] == self.data[self.byte_index(
                x,
                self.height - 1 - y,
                t,
            )]);
            self.lemma_pixel_of_byte(x, self.height - 1 - y, t);
        }
        assert(other.data =~= flipped.data);
    }

    /// The image whose pixel `(x, y)` is the pixel `(width - 1 - x, y)` of
    /// this one, for every pixel, is this image flipped horizontally.
    pub proof fn lemma_flipped_horizontally_by_pixels(self, other: Raster)
        requires
            self.wf(),
            other.wf(),
            self.width == other.width,
            self.height == other.height,
            self.bytes_pp == other.bytes_pp,
            forall|x: int, y: int|
                self.in_bounds(x, y) ==> #[trigger] other.pixel_at(x, y) == self.pixel_at(
                    self.width - 1 - x,
                    y,
                ),
        ensures
            other == self.flipped_horizontally(),
    {
        let flipped = self.flipped_horizontally();
        assert forall|i: int| 0 <= i < other.data.len() implies other.data[i]
            == flipped.data[i] by {
            let x = self.byte_x(i);
            let y = self.byte_y(i);
            let t = self.byte_t(i);
            self.lemma_byte_in_pixel(i);
            other.lemma_pixel_in_data(x, y);
            self.lemma_pixel_in_data(self.width - 1 - x, y);
            assert(other.pixel_at(x, y)[t] == other.data[other.byte_index(x, y, t)]);
            assert(self.pixel_at(self.width - 1 - x, y)[t] == self.data[self.byte_index(
                self.width - 1 - x,
                y,
                t,
            )]);
            self.lemma_pixel_of_byte(self.width - 1 - x, y, t);
        }
        assert(other.data =~= flipped.data);
    }

    /// Flipping an image vertically twice gives the image back, byte for byte.
    pub proof fn lemma_flip_vertically_twice(self)
        requires
            self.wf(),
        ensures
            self.flipped_vertically().wf(),
            self.flipped_vertically().flipped_vertically() == self,
    {
        let once = self.flipped_vertically();
        let twice = once.flipped_vertically();
        assert forall|i: int| 0 <= i < self.data.len() implies twice.data[i] == self.data[i] by {
            let x = self.byte_x(i);
            let y = self.byte_y(i);
            let t = self.byte_t(i);
            self.lemma_byte_in_pixel(i);
            self.lemma_pixel_of_byte(x, self.height - 1 - y, t);
        }
        assert(twice.data =~= self.data);
    }

    /// Flipping an image horizontally twice gives the image back, byte for byte.
    pub proof fn lemma_flip_horizontally_twice(self)
        requires
            self.wf(),
        ensures
            self.flipped_horizontally().wf(),
            self.flipped_horizontally().flipped_horizontally() == self,
    {
        let once = self.flipped_horizontally();
        let twice = once.flipped_horizontally();
        assert forall|i: int| 0 <= i < self.data.len() implies twice.data[i] == self.data[i] by {
            let x = self.byte_x(i);
            let y = self.byte_y(i);
            let t = self.byte_t(i);
            self.lemma_byte_in_pixel(i);
            self.lemma_pixel_of_byte(self.width - 1 - x, y, t);
        }
        assert(twice.data =~= self.data);
    }
}

} // verus!
