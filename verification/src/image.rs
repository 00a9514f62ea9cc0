//! The in-memory image: a raster of pixels with bounds-checked access,
//! in-place flips, and reading and writing of the file format.

use vstd::prelude::*;
use crate::arith::{lemma_mul_add, lemma_mul_le};
use crate::color::Color;
use crate::error::TgaError;
use crate::file::{decode_file, encode_file, written, MAX_DIMENSION};
use crate::header::{
    TgaHeader,
    DESCRIPTOR_RIGHT_ORIGIN,
    DESCRIPTOR_TOP_ORIGIN,
    HEADER_SIZE,
    TYPE_RAW_GREY,
    TYPE_RAW_TRUE_COLOR,
    TYPE_RLE_GREY,
    TYPE_RLE_TRUE_COLOR,
};
use crate::raster::Raster;
use crate::rle::{
    encode_from,
    lemma_packet_bound,
    lemma_packet_shape,
    lemma_pixel_bytes,
    lemma_same_pixel,
    packet,
    packet_len,
    packet_pixels,
    pixel,
    pixel_byte,
    raw_run,
    repeat_run,
    repeated,
    rle_decode,
    rle_encode,
    same_pixel,
    starts_repeat,
    MAX_CHUNK_LENGTH,
};

verus! {

/// The encoding style for saving an image
#[derive(Debug, Clone, Copy, PartialEq, Eq, Structural)]
pub enum Encoding {
    /// - Rle: run length encode the pixels, bad for natural images, good for
    /// images with large areas of the same color
    Rle,
}

/// # The in memory representation of an image
///
/// This structure allows some basic image manipulation such as flipping vertically and
/// horizontally, as well as single pixel manipulation.
#[derive(Debug, PartialEq, Eq)]
pub struct Image {
    width: usize,
    height: usize,
    bytes_pp: usize,
    data: Vec<u8>,
}

impl View for Image {
    type V = Raster;

    /// The image as a value: its dimensions and its bytes.
    closed spec fn view(&self) -> Raster {
        Raster {
            width: self.width as int,
            height: self.height as int,
            bytes_pp: self.bytes_pp as int,
            data: self.data@,
        }
    }
}

impl Clone for Image {
    /// A copy of the image, with bytes of its own.
    fn clone(&self) -> (copy: Image)
        ensures
            copy@ == self@,
    {
        let data = self.data.clone();
        assert(data@ =~= self.data@);
        Image { width: self.width, height: self.height, bytes_pp: self.bytes_pp, data }
    }
}

/// What creating a blank image gives: `InvalidDimensions` for a zero width
/// or height, `InvalidFormat` for a pixel size other than 1, 3 or 4 bytes,
/// `InvalidDimensions` for an image whose bytes the machine cannot address,
/// and the zero-filled image otherwise.
pub open spec fn new_image(width: usize, height: usize, bytes_pp: usize) -> Result<
    Raster,
    TgaError,
> {
    if width == 0 || height == 0 {
        Err(TgaError::InvalidDimensions)
    } else if bytes_pp != 1 && bytes_pp != 3 && bytes_pp != 4 {
        Err(TgaError::InvalidFormat)
    } else if width * height * bytes_pp > usize::MAX {
        Err(TgaError::InvalidDimensions)
    } else {
        Ok(Raster::blank(width as int, height as int, bytes_pp as int))
    }
}

/// The value of an image that was built or decoded, or the error.
pub open spec fn image_value(res: Result<Image, TgaError>) -> Result<Raster, TgaError> {
    match res {
        Ok(image) => Ok(image@),
        Err(e) => Err(e),
    }
}

/// How far a horizontal flip has come: the columns before `i` and their
/// mirror columns are swapped, and so are the first `j` rows of column `i`
/// and of its mirror column; every other pixel is as it was.
spec fn flipping_horizontally(initial: Raster, cur: Raster, i: int, j: int) -> bool {
    forall|x: int, y: int|
        initial.in_bounds(x, y) ==> #[trigger] cur.pixel_at(x, y) == if x < i || x > initial.width - 1 - i
            || ((x == i || x == initial.width - 1 - i) && y < j) {
            initial.pixel_at(initial.width - 1 - x, y)
        } else {
            initial.pixel_at(x, y)
        }
}

/// How far a vertical flip has come: in the columns before `i` every row is
/// swapped with its mirror row, and in column `i` the first `j` rows are;
/// every other pixel is as it was.
spec fn flipping_vertically(initial: Raster, cur: Raster, i: int, j: int) -> bool {
    forall|x: int, y: int|
        initial.in_bounds(x, y) ==> #[trigger] cur.pixel_at(x, y) == if x < i || (x == i && (y < j
            || y > initial.height - 1 - j)) {
            initial.pixel_at(x, initial.height - 1 - y)
        } else {
            initial.pixel_at(x, y)
        }
}

/// The pixels decoded so far, followed by what the rest of the stream gives.
spec fn decoded_then(head: Seq<u8>, rest: Option<Seq<u8>>) -> Option<Seq<u8>> {
    match rest {
        Some(r) => Some(head + r),
        None => None,
    }
}

/// The decoded pixels, or `InvalidFormat` where the stream gave none.
pub open spec fn decoded(pixels: Option<Seq<u8>>) -> Result<Seq<u8>, TgaError> {
    match pixels {
        Some(data) => Ok(data),
        None => Err(TgaError::InvalidFormat),
    }
}

/// The bytes of a buffer that was decoded, or the error.
pub open spec fn bytes_value(res: Result<Vec<u8>, TgaError>) -> Result<Seq<u8>, TgaError> {
    match res {
        Ok(data) => Ok(data@),
        Err(e) => Err(e),
    }
}

impl Image {
    /// Creates a new blank image
    ///
    /// ## errors
    ///
    /// - `InvalidDimensions` if the width or the height is zero, or if the
    ///   image would take more bytes than the machine can address
    /// - `InvalidFormat` if the pixel size is not 1, 3 or 4 bytes
    pub fn new(width: usize, height: usize, bytes_pp: usize) -> (res: Result<Image, TgaError>)
        ensures
            image_value(res) == new_image(width, height, bytes_pp),
            res.is_ok() ==> res.unwrap()@.wf(),
    {
        if width == 0 || height == 0 {
            return Err(TgaError::InvalidDimensions);
        }
        if bytes_pp != 1 && bytes_pp != 3 && bytes_pp != 4 {
            return Err(TgaError::InvalidFormat);
        }
        let n_pixels = match width.checked_mul(height) {
            Some(n) => n,
            None => {
                proof {
                    lemma_mul_le(1, bytes_pp as int, width * height);
                    assert(width * height * bytes_pp == bytes_pp * (width * height))
                        by (nonlinear_arith);
                }
                return Err(TgaError::InvalidDimensions);
            },
        };
        let n_bytes = match n_pixels.checked_mul(bytes_pp) {
            Some(n) => n,
            None => {
                return Err(TgaError::InvalidDimensions);
            },
        };
        let data = vec![0u8; n_bytes];
        let image = Image { width, height, bytes_pp, data };
        assert(image@.data =~= Raster::blank(width as int, height as int, bytes_pp as int).data);
        Ok(image)
    }

    /// Access a single pixel within the image
    ///
    /// ## returns
    ///
    /// - Some(Color) if the indicies are inside the image area
    /// - None otherwise
    pub fn get(&self, x: usize, y: usize) -> (res: Option<Color>)
        requires
            self@.wf(),
        ensures
            res == (if self@.in_bounds(x as int, y as int) {
                Color::from_bytes(self@.pixel_at(x as int, y as int))
            } else {
                None
            }),
            res.is_some() <==> self@.in_bounds(x as int, y as int),
            res.is_some() ==> res.unwrap()@ == self@.pixel_at(x as int, y as int),
    {
        if x >= self.width || y >= self.height {
            return None;
        }
        let n_bytes = self.data.len();
        proof {
            self@.lemma_pixel_in_data(x as int, y as int);
        }
        let offset = (x + y * self.width) * self.bytes_pp;
        assert(offset + self.bytes_pp <= n_bytes);
        let bytes = vstd::slice::slice_subrange(
            self.data.as_slice(),
            offset,
            offset + self.bytes_pp,
        );
        Color::try_from_slice(bytes)
    }

    /// Sets a single pixel to a color
    ///
    /// ## returns
    ///
    /// - true if this color matches the format of this image and is inside the image
    /// - false otherwise
    ///
    pub fn set(&mut self, x: usize, y: usize, color: Color) -> (ok: bool)
        requires
            old(self)@.wf(),
        ensures
            ok <==> old(self)@.in_bounds(x as int, y as int) && color@.len() == old(self)@.bytes_pp,
            ok ==> final(self)@ == old(self)@.with_pixel(x as int, y as int, color@),
            !ok ==> final(self)@ == old(self)@,
            final(self)@.wf(),
    {
        if x >= self.width || y >= self.height {
            return false;
        }
        let slice = color.as_slice();
        if slice.len() != self.bytes_pp {
            return false;
        }
        let n_bytes = self.data.len();
        proof {
            self@.lemma_pixel_in_data(x as int, y as int);
            self@.lemma_with_pixel(x as int, y as int, color@);
        }
        let offset = (x + y * self.width) * self.bytes_pp;
        assert(offset + self.bytes_pp <= n_bytes);
        let ghost before = self.data@;
        let mut t: usize = 0;
        while t < self.bytes_pp
            invariant
                t <= self.bytes_pp,
                slice@.len() == self.bytes_pp,
                offset + self.bytes_pp <= self.data@.len(),
                self.data@.len() == before.len(),
                before.len() == n_bytes,
                self.width == old(self).width,
                self.height == old(self).height,
                self.bytes_pp == old(self).bytes_pp,
                forall|i: int| 0 <= i < offset ==> self.data@[i] == before[i],
                forall|i: int| offset <= i < offset + t ==> self.data@[i] == slice@[i - offset],
                forall|i: int| offset + t <= i < before.len() ==> self.data@[i] == before[i],
            decreases self.bytes_pp - t,
        {
            self.data[offset + t] = slice[t];
            t += 1;
        }
        assert(self.data@ =~= old(self)@.with_pixel(x as int, y as int, color@).data);
        true
    }

    /// Whether the pixels at places `i` and `j` in row-major order hold the
    /// same bytes.
    fn pixels_equal(&self, i: usize, j: usize) -> (eq: bool)
        requires
            self@.wf(),
            i < self@.pixels(),
            j < self@.pixels(),
        ensures
            eq == same_pixel(self@.data, self@.bytes_pp, i as int, j as int),
    {
        let n_bytes = self.data.len();
        proof {
            lemma_pixel_bytes(self@.data, self@.bytes_pp, self@.pixels(), i as int);
            lemma_pixel_bytes(self@.data, self@.bytes_pp, self@.pixels(), j as int);
        }
        let first = i * self.bytes_pp;
        let second = j * self.bytes_pp;
        let mut t: usize = 0;
        while t < self.bytes_pp
            invariant
                self@.wf(),
                i < self@.pixels(),
                j < self@.pixels(),
                t <= self.bytes_pp,
                first == i * self.bytes_pp,
                second == j * self.bytes_pp,
                first + self.bytes_pp <= n_bytes,
                second + self.bytes_pp <= n_bytes,
                n_bytes == self.data@.len(),
                forall|u: int|
                    0 <= u < t ==> #[trigger] pixel_byte(self@.data, self@.bytes_pp, i as int, u)
                        == pixel_byte(self@.data, self@.bytes_pp, j as int, u),
            decreases self.bytes_pp - t,
        {
            if self.data[first + t] != self.data[second + t] {
                proof {
                    lemma_same_pixel(
                        self@.data,
                        self@.bytes_pp,
                        self@.pixels(),
                        i as int,
                        j as int,
                    );
                    assert(pixel_byte(self@.data, self@.bytes_pp, i as int, t as int)
                        != pixel_byte(self@.data, self@.bytes_pp, j as int, t as int));
                }
                return false;
            }
            t += 1;
        }
        proof {
            lemma_same_pixel(self@.data, self@.bytes_pp, self@.pixels(), i as int, j as int);
        }
        true
    }

    /// Appends the run-length packet stream of the pixels to `output`.
    ///
    /// The pixels are taken in row-major order. A packet is a repeat packet
    /// when its second pixel equals its first, and a raw packet otherwise; a
    /// raw packet ends before a pixel that it sees repeated, so that this
    /// pixel starts the next packet. No packet holds more than 128 pixels.
    pub fn save_rle_data(&self, output: &mut Vec<u8>)
        requires
            self@.wf(),
        ensures
            final(output)@ == old(output)@ + rle_encode(
                self@.data,
                self@.bytes_pp,
                self@.pixels(),
            ),
    {
        let ghost data = self@.data;
        let ghost bpp = self@.bytes_pp;
        let ghost n = self@.pixels();
        let n_bytes = self.data.len();
        proof {
            self@.lemma_pixel_in_data(0, 0);
            lemma_mul_le(1, bpp, n);
            assert(bpp * n == n * bpp) by (nonlinear_arith);
        }
        let n_pixels = self.width * self.height;
        let mut current_pixel: usize = 0;
        assert(old(output)@ + encode_from(data, bpp, n, 0) =~= output@ + encode_from(
            data,
            bpp,
            n,
            0,
        ));

        while current_pixel < n_pixels
            invariant
                self@.wf(),
                data == self@.data,
                bpp == self@.bytes_pp,
                n == self@.pixels(),
                n_pixels == n,
                n_bytes == data.len(),
                current_pixel <= n_pixels,
                old(output)@ + encode_from(data, bpp, n, 0) == output@ + encode_from(
                    data,
                    bpp,
                    n,
                    current_pixel as int,
                ),
            decreases n_pixels - current_pixel,
        {
            proof {
                lemma_packet_bound(data, bpp, n, current_pixel as int);
                lemma_packet_shape(data, bpp, n, current_pixel as int);
            }
            let chunk_start = current_pixel * self.bytes_pp;
            let mut run_length: usize = 1;
            let mut raw = true;
            assert(current_pixel + 1 >= n ==> raw_run(data, bpp, n, current_pixel as int, 1) == 1);

            while current_pixel + run_length < n_pixels && run_length < MAX_CHUNK_LENGTH
                invariant_except_break
                    raw ==> run_length == 1 || raw_run(
                        data,
                        bpp,
                        n,
                        current_pixel as int,
                        run_length - 1,
                    ) == raw_run(data, bpp, n, current_pixel as int, 1),
                    !raw ==> repeat_run(data, bpp, n, current_pixel as int, run_length as int)
                        == repeat_run(data, bpp, n, current_pixel as int, 1),
                    run_length == 1 ==> raw,
                    run_length >= 2 ==> raw == !same_pixel(
                        data,
                        bpp,
                        current_pixel as int,
                        current_pixel + 1,
                    ),
                    current_pixel + run_length >= n_pixels || run_length >= MAX_CHUNK_LENGTH
                        ==> run_length == packet_len(data, bpp, n, current_pixel as int) && raw
                        == !starts_repeat(data, bpp, n, current_pixel as int),
                invariant
                    self@.wf(),
                    data == self@.data,
                    bpp == self@.bytes_pp,
                    n == self@.pixels(),
                    n_pixels == n,
                    current_pixel < n_pixels,
                    1 <= run_length <= MAX_CHUNK_LENGTH,
                    current_pixel + run_length <= n_pixels,
                    !raw ==> forall|q: int|
                        current_pixel <= q < current_pixel + run_length ==> same_pixel(
                            data,
                            bpp,
                            current_pixel as int,
                            q,
                        ),
                ensures
                    run_length == packet_len(data, bpp, n, current_pixel as int),
                    raw == !starts_repeat(data, bpp, n, current_pixel as int),
                decreases MAX_CHUNK_LENGTH - run_length,
            {
                let succ_eq = self.pixels_equal(
                    current_pixel + run_length - 1,
                    current_pixel + run_length,
                );

                let ghost p = current_pixel as int;
                let ghost r = run_length as int;

                if run_length == 1 {
                    raw = !succ_eq;
                }
                proof {
                    if r == 1 || !raw {
                        assert(same_pixel(data, bpp, p, p + r - 1));
                        assert(succ_eq == same_pixel(data, bpp, p, p + r));
                    }
                    if raw {
                        if r >= 2 {
                            assert(starts_repeat(data, bpp, n, p + r - 1) == succ_eq);
                            assert(raw_run(data, bpp, n, p, r - 1) == if succ_eq {
                                r - 1
                            } else {
                                raw_run(data, bpp, n, p, r)
                            });
                        }
                        if !succ_eq {
                            assert(!starts_repeat(data, bpp, n, p + r) || p + r + 1 < n);
                            assert(raw_run(data, bpp, n, p, r) == if r + 1 < MAX_CHUNK_LENGTH
                                && starts_repeat(data, bpp, n, p + r) {
                                r
                            } else {
                                raw_run(data, bpp, n, p, r + 1)
                            });
                            assert(p + r + 1 >= n || r + 1 >= MAX_CHUNK_LENGTH ==> raw_run(
                                data,
                                bpp,
                                n,
                                p,
                                r + 1,
                            ) == r + 1);
                        }
                    } else {
                        assert(repeat_run(data, bpp, n, p, r) == if succ_eq {
                            repeat_run(data, bpp, n, p, r + 1)
                        } else {
                            r
                        });
                        assert(p + r + 1 >= n || r + 1 >= MAX_CHUNK_LENGTH ==> repeat_run(
                            data,
                            bpp,
                            n,
                            p,
                            r + 1,
                        ) == r + 1);
                    }
                }
                if raw && succ_eq {
                    run_length -= 1;
                    break;
                }
                if !raw && !succ_eq {
                    break;
                }
                run_length += 1;
            }

            let ghost before = output@;
            if raw {
                output.push((run_length - 1) as u8);
                output.extend_from_slice(
                    vstd::slice::slice_subrange(
                        self.data.as_slice(),
                        chunk_start,
                        chunk_start + run_length * self.bytes_pp,
                    ),
                );
            } else {
                output.push((run_length + 127) as u8);
                output.extend_from_slice(
                    vstd::slice::slice_subrange(
                        self.data.as_slice(),
                        chunk_start,
                        chunk_start + self.bytes_pp,
                    ),
                );
            }
            proof {
                let pk = packet(data, bpp, n, current_pixel as int);
                let rest = encode_from(data, bpp, n, current_pixel + run_length);
                assert(output@ =~= before + pk);
                assert(encode_from(data, bpp, n, current_pixel as int) == pk + rest);
                assert(before + (pk + rest) =~= (before + pk) + rest);
            }
            current_pixel += run_length;
        }
    }

    /// Reads the first `n_pixels` pixels of a run-length packet stream.
    ///
    /// A control byte below 128 is followed by that many literal pixels and
    /// one more; a control byte of 128 or more is followed by one pixel that
    /// stands for as many equal pixels as the byte exceeds 127. Bytes after
    /// the last packet are not read.
    ///
    /// ## errors
    ///
    /// - `InvalidFormat` if the stream ends before all the pixels are there,
    ///   or if a packet holds more pixels than the image still lacks
    pub fn load_rle_data(input: &[u8], bytes_pp: usize, n_pixels: usize) -> (res: Result<
        Vec<u8>,
        TgaError,
    >)
        requires
            bytes_pp >= 1,
            n_pixels * bytes_pp <= usize::MAX,
        ensures
            bytes_value(res) == decoded(rle_decode(input@, bytes_pp as int, n_pixels as int)),
            res.is_ok() ==> res.unwrap()@.len() == n_pixels * bytes_pp,
    {
        let ghost bpp = bytes_pp as int;
        let ghost n = n_pixels as int;
        let mut data: Vec<u8> = Vec::new();
        let mut pos: usize = 0;
        let mut produced: usize = 0;
        assert(input@.skip(0) =~= input@);
        assert(rle_decode(input@, bpp, n) == decoded_then(data@, rle_decode(input@, bpp, n))) by {
            match rle_decode(input@, bpp, n) {
                Some(r) => {
                    assert(data@ + r =~= r);
                },
                None => {},
            }
        }
        while produced < n_pixels
            invariant
                bpp == bytes_pp,
                n == n_pixels,
                bpp >= 1,
                n * bpp <= usize::MAX,
                pos <= input@.len(),
                produced <= n_pixels,
                data@.len() == produced * bpp,
                rle_decode(input@, bpp, n) == decoded_then(
                    data@,
                    rle_decode(input@.skip(pos as int), bpp, n - produced),
                ),
            decreases n_pixels - produced,
        {
            let ghost rest = input@.skip(pos as int);
            let ghost before = data@;
            if pos >= input.len() {
                return Err(TgaError::InvalidFormat);
            }
            let chunk_header = input[pos];
            assert(rest[0] == chunk_header);
            let count: usize = if chunk_header < 128 {
                chunk_header as usize + 1
            } else {
                chunk_header as usize - 127
            };
            assert(count == packet_pixels(chunk_header));
            if count > n_pixels - produced {
                return Err(TgaError::InvalidFormat);
            }
            proof {
                lemma_mul_le(count as int, n - produced, bpp);
                lemma_mul_le(n - produced, n, bpp);
                lemma_mul_add(produced as int, count as int, bpp);
                lemma_mul_le(produced + count, n, bpp);
                lemma_mul_le(1, count as int, bpp);
            }
            let available = input.len() - pos - 1;
            if chunk_header < 128 {
                let payload = count * bytes_pp;
                if available < payload {
                    return Err(TgaError::InvalidFormat);
                }
                data.extend_from_slice(
                    vstd::slice::slice_subrange(input, pos + 1, pos + 1 + payload),
                );
                proof {
                    let pixels = rest.subrange(1, 1 + payload);
                    assert(data@ =~= before + pixels);
                    assert(rest.skip(1 + payload) =~= input@.skip(pos + 1 + payload));
                    match rle_decode(input@.skip(pos + 1 + payload), bpp, n - produced - count) {
                        Some(r) => {
                            assert(before + (pixels + r) =~= (before + pixels) + r);
                        },
                        None => {},
                    }
                }
                pos = pos + 1 + payload;
            } else {
                if available < bytes_pp {
                    return Err(TgaError::InvalidFormat);
                }
                let px = vstd::slice::slice_subrange(input, pos + 1, pos + 1 + bytes_pp);
                assert(px@ =~= rest.subrange(1, 1 + bpp));
                let mut k: usize = 0;
                assert(data@ =~= before + repeated(px@, 0));
                while k < count
                    invariant
                        k <= count,
                        px@.len() == bpp,
                        bpp >= 1,
                        before.len() == produced * bpp,
                        (produced + count) * bpp <= usize::MAX,
                        data@ == before + repeated(px@, k as int),
                        data@.len() == (produced + k) * bpp,
                    decreases count - k,
                {
                    proof {
                        lemma_mul_add(produced + k, 1, bpp);
                        lemma_mul_le(produced + k + 1, produced + count, bpp);
                    }
                    data.extend_from_slice(px);
                    assert(data@ =~= before + repeated(px@, k + 1));
                    k += 1;
                }
                proof {
                    let pixels = repeated(px@, count as int);
                    assert(rest.skip(1 + bpp) =~= input@.skip(pos + 1 + bpp));
                    match rle_decode(input@.skip(pos + 1 + bpp), bpp, n - produced - count) {
                        Some(r) => {
                            assert(before + (pixels + r) =~= (before + pixels) + r);
                        },
                        None => {},
                    }
                }
                pos = pos + 1 + bytes_pp;
            }
            produced += count;
        }
        assert(data@ + Seq::<u8>::empty() =~= data@);
        Ok(data)
    }

    /// Reads an image from the bytes of a file.
    ///
    /// The header gives the dimensions, the pixel size and the type code.
    /// The pixels follow it, raw for the type codes 2 and 3 and as a
    /// run-length packet stream for 10 and 11. The image is flipped
    /// vertically unless the descriptor marks the first row as the top one,
    /// and horizontally if it marks the first column as the right one.
    /// Bytes after the pixels are not read.
    ///
    /// ## Errors
    ///
    /// - `InvalidFormat` if the header is missing or not valid, if the type
    ///   code is not supported, or if the pixels are not all there
    pub fn from_reader(input: &[u8]) -> (res: Result<Image, TgaError>)
        ensures
            image_value(res) == decode_file(input@),
            res.is_ok() ==> res.unwrap()@.wf(),
    {
        let header = match TgaHeader::from_reader(input) {
            Ok(h) => h,
            Err(e) => {
                return Err(e);
            },
        };
        let width = header.width as usize;
        let height = header.height as usize;
        let bytes_pp = header.bits_per_pixel as usize / 8;
        proof {
            lemma_mul_le(width as int, MAX_DIMENSION as int, height as int);
            lemma_mul_le(height as int, MAX_DIMENSION as int, MAX_DIMENSION as int);
            assert(MAX_DIMENSION * height == height * MAX_DIMENSION) by (nonlinear_arith);
            lemma_mul_le(bytes_pp as int, 4, width * height);
            lemma_mul_le(width * height, MAX_DIMENSION * MAX_DIMENSION, 4);
            assert(bytes_pp * (width * height) == (width * height) * bytes_pp)
                by (nonlinear_arith);
        }
        let n_pixels = width * height;
        let n_bytes = n_pixels * bytes_pp;
        let body = vstd::slice::slice_subrange(input, HEADER_SIZE, input.len());
        assert(body@ =~= input@.skip(HEADER_SIZE as int));
        let code = header.data_type_code;
        let data = if code == TYPE_RAW_GREY || code == TYPE_RAW_TRUE_COLOR {
            if body.len() < n_bytes {
                return Err(TgaError::InvalidFormat);
            }
            vstd::slice::slice_to_vec(vstd::slice::slice_subrange(body, 0, n_bytes))
        } else if code == TYPE_RLE_GREY || code == TYPE_RLE_TRUE_COLOR {
            match Image::load_rle_data(body, bytes_pp, n_pixels) {
                Ok(d) => d,
                Err(e) => {
                    return Err(e);
                },
            }
        } else {
            return Err(TgaError::InvalidFormat);
        };
        let mut result = Image { width, height, bytes_pp, data };
        if (header.image_descriptor & DESCRIPTOR_TOP_ORIGIN) == 0 {
            result.flip_vertically();
        }
        if (header.image_descriptor & DESCRIPTOR_RIGHT_ORIGIN) != 0 {
            result.flip_horizontally();
        }
        Ok(result)
    }

    /// Writes the image as the bytes of a file: the header, the pixels, raw
    /// or run-length encoded, and the trailer. The first row is stored at
    /// the top, so that reading the bytes gives the image back.
    ///
    /// ## errors
    ///
    /// - `InvalidDimensions` if the width or the height is more than 32767,
    ///   the most that a header can hold
    pub fn to_tga_bytes(&self, encoding: Option<Encoding>) -> (res: Result<Vec<u8>, TgaError>)
        requires
            self@.wf(),
        ensures
            bytes_value(res) == written(self@, encoding.is_some()),
    {
        if self.width > MAX_DIMENSION || self.height > MAX_DIMENSION {
            return Err(TgaError::InvalidDimensions);
        }
        let developer_area_ref: [u8; 4] = [0, 0, 0, 0];
        let extension_area_ref: [u8; 4] = [0, 0, 0, 0];
        // "TRUEVISION-XFILE." and a zero byte
        let footer: [u8; 18] = [
            84, 82, 85, 69, 86, 73, 83, 73, 79, 78,
            45,
            88, 70, 73, 76, 69,
            46, 0,
        ];
        let data_type_code = if self.bytes_pp == 1 {
            match encoding {
                Some(Encoding::Rle) => TYPE_RLE_GREY,
                None => TYPE_RAW_GREY,
            }
        } else {
            match encoding {
                Some(Encoding::Rle) => TYPE_RLE_TRUE_COLOR,
                None => TYPE_RAW_TRUE_COLOR,
            }
        };
        let header = TgaHeader {
            id_len: 0,
            color_map_type: 0,
            data_type_code,
            color_map_origin: 0,
            color_map_length: 0,
            color_map_depth: 0,
            x_origin: 0,
            y_origin: 0,
            width: self.width as i16,
            height: self.height as i16,
            bits_per_pixel: (self.bytes_pp * 8) as u8,
            image_descriptor: DESCRIPTOR_TOP_ORIGIN,
        };
        let header = header.into_buffer();
        let mut file: Vec<u8> = Vec::new();
        file.extend_from_slice(header.as_slice());
        let ghost with_header = file@;
        match encoding {
            None => file.extend_from_slice(self.data.as_slice()),
            Some(Encoding::Rle) => self.save_rle_data(&mut file),
        }
        let ghost with_pixels = file@;
        file.extend_from_slice(developer_area_ref.as_slice());
        file.extend_from_slice(extension_area_ref.as_slice());
        file.extend_from_slice(footer.as_slice());
        assert(file@ =~= encode_file(self@, encoding.is_some()));
        Ok(file)
    }

    /// Turns the image into its mirror image along the horizontal axis,
    /// this occurs in place
    pub fn flip_horizontally(&mut self)
        requires
            old(self)@.wf(),
        ensures
            final(self)@ == old(self)@.flipped_horizontally(),
            final(self)@.wf(),
    {
        let ghost initial = self@;
        let half = self.width / 2;
        let mut i: usize = 0;
        while i < half
            invariant
                i <= half,
                half == initial.width / 2,
                initial.wf(),
                self@.wf(),
                self@.width == initial.width,
                self@.height == initial.height,
                self@.bytes_pp == initial.bytes_pp,
                flipping_horizontally(initial, self@, i as int, 0),
            decreases half - i,
        {
            let mut j: usize = 0;
            while j < self.height
                invariant
                    i < half,
                    half == initial.width / 2,
                    j <= self.height,
                    initial.wf(),
                    self@.wf(),
                    self@.width == initial.width,
                    self@.height == initial.height,
                    self@.bytes_pp == initial.bytes_pp,
                    flipping_horizontally(initial, self@, i as int, j as int),
                decreases self.height - j,
            {
                let mirror = self.width - 1 - i;
                let ghost before = self@;
                let c1 = self.get(i, j).unwrap();
                let c2 = self.get(mirror, j).unwrap();
                proof {
                    before.lemma_pixel_in_data(i as int, j as int);
                    before.lemma_pixel_in_data(mirror as int, j as int);
                    before.lemma_with_pixel(i as int, j as int, c2@);
                }
                self.set(i, j, c2);
                let ghost between = self@;
                proof {
                    between.lemma_with_pixel(mirror as int, j as int, c1@);
                }
                self.set(mirror, j, c1);
                j += 1;
            }
            i += 1;
        }
        proof {
            initial.lemma_flipped_horizontally_by_pixels(self@);
        }
    }

    /// Turns the image into its mirror image along the vertical axis.
    pub fn flip_vertically(&mut self)
        requires
            old(self)@.wf(),
        ensures
            final(self)@ == old(self)@.flipped_vertically(),
            final(self)@.wf(),
    {
        let ghost initial = self@;
        let half = self.height / 2;
        let mut i: usize = 0;
        while i < self.width
            invariant
                i <= self.width,
                half == initial.height / 2,
                initial.wf(),
                self@.wf(),
                self@.width == initial.width,
                self@.height == initial.height,
                self@.bytes_pp == initial.bytes_pp,
                flipping_vertically(initial, self@, i as int, 0),
            decreases self.width - i,
        {
            let mut j: usize = 0;
            while j < half
                invariant
                    i < self.width,
                    j <= half,
                    half == initial.height / 2,
                    initial.wf(),
                    self@.wf(),
                    self@.width == initial.width,
                    self@.height == initial.height,
                    self@.bytes_pp == initial.bytes_pp,
                    flipping_vertically(initial, self@, i as int, j as int),
                decreases half - j,
            {
                let mirror = self.height - 1 - j;
                let ghost before = self@;
                let c1 = self.get(i, j).unwrap();
                let c2 = self.get(i, mirror).unwrap();
                proof {
                    before.lemma_pixel_in_data(i as int, j as int);
                    before.lemma_pixel_in_data(i as int, mirror as int);
                    before.lemma_with_pixel(i as int, j as int, c2@);
                }
                self.set(i, j, c2);
                let ghost between = self@;
                proof {
                    between.lemma_with_pixel(i as int, mirror as int, c1@);
                }
                self.set(i, mirror, c1);
                j += 1;
            }
            i += 1;
        }
        proof {
            initial.lemma_flipped_vertically_by_pixels(self@);
        }
    }

    /// Changes the width and height of the image
    ///
    /// Resizing to a size without pixels is refused: the image stays as it
    /// is and the answer is `false`. No other size can be asked for.
    pub fn scale(&mut self, width: usize, height: usize) -> (ok: bool)
        requires
            width == 0 || height == 0,
        ensures
            !ok,
            *final(self) == *old(self),
    {
        !(width == 0 || height == 0)
    }

    /// Getter for the width
    pub fn width(&self) -> (w: usize)
        ensures
            w == self@.width,
    {
        self.width
    }

    /// Getter for the height
    pub fn height(&self) -> (h: usize)
        ensures
            h == self@.height,
    {
        self.height
    }

    /// Getter for the pixel format represented as bytes per pixel
    pub fn format(&self) -> (bytes_pp: usize)
        ensures
            bytes_pp == self@.bytes_pp,
    {
        self.bytes_pp
    }

    /// represents the raw data as an immutable slice
    pub fn as_slice(&self) -> (bytes: &[u8])
        ensures
            bytes@ == self@.data,
    {
        self.data.as_slice()
    }

    /// Represents the raw data as a mutable slice
    pub fn as_mut_slice(&mut self) -> (bytes: &mut [u8])
        ensures
            bytes@ == old(self)@.data,
            final(self)@ == (Raster { data: final(bytes)@, ..old(self)@ }),
    {
        self.data.as_mut_slice()
    }

    /// Sets the data of this image to all 0s, this is usually black, or fully transparent black
    pub fn clear(&mut self)
        ensures
            final(self)@ == old(self)@.cleared(),
            old(self)@.wf() ==> final(self)@.wf(),
    {
        let n = self.data.len();
        let mut i: usize = 0;
        while i < n
            invariant
                i <= n,
                n == self.data@.len(),
                n == old(self).data@.len(),
                self.width == old(self).width,
                self.height == old(self).height,
                self.bytes_pp == old(self).bytes_pp,
                forall|k: int| 0 <= k < i ==> self.data@[k] == 0u8,
            decreases n - i,
        {
            self.data[i] = 0;
            i += 1;
        }
        assert(self.data@ =~= old(self)@.cleared().data);
    }
}

} // verus!
