//! The run-length packet stream: what the encoder emits for a raster, what
//! the decoder reads back from a stream, and the proof that decoding an
//! encoded raster gives the raster back.
//!
//! A stream is a sequence of packets. Each packet is one control byte and a
//! payload. A control byte below 128 starts a raw packet, whose payload is
//! `control + 1` literal pixels. A control byte of 128 or more starts a
//! repeat packet, whose payload is one pixel that stands for `control - 127`
//! equal pixels.
//!
//! A raster is modelled as its bytes, `bpp` bytes per pixel and `n` pixels,
//! in row-major order.

use vstd::prelude::*;
use crate::arith::{lemma_mul_add, lemma_mul_le};

verus! {

/// The largest number of pixels that one packet describes.
pub const MAX_CHUNK_LENGTH: usize = 128;

/// The bytes of pixel `i`.
pub open spec fn pixel(data: Seq<u8>, bpp: int, i: int) -> Seq<u8> {
    data.subrange(i * bpp, (i + 1) * bpp)
}

/// Byte `t` of pixel `i`.
pub open spec fn pixel_byte(data: Seq<u8>, bpp: int, i: int, t: int) -> u8 {
    data[i * bpp + t]
}

/// Whether pixels `i` and `j` hold the same bytes.
pub open spec fn same_pixel(data: Seq<u8>, bpp: int, i: int, j: int) -> bool {
    pixel(data, bpp, i) == pixel(data, bpp, j)
}

/// Whether the packet that starts at pixel `start` is a repeat packet: it is
/// when a next pixel exists and equals the first.
pub open spec fn starts_repeat(data: Seq<u8>, bpp: int, n: int, start: int) -> bool {
    start + 1 < n && same_pixel(data, bpp, start, start + 1)
}

/// The length of the repeat packet that starts at `start` and has taken
/// `len` pixels so far: it takes the next pixel while that pixel equals the
/// first, up to 128 pixels.
pub open spec fn repeat_run(data: Seq<u8>, bpp: int, n: int, start: int, len: int) -> int
    decreases MAX_CHUNK_LENGTH - len,
{
    if len < MAX_CHUNK_LENGTH && start + len < n && same_pixel(data, bpp, start, start + len) {
        repeat_run(data, bpp, n, start, len + 1)
    } else {
        len
    }
}

/// The length of the raw packet that starts at `start` and has taken `len`
/// pixels so far: it takes the next pixel unless that pixel is seen to start
/// a run of equal pixels, up to 128 pixels. The encoder looks at the pixel
/// after the next one only while the packet has room for both.
pub open spec fn raw_run(data: Seq<u8>, bpp: int, n: int, start: int, len: int) -> int
    decreases MAX_CHUNK_LENGTH - len,
{
    if len < MAX_CHUNK_LENGTH && start + len < n && !(len + 1 < MAX_CHUNK_LENGTH && starts_repeat(
        data,
        bpp,
        n,
        start + len,
    )) {
        raw_run(data, bpp, n, start, len + 1)
    } else {
        len
    }
}

/// The number of pixels that the packet starting at pixel `start` describes.
pub open spec fn packet_len(data: Seq<u8>, bpp: int, n: int, start: int) -> int {
    if starts_repeat(data, bpp, n, start) {
        repeat_run(data, bpp, n, start, 1)
    } else {
        raw_run(data, bpp, n, start, 1)
    }
}

/// The control byte of a packet of `len` pixels.
pub open spec fn control_byte(repeat: bool, len: int) -> u8 {
    if repeat {
        (len + 127) as u8
    } else {
        (len - 1) as u8
    }
}

/// The number of pixels that a packet with this control byte describes.
pub open spec fn packet_pixels(control: u8) -> int {
    if control < 128 {
        control + 1
    } else {
        control - 127
    }
}

/// The bytes of the packet that starts at pixel `start`: the control byte,
/// then every pixel of a raw packet or the one pixel of a repeat packet.
pub open spec fn packet(data: Seq<u8>, bpp: int, n: int, start: int) -> Seq<u8> {
    let len = packet_len(data, bpp, n, start);
    if starts_repeat(data, bpp, n, start) {
        seq![control_byte(true, len)] + pixel(data, bpp, start)
    } else {
        seq![control_byte(false, len)] + data.subrange(start * bpp, (start + len) * bpp)
    }
}

/// The packets for the pixels from `start` to the end of the raster.
pub open spec fn encode_from(data: Seq<u8>, bpp: int, n: int, start: int) -> Seq<u8>
    decreases n - start,
{
    if 0 <= start < n {
        proof {
            lemma_packet_bound(data, bpp, n, start);
        }
        packet(data, bpp, n, start) + encode_from(
            data,
            bpp,
            n,
            start + packet_len(data, bpp, n, start),
        )
    } else {
        Seq::empty()
    }
}

/// The packet stream of a raster of `n` pixels.
pub open spec fn rle_encode(data: Seq<u8>, bpp: int, n: int) -> Seq<u8> {
    encode_from(data, bpp, n, 0)
}

/// `count` copies of a pixel, one after another.
pub open spec fn repeated(px: Seq<u8>, count: int) -> Seq<u8>
    decreases count,
{
    if count <= 0 {
        Seq::empty()
    } else {
        repeated(px, count - 1) + px
    }
}

/// The first `n` pixels that a packet stream describes, or `None` when the
/// stream ends before it has described them, or when a packet describes more
/// pixels than are still missing. Bytes after the last packet are not read.
pub open spec fn rle_decode(input: Seq<u8>, bpp: int, n: int) -> Option<Seq<u8>>
    decreases n,
{
    if n <= 0 {
        Some(Seq::empty())
    } else if input.len() == 0 {
        None
    } else {
        let count = packet_pixels(input[0]);
        let payload = if input[0] < 128 {
            count * bpp
        } else {
            bpp
        };
        if count > n || input.len() < 1 + payload {
            None
        } else {
            let pixels = if input[0] < 128 {
                input.subrange(1, 1 + payload)
            } else {
                repeated(input.subrange(1, 1 + bpp), count)
            };
            match rle_decode(input.skip(1 + payload), bpp, n - count) {
                Some(rest) => Some(pixels + rest),
                None => None,
            }
        }
    }
}

/// The bytes of a pixel that lies inside the raster.
pub proof fn lemma_pixel_bytes(data: Seq<u8>, bpp: int, n: int, i: int)
    requires
        bpp >= 1,
        data.len() == n * bpp,
        0 <= i < n,
    ensures
        0 <= i * bpp,
        (i + 1) * bpp == i * bpp + bpp,
        (i + 1) * bpp <= data.len(),
        pixel(data, bpp, i).len() == bpp,
        forall|t: int| 0 <= t < bpp ==> #[trigger] pixel(data, bpp, i)[t] == data[i * bpp + t],
{
    lemma_mul_add(i, 1, bpp);
    lemma_mul_le(0, i, bpp);
    lemma_mul_le(i + 1, n, bpp);
}

/// Two pixels are the same exactly when they agree byte by byte.
pub proof fn lemma_same_pixel(data: Seq<u8>, bpp: int, n: int, i: int, j: int)
    requires
        bpp >= 1,
        data.len() == n * bpp,
        0 <= i < n,
        0 <= j < n,
    ensures
        same_pixel(data, bpp, i, j) <==> (forall|t: int|
            0 <= t < bpp ==> #[trigger] pixel_byte(data, bpp, i, t) == pixel_byte(data, bpp, j, t)),
{
    lemma_pixel_bytes(data, bpp, n, i);
    lemma_pixel_bytes(data, bpp, n, j);
    let pi = pixel(data, bpp, i);
    let pj = pixel(data, bpp, j);
    if forall|t: int|
        0 <= t < bpp ==> #[trigger] pixel_byte(data, bpp, i, t) == pixel_byte(data, bpp, j, t) {
        assert forall|t: int| 0 <= t < bpp implies pi[t] == pj[t] by {
            assert(pixel_byte(data, bpp, i, t) == pixel_byte(data, bpp, j, t));
            assert(pi[t] == data[i * bpp + t]);
            assert(pj[t] == data[j * bpp + t]);
        }
        assert(pi =~= pj);
    }
    if pi == pj {
        assert forall|t: int| 0 <= t < bpp implies #[trigger] pixel_byte(data, bpp, i, t)
            == pixel_byte(data, bpp, j, t) by {
            assert(pi[t] == data[i * bpp + t]);
            assert(pj[t] == data[j * bpp + t]);
        }
    }
}

/// A run never shrinks, never passes 128 pixels and never leaves the raster.
pub proof fn lemma_run_bounds(data: Seq<u8>, bpp: int, n: int, start: int, len: int)
    requires
        1 <= len <= MAX_CHUNK_LENGTH,
        start + len <= n,
    ensures
        len <= raw_run(data, bpp, n, start, len) <= MAX_CHUNK_LENGTH,
        start + raw_run(data, bpp, n, start, len) <= n,
        len <= repeat_run(data, bpp, n, start, len) <= MAX_CHUNK_LENGTH,
        start + repeat_run(data, bpp, n, start, len) <= n,
    decreases MAX_CHUNK_LENGTH - len,
{
    if len < MAX_CHUNK_LENGTH && start + len < n {
        lemma_run_bounds(data, bpp, n, start, len + 1);
    }
}

/// Every packet that the encoder emits describes between 1 and 128 pixels,
/// all of them inside the raster, and its control byte decodes to that number:
/// below 128 for a raw packet, 128 or more for a repeat packet.
pub proof fn lemma_packet_bound(data: Seq<u8>, bpp: int, n: int, start: int)
    requires
        0 <= start < n,
    ensures
        1 <= packet_len(data, bpp, n, start) <= MAX_CHUNK_LENGTH,
        start + packet_len(data, bpp, n, start) <= n,
        packet_pixels(packet(data, bpp, n, start)[0]) == packet_len(data, bpp, n, start),
        packet(data, bpp, n, start)[0] >= 128 <==> starts_repeat(data, bpp, n, start),
{
    lemma_run_bounds(data, bpp, n, start, 1);
}

/// Every pixel of a repeat packet equals the first one.
pub proof fn lemma_repeat_run_same(data: Seq<u8>, bpp: int, n: int, start: int, len: int)
    requires
        1 <= len <= MAX_CHUNK_LENGTH,
        forall|q: int| start <= q < start + len ==> same_pixel(data, bpp, start, q),
    ensures
        forall|q: int|
            start <= q < start + repeat_run(data, bpp, n, start, len) ==> same_pixel(
                data,
                bpp,
                start,
                q,
            ),
    decreases MAX_CHUNK_LENGTH - len,
{
    if len < MAX_CHUNK_LENGTH && start + len < n && same_pixel(data, bpp, start, start + len) {
        lemma_repeat_run_same(data, bpp, n, start, len + 1);
    }
}

/// A stretch of equal pixels is its first pixel, repeated.
pub proof fn lemma_repeated_pixels(data: Seq<u8>, bpp: int, n: int, start: int, len: int)
    requires
        bpp >= 1,
        data.len() == n * bpp,
        0 <= start,
        0 <= len,
        start + len <= n,
        forall|q: int| start <= q < start + len ==> same_pixel(data, bpp, start, q),
    ensures
        start * bpp <= (start + len) * bpp <= data.len(),
        data.subrange(start * bpp, (start + len) * bpp) == repeated(
            pixel(data, bpp, start),
            len,
        ),
    decreases len,
{
    lemma_mul_le(start, start + len, bpp);
    lemma_mul_le(start + len, n, bpp);
    lemma_mul_le(0, start, bpp);
    if len == 0 {
        assert(data.subrange(start * bpp, (start + len) * bpp) =~= Seq::<u8>::empty());
    } else {
        lemma_repeated_pixels(data, bpp, n, start, len - 1);
        let last = start + len - 1;
        lemma_pixel_bytes(data, bpp, n, last);
        assert(same_pixel(data, bpp, start, start + (len - 1)));
        assert((last + 1) == start + len);
        assert(data.subrange(start * bpp, (start + len) * bpp) =~= data.subrange(
            start * bpp,
            last * bpp,
        ) + pixel(data, bpp, last));
    }
}

/// The length of `count` copies of a pixel.
pub proof fn lemma_repeated_len(px: Seq<u8>, count: int)
    requires
        0 <= count,
    ensures
        repeated(px, count).len() == count * px.len(),
    decreases count,
{
    if count > 0 {
        lemma_repeated_len(px, count - 1);
        lemma_mul_add(count - 1, 1, px.len() as int);
    } else {
        assert(count * px.len() == 0) by (nonlinear_arith)
            requires
                count == 0,
        ;
    }
}

/// The bytes of the packet at `start`, measured: one control byte and the
/// payload, which lies inside the raster.
pub proof fn lemma_packet_shape(data: Seq<u8>, bpp: int, n: int, start: int)
    requires
        bpp >= 1,
        data.len() == n * bpp,
        0 <= start < n,
    ensures
        0 <= start * bpp,
        start * bpp + bpp == (start + 1) * bpp,
        start * bpp + packet_len(data, bpp, n, start) * bpp == (start + packet_len(
            data,
            bpp,
            n,
            start,
        )) * bpp,
        (start + packet_len(data, bpp, n, start)) * bpp <= data.len(),
        (start + 1) * bpp <= data.len(),
        packet(data, bpp, n, start).len() == 1 + (if starts_repeat(data, bpp, n, start) {
            bpp
        } else {
            packet_len(data, bpp, n, start) * bpp
        }),
{
    let len = packet_len(data, bpp, n, start);
    lemma_packet_bound(data, bpp, n, start);
    lemma_pixel_bytes(data, bpp, n, start);
    lemma_mul_add(start, len, bpp);
    lemma_mul_le(start + len, n, bpp);
    lemma_mul_le(1, len, bpp);
}

/// The packets for the pixels from `start` on take at most one byte more
/// than the pixels themselves for each pixel: a packet is one control byte
/// and at most the bytes of the pixels that it describes.
pub proof fn lemma_encoded_length_from(data: Seq<u8>, bpp: int, n: int, start: int)
    requires
        bpp >= 1,
        data.len() == n * bpp,
        0 <= start <= n,
    ensures
        encode_from(data, bpp, n, start).len() <= (n - start) * (bpp + 1),
        start < n ==> encode_from(data, bpp, n, start).len() >= 1 + bpp,
    decreases n - start,
{
    if start < n {
        let len = packet_len(data, bpp, n, start);
        lemma_packet_bound(data, bpp, n, start);
        lemma_packet_shape(data, bpp, n, start);
        lemma_encoded_length_from(data, bpp, n, start + len);
        lemma_mul_add(n - start - len, len, bpp + 1);
        lemma_mul_add(len - 1, 1, bpp + 1);
        lemma_mul_le(1, len, bpp);
        lemma_mul_le(0, len - 1, bpp + 1);
        assert(len * (bpp + 1) == len * bpp + len) by (nonlinear_arith);
    } else {
        assert((n - start) * (bpp + 1) == 0) by (nonlinear_arith)
            requires
                n - start == 0,
        ;
    }
}

/// The packet stream of a raster is never empty and takes at most one byte
/// more than the raster for each pixel.
pub proof fn lemma_encoded_length(data: Seq<u8>, bpp: int, n: int)
    requires
        bpp >= 1,
        n >= 1,
        data.len() == n * bpp,
    ensures
        1 + bpp <= rle_encode(data, bpp, n).len() <= data.len() + n,
{
    lemma_encoded_length_from(data, bpp, n, 0);
    assert(n * (bpp + 1) == n * bpp + n) by (nonlinear_arith);
}

/// What a stream decodes to has exactly the bytes of the pixels asked for.
pub proof fn lemma_decoded_length(input: Seq<u8>, bpp: int, n: int)
    requires
        bpp >= 1,
        n >= 0,
    ensures
        rle_decode(input, bpp, n).is_some() ==> rle_decode(input, bpp, n).unwrap().len() == n
            * bpp,
    decreases n,
{
    if n > 0 && input.len() > 0 {
        let count = packet_pixels(input[0]);
        let payload = if input[0] < 128 {
            count * bpp
        } else {
            bpp
        };
        if count <= n && input.len() >= 1 + payload {
            lemma_mul_le(1, count, bpp);
            lemma_decoded_length(input.skip(1 + payload), bpp, n - count);
            lemma_repeated_len(input.subrange(1, 1 + bpp), count);
            lemma_mul_add(count, n - count, bpp);
        }
    } else if n <= 0 {
        assert(n * bpp == 0) by (nonlinear_arith)
            requires
                n == 0,
        ;
    }
}

/// Decoding the packets for the pixels from `start` on, followed by any
/// other bytes, gives those pixels back.
pub proof fn lemma_round_trip_from(data: Seq<u8>, bpp: int, n: int, start: int, tail: Seq<u8>)
    requires
        bpp >= 1,
        data.len() == n * bpp,
        0 <= start <= n,
    ensures
        start * bpp <= data.len(),
        rle_decode(encode_from(data, bpp, n, start) + tail, bpp, n - start) == Some(
            data.subrange(start * bpp, data.len() as int),
        ),
    decreases n - start,
{
    lemma_mul_le(start, n, bpp);
    if start == n {
        assert(data.subrange(start * bpp, data.len() as int) =~= Seq::<u8>::empty());
    } else {
        let len = packet_len(data, bpp, n, start);
        let pk = packet(data, bpp, n, start);
        let rest = encode_from(data, bpp, n, start + len);
        let input = encode_from(data, bpp, n, start) + tail;
        lemma_packet_bound(data, bpp, n, start);
        lemma_packet_shape(data, bpp, n, start);
        lemma_round_trip_from(data, bpp, n, start + len, tail);
        assert(input =~= pk + (rest + tail));
        let decoded_rest = data.subrange((start + len) * bpp, data.len() as int);
        assert(input[0] == pk[0]);
        assert(packet_pixels(input[0]) == len);
        if starts_repeat(data, bpp, n, start) {
            assert(input[0] >= 128);
            assert(input.skip(1 + bpp) =~= rest + tail);
            assert(input.subrange(1, 1 + bpp) =~= pixel(data, bpp, start));
            lemma_repeat_run_same(data, bpp, n, start, 1);
            lemma_repeated_pixels(data, bpp, n, start, len);
            let pixels = repeated(pixel(data, bpp, start), len);
            assert(pixels + decoded_rest =~= data.subrange(start * bpp, data.len() as int));
        } else {
            assert(input[0] < 128);
            assert(input.skip(1 + len * bpp) =~= rest + tail);
            let pixels = data.subrange(start * bpp, (start + len) * bpp);
            assert(input.subrange(1, 1 + len * bpp) =~= pixels);
            assert(pixels + decoded_rest =~= data.subrange(start * bpp, data.len() as int));
        }
    }
}

/// Decoding what the encoder emits for a raster gives the raster back, byte
/// for byte, whatever bytes follow the stream.
pub proof fn lemma_round_trip(data: Seq<u8>, bpp: int, n: int, tail: Seq<u8>)
    requires
        bpp >= 1,
        0 <= n,
        data.len() == n * bpp,
    ensures
        rle_decode(rle_encode(data, bpp, n), bpp, n) == Some(data),
        rle_decode(rle_encode(data, bpp, n) + tail, bpp, n) == Some(data),
{
    lemma_round_trip_from(data, bpp, n, 0, tail);
    lemma_round_trip_from(data, bpp, n, 0, Seq::empty());
    assert(rle_encode(data, bpp, n) + Seq::<u8>::empty() =~= rle_encode(data, bpp, n));
    assert(data.subrange(0, data.len() as int) =~= data);
}

} // verus!
