//! The layout of an image file: the header, then the pixels, raw or as a
//! run-length packet stream, then a fixed trailer. What writing an image
//! gives, what reading bytes gives, and the proof that reading what was
//! written gives the image back.

use vstd::prelude::*;
use crate::error::TgaError;
use crate::header::{
    parse_header,
    read_header,
    serialize_header,
    TgaHeader,
    DESCRIPTOR_RIGHT_ORIGIN,
    DESCRIPTOR_TOP_ORIGIN,
    HEADER_SIZE,
    TYPE_RAW_GREY,
    TYPE_RAW_TRUE_COLOR,
    TYPE_RLE_GREY,
    TYPE_RLE_TRUE_COLOR,
};
use crate::raster::Raster;
use crate::rle::{lemma_round_trip, rle_decode, rle_encode};

verus! {

/// The largest width or height that a header can hold.
pub const MAX_DIMENSION: usize = 32767;

/// The number of bytes that follow the pixels of a file.
pub const TRAILER_SIZE: usize = 26;

/// The bytes that follow the pixels: no developer area (four zero bytes), no
/// extension area (four zero bytes), and the signature
/// `TRUEVISION-XFILE.` with its terminating zero byte.
pub open spec fn file_trailer() -> Seq<u8> {
    seq![
        0u8, 0u8, 0u8, 0u8,
        0u8, 0u8, 0u8, 0u8,
        84u8, 82u8, 85u8, 69u8, 86u8, 73u8, 83u8, 73u8, 79u8, 78u8,
        45u8,
        88u8, 70u8, 73u8, 76u8, 69u8,
        46u8, 0u8,
    ]
}

/// The image type code for a pixel size and a compression: grey scale for
/// one byte per pixel and true colour otherwise, raw or run-length.
pub open spec fn type_code(bytes_pp: int, rle: bool) -> u8 {
    if bytes_pp == 1 {
        if rle {
            TYPE_RLE_GREY
        } else {
            TYPE_RAW_GREY
        }
    } else {
        if rle {
            TYPE_RLE_TRUE_COLOR
        } else {
            TYPE_RAW_TRUE_COLOR
        }
    }
}

/// The header that an image is written with: its dimensions and pixel
/// depth, the type code, and the first row stored at the top.
pub open spec fn file_header(r: Raster, rle: bool) -> TgaHeader {
    TgaHeader {
        id_len: 0,
        color_map_type: 0,
        data_type_code: type_code(r.bytes_pp, rle),
        color_map_origin: 0,
        color_map_length: 0,
        color_map_depth: 0,
        x_origin: 0,
        y_origin: 0,
        width: r.width as i16,
        height: r.height as i16,
        bits_per_pixel: (r.bytes_pp * 8) as u8,
        image_descriptor: DESCRIPTOR_TOP_ORIGIN,
    }
}

/// The bytes of the file that an image is written as.
pub open spec fn encode_file(r: Raster, rle: bool) -> Seq<u8> {
    serialize_header(file_header(r, rle)) + (if rle {
        rle_encode(r.data, r.bytes_pp, r.pixels())
    } else {
        r.data
    }) + file_trailer()
}

/// What writing an image gives: `InvalidDimensions` for a width or height
/// that a header cannot hold, and the bytes of the file otherwise.
pub open spec fn written(r: Raster, rle: bool) -> Result<Seq<u8>, TgaError> {
    if r.width > MAX_DIMENSION || r.height > MAX_DIMENSION {
        Err(TgaError::InvalidDimensions)
    } else {
        Ok(encode_file(r, rle))
    }
}

/// The pixel bytes that the part of a file after the header holds, in the
/// order in which they are stored: copied for the raw type codes, decoded
/// for the run-length type codes, and `None` when the bytes end early, a
/// packet runs past the image, or the type code is not one of the four.
pub open spec fn stored_pixels(h: TgaHeader, body: Seq<u8>) -> Option<Seq<u8>> {
    let bytes_pp = (h.bits_per_pixel / 8) as int;
    let n = h.width * h.height;
    if h.data_type_code == TYPE_RAW_GREY || h.data_type_code == TYPE_RAW_TRUE_COLOR {
        if body.len() >= n * bytes_pp {
            Some(body.subrange(0, n * bytes_pp))
        } else {
            None
        }
    } else if h.data_type_code == TYPE_RLE_GREY || h.data_type_code == TYPE_RLE_TRUE_COLOR {
        rle_decode(body, bytes_pp, n)
    } else {
        None
    }
}

/// The image in memory for the pixels as a file stores them: flipped
/// vertically unless the descriptor says that the first row is the top one,
/// then flipped horizontally if it says that the first column is the right
/// one.
pub open spec fn oriented(r: Raster, descriptor: u8) -> Raster {
    let upright = if (descriptor & DESCRIPTOR_TOP_ORIGIN) == 0 {
        r.flipped_vertically()
    } else {
        r
    };
    if (descriptor & DESCRIPTOR_RIGHT_ORIGIN) != 0 {
        upright.flipped_horizontally()
    } else {
        upright
    }
}

/// The image that the bytes of a file describe, or `InvalidFormat` when the
/// header is missing or not valid, the type code is not supported, or the
/// pixels are not all there.
pub open spec fn decode_file(input: Seq<u8>) -> Result<Raster, TgaError> {
    match read_header(input) {
        Err(e) => Err(e),
        Ok(h) => match stored_pixels(h, input.skip(HEADER_SIZE as int)) {
            None => Err(TgaError::InvalidFormat),
            Some(data) => Ok(
                oriented(
                    Raster {
                        width: h.width as int,
                        height: h.height as int,
                        bytes_pp: (h.bits_per_pixel / 8) as int,
                        data,
                    },
                    h.image_descriptor,
                ),
            ),
        },
    }
}

/// Reading what an image was written as gives the image back, raw or
/// run-length encoded. Writing fails only for an image whose width or
/// height a header cannot hold.
pub proof fn lemma_file_round_trip(r: Raster, rle: bool)
    requires
        r.wf(),
    ensures
        match written(r, rle) {
            Ok(bytes) => decode_file(bytes) == Ok::<Raster, TgaError>(r),
            Err(e) => e == TgaError::InvalidDimensions && (r.width > MAX_DIMENSION || r.height
                > MAX_DIMENSION),
        },
{
    if r.width <= MAX_DIMENSION && r.height <= MAX_DIMENSION {
        lemma_encoded_file_decodes(r, rle);
    }
}

/// The file of an image whose width and height a header can hold decodes
/// to that image.
proof fn lemma_encoded_file_decodes(r: Raster, rle: bool)
    requires
        r.wf(),
        r.width <= MAX_DIMENSION,
        r.height <= MAX_DIMENSION,
    ensures
        decode_file(encode_file(r, rle)) == Ok::<Raster, TgaError>(r),
{
    let h = file_header(r, rle);
    let stored = if rle {
        rle_encode(r.data, r.bytes_pp, r.pixels())
    } else {
        r.data
    };
    let bytes = encode_file(r, rle);
    TgaHeader::lemma_parse_serialize(h);
    assert(h == h.without_reserved());
    assert(bytes.subrange(0, HEADER_SIZE as int) =~= serialize_header(h));
    assert(bytes.skip(HEADER_SIZE as int) =~= stored + file_trailer());
    assert(parse_header(serialize_header(h)) == h);
    assert(h.is_valid());
    assert(read_header(bytes) == Ok::<TgaHeader, TgaError>(h));
    assert((h.bits_per_pixel / 8) as int == r.bytes_pp);
    assert(h.width * h.height == r.pixels());
    if rle {
        assert(0 <= r.pixels()) by (nonlinear_arith)
            requires
                r.width > 0,
                r.height > 0,
                r.pixels() == r.width * r.height,
        ;
        lemma_round_trip(r.data, r.bytes_pp, r.pixels(), file_trailer());
    } else {
        assert((stored + file_trailer()).subrange(0, r.pixels() * r.bytes_pp) =~= r.data);
    }
    assert(stored_pixels(h, bytes.skip(HEADER_SIZE as int)) == Some(r.data));
    assert((DESCRIPTOR_TOP_ORIGIN & DESCRIPTOR_TOP_ORIGIN) != 0) by (bit_vector);
    assert((DESCRIPTOR_TOP_ORIGIN & DESCRIPTOR_RIGHT_ORIGIN) == 0) by (bit_vector);
}

} // verus!
