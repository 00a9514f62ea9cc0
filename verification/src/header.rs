//! The fixed 18-byte record at the start of every image file.
//!
//! The record is read and written field by field at fixed offsets, two-byte
//! fields in little-endian order, so that its layout never depends on how
//! the machine lays out a struct.

use vstd::prelude::*;
use crate::error::TgaError;

verus! {

/// The number of bytes of a serialized header.
pub const HEADER_SIZE: usize = 18;

/// Image type code: uncompressed true colour.
pub const TYPE_RAW_TRUE_COLOR: u8 = 2;

/// Image type code: uncompressed grey scale.
pub const TYPE_RAW_GREY: u8 = 3;

/// Image type code: run-length encoded true colour.
pub const TYPE_RLE_TRUE_COLOR: u8 = 10;

/// Image type code: run-length encoded grey scale.
pub const TYPE_RLE_GREY: u8 = 11;

/// Descriptor bit that is set when the first stored row is the top one.
pub const DESCRIPTOR_TOP_ORIGIN: u8 = 0x20;

/// Descriptor bit that is set when the first stored column is the right one.
pub const DESCRIPTOR_RIGHT_ORIGIN: u8 = 0x10;

/// The header of an image file.
#[derive(Debug, Clone, Copy, PartialEq, Eq, Structural)]
pub struct TgaHeader {
    /// number of bytes in the image ID field
    pub id_len: u8,
    /// 0 if the image has no color map
    pub color_map_type: u8,
    /// how the pixel data is stored: raw or run-length, grey or true colour
    pub data_type_code: u8,
    /// the index of the first color map entry
    pub color_map_origin: u16,
    /// the number of entries in the color map
    pub color_map_length: u16,
    /// the number of bits per color map entry
    pub color_map_depth: u8,
    /// the x coordinate of the lower left corner
    pub x_origin: i16,
    /// the y coordinate of the lower left corner
    pub y_origin: i16,
    /// the width of the image in pixels
    pub width: i16,
    /// the height of the image in pixels
    pub height: i16,
    /// the number of bits per pixel
    pub bits_per_pixel: u8,
    /// bits 3-0 give the alpha depth, 5-4 give the direction
    pub image_descriptor: u8,
}

/// The unsigned value of two bytes in little-endian order.
pub open spec fn le_u16(lo: u8, hi: u8) -> int {
    lo as int + 256 * (hi as int)
}

/// The signed (two's complement) value of two bytes in little-endian order.
pub open spec fn le_i16(lo: u8, hi: u8) -> int {
    if hi < 128 {
        le_u16(lo, hi)
    } else {
        le_u16(lo, hi) - 65536
    }
}

/// The low byte of a 16-bit value, signed or unsigned.
pub open spec fn low_byte(v: int) -> u8 {
    (v % 256) as u8
}

/// The high byte of a 16-bit value, signed (two's complement) or unsigned.
pub open spec fn high_byte(v: int) -> u8 {
    ((v / 256) % 256) as u8
}

/// The header that 18 bytes describe, field by field.
pub open spec fn parse_header(buf: Seq<u8>) -> TgaHeader
    recommends
        buf.len() == HEADER_SIZE,
{
    TgaHeader {
        id_len: buf[0],
        color_map_type: buf[1],
        data_type_code: buf[2],
        color_map_origin: le_u16(buf[3], buf[4]) as u16,
        color_map_length: le_u16(buf[5], buf[6]) as u16,
        color_map_depth: buf[7],
        x_origin: le_i16(buf[8], buf[9]) as i16,
        y_origin: le_i16(buf[10], buf[11]) as i16,
        width: le_i16(buf[12], buf[13]) as i16,
        height: le_i16(buf[14], buf[15]) as i16,
        bits_per_pixel: buf[16],
        image_descriptor: buf[17],
    }
}

/// The 18 bytes that a header is written as. Only the image type, the
/// width, the height, the pixel depth and the descriptor are written; every
/// other field is reserved and written as zero.
pub open spec fn serialize_header(h: TgaHeader) -> Seq<u8> {
    seq![
        0u8, 0u8, h.data_type_code,
        0u8, 0u8, 0u8, 0u8, 0u8,
        0u8, 0u8, 0u8, 0u8,
        low_byte(h.width as int), high_byte(h.width as int),
        low_byte(h.height as int), high_byte(h.height as int),
        h.bits_per_pixel, h.image_descriptor,
    ]
}

/// The result of validating a header: the header itself when its width and
/// height are positive and its pixel depth is 8, 24 or 32 bits.
pub open spec fn validated(h: TgaHeader) -> Result<TgaHeader, TgaError> {
    if h.is_valid() {
        Ok(h)
    } else {
        Err(TgaError::InvalidFormat)
    }
}

/// The result of reading a header from the start of `input`.
pub open spec fn read_header(input: Seq<u8>) -> Result<TgaHeader, TgaError> {
    if input.len() < HEADER_SIZE {
        Err(TgaError::InvalidFormat)
    } else {
        validated(parse_header(input.subrange(0, HEADER_SIZE as int)))
    }
}

fn u16_from_le(lo: u8, hi: u8) -> (v: u16)
    ensures
        v == le_u16(lo, hi),
{
    lo as u16 + 256 * (hi as u16)
}

fn i16_from_le(lo: u8, hi: u8) -> (v: i16)
    ensures
        v == le_i16(lo, hi),
{
    if hi < 128 {
        lo as i16 + 256 * (hi as i16)
    } else {
        lo as i16 + 256 * (hi as i16 - 256)
    }
}

fn i16_to_le(v: i16) -> (bytes: (u8, u8))
    ensures
        bytes.0 == low_byte(v as int),
        bytes.1 == high_byte(v as int),
        le_i16(bytes.0, bytes.1) == v,
{
    let u: u32 = if v >= 0 {
        v as u32
    } else {
        (v as i32 + 65536) as u32
    };
    ((u % 256) as u8, (u / 256) as u8)
}

impl TgaHeader {
    /// Whether the header describes an image that can be decoded: a positive
    /// width and height and a pixel depth of 8, 24 or 32 bits.
    pub open spec fn is_valid(&self) -> bool {
        &&& self.width > 0
        &&& self.height > 0
        &&& (self.bits_per_pixel == 8 || self.bits_per_pixel == 24 || self.bits_per_pixel == 32)
    }

    /// The header with every reserved field set to zero.
    pub open spec fn without_reserved(&self) -> TgaHeader {
        TgaHeader {
            id_len: 0,
            color_map_type: 0,
            data_type_code: self.data_type_code,
            color_map_origin: 0,
            color_map_length: 0,
            color_map_depth: 0,
            x_origin: 0,
            y_origin: 0,
            width: self.width,
            height: self.height,
            bits_per_pixel: self.bits_per_pixel,
            image_descriptor: self.image_descriptor,
        }
    }

    /// Reads a header from the start of `input` and validates it.
    ///
    /// Fails with `InvalidFormat` when fewer than 18 bytes are there, or when
    /// the header is not valid.
    pub fn from_reader(input: &[u8]) -> (res: Result<TgaHeader, TgaError>)
        ensures
            res == read_header(input@),
    {
        if input.len() < HEADER_SIZE {
            return Err(TgaError::InvalidFormat);
        }
        let mut buf: [u8; 18] = [0u8; 18];
        let mut i: usize = 0;
        while i < HEADER_SIZE
            invariant
                i <= HEADER_SIZE,
                input@.len() >= HEADER_SIZE,
                forall|k: int| 0 <= k < i ==> buf@[k] == input@[k],
            decreases HEADER_SIZE - i,
        {
            buf[i] = input[i];
            i += 1;
        }
        assert(buf@ =~= input@.subrange(0, HEADER_SIZE as int));
        TgaHeader::from_buffer(buf).validate()
    }

    /// Reads the fields of a header from its 18 bytes, without validating them.
    pub fn from_buffer(buf: [u8; 18]) -> (h: TgaHeader)
        ensures
            h == parse_header(buf@),
    {
        TgaHeader {
            id_len: buf[0],
            color_map_type: buf[1],
            data_type_code: buf[2],
            color_map_origin: u16_from_le(buf[3], buf[4]),
            color_map_length: u16_from_le(buf[5], buf[6]),
            color_map_depth: buf[7],
            x_origin: i16_from_le(buf[8], buf[9]),
            y_origin: i16_from_le(buf[10], buf[11]),
            width: i16_from_le(buf[12], buf[13]),
            height: i16_from_le(buf[14], buf[15]),
            bits_per_pixel: buf[16],
            image_descriptor: buf[17],
        }
    }

    /// Writes the header as its 18 bytes, the reserved fields as zero.
    pub fn into_buffer(self) -> (buf: [u8; 18])
        ensures
            buf@ == serialize_header(self),
    {
        let (w_lo, w_hi) = i16_to_le(self.width);
        let (h_lo, h_hi) = i16_to_le(self.height);
        let buf: [u8; 18] = [
            0, 0, self.data_type_code,
            0, 0, 0, 0, 0,
            0, 0, 0, 0,
            w_lo, w_hi,
            h_lo, h_hi,
            self.bits_per_pixel, self.image_descriptor,
        ];
        assert(buf@ =~= serialize_header(self));
        buf
    }

    /// Accepts the header when its width and height are positive and its
    /// pixel depth is 8, 24 or 32 bits, and rejects it with `InvalidFormat`
    /// otherwise.
    pub fn validate(self) -> (res: Result<TgaHeader, TgaError>)
        ensures
            res == validated(self),
    {
        if self.width <= 0 {
            return Err(TgaError::InvalidFormat);
        }
        if self.height <= 0 {
            return Err(TgaError::InvalidFormat);
        }
        if self.bits_per_pixel != 8 && self.bits_per_pixel != 24 && self.bits_per_pixel != 32 {
            return Err(TgaError::InvalidFormat);
        }
        Ok(self)
    }

    /// Parsing the bytes that a header was written as gives the header back,
    /// with its reserved fields set to zero.
    pub proof fn lemma_parse_serialize(h: TgaHeader)
        ensures
            serialize_header(h).len() == HEADER_SIZE,
            parse_header(serialize_header(h)) == h.without_reserved(),
    {
        let w = h.width as int;
        let ht = h.height as int;
        assert(le_i16(low_byte(w), high_byte(w)) == w);
        assert(le_i16(low_byte(ht), high_byte(ht)) == ht);
    }
}

impl Default for TgaHeader {
    /// The header with every field zero.
    fn default() -> (h: TgaHeader)
        ensures
            h.data_type_code == 0,
            h.width == 0,
            h.height == 0,
            h.bits_per_pixel == 0,
            h.image_descriptor == 0,
            h == h.without_reserved(),
    {
        TgaHeader {
            id_len: 0,
            color_map_type: 0,
            data_type_code: 0,
            color_map_origin: 0,
            color_map_length: 0,
            color_map_depth: 0,
            x_origin: 0,
            y_origin: 0,
            width: 0,
            height: 0,
            bits_per_pixel: 0,
            image_descriptor: 0,
        }
    }
}

} // verus!
