use tga_image::{Color, Encoding, Image, TgaError};

const TRAILER: [u8; 26] = [
    0, 0, 0, 0, 0, 0, 0, 0, b'T', b'R', b'U', b'E', b'V', b'I', b'S', b'I', b'O', b'N', b'-', b'X',
    b'F', b'I', b'L', b'E', b'.', 0,
];

fn header(code: u8, width: u16, height: u16, bits: u8, descriptor: u8) -> Vec<u8> {
    let w = width.to_le_bytes();
    let h = height.to_le_bytes();
    vec![
        0, 0, code, 0, 0, 0, 0, 0, 0, 0, 0, 0, w[0], w[1], h[0], h[1], bits, descriptor,
    ]
}

fn file(code: u8, width: u16, height: u16, bits: u8, descriptor: u8, body: &[u8]) -> Vec<u8> {
    let mut bytes = header(code, width, height, bits, descriptor);
    bytes.extend_from_slice(body);
    bytes
}

fn numbered(width: usize, height: usize, bytes_pp: usize) -> Image {
    let mut image = Image::new(width, height, bytes_pp).unwrap();
    for (i, b) in image.as_mut_slice().iter_mut().enumerate() {
        // runs of three equal bytes, so that both kinds of packet occur
        *b = ((i / 3) % 7) as u8;
    }
    image
}

#[test]
fn blank_image_file_has_exact_size() {
    let image = Image::new(100, 100, 3).unwrap();
    let bytes = image.to_tga_bytes(None).unwrap();
    assert_eq!(bytes.len(), 18 + 30000 + 4 + 4 + 18);
}

#[test]
fn raw_file_is_header_pixels_trailer() {
    let mut image = Image::new(2, 1, 3).unwrap();
    assert!(image.set(0, 0, Color::rgb(1, 2, 3)));
    assert!(image.set(1, 0, Color::rgb(4, 5, 6)));
    let mut expected = header(2, 2, 1, 24, 0x20);
    expected.extend_from_slice(&[3, 2, 1, 6, 5, 4]);
    expected.extend_from_slice(&TRAILER);
    assert_eq!(image.to_tga_bytes(None), Ok(expected));
}

#[test]
fn rle_file_is_header_packets_trailer() {
    let mut image = Image::new(2, 1, 3).unwrap();
    assert!(image.set(0, 0, Color::rgb(1, 2, 3)));
    assert!(image.set(1, 0, Color::rgb(1, 2, 3)));
    let mut expected = header(10, 2, 1, 24, 0x20);
    expected.extend_from_slice(&[129, 3, 2, 1]);
    expected.extend_from_slice(&TRAILER);
    assert_eq!(image.to_tga_bytes(Some(Encoding::Rle)), Ok(expected));
}

#[test]
fn type_code_follows_format_and_encoding() {
    let grey = Image::new(1, 1, 1).unwrap();
    let rgb = Image::new(1, 1, 3).unwrap();
    let rgba = Image::new(1, 1, 4).unwrap();
    assert_eq!(grey.to_tga_bytes(None).unwrap()[2], 3);
    assert_eq!(grey.to_tga_bytes(Some(Encoding::Rle)).unwrap()[2], 11);
    assert_eq!(rgb.to_tga_bytes(None).unwrap()[2], 2);
    assert_eq!(rgb.to_tga_bytes(Some(Encoding::Rle)).unwrap()[2], 10);
    assert_eq!(rgba.to_tga_bytes(None).unwrap()[2], 2);
    assert_eq!(rgba.to_tga_bytes(Some(Encoding::Rle)).unwrap()[2], 10);
    assert_eq!(grey.to_tga_bytes(None).unwrap()[16], 8);
    assert_eq!(rgb.to_tga_bytes(None).unwrap()[16], 24);
    assert_eq!(rgba.to_tga_bytes(None).unwrap()[16], 32);
}

#[test]
fn wide_image_header_is_little_endian() {
    let image = Image::new(300, 258, 1).unwrap();
    let bytes = image.to_tga_bytes(Some(Encoding::Rle)).unwrap();
    assert_eq!(&bytes[12..16], &[0x2c, 0x01, 0x02, 0x01]);
}

#[test]
fn image_too_large_for_a_header_is_not_written() {
    let wide = Image::new(32768, 1, 1).unwrap();
    assert_eq!(wide.to_tga_bytes(None), Err(TgaError::InvalidDimensions));
    assert_eq!(
        wide.to_tga_bytes(Some(Encoding::Rle)),
        Err(TgaError::InvalidDimensions)
    );
    let tall = Image::new(1, 32768, 1).unwrap();
    assert_eq!(tall.to_tga_bytes(None), Err(TgaError::InvalidDimensions));
    let largest = Image::new(32767, 1, 1).unwrap();
    assert!(largest.to_tga_bytes(None).is_ok());
}

#[test]
fn raw_file_read_back_is_the_same_image() {
    for (w, h, bpp) in [(1usize, 1usize, 1usize), (5, 4, 1), (5, 4, 3), (4, 5, 4), (130, 3, 3)] {
        let image = numbered(w, h, bpp);
        let bytes = image.to_tga_bytes(None).unwrap();
        assert_eq!(Image::from_reader(&bytes), Ok(image));
    }
}

#[test]
fn rle_file_read_back_is_the_same_image() {
    for (w, h, bpp) in [(1usize, 1usize, 1usize), (5, 4, 1), (5, 4, 3), (4, 5, 4), (130, 3, 3)] {
        let image = numbered(w, h, bpp);
        let bytes = image.to_tga_bytes(Some(Encoding::Rle)).unwrap();
        assert_eq!(Image::from_reader(&bytes), Ok(image));
    }
    let blank = Image::new(100, 100, 3).unwrap();
    let bytes = blank.to_tga_bytes(Some(Encoding::Rle)).unwrap();
    assert_eq!(Image::from_reader(&bytes), Ok(blank));
}

#[test]
fn top_origin_file_is_read_as_stored() {
    let bytes = file(3, 2, 2, 8, 0x20, &[1, 2, 3, 4]);
    let image = Image::from_reader(&bytes).unwrap();
    assert_eq!(image.width(), 2);
    assert_eq!(image.height(), 2);
    assert_eq!(image.format(), 1);
    assert_eq!(image.as_slice(), &[1, 2, 3, 4]);
}

#[test]
fn bottom_origin_file_is_flipped_vertically() {
    let bytes = file(3, 2, 2, 8, 0x00, &[1, 2, 3, 4]);
    let image = Image::from_reader(&bytes).unwrap();
    assert_eq!(image.as_slice(), &[3, 4, 1, 2]);
}

#[test]
fn right_origin_file_is_flipped_horizontally() {
    let bytes = file(3, 2, 2, 8, 0x30, &[1, 2, 3, 4]);
    let image = Image::from_reader(&bytes).unwrap();
    assert_eq!(image.as_slice(), &[2, 1, 4, 3]);
}

#[test]
fn bottom_right_origin_file_is_flipped_both_ways() {
    let bytes = file(3, 2, 2, 8, 0x10, &[1, 2, 3, 4]);
    let image = Image::from_reader(&bytes).unwrap();
    assert_eq!(image.as_slice(), &[4, 3, 2, 1]);
}

#[test]
fn other_descriptor_bits_do_not_matter() {
    let bytes = file(2, 1, 2, 32, 0x28, &[1, 2, 3, 4, 5, 6, 7, 8]);
    let image = Image::from_reader(&bytes).unwrap();
    assert_eq!(image.as_slice(), &[1, 2, 3, 4, 5, 6, 7, 8]);
    assert_eq!(image.get(0, 1), Some(Color::rgba(7, 6, 5, 8)));
}

#[test]
fn rle_file_is_decoded() {
    let bytes = file(10, 2, 2, 24, 0x20, &[130, 3, 2, 1, 0, 6, 5, 4]);
    let image = Image::from_reader(&bytes).unwrap();
    assert_eq!(image.get(0, 0), Some(Color::rgb(1, 2, 3)));
    assert_eq!(image.get(1, 0), Some(Color::rgb(1, 2, 3)));
    assert_eq!(image.get(0, 1), Some(Color::rgb(1, 2, 3)));
    assert_eq!(image.get(1, 1), Some(Color::rgb(4, 5, 6)));
}

#[test]
fn rle_grey_file_is_decoded_and_flipped() {
    let bytes = file(11, 2, 2, 8, 0x00, &[129, 7, 1, 8, 9]);
    let image = Image::from_reader(&bytes).unwrap();
    assert_eq!(image.as_slice(), &[8, 9, 7, 7]);
}

#[test]
fn file_without_trailer_is_read() {
    let with = file(3, 2, 1, 8, 0x20, &[1, 2, 0, 0, 0, 0]);
    let without = file(3, 2, 1, 8, 0x20, &[1, 2]);
    assert_eq!(Image::from_reader(&with), Image::from_reader(&without));
    assert_eq!(Image::from_reader(&without).unwrap().as_slice(), &[1, 2]);
}

#[test]
fn unsupported_type_code_is_rejected() {
    for code in [0u8, 1, 4, 9, 12, 32, 255] {
        let bytes = file(code, 1, 1, 8, 0x20, &[1, 2, 3, 4]);
        assert_eq!(Image::from_reader(&bytes), Err(TgaError::InvalidFormat));
    }
}

#[test]
fn file_with_invalid_header_is_rejected() {
    assert_eq!(
        Image::from_reader(&file(2, 0, 1, 24, 0x20, &[1, 2, 3])),
        Err(TgaError::InvalidFormat)
    );
    assert_eq!(
        Image::from_reader(&file(2, 1, 0, 24, 0x20, &[1, 2, 3])),
        Err(TgaError::InvalidFormat)
    );
    assert_eq!(
        Image::from_reader(&file(2, 1, 1, 16, 0x20, &[1, 2, 3])),
        Err(TgaError::InvalidFormat)
    );
    assert_eq!(
        Image::from_reader(&file(2, 0x8001, 1, 24, 0x20, &[1, 2, 3])),
        Err(TgaError::InvalidFormat)
    );
}

#[test]
fn file_shorter_than_a_header_is_rejected() {
    assert_eq!(Image::from_reader(&[]), Err(TgaError::InvalidFormat));
    assert_eq!(
        Image::from_reader(&header(2, 1, 1, 24, 0x20)[..17]),
        Err(TgaError::InvalidFormat)
    );
}

#[test]
fn raw_file_with_missing_pixels_is_rejected() {
    assert_eq!(
        Image::from_reader(&file(2, 2, 1, 24, 0x20, &[1, 2, 3, 4, 5])),
        Err(TgaError::InvalidFormat)
    );
    assert_eq!(
        Image::from_reader(&header(3, 1, 1, 8, 0x20)),
        Err(TgaError::InvalidFormat)
    );
}

#[test]
fn rle_file_with_missing_packets_is_rejected() {
    assert_eq!(
        Image::from_reader(&file(10, 2, 2, 24, 0x20, &[130, 3, 2, 1])),
        Err(TgaError::InvalidFormat)
    );
    assert_eq!(
        Image::from_reader(&file(10, 2, 2, 24, 0x20, &[131, 3, 2])),
        Err(TgaError::InvalidFormat)
    );
}

#[test]
fn rle_file_with_packet_past_the_image_is_rejected() {
    assert_eq!(
        Image::from_reader(&file(11, 2, 1, 8, 0x20, &[130, 7])),
        Err(TgaError::InvalidFormat)
    );
}
