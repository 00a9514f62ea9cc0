use tga_image::{Color, Image, TgaError};

fn numbered(width: usize, height: usize, bytes_pp: usize) -> Image {
    let mut image = Image::new(width, height, bytes_pp).unwrap();
    for (i, b) in image.as_mut_slice().iter_mut().enumerate() {
        *b = (i % 251) as u8 + 1;
    }
    image
}

#[test]
fn new_image_is_zero_filled() {
    let image = Image::new(3, 2, 4).unwrap();
    assert_eq!(image.width(), 3);
    assert_eq!(image.height(), 2);
    assert_eq!(image.format(), 4);
    assert_eq!(image.as_slice(), &[0u8; 24][..]);
}

#[test]
fn new_image_with_zero_width_is_rejected() {
    assert_eq!(Image::new(0, 5, 3), Err(TgaError::InvalidDimensions));
}

#[test]
fn new_image_with_zero_height_is_rejected() {
    assert_eq!(Image::new(5, 0, 3), Err(TgaError::InvalidDimensions));
    assert_eq!(Image::new(0, 0, 3), Err(TgaError::InvalidDimensions));
}

#[test]
fn new_image_with_unknown_pixel_size_is_rejected() {
    assert_eq!(Image::new(5, 5, 0), Err(TgaError::InvalidFormat));
    assert_eq!(Image::new(5, 5, 2), Err(TgaError::InvalidFormat));
    assert_eq!(Image::new(5, 5, 5), Err(TgaError::InvalidFormat));
    assert_eq!(Image::new(0, 5, 2), Err(TgaError::InvalidDimensions));
}

#[test]
fn new_image_too_large_to_address_is_rejected() {
    assert_eq!(Image::new(usize::MAX, 2, 1), Err(TgaError::InvalidDimensions));
    assert_eq!(
        Image::new(usize::MAX / 2, 1, 3),
        Err(TgaError::InvalidDimensions)
    );
}

#[test]
fn set_then_get_gives_the_colour() {
    let mut image = Image::new(3, 2, 3).unwrap();
    assert!(image.set(2, 1, Color::rgb(1, 2, 3)));
    assert_eq!(image.get(2, 1), Some(Color::rgb(1, 2, 3)));
    assert_eq!(image.get(1, 1), Some(Color::rgb(0, 0, 0)));
}

#[test]
fn pixel_lies_at_its_row_major_offset() {
    let mut image = Image::new(3, 2, 3).unwrap();
    assert!(image.set(2, 1, Color::rgb(1, 2, 3)));
    let mut expected = [0u8; 18];
    // (2 + 1 * 3) * 3 = 15
    expected[15] = 3;
    expected[16] = 2;
    expected[17] = 1;
    assert_eq!(image.as_slice(), &expected[..]);
}

#[test]
fn get_reads_grey_and_rgba() {
    let mut grey = Image::new(2, 2, 1).unwrap();
    assert!(grey.set(1, 0, Color::grey_scale(9)));
    assert_eq!(grey.get(1, 0), Some(Color::grey_scale(9)));
    assert_eq!(grey.as_slice(), &[0, 9, 0, 0]);

    let mut rgba = Image::new(1, 2, 4).unwrap();
    assert!(rgba.set(0, 1, Color::rgba(1, 2, 3, 4)));
    assert_eq!(rgba.get(0, 1), Some(Color::rgba(1, 2, 3, 4)));
    assert_eq!(rgba.as_slice(), &[0, 0, 0, 0, 3, 2, 1, 4]);
}

#[test]
fn get_outside_is_none() {
    for (w, h) in [(1usize, 1usize), (3, 2), (2, 5)] {
        let image = Image::new(w, h, 3).unwrap();
        assert_eq!(image.get(w, 0), None);
        assert_eq!(image.get(0, h), None);
        assert_eq!(image.get(w, h), None);
        assert_eq!(image.get(usize::MAX, 0), None);
        assert_eq!(image.get(0, usize::MAX), None);
        assert!(image.get(w - 1, h - 1).is_some());
    }
}

#[test]
fn set_outside_is_false_and_changes_nothing() {
    for (w, h) in [(1usize, 1usize), (3, 2), (2, 5)] {
        let mut image = numbered(w, h, 3);
        let before = image.clone();
        assert!(!image.set(w, 0, Color::rgb(9, 9, 9)));
        assert!(!image.set(0, h, Color::rgb(9, 9, 9)));
        assert!(!image.set(w, h, Color::rgb(9, 9, 9)));
        assert!(!image.set(usize::MAX, usize::MAX, Color::rgb(9, 9, 9)));
        assert_eq!(image, before);
    }
}

#[test]
fn set_with_other_format_is_false_and_changes_nothing() {
    let mut image = numbered(2, 2, 3);
    let before = image.clone();
    assert!(!image.set(0, 0, Color::grey_scale(9)));
    assert!(!image.set(0, 0, Color::rgba(9, 9, 9, 9)));
    assert_eq!(image, before);
    let mut grey = numbered(2, 2, 1);
    assert!(!grey.set(0, 0, Color::rgb(9, 9, 9)));
    assert!(grey.set(0, 0, Color::grey_scale(9)));
}

#[test]
fn set_changes_one_pixel_only() {
    let mut image = numbered(3, 3, 4);
    let before = image.clone();
    assert!(image.set(1, 1, Color::rgba(200, 201, 202, 203)));
    for y in 0..3 {
        for x in 0..3 {
            if (x, y) == (1, 1) {
                assert_eq!(image.get(x, y), Some(Color::rgba(200, 201, 202, 203)));
            } else {
                assert_eq!(image.get(x, y), before.get(x, y));
            }
        }
    }
}

#[test]
fn flip_vertically_swaps_rows() {
    let mut image = Image::new(2, 3, 1).unwrap();
    image.as_mut_slice().copy_from_slice(&[1, 2, 3, 4, 5, 6]);
    image.flip_vertically();
    assert_eq!(image.as_slice(), &[5, 6, 3, 4, 1, 2]);
    assert_eq!(image.width(), 2);
    assert_eq!(image.height(), 3);
}

#[test]
fn flip_horizontally_swaps_columns() {
    let mut image = Image::new(3, 2, 1).unwrap();
    image.as_mut_slice().copy_from_slice(&[1, 2, 3, 4, 5, 6]);
    image.flip_horizontally();
    assert_eq!(image.as_slice(), &[3, 2, 1, 6, 5, 4]);
}

#[test]
fn flips_keep_the_bytes_of_a_pixel_together() {
    let mut image = Image::new(2, 2, 3).unwrap();
    image
        .as_mut_slice()
        .copy_from_slice(&[1, 2, 3, 4, 5, 6, 7, 8, 9, 10, 11, 12]);
    image.flip_horizontally();
    assert_eq!(image.as_slice(), &[4, 5, 6, 1, 2, 3, 10, 11, 12, 7, 8, 9]);
    image.flip_vertically();
    assert_eq!(image.as_slice(), &[10, 11, 12, 7, 8, 9, 4, 5, 6, 1, 2, 3]);
}

#[test]
fn flip_vertically_twice_is_identity() {
    for (w, h, bpp) in [(1usize, 1usize, 1usize), (3, 4, 3), (4, 5, 4), (7, 1, 1), (1, 7, 3)] {
        let mut image = numbered(w, h, bpp);
        let before = image.clone();
        image.flip_vertically();
        image.flip_vertically();
        assert_eq!(image, before);
    }
}

#[test]
fn flip_horizontally_twice_is_identity() {
    for (w, h, bpp) in [(1usize, 1usize, 1usize), (3, 4, 3), (4, 5, 4), (7, 1, 1), (1, 7, 3)] {
        let mut image = numbered(w, h, bpp);
        let before = image.clone();
        image.flip_horizontally();
        image.flip_horizontally();
        assert_eq!(image, before);
    }
}

#[test]
fn flip_of_a_single_row_or_column_changes_nothing() {
    let mut row = numbered(5, 1, 3);
    let before = row.clone();
    row.flip_vertically();
    assert_eq!(row, before);
    let mut column = numbered(1, 5, 3);
    let before = column.clone();
    column.flip_horizontally();
    assert_eq!(column, before);
}

#[test]
fn clear_zeroes_every_byte() {
    let mut image = numbered(3, 2, 3);
    image.clear();
    assert_eq!(image, Image::new(3, 2, 3).unwrap());
    assert_eq!(image.as_slice(), &[0u8; 18][..]);
}

#[test]
fn clone_is_equal_and_independent() {
    let image = numbered(2, 2, 3);
    let mut copy = image.clone();
    assert_eq!(copy, image);
    assert!(copy.set(0, 0, Color::rgb(0, 0, 0)));
    assert_ne!(copy, image);
}

#[test]
fn mutable_slice_writes_through() {
    let mut image = Image::new(2, 1, 3).unwrap();
    image.as_mut_slice()[3] = 6;
    image.as_mut_slice()[4] = 5;
    image.as_mut_slice()[5] = 4;
    assert_eq!(image.get(1, 0), Some(Color::rgb(4, 5, 6)));
}

#[test]
fn scale_to_no_pixels_is_refused() {
    let mut image = numbered(3, 2, 3);
    let before = image.clone();
    assert!(!image.scale(0, 5));
    assert!(!image.scale(5, 0));
    assert!(!image.scale(0, 0));
    assert_eq!(image, before);
}
