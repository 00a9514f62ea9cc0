use tga_image::Color;

#[test]
fn grey_is_one_byte() {
    let c = Color::grey_scale(7);
    assert_eq!(c.as_slice(), &[7]);
    assert_eq!(c.bytes_per_pixel(), 1);
}

#[test]
fn rgb_is_stored_blue_green_red() {
    let c = Color::rgb(1, 2, 3);
    assert_eq!(c.as_slice(), &[3, 2, 1]);
    assert_eq!(c.bytes_per_pixel(), 3);
}

#[test]
fn rgba_is_stored_blue_green_red_alpha() {
    let c = Color::rgba(1, 2, 3, 4);
    assert_eq!(c.as_slice(), &[3, 2, 1, 4]);
    assert_eq!(c.bytes_per_pixel(), 4);
}

#[test]
fn colour_from_one_byte_is_grey() {
    assert_eq!(Color::try_from_slice(&[9]), Some(Color::grey_scale(9)));
}

#[test]
fn colour_from_three_bytes_is_rgb_reversed() {
    assert_eq!(Color::try_from_slice(&[3, 2, 1]), Some(Color::rgb(1, 2, 3)));
}

#[test]
fn colour_from_four_bytes_is_rgba() {
    assert_eq!(
        Color::try_from_slice(&[3, 2, 1, 4]),
        Some(Color::rgba(1, 2, 3, 4))
    );
}

#[test]
fn other_lengths_are_no_colour() {
    assert_eq!(Color::try_from_slice(&[]), None);
    assert_eq!(Color::try_from_slice(&[1, 2]), None);
    assert_eq!(Color::try_from_slice(&[1, 2, 3, 4, 5]), None);
}

#[test]
fn colour_bytes_read_back_are_the_same() {
    for bytes in [vec![5u8], vec![5, 6, 7], vec![5, 6, 7, 8]] {
        let c = Color::try_from_slice(&bytes).unwrap();
        assert_eq!(c.as_slice(), &bytes[..]);
    }
}

#[test]
fn byte_width_is_part_of_a_colour() {
    assert_ne!(Color::grey_scale(0), Color::rgb(0, 0, 0));
    assert_ne!(Color::rgb(0, 0, 0), Color::rgba(0, 0, 0, 0));
    assert_eq!(Color::rgb(1, 2, 3), Color::rgb(1, 2, 3));
    assert_ne!(Color::rgb(1, 2, 3), Color::rgb(3, 2, 1));
}

#[test]
fn default_colour_is_zeroed_grey() {
    assert_eq!(Color::default(), Color::grey_scale(0));
    assert_eq!(Color::default().as_slice(), &[0]);
}
