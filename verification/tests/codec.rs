use tga_image::{Color, Encoding, Image, TgaError};

fn from_pixels(width: usize, height: usize, bytes_pp: usize, bytes: &[u8]) -> Image {
    let mut image = Image::new(width, height, bytes_pp).unwrap();
    image.as_mut_slice().copy_from_slice(bytes);
    image
}

fn grey_row(values: &[u8]) -> Image {
    from_pixels(values.len(), 1, 1, values)
}

fn encoded(image: &Image) -> Vec<u8> {
    let mut out = Vec::new();
    image.save_rle_data(&mut out);
    out
}

fn patterned(width: usize, height: usize, bytes_pp: usize, seed: u32) -> Image {
    let mut image = Image::new(width, height, bytes_pp).unwrap();
    let mut state = seed;
    let mut current = [0u8; 4];
    let n = width * height;
    let data = image.as_mut_slice();
    for p in 0..n {
        state = state.wrapping_mul(1664525).wrapping_add(1013904223);
        // change the pixel about one time in three, so that runs and
        // literals of many lengths occur
        if (state >> 24) % 3 == 0 {
            current = state.to_le_bytes();
        }
        data[p * bytes_pp..(p + 1) * bytes_pp].copy_from_slice(&current[..bytes_pp]);
    }
    image
}

/// Walks a packet stream and returns the pixel count of each packet.
fn packet_sizes(stream: &[u8], bytes_pp: usize) -> Vec<usize> {
    let mut sizes = Vec::new();
    let mut pos = 0;
    while pos < stream.len() {
        let control = stream[pos] as usize;
        if control < 128 {
            sizes.push(control + 1);
            pos += 1 + (control + 1) * bytes_pp;
        } else {
            sizes.push(control - 127);
            pos += 1 + bytes_pp;
        }
    }
    assert_eq!(pos, stream.len());
    sizes
}

#[test]
fn two_identical_pixels_are_one_repeat_packet() {
    let mut image = Image::new(2, 1, 3).unwrap();
    assert!(image.set(0, 0, Color::rgb(1, 2, 3)));
    assert!(image.set(1, 0, Color::rgb(1, 2, 3)));
    assert_eq!(encoded(&image), vec![129, 3, 2, 1]);
}

#[test]
fn two_distinct_pixels_are_one_raw_packet() {
    let mut image = Image::new(2, 1, 3).unwrap();
    assert!(image.set(0, 0, Color::rgb(1, 2, 3)));
    assert!(image.set(1, 0, Color::rgb(4, 5, 6)));
    assert_eq!(encoded(&image), vec![1, 3, 2, 1, 6, 5, 4]);
}

#[test]
fn single_pixel_is_one_raw_packet() {
    assert_eq!(encoded(&grey_row(&[7])), vec![0, 7]);
}

#[test]
fn encoder_appends_to_the_output() {
    let mut out = vec![42u8, 43];
    grey_row(&[7, 7, 7]).save_rle_data(&mut out);
    assert_eq!(out, vec![42, 43, 130, 7]);
}

#[test]
fn raw_packet_stops_before_a_run() {
    // the pixel 2 starts the run, so the raw packet holds only the pixel 1
    assert_eq!(encoded(&grey_row(&[1, 2, 2, 2])), vec![0, 1, 130, 2]);
    assert_eq!(encoded(&grey_row(&[1, 2, 3, 3])), vec![1, 1, 2, 129, 3]);
}

#[test]
fn run_is_followed_by_a_raw_packet() {
    assert_eq!(encoded(&grey_row(&[5, 5, 5, 1, 2])), vec![130, 5, 1, 1, 2]);
    assert_eq!(encoded(&grey_row(&[5, 5, 1])), vec![129, 5, 0, 1]);
}

#[test]
fn two_runs_are_two_repeat_packets() {
    assert_eq!(encoded(&grey_row(&[5, 5, 6, 6, 6])), vec![129, 5, 130, 6]);
}

#[test]
fn pixels_are_compared_on_all_their_bytes() {
    // the two pixels differ in the last byte only
    let image = from_pixels(2, 1, 4, &[1, 2, 3, 4, 1, 2, 3, 5]);
    assert_eq!(encoded(&image), vec![1, 1, 2, 3, 4, 1, 2, 3, 5]);
    let same = from_pixels(2, 1, 4, &[1, 2, 3, 4, 1, 2, 3, 4]);
    assert_eq!(encoded(&same), vec![129, 1, 2, 3, 4]);
}

#[test]
fn run_of_128_is_one_packet() {
    assert_eq!(encoded(&grey_row(&[9; 128])), vec![255, 9]);
}

#[test]
fn run_longer_than_128_is_split() {
    assert_eq!(encoded(&grey_row(&[9; 129])), vec![255, 9, 0, 9]);
    assert_eq!(encoded(&grey_row(&[9; 130])), vec![255, 9, 129, 9]);
    assert_eq!(encoded(&grey_row(&[9; 300])), vec![255, 9, 255, 9, 171, 9]);
}

#[test]
fn raw_packet_of_128_is_one_packet() {
    let values: Vec<u8> = (0..128).collect();
    let mut expected = vec![127u8];
    expected.extend_from_slice(&values);
    assert_eq!(encoded(&grey_row(&values)), expected);
}

#[test]
fn raw_packet_longer_than_128_is_split() {
    let values: Vec<u8> = (0..130).collect();
    let mut expected = vec![127u8];
    expected.extend_from_slice(&values[..128]);
    expected.push(1);
    expected.extend_from_slice(&values[128..]);
    assert_eq!(encoded(&grey_row(&values)), expected);
}

#[test]
fn full_raw_packet_does_not_look_past_its_end() {
    // pixels 127 and 128 are equal, but the packet is full before it can look
    let mut values: Vec<u8> = (0..128).collect();
    values.push(127);
    values.push(127);
    let mut expected = vec![127u8];
    expected.extend_from_slice(&values[..128]);
    expected.extend_from_slice(&[129, 127]);
    assert_eq!(encoded(&grey_row(&values)), expected);
}

#[test]
fn raw_packet_backs_off_at_its_last_place() {
    // pixels 126 and 127 are equal: the raw packet gives up pixel 126
    let mut values: Vec<u8> = (0..126).collect();
    values.push(200);
    values.push(200);
    let mut expected = vec![125u8];
    expected.extend_from_slice(&values[..126]);
    expected.extend_from_slice(&[129, 200]);
    assert_eq!(encoded(&grey_row(&values)), expected);
}

#[test]
fn packets_run_across_rows() {
    let image = from_pixels(2, 2, 1, &[4, 4, 4, 4]);
    assert_eq!(encoded(&image), vec![131, 4]);
}

#[test]
fn every_packet_holds_between_1_and_128_pixels() {
    for seed in 0..20u32 {
        for bytes_pp in [1usize, 3, 4] {
            let image = patterned(37, 23, bytes_pp, seed);
            let sizes = packet_sizes(&encoded(&image), bytes_pp);
            assert!(sizes.iter().all(|&n| 1 <= n && n <= 128));
            assert_eq!(sizes.iter().sum::<usize>(), 37 * 23);
        }
    }
    let blank = Image::new(100, 100, 3).unwrap();
    let sizes = packet_sizes(&encoded(&blank), 3);
    assert!(sizes.iter().all(|&n| 1 <= n && n <= 128));
    assert_eq!(sizes.iter().sum::<usize>(), 10000);
}

#[test]
fn decoding_an_encoded_image_gives_it_back() {
    for seed in 0..20u32 {
        for bytes_pp in [1usize, 3, 4] {
            let image = patterned(31, 17, bytes_pp, seed);
            let stream = encoded(&image);
            let decoded = Image::load_rle_data(&stream, bytes_pp, 31 * 17);
            assert_eq!(decoded.as_deref(), Ok(image.as_slice()));
        }
    }
}

#[test]
fn decoding_gives_back_a_pixel_before_a_run() {
    let image = grey_row(&[1, 2, 2, 2, 3, 4, 4, 5]);
    let stream = encoded(&image);
    assert_eq!(
        Image::load_rle_data(&stream, 1, 8),
        Ok(vec![1, 2, 2, 2, 3, 4, 4, 5])
    );
}

#[test]
fn decoder_reads_raw_packet() {
    assert_eq!(
        Image::load_rle_data(&[1, 3, 2, 1, 6, 5, 4], 3, 2),
        Ok(vec![3, 2, 1, 6, 5, 4])
    );
}

#[test]
fn decoder_reads_repeat_packet() {
    assert_eq!(
        Image::load_rle_data(&[129, 3, 2, 1], 3, 2),
        Ok(vec![3, 2, 1, 3, 2, 1])
    );
    assert_eq!(Image::load_rle_data(&[255, 8], 1, 128), Ok(vec![8; 128]));
    assert_eq!(Image::load_rle_data(&[128, 8], 1, 1), Ok(vec![8]));
}

#[test]
fn decoder_reads_mixed_packets() {
    assert_eq!(
        Image::load_rle_data(&[0, 1, 130, 2, 1, 3, 4], 1, 6),
        Ok(vec![1, 2, 2, 2, 3, 4])
    );
}

#[test]
fn decoder_ignores_bytes_after_the_last_packet() {
    assert_eq!(
        Image::load_rle_data(&[129, 7, 99, 99, 99], 1, 2),
        Ok(vec![7, 7])
    );
}

#[test]
fn decoder_rejects_empty_stream() {
    assert_eq!(Image::load_rle_data(&[], 3, 1), Err(TgaError::InvalidFormat));
}

#[test]
fn decoder_rejects_stream_cut_inside_a_packet() {
    // raw packet of two pixels, the second one cut short
    assert_eq!(
        Image::load_rle_data(&[1, 3, 2, 1, 6, 5], 3, 2),
        Err(TgaError::InvalidFormat)
    );
    // repeat packet without its pixel
    assert_eq!(Image::load_rle_data(&[129], 3, 2), Err(TgaError::InvalidFormat));
    assert_eq!(
        Image::load_rle_data(&[129, 3, 2], 3, 2),
        Err(TgaError::InvalidFormat)
    );
}

#[test]
fn decoder_rejects_stream_cut_between_packets() {
    assert_eq!(
        Image::load_rle_data(&[129, 3, 2, 1], 3, 3),
        Err(TgaError::InvalidFormat)
    );
}

#[test]
fn decoder_rejects_packet_that_runs_past_the_image() {
    assert_eq!(
        Image::load_rle_data(&[130, 3, 2, 1], 3, 2),
        Err(TgaError::InvalidFormat)
    );
    assert_eq!(
        Image::load_rle_data(&[2, 1, 2, 3], 1, 2),
        Err(TgaError::InvalidFormat)
    );
    assert_eq!(
        Image::load_rle_data(&[0, 1, 129, 2], 1, 2),
        Err(TgaError::InvalidFormat)
    );
}

#[test]
fn encoding_is_rle_only() {
    assert_eq!(Encoding::Rle, Encoding::Rle);
}
