use video_player::pixel::Pixel;
use video_player::video::Video;

fn decode(bytes: &[u8], rgb: bool) -> Vec<Pixel> {
    Video::new(String::from("clip"), &bytes.to_vec(), rgb).data
}

#[test]
fn grayscale_of_nothing_is_nothing() {
    assert_eq!(decode(&[], false), vec![]);
}

#[test]
fn grayscale_turns_every_byte_into_a_pixel() {
    let pixels = decode(&[0, 7, 128, 255], false);
    assert_eq!(
        pixels,
        vec![Pixel::BW(0), Pixel::BW(7), Pixel::BW(128), Pixel::BW(255)]
    );
}

#[test]
fn grayscale_keeps_length_and_order_of_a_long_input() {
    let bytes: Vec<u8> = (0..=255).collect();
    let pixels = decode(&bytes, false);
    assert_eq!(pixels.len(), 256);
    for (i, pixel) in pixels.iter().enumerate() {
        assert_eq!(*pixel, Pixel::BW(bytes[i]));
    }
}

#[test]
fn color_of_nothing_is_nothing() {
    assert_eq!(decode(&[], true), vec![]);
}

#[test]
fn color_groups_bytes_by_three() {
    let pixels = decode(&[1, 2, 3, 4, 5, 6, 7, 8, 9], true);
    assert_eq!(
        pixels,
        vec![Pixel::RGB(1, 2, 3), Pixel::RGB(4, 5, 6), Pixel::RGB(7, 8, 9)]
    );
}

#[test]
fn color_with_one_byte_left_over_repeats_it() {
    let pixels = decode(&[1, 2, 3, 4, 5, 6, 200], true);
    assert_eq!(
        pixels,
        vec![Pixel::RGB(1, 2, 3), Pixel::RGB(4, 5, 6), Pixel::RGB(200, 200, 200)]
    );
}

#[test]
fn color_with_two_bytes_left_over_repeats_the_first() {
    let pixels = decode(&[1, 2, 3, 4, 5, 6, 200, 100], true);
    assert_eq!(
        pixels,
        vec![Pixel::RGB(1, 2, 3), Pixel::RGB(4, 5, 6), Pixel::RGB(200, 200, 200)]
    );
}

#[test]
fn color_of_a_single_byte_is_one_pixel() {
    assert_eq!(decode(&[42], true), vec![Pixel::RGB(42, 42, 42)]);
}

#[test]
fn color_of_two_bytes_is_one_pixel() {
    assert_eq!(decode(&[42, 43], true), vec![Pixel::RGB(42, 42, 42)]);
}

#[test]
fn color_pixel_count_rounds_up() {
    for len in 0..20usize {
        let bytes = vec![9u8; len];
        assert_eq!(decode(&bytes, true).len(), (len + 2) / 3);
        assert_eq!(decode(&bytes, false).len(), len);
    }
}

#[test]
fn video_keeps_its_name_and_mode() {
    let bytes = vec![1u8, 2, 3];
    let gray = Video::new(String::from("a.raw"), &bytes, false);
    assert_eq!(gray.name, "a.raw");
    assert!(!gray.rgb);
    let color = Video::new(String::from("b.raw"), &bytes, true);
    assert_eq!(color.name, "b.raw");
    assert!(color.rgb);
    assert_eq!(bytes, vec![1u8, 2, 3]);
}
