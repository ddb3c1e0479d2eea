use glyphnet::cv::{adaptive_threshold, CvError};
use glyphnet::raster::LumaImage;

fn image(width: u32, height: u32, pixels: Vec<u8>) -> LumaImage {
    LumaImage::from_raw(width, height, pixels).expect("one byte per pixel")
}

#[test]
fn adaptive_threshold_marks_dark_pixel_beside_light_ones() {
    let img = image(3, 1, vec![0, 255, 255]);
    let out = adaptive_threshold(&img, 1, 0).unwrap();
    assert_eq!(out.width(), 3);
    assert_eq!(out.height(), 1);
    assert_eq!(out.pixels(), &[0, 255, 255]);
}

#[test]
fn adaptive_threshold_keeps_uniform_image_white() {
    let img = image(4, 3, vec![90; 12]);
    let out = adaptive_threshold(&img, 2, 10).unwrap();
    assert_eq!(out.pixels(), &[255u8; 12][..]);
}

#[test]
fn adaptive_threshold_bias_lowers_the_threshold() {
    // Window means: x=0 -> 50, x=1 -> 60, x=2 -> 70.
    let img = image(3, 1, vec![40, 60, 80]);
    let plain = adaptive_threshold(&img, 1, 0).unwrap();
    assert_eq!(plain.pixels(), &[0, 255, 255]);
    let biased = adaptive_threshold(&img, 1, 20).unwrap();
    assert_eq!(biased.pixels(), &[255, 255, 255]);
}

#[test]
fn adaptive_threshold_uses_two_dimensional_windows() {
    // Centre pixel dark, the rest bright: with radius 1 every window covers the centre.
    let mut pixels = vec![200u8; 9];
    pixels[4] = 10;
    let img = image(3, 3, pixels);
    let out = adaptive_threshold(&img, 1, 0).unwrap();
    let mut expected = vec![255u8; 9];
    expected[4] = 0;
    assert_eq!(out.pixels(), &expected[..]);
}

#[test]
fn adaptive_threshold_rejects_empty_image() {
    let img = image(0, 5, Vec::new());
    assert_eq!(adaptive_threshold(&img, 1, 0).unwrap_err(), CvError::EmptyImage);
}

#[test]
fn adaptive_threshold_rejects_zero_radius() {
    let img = image(2, 2, vec![1, 2, 3, 4]);
    assert_eq!(adaptive_threshold(&img, 0, 0).unwrap_err(), CvError::InvalidWindow);
}
