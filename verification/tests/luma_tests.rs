use glyphnet::candidates::luma_bounds::{dark_bounds_luma, vertical_dark_extent};
use glyphnet::cv::IntegralGray;
use glyphnet::primitives::{crc32, rs_parity, rs_reconstruct};
use glyphnet::raster::LumaImage;

fn image(width: u32, height: u32, dark: &[(u32, u32)]) -> LumaImage {
    let mut pixels = vec![200u8; (width * height) as usize];
    for &(x, y) in dark {
        pixels[(y * width + x) as usize] = 10;
    }
    LumaImage::from_raw(width, height, pixels).unwrap()
}

#[test]
fn dark_bounds_of_a_luma_crop() {
    let img = image(8, 6, &[(2, 1), (5, 4), (3, 3)]);
    assert_eq!(dark_bounds_luma(&img, 128), Some((2, 1, 5, 4)));
    assert_eq!(dark_bounds_luma(&img, 10), None);
    assert_eq!(dark_bounds_luma(&image(4, 4, &[]), 128), None);
}

#[test]
fn vertical_extent_in_a_column_band() {
    let img = image(8, 6, &[(2, 1), (5, 4), (3, 3)]);
    assert_eq!(vertical_dark_extent(&img, 128, 0, 2), Some((1, 1)));
    assert_eq!(vertical_dark_extent(&img, 128, 3, 100), Some((3, 4)));
    assert_eq!(vertical_dark_extent(&img, 128, 6, 7), None);
    assert_eq!(vertical_dark_extent(&img, 128, 20, 30), None);
}

#[test]
fn integral_sums_inclusive_rectangles() {
    let img = LumaImage::from_raw(3, 2, vec![1, 2, 3, 4, 5, 6]).unwrap();
    let table = IntegralGray::new(&img).unwrap();
    assert_eq!(table.sum_inclusive(0, 0, 2, 1), 21);
    assert_eq!(table.sum_inclusive(1, 0, 1, 1), 7);
    assert_eq!(table.sum_inclusive(2, 1, 10, 10), 6);
    assert_eq!(table.sum_inclusive(5, 5, 9, 9), 0);
}

#[test]
fn crc32_is_the_ieee_check_value() {
    assert_eq!(crc32(b"123456789"), 0xCBF4_3926);
    assert_eq!(crc32(b""), 0);
}

#[test]
fn reed_solomon_rebuilds_erased_bytes() {
    let data = [7u8, 1, 200, 33, 90];
    let parity = rs_parity(&data, 3).unwrap();
    let codeword: Vec<u8> = data.iter().chain(parity.iter()).copied().collect();
    let mut shards: Vec<Option<u8>> = codeword.iter().map(|b| Some(*b)).collect();
    shards[1] = None;
    shards[6] = None;
    assert_eq!(rs_reconstruct(&shards, 5, 3), Some(codeword.clone()));
    shards[0] = None;
    shards[2] = None;
    assert_eq!(rs_reconstruct(&shards, 5, 3), None);
}
