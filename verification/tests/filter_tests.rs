use rust_photo::base::curves::apply_curve_tables;
use rust_photo::base::raster::{Rgba, RgbaImage};
use rust_photo::filters::artistic::{
    cartoon_intensity, quantize, sobel_x, sobel_y, OilPaintingFilter, PixelateFilter,
};
use rust_photo::filters::blur::{gray_levels, with_gray_levels, BoxBlur};
use rust_photo::filters::color::InvertFilter;
use rust_photo::filters::{
    apply_filter_to_region, apply_invert, downscale, extract_region, merge_region, strip_rows,
};

fn image_from(width: u32, height: u32, pixels: Vec<Rgba>) -> RgbaImage {
    RgbaImage::from_pixels(width, height, pixels).expect("pixel count matches")
}

fn gray(v: u8) -> Rgba {
    [v, v, v, 255]
}

#[test]
fn invert_negates_colors_and_keeps_alpha() {
    let img = image_from(2, 1, vec![[0, 10, 255, 7], [100, 200, 50, 255]]);
    let out = apply_invert(&img);
    assert_eq!(out.as_pixels(), &vec![[255, 245, 0, 7], [155, 55, 205, 255]]);
    let back = apply_invert(&out);
    assert_eq!(back.as_pixels(), img.as_pixels());
}

#[test]
fn invert_filter_names_itself() {
    let filter = InvertFilter::new();
    assert_eq!(filter.name(), "Invert");
    assert_eq!(filter.description(), "Inverts the colors of the image");
    let img = image_from(1, 1, vec![[1, 2, 3, 4]]);
    assert_eq!(filter.apply(&img).get_pixel(0, 0), [254, 253, 252, 4]);
}

#[test]
fn pixelate_averages_blocks() {
    // 3x2 image, block size 2: block (0..2, 0..2) and block (2..3, 0..2)
    let img = image_from(3, 2, vec![gray(0), gray(10), gray(100), gray(20), gray(31), gray(200)]);
    let filter = PixelateFilter::new(2);
    assert_eq!(filter.name(), "Pixelate");
    let out = filter.apply(&img);
    // (0 + 10 + 20 + 31) / 4 = 15
    assert_eq!(out.get_pixel(0, 0), gray(15));
    assert_eq!(out.get_pixel(1, 1), gray(15));
    // (100 + 200) / 2 = 150
    assert_eq!(out.get_pixel(2, 0), gray(150));
    assert_eq!(out.get_pixel(2, 1), gray(150));
}

#[test]
fn pixelate_with_block_size_one_is_identity() {
    let img = image_from(2, 2, vec![[1, 2, 3, 4], [5, 6, 7, 8], [9, 10, 11, 12], [13, 14, 15, 16]]);
    let out = PixelateFilter::new(1).apply(&img);
    assert_eq!(out.as_pixels(), img.as_pixels());
}

#[test]
fn oil_painting_picks_most_frequent_level() {
    // 3x1 row: dark, bright, bright; three levels (0, 250 and 240 fall in levels 0, 1, 1); radius 1
    let img = image_from(3, 1, vec![[0, 0, 0, 255], [250, 250, 250, 255], [240, 240, 240, 255]]);
    let filter = OilPaintingFilter::new(1, 3);
    assert_eq!(filter.name(), "Oil Painting");
    let out = filter.apply(&img);
    // pixel 0 sees levels {0, 1}: tie, the lowest level (0) wins
    assert_eq!(out.get_pixel(0, 0), [0, 0, 0, 255]);
    // pixel 1 sees {0, 1, 1}: level 1, mean of 250 and 240
    assert_eq!(out.get_pixel(1, 0), [245, 245, 245, 255]);
    assert_eq!(out.get_pixel(2, 0), [245, 245, 245, 255]);
}

#[test]
fn oil_painting_with_two_levels_averages_dark_neighbourhoods() {
    // with two levels only pure white reaches level 1, so every pixel is averaged
    let img = image_from(3, 1, vec![[0, 0, 0, 255], [250, 250, 250, 255], [240, 240, 240, 255]]);
    let out = OilPaintingFilter::new(1, 2).apply(&img);
    assert_eq!(out.get_pixel(0, 0), [125, 125, 125, 255]);
    assert_eq!(out.get_pixel(1, 0), [163, 163, 163, 255]);
    assert_eq!(out.get_pixel(2, 0), [245, 245, 245, 255]);
}

#[test]
fn oil_painting_on_empty_image_needs_no_levels() {
    let img = RgbaImage::new(0, 0);
    let out = OilPaintingFilter::new(3, 0).apply(&img);
    assert_eq!(out.width(), 0);
}

#[test]
fn box_blur_radius_is_at_least_one() {
    assert_eq!(BoxBlur::new(0).radius, 1);
    assert_eq!(BoxBlur::new(4).radius, 4);
    assert_eq!(BoxBlur::new(2).name(), "Box Blur");
}

#[test]
fn box_blur_of_uniform_image_is_uniform_gray() {
    let img = image_from(3, 3, vec![[30, 60, 90, 9]; 9]);
    let out = BoxBlur::new(1).apply(&img);
    for p in out.as_pixels() {
        assert_eq!(*p, [60, 60, 60, 9]);
    }
}

#[test]
fn box_blur_averages_neighbours() {
    // one bright pixel in the middle of a dark 3x3 image
    let mut pixels = vec![gray(0); 9];
    pixels[4] = gray(90);
    let img = image_from(3, 3, pixels);
    let out = BoxBlur::new(1).apply(&img);
    // horizontal pass: middle row becomes 30 30 30; vertical pass: every pixel 10
    assert_eq!(out.get_pixel(1, 1), gray(10));
    assert_eq!(out.get_pixel(0, 0), gray(10));
}

#[test]
fn gray_levels_round_down() {
    let img = image_from(2, 1, vec![[1, 1, 2, 0], [255, 255, 254, 0]]);
    assert_eq!(gray_levels(&img), vec![1, 254]);
    let out = with_gray_levels(&img, &vec![7, 8]);
    assert_eq!(out.as_pixels(), &vec![[7, 7, 7, 0], [8, 8, 8, 0]]);
}

#[test]
fn cartoon_helpers() {
    assert_eq!(cartoon_intensity([10, 20, 31, 0]), 20);
    assert_eq!(quantize(200, 4), 192);
    assert_eq!(quantize(255, 1), 0);
    assert_eq!(quantize(255, 2), 128);
    assert_eq!(quantize(100, 256), 100);
    // vertical edge: left column dark, right column bright
    let img = image_from(
        3,
        3,
        vec![gray(0), gray(0), gray(90), gray(0), gray(0), gray(90), gray(0), gray(0), gray(90)],
    );
    assert_eq!(sobel_x(&img, 1, 1), 4 * 90);
    assert_eq!(sobel_y(&img, 1, 1), 0);
}

#[test]
fn strips_cover_all_rows() {
    assert_eq!(strip_rows(10, 3), vec![(0, 3), (3, 6), (6, 10)]);
    assert_eq!(strip_rows(2, 4), vec![(0, 0), (0, 0), (0, 0), (0, 2)]);
    assert_eq!(strip_rows(5, 1), vec![(0, 5)]);
}

#[test]
fn downscale_samples_every_nth_pixel() {
    let pixels: Vec<Rgba> = (0..16u8).map(|i| gray(i)).collect();
    let img = image_from(4, 4, pixels);
    let small = downscale(&img, 2);
    assert_eq!(small.width(), 2);
    assert_eq!(small.height(), 2);
    assert_eq!(small.as_pixels(), &vec![gray(0), gray(2), gray(8), gray(10)]);
    let smaller = downscale(&img, 3);
    assert_eq!(smaller.as_pixels(), &vec![gray(0)]);
}

#[test]
fn extract_region_pads_with_transparent() {
    let img = image_from(2, 2, vec![gray(1), gray(2), gray(3), gray(4)]);
    let region = extract_region(&img, 1, 1, 2, 2);
    assert_eq!(region.as_pixels(), &vec![gray(4), [0, 0, 0, 0], [0, 0, 0, 0], [0, 0, 0, 0]]);
}

#[test]
fn merge_region_writes_inside_image_only() {
    let img = image_from(2, 2, vec![gray(1), gray(2), gray(3), gray(4)]);
    let patch = image_from(2, 2, vec![gray(9); 4]);
    let merged = merge_region(&img, &patch, 1, 0, 2, 2).expect("patch covers region");
    assert_eq!(merged.as_pixels(), &vec![gray(1), gray(9), gray(3), gray(9)]);
    let tiny = image_from(0, 0, vec![]);
    assert!(merge_region(&img, &tiny, 0, 0, 2, 2).is_none());
    assert!(merge_region(&img, &tiny, 5, 5, 2, 2).is_some());
}

#[test]
fn apply_filter_to_region_inverts_only_the_region() {
    let img = image_from(3, 1, vec![gray(0), gray(0), gray(0)]);
    let out = apply_filter_to_region(&img, |region: &RgbaImage| apply_invert(region), 1, 0, 1, 1)
        .expect("filter keeps the size");
    assert_eq!(out.as_pixels(), &vec![gray(0), [255, 255, 255, 255], gray(0)]);
    let shrunk = apply_filter_to_region(&img, |_: &RgbaImage| RgbaImage::new(0, 0), 0, 0, 2, 1);
    assert!(shrunk.is_none());
}

fn identity_table() -> [u8; 256] {
    let mut t = [0u8; 256];
    for (i, v) in t.iter_mut().enumerate() {
        *v = i as u8;
    }
    t
}

#[test]
fn identity_curves_leave_the_image_unchanged() {
    let img = image_from(2, 1, vec![[10, 20, 30, 40], [200, 100, 0, 255]]);
    let id = identity_table();
    let out = apply_curve_tables(&img, Some(&id), Some(&id), Some(&id), Some(&id));
    assert_eq!(out.as_pixels(), img.as_pixels());
    let none = apply_curve_tables(&img, None, None, None, None);
    assert_eq!(none.as_pixels(), img.as_pixels());
}

#[test]
fn curves_apply_composite_first_then_channel_tables_and_keep_alpha() {
    let img = image_from(1, 2, vec![[10, 20, 30, 40], [0, 255, 128, 7]]);
    let mut negative = [0u8; 256];
    for (i, v) in negative.iter_mut().enumerate() {
        *v = 255 - i as u8;
    }
    let mut double = [0u8; 256];
    for (i, v) in double.iter_mut().enumerate() {
        *v = (2 * i).min(255) as u8;
    }
    let out = apply_curve_tables(&img, Some(&negative), Some(&double), None, None);
    // red: 10 -> 245 -> 255; green: 20 -> 235; blue: 30 -> 225
    assert_eq!(out.as_pixels()[0], [255, 235, 225, 40]);
    // red: 0 -> 255 -> 255; green: 255 -> 0; blue: 128 -> 127
    assert_eq!(out.as_pixels()[1], [255, 0, 127, 7]);
    assert_eq!((out.width(), out.height()), (1, 2));
    let negated = apply_curve_tables(&img, None, Some(&negative), Some(&negative), Some(&negative));
    assert_eq!(negated.as_pixels(), apply_invert(&img).as_pixels());
}

#[test]
fn box_blur_repeats_edge_pixels() {
    let img = image_from(3, 1, vec![gray(0), gray(30), gray(60)]);
    let out = BoxBlur::new(1).apply(&img);
    // rows: [0,0,30]/3, [0,30,60]/3, [30,60,60]/3; one row, so the column pass keeps them
    assert_eq!(out.as_pixels(), &vec![gray(10), gray(30), gray(50)]);
}

#[test]
fn strips_partition_the_rows() {
    let strips = strip_rows(10, 3);
    assert_eq!(strips[0].0, 0);
    assert_eq!(strips[2].1, 10);
    assert_eq!(strips[0].1, strips[1].0);
    assert_eq!(strips[1].1, strips[2].0);
}

#[test]
fn oil_painting_keeps_a_uniform_image() {
    let img = image_from(3, 2, vec![[12, 200, 40, 77]; 6]);
    let out = OilPaintingFilter::new(2, 8).apply(&img);
    assert_eq!(out.as_pixels(), img.as_pixels());
}
