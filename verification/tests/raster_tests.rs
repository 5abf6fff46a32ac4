use rust_photo::base::raster::{checked_area, GrayImage, RgbaImage};

#[test]
fn new_image_is_transparent() {
    let img = RgbaImage::new(3, 2);
    assert_eq!(img.width(), 3);
    assert_eq!(img.height(), 2);
    assert_eq!(img.pixel_count(), 6);
    assert!(img.as_pixels().iter().all(|p| *p == [0, 0, 0, 0]));
}

#[test]
fn from_pixels_checks_count() {
    assert!(RgbaImage::from_pixels(2, 2, vec![[1, 2, 3, 4]; 4]).is_some());
    assert!(RgbaImage::from_pixels(2, 2, vec![[1, 2, 3, 4]; 3]).is_none());
    assert!(GrayImage::from_pixels(1, 3, vec![1, 2, 3]).is_some());
    assert!(GrayImage::from_pixels(1, 3, vec![1, 2]).is_none());
}

#[test]
fn put_and_get_pixel() {
    let mut img = RgbaImage::filled(2, 2, [9, 9, 9, 9]);
    img.put_pixel(1, 0, [1, 2, 3, 4]);
    assert_eq!(img.get_pixel(1, 0), [1, 2, 3, 4]);
    assert_eq!(img.get_pixel(0, 1), [9, 9, 9, 9]);
    let mut gray = GrayImage::new(2, 1);
    gray.put_pixel(1, 0, 77);
    assert_eq!(gray.get_pixel(1, 0), 77);
    assert_eq!(gray.get_pixel(0, 0), 0);
}

#[test]
fn cropped_and_resized_keep_overlap() {
    let img = RgbaImage::from_pixels(2, 2, vec![[1; 4], [2; 4], [3; 4], [4; 4]]).unwrap();
    let crop = img.cropped(1, 0, 2, 2);
    assert_eq!(crop.as_pixels(), &vec![[2; 4], [0; 4], [4; 4], [0; 4]]);
    let bigger = img.resized(3, 1);
    assert_eq!(bigger.as_pixels(), &vec![[1; 4], [2; 4], [0; 4]]);
}

#[test]
fn paste_copies_patch_inside_bounds() {
    let mut img = RgbaImage::new(3, 1);
    let patch = RgbaImage::filled(2, 1, [5; 4]);
    img.paste(&patch, 2, 0, 2, 1);
    assert_eq!(img.as_pixels(), &vec![[0; 4], [0; 4], [5; 4]]);
}

#[test]
fn clone_copies_pixels() {
    let img = RgbaImage::filled(2, 1, [7; 4]);
    let copy = img.clone();
    assert_eq!(copy.as_pixels(), img.as_pixels());
    assert_eq!(checked_area(0xFFFF_FFFF, 0xFFFF_FFFF), 0xFFFF_FFFE_0000_0001);
}
