use rust_photo::base::canvas::{Selection, SelectionType as CanvasSelectionType, Tool};
use rust_photo::base::raster::{GrayImage, Rgba, RgbaImage};
use rust_photo::base::selection::{
    clear_mask, colors_similar, combine_masks, grow_mask, invert_mask, magic_wand_mask, mask_edge_points, selection_bounds,
    shrink_mask, SelectionShape, SelectionType,
};

const ON: Rgba = [255, 255, 255, 255];
const OFF: Rgba = [0, 0, 0, 0];

fn image_from(width: u32, height: u32, pixels: Vec<Rgba>) -> RgbaImage {
    RgbaImage::from_pixels(width, height, pixels).expect("pixel count matches")
}

fn mask_from(width: u32, height: u32, bits: &str) -> RgbaImage {
    let pixels: Vec<Rgba> = bits.chars().map(|c| if c == '#' { ON } else { OFF }).collect();
    image_from(width, height, pixels)
}

fn bits_of(mask: &RgbaImage) -> String {
    mask.as_pixels().iter().map(|p| if p[0] > 0 { '#' } else { '.' }).collect()
}

#[test]
fn colors_similar_within_tolerance() {
    assert!(colors_similar([10, 20, 30, 40], [12, 18, 30, 40], 2));
    assert!(!colors_similar([10, 20, 30, 40], [13, 20, 30, 40], 2));
    assert!(colors_similar([0, 0, 0, 0], [0, 0, 0, 0], 0));
    assert!(!colors_similar([0, 0, 0, 0], [0, 0, 0, 1], 0));
}

#[test]
fn magic_wand_selects_connected_region_only() {
    let r: Rgba = [200, 0, 0, 255];
    let b: Rgba = [0, 0, 200, 255];
    // r r b
    // b r b
    // r b r
    let img = image_from(3, 3, vec![r, r, b, b, r, b, r, b, r]);
    let (mask, bounds) = magic_wand_mask(0, 0, &img, 10);
    assert_eq!(bits_of(&mask), "##..#....");
    assert_eq!(bounds, (0, 0, 2, 2));
    // the corner reds are not connected to the click through edges
    let (mask2, bounds2) = magic_wand_mask(2, 2, &img, 10);
    assert_eq!(bits_of(&mask2), "........#");
    assert_eq!(bounds2, (2, 2, 1, 1));
}

#[test]
fn magic_wand_tolerance_widens_region() {
    let img = image_from(3, 1, vec![[100, 100, 100, 255], [110, 100, 100, 255], [130, 100, 100, 255]]);
    let (narrow, _) = magic_wand_mask(0, 0, &img, 10);
    assert_eq!(bits_of(&narrow), "##.");
    let (wide, bounds) = magic_wand_mask(0, 0, &img, 30);
    assert_eq!(bits_of(&wide), "###");
    assert_eq!(bounds, (0, 0, 3, 1));
}

#[test]
fn selection_bounds_of_mask() {
    let mask = mask_from(4, 3, "......#..##.");
    assert_eq!(selection_bounds(&mask), Some((1, 1, 2, 2)));
    let empty = mask_from(2, 2, "....");
    assert_eq!(selection_bounds(&empty), None);
}

#[test]
fn combine_masks_union_subtract_intersect() {
    let a = mask_from(3, 1, "##.");
    let b = mask_from(3, 1, ".##");

    let mut union = a.clone();
    combine_masks(&mut union, &b, SelectionType::Add);
    assert_eq!(bits_of(&union), "###");

    let mut minus = a.clone();
    combine_masks(&mut minus, &b, SelectionType::Subtract);
    assert_eq!(bits_of(&minus), "#..");
    assert_eq!(minus.get_pixel(1, 0), [0, 0, 0, 255]);

    let mut both = a.clone();
    combine_masks(&mut both, &b, SelectionType::Intersect);
    assert_eq!(bits_of(&both), ".#.");

    let mut replaced = a.clone();
    combine_masks(&mut replaced, &b, SelectionType::New);
    assert_eq!(replaced.as_pixels(), b.as_pixels());
}

#[test]
fn invert_and_clear_masks() {
    let mut mask = mask_from(2, 1, "#.");
    invert_mask(&mut mask);
    assert_eq!(mask.get_pixel(0, 0), [0, 0, 0, 255]);
    assert_eq!(mask.get_pixel(1, 0), [255, 255, 255, 255]);
    clear_mask(&mut mask);
    assert_eq!(mask.as_pixels(), &vec![OFF, OFF]);
}

#[test]
fn grow_mask_dilates_by_disc() {
    let mut mask = mask_from(5, 5, "............#............");
    grow_mask(&mut mask, 1);
    assert_eq!(bits_of(&mask), ".......#...###...#.......");
    let mut mask2 = mask_from(5, 5, "............#............");
    grow_mask(&mut mask2, 0);
    assert_eq!(bits_of(&mask2), "............#............");
}

#[test]
fn shrink_mask_erodes_by_disc() {
    let mut mask = mask_from(5, 5, ".......#...###...#.......");
    shrink_mask(&mut mask, 1);
    assert_eq!(bits_of(&mask), "............#............");
    // positions are clamped at the border, so a full mask stays full
    let mut full = mask_from(3, 3, "#########");
    shrink_mask(&mut full, 2);
    assert_eq!(bits_of(&full), "#########");
}

#[test]
fn grow_then_shrink_keeps_an_isolated_block() {
    let mut mask = mask_from(6, 6, "..............##....##..............");
    let original = bits_of(&mask);
    grow_mask(&mut mask, 1);
    shrink_mask(&mut mask, 1);
    assert_eq!(bits_of(&mask), original);
}

#[test]
fn canvas_selection_rectangle_and_mask() {
    let selection = Selection::new(2, 3, 4, 5);
    assert!(selection.contains_point(2, 3));
    assert!(selection.contains_point(5, 7));
    assert!(!selection.contains_point(6, 7));
    assert!(!selection.contains_point(1, 3));
    assert!(selection.contains(3, 4));

    let mut mask = GrayImage::new(2, 2);
    mask.put_pixel(1, 1, 200);
    let masked = Selection::with_mask(0, 0, 4, 4, mask);
    assert!(masked.contains_point(1, 1));
    assert!(!masked.contains_point(0, 0));
    // beyond the mask but inside the rectangle the point is selected
    assert!(masked.contains_point(3, 3));
}

#[test]
fn canvas_selection_with_huge_u32_point() {
    let selection = Selection::new(-10, -10, 5, 5);
    // 0xFFFF_FFFA reads as -6
    assert!(selection.contains(0xFFFF_FFFA, 0xFFFF_FFFA));
}

#[test]
fn selection_enums_compare() {
    assert_ne!(SelectionShape::Rectangle, SelectionShape::Ellipse);
    assert_eq!(CanvasSelectionType::MagicWand, CanvasSelectionType::MagicWand);
    assert_ne!(Tool::Zoom, Tool::Hand);
}

#[test]
fn mask_edge_points_outline_the_selection() {
    const OFF: Rgba = [0, 0, 0, 0];
    // a 4x4 mask whose selected part is the 3x3 block at the top left
    let mut pixels = vec![OFF; 16];
    for y in 0..3 {
        for x in 0..3 {
            pixels[y * 4 + x] = ON;
        }
    }
    let mask = RgbaImage::from_pixels(4, 4, pixels).unwrap();
    let edges = mask_edge_points(&mask);
    // every selected pixel but the centre (1, 1) touches the border or an unselected pixel
    assert_eq!(
        edges,
        vec![(0, 0), (1, 0), (2, 0), (0, 1), (2, 1), (0, 2), (1, 2), (2, 2)]
    );
    let full = RgbaImage::from_pixels(1, 1, vec![ON]).unwrap();
    assert_eq!(mask_edge_points(&full), vec![(0, 0)]);
    let empty = RgbaImage::from_pixels(2, 1, vec![OFF, OFF]).unwrap();
    assert!(mask_edge_points(&empty).is_empty());
}
