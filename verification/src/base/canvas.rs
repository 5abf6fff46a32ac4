use vstd::prelude::*;
use crate::base::raster::GrayImage;

verus! {

/// Available tools for image editing
#[derive(Debug, Copy, Clone, PartialEq, Eq, Structural)]
pub enum Tool {
    Selection,
    Transform,
    Vector,
    Paint,
    Eraser,
    Clone,
    Healing,
    Text,
    Zoom,
    Hand,
}

/// Selection type for the Selection tool
#[derive(Debug, Copy, Clone, PartialEq, Eq, Structural)]
pub enum SelectionType {
    Rectangle,
    Ellipse,
    Freehand,
    MagicWand,
    Color,
}

/// A rectangular selection on the canvas, optionally narrowed by a mask whose
/// top-left corner sits at the rectangle's corner.
pub struct Selection {
    /// X coordinate of the selection
    pub x: i32,
    /// Y coordinate of the selection
    pub y: i32,
    /// Width of the selection
    pub width: i32,
    /// Height of the selection
    pub height: i32,
    /// Mask bitmap for the selection
    pub mask: Option<GrayImage>,
}

/// Whether the selection with corner `(sx, sy)`, size `w` by `h` and `mask`
/// holds the point `(x, y)`: it lies in the rectangle, and where the mask covers
/// it the mask value there is not zero.
pub open spec fn selection_holds(sx: int, sy: int, w: int, h: int, mask: Option<GrayImage>, x: int, y: int) -> bool {
    &&& sx <= x < sx + w
    &&& sy <= y < sy + h
    &&& match mask {
        Some(m) => m.in_bounds(x - sx, y - sy) ==> m.at(x - sx, y - sy) > 0,
        None => true,
    }
}

impl Selection {
    /// The rectangle `width` by `height` with its corner at `(x, y)`, without a mask.
    pub fn new(x: i32, y: i32, width: i32, height: i32) -> (r: Self)
        ensures
            r.x == x,
            r.y == y,
            r.width == width,
            r.height == height,
            r.mask is None,
    {
        Self { x, y, width, height, mask: None }
    }

    /// The rectangle `width` by `height` with its corner at `(x, y)`, narrowed by `mask`.
    pub fn with_mask(x: i32, y: i32, width: i32, height: i32, mask: GrayImage) -> (r: Self)
        ensures
            r.x == x,
            r.y == y,
            r.width == width,
            r.height == height,
            r.mask == Some(mask),
    {
        Self { x, y, width, height, mask: Some(mask) }
    }

    /// Whether the point `(x, y)` is selected.
    pub fn contains_point(&self, x: i32, y: i32) -> (r: bool)
        requires
            self.x + self.width <= i32::MAX,
            self.y + self.height <= i32::MAX,
            self.x + self.width >= i32::MIN,
            self.y + self.height >= i32::MIN,
        ensures
            r == selection_holds(
                self.x as int,
                self.y as int,
                self.width as int,
                self.height as int,
                self.mask,
                x as int,
                y as int,
            ),
    {
        if x < self.x || y < self.y || x >= self.x + self.width || y >= self.y + self.height {
            return false;
        }
        match &self.mask {
            Some(mask) => {
                let local_x = (x - self.x) as u32;
                let local_y = (y - self.y) as u32;
                if local_x < mask.width() && local_y < mask.height() {
                    let level = mask.get_pixel(local_x, local_y);
                    return level > 0;
                }
                true
            },
            None => true,
        }
    }

    /// Whether the point `(x, y)` is selected, its coordinates read as `i32`
    /// (wrapping, as a cast does).
    pub fn contains(&self, x: u32, y: u32) -> (r: bool)
        requires
            self.x + self.width <= i32::MAX,
            self.y + self.height <= i32::MAX,
            self.x + self.width >= i32::MIN,
            self.y + self.height >= i32::MIN,
        ensures
            r == selection_holds(
                self.x as int,
                self.y as int,
                self.width as int,
                self.height as int,
                self.mask,
                (x as i32) as int,
                (y as i32) as int,
            ),
    {
        self.contains_point(x as i32, y as i32)
    }
}

} // verus!
