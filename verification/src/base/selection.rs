use vstd::prelude::*;
use crate::base::raster::{RgbaImage, GrayImage, Rgba, transparent};

verus! {

/// Selection type - determines how selection operations work
#[derive(Debug, Clone, Copy, PartialEq, Eq, Structural)]
pub enum SelectionType {
    /// Replace the current selection
    New,
    /// Add to the current selection
    Add,
    /// Subtract from the current selection
    Subtract,
    /// Intersect with the current selection
    Intersect,
}

/// Selection shape - determines the initial shape of the selection
#[derive(Debug, Clone, Copy, PartialEq, Eq, Structural)]
pub enum SelectionShape {
    /// Rectangular selection
    Rectangle,
    /// Elliptical selection
    Ellipse,
    /// Freehand lasso selection
    Lasso,
    /// Polygon selection with straight lines
    Polygon,
    /// Magic wand selection (by color)
    MagicWand,
}

/// The opaque white pixel that marks a fully selected mask position.
pub open spec fn selected_pixel() -> Rgba {
    [255u8, 255u8, 255u8, 255u8]
}

/// Absolute difference of two channel values.
pub open spec fn channel_diff(a: u8, b: u8) -> int {
    if a >= b {
        a - b
    } else {
        b - a
    }
}

/// Whether two colours differ by at most `tolerance` in each of the four channels.
pub open spec fn similar(c1: Rgba, c2: Rgba, tolerance: u8) -> bool {
    &&& channel_diff(c1[0], c2[0]) <= tolerance
    &&& channel_diff(c1[1], c2[1]) <= tolerance
    &&& channel_diff(c1[2], c2[2]) <= tolerance
    &&& channel_diff(c1[3], c2[3]) <= tolerance
}

/// Whether two grid positions share an edge.
pub open spec fn adjacent(ax: int, ay: int, bx: int, by: int) -> bool {
    ||| ax == bx && (ay == by + 1 || ay + 1 == by)
    ||| ay == by && (ax == bx + 1 || ax + 1 == bx)
}

/// Whether `(x, y)` lies in `image` and its colour is within `tolerance` of `target`.
pub open spec fn wand_member(image: &RgbaImage, target: Rgba, tolerance: u8, x: int, y: int) -> bool {
    image.in_bounds(x, y) && similar(image.at(x, y), target, tolerance)
}

/// A non-empty sequence of edge-adjacent positions that all match `target`.
pub open spec fn is_wand_path(image: &RgbaImage, target: Rgba, tolerance: u8, path: Seq<(int, int)>) -> bool {
    &&& path.len() > 0
    &&& forall|i: int| 0 <= i < path.len() ==> wand_member(image, target, tolerance, #[trigger] path[i].0, path[i].1)
    &&& forall|i: int|
        0 <= i < path.len() - 1 ==> adjacent(#[trigger] path[i].0, path[i].1, path[i + 1].0, path[i + 1].1)
}

/// The region a magic wand click at `(sx, sy)` selects: the positions reachable from
/// the click through edge-adjacent pixels whose colours are all within
/// `tolerance` of the clicked pixel's colour.
pub open spec fn wand_region(image: &RgbaImage, sx: int, sy: int, tolerance: u8, x: int, y: int) -> bool {
    exists|path: Seq<(int, int)>|
        #![trigger is_wand_path(image, image.at(sx, sy), tolerance, path), path.last()]
        is_wand_path(image, image.at(sx, sy), tolerance, path) && path[0] == (sx, sy) && path.last() == (x, y)
}

/// Whether the mask pixel at `(x, y)` is (at least partly) selected.
pub open spec fn is_selected(mask: &RgbaImage, x: int, y: int) -> bool {
    mask.at(x, y)[0] > 0
}

/// `(bx, by, bw, bh)` is the smallest rectangle holding every selected pixel of `mask`,
/// which has at least one.
pub open spec fn is_bounding_box(mask: &RgbaImage, bx: int, by: int, bw: int, bh: int) -> bool {
    &&& bw >= 1 && bh >= 1
    &&& forall|x: int, y: int|
        mask.in_bounds(x, y) && #[trigger] is_selected(mask, x, y) ==> bx <= x < bx + bw && by <= y < by + bh
    &&& exists|x: int, y: int| mask.in_bounds(x, y) && #[trigger] is_selected(mask, x, y) && x == bx
    &&& exists|x: int, y: int| mask.in_bounds(x, y) && #[trigger] is_selected(mask, x, y) && x == bx + bw - 1
    &&& exists|x: int, y: int| mask.in_bounds(x, y) && #[trigger] is_selected(mask, x, y) && y == by
    &&& exists|x: int, y: int| mask.in_bounds(x, y) && #[trigger] is_selected(mask, x, y) && y == by + bh - 1
}

/// Whether any pixel of `mask` is selected.
pub open spec fn has_selection(mask: &RgbaImage) -> bool {
    exists|x: int, y: int| mask.in_bounds(x, y) && #[trigger] is_selected(mask, x, y)
}

/// The bounding box `(x, y, width, height)` of the selected pixels of `mask`,
/// or `None` when no pixel is selected.
pub fn selection_bounds(mask: &RgbaImage) -> (r: Option<(u32, u32, u32, u32)>)
    ensures
        r is None <==> !has_selection(mask),
        r matches Some(b) ==> is_bounding_box(mask, b.0 as int, b.1 as int, b.2 as int, b.3 as int),
{
    let width = mask.width();
    let height = mask.height();
    let mut min_x: u32 = width;
    let mut min_y: u32 = height;
    let mut max_x: u32 = 0;
    let mut max_y: u32 = 0;
    let mut found = false;
    // positions of selected pixels attaining each extreme
    let ghost mut lo_x: (int, int) = (0, 0);
    let ghost mut hi_x: (int, int) = (0, 0);
    let ghost mut lo_y: (int, int) = (0, 0);
    let ghost mut hi_y: (int, int) = (0, 0);
    let mut y: u32 = 0;
    while y < height
        invariant
            width == mask.w(),
            height == mask.h(),
            y <= height,
            found <==> exists|a: int, b: int| 0 <= a < width && 0 <= b < y && #[trigger] is_selected(mask, a, b),
            found ==> {
                &&& forall|a: int, b: int|
                    0 <= a < width && 0 <= b < y && #[trigger] is_selected(mask, a, b) ==> min_x <= a <= max_x
                        && min_y <= b <= max_y
                &&& mask.in_bounds(lo_x.0, lo_x.1) && is_selected(mask, lo_x.0, lo_x.1) && lo_x.0 == min_x
                &&& mask.in_bounds(hi_x.0, hi_x.1) && is_selected(mask, hi_x.0, hi_x.1) && hi_x.0 == max_x
                &&& mask.in_bounds(lo_y.0, lo_y.1) && is_selected(mask, lo_y.0, lo_y.1) && lo_y.1 == min_y
                &&& mask.in_bounds(hi_y.0, hi_y.1) && is_selected(mask, hi_y.0, hi_y.1) && hi_y.1 == max_y
            },
        decreases height - y,
    {
        let mut x: u32 = 0;
        while x < width
            invariant
                width == mask.w(),
                height == mask.h(),
                y < height,
                x <= width,
                found <==> exists|a: int, b: int|
                    0 <= a < width && 0 <= b < height && (b < y || (b == y && a < x)) && #[trigger] is_selected(
                        mask,
                        a,
                        b,
                    ),
                found ==> {
                    &&& forall|a: int, b: int|
                        0 <= a < width && 0 <= b < height && (b < y || (b == y && a < x)) && #[trigger] is_selected(
                            mask,
                            a,
                            b,
                        ) ==> min_x <= a <= max_x && min_y <= b <= max_y
                    &&& mask.in_bounds(lo_x.0, lo_x.1) && is_selected(mask, lo_x.0, lo_x.1) && lo_x.0 == min_x
                    &&& mask.in_bounds(hi_x.0, hi_x.1) && is_selected(mask, hi_x.0, hi_x.1) && hi_x.0 == max_x
                    &&& mask.in_bounds(lo_y.0, lo_y.1) && is_selected(mask, lo_y.0, lo_y.1) && lo_y.1 == min_y
                    &&& mask.in_bounds(hi_y.0, hi_y.1) && is_selected(mask, hi_y.0, hi_y.1) && hi_y.1 == max_y
                },
            decreases width - x,
        {
            let px = mask.get_pixel(x, y);
            proof {
                assert(is_selected(mask, x as int, y as int) <==> px[0] > 0);
            }
            if px[0] > 0 {
                if !found {
                    min_x = x;
                    max_x = x;
                    min_y = y;
                    max_y = y;
                    proof {
                        lo_x = (x as int, y as int);
                        hi_x = (x as int, y as int);
                        lo_y = (x as int, y as int);
                        hi_y = (x as int, y as int);
                    }
                } else {
                    if x < min_x {
                        min_x = x;
                        proof {
                            lo_x = (x as int, y as int);
                        }
                    }
                    if x > max_x {
                        max_x = x;
                        proof {
                            hi_x = (x as int, y as int);
                        }
                    }
                    if y < min_y {
                        min_y = y;
                        proof {
                            lo_y = (x as int, y as int);
                        }
                    }
                    if y > max_y {
                        max_y = y;
                        proof {
                            hi_y = (x as int, y as int);
                        }
                    }
                }
                found = true;
            }
            x = x + 1;
        }
        y = y + 1;
    }
    if found {
        proof {
            assert(is_selected(mask, lo_x.0, lo_x.1));
            assert(is_selected(mask, hi_x.0, hi_x.1));
            assert(is_selected(mask, lo_y.0, lo_y.1));
            assert(is_selected(mask, hi_y.0, hi_y.1));
        }
        Some((min_x, min_y, max_x - min_x + 1, max_y - min_y + 1))
    } else {
        None
    }
}

/// The number of zero entries of `s`.
pub open spec fn count_zeros(s: Seq<u8>) -> nat
    decreases s.len(),
{
    if s.len() == 0 {
        0
    } else {
        count_zeros(s.drop_last()) + if s.last() == 0 {
            1nat
        } else {
            0nat
        }
    }
}

/// Turning a zero entry into a non-zero one removes exactly one zero.
proof fn lemma_count_zeros_update(s: Seq<u8>, i: int, v: u8)
    requires
        0 <= i < s.len(),
        s[i] == 0,
        v != 0,
    ensures
        count_zeros(s.update(i, v)) + 1 == count_zeros(s),
    decreases s.len(),
{
    if i == s.len() - 1 {
        assert(s.update(i, v).drop_last() =~= s.drop_last());
    } else {
        lemma_count_zeros_update(s.drop_last(), i, v);
        assert(s.update(i, v).drop_last() =~= s.drop_last().update(i, v));
    }
}

/// Every colour is similar to itself.
proof fn lemma_similar_refl(c: Rgba, tolerance: u8)
    ensures
        similar(c, c, tolerance),
{
}

/// The clicked position belongs to its own magic wand region.
proof fn lemma_region_start(image: &RgbaImage, sx: int, sy: int, tolerance: u8)
    requires
        image.in_bounds(sx, sy),
    ensures
        wand_region(image, sx, sy, tolerance, sx, sy),
{
    let path = seq![(sx, sy)];
    lemma_similar_refl(image.at(sx, sy), tolerance);
    assert(is_wand_path(image, image.at(sx, sy), tolerance, path));
    assert(path.last() == (sx, sy));
}

/// A matching neighbour of a region position is in the region too.
proof fn lemma_region_extend(
    image: &RgbaImage,
    sx: int,
    sy: int,
    tolerance: u8,
    qx: int,
    qy: int,
    px: int,
    py: int,
)
    requires
        wand_region(image, sx, sy, tolerance, qx, qy),
        adjacent(qx, qy, px, py),
        wand_member(image, image.at(sx, sy), tolerance, px, py),
    ensures
        wand_region(image, sx, sy, tolerance, px, py),
{
    let target = image.at(sx, sy);
    let path = choose|path: Seq<(int, int)>|
        #![trigger is_wand_path(image, target, tolerance, path), path.last()]
        is_wand_path(image, target, tolerance, path) && path[0] == (sx, sy) && path.last() == (qx, qy);
    let longer = path.push((px, py));
    assert forall|i: int| 0 <= i < longer.len() implies wand_member(image, target, tolerance, #[trigger] longer[i].0, longer[i].1) by {
        if i < path.len() {
            assert(longer[i] == path[i]);
        }
    }
    assert forall|i: int| 0 <= i < longer.len() - 1 implies adjacent(
        #[trigger] longer[i].0,
        longer[i].1,
        longer[i + 1].0,
        longer[i + 1].1,
    ) by {
        if i < path.len() - 1 {
            assert(longer[i] == path[i] && longer[i + 1] == path[i + 1]);
        } else {
            assert(longer[i] == path.last());
        }
    }
    assert(is_wand_path(image, target, tolerance, longer));
    assert(longer[0] == (sx, sy));
    assert(longer.last() == (px, py));
}

/// When the marked matching positions are closed under adjacency, every wand path
/// that starts at a marked position ends at one.
proof fn lemma_path_marked(image: &RgbaImage, target: Rgba, tolerance: u8, visited: &GrayImage, path: Seq<(int, int)>)
    requires
        is_wand_path(image, target, tolerance, path),
        visited.w() == image.w(),
        visited.h() == image.h(),
        visited.at(path[0].0, path[0].1) != 0,
        forall|a: int, b: int, c: int, d: int|
            image.in_bounds(a, b) && image.in_bounds(c, d) && adjacent(a, b, c, d) && #[trigger] visited.at(a, b)
                != 0 && wand_member(image, target, tolerance, a, b) ==> #[trigger] visited.at(c, d) != 0,
    ensures
        visited.at(path.last().0, path.last().1) != 0,
    decreases path.len(),
{
    if path.len() > 1 {
        let prefix = path.drop_last();
        assert forall|i: int| 0 <= i < prefix.len() implies wand_member(image, target, tolerance, #[trigger] prefix[i].0, prefix[i].1) by {
            assert(prefix[i] == path[i]);
        }
        assert forall|i: int| 0 <= i < prefix.len() - 1 implies adjacent(
            #[trigger] prefix[i].0,
            prefix[i].1,
            prefix[i + 1].0,
            prefix[i + 1].1,
        ) by {
            assert(prefix[i] == path[i] && prefix[i + 1] == path[i + 1]);
        }
        lemma_path_marked(image, target, tolerance, visited, prefix);
        let q = prefix.last();
        let p = path.last();
        assert(q == path[path.len() - 2]);
        assert(adjacent(path[path.len() - 2].0, path[path.len() - 2].1, path[path.len() - 1].0, path[path.len() - 1].1));
        assert(wand_member(image, target, tolerance, q.0, q.1));
        assert(wand_member(image, target, tolerance, p.0, p.1));
        assert(visited.at(q.0, q.1) != 0);
    }
}

/// Whether position `(a, b)` is among the positions waiting on `stack`.
pub open spec fn on_stack(stack: Seq<(u32, u32)>, a: int, b: int) -> bool {
    exists|k: int| 0 <= k < stack.len() && #[trigger] stack[k].0 == a && stack[k].1 == b
}


/// Whether `s` is a legitimate pending position of the flood fill started at
/// `(x, y)`: the start itself, or a neighbour of the marked matching position `q`.
pub open spec fn is_candidate(
    image: &RgbaImage,
    target: Rgba,
    tolerance: u8,
    visited: &GrayImage,
    x: u32,
    y: u32,
    s: (u32, u32),
    q: (int, int),
) -> bool {
    (s.0 == x && s.1 == y) || {
        &&& adjacent(q.0, q.1, s.0 as int, s.1 as int)
        &&& image.in_bounds(q.0, q.1)
        &&& visited.at(q.0, q.1) != 0
        &&& wand_member(image, target, tolerance, q.0, q.1)
    }
}

/// Flood fill state: the mask is white exactly at the marked matching positions.
#[verifier::opaque]
spec fn mask_matches(image: &RgbaImage, target: Rgba, tolerance: u8, visited: &GrayImage, mask: &RgbaImage) -> bool {
    forall|a: int, b: int|
        image.in_bounds(a, b) ==> #[trigger] mask.at(a, b) == if visited.at(a, b) != 0 && wand_member(
            image,
            target,
            tolerance,
            a,
            b,
        ) {
            selected_pixel()
        } else {
            transparent()
        }
}

/// Flood fill state: every marked matching position lies in the wand region.
#[verifier::opaque]
spec fn marked_in_region(image: &RgbaImage, x: u32, y: u32, tolerance: u8, target: Rgba, visited: &GrayImage) -> bool {
    forall|a: int, b: int|
        image.in_bounds(a, b) && #[trigger] visited.at(a, b) != 0 && wand_member(image, target, tolerance, a, b)
            ==> wand_region(image, x as int, y as int, tolerance, a, b)
}

/// Flood fill state: each in-bounds neighbour of a marked matching position is
/// marked or pending.
#[verifier::opaque]
spec fn marks_closed(image: &RgbaImage, target: Rgba, tolerance: u8, visited: &GrayImage, stack: Seq<(u32, u32)>) -> bool {
    forall|a: int, b: int, c: int, d: int|
        image.in_bounds(a, b) && image.in_bounds(c, d) && adjacent(a, b, c, d) && #[trigger] visited.at(a, b) != 0
            && wand_member(image, target, tolerance, a, b) ==> #[trigger] visited.at(c, d) != 0 || on_stack(stack, c, d)
}

/// Flood fill state: every pending position is in bounds and a candidate.
#[verifier::opaque]
spec fn pending_ok(
    image: &RgbaImage,
    target: Rgba,
    tolerance: u8,
    visited: &GrayImage,
    x: u32,
    y: u32,
    stack: Seq<(u32, u32)>,
    parents: Seq<(int, int)>,
) -> bool {
    &&& parents.len() == stack.len()
    &&& forall|k: int| 0 <= k < stack.len() ==> image.in_bounds(#[trigger] stack[k].0 as int, stack[k].1 as int)
    &&& forall|k: int|
        0 <= k < stack.len() ==> #[trigger] is_candidate(image, target, tolerance, visited, x, y, stack[k], parents[k])
}

/// `visited` equals `old_visited` except that `(px, py)`, unmarked before, is now marked.
spec fn marks_one_more(image: &RgbaImage, old_visited: &GrayImage, visited: &GrayImage, px: int, py: int) -> bool {
    &&& old_visited.w() == image.w() && old_visited.h() == image.h()
    &&& visited.w() == image.w() && visited.h() == image.h()
    &&& image.in_bounds(px, py)
    &&& old_visited.at(px, py) == 0
    &&& visited.at(px, py) != 0
    &&& forall|a: int, b: int|
        image.in_bounds(a, b) && !(a == px && b == py) ==> #[trigger] visited.at(a, b) == old_visited.at(a, b)
}

proof fn lemma_on_stack_last(stack: Seq<(u32, u32)>, a: int, b: int)
    requires
        stack.len() > 0,
        stack.last().0 == a,
        stack.last().1 == b,
    ensures
        on_stack(stack, a, b),
{
    assert(stack[stack.len() - 1].0 == a);
}

proof fn lemma_on_stack_push_all(stack: Seq<(u32, u32)>, v: (u32, u32))
    ensures
        forall|a: int, b: int| on_stack(stack, a, b) ==> #[trigger] on_stack(stack.push(v), a, b),
{
    assert forall|a: int, b: int| on_stack(stack, a, b) implies #[trigger] on_stack(stack.push(v), a, b) by {
        let k = choose|k: int| 0 <= k < stack.len() && #[trigger] stack[k].0 == a && stack[k].1 == b;
        assert(stack.push(v)[k] == stack[k]);
    }
}

/// Marking a position keeps the mask in step, given the mask was updated accordingly.
proof fn lemma_mask_after_mark(
    image: &RgbaImage,
    target: Rgba,
    tolerance: u8,
    old_visited: &GrayImage,
    visited: &GrayImage,
    old_mask: &RgbaImage,
    mask: &RgbaImage,
    px: int,
    py: int,
)
    requires
        mask_matches(image, target, tolerance, old_visited, old_mask),
        marks_one_more(image, old_visited, visited, px, py),
        forall|a: int, b: int|
            image.in_bounds(a, b) && !(a == px && b == py) ==> #[trigger] mask.at(a, b) == old_mask.at(a, b),
        mask.at(px, py) == if wand_member(image, target, tolerance, px, py) {
            selected_pixel()
        } else {
            transparent()
        },
    ensures
        mask_matches(image, target, tolerance, visited, mask),
{
    reveal(mask_matches);
    assert forall|a: int, b: int| image.in_bounds(a, b) implies #[trigger] mask.at(a, b) == if visited.at(a, b) != 0
        && wand_member(image, target, tolerance, a, b) {
        selected_pixel()
    } else {
        transparent()
    } by {
        if !(a == px && b == py) {
            assert(mask.at(a, b) == old_mask.at(a, b));
            assert(visited.at(a, b) == old_visited.at(a, b));
        }
    }
}

/// Marking a position of the region keeps every marked matching position in the region.
proof fn lemma_region_after_mark(
    image: &RgbaImage,
    x: u32,
    y: u32,
    tolerance: u8,
    target: Rgba,
    old_visited: &GrayImage,
    visited: &GrayImage,
    px: int,
    py: int,
)
    requires
        marked_in_region(image, x, y, tolerance, target, old_visited),
        marks_one_more(image, old_visited, visited, px, py),
        wand_member(image, target, tolerance, px, py) ==> wand_region(image, x as int, y as int, tolerance, px, py),
    ensures
        marked_in_region(image, x, y, tolerance, target, visited),
{
    reveal(marked_in_region);
    assert forall|a: int, b: int|
        image.in_bounds(a, b) && #[trigger] visited.at(a, b) != 0 && wand_member(image, target, tolerance, a, b)
            implies wand_region(image, x as int, y as int, tolerance, a, b) by {
        if !(a == px && b == py) {
            assert(visited.at(a, b) == old_visited.at(a, b));
        }
    }
}

/// Pending positions stay legitimate when marks only grow and the stack keeps a
/// prefix of the old stack, extended by in-bounds neighbours of the marked
/// matching position `(px, py)`.
proof fn lemma_pending_after_step(
    image: &RgbaImage,
    target: Rgba,
    tolerance: u8,
    old_visited: &GrayImage,
    visited: &GrayImage,
    x: u32,
    y: u32,
    old_stack: Seq<(u32, u32)>,
    old_parents: Seq<(int, int)>,
    stack: Seq<(u32, u32)>,
    parents: Seq<(int, int)>,
    px: int,
    py: int,
)
    requires
        pending_ok(image, target, tolerance, old_visited, x, y, old_stack, old_parents),
        old_stack.len() > 0,
        stack.len() >= old_stack.len() - 1,
        parents.len() == stack.len(),
        forall|k: int| 0 <= k < old_stack.len() - 1 ==> stack[k] == old_stack[k] && parents[k] == old_parents[k],
        forall|k: int|
            old_stack.len() - 1 <= k < stack.len() ==> parents[k] == (px, py) && image.in_bounds(
                #[trigger] stack[k].0 as int,
                stack[k].1 as int,
            ) && adjacent(px, py, stack[k].0 as int, stack[k].1 as int),
        stack.len() > old_stack.len() - 1 ==> visited.at(px, py) != 0 && wand_member(image, target, tolerance, px, py),
        forall|a: int, b: int| image.in_bounds(a, b) && old_visited.at(a, b) != 0 ==> #[trigger] visited.at(a, b) != 0,
    ensures
        pending_ok(image, target, tolerance, visited, x, y, stack, parents),
{
    reveal(pending_ok);
    assert forall|k: int| 0 <= k < stack.len() implies image.in_bounds(#[trigger] stack[k].0 as int, stack[k].1 as int) by {
        if k < old_stack.len() - 1 {
            assert(stack[k] == old_stack[k]);
        }
    }
    assert forall|k: int| 0 <= k < stack.len() implies #[trigger] is_candidate(
        image,
        target,
        tolerance,
        visited,
        x,
        y,
        stack[k],
        parents[k],
    ) by {
        if k < old_stack.len() - 1 {
            assert(stack[k] == old_stack[k] && parents[k] == old_parents[k]);
            assert(is_candidate(image, target, tolerance, old_visited, x, y, old_stack[k], old_parents[k]));
            let q = old_parents[k];
            if !(stack[k].0 == x && stack[k].1 == y) {
                assert(old_visited.at(q.0, q.1) != 0);
                assert(visited.at(q.0, q.1) != 0);
            }
        } else {
            assert(image.in_bounds(stack[k].0 as int, stack[k].1 as int));
            assert(parents[k] == (px, py));
        }
    }
}

/// Popping `(px, py)` and possibly marking it keeps the closure of the marked
/// matching positions, as long as every in-bounds neighbour of a newly marked
/// matching position is marked or pending.
proof fn lemma_closure_after_pop(
    image: &RgbaImage,
    target: Rgba,
    tolerance: u8,
    old_visited: &GrayImage,
    visited: &GrayImage,
    old_stack: Seq<(u32, u32)>,
    stack: Seq<(u32, u32)>,
    px: u32,
    py: u32,
)
    requires
        marks_closed(image, target, tolerance, old_visited, old_stack),
        old_stack.len() > 0,
        old_stack.last() == (px, py),
        image.in_bounds(px as int, py as int),
        stack.len() >= old_stack.len() - 1,
        forall|k: int| 0 <= k < old_stack.len() - 1 ==> stack[k] == old_stack[k],
        old_visited.w() == image.w() && old_visited.h() == image.h(),
        visited.w() == image.w() && visited.h() == image.h(),
        visited.at(px as int, py as int) != 0,
        forall|a: int, b: int|
            image.in_bounds(a, b) && !(a == px && b == py) ==> #[trigger] visited.at(a, b) == old_visited.at(a, b),
        old_visited.at(px as int, py as int) == 0 && wand_member(image, target, tolerance, px as int, py as int) ==> {
            &&& (px > 0 ==> visited.at(px - 1, py as int) != 0 || on_stack(stack, px - 1, py as int))
            &&& (px < image.w() - 1 ==> visited.at(px + 1, py as int) != 0 || on_stack(stack, px + 1, py as int))
            &&& (py > 0 ==> visited.at(px as int, py - 1) != 0 || on_stack(stack, px as int, py - 1))
            &&& (py < image.h() - 1 ==> visited.at(px as int, py + 1) != 0 || on_stack(stack, px as int, py + 1))
        },
        old_visited.at(px as int, py as int) != 0 ==> visited.at(px as int, py as int) == old_visited.at(
            px as int,
            py as int,
        ),
    ensures
        marks_closed(image, target, tolerance, visited, stack),
{
    reveal(marks_closed);
    assert forall|a: int, b: int, c: int, d: int|
        image.in_bounds(a, b) && image.in_bounds(c, d) && adjacent(a, b, c, d) && #[trigger] visited.at(a, b) != 0
            && wand_member(image, target, tolerance, a, b) implies #[trigger] visited.at(c, d) != 0 || on_stack(
        stack,
        c,
        d,
    ) by {
        if old_visited.at(a, b) != 0 {
            if old_visited.at(c, d) != 0 {
                if !(c == px && d == py) {
                    assert(visited.at(c, d) == old_visited.at(c, d));
                }
            } else {
                assert(on_stack(old_stack, c, d));
                let k = choose|k: int| 0 <= k < old_stack.len() && #[trigger] old_stack[k].0 == c && old_stack[k].1 == d;
                if k < old_stack.len() - 1 {
                    assert(stack[k] == old_stack[k]);
                    assert(on_stack(stack, c, d));
                }
            }
        } else {
            assert(a == px && b == py);
        }
    }
}

/// The magic wand mask for a click at `(x, y)`: the pixels of the click's region
/// (see `wand_region`) are opaque white, all others transparent black; returned
/// together with the region's bounding box `(x, y, width, height)`.
#[verifier::rlimit(100)]
pub fn magic_wand_mask(x: u32, y: u32, image: &RgbaImage, tolerance: u8) -> (r: (RgbaImage, (u32, u32, u32, u32)))
    requires
        image.in_bounds(x as int, y as int),
    ensures
        r.0.w() == image.w(),
        r.0.h() == image.h(),
        forall|a: int, b: int|
            image.in_bounds(a, b) ==> #[trigger] r.0.at(a, b) == if wand_region(
                image,
                x as int,
                y as int,
                tolerance,
                a,
                b,
            ) {
                selected_pixel()
            } else {
                transparent()
            },
        is_bounding_box(&r.0, r.1.0 as int, r.1.1 as int, r.1.2 as int, r.1.3 as int),
{
    let width = image.width();
    let height = image.height();
    let n = image.pixel_count();
    let mut mask = RgbaImage::new(width, height);
    let target = image.get_pixel(x, y);
    let mut visited = GrayImage::new(width, height);
    let mut stack: Vec<(u32, u32)> = Vec::new();
    stack.push((x, y));
    let ghost mut parents: Seq<(int, int)> = seq![(x as int, y as int)];
    proof {
        assert(stack@[0].0 == x && stack@[0].1 == y);
        reveal(mask_matches);
        reveal(marked_in_region);
        reveal(marks_closed);
        reveal(pending_ok);
        assert(is_candidate(image, target, tolerance, &visited, x, y, stack@[0], parents[0]));
    }
    while stack.len() > 0
        invariant
            width == image.w(),
            height == image.h(),
            target == image.at(x as int, y as int),
            image.in_bounds(x as int, y as int),
            mask.w() == width,
            mask.h() == height,
            visited.w() == width,
            visited.h() == height,
            visited.data().len() == width as nat * height as nat,
            pending_ok(image, target, tolerance, &visited, x, y, stack@, parents),
            mask_matches(image, target, tolerance, &visited, &mask),
            marked_in_region(image, x, y, tolerance, target, &visited),
            marks_closed(image, target, tolerance, &visited, stack@),
            visited.at(x as int, y as int) != 0 || on_stack(stack@, x as int, y as int),
        decreases 5 * count_zeros(visited.data()) + stack@.len(),
    {
        let ghost old_stack = stack@;
        let ghost old_visited = visited;
        let ghost old_mask = mask;
        let ghost old_parents = parents;
        let (px, py) = stack.pop().unwrap();
        proof {
            reveal(pending_ok);
            assert(stack@ == old_stack.drop_last());
            assert((px, py) == old_stack.last());
            assert(is_candidate(
                image,
                target,
                tolerance,
                &visited,
                x,
                y,
                old_stack[old_stack.len() - 1],
                old_parents[old_stack.len() - 1],
            ));
            assert(image.in_bounds(old_stack[old_stack.len() - 1].0 as int, old_stack[old_stack.len() - 1].1 as int));
            parents = parents.drop_last();
        }
        let ghost p_parent = old_parents.last();
        if visited.get_pixel(px, py) == 0 {
            proof {
                crate::base::raster::lemma_pixel_index(width as nat, height as nat, px as int, py as int);
                lemma_count_zeros_update(visited.data(), py as int * width as nat + px as int, 1u8);
            }
            visited.put_pixel(px, py, 1);
            proof {
                assert(marks_one_more(image, &old_visited, &visited, px as int, py as int));
            }
            let current = image.get_pixel(px, py);
            let is_member = colors_similar(current, target, tolerance);
            proof {
                if is_member {
                    if px == x && py == y {
                        lemma_region_start(image, x as int, y as int, tolerance);
                    } else {
                        reveal(marked_in_region);
                        assert(old_visited.at(p_parent.0, p_parent.1) != 0);
                        lemma_region_extend(
                            image,
                            x as int,
                            y as int,
                            tolerance,
                            p_parent.0,
                            p_parent.1,
                            px as int,
                            py as int,
                        );
                    }
                }
                lemma_region_after_mark(image, x, y, tolerance, target, &old_visited, &visited, px as int, py as int);
            }
            if is_member {
                mask.put_pixel(px, py, [255u8, 255u8, 255u8, 255u8]);
                proof {
                    lemma_mask_after_mark(
                        image,
                        target,
                        tolerance,
                        &old_visited,
                        &visited,
                        &old_mask,
                        &mask,
                        px as int,
                        py as int,
                    );
                }
                let ghost popped_len = stack@.len();
                if px > 0 && visited.get_pixel(px - 1, py) == 0 {
                    stack.push((px - 1, py));
                    proof {
                        parents = parents.push((px as int, py as int));
                        lemma_on_stack_last(stack@, (px - 1) as int, py as int);
                    }
                }
                proof {
                    assert(px > 0 ==> visited.at(px - 1, py as int) != 0 || on_stack(stack@, px - 1, py as int));
                    assert(forall|k: int|
                        popped_len <= k < stack@.len() ==> parents[k] == (px as int, py as int) && image.in_bounds(
                            #[trigger] stack@[k].0 as int,
                            stack@[k].1 as int,
                        ) && adjacent(px as int, py as int, stack@[k].0 as int, stack@[k].1 as int));
                }
                if px < width - 1 && visited.get_pixel(px + 1, py) == 0 {
                    let ghost before = stack@;
                    stack.push((px + 1, py));
                    proof {
                        parents = parents.push((px as int, py as int));
                        lemma_on_stack_last(stack@, (px + 1) as int, py as int);
                        lemma_on_stack_push_all(before, ((px + 1) as u32, py));
                    }
                }
                proof {
                    assert(px > 0 ==> visited.at(px - 1, py as int) != 0 || on_stack(stack@, px - 1, py as int));
                    assert(px < width - 1 ==> visited.at(px + 1, py as int) != 0 || on_stack(stack@, px + 1, py as int));
                    assert(forall|k: int|
                        popped_len <= k < stack@.len() ==> parents[k] == (px as int, py as int) && image.in_bounds(
                            #[trigger] stack@[k].0 as int,
                            stack@[k].1 as int,
                        ) && adjacent(px as int, py as int, stack@[k].0 as int, stack@[k].1 as int));
                }
                if py > 0 && visited.get_pixel(px, py - 1) == 0 {
                    let ghost before = stack@;
                    stack.push((px, py - 1));
                    proof {
                        parents = parents.push((px as int, py as int));
                        lemma_on_stack_last(stack@, px as int, (py - 1) as int);
                        lemma_on_stack_push_all(before, (px, (py - 1) as u32));
                    }
                }
                proof {
                    assert(px > 0 ==> visited.at(px - 1, py as int) != 0 || on_stack(stack@, px - 1, py as int));
                    assert(px < width - 1 ==> visited.at(px + 1, py as int) != 0 || on_stack(stack@, px + 1, py as int));
                    assert(py > 0 ==> visited.at(px as int, py - 1) != 0 || on_stack(stack@, px as int, py - 1));
                    assert(forall|k: int|
                        popped_len <= k < stack@.len() ==> parents[k] == (px as int, py as int) && image.in_bounds(
                            #[trigger] stack@[k].0 as int,
                            stack@[k].1 as int,
                        ) && adjacent(px as int, py as int, stack@[k].0 as int, stack@[k].1 as int));
                }
                if py < height - 1 && visited.get_pixel(px, py + 1) == 0 {
                    let ghost before = stack@;
                    stack.push((px, py + 1));
                    proof {
                        parents = parents.push((px as int, py as int));
                        lemma_on_stack_last(stack@, px as int, (py + 1) as int);
                        lemma_on_stack_push_all(before, (px, (py + 1) as u32));
                    }
                }
                proof {
                    assert(px > 0 ==> visited.at(px - 1, py as int) != 0 || on_stack(stack@, px - 1, py as int));
                    assert(px < width - 1 ==> visited.at(px + 1, py as int) != 0 || on_stack(stack@, px + 1, py as int));
                    assert(py > 0 ==> visited.at(px as int, py - 1) != 0 || on_stack(stack@, px as int, py - 1));
                    assert(py < height - 1 ==> visited.at(px as int, py + 1) != 0 || on_stack(stack@, px as int, py + 1));
                    assert(forall|k: int|
                        popped_len <= k < stack@.len() ==> parents[k] == (px as int, py as int) && image.in_bounds(
                            #[trigger] stack@[k].0 as int,
                            stack@[k].1 as int,
                        ) && adjacent(px as int, py as int, stack@[k].0 as int, stack@[k].1 as int));
                    assert(stack@.len() <= popped_len + 4);
                    assert(forall|k: int| 0 <= k < popped_len ==> stack@[k] == old_stack[k] && parents[k] == old_parents[k]);
                }
            } else {
                proof {
                    reveal(mask_matches);
                    assert(old_mask.at(px as int, py as int) == transparent());
                    lemma_mask_after_mark(
                        image,
                        target,
                        tolerance,
                        &old_visited,
                        &visited,
                        &old_mask,
                        &mask,
                        px as int,
                        py as int,
                    );
                }
            }
        }
        proof {
            lemma_pending_after_step(
                image,
                target,
                tolerance,
                &old_visited,
                &visited,
                x,
                y,
                old_stack,
                old_parents,
                stack@,
                parents,
                px as int,
                py as int,
            );
            lemma_closure_after_pop(image, target, tolerance, &old_visited, &visited, old_stack, stack@, px, py);
            if !(px == x && py == y) && on_stack(old_stack, x as int, y as int) {
                let k = choose|k: int| 0 <= k < old_stack.len() && #[trigger] old_stack[k].0 == x && old_stack[k].1 == y;
                assert(stack@[k] == old_stack[k]);
                assert(on_stack(stack@, x as int, y as int));
            }
        }
    }
    proof {
        reveal(mask_matches);
        reveal(marked_in_region);
        reveal(marks_closed);
        assert(visited.at(x as int, y as int) != 0);
        lemma_similar_refl(target, tolerance);
        assert forall|a: int, b: int| image.in_bounds(a, b) implies #[trigger] mask.at(a, b) == if wand_region(
            image,
            x as int,
            y as int,
            tolerance,
            a,
            b,
        ) {
            selected_pixel()
        } else {
            transparent()
        } by {
            if wand_region(image, x as int, y as int, tolerance, a, b) {
                let path = choose|path: Seq<(int, int)>|
                    #![trigger is_wand_path(image, target, tolerance, path), path.last()]
                    is_wand_path(image, target, tolerance, path) && path[0] == (x as int, y as int) && path.last() == (
                    a,
                    b,
                );
                lemma_path_marked(image, target, tolerance, &visited, path);
                assert(wand_member(image, target, tolerance, path[path.len() - 1].0, path[path.len() - 1].1));
            }
        }
        assert(is_selected(&mask, x as int, y as int));
    }
    let bounds = selection_bounds(&mask);
    (mask, bounds.unwrap())
}

/// An opaque grey mask pixel of level `v`.
pub open spec fn gray_pixel(v: u8) -> Rgba {
    [v, v, v, 255u8]
}

/// The mask level that combining a current level with another selection's level
/// gives: union keeps the larger, subtraction clears where the other is
/// selected, intersection is fully selected where both are.
pub open spec fn combined_level(op: SelectionType, current: u8, other: u8) -> u8 {
    match op {
        SelectionType::New => other,
        SelectionType::Add => if current >= other {
            current
        } else {
            other
        },
        SelectionType::Subtract => if other > 0 {
            0
        } else {
            current
        },
        SelectionType::Intersect => if current > 0 && other > 0 {
            255
        } else {
            0
        },
    }
}

/// Union and intersection treat both selections alike, and a subtraction
/// leaves nothing where the other selection is selected.
pub proof fn lemma_combined_levels(current: u8, other: u8)
    ensures
        combined_level(SelectionType::Add, current, other) == combined_level(SelectionType::Add, other, current),
        combined_level(SelectionType::Intersect, current, other) == combined_level(
            SelectionType::Intersect,
            other,
            current,
        ),
        other > 0 ==> combined_level(SelectionType::Subtract, current, other) == 0,
        combined_level(SelectionType::Add, current, current) == current,
{
}

/// Read as selections (a level above 0 is selected), combining works as the set
/// operations: a new selection is the other one, level for level, a union selects what either
/// selects, a subtraction what the current selects and the other does not, and
/// an intersection what both select. A union keeps the stronger of the two
/// levels, a subtraction keeps the current level where it keeps anything, and an
/// intersection selects fully or not at all.
pub proof fn lemma_combine_as_sets(current: u8, other: u8)
    ensures
        combined_level(SelectionType::New, current, other) == other,
        (combined_level(SelectionType::Add, current, other) > 0) == (current > 0 || other > 0),
        (combined_level(SelectionType::Subtract, current, other) > 0) == (current > 0 && other == 0),
        (combined_level(SelectionType::Intersect, current, other) > 0) == (current > 0 && other > 0),
        current <= combined_level(SelectionType::Add, current, other),
        other <= combined_level(SelectionType::Add, current, other),
        combined_level(SelectionType::Add, current, other) == current || combined_level(
            SelectionType::Add,
            current,
            other,
        ) == other,
        combined_level(SelectionType::Subtract, current, other) == 0 || combined_level(
            SelectionType::Subtract,
            current,
            other,
        ) == current,
        combined_level(SelectionType::Intersect, current, other) == 0 || combined_level(
            SelectionType::Intersect,
            current,
            other,
        ) == 255,
{
}

/// Inverting a mask twice gives every pixel its level back.
pub proof fn lemma_invert_mask_twice(v: u8)
    ensures
        gray_pixel((255 - gray_pixel((255 - v) as u8)[0]) as u8)[0] == v,
{
}

/// The clicked pixel always belongs to its magic wand region.
pub proof fn lemma_click_in_region(image: &RgbaImage, x: int, y: int, tolerance: u8)
    requires
        image.in_bounds(x, y),
    ensures
        wand_region(image, x, y, tolerance, x, y),
{
    let path = seq![(x, y)];
    assert(channel_diff(image.at(x, y)[0], image.at(x, y)[0]) == 0);
    assert(similar(image.at(x, y), image.at(x, y), tolerance));
    assert(is_wand_path(image, image.at(x, y), tolerance, path));
    assert(path.last() == (x, y));
}

fn combine_level(op: SelectionType, current: u8, other: u8) -> (r: u8)
    ensures
        r == combined_level(op, current, other),
{
    match op {
        SelectionType::New => other,
        SelectionType::Add => if current >= other {
            current
        } else {
            other
        },
        SelectionType::Subtract => if other > 0 {
            0
        } else {
            current
        },
        SelectionType::Intersect => if current > 0 && other > 0 {
            255
        } else {
            0
        },
    }
}

/// Combines `other` into `mask`. With `SelectionType::New` the mask becomes a copy
/// of `other`; otherwise each pixel becomes the grey level given by
/// `combined_level` of the two masks' first channels (`other` must cover `mask`).
pub fn combine_masks(mask: &mut RgbaImage, other: &RgbaImage, op: SelectionType)
    requires
        op != SelectionType::New ==> other.w() >= old(mask).w() && other.h() >= old(mask).h(),
    ensures
        op == SelectionType::New ==> final(mask).same_as(other),
        op != SelectionType::New ==> {
            &&& final(mask).w() == old(mask).w()
            &&& final(mask).h() == old(mask).h()
            &&& forall|x: int, y: int|
                final(mask).in_bounds(x, y) ==> #[trigger] final(mask).at(x, y) == gray_pixel(
                    combined_level(op, old(mask).at(x, y)[0], other.at(x, y)[0]),
                )
        },
{
    if op == SelectionType::New {
        *mask = other.clone();
        return ;
    }
    let ghost orig = *mask;
    let width = mask.width();
    let height = mask.height();
    let mut y: u32 = 0;
    while y < height
        invariant
            op != SelectionType::New,
            width == orig.w(),
            height == orig.h(),
            mask.w() == width,
            mask.h() == height,
            other.w() >= width,
            other.h() >= height,
            y <= height,
            forall|a: int, b: int|
                mask.in_bounds(a, b) ==> #[trigger] mask.at(a, b) == if b < y {
                    gray_pixel(combined_level(op, orig.at(a, b)[0], other.at(a, b)[0]))
                } else {
                    orig.at(a, b)
                },
        decreases height - y,
    {
        let mut x: u32 = 0;
        while x < width
            invariant
                op != SelectionType::New,
                width == orig.w(),
                height == orig.h(),
                mask.w() == width,
                mask.h() == height,
                other.w() >= width,
                other.h() >= height,
                y < height,
                x <= width,
                forall|a: int, b: int|
                    mask.in_bounds(a, b) ==> #[trigger] mask.at(a, b) == if b < y || (b == y && a < x) {
                        gray_pixel(combined_level(op, orig.at(a, b)[0], other.at(a, b)[0]))
                    } else {
                        orig.at(a, b)
                    },
            decreases width - x,
        {
            let current = mask.get_pixel(x, y)[0];
            let other_val = other.get_pixel(x, y)[0];
            let new_val = combine_level(op, current, other_val);
            mask.put_pixel(x, y, [new_val, new_val, new_val, 255u8]);
            x = x + 1;
        }
        y = y + 1;
    }
}

/// Inverts a mask: each pixel becomes the opaque grey of level `255 - v`, where `v`
/// is its first channel.
pub fn invert_mask(mask: &mut RgbaImage)
    ensures
        final(mask).w() == old(mask).w(),
        final(mask).h() == old(mask).h(),
        forall|x: int, y: int|
            final(mask).in_bounds(x, y) ==> #[trigger] final(mask).at(x, y) == gray_pixel(
                (255 - old(mask).at(x, y)[0]) as u8,
            ),
{
    let ghost orig = *mask;
    let width = mask.width();
    let height = mask.height();
    let mut y: u32 = 0;
    while y < height
        invariant
            width == orig.w(),
            height == orig.h(),
            mask.w() == width,
            mask.h() == height,
            y <= height,
            forall|a: int, b: int|
                mask.in_bounds(a, b) ==> #[trigger] mask.at(a, b) == if b < y {
                    gray_pixel((255 - orig.at(a, b)[0]) as u8)
                } else {
                    orig.at(a, b)
                },
        decreases height - y,
    {
        let mut x: u32 = 0;
        while x < width
            invariant
                width == orig.w(),
                height == orig.h(),
                mask.w() == width,
                mask.h() == height,
                y < height,
                x <= width,
                forall|a: int, b: int|
                    mask.in_bounds(a, b) ==> #[trigger] mask.at(a, b) == if b < y || (b == y && a < x) {
                        gray_pixel((255 - orig.at(a, b)[0]) as u8)
                    } else {
                        orig.at(a, b)
                    },
            decreases width - x,
        {
            let current = mask.get_pixel(x, y)[0];
            let new_val = 255 - current;
            mask.put_pixel(x, y, [new_val, new_val, new_val, 255u8]);
            x = x + 1;
        }
        y = y + 1;
    }
}

/// Clears a mask: every pixel becomes transparent black.
pub fn clear_mask(mask: &mut RgbaImage)
    ensures
        final(mask).w() == old(mask).w(),
        final(mask).h() == old(mask).h(),
        forall|x: int, y: int| final(mask).in_bounds(x, y) ==> #[trigger] final(mask).at(x, y) == transparent(),
{
    let ghost orig = *mask;
    let width = mask.width();
    let height = mask.height();
    let mut y: u32 = 0;
    while y < height
        invariant
            width == orig.w(),
            height == orig.h(),
            mask.w() == width,
            mask.h() == height,
            y <= height,
            forall|a: int, b: int|
                mask.in_bounds(a, b) ==> #[trigger] mask.at(a, b) == if b < y {
                    transparent()
                } else {
                    orig.at(a, b)
                },
        decreases height - y,
    {
        let mut x: u32 = 0;
        while x < width
            invariant
                width == orig.w(),
                height == orig.h(),
                mask.w() == width,
                mask.h() == height,
                y < height,
                x <= width,
                forall|a: int, b: int|
                    mask.in_bounds(a, b) ==> #[trigger] mask.at(a, b) == if b < y || (b == y && a < x) {
                        transparent()
                    } else {
                        orig.at(a, b)
                    },
            decreases width - x,
        {
            mask.put_pixel(x, y, [0u8, 0u8, 0u8, 0u8]);
            x = x + 1;
        }
        y = y + 1;
    }
}

/// `v` clamped into `0 ..= size - 1`.
pub open spec fn clamp_coord(v: int, size: nat) -> int {
    if v < 0 {
        0
    } else if v > size - 1 {
        size - 1
    } else {
        v
    }
}

/// Whether offset `(dx, dy)` lies in the disc of radius `amount` and the mask pixel
/// it reaches from `(x, y)` (clamped to the mask) has selection state `want`.
pub open spec fn disc_probe(mask: &RgbaImage, x: int, y: int, amount: int, dx: int, dy: int, want: bool) -> bool {
    &&& -amount <= dx <= amount
    &&& -amount <= dy <= amount
    &&& dx * dx + dy * dy <= amount * amount
    &&& is_selected(mask, clamp_coord(x + dx, mask.w()), clamp_coord(y + dy, mask.h())) == want
}

/// Whether some offset of the disc of radius `amount` around `(x, y)` reaches a
/// pixel whose selection state is `want`.
pub open spec fn disc_hit(mask: &RgbaImage, x: int, y: int, amount: int, want: bool) -> bool {
    exists|dx: int, dy: int| #[trigger] disc_probe(mask, x, y, amount, dx, dy, want)
}

/// The largest radius that growing and shrinking accept: squared distances must fit in `i32`.
pub open spec fn max_radius() -> int {
    32767
}

proof fn lemma_square_bound(d: int, a: int)
    requires
        -a <= d <= a,
        0 <= a <= max_radius(),
    ensures
        0 <= d * d <= a * a,
        a * a <= 32767 * 32767,
{
    assert(0 <= d * d <= a * a) by (nonlinear_arith)
        requires
            -a <= d <= a,
            0 <= a,
    ;
    assert(a * a <= 32767 * 32767) by (nonlinear_arith)
        requires
            0 <= a <= 32767,
    ;
}

fn disc_search(mask: &RgbaImage, x: u32, y: u32, amount: u32, want: bool) -> (r: bool)
    requires
        mask.in_bounds(x as int, y as int),
        amount <= max_radius(),
        mask.w() + amount <= i32::MAX,
        mask.h() + amount <= i32::MAX,
    ensures
        r == disc_hit(mask, x as int, y as int, amount as int, want),
{
    let width = mask.width();
    let height = mask.height();
    let a: i32 = amount as i32;
    proof {
        lemma_square_bound(0, a as int);
    }
    let limit: i32 = (amount * amount) as i32;
    let mut found = false;
    let ghost mut witness: (int, int) = (0, 0);
    let mut dy: i32 = -a;
    while dy <= a && !found
        invariant
            width == mask.w(),
            height == mask.h(),
            mask.in_bounds(x as int, y as int),
            a == amount,
            0 <= a <= max_radius(),
            limit == a * a,
            width + a <= i32::MAX,
            height + a <= i32::MAX,
            -a <= dy <= a + 1,
            found ==> disc_probe(mask, x as int, y as int, a as int, witness.0, witness.1, want),
            !found ==> forall|ex: int, ey: int| ey < dy ==> !#[trigger] disc_probe(mask, x as int, y as int, a as int, ex, ey, want),
        decreases a + 1 - dy, if found { 0int } else { 1int },
    {
        let mut dx: i32 = -a;
        while dx <= a && !found
            invariant
                width == mask.w(),
                height == mask.h(),
                mask.in_bounds(x as int, y as int),
                a == amount,
                0 <= a <= max_radius(),
                limit == a * a,
                width + a <= i32::MAX,
                height + a <= i32::MAX,
                -a <= dy <= a,
                -a <= dx <= a + 1,
                found ==> disc_probe(mask, x as int, y as int, a as int, witness.0, witness.1, want),
                !found ==> forall|ex: int, ey: int|
                    ey < dy || (ey == dy && ex < dx) ==> !#[trigger] disc_probe(mask, x as int, y as int, a as int, ex, ey, want),
            decreases a + 1 - dx, if found { 0int } else { 1int },
        {
            proof {
                lemma_square_bound(dx as int, a as int);
                lemma_square_bound(dy as int, a as int);
            }
            let dist = dx * dx + dy * dy;
            if dist <= limit {
                let nx_raw: i32 = x as i32 + dx;
                let ny_raw: i32 = y as i32 + dy;
                let nx: u32 = if nx_raw < 0 { 0 } else if nx_raw > width as i32 - 1 { width - 1 } else { nx_raw as u32 };
                let ny: u32 = if ny_raw < 0 { 0 } else if ny_raw > height as i32 - 1 { height - 1 } else { ny_raw as u32 };
                let selected = mask.get_pixel(nx, ny)[0] > 0;
                proof {
                    assert(nx as int == clamp_coord(x + dx, mask.w()));
                    assert(ny as int == clamp_coord(y + dy, mask.h()));
                    assert(selected == is_selected(mask, nx as int, ny as int));
                }
                if selected == want {
                    found = true;
                    proof {
                        witness = (dx as int, dy as int);
                    }
                }
            }
            if !found {
                dx = dx + 1;
            }
        }
        if !found {
            dy = dy + 1;
        }
    }
    proof {
        if !found {
            assert forall|ex: int, ey: int| !#[trigger] disc_probe(mask, x as int, y as int, a as int, ex, ey, want) by {
                if ey < dy {
                } else {
                    assert(!(-a <= ey <= a));
                }
            }
        }
    }
    found
}

/// Grows a selection mask by `amount` pixels: each unselected pixel (first channel
/// 0) that has a selected pixel within distance `amount` (positions clamped to the
/// mask) becomes opaque white; selected pixels are kept.
pub fn grow_mask(mask: &mut RgbaImage, amount: u32)
    requires
        amount <= max_radius(),
        old(mask).w() + amount <= i32::MAX,
        old(mask).h() + amount <= i32::MAX,
    ensures
        final(mask).w() == old(mask).w(),
        final(mask).h() == old(mask).h(),
        forall|x: int, y: int|
            final(mask).in_bounds(x, y) ==> #[trigger] final(mask).at(x, y) == if !is_selected(old(mask), x, y)
                && disc_hit(old(mask), x, y, amount as int, true) {
                selected_pixel()
            } else {
                old(mask).at(x, y)
            },
{
    let original = mask.clone();
    let width = mask.width();
    let height = mask.height();
    let mut y: u32 = 0;
    while y < height
        invariant
            width == original.w(),
            height == original.h(),
            mask.w() == width,
            mask.h() == height,
            amount <= max_radius(),
            width + amount <= i32::MAX,
            height + amount <= i32::MAX,
            y <= height,
            forall|a: int, b: int|
                mask.in_bounds(a, b) ==> #[trigger] mask.at(a, b) == if b < y && !is_selected(&original, a, b)
                    && disc_hit(&original, a, b, amount as int, true) {
                    selected_pixel()
                } else {
                    original.at(a, b)
                },
        decreases height - y,
    {
        let mut x: u32 = 0;
        while x < width
            invariant
                width == original.w(),
                height == original.h(),
                mask.w() == width,
                mask.h() == height,
                amount <= max_radius(),
                width + amount <= i32::MAX,
                height + amount <= i32::MAX,
                y < height,
                x <= width,
                forall|a: int, b: int|
                    mask.in_bounds(a, b) ==> #[trigger] mask.at(a, b) == if (b < y || (b == y && a < x))
                        && !is_selected(&original, a, b) && disc_hit(&original, a, b, amount as int, true) {
                        selected_pixel()
                    } else {
                        original.at(a, b)
                    },
            decreases width - x,
        {
            if original.get_pixel(x, y)[0] == 0 {
                if disc_search(&original, x, y, amount, true) {
                    mask.put_pixel(x, y, [255u8, 255u8, 255u8, 255u8]);
                }
            }
            x = x + 1;
        }
        y = y + 1;
    }
    proof {
        assert forall|a: int, b: int| mask.in_bounds(a, b) implies original.at(a, b) == old(mask).at(a, b)
            && is_selected(&original, a, b) == is_selected(old(mask), a, b) by {
        }
        assert forall|a: int, b: int, d: int| disc_hit(&original, a, b, d, true) == disc_hit(old(mask), a, b, d, true) by {
            if disc_hit(&original, a, b, d, true) {
                let (ex, ey) = choose|ex: int, ey: int| #[trigger] disc_probe(&original, a, b, d, ex, ey, true);
                assert(disc_probe(old(mask), a, b, d, ex, ey, true));
            }
            if disc_hit(old(mask), a, b, d, true) {
                let (ex, ey) = choose|ex: int, ey: int| #[trigger] disc_probe(old(mask), a, b, d, ex, ey, true);
                assert(disc_probe(&original, a, b, d, ex, ey, true));
            }
        }
    }
}

/// Shrinks a selection mask by `amount` pixels: each selected pixel (first channel
/// above 0) that has an unselected pixel within distance `amount` (positions clamped
/// to the mask) becomes transparent black; unselected pixels are kept.
pub fn shrink_mask(mask: &mut RgbaImage, amount: u32)
    requires
        amount <= max_radius(),
        old(mask).w() + amount <= i32::MAX,
        old(mask).h() + amount <= i32::MAX,
    ensures
        final(mask).w() == old(mask).w(),
        final(mask).h() == old(mask).h(),
        forall|x: int, y: int|
            final(mask).in_bounds(x, y) ==> #[trigger] final(mask).at(x, y) == if is_selected(old(mask), x, y)
                && disc_hit(old(mask), x, y, amount as int, false) {
                transparent()
            } else {
                old(mask).at(x, y)
            },
{
    let original = mask.clone();
    let width = mask.width();
    let height = mask.height();
    let mut y: u32 = 0;
    while y < height
        invariant
            width == original.w(),
            height == original.h(),
            mask.w() == width,
            mask.h() == height,
            amount <= max_radius(),
            width + amount <= i32::MAX,
            height + amount <= i32::MAX,
            y <= height,
            forall|a: int, b: int|
                mask.in_bounds(a, b) ==> #[trigger] mask.at(a, b) == if b < y && is_selected(&original, a, b)
                    && disc_hit(&original, a, b, amount as int, false) {
                    transparent()
                } else {
                    original.at(a, b)
                },
        decreases height - y,
    {
        let mut x: u32 = 0;
        while x < width
            invariant
                width == original.w(),
                height == original.h(),
                mask.w() == width,
                mask.h() == height,
                amount <= max_radius(),
                width + amount <= i32::MAX,
                height + amount <= i32::MAX,
                y < height,
                x <= width,
                forall|a: int, b: int|
                    mask.in_bounds(a, b) ==> #[trigger] mask.at(a, b) == if (b < y || (b == y && a < x))
                        && is_selected(&original, a, b) && disc_hit(&original, a, b, amount as int, false) {
                        transparent()
                    } else {
                        original.at(a, b)
                    },
            decreases width - x,
        {
            if original.get_pixel(x, y)[0] != 0 {
                if disc_search(&original, x, y, amount, false) {
                    mask.put_pixel(x, y, [0u8, 0u8, 0u8, 0u8]);
                }
            }
            x = x + 1;
        }
        y = y + 1;
    }
    proof {
        assert forall|a: int, b: int| mask.in_bounds(a, b) implies original.at(a, b) == old(mask).at(a, b)
            && is_selected(&original, a, b) == is_selected(old(mask), a, b) by {
        }
        assert forall|a: int, b: int, d: int| disc_hit(&original, a, b, d, false) == disc_hit(old(mask), a, b, d, false) by {
            if disc_hit(&original, a, b, d, false) {
                let (ex, ey) = choose|ex: int, ey: int| #[trigger] disc_probe(&original, a, b, d, ex, ey, false);
                assert(disc_probe(old(mask), a, b, d, ex, ey, false));
            }
            if disc_hit(old(mask), a, b, d, false) {
                let (ex, ey) = choose|ex: int, ey: int| #[trigger] disc_probe(old(mask), a, b, d, ex, ey, false);
                assert(disc_probe(&original, a, b, d, ex, ey, false));
            }
        }
    }
}

/// Whether colours `c1` and `c2` are within `tolerance` of each other in every channel.
pub fn colors_similar(c1: Rgba, c2: Rgba, tolerance: u8) -> (r: bool)
    ensures
        r == similar(c1, c2, tolerance),
{
    let diff_r = abs_diff(c1[0], c2[0]);
    let diff_g = abs_diff(c1[1], c2[1]);
    let diff_b = abs_diff(c1[2], c2[2]);
    let diff_a = abs_diff(c1[3], c2[3]);
    let max_diff = max_u8(max_u8(diff_r, diff_g), max_u8(diff_b, diff_a));
    max_diff <= tolerance
}

fn abs_diff(a: u8, b: u8) -> (r: u8)
    ensures
        r as int == channel_diff(a, b),
{
    if a >= b {
        a - b
    } else {
        b - a
    }
}

fn max_u8(a: u8, b: u8) -> (r: u8)
    ensures
        r == if a >= b {
            a
        } else {
            b
        },
{
    if a >= b {
        a
    } else {
        b
    }
}

} // verus!

verus! {

/// Whether the mask pixel at `(x, y)` is selected: its first channel is not 0.
pub open spec fn mask_on(m: &RgbaImage, x: int, y: int) -> bool {
    m.at(x, y)[0] > 0
}

/// Whether `(x, y)` is a selected mask pixel on the edge of the selection: on the
/// border of the mask, or next to an unselected pixel to its left or right, above
/// or below.
pub open spec fn is_edge_pixel(m: &RgbaImage, x: int, y: int) -> bool {
    &&& mask_on(m, x, y)
    &&& (x == 0 || !mask_on(m, x - 1, y) || x == m.w() - 1 || !mask_on(m, x + 1, y) || y == 0 || !mask_on(
        m,
        x,
        y - 1,
    ) || y == m.h() - 1 || !mask_on(m, x, y + 1))
}

/// The positions of a `w` by `h` mask, row by row.
pub open spec fn mask_positions(w: nat, h: nat) -> Seq<(u32, u32)> {
    Seq::new(w * h, |k: int| ((k % (w as int)) as u32, (k / (w as int)) as u32))
}

/// The edge pixels of a mask, row by row (the points that outline a magic-wand
/// selection).
pub open spec fn edge_points(m: &RgbaImage) -> Seq<(u32, u32)> {
    mask_positions(m.w(), m.h()).filter(|p: (u32, u32)| is_edge_pixel(m, p.0 as int, p.1 as int))
}

/// Position `k` of a `w` by `h` raster is column `k % w` of row `k / w`, and its
/// neighbours above and below lie `w` positions away.
proof fn lemma_position(w: int, h: int, k: int)
    requires
        w > 0,
        0 <= k < w * h,
    ensures
        0 <= k % w < w,
        0 <= k / w < h,
        (k / w) * w + k % w == k,
        (k / w - 1) * w + k % w == k - w,
        (k / w + 1) * w + k % w == k + w,
        k % w < w - 1 ==> k + 1 < w * h,
        k / w < h - 1 ==> k + w < w * h,
{
    vstd::arithmetic::div_mod::lemma_fundamental_div_mod(k, w);
    vstd::arithmetic::div_mod::lemma_mod_bound(k, w);
    let q = k / w;
    let r = k % w;
    assert(q * w == w * q) by (nonlinear_arith);
    assert(0 <= q < h) by (nonlinear_arith)
        requires
            k == w * q + r,
            0 <= r < w,
            0 <= k < w * h,
            w > 0,
    ;
    assert((q - 1) * w == q * w - w) by (nonlinear_arith);
    assert((q + 1) * w == q * w + w) by (nonlinear_arith);
    assert((q + 1) * w <= w * h) by (nonlinear_arith)
        requires
            q + 1 <= h,
            w > 0,
    ;
    if q < h - 1 {
        assert((q + 2) * w <= w * h) by (nonlinear_arith)
            requires
                q + 2 <= h,
                w > 0,
        ;
        assert((q + 2) * w == q * w + w + w) by (nonlinear_arith);
    }
}

/// The edge pixels of a selection mask, row by row; see `edge_points`.
pub fn mask_edge_points(mask: &RgbaImage) -> (r: Vec<(u32, u32)>)
    ensures
        r@ == edge_points(mask),
{
    let w = mask.width();
    let h = mask.height();
    let data = mask.as_pixels();
    let n = data.len();
    let ghost pred = |p: (u32, u32)| is_edge_pixel(mask, p.0 as int, p.1 as int);
    let ghost all = mask_positions(mask.w(), mask.h());
    let mut out: Vec<(u32, u32)> = Vec::new();
    let mut k: usize = 0;
    while k < n
        invariant
            n == data@.len(),
            data@ == mask.data(),
            n == mask.w() * mask.h(),
            w == mask.w(),
            h == mask.h(),
            all == mask_positions(mask.w(), mask.h()),
            pred == (|p: (u32, u32)| is_edge_pixel(mask, p.0 as int, p.1 as int)),
            k <= n,
            out@ == all.take(k as int).filter(pred),
        decreases n - k,
    {
        proof {
            lemma_position(w as int, h as int, k as int);
        }
        let wu = w as usize;
        let x = (k % wu) as u32;
        let y = (k / wu) as u32;
        let cur = data[k][0] > 0;
        let edge = cur && (x == 0 || data[k - 1][0] == 0 || x == w - 1 || data[k + 1][0] == 0 || y == 0
            || data[k - wu][0] == 0 || y == h - 1 || data[k + wu][0] == 0);
        proof {
            let xi = x as int;
            let yi = y as int;
            assert(mask.at(xi, yi) == data@[k as int]);
            if xi > 0 {
                assert(yi * w + (xi - 1) == k - 1);
                assert(mask.at(xi - 1, yi) == data@[k - 1]);
            }
            if xi < w - 1 {
                assert(yi * w + (xi + 1) == k + 1);
                assert(mask.at(xi + 1, yi) == data@[k + 1]);
            }
            if yi > 0 {
                assert(mask.at(xi, yi - 1) == data@[k - w]);
            }
            if yi < h - 1 {
                assert(mask.at(xi, yi + 1) == data@[k + w]);
            }
            assert(edge == is_edge_pixel(mask, xi, yi));
            assert(all[k as int] == (x, y));
            assert(all.take(k + 1) =~= all.take(k as int).push(all[k as int]));
            all.take(k as int).lemma_filter_push(all[k as int], pred);
        }
        if edge {
            out.push((x, y));
        }
        k = k + 1;
    }
    proof {
        assert(all.take(n as int) =~= all);
    }
    out
}

/// The squared Euclidean distance between `(x, y)` and `(px, py)`.
pub open spec fn squared_distance(x: int, y: int, px: int, py: int) -> int {
    (px - x) * (px - x) + (py - y) * (py - y)
}

/// Whether some pixel of `mask` within distance `amount` of `(x, y)` has
/// selection state `want`.
pub open spec fn state_within(mask: &RgbaImage, x: int, y: int, amount: int, want: bool) -> bool {
    exists|px: int, py: int|
        mask.in_bounds(px, py) && is_selected(mask, px, py) == want && #[trigger] squared_distance(x, y, px, py)
            <= amount * amount
}

proof fn lemma_offset_in_range(d: int, a: int)
    requires
        0 <= a,
        d * d <= a * a,
    ensures
        -a <= d <= a,
{
    if d > a {
        assert(d * d > a * a) by (nonlinear_arith)
            requires
                d > a,
                a >= 0,
        ;
    }
    if d < -a {
        assert(d * d > a * a) by (nonlinear_arith)
            requires
                d < -a,
                a >= 0,
        ;
    }
}

proof fn lemma_clamp_no_farther(v: int, c: int, size: nat)
    requires
        0 <= c < size,
    ensures
        (clamp_coord(v, size) - c) * (clamp_coord(v, size) - c) <= (v - c) * (v - c),
{
    let k = clamp_coord(v, size) - c;
    let d = v - c;
    assert(k * k <= d * d) by (nonlinear_arith)
        requires
            (0 <= k <= d) || (d <= k <= 0),
    ;
}

/// For a pixel `(x, y)` of the mask, the disc of radius `amount` around it reaches
/// a pixel with selection state `want` exactly when some pixel of the mask within
/// Euclidean distance `amount` of it has that state: every such pixel is reached,
/// and positions clamped to the mask's edge are no farther than the offsets that
/// reach them.
pub proof fn lemma_disc_hit_by_distance(mask: &RgbaImage, x: int, y: int, amount: int, want: bool)
    requires
        mask.in_bounds(x, y),
        0 <= amount,
    ensures
        disc_hit(mask, x, y, amount, want) <==> state_within(mask, x, y, amount, want),
{
    if state_within(mask, x, y, amount, want) {
        let (px, py) = choose|px: int, py: int|
            mask.in_bounds(px, py) && is_selected(mask, px, py) == want && #[trigger] squared_distance(x, y, px, py)
                <= amount * amount;
        let dx = px - x;
        let dy = py - y;
        assert(dx * dx <= amount * amount && dy * dy <= amount * amount) by (nonlinear_arith)
            requires
                dx * dx + dy * dy <= amount * amount,
        ;
        lemma_offset_in_range(dx, amount);
        lemma_offset_in_range(dy, amount);
        assert(clamp_coord(x + dx, mask.w()) == px);
        assert(clamp_coord(y + dy, mask.h()) == py);
        assert(disc_probe(mask, x, y, amount, dx, dy, want));
    }
    if disc_hit(mask, x, y, amount, want) {
        let (dx, dy) = choose|dx: int, dy: int| #[trigger] disc_probe(mask, x, y, amount, dx, dy, want);
        let px = clamp_coord(x + dx, mask.w());
        let py = clamp_coord(y + dy, mask.h());
        lemma_clamp_no_farther(x + dx, x, mask.w());
        lemma_clamp_no_farther(y + dy, y, mask.h());
        assert(squared_distance(x, y, px, py) <= amount * amount);
        assert(mask.in_bounds(px, py));
    }
}

/// Growing by `amount` selects exactly the pixels that lie within Euclidean
/// distance `amount` of a pixel selected before (each selected pixel among them,
/// at distance 0).
pub proof fn lemma_grow_selects_within_distance(before: &RgbaImage, after: &RgbaImage, amount: int, x: int, y: int)
    requires
        0 <= amount,
        after.w() == before.w(),
        after.h() == before.h(),
        forall|x: int, y: int|
            after.in_bounds(x, y) ==> #[trigger] after.at(x, y) == if !is_selected(before, x, y) && disc_hit(
                before,
                x,
                y,
                amount,
                true,
            ) {
                selected_pixel()
            } else {
                before.at(x, y)
            },
        before.in_bounds(x, y),
    ensures
        is_selected(after, x, y) <==> state_within(before, x, y, amount, true),
{
    lemma_disc_hit_by_distance(before, x, y, amount, true);
    assert(after.in_bounds(x, y));
    if is_selected(before, x, y) {
        assert(squared_distance(x, y, x, y) == 0);
        assert(0 <= amount * amount) by (nonlinear_arith)
            requires
                0 <= amount,
        ;
    }
}

/// Shrinking by `amount` keeps selected exactly the pixels all of whose pixels
/// within Euclidean distance `amount` (the pixel itself among them) were selected.
pub proof fn lemma_shrink_keeps_within_distance(before: &RgbaImage, after: &RgbaImage, amount: int, x: int, y: int)
    requires
        0 <= amount,
        after.w() == before.w(),
        after.h() == before.h(),
        forall|x: int, y: int|
            after.in_bounds(x, y) ==> #[trigger] after.at(x, y) == if is_selected(before, x, y) && disc_hit(
                before,
                x,
                y,
                amount,
                false,
            ) {
                transparent()
            } else {
                before.at(x, y)
            },
        before.in_bounds(x, y),
    ensures
        is_selected(after, x, y) <==> !state_within(before, x, y, amount, false),
{
    lemma_disc_hit_by_distance(before, x, y, amount, false);
    assert(after.in_bounds(x, y));
    if !is_selected(before, x, y) {
        assert(squared_distance(x, y, x, y) == 0);
        assert(0 <= amount * amount) by (nonlinear_arith)
            requires
                0 <= amount,
        ;
    }
}

} // verus!
