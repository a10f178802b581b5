//! Axis-aligned boxes in page coordinates.
//!
//! Coordinates are held in thousandths of a point, so that every comparison
//! and every union in the library is exact integer arithmetic.
use vstd::prelude::*;

verus! {

/// The largest magnitude a coordinate or an extent may have.
pub const COORD_LIMIT: i64 = 1_000_000_000_000;

/// An axis-aligned rectangle `(x, y, width, height)`.
#[derive(Debug, Clone, Copy, PartialEq, Eq, Structural)]
pub struct BoundingBox {
    pub x: i64,
    pub y: i64,
    pub width: i64,
    pub height: i64,
}

impl BoundingBox {
    /// Every edge stays within the representable range. Width and height
    /// may be negative, as the extractor may report them.
    pub open spec fn wf(&self) -> bool {
        &&& -COORD_LIMIT <= self.x <= COORD_LIMIT
        &&& -COORD_LIMIT <= self.y <= COORD_LIMIT
        &&& -COORD_LIMIT <= self.x + self.width <= COORD_LIMIT
        &&& -COORD_LIMIT <= self.y + self.height <= COORD_LIMIT
    }

    pub open spec fn right(&self) -> int {
        self.x + self.width
    }

    pub open spec fn bottom(&self) -> int {
        self.y + self.height
    }
}

pub open spec fn min_int(a: int, b: int) -> int {
    if a <= b { a } else { b }
}

pub open spec fn max_int(a: int, b: int) -> int {
    if a >= b { a } else { b }
}

/// The tightest box that holds both boxes.
pub open spec fn union_spec(a: BoundingBox, b: BoundingBox) -> BoundingBox {
    let x = min_int(a.x as int, b.x as int);
    let y = min_int(a.y as int, b.y as int);
    BoundingBox {
        x: x as i64,
        y: y as i64,
        width: (max_int(a.right(), b.right()) - x) as i64,
        height: (max_int(a.bottom(), b.bottom()) - y) as i64,
    }
}

/// The union of a non-empty sequence of boxes, folded from the left.
pub open spec fn union_all(boxes: Seq<BoundingBox>) -> BoundingBox
    recommends
        boxes.len() > 0,
    decreases boxes.len(),
{
    if boxes.len() <= 1 {
        boxes[0]
    } else {
        union_spec(union_all(boxes.drop_last()), boxes.last())
    }
}

/// Box `a` lies inside box `b`.
pub open spec fn contained_in(a: BoundingBox, b: BoundingBox) -> bool {
    b.x <= a.x && b.y <= a.y && a.right() <= b.right() && a.bottom() <= b.bottom()
}

/// The union of two well-formed boxes is well formed, takes each edge from
/// one of them, and holds both.
pub proof fn lemma_union_edges(a: BoundingBox, b: BoundingBox)
    requires
        a.wf(),
        b.wf(),
    ensures
        union_spec(a, b).x == min_int(a.x as int, b.x as int),
        union_spec(a, b).y == min_int(a.y as int, b.y as int),
        union_spec(a, b).right() == max_int(a.right(), b.right()),
        union_spec(a, b).bottom() == max_int(a.bottom(), b.bottom()),
        union_spec(a, b).wf(),
        contained_in(a, union_spec(a, b)),
        contained_in(b, union_spec(a, b)),
{
}

/// Tightest union of two boxes: every edge of the result is an edge of one
/// of the two boxes, and both boxes lie inside it.
pub fn merge_bounding_boxes(a: &BoundingBox, b: &BoundingBox) -> (r: BoundingBox)
    requires
        a.wf(),
        b.wf(),
    ensures
        r == union_spec(*a, *b),
        r.wf(),
        contained_in(*a, r),
        contained_in(*b, r),
{
    let min_x = if a.x <= b.x { a.x } else { b.x };
    let min_y = if a.y <= b.y { a.y } else { b.y };
    let ar = a.x + a.width;
    let br = b.x + b.width;
    let ab = a.y + a.height;
    let bb = b.y + b.height;
    let max_x = if ar >= br { ar } else { br };
    let max_y = if ab >= bb { ab } else { bb };
    BoundingBox { x: min_x, y: min_y, width: max_x - min_x, height: max_y - min_y }
}

} // verus!
