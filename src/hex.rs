//! Axial hex coordinates, the six neighbour directions and the hexagonal
//! playing region around the origin.

use vstd::prelude::*;

verus! {

/// Largest board radius: `hexx` counts the cells of a hexagon in `u32`.
pub const MAX_RADIUS: u32 = 37836;

/// Axial coordinate of a cell.
#[derive(Clone, Copy, Debug, PartialEq, Eq, Structural, Hash)]
pub struct Hex {
    pub x: i32,
    pub y: i32,
}

/// The `k`-th unit offset, in the fixed order that boops and row checks use:
/// (1,-1), (0,-1), (-1,0), (-1,1), (0,1), (1,0).
pub open spec fn direction(k: int) -> Hex {
    if k == 0 {
        Hex { x: 1i32, y: -1i32 }
    } else if k == 1 {
        Hex { x: 0i32, y: -1i32 }
    } else if k == 2 {
        Hex { x: -1i32, y: 0i32 }
    } else if k == 3 {
        Hex { x: -1i32, y: 1i32 }
    } else if k == 4 {
        Hex { x: 0i32, y: 1i32 }
    } else {
        Hex { x: 1i32, y: 0i32 }
    }
}

/// `h` moved `n` steps along direction `k`.
pub open spec fn step(h: Hex, k: int, n: int) -> Hex {
    Hex { x: (h.x + n * direction(k).x) as i32, y: (h.y + n * direction(k).y) as i32 }
}

/// `h` lies within `radius` steps of the origin.
pub open spec fn in_region(h: Hex, radius: int) -> bool {
    &&& -radius <= h.x <= radius
    &&& -radius <= h.y <= radius
    &&& -radius <= h.x + h.y <= radius
}

impl Hex {
    pub fn new(x: i32, y: i32) -> (r: Hex)
        ensures
            r == (Hex { x, y }),
    {
        Hex { x, y }
    }

    /// The neighbour of `self` along direction `k`.
    pub fn neighbor(self, k: usize) -> (r: Hex)
        requires
            k < 6,
            -0x7fff_fff0 <= self.x <= 0x7fff_fff0,
            -0x7fff_fff0 <= self.y <= 0x7fff_fff0,
        ensures
            r == step(self, k as int, 1),
    {
        let d = neighbor_coord(k);
        Hex { x: self.x + d.x, y: self.y + d.y }
    }
}

/// The unit offset of direction `k`.
pub fn neighbor_coord(k: usize) -> (r: Hex)
    requires
        k < 6,
    ensures
        r == direction(k as int),
{
    if k == 0 {
        Hex { x: 1, y: -1 }
    } else if k == 1 {
        Hex { x: 0, y: -1 }
    } else if k == 2 {
        Hex { x: -1, y: 0 }
    } else if k == 3 {
        Hex { x: -1, y: 1 }
    } else if k == 4 {
        Hex { x: 0, y: 1 }
    } else {
        Hex { x: 1, y: 0 }
    }
}

/// Whether `h` lies on the board of the given radius.
pub fn in_hexagon(h: Hex, radius: u32) -> (r: bool)
    ensures
        r == in_region(h, radius as int),
{
    let rad = radius as i64;
    let x = h.x as i64;
    let y = h.y as i64;
    -rad <= x && x <= rad && -rad <= y && y <= rad && -rad <= x + y && x + y <= rad
}

/// Relies on `hexx::shapes::hexagon` (through `Hex::range`): every hex within
/// `radius` steps of the origin, each exactly once.
#[verifier::external_body]
pub(crate) fn hexagon(radius: u32) -> (r: Vec<Hex>)
    requires
        radius <= MAX_RADIUS,
    ensures
        forall|i: int| 0 <= i < r@.len() ==> in_region(#[trigger] r@[i], radius as int),
        forall|h: Hex| in_region(h, radius as int) ==> r@.contains(h),
        forall|i: int, j: int| 0 <= i < j < r@.len() ==> r@[i] != r@[j],
{
    hexx::shapes::hexagon(hexx::Hex::ZERO, radius).map(|h| Hex { x: h.x, y: h.y }).collect()
}

/// A cell within the radius and one more step along any direction stays in
/// `i32`, with no truncation.
pub proof fn lemma_step_exact(h: Hex, radius: int, k: int, n: int)
    requires
        in_region(h, radius),
        0 <= radius <= MAX_RADIUS,
        0 <= k < 6,
        0 <= n <= 2,
    ensures
        step(h, k, n).x == h.x + n * direction(k).x,
        step(h, k, n).y == h.y + n * direction(k).y,
{
}

} // verus!
