//! Positions on a rectangular tile grid.

use vstd::prelude::*;

verus! {

/// The size of a tile grid, in tiles.
#[derive(Clone, Copy, Debug, PartialEq, Eq, Structural, Hash)]
pub struct TilemapSize {
    pub x: u32,
    pub y: u32,
}

/// The position of a tile on a grid; `x` grows to the right, `y` upwards.
#[derive(Clone, Copy, Debug, PartialEq, Eq, Structural, Hash)]
pub struct TilePos {
    pub x: u32,
    pub y: u32,
}

impl TilePos {
    pub fn new(x: u32, y: u32) -> (r: TilePos)
        ensures
            r == (TilePos { x, y }),
    {
        TilePos { x, y }
    }

    /// Whether the position lies on a grid of the given size.
    pub open spec fn within(self, size: TilemapSize) -> bool {
        self.x < size.x && self.y < size.y
    }
}

/// The offset of the neighbour in each of the four directions, in the order
/// right, up, left, down.
pub open spec fn direction_offset(d: int) -> (int, int) {
    if d == 0 {
        (1, 0)
    } else if d == 1 {
        (0, 1)
    } else if d == 2 {
        (-1, 0)
    } else {
        (0, -1)
    }
}

/// The neighbour of `pos` in direction `d` (0 right, 1 up, 2 left, 3 down),
/// if it lies on the grid.
pub open spec fn spec_neighbor(size: TilemapSize, pos: TilePos, d: int) -> Option<TilePos> {
    let nx = pos.x + direction_offset(d).0;
    let ny = pos.y + direction_offset(d).1;
    if 0 <= nx < size.x && 0 <= ny < size.y {
        Some(TilePos { x: nx as u32, y: ny as u32 })
    } else {
        None
    }
}

/// Whether two positions are side by side (not diagonally).
pub open spec fn adjacent(p: TilePos, q: TilePos) -> bool {
    exists|d: int| 0 <= d < 4 && p.x + #[trigger] direction_offset(d).0 == q.x
        && p.y + direction_offset(d).1 == q.y
}

/// The neighbour of `pos` in direction `d`, if it lies on the grid.
pub fn neighbor(size: &TilemapSize, pos: &TilePos, d: usize) -> (r: Option<TilePos>)
    requires
        d < 4,
    ensures
        r == spec_neighbor(*size, *pos, d as int),
{
    let (dx, dy): (i64, i64) = if d == 0 {
        (1, 0)
    } else if d == 1 {
        (0, 1)
    } else if d == 2 {
        (-1, 0)
    } else {
        (0, -1)
    };
    let nx: i64 = pos.x as i64 + dx;
    let ny: i64 = pos.y as i64 + dy;
    if 0 <= nx && nx < size.x as i64 && 0 <= ny && ny < size.y as i64 {
        Some(TilePos { x: nx as u32, y: ny as u32 })
    } else {
        None
    }
}

/// The four neighbours of `pos`, in the order right, up, left, down; those
/// off the grid are `None`.
pub fn neighbor_positions(size: &TilemapSize, pos: &TilePos) -> (r: [Option<TilePos>; 4])
    ensures
        forall|d: int| 0 <= d < 4 ==> r@[d] == spec_neighbor(*size, *pos, d),
{
    let r = [
        neighbor(size, pos, 0),
        neighbor(size, pos, 1),
        neighbor(size, pos, 2),
        neighbor(size, pos, 3),
    ];
    assert(forall|d: int| 0 <= d < 4 ==> r@[d] == spec_neighbor(*size, *pos, d)) by {
        assert(r@[0] == spec_neighbor(*size, *pos, 0));
    }
    r
}

} // verus!
