//! Junctions and the pipes between them, rebuilt from a tile layer.
//!
//! Every cell of the layer is a slot that may hold a tile; the identity of a
//! junction is the index of its cell, `y * width + x`.

use vstd::prelude::*;

use crate::kind::{compatible, spec_compatible, PipeSegment};
use crate::tilemap::{
    adjacent, direction_offset, neighbor_positions, spec_neighbor, TilePos, TilemapSize,
};

verus! {

/// A single pipe, leading to the junction at the other end.
#[derive(Clone, Copy, Debug, PartialEq, Eq, Structural, Hash)]
pub struct Pipe {
    /// The junction at the other end of the pipe.
    pub receiver: usize,
}

impl Pipe {
    pub fn new(receiver: usize) -> (r: Pipe)
        ensures
            r.receiver == receiver,
    {
        Pipe { receiver }
    }
}

/// A node of the pipe network: the pipes that leave it, in the order in which
/// they were found.
#[derive(Clone, Debug)]
pub struct Junction {
    pub pipes: Vec<Pipe>,
}

impl Junction {
    /// A junction with no pipes.
    pub fn new() -> (r: Junction)
        ensures
            r.pipes@ == Seq::<Pipe>::empty(),
    {
        Junction { pipes: Vec::new() }
    }

    /// Removes every pipe.
    pub fn clear(&mut self)
        ensures
            final(self).pipes@ == Seq::<Pipe>::empty(),
    {
        self.pipes.clear();
    }

    /// Adds a pipe to `receiver` after the existing ones.
    pub fn push_pipe(&mut self, receiver: usize)
        ensures
            final(self).pipes@ == old(self).pipes@.push(Pipe { receiver }),
    {
        self.pipes.push(Pipe::new(receiver));
    }
}

/// What a cell of the pipe layer holds: its colour, if it is a coloured pipe
/// segment, and its junction, once it has been registered as one.
#[derive(Clone, Debug)]
pub struct Tile {
    pub segment: Option<PipeSegment>,
    pub junction: Option<Junction>,
}

/// What the graph depends on in a cell: whether a tile is there, its colour,
/// and whether it is a junction.
pub open spec fn cell_layout(t: Option<Tile>) -> Option<(Option<PipeSegment>, bool)> {
    match t {
        Some(t) => Some((t.segment, t.junction.is_some())),
        None => None,
    }
}

/// The index of the cell at `pos`, which is also the identity of its junction.
pub open spec fn index_of(size: TilemapSize, pos: TilePos) -> int {
    pos.y * size.x + pos.x
}

/// The colour of the tile at `pos`, if the cell holds a coloured tile.
pub open spec fn segment_in(
    size: TilemapSize,
    layout: Seq<Option<(Option<PipeSegment>, bool)>>,
    pos: TilePos,
) -> Option<PipeSegment> {
    match layout[index_of(size, pos)] {
        Some((segment, _)) => segment,
        None => None,
    }
}

/// The pipe that the junction at `pos` has in direction `d`, if any: the
/// neighbour there lies on the grid, holds a junction, and its colour is
/// compatible with that of `pos`.
pub open spec fn spec_edge(
    size: TilemapSize,
    layout: Seq<Option<(Option<PipeSegment>, bool)>>,
    pos: TilePos,
    d: int,
) -> Option<usize> {
    match spec_neighbor(size, pos, d) {
        Some(n) => match layout[index_of(size, n)] {
            Some((seg_n, true)) => if spec_compatible(segment_in(size, layout, pos), seg_n) {
                Some(index_of(size, n) as usize)
            } else {
                None
            },
            _ => None,
        },
        None => None,
    }
}

/// The pipes that the junction at `pos` gets from the first `k` directions
/// (right, up, left, down), in that order.
pub open spec fn expected_pipes(
    size: TilemapSize,
    layout: Seq<Option<(Option<PipeSegment>, bool)>>,
    pos: TilePos,
    k: nat,
) -> Seq<Pipe>
    decreases k,
{
    if k == 0 {
        Seq::empty()
    } else {
        let before = expected_pipes(size, layout, pos, (k - 1) as nat);
        match spec_edge(size, layout, pos, k - 1) {
            Some(e) => before.push(Pipe { receiver: e }),
            None => before,
        }
    }
}

/// The cell index of a position on a grid lies within the grid's cells.
pub proof fn lemma_index_in_bounds(size: TilemapSize, pos: TilePos)
    requires
        pos.within(size),
    ensures
        0 <= index_of(size, pos) < size.x * size.y,
{
    let (x, y, w, h) = (pos.x as int, pos.y as int, size.x as int, size.y as int);
    assert(0 <= y * w + x < w * h) by (nonlinear_arith)
        requires
            0 <= x < w,
            0 <= y < h,
    ;
}

/// Two positions on a grid share a cell only if they are the same.
pub proof fn lemma_index_injective(size: TilemapSize, p: TilePos, q: TilePos)
    requires
        p.within(size),
        q.within(size),
        index_of(size, p) == index_of(size, q),
    ensures
        p == q,
{
    let (px, py, qx, qy, w) = (p.x as int, p.y as int, q.x as int, q.y as int, size.x as int);
    assert(py == qy && px == qx) by (nonlinear_arith)
        requires
            0 <= px < w,
            0 <= qx < w,
            0 <= py,
            0 <= qy,
            py * w + px == qy * w + qx,
    ;
}

/// The pipe layer: a grid of cells, each holding a tile or nothing.
pub struct PipeNetwork {
    size: TilemapSize,
    tiles: Vec<Option<Tile>>,
}

impl PipeNetwork {
    /// The grid has one cell for each position.
    pub open spec fn wf(self) -> bool {
        &&& self.cells().len() == self.spec_size().x * self.spec_size().y
        &&& self.cells().len() <= usize::MAX
    }

    pub closed spec fn spec_size(self) -> TilemapSize {
        self.size
    }

    /// The cells, in order of their index.
    pub closed spec fn cells(self) -> Seq<Option<Tile>> {
        self.tiles@
    }

    /// What the graph depends on in each cell.
    pub open spec fn layout(self) -> Seq<Option<(Option<PipeSegment>, bool)>> {
        self.cells().map_values(|t: Option<Tile>| cell_layout(t))
    }

    /// The cell at `pos`.
    pub open spec fn cell(self, pos: TilePos) -> Option<Tile> {
        self.cells()[index_of(self.spec_size(), pos)]
    }

    /// Whether the cell at `pos` holds a junction.
    pub open spec fn is_junction(self, pos: TilePos) -> bool {
        &&& self.cell(pos) is Some
        &&& self.cell(pos)->Some_0.junction is Some
    }

    /// Whether the cell of index `id` holds a junction.
    pub open spec fn has_junction(self, id: int) -> bool {
        &&& 0 <= id < self.cells().len()
        &&& self.cells()[id] is Some
        &&& self.cells()[id]->Some_0.junction is Some
    }

    /// The pipes of the junction of index `id`.
    pub open spec fn junction_pipes(self, id: int) -> Seq<Pipe> {
        self.cells()[id]->Some_0.junction->Some_0.pipes@
    }

    /// The pipes of the junction at `pos`.
    pub open spec fn pipes_at(self, pos: TilePos) -> Seq<Pipe> {
        self.cell(pos)->Some_0.junction->Some_0.pipes@
    }

    /// The pipes that a rebuild gives the junction at `pos`.
    pub open spec fn spec_expected_pipes(self, pos: TilePos) -> Seq<Pipe> {
        expected_pipes(self.spec_size(), self.layout(), pos, 4)
    }

    /// The junction at `pos`, if there is one, has exactly the pipes that a
    /// rebuild gives it.
    pub open spec fn built_at(self, pos: TilePos) -> bool {
        self.is_junction(pos) ==> self.pipes_at(pos) == self.spec_expected_pipes(pos)
    }

    /// Every junction on the grid has exactly the pipes that a rebuild gives it.
    pub open spec fn is_built(self) -> bool {
        forall|pos: TilePos| pos.within(self.spec_size()) ==> #[trigger] self.built_at(pos)
    }

    /// An empty layer of the given size.
    pub fn new(size: TilemapSize) -> (r: PipeNetwork)
        requires
            size.x * size.y <= usize::MAX,
        ensures
            r.wf(),
            r.spec_size() == size,
            forall|i: int| 0 <= i < r.cells().len() ==> r.cells()[i] is None,
    {
        let n: usize = (size.x as usize) * (size.y as usize);
        let mut tiles: Vec<Option<Tile>> = Vec::new();
        let mut i: usize = 0;
        while i < n
            invariant
                i <= n,
                tiles@.len() == i,
                forall|j: int| 0 <= j < i ==> tiles@[j] is None,
            decreases n - i,
        {
            tiles.push(None);
            i = i + 1;
        }
        PipeNetwork { size, tiles }
    }

    pub fn size(&self) -> (r: TilemapSize)
        ensures
            r == self.spec_size(),
    {
        self.size
    }

    fn index(&self, pos: &TilePos) -> (r: usize)
        requires
            self.wf(),
            pos.within(self.spec_size()),
        ensures
            r == index_of(self.spec_size(), *pos),
            r < self.cells().len(),
    {
        let n = self.tiles.len();
        proof {
            lemma_index_in_bounds(self.size, *pos);
            assert(index_of(self.size, *pos) < n);
            let (x, y, w) = (pos.x as int, pos.y as int, self.size.x as int);
            assert(y * w <= y * w + x) by (nonlinear_arith)
                requires
                    0 <= x,
            ;
        }
        (pos.y as usize) * (self.size.x as usize) + (pos.x as usize)
    }

    /// Puts `tile` in the cell at `pos`, replacing what was there.
    pub fn set_tile(&mut self, pos: TilePos, tile: Tile)
        requires
            old(self).wf(),
            pos.within(old(self).spec_size()),
        ensures
            final(self).wf(),
            final(self).spec_size() == old(self).spec_size(),
            final(self).cells() == old(self).cells().update(
                index_of(old(self).spec_size(), pos),
                Some(tile),
            ),
    {
        let i = self.index(&pos);
        self.tiles[i] = Some(tile);
    }

    /// Empties the cell at `pos`.
    pub fn remove_tile(&mut self, pos: TilePos)
        requires
            old(self).wf(),
            pos.within(old(self).spec_size()),
        ensures
            final(self).wf(),
            final(self).spec_size() == old(self).spec_size(),
            final(self).cells() == old(self).cells().update(
                index_of(old(self).spec_size(), pos),
                None,
            ),
    {
        let i = self.index(&pos);
        self.tiles[i] = None;
    }

    /// The tile at `pos`, if the position is on the grid and holds one.
    pub fn tile(&self, pos: TilePos) -> (r: Option<&Tile>)
        requires
            self.wf(),
        ensures
            r is Some <==> pos.within(self.spec_size()) && self.cell(pos) is Some,
            r is Some ==> *r->Some_0 == self.cell(pos)->Some_0,
    {
        if pos.x < self.size.x && pos.y < self.size.y {
            let i = self.index(&pos);
            self.tiles[i].as_ref()
        } else {
            None
        }
    }

    /// The junction whose identity is `id`, if that cell holds one.
    pub fn junction(&self, id: usize) -> (r: Option<&Junction>)
        requires
            self.wf(),
        ensures
            r is Some <==> self.has_junction(id as int),
            r is Some ==> *r->Some_0 == self.cells()[id as int]->Some_0.junction->Some_0,
    {
        if id < self.tiles.len() {
            match &self.tiles[id] {
                Some(t) => t.junction.as_ref(),
                None => None,
            }
        } else {
            None
        }
    }

    /// Rebuilds the pipes of the junction at `pos` from its four neighbours:
    /// its old pipes are dropped, and one pipe is added, in the order right,
    /// up, left, down, to each neighbour on the grid that is a junction with a
    /// compatible colour. A cell that is not a junction is left as it is.
    pub fn build_junction(&mut self, pos: TilePos)
        requires
            old(self).wf(),
            pos.within(old(self).spec_size()),
        ensures
            final(self).wf(),
            final(self).spec_size() == old(self).spec_size(),
            final(self).layout() == old(self).layout(),
            forall|i: int|
                0 <= i < old(self).cells().len() && i != index_of(old(self).spec_size(), pos)
                    ==> final(self).cells()[i] == old(self).cells()[i],
            old(self).is_junction(pos) ==> final(self).pipes_at(pos)
                == old(self).spec_expected_pipes(pos),
            !old(self).is_junction(pos) ==> final(self).cells() == old(self).cells(),
    {
        let i = self.index(&pos);
        let segment = match &self.tiles[i] {
            Some(t) => {
                if t.junction.is_none() {
                    return ;
                }
                t.segment
            },
            None => {
                return ;
            },
        };
        let ghost layout = self.layout();
        let mut junction = Junction::new();
        let neighbors = neighbor_positions(&self.size, &pos);
        let mut d: usize = 0;
        while d < 4
            invariant
                self.wf(),
                *self == *old(self),
                layout == self.layout(),
                pos.within(self.spec_size()),
                segment == segment_in(self.spec_size(), layout, pos),
                forall|k: int| 0 <= k < 4 ==> neighbors@[k] == spec_neighbor(self.spec_size(), pos, k),
                d <= 4,
                junction.pipes@ == expected_pipes(self.spec_size(), layout, pos, d as nat),
            decreases 4 - d,
        {
            if let Some(n) = neighbors[d] {
                let ni = self.index(&n);
                if let Some(nt) = &self.tiles[ni] {
                    if nt.junction.is_some() && compatible(segment, nt.segment) {
                        junction.push_pipe(ni);
                    }
                }
            }
            d = d + 1;
        }
        self.tiles[i] = Some(Tile { segment, junction: Some(junction) });
        assert(self.layout() =~= old(self).layout());
    }

    /// Rebuilds the pipes of every junction of the layer, as `build_junction`
    /// does, row by row. Afterwards every junction has exactly the pipes that
    /// its neighbours give it; colours, and which cells hold tiles and
    /// junctions, are unchanged.
    pub fn build_pipe_network(&mut self)
        requires
            old(self).wf(),
        ensures
            final(self).wf(),
            final(self).spec_size() == old(self).spec_size(),
            final(self).layout() == old(self).layout(),
            final(self).is_built(),
            forall|pos: TilePos|
                pos.within(old(self).spec_size()) && !old(self).is_junction(pos)
                    ==> #[trigger] final(self).cell(pos) == old(self).cell(pos),
    {
        let w = self.size.x;
        let h = self.size.y;
        let mut y: u32 = 0;
        while y < h
            invariant
                self.wf(),
                self.spec_size() == old(self).spec_size(),
                self.layout() == old(self).layout(),
                w == self.spec_size().x,
                h == self.spec_size().y,
                y <= h,
                forall|pos: TilePos|
                    pos.within(self.spec_size()) && pos.y < y ==> #[trigger] self.built_at(pos),
                forall|pos: TilePos|
                    pos.within(self.spec_size()) && (pos.y >= y || !old(self).is_junction(pos))
                        ==> #[trigger] self.cell(pos) == old(self).cell(pos),
            decreases h - y,
        {
            let mut x: u32 = 0;
            while x < w
                invariant
                    self.wf(),
                    self.spec_size() == old(self).spec_size(),
                    self.layout() == old(self).layout(),
                    w == self.spec_size().x,
                    h == self.spec_size().y,
                    y < h,
                    x <= w,
                    forall|pos: TilePos|
                        pos.within(self.spec_size()) && (pos.y < y || (pos.y == y && pos.x < x))
                            ==> #[trigger] self.built_at(pos),
                    forall|pos: TilePos|
                        pos.within(self.spec_size()) && (pos.y > y || (pos.y == y && pos.x >= x)
                            || !old(self).is_junction(pos))
                            ==> #[trigger] self.cell(pos) == old(self).cell(pos),
                decreases w - x,
            {
                let p = TilePos::new(x, y);
                let ghost before = *self;
                self.build_junction(p);
                proof {
                    let size = self.spec_size();
                    assert forall|pos: TilePos| pos.within(size) && pos != p implies self.cell(pos)
                        == before.cell(pos) by {
                        lemma_index_in_bounds(size, pos);
                        if index_of(size, pos) == index_of(size, p) {
                            lemma_index_injective(size, pos, p);
                        }
                    }
                    assert forall|pos: TilePos|
                        pos.within(size) && (pos.y < y || (pos.y == y && pos.x < x + 1))
                            implies #[trigger] self.built_at(pos) by {
                        if pos != p {
                            assert(before.built_at(pos));
                        } else {
                            assert(before.cell(p) == old(self).cell(p));
                            if !before.is_junction(p) {
                                assert(self.cell(p) == before.cell(p));
                            }
                        }
                    }
                }
                x = x + 1;
            }
            y = y + 1;
        }
    }
}

/// A pipe found in some direction is among the pipes of the first `k`
/// directions, when that direction comes before `k`.
proof fn lemma_expected_has_edge(
    size: TilemapSize,
    layout: Seq<Option<(Option<PipeSegment>, bool)>>,
    pos: TilePos,
    k: nat,
    d: int,
    e: usize,
)
    requires
        0 <= d < k,
        spec_edge(size, layout, pos, d) == Some(e),
    ensures
        expected_pipes(size, layout, pos, k).contains(Pipe { receiver: e }),
    decreases k,
{
    let before = expected_pipes(size, layout, pos, (k - 1) as nat);
    if d == k - 1 {
        let all = before.push(Pipe { receiver: e });
        assert(all[before.len() as int] == Pipe { receiver: e });
    } else {
        lemma_expected_has_edge(size, layout, pos, (k - 1) as nat, d, e);
        let j = choose|j: int| 0 <= j < before.len() && before[j] == Pipe { receiver: e };
        match spec_edge(size, layout, pos, k - 1) {
            Some(f) => {
                assert(before.push(Pipe { receiver: f })[j] == Pipe { receiver: e });
            },
            None => {},
        }
    }
}

/// Every pipe among those of the first `k` directions was found in one of
/// them.
proof fn lemma_expected_edge_of(
    size: TilemapSize,
    layout: Seq<Option<(Option<PipeSegment>, bool)>>,
    pos: TilePos,
    k: nat,
    e: usize,
) -> (d: int)
    requires
        expected_pipes(size, layout, pos, k).contains(Pipe { receiver: e }),
    ensures
        0 <= d < k,
        spec_edge(size, layout, pos, d) == Some(e),
    decreases k,
{
    let before = expected_pipes(size, layout, pos, (k - 1) as nat);
    match spec_edge(size, layout, pos, k - 1) {
        Some(f) => {
            if f == e {
                k - 1
            } else {
                let all = before.push(Pipe { receiver: f });
                let j = choose|j: int| 0 <= j < all.len() && all[j] == Pipe { receiver: e };
                assert(before[j] == Pipe { receiver: e });
                lemma_expected_edge_of(size, layout, pos, (k - 1) as nat, e)
            }
        },
        None => lemma_expected_edge_of(size, layout, pos, (k - 1) as nat, e),
    }
}

/// The colour of the tile at `pos`, if there is a coloured tile there.
pub open spec fn segment_at(net: PipeNetwork, pos: TilePos) -> Option<PipeSegment> {
    match net.cell(pos) {
        Some(t) => t.segment,
        None => None,
    }
}

/// After a full rebuild, two side-by-side junctions whose colours are
/// compatible (equal, or one of them uncoloured) each have a pipe to the
/// other.
pub proof fn lemma_compatible_neighbors_joined(net: PipeNetwork, a: TilePos, b: TilePos)
    requires
        net.wf(),
        net.is_built(),
        a.within(net.spec_size()),
        b.within(net.spec_size()),
        adjacent(a, b),
        net.is_junction(a),
        net.is_junction(b),
        spec_compatible(segment_at(net, a), segment_at(net, b)),
    ensures
        net.pipes_at(a).contains(Pipe { receiver: index_of(net.spec_size(), b) as usize }),
        net.pipes_at(b).contains(Pipe { receiver: index_of(net.spec_size(), a) as usize }),
{
    let size = net.spec_size();
    let layout = net.layout();
    lemma_index_in_bounds(size, a);
    lemma_index_in_bounds(size, b);
    assert(layout[index_of(size, a)] == cell_layout(net.cell(a)));
    assert(layout[index_of(size, b)] == cell_layout(net.cell(b)));
    let d = choose|d: int|
        0 <= d < 4 && a.x + #[trigger] direction_offset(d).0 == b.x && a.y + direction_offset(
            d,
        ).1 == b.y;
    let back = if d < 2 {
        d + 2
    } else {
        d - 2
    };
    assert(spec_neighbor(size, a, d) == Some(b));
    assert(spec_neighbor(size, b, back) == Some(a));
    assert(net.built_at(a));
    assert(net.built_at(b));
    lemma_expected_has_edge(size, layout, a, 4, d, index_of(size, b) as usize);
    lemma_expected_has_edge(size, layout, b, 4, back, index_of(size, a) as usize);
}

/// Whatever the build, no junction has a pipe to a junction of another
/// colour when both are coloured.
pub proof fn lemma_different_colors_not_joined(net: PipeNetwork, a: TilePos, b: TilePos)
    requires
        net.wf(),
        net.is_built(),
        a.within(net.spec_size()),
        b.within(net.spec_size()),
        segment_at(net, a) is Some,
        segment_at(net, b) is Some,
        segment_at(net, a) != segment_at(net, b),
    ensures
        net.is_junction(a) ==> !net.pipes_at(a).contains(
            Pipe { receiver: index_of(net.spec_size(), b) as usize },
        ),
        net.is_junction(b) ==> !net.pipes_at(b).contains(
            Pipe { receiver: index_of(net.spec_size(), a) as usize },
        ),
{
    lemma_no_pipe_between_colors(net, a, b);
    lemma_no_pipe_between_colors(net, b, a);
}

/// The junction at `a` has no pipe to the cell at `b` when both are coloured
/// with different colours.
proof fn lemma_no_pipe_between_colors(net: PipeNetwork, a: TilePos, b: TilePos)
    requires
        net.wf(),
        net.is_built(),
        a.within(net.spec_size()),
        b.within(net.spec_size()),
        segment_at(net, a) is Some,
        segment_at(net, b) is Some,
        segment_at(net, a) != segment_at(net, b),
    ensures
        net.is_junction(a) ==> !net.pipes_at(a).contains(
            Pipe { receiver: index_of(net.spec_size(), b) as usize },
        ),
{
    let size = net.spec_size();
    let layout = net.layout();
    let e = index_of(size, b) as usize;
    lemma_index_in_bounds(size, a);
    lemma_index_in_bounds(size, b);
    if net.is_junction(a) && net.pipes_at(a).contains(Pipe { receiver: e }) {
        assert(net.built_at(a));
        let d = lemma_expected_edge_of(size, layout, a, 4, e);
        let n = spec_neighbor(size, a, d)->Some_0;
        lemma_index_in_bounds(size, n);
        assert(index_of(size, n) as usize == e);
        lemma_index_injective(size, n, b);
        assert(layout[index_of(size, a)] == cell_layout(net.cell(a)));
        assert(layout[index_of(size, b)] == cell_layout(net.cell(b)));
    }
}

} // verus!
