use vstd::prelude::*;

verus! {

/// Grid width, in tiles, of every generated map.
pub const MAP_WIDTH: usize = 80;
/// Grid height, in tiles, of every generated map.
pub const MAP_HEIGHT: usize = 50;
/// Number of tiles in a generated map.
pub const TILE_COUNT: usize = MAP_HEIGHT * MAP_WIDTH;

/// The state of one grid cell. `Wall` is the background; `Room` and `Tunnel`
/// are the two carved states.
#[derive(PartialEq, Eq, Structural, Copy, Clone, Debug)]
pub enum TileType {
    Wall,
    Room,
    Tunnel,
}

/// A rectangular tile grid stored as a flat row-major vector: coordinate
/// `(x, y)` lives at index `y * width + x`.
#[derive(Debug, PartialEq)]
pub struct Grid {
    pub tiles: Vec<TileType>,
    pub height: usize,
    pub width: usize,
}

impl Grid {
    /// The grid's one structural invariant: the flat vector holds exactly
    /// `width * height` tiles.
    pub open spec fn wf(&self) -> bool {
        self.tiles@.len() == self.width * self.height
    }

    pub open spec fn coord_in_bounds(&self, x: int, y: int) -> bool {
        0 <= x < self.width && 0 <= y < self.height
    }

    /// A fresh map of the fixed dimensions, entirely `Wall`.
    pub fn new() -> (g: Grid)
        ensures
            g.wf(),
            g.width == MAP_WIDTH,
            g.height == MAP_HEIGHT,
            forall|i: int| 0 <= i < g.tiles@.len() ==> g.tiles@[i] == TileType::Wall,
    {
        let mut tiles: Vec<TileType> = Vec::new();
        let mut i: usize = 0;
        while i < TILE_COUNT
            invariant
                i <= TILE_COUNT,
                tiles@.len() == i,
                forall|k: int| 0 <= k < i ==> tiles@[k] == TileType::Wall,
            decreases TILE_COUNT - i,
        {
            tiles.push(TileType::Wall);
            i = i + 1;
        }
        Grid { tiles, width: MAP_WIDTH, height: MAP_HEIGHT }
    }

    /// Flat index of coordinate `(x, y)`; the caller must keep the
    /// coordinate inside the grid.
    pub fn xy_idx(&self, x: i32, y: i32) -> (idx: usize)
        requires
            self.wf(),
            self.coord_in_bounds(x as int, y as int),
        ensures
            idx == y * self.width + x,
            idx < self.tiles@.len(),
    {
        proof {
            lemma_idx_in_range(self.width as int, self.height as int, x as int, y as int);
        }
        let n = self.tiles.len();
        assert(y * self.width + x < n);
        (y as usize) * self.width + (x as usize)
    }
}

impl Clone for Grid {
    /// A deep copy; snapshots rely on the copy holding exactly the same tiles.
    fn clone(&self) -> (g: Grid)
        ensures
            grid_eq(*self, g),
    {
        let mut tiles: Vec<TileType> = Vec::new();
        let mut i: usize = 0;
        let n = self.tiles.len();
        while i < n
            invariant
                i <= n,
                n == self.tiles@.len(),
                tiles@.len() == i,
                forall|k: int| 0 <= k < i ==> tiles@[k] == self.tiles@[k],
            decreases n - i,
        {
            tiles.push(self.tiles[i]);
            i = i + 1;
        }
        proof {
            assert(tiles@ =~= self.tiles@);
        }
        Grid { tiles, width: self.width, height: self.height }
    }
}

/// Two grids hold the same tiles and the same dimensions.
pub open spec fn grid_eq(a: Grid, b: Grid) -> bool {
    a.tiles@ == b.tiles@ && a.width == b.width && a.height == b.height
}

/// Row-major indexing stays inside the flat vector for in-bounds coordinates.
pub proof fn lemma_idx_in_range(w: int, h: int, x: int, y: int)
    requires
        0 <= x < w,
        0 <= y < h,
    ensures
        0 <= y * w + x,
        y * w + x < w * h,
{
    assert(y * w + x < w * h) by (nonlinear_arith)
        requires
            0 <= x < w,
            0 <= y < h,
    ;
    assert(0 <= y * w + x) by (nonlinear_arith)
        requires
            0 <= x < w,
            0 <= y,
    ;
}

/// A coordinate-sized row times any machine-sized width stays far inside the
/// 128-bit range.
pub proof fn lemma_row_product_bound(y: int, w: int)
    requires
        -0x1_0000_0000 <= y <= 0x1_0000_0000,
        0 <= w <= 0xffff_ffff_ffff_ffff,
    ensures
        -0x1_0000_0000_0000_0000_0000_0000 <= y * w <= 0x1_0000_0000_0000_0000_0000_0000,
{
    assert(-0x1_0000_0000_0000_0000_0000_0000 <= y * w <= 0x1_0000_0000_0000_0000_0000_0000)
        by (nonlinear_arith)
        requires
            -0x1_0000_0000 <= y <= 0x1_0000_0000,
            0 <= w <= 0xffff_ffff_ffff_ffff,
    ;
}

} // verus!
