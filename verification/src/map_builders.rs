pub mod common;
pub mod rng_source;
pub mod simple_map;
pub mod bsp_map;

use vstd::prelude::*;
use crate::grid::{Grid, TileType, grid_eq, MAP_WIDTH, MAP_HEIGHT};
use self::simple_map::SimpleMapBuilder;
use self::bsp_map::BspMapBuilder;

verus! {

/// A builder's live grid keeps the fixed dimensions and the flat-array length
/// invariant at every step of generation.
pub open spec fn builder_grid_ok(g: Grid) -> bool {
    g.wf() && g.width == MAP_WIDTH && g.height == MAP_HEIGHT
}

/// Carving from `a` to `b` never un-carves: every `Room` tile of `a` is
/// still `Room` in `b`, and no tile ever reverts to `Wall`.
pub open spec fn room_preserving(a: Grid, b: Grid) -> bool {
    a.tiles@.len() == b.tiles@.len() && (forall|i: int|
        0 <= i < a.tiles@.len() && (#[trigger] a.tiles@[i]) == TileType::Room ==> b.tiles@[i]
            == TileType::Room) && (forall|i: int|
        0 <= i < a.tiles@.len() && (#[trigger] b.tiles@[i]) == TileType::Wall ==> a.tiles@[i]
            == TileType::Wall)
}

/// Along the snapshot timeline, and from the last snapshot to the live grid,
/// a `Room` tile never reverts.
pub open spec fn timeline_monotone(h: Seq<Grid>, current: Grid) -> bool {
    (forall|k: int| 0 <= k < h.len() - 1 ==> room_preserving(#[trigger] h[k], h[k + 1])) && (h.len()
        >= 1 ==> room_preserving(h.last(), current))
}


/// The shared contract of a generation strategy: it owns one live grid and an
/// append-only snapshot history. `build` runs the whole algorithm once,
/// starting with a snapshot of the grid as constructed, appending in call
/// order, and leaving the last snapshot equal to the final grid.
pub trait MapBuilder {
    spec fn inv(&self) -> bool;

    spec fn map_of(&self) -> Grid;

    spec fn history_of(&self) -> Seq<Grid>;

    spec fn label_of(&self) -> Seq<char>;

    /// The strategy's fixed human-readable label.
    fn name(&self) -> (r: &str)
        ensures
            r@ == self.label_of(),
    ;

    /// Runs the full generation algorithm once. The first snapshot it appends
    /// is the grid as it stood on entry, every prior snapshot is kept
    /// unchanged, and the final grid equals the last snapshot.
    fn build(&mut self)
        requires
            old(self).inv(),
        ensures
            final(self).inv(),
            builder_grid_ok(final(self).map_of()),
            forall|k: int|
                0 <= k < final(self).history_of().len() ==> builder_grid_ok(
                    #[trigger] final(self).history_of()[k],
                ),
            final(self).history_of().len() > old(self).history_of().len(),
            forall|k: int|
                0 <= k < old(self).history_of().len() ==> final(self).history_of()[k] == old(
                    self,
                ).history_of()[k],
            grid_eq(
                final(self).history_of()[old(self).history_of().len() as int],
                old(self).map_of(),
            ),
            grid_eq(final(self).history_of().last(), final(self).map_of()),
            forall|k: int|
                0 <= k < final(self).history_of().len() - 1 ==> room_preserving(
                    #[trigger] final(self).history_of()[k],
                    final(self).history_of()[k + 1],
                ),
            final(self).label_of() == old(self).label_of(),
    ;

    /// A copy of the current (typically final) grid.
    fn get_map(&mut self) -> (g: Grid)
        ensures
            final(self).inv() == old(self).inv(),
            final(self).map_of() == old(self).map_of(),
            final(self).history_of() == old(self).history_of(),
            final(self).label_of() == old(self).label_of(),
            grid_eq(g, old(self).map_of()),
    ;

    /// A copy of the whole snapshot timeline, oldest first.
    fn get_snapshot_history(&self) -> (h: Vec<Grid>)
        ensures
            h@.len() == self.history_of().len(),
            forall|k: int|
                0 <= k < h@.len() ==> grid_eq(#[trigger] h@[k], self.history_of()[k]),
    ;

    /// Appends a copy of the current grid to the history.
    fn take_snapshot(&mut self)
        requires
            old(self).inv(),
        ensures
            final(self).inv(),
            final(self).map_of() == old(self).map_of(),
            final(self).history_of().len() == old(self).history_of().len() + 1,
            forall|k: int|
                0 <= k < old(self).history_of().len() ==> final(self).history_of()[k] == old(
                    self,
                ).history_of()[k],
            grid_eq(final(self).history_of().last(), old(self).map_of()),
            forall|k: int|
                0 <= k < final(self).history_of().len() - 1 ==> room_preserving(
                    #[trigger] final(self).history_of()[k],
                    final(self).history_of()[k + 1],
                ),
            final(self).label_of() == old(self).label_of(),
    ;
}

/// The closed set of generation strategies a caller can pick from.
pub enum Builder {
    Simple(SimpleMapBuilder),
    Bsp(BspMapBuilder),
}

impl MapBuilder for Builder {
    closed spec fn inv(&self) -> bool {
        match self {
            Builder::Simple(s) => s.inv(),
            Builder::Bsp(b) => b.inv(),
        }
    }

    closed spec fn map_of(&self) -> Grid {
        match self {
            Builder::Simple(s) => s.map_of(),
            Builder::Bsp(b) => b.map_of(),
        }
    }

    closed spec fn history_of(&self) -> Seq<Grid> {
        match self {
            Builder::Simple(s) => s.history_of(),
            Builder::Bsp(b) => b.history_of(),
        }
    }

    open spec fn label_of(&self) -> Seq<char> {
        match self {
            Builder::Simple(s) => s.label_of(),
            Builder::Bsp(b) => b.label_of(),
        }
    }

    fn name(&self) -> (r: &str) {
        match self {
            Builder::Simple(s) => s.name(),
            Builder::Bsp(b) => b.name(),
        }
    }

    fn build(&mut self) {
        match self {
            Builder::Simple(s) => s.build(),
            Builder::Bsp(b) => b.build(),
        }
    }

    fn get_map(&mut self) -> (g: Grid) {
        match self {
            Builder::Simple(s) => s.get_map(),
            Builder::Bsp(b) => b.get_map(),
        }
    }

    fn get_snapshot_history(&self) -> (h: Vec<Grid>) {
        match self {
            Builder::Simple(s) => s.get_snapshot_history(),
            Builder::Bsp(b) => b.get_snapshot_history(),
        }
    }

    fn take_snapshot(&mut self) {
        match self {
            Builder::Simple(s) => s.take_snapshot(),
            Builder::Bsp(b) => b.take_snapshot(),
        }
    }
}

/// A fresh random-room strategy, ready to build.
pub fn simple_builder() -> (b: Builder)
    ensures
        b is Simple,
        b.label_of() == "Simple"@,
        b.inv(),
        b.history_of().len() == 0,
        builder_grid_ok(b.map_of()),
        forall|i: int|
            0 <= i < b.map_of().tiles@.len() ==> b.map_of().tiles@[i] == TileType::Wall,
{
    Builder::Simple(SimpleMapBuilder::new())
}

/// A fresh binary-space-partition strategy, ready to build.
pub fn bsp_builder() -> (b: Builder)
    ensures
        b is Bsp,
        b.label_of() == "Binary Space Partition"@,
        b.inv(),
        b.history_of().len() == 0,
        builder_grid_ok(b.map_of()),
        forall|i: int|
            0 <= i < b.map_of().tiles@.len() ==> b.map_of().tiles@[i] == TileType::Wall,
{
    Builder::Bsp(BspMapBuilder::new())
}

/// One of the two strategies, chosen by an unbiased coin flip.
pub fn random_builder() -> (b: Builder)
    ensures
        b.label_of() == "Simple"@ || b.label_of() == "Binary Space Partition"@,
        b.inv(),
        b.history_of().len() == 0,
        builder_grid_ok(b.map_of()),
        forall|i: int|
            0 <= i < b.map_of().tiles@.len() ==> b.map_of().tiles@[i] == TileType::Wall,
{
    if rand::random::<bool>() {
        bsp_builder()
    } else {
        simple_builder()
    }
}

} // verus!
