use vstd::prelude::*;
use crate::grid::{Grid, TileType, grid_eq, MAP_WIDTH, MAP_HEIGHT};
use crate::rect::{Point, Rectangle};
use crate::map_builders::{
    MapBuilder,
    builder_grid_ok,
    room_preserving,
    timeline_monotone,
};
use crate::map_builders::common::{
    apply_room_to_map,
    apply_horizontal_tunnel,
    apply_vertical_tunnel,
    flat_idx,
    lemma_stamped_preserved,
    room_fully_stamped,
    row_base,
};
use crate::map_builders::rng_source::{
    rng_from_seed,
    gen_range_i32,
    gen_range_usize,
    gen_coin_flip,
};

verus! {

/// Number of subdivision attempts one build makes.
pub const MAX_ATTEMPTS: i32 = 240;

/// Coordinate ceiling for candidate rectangles; far beyond anything the fixed
/// grid can hold, but small enough that every derived sum fits an `i32`.
pub const COORD_CEILING: i32 = 0x10_0000;

/// Half of a candidate extent, by integer division with a floor of one tile.
pub open spec fn half_extent(d: int) -> int {
    if d / 2 > 1 {
        d / 2
    } else {
        1
    }
}

/// The rectangle anchored at `(x, y)` with extents `w` and `h`.
pub open spec fn rect_at(x: int, y: int, w: int, h: int) -> Rectangle {
    Rectangle {
        lower: Point { x: x as i32, y: y as i32 },
        upper: Point { x: (x + w) as i32, y: (y + h) as i32 },
    }
}

/// The four equal quadrants of `rect` (top-left, bottom-left, top-right,
/// bottom-right, by integer halves with a floor of one tile).
pub open spec fn quadrants_of(rect: Rectangle) -> Seq<Rectangle> {
    let hw = half_extent(rect.upper.x - rect.lower.x);
    let hh = half_extent(rect.upper.y - rect.lower.y);
    seq![
        rect_at(rect.lower.x as int, rect.lower.y as int, hw, hh),
        rect_at(rect.lower.x as int, rect.lower.y as int + hh, hw, hh),
        rect_at(rect.lower.x as int + hw, rect.lower.y as int, hw, hh),
        rect_at(rect.lower.x as int + hw, rect.lower.y as int + hh, hw, hh),
    ]
}

/// A candidate rectangle stays inside the given coordinate ceiling and keeps
/// at least one tile of extent on each axis.
pub open spec fn rect_bounded(r: Rectangle, bx: int, by: int) -> bool {
    0 <= r.lower.x && r.lower.x < r.upper.x && r.upper.x <= bx && 0 <= r.lower.y && r.lower.y
        < r.upper.y && r.upper.y <= by
}

/// One quadrant produced by subdividing `parent`: anchored at or after the
/// parent's corner, never more than two tiles past the parent's far edge.
pub open spec fn quarter_ok(parent: Rectangle, c: Rectangle) -> bool {
    parent.lower.x <= c.lower.x && parent.lower.y <= c.lower.y && c.lower.x < c.upper.x
        && c.lower.y < c.upper.y && c.upper.x <= parent.upper.x + 2 && c.upper.y <= parent.upper.y
        + 2
}

/// An accepted room sits inside the fixed grid with the clearances the
/// feasibility check enforces.
pub open spec fn bsp_room_ok(r: Rectangle) -> bool {
    0 <= r.lower.x && r.lower.x < r.upper.x && (r.upper.x as int) <= (MAP_WIDTH as int) && 0
        <= r.lower.y && r.lower.y < r.upper.y && (r.upper.y as int) + 4 <= (MAP_HEIGHT as int)
}

/// Coordinate `(x, y)` is inside the grid with a one-tile safety margin and
/// still uncarved.
pub open spec fn cell_ok(g: Grid, x: int, y: int) -> bool {
    1 <= x <= (g.width as int) - 2 && 1 <= y <= (g.height as int) - 2 && g.tiles@[flat_idx(
        g.width as int,
        x,
        y,
    )] == TileType::Wall
}

/// Every cell of `rect`'s footprint, shrunk by the fixed margin (two tiles
/// leftward on x, two tiles downward on y, per the carving convention), is in
/// bounds and `Wall`.
pub open spec fn bsp_candidate_fits(g: Grid, rect: Rectangle) -> bool {
    forall|x: int, y: int|
        rect.lower.x - 2 <= x <= rect.upper.x - 2 && rect.lower.y + 2 <= y <= rect.upper.y + 2
            ==> #[trigger] cell_ok(g, x, y)
}

/// The feasibility scan has cleared all shrunken-footprint rows strictly
/// below `yc`, plus the columns strictly below `xc` of row `yc` itself.
pub open spec fn fits_scanned_to(g: Grid, rect: Rectangle, yc: int, xc: int) -> bool {
    (forall|x: int, y: int|
        rect.lower.x - 2 <= x <= rect.upper.x - 2 && rect.lower.y + 2 <= y <= rect.upper.y + 2 && y
            < yc ==> #[trigger] cell_ok(g, x, y)) && (forall|x: int|
        rect.lower.x - 2 <= x < xc ==> #[trigger] cell_ok(g, x, yc))
}

/// `v` lies on the unit-step walk that leaves `a` and ends at `b`: strictly
/// after `a`, up to and including `b`, in whichever direction `b` lies.
pub open spec fn between_excl(a: int, b: int, v: int) -> bool {
    if b >= a {
        a < v <= b
    } else {
        b <= v < a
    }
}

/// `v` lies on the inclusive unit-step walk from `a` to `b`.
pub open spec fn between_incl(a: int, b: int, v: int) -> bool {
    if b >= a {
        a <= v <= b
    } else {
        b <= v <= a
    }
}

/// Flat index `i` lies on the L-shaped walk the corridor drawer carves: first
/// along the start's row toward the finish column, then along the finish
/// column toward the finish row. The partial form stops the first leg at
/// column `xc` and the second at row `yc`.
pub open spec fn corridor_covered_to(
    w: int,
    start: Point,
    finish: Point,
    xc: int,
    yc: int,
    i: int,
) -> bool {
    between_excl(start.x as int, xc, i - row_base(start.y as int, w)) || (exists|yy: int|
        between_excl(start.y as int, yc, yy) && i == (#[trigger] row_base(yy, w))
            + finish.x)
}

/// Flat index `i` lies on the full L-shaped walk from `start` to `finish`.
pub open spec fn corridor_covers(w: int, start: Point, finish: Point, i: int) -> bool {
    corridor_covered_to(w, start, finish, finish.x as int, finish.y as int, i)
}

/// Stepping the second corridor leg one row toward the finish adds exactly
/// one cell of the finish column.
proof fn lemma_corridor_y_extend(w: int, y0: int, fy: int, fx: int, y_old: int, y_new: int, i: int)
    requires
        between_incl(y0, fy, y_old),
        y_old != fy,
        y_new == (if y_old < fy {
            y_old + 1
        } else {
            y_old - 1
        }),
    ensures
        (exists|yy: int|
            between_excl(y0, y_new, yy) && i == (#[trigger] row_base(yy, w)) + fx) == ((exists|
            yy: int,
        |
            between_excl(y0, y_old, yy) && i == (#[trigger] row_base(yy, w)) + fx) || i == row_base(
            y_new,
            w,
        ) + fx),
{
    if exists|yy: int| between_excl(y0, y_new, yy) && i == (#[trigger] row_base(yy, w)) + fx {
        let yy = choose|yy: int|
            between_excl(y0, y_new, yy) && i == (#[trigger] row_base(yy, w)) + fx;
        if yy != y_new {
            assert(between_excl(y0, y_old, yy) && i == row_base(yy, w) + fx);
        }
    }
    if exists|yy: int| between_excl(y0, y_old, yy) && i == (#[trigger] row_base(yy, w)) + fx {
        let yy = choose|yy: int|
            between_excl(y0, y_old, yy) && i == (#[trigger] row_base(yy, w)) + fx;
        assert(between_excl(y0, y_new, yy) && i == row_base(yy, w) + fx);
    }
    if i == row_base(y_new, w) + fx {
        assert(between_excl(y0, y_new, y_new) && i == row_base(y_new, w) + fx);
    }
}

/// `b` differs from `a` only where corridor carving may write: a tile keeps
/// its value, or it was not `Room` and is now `Tunnel`.
pub open spec fn carved_step(a: Grid, b: Grid) -> bool {
    a.tiles@.len() == b.tiles@.len() && (forall|i: int|
        0 <= i < a.tiles@.len() ==> (#[trigger] b.tiles@[i]) == a.tiles@[i] || (a.tiles@[i]
            != TileType::Room && b.tiles@[i] == TileType::Tunnel))
}


/// Rooms listed in ascending order of their lower-x coordinate.
pub open spec fn sorted_by_lower_x(s: Seq<Rectangle>) -> bool {
    forall|a: int, b: int|
        0 <= a < b < s.len() ==> (#[trigger] s[a]).lower.x <= (#[trigger] s[b]).lower.x
}

/// In-place insertion sort of the accepted rooms by their lower-x coordinate:
/// a permutation of the input, in ascending order of `lower.x`.
fn sort_rooms_by_lower_x(rooms: &mut Vec<Rectangle>)
    requires
        forall|k: int| 0 <= k < old(rooms)@.len() ==> bsp_room_ok(#[trigger] old(rooms)@[k]),
    ensures
        final(rooms)@.len() == old(rooms)@.len(),
        sorted_by_lower_x(final(rooms)@),
        final(rooms)@.to_multiset() == old(rooms)@.to_multiset(),
        forall|k: int| 0 <= k < final(rooms)@.len() ==> bsp_room_ok(#[trigger] final(rooms)@[k]),
        old(rooms)@.len() <= 1 ==> final(rooms)@ == old(rooms)@,
{
    let ghost r0 = rooms@;
    let n = rooms.len();
    let mut i: usize = 1;
    while i < n
        invariant
            n == rooms@.len(),
            1 <= i,
            n <= 1 ==> rooms@ == r0,
            rooms@.to_multiset() == r0.to_multiset(),
            forall|a: int, b: int|
                0 <= a < b < i ==> (#[trigger] rooms@[a]).lower.x <= (#[trigger] rooms@[b]).lower.x,
            forall|k: int| 0 <= k < n ==> bsp_room_ok(#[trigger] rooms@[k]),
        decreases n - i,
    {
        let mut j: usize = i;
        while j > 0 && rooms[j - 1].lower.x > rooms[j].lower.x
            invariant
                n == rooms@.len(),
                rooms@.to_multiset() == r0.to_multiset(),
                j <= i < n,
                forall|a: int, b: int|
                    0 <= a < b <= i && a != j && b != j ==> (#[trigger] rooms@[a]).lower.x <= (
                    #[trigger] rooms@[b]).lower.x,
                forall|b: int|
                    j < b <= i ==> rooms@[j as int].lower.x <= (#[trigger] rooms@[b]).lower.x,
                forall|k: int| 0 <= k < n ==> bsp_room_ok(#[trigger] rooms@[k]),
            decreases j,
        {
            let ghost prev = rooms@;
            let lower_one = rooms[j - 1];
            let higher_one = rooms[j];
            rooms.set(j - 1, higher_one);
            rooms.set(j, lower_one);
            proof {
                broadcast use vstd::seq_lib::to_multiset_update;
                broadcast use vstd::seq_lib::group_to_multiset_ensures;
                let a = prev[j as int - 1];
                let b = prev[j as int];
                assert(prev.contains(a) && prev.contains(b));
                assert(rooms@ == prev.update(j as int - 1, b).update(j as int, a));
                assert(rooms@.to_multiset() =~= prev.to_multiset());
            }
            j = j - 1;
        }
        proof {
            assert forall|a: int, b: int| 0 <= a < b < i + 1 implies (
            #[trigger] rooms@[a]).lower.x <= (#[trigger] rooms@[b]).lower.x by {
                if a == j || b == j {
                    if j > 0 {
                        assert(rooms@[j as int - 1].lower.x <= rooms@[j as int].lower.x);
                    }
                }
            }
        }
        i = i + 1;
    }
}

/// The binary-space-partition strategy: candidate rectangles are quartered
/// recursively, random sub-rectangles are tested for feasibility and stamped,
/// and the accepted rooms are stitched left-to-right with corridors.
pub struct BspMapBuilder {
    map: Grid,
    history: Vec<Grid>,
    rooms: Vec<Rectangle>,
    rects: Vec<Rectangle>,
    rng: rand::rngs::StdRng,
}

impl BspMapBuilder {
    /// The builder's internal invariant: the live grid and every snapshot
    /// keep the fixed dimensions, and a `Room` tile never reverts along the
    /// timeline.
    pub closed spec fn state_ok(&self) -> bool {
        builder_grid_ok(self.map) && (forall|k: int|
            0 <= k < self.history@.len() ==> builder_grid_ok(#[trigger] self.history@[k]))
            && timeline_monotone(self.history@, self.map)
    }

    /// Every accepted room so far sits inside the grid with its clearances.
    pub closed spec fn rooms_ok(&self) -> bool {
        forall|k: int| 0 <= k < self.rooms@.len() ==> bsp_room_ok(#[trigger] self.rooms@[k])
    }

    /// The rooms accepted so far, in list order.
    pub closed spec fn rooms_of(&self) -> Seq<Rectangle> {
        self.rooms@
    }

    /// A fresh builder over an all-`Wall` grid, seeded from the thread-local
    /// generator.
    pub fn new() -> (b: BspMapBuilder)
        ensures
            b.inv(),
            b.history_of().len() == 0,
            builder_grid_ok(b.map_of()),
            b.rooms_ok(),
            b.rooms_of().len() == 0,
            forall|i: int|
                0 <= i < b.map_of().tiles@.len() ==> b.map_of().tiles@[i] == TileType::Wall,
    {
        BspMapBuilder {
            map: Grid::new(),
            history: Vec::new(),
            rooms: Vec::new(),
            rects: Vec::new(),
            rng: rng_from_seed(rand::random::<u64>()),
        }
    }

    /// A fresh builder whose random source is seeded deterministically, for
    /// reproducible runs.
    pub fn with_seed(seed: u64) -> (b: BspMapBuilder)
        ensures
            b.inv(),
            b.history_of().len() == 0,
            builder_grid_ok(b.map_of()),
            b.rooms_ok(),
            b.rooms_of().len() == 0,
            forall|i: int|
                0 <= i < b.map_of().tiles@.len() ==> b.map_of().tiles@[i] == TileType::Wall,
    {
        BspMapBuilder {
            map: Grid::new(),
            history: Vec::new(),
            rooms: Vec::new(),
            rects: Vec::new(),
            rng: rng_from_seed(seed),
        }
    }

    fn record_snapshot(&mut self)
        requires
            timeline_monotone(old(self).history@, old(self).map),
        ensures
            final(self).map == old(self).map,
            final(self).rooms == old(self).rooms,
            final(self).rects == old(self).rects,
            final(self).history@.len() == old(self).history@.len() + 1,
            forall|k: int|
                0 <= k < old(self).history@.len() ==> final(self).history@[k] == old(
                    self,
                ).history@[k],
            grid_eq(final(self).history@.last(), old(self).map),
            timeline_monotone(final(self).history@, final(self).map),
    {
        let snapshot = self.map.clone();
        self.history.push(snapshot);
        proof {
            assert forall|k: int| 0 <= k < self.history@.len() - 1 implies room_preserving(
                #[trigger] self.history@[k],
                self.history@[k + 1],
            ) by {
                if k == self.history@.len() - 2 {
                    assert(self.history@[k + 1].tiles@ == self.map.tiles@);
                }
            }
            assert(room_preserving(self.history@.last(), self.map));
        }
    }

    /// Quarters `rect` into four equal sub-rectangles (top-left, bottom-left,
    /// top-right, bottom-right, by integer halves with a floor of one tile)
    /// and appends all four to the candidate list.
    fn add_subrects(&mut self, rect: Rectangle)
        requires
            0 <= rect.lower.x <= rect.upper.x <= COORD_CEILING,
            0 <= rect.lower.y <= rect.upper.y <= COORD_CEILING,
        ensures
            final(self).rects@ == old(self).rects@ + quadrants_of(rect),
            final(self).rects@.len() == old(self).rects@.len() + 4,
            forall|k: int|
                0 <= k < old(self).rects@.len() ==> final(self).rects@[k] == old(self).rects@[k],
            forall|k: int|
                old(self).rects@.len() <= k < final(self).rects@.len() ==> quarter_ok(
                    rect,
                    #[trigger] final(self).rects@[k],
                ),
            final(self).map == old(self).map,
            final(self).history@ == old(self).history@,
            final(self).rooms@ == old(self).rooms@,
    {
        let ghost c0 = self.rects@;
        let width = rect.upper.x - rect.lower.x;
        let height = rect.upper.y - rect.lower.y;
        let half_width = if width / 2 > 1 {
            width / 2
        } else {
            1
        };
        let half_height = if height / 2 > 1 {
            height / 2
        } else {
            1
        };
        assert(half_width + half_width <= width + 2);
        assert(half_height + half_height <= height + 2);
        let root = rect.lower;
        self.rects.push(Rectangle::create(root.x, root.y, half_width, half_height));
        self.rects.push(Rectangle::create(root.x, root.y + half_height, half_width, half_height));
        self.rects.push(Rectangle::create(root.x + half_width, root.y, half_width, half_height));
        self.rects.push(
            Rectangle::create(root.x + half_width, root.y + half_height, half_width, half_height),
        );
        proof {
            assert(half_width == half_extent(rect.upper.x - rect.lower.x));
            assert(half_height == half_extent(rect.upper.y - rect.lower.y));
            assert(self.rects@[c0.len() as int] == quadrants_of(rect)[0]);
            assert(self.rects@[c0.len() as int + 1] == quadrants_of(rect)[1]);
            assert(self.rects@[c0.len() as int + 2] == quadrants_of(rect)[2]);
            assert(self.rects@[c0.len() as int + 3] == quadrants_of(rect)[3]);
            assert(self.rects@ =~= c0 + quadrants_of(rect));
        }
    }

    /// Picks a random candidate rectangle, skipping the root whenever more
    /// than one candidate exists.
    fn get_random_rect(&mut self) -> (r: Rectangle)
        requires
            old(self).rects@.len() >= 1,
        ensures
            exists|k: int| 0 <= k < old(self).rects@.len() && r == old(self).rects@[k],
            old(self).rects@.len() == 1 ==> r == old(self).rects@[0],
            old(self).rects@.len() > 1 ==> (exists|k: int|
                1 <= k < old(self).rects@.len() && r == old(self).rects@[k]),
            final(self).map == old(self).map,
            final(self).history@ == old(self).history@,
            final(self).rooms@ == old(self).rooms@,
            final(self).rects@ == old(self).rects@,
    {
        if self.rects.len() == 1 {
            return self.rects[0];
        }
        let idx = gen_range_usize(&mut self.rng, 1, self.rects.len());
        self.rects[idx]
    }

    /// Derives a random sub-rectangle of `rect`: four to ten tiles on each
    /// axis, its corner jittered by up to five tiles.
    fn get_random_sub_rect(rect: Rectangle, rng: &mut rand::rngs::StdRng) -> (result: Rectangle)
        requires
            0 <= rect.lower.x < rect.upper.x <= COORD_CEILING,
            0 <= rect.lower.y < rect.upper.y <= COORD_CEILING,
        ensures
            rect.lower.x <= result.lower.x <= rect.lower.x + 5,
            rect.lower.y <= result.lower.y <= rect.lower.y + 5,
            result.lower.x + 4 <= result.upper.x <= result.lower.x + 10,
            result.lower.y + 4 <= result.upper.y <= result.lower.y + 10,
    {
        let mut result = rect;
        let rect_width = rect.width();
        let rect_height = rect.height();
        let wcap = if rect_width < 10 {
            rect_width
        } else {
            10
        };
        let hcap = if rect_height < 10 {
            rect_height
        } else {
            10
        };
        let wr = gen_range_i32(rng, 1, wcap + 1);
        let hr = gen_range_i32(rng, 1, hcap + 1);
        let w = (if 3 > wr - 1 {
            3
        } else {
            wr - 1
        }) + 1;
        let h = (if 3 > hr - 1 {
            3
        } else {
            hr - 1
        }) + 1;
        result.lower.x = result.lower.x + (gen_range_i32(rng, 1, 7) - 1);
        result.lower.y = result.lower.y + (gen_range_i32(rng, 1, 7) - 1);
        result.upper.x = result.lower.x + w;
        result.upper.y = result.lower.y + h;
        result
    }

    /// Tests whether `rect`, shrunk by the fixed margin, covers only in-bound
    /// `Wall` tiles, so a room can be stamped there.
    #[verifier::loop_isolation(false)]
    fn is_possible(&self, rect: Rectangle) -> (r: bool)
        requires
            self.state_ok(),
            -COORD_CEILING <= rect.lower.x <= rect.upper.x <= COORD_CEILING,
            -COORD_CEILING <= rect.lower.y <= rect.upper.y <= COORD_CEILING,
        ensures
            r == bsp_candidate_fits(self.map, rect),
    {
        let e_lx = rect.lower.x - 2;
        let e_ux = rect.upper.x - 2;
        let e_ly = rect.lower.y + 2;
        let e_uy = rect.upper.y + 2;
        let mut can_build = true;
        let mut y: i32 = e_ly;
        while y <= e_uy
            invariant
                self.state_ok(),
                e_lx == rect.lower.x - 2,
                e_ux == rect.upper.x - 2,
                e_ly == rect.lower.y + 2,
                e_uy == rect.upper.y + 2,
                e_ly <= y <= e_uy + 1 || y == e_ly,
                can_build == fits_scanned_to(self.map, rect, y as int, e_lx as int),
            decreases e_uy - y + 1,
        {
            let mut x: i32 = e_lx;
            while x <= e_ux
                invariant
                    self.state_ok(),
                    e_lx == rect.lower.x - 2,
                    e_ux == rect.upper.x - 2,
                    e_ly == rect.lower.y + 2,
                    e_uy == rect.upper.y + 2,
                    e_ly <= y <= e_uy,
                    e_lx <= x <= e_ux + 1 || x == e_lx,
                    can_build == fits_scanned_to(self.map, rect, y as int, x as int),
                decreases e_ux - x + 1,
            {
                if x > (self.map.width as i32) - 2 {
                    can_build = false;
                }
                if y > (self.map.height as i32) - 2 {
                    can_build = false;
                }
                if x < 1 {
                    can_build = false;
                }
                if y < 1 {
                    can_build = false;
                }
                if can_build {
                    let idx = self.map.xy_idx(x, y);
                    if self.map.tiles[idx] != TileType::Wall {
                        can_build = false;
                    }
                }
                proof {
                    let g = self.map;
                    let yi = y as int;
                    let xi = x as int;
                    assert(fits_scanned_to(g, rect, yi, xi + 1) == (fits_scanned_to(g, rect, yi, xi)
                        && cell_ok(g, xi, yi))) by {
                        if fits_scanned_to(g, rect, yi, xi + 1) {
                            assert(cell_ok(g, xi, yi));
                        }
                        if fits_scanned_to(g, rect, yi, xi) && cell_ok(g, xi, yi) {
                            assert forall|xx: int|
                                rect.lower.x - 2 <= xx < xi + 1 implies #[trigger] cell_ok(
                                g,
                                xx,
                                yi,
                            ) by {
                                if xx != xi {
                                    assert(cell_ok(g, xx, yi));
                                }
                            }
                        }
                    };
                }
                x = x + 1;
            }
            proof {
                let g = self.map;
                let yi = y as int;
                if fits_scanned_to(g, rect, yi, e_ux as int + 1) {
                    assert forall|xx: int, yy: int|
                        rect.lower.x - 2 <= xx <= rect.upper.x - 2 && rect.lower.y + 2 <= yy
                            <= rect.upper.y + 2 && yy < yi + 1 implies #[trigger] cell_ok(
                        g,
                        xx,
                        yy,
                    ) by {
                        if yy == yi {
                            assert(cell_ok(g, xx, yi));
                        }
                    }
                    assert(fits_scanned_to(g, rect, yi + 1, e_lx as int));
                }
                if fits_scanned_to(g, rect, yi + 1, e_lx as int) {
                    assert forall|xx: int|
                        rect.lower.x - 2 <= xx < e_ux as int + 1 implies #[trigger] cell_ok(
                        g,
                        xx,
                        yi,
                    ) by {
                        assert(rect.lower.y + 2 <= yi <= rect.upper.y + 2 && yi < yi + 1);
                    }
                    assert(fits_scanned_to(g, rect, yi, e_ux as int + 1));
                }
            }
            y = y + 1;
        }
        proof {
            let g = self.map;
            let yi = y as int;
            if fits_scanned_to(g, rect, yi, e_lx as int) {
                assert forall|xx: int, yy: int|
                    rect.lower.x - 2 <= xx <= rect.upper.x - 2 && rect.lower.y + 2 <= yy
                        <= rect.upper.y + 2 implies #[trigger] cell_ok(g, xx, yy) by {
                    assert(yy < yi);
                }
                assert(bsp_candidate_fits(g, rect));
            }
            if bsp_candidate_fits(g, rect) {
                assert(fits_scanned_to(g, rect, yi, e_lx as int));
            }
        }
        can_build
    }

    /// Walks from `start` to `finish` one tile at a time, first along the
    /// start's row, then along the finish column, carving each visited tile
    /// to `Tunnel`; a `Room` tile is never downgraded.
    #[verifier::loop_isolation(false)]
    pub fn draw_corridor(&mut self, start: Point, finish: Point)
        requires
            old(self).inv(),
            0 <= start.x,
            (start.x as int) < (MAP_WIDTH as int),
            0 <= start.y,
            (start.y as int) < (MAP_HEIGHT as int),
            0 <= finish.x,
            (finish.x as int) < (MAP_WIDTH as int),
            0 <= finish.y,
            (finish.y as int) < (MAP_HEIGHT as int),
        ensures
            final(self).inv(),
            final(self).map_of().width == old(self).map_of().width,
            final(self).map_of().height == old(self).map_of().height,
            final(self).map_of().tiles@.len() == old(self).map_of().tiles@.len(),
            forall|i: int|
                0 <= i < old(self).map_of().tiles@.len() ==> final(self).map_of().tiles@[i] == (if
                    corridor_covers(old(self).map_of().width as int, start, finish, i) && old(
                    self,
                ).map_of().tiles@[i] != TileType::Room {
                    TileType::Tunnel
                } else {
                    old(self).map_of().tiles@[i]
                }),
            forall|i: int|
                0 <= i < old(self).map_of().tiles@.len() && old(self).map_of().tiles@[i]
                    == TileType::Room ==> final(self).map_of().tiles@[i] == TileType::Room,
            final(self).history_of() == old(self).history_of(),
            final(self).rooms_of() == old(self).rooms_of(),
    {
        let ghost m0 = self.map;
        let ghost h0 = self.history@;
        let ghost r0 = self.rooms@;
        let ghost c0 = self.rects@;
        let ghost w = self.map.width as int;
        let mut x = start.x;
        let mut y = start.y;
        while x != finish.x || y != finish.y
            invariant
                self.state_ok(),
                self.map.width == m0.width,
                self.map.height == m0.height,
                self.map.tiles@.len() == m0.tiles@.len(),
                self.history@ == h0,
                self.rooms@ == r0,
                self.rects@ == c0,
                between_incl(start.x as int, finish.x as int, x as int),
                between_incl(start.y as int, finish.y as int, y as int),
                x != finish.x ==> y == start.y,
                forall|i: int|
                    0 <= i < m0.tiles@.len() ==> self.map.tiles@[i] == (if corridor_covered_to(
                        w,
                        start,
                        finish,
                        x as int,
                        y as int,
                        i,
                    ) && m0.tiles@[i] != TileType::Room {
                        TileType::Tunnel
                    } else {
                        m0.tiles@[i]
                    }),
            decreases (if finish.x >= x {
                finish.x - x
            } else {
                x - finish.x
            }) + (if finish.y >= y {
                finish.y - y
            } else {
                y - finish.y
            }),
        {
            let ghost x_old = x as int;
            let ghost y_old = y as int;
            if x < finish.x {
                x = x + 1;
            } else if x > finish.x {
                x = x - 1;
            } else if y < finish.y {
                y = y + 1;
            } else if y > finish.y {
                y = y - 1;
            }
            let idx = self.map.xy_idx(x, y);
            if self.map.tiles[idx] != TileType::Room {
                self.map.tiles.set(idx, TileType::Tunnel);
            }
            proof {
                if x_old != finish.x {
                    assert(y as int == start.y as int);
                    assert(idx == row_base(start.y as int, w) + x);
                } else {
                    assert(x as int == finish.x as int);
                    lemma_corridor_y_extend(
                        w,
                        start.y as int,
                        finish.y as int,
                        finish.x as int,
                        y_old,
                        y as int,
                        0,
                    );
                    assert forall|i: int| #![trigger m0.tiles@[i]] 0 <= i < m0.tiles@.len() implies (exists|yy: int|
                        between_excl(start.y as int, y as int, yy) && i == (#[trigger] row_base(
                        yy,
                        w,
                    )) + finish.x) == ((exists|yy: int|
                        between_excl(start.y as int, y_old, yy) && i == (#[trigger] row_base(
                        yy,
                        w,
                    )) + finish.x) || i == row_base(y as int, w) + finish.x) by {
                        lemma_corridor_y_extend(
                            w,
                            start.y as int,
                            finish.y as int,
                            finish.x as int,
                            y_old,
                            y as int,
                            i,
                        );
                    }
                }
            }
        }
    }

    /// Sorts the accepted rooms by their lower-x coordinate and carves an
    /// L-shaped corridor between each adjacent pair, snapshotting once per
    /// connection. With zero or one room there is no pair, and the grid and
    /// history are left untouched.
    pub fn connect_rooms(&mut self)
        requires
            old(self).inv(),
            old(self).rooms_ok(),
            old(self).history_of().len() >= 1,
            grid_eq(old(self).history_of().last(), old(self).map_of()),
            forall|k: int|
                0 <= k < old(self).rooms_of().len() ==> room_fully_stamped(
                    old(self).map_of(),
                    #[trigger] old(self).rooms_of()[k],
                ),
        ensures
            final(self).inv(),
            final(self).rooms_ok(),
            sorted_by_lower_x(final(self).rooms_of()),
            final(self).rooms_of().to_multiset() == old(self).rooms_of().to_multiset(),
            final(self).rooms_of().len() == old(self).rooms_of().len(),
            forall|k: int|
                0 <= k < final(self).rooms_of().len() ==> room_fully_stamped(
                    final(self).map_of(),
                    #[trigger] final(self).rooms_of()[k],
                ),
            final(self).history_of().len() == old(self).history_of().len() + (if old(
                self,
            ).rooms_of().len() <= 1 {
                0int
            } else {
                old(self).rooms_of().len() - 1
            }),
            forall|k: int|
                0 <= k < old(self).history_of().len() ==> final(self).history_of()[k] == old(
                    self,
                ).history_of()[k],
            grid_eq(final(self).history_of().last(), final(self).map_of()),
            forall|k: int|
                old(self).history_of().len() - 1 <= k < final(self).history_of().len() - 1
                    ==> carved_step(
                    #[trigger] final(self).history_of()[k],
                    final(self).history_of()[k + 1],
                ),
            old(self).rooms_of().len() <= 1 ==> final(self).map_of() == old(self).map_of()
                && final(self).history_of() == old(self).history_of(),
    {
        let ghost r_in = self.rooms@;
        let ghost m_in = self.map;
        sort_rooms_by_lower_x(&mut self.rooms);
        proof {
            broadcast use vstd::seq_lib::group_to_multiset_ensures;
            assert forall|k: int| 0 <= k < self.rooms@.len() implies room_fully_stamped(
                self.map,
                #[trigger] self.rooms@[k],
            ) by {
                assert(self.rooms@.contains(self.rooms@[k]));
                assert(self.rooms@.to_multiset().count(self.rooms@[k]) > 0);
                assert(r_in.to_multiset().count(self.rooms@[k]) > 0);
                assert(r_in.contains(self.rooms@[k]));
                let j = choose|j: int| 0 <= j < r_in.len() && r_in[j] == self.rooms@[k];
                assert(r_in == old(self).rooms_of());
                assert(self.map == old(self).map_of());
                assert(room_fully_stamped(old(self).map_of(), old(self).rooms_of()[j]));
                assert(room_fully_stamped(self.map, r_in[j]));
            }
        }
        let ghost h1 = self.history@;
        let ghost rs = self.rooms@;
        if self.rooms.len() >= 2 {
            let n_rooms = self.rooms.len();
            let mut i: usize = 0;
            while i < n_rooms - 1
                invariant
                    self.state_ok(),
                    self.rooms_ok(),
                    self.rooms@ == rs,
                    n_rooms == self.rooms@.len(),
                    n_rooms >= 2,
                    0 <= i <= n_rooms - 1,
                    self.history@.len() == h1.len() + i,
                    h1.len() >= 1,
                    forall|k: int| 0 <= k < h1.len() ==> self.history@[k] == h1[k],
                    grid_eq(self.history@.last(), self.map),
                    forall|k: int|
                        0 <= k < self.rooms@.len() ==> room_fully_stamped(
                            self.map,
                            #[trigger] self.rooms@[k],
                        ),
                    forall|k: int|
                        h1.len() - 1 <= k < self.history@.len() - 1 ==> carved_step(
                            #[trigger] self.history@[k],
                            self.history@[k + 1],
                        ),
                decreases n_rooms - 1 - i,
            {
                let ghost m_it = self.map;
                let room = self.rooms[i];
                let next_room = self.rooms[i + 1];
                let start_x = room.lower.x + gen_range_i32(&mut self.rng, 0, room.width());
                let start_y = room.lower.y + gen_range_i32(&mut self.rng, 0, room.height());
                let end_x = next_room.lower.x + gen_range_i32(
                    &mut self.rng,
                    0,
                    next_room.width(),
                );
                let end_y = next_room.lower.y + gen_range_i32(
                    &mut self.rng,
                    0,
                    next_room.height(),
                );
                if gen_coin_flip(&mut self.rng) {
                    apply_horizontal_tunnel(&mut self.map, start_x, end_x, start_y);
                    apply_vertical_tunnel(&mut self.map, start_y, end_y, end_x);
                } else {
                    apply_vertical_tunnel(&mut self.map, start_y, end_y, start_x);
                    apply_horizontal_tunnel(&mut self.map, start_x, end_x, end_y);
                }
                proof {
                    assert(room_preserving(m_it, self.map));
                    assert(carved_step(m_it, self.map));
                    assert(carved_step(self.history@.last(), self.map));
                    assert forall|k: int| 0 <= k < self.rooms@.len() implies room_fully_stamped(
                        self.map,
                        #[trigger] self.rooms@[k],
                    ) by {
                        lemma_stamped_preserved(m_it, self.map, self.rooms@[k]);
                    }
                }
                self.record_snapshot();
                proof {
                    assert forall|k: int|
                        h1.len() - 1 <= k < self.history@.len() - 1 implies carved_step(
                        #[trigger] self.history@[k],
                        self.history@[k + 1],
                    ) by {
                        if k == self.history@.len() - 2 {
                            assert(self.history@[k + 1].tiles@ == self.map.tiles@);
                        }
                    }
                }
                i = i + 1;
            }
        }
    }
}

impl MapBuilder for BspMapBuilder {
    closed spec fn inv(&self) -> bool {
        self.state_ok()
    }

    closed spec fn map_of(&self) -> Grid {
        self.map
    }

    closed spec fn history_of(&self) -> Seq<Grid> {
        self.history@
    }

    open spec fn label_of(&self) -> Seq<char> {
        "Binary Space Partition"@
    }

    fn name(&self) -> (r: &str) {
        "Binary Space Partition"
    }

    fn build(&mut self)
        ensures
            sorted_by_lower_x(final(self).rooms_of()),
            forall|k: int|
                0 <= k < final(self).rooms_of().len() ==> room_fully_stamped(
                    final(self).map_of(),
                    #[trigger] final(self).rooms_of()[k],
                ),
            final(self).history_of().len() == old(self).history_of().len() + 1 + final(self).rooms_of().len() + (if final(self).rooms_of().len() <= 1 {
                0int
            } else {
                final(self).rooms_of().len() - 1
            }),
    {
        let ghost m0 = self.map;
        let ghost h0 = self.history@;
        self.record_snapshot();
        self.rooms.clear();
        self.rects.clear();
        let first_room = Rectangle::create(
            2,
            2,
            (self.map.width - 5) as i32,
            (self.map.height - 5) as i32,
        );
        self.rects.push(first_room);
        self.add_subrects(first_room);
        let mut n_try: i32 = 0;
        while n_try < MAX_ATTEMPTS
            invariant
                self.state_ok(),
                self.rooms_ok(),
                0 <= n_try <= MAX_ATTEMPTS,
                self.rects@.len() >= 1,
                forall|k: int|
                    0 <= k < self.rects@.len() ==> rect_bounded(
                        #[trigger] self.rects@[k],
                        80 + 2 * n_try,
                        50 + 2 * n_try,
                    ),
                self.history@.len() == h0.len() + 1 + self.rooms@.len(),
                forall|k: int| 0 <= k < h0.len() ==> self.history@[k] == h0[k],
                grid_eq(self.history@[h0.len() as int], m0),
                grid_eq(self.history@.last(), self.map),
                forall|k: int|
                    0 <= k < self.rooms@.len() ==> room_fully_stamped(
                        self.map,
                        #[trigger] self.rooms@[k],
                    ),
            decreases MAX_ATTEMPTS - n_try,
        {
            let ghost m_head = self.map;
            let rect = self.get_random_rect();
            let candidate = Self::get_random_sub_rect(rect, &mut self.rng);
            if self.is_possible(candidate) {
                proof {
                    assert(cell_ok(self.map, candidate.lower.x - 2 as int, candidate.lower.y + 2));
                    assert(cell_ok(self.map, candidate.upper.x - 2 as int, candidate.upper.y + 2));
                    assert(bsp_room_ok(candidate));
                    assert forall|xx: int, yy: int|
                        candidate.lower.x < xx <= candidate.upper.x && candidate.lower.y < yy
                            <= candidate.upper.y implies 0 <= #[trigger] flat_idx(
                        self.map.width as int,
                        xx,
                        yy,
                    ) < self.map.tiles@.len() by {}
                }
                self.rooms.push(candidate);
                self.add_subrects(rect);
                apply_room_to_map(&mut self.map, &candidate);
                proof {
                    assert(room_preserving(m_head, self.map));
                    assert(room_fully_stamped(self.map, candidate));
                    assert forall|k: int|
                        0 <= k < self.rooms@.len() implies room_fully_stamped(
                        self.map,
                        #[trigger] self.rooms@[k],
                    ) by {
                        if k < self.rooms@.len() - 1 {
                            lemma_stamped_preserved(m_head, self.map, self.rooms@[k]);
                        }
                    }
                }
                self.record_snapshot();
            }
            n_try = n_try + 1;
        }
        self.connect_rooms();
    }

    fn get_map(&mut self) -> (g: Grid)
        ensures
            final(self).rooms_of() == old(self).rooms_of(),
    {
        self.map.clone()
    }

    fn get_snapshot_history(&self) -> (h: Vec<Grid>) {
        self.history.clone()
    }

    fn take_snapshot(&mut self)
        ensures
            final(self).rooms_of() == old(self).rooms_of(),
    {
        self.record_snapshot();
    }
}

} // verus!
