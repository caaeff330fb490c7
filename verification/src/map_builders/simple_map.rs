use vstd::prelude::*;
use crate::grid::{Grid, TileType, grid_eq, lemma_idx_in_range, MAP_WIDTH, MAP_HEIGHT};
use crate::rect::{Rectangle, lemma_intersect_symmetric};
use crate::map_builders::{MapBuilder, builder_grid_ok, room_preserving, timeline_monotone};
use crate::map_builders::common::{
    apply_room_to_map,
    apply_horizontal_tunnel,
    apply_vertical_tunnel,
    flat_idx,
    lemma_stamped_preserved,
    room_fully_stamped,
    room_interior_covers,
};
use crate::map_builders::rng_source::{rng_from_seed, gen_range_i32, gen_coin_flip};

verus! {

/// Number of placement attempts one build makes.
pub const MAX_ROOMS: i32 = 30;
/// Smallest room extent sampled.
pub const MIN_SIZE: i32 = 6;
/// Largest room extent sampled.
pub const MAX_SIZE: i32 = 10;

/// An accepted room sits strictly inside the fixed grid.
pub open spec fn placed_room_ok(r: Rectangle) -> bool {
    0 <= r.lower.x && (r.upper.x as int) < (MAP_WIDTH as int) && 0 <= r.lower.y && (
    r.upper.y as int) < (MAP_HEIGHT as int) && r.lower.x < r.upper.x && r.lower.y < r.upper.y
}

/// The accepted rooms of one run: each strictly inside the grid, pairwise
/// non-intersecting under the chained comparison, and each with its whole
/// interior carved to `Room` in `g`.
pub open spec fn accepted_rooms_ok(g: Grid, rs: Seq<Rectangle>) -> bool {
    (forall|k: int| 0 <= k < rs.len() ==> placed_room_ok(#[trigger] rs[k])) && (forall|
        p: int,
        q: int,
    |
        0 <= p < rs.len() && 0 <= q < rs.len() && p != q ==> !(#[trigger] rs[p].spec_intersect(
            rs[q],
        ))) && (forall|k: int| 0 <= k < rs.len() ==> room_fully_stamped(g, #[trigger] rs[k]))
}

/// The random-room strategy: up to a fixed number of times, sample a random
/// rectangle, reject it if it touches an accepted room, otherwise stamp it
/// and tie it to the previous room with an L-shaped corridor.
pub struct SimpleMapBuilder {
    map: Grid,
    history: Vec<Grid>,
    rng: rand::rngs::StdRng,
}

impl SimpleMapBuilder {
    /// The builder's internal invariant: the live grid and every snapshot
    /// keep the fixed dimensions, and a `Room` tile never reverts along the
    /// timeline.
    pub closed spec fn state_ok(&self) -> bool {
        builder_grid_ok(self.map) && (forall|k: int|
            0 <= k < self.history@.len() ==> builder_grid_ok(#[trigger] self.history@[k]))
            && timeline_monotone(self.history@, self.map)
    }

    /// A fresh builder over an all-`Wall` grid, seeded from the thread-local
    /// generator.
    pub fn new() -> (b: SimpleMapBuilder)
        ensures
            b.inv(),
            b.history_of().len() == 0,
            builder_grid_ok(b.map_of()),
            forall|i: int|
                0 <= i < b.map_of().tiles@.len() ==> b.map_of().tiles@[i] == TileType::Wall,
    {
        SimpleMapBuilder {
            map: Grid::new(),
            history: Vec::new(),
            rng: rng_from_seed(rand::random::<u64>()),
        }
    }

    /// A fresh builder whose random source is seeded deterministically, for
    /// reproducible runs.
    pub fn with_seed(seed: u64) -> (b: SimpleMapBuilder)
        ensures
            b.inv(),
            b.history_of().len() == 0,
            builder_grid_ok(b.map_of()),
            forall|i: int|
                0 <= i < b.map_of().tiles@.len() ==> b.map_of().tiles@[i] == TileType::Wall,
    {
        SimpleMapBuilder { map: Grid::new(), history: Vec::new(), rng: rng_from_seed(seed) }
    }

    fn record_snapshot(&mut self)
        requires
            timeline_monotone(old(self).history@, old(self).map),
        ensures
            final(self).map == old(self).map,
            final(self).history@.len() == old(self).history@.len() + 1,
            forall|k: int|
                0 <= k < old(self).history@.len() ==> final(self).history@[k] == old(
                    self,
                ).history@[k],
            grid_eq(final(self).history@.last(), old(self).map),
            timeline_monotone(final(self).history@, final(self).map),
    {
        let snapshot = self.map.clone();
        self.history.push(snapshot);
        proof {
            assert forall|k: int| 0 <= k < self.history@.len() - 1 implies room_preserving(
                #[trigger] self.history@[k],
                self.history@[k + 1],
            ) by {
                if k == self.history@.len() - 2 {
                    assert(self.history@[k + 1].tiles@ == self.map.tiles@);
                }
            }
            assert(room_preserving(self.history@.last(), self.map));
        }
    }

    fn rooms_and_corridors(&mut self)
        requires
            old(self).state_ok(),
        ensures
            final(self).state_ok(),
            final(self).history@.len() > old(self).history@.len(),
            final(self).history@.len() >= old(self).history@.len() + 3,
            final(self).history@.len() <= old(self).history@.len() + 61,
            (final(self).history@.len() - old(self).history@.len()) % 2 == 1,
            forall|k: int|
                0 <= k < old(self).history@.len() ==> final(self).history@[k] == old(
                    self,
                ).history@[k],
            grid_eq(final(self).history@[old(self).history@.len() as int], old(self).map),
            grid_eq(final(self).history@.last(), final(self).map),
            exists|rs: Seq<Rectangle>| rs.len() >= 1 && accepted_rooms_ok(final(self).map, rs),
    {
        let ghost m0 = self.map;
        let ghost h0 = self.history@;
        self.record_snapshot();
        let mut rooms: Vec<Rectangle> = Vec::new();
        let mut attempt: i32 = 0;
        while attempt < MAX_ROOMS
            invariant
                self.state_ok(),
                self.history@.len() >= h0.len() + 1,
                forall|k: int| 0 <= k < h0.len() ==> self.history@[k] == h0[k],
                grid_eq(self.history@[h0.len() as int], m0),
                grid_eq(self.history@.last(), self.map),
                forall|q: int| 0 <= q < rooms@.len() ==> placed_room_ok(#[trigger] rooms@[q]),
                forall|p: int, q: int|
                    0 <= p < rooms@.len() && 0 <= q < rooms@.len() && p != q ==> !(
                    #[trigger] rooms@[p].spec_intersect(rooms@[q])),
                forall|k: int|
                    0 <= k < rooms@.len() ==> room_fully_stamped(self.map, #[trigger] rooms@[k]),
                0 <= attempt <= MAX_ROOMS,
                attempt == 0 ==> rooms@.len() == 0,
                attempt >= 1 ==> rooms@.len() >= 1,
                attempt >= 1 ==> self.history@.len() >= h0.len() + 3,
                self.history@.len() <= h0.len() + 1 + 2 * attempt,
                (self.history@.len() - h0.len()) % 2 == 1,
            decreases MAX_ROOMS - attempt,
        {
            let ghost m_head = self.map;
            let w = gen_range_i32(&mut self.rng, MIN_SIZE, MAX_SIZE + 1);
            let h = gen_range_i32(&mut self.rng, MIN_SIZE, MAX_SIZE + 1);
            let x = gen_range_i32(&mut self.rng, 1, (self.map.width as i32) - w - 1) - 1;
            let y = gen_range_i32(&mut self.rng, 1, (self.map.height as i32) - h - 1) - 1;
            let new_room = Rectangle::create(x, y, w, h);
            let mut ok = true;
            let mut j: usize = 0;
            while j < rooms.len()
                invariant
                    j <= rooms@.len(),
                    ok == (forall|q: int|
                        0 <= q < j ==> !(#[trigger] rooms@[q]).spec_intersect(new_room)),
                decreases rooms@.len() - j,
            {
                if rooms[j].intersect(&new_room) {
                    ok = false;
                }
                j = j + 1;
            }
            if ok {
                proof {
                    assert forall|xx: int, yy: int|
                        new_room.lower.x < xx <= new_room.upper.x && new_room.lower.y < yy
                            <= new_room.upper.y implies 0 <= #[trigger] flat_idx(
                        self.map.width as int,
                        xx,
                        yy,
                    ) < self.map.tiles@.len() by {
                        lemma_idx_in_range(self.map.width as int, self.map.height as int, xx, yy);
                    }
                }
                apply_room_to_map(&mut self.map, &new_room);
                let ghost g_stamped = self.map;
                proof {
                    assert(room_preserving(m_head, self.map));
                    assert(room_preserving(self.history@.last(), self.map));
                }
                self.record_snapshot();
                if rooms.len() != 0 {
                    let new_c = new_room.center();
                    let prev_c = rooms[rooms.len() - 1].center();
                    if gen_coin_flip(&mut self.rng) {
                        apply_horizontal_tunnel(&mut self.map, prev_c.x, new_c.x, prev_c.y);
                        apply_vertical_tunnel(&mut self.map, prev_c.y, new_c.y, new_c.x);
                    } else {
                        apply_vertical_tunnel(&mut self.map, prev_c.y, new_c.y, prev_c.x);
                        apply_horizontal_tunnel(&mut self.map, prev_c.x, new_c.x, new_c.y);
                    }
                }
                proof {
                    assert(room_preserving(m_head, g_stamped));
                    assert(room_preserving(g_stamped, self.map));
                    assert(room_preserving(self.history@.last(), self.map));
                    assert(room_fully_stamped(g_stamped, new_room)) by {
                        assert forall|i: int|
                            0 <= i < g_stamped.tiles@.len() && #[trigger] room_interior_covers(
                                g_stamped.width as int,
                                new_room,
                                i,
                            ) implies g_stamped.tiles@[i] == TileType::Room by {}
                    };
                    lemma_stamped_preserved(g_stamped, self.map, new_room);
                    assert forall|k: int|
                        0 <= k < rooms@.len() implies room_fully_stamped(
                        self.map,
                        #[trigger] rooms@[k],
                    ) by {
                        lemma_stamped_preserved(m_head, g_stamped, rooms@[k]);
                        lemma_stamped_preserved(g_stamped, self.map, rooms@[k]);
                    }
                }
                rooms.push(new_room);
                proof {
                    assert forall|p: int, q: int|
                        0 <= p < rooms@.len() && 0 <= q < rooms@.len() && p != q implies !(
                    #[trigger] rooms@[p].spec_intersect(rooms@[q])) by {
                        if p == rooms@.len() - 1 {
                            lemma_intersect_symmetric(rooms@[q], rooms@[p]);
                        }
                    }
                }
                self.record_snapshot();
            }
            attempt = attempt + 1;
        }
        proof {
            assert(rooms@.len() >= 1 && accepted_rooms_ok(self.map, rooms@));
        }
    }
}

impl MapBuilder for SimpleMapBuilder {
    closed spec fn inv(&self) -> bool {
        self.state_ok()
    }

    closed spec fn map_of(&self) -> Grid {
        self.map
    }

    closed spec fn history_of(&self) -> Seq<Grid> {
        self.history@
    }

    open spec fn label_of(&self) -> Seq<char> {
        "Simple"@
    }

    fn name(&self) -> (r: &str) {
        "Simple"
    }

    fn build(&mut self)
        ensures
            final(self).history_of().len() >= old(self).history_of().len() + 3,
            final(self).history_of().len() <= old(self).history_of().len() + 61,
            (final(self).history_of().len() - old(self).history_of().len()) % 2 == 1,
            exists|rs: Seq<Rectangle>|
                rs.len() >= 1 && accepted_rooms_ok(final(self).map_of(), rs),
    {
        SimpleMapBuilder::rooms_and_corridors(self);
        proof {
            let rs = choose|rs: Seq<Rectangle>| rs.len() >= 1 && accepted_rooms_ok(self.map, rs);
            assert(rs.len() >= 1 && accepted_rooms_ok(self.map_of(), rs));
        }
    }

    fn get_map(&mut self) -> (g: Grid) {
        self.map.clone()
    }

    fn get_snapshot_history(&self) -> (h: Vec<Grid>) {
        self.history.clone()
    }

    fn take_snapshot(&mut self) {
        self.record_snapshot();
    }
}

} // verus!
