use vstd::prelude::*;
use crate::grid::{Grid, TileType, lemma_row_product_bound};
use crate::map_builders::room_preserving;
use crate::rect::Rectangle;

verus! {

/// Start of row `y` in a flat row-major grid of width `w`.
pub open spec fn row_base(y: int, w: int) -> int {
    y * w
}

/// Flat row-major index of coordinate `(x, y)` in a grid of width `w`.
pub open spec fn flat_idx(w: int, x: int, y: int) -> int {
    y * w + x
}

/// Flat index `i` lies in the interior of `room` in some row strictly below
/// cutoff `yc` (rows run from `lower.y + 1` up to `upper.y`, columns from
/// `lower.x + 1` up to `upper.x`).
pub open spec fn rows_covered_to(w: int, room: Rectangle, yc: int, i: int) -> bool {
    exists|y: int|
        room.lower.y < y < yc && y <= room.upper.y
            && (#[trigger] row_base(y, w)) + room.lower.x < i
            && i <= row_base(y, w) + room.upper.x
}

/// Flat index `i` lies in the interior of `room`.
pub open spec fn room_interior_covers(w: int, room: Rectangle, i: int) -> bool {
    rows_covered_to(w, room, room.upper.y + 1, i)
}

/// The tile vector `cur` agrees with `base` everywhere except the stamped
/// part of `room`: full interior rows strictly below `yc`, plus the interior
/// columns strictly below `xc` of row `yc` itself.
pub open spec fn stamped_to(
    base: Seq<TileType>,
    cur: Seq<TileType>,
    w: int,
    room: Rectangle,
    yc: int,
    xc: int,
) -> bool {
    forall|i: int|
        0 <= i < base.len() ==> cur[i] == (if rows_covered_to(w, room, yc, i) || (row_base(yc, w)
            + room.lower.x < i && i < row_base(yc, w) + xc) {
            TileType::Room
        } else {
            base[i]
        })
}

/// Every tile of `r`'s interior is carved to `Room` in `g`.
pub open spec fn room_fully_stamped(g: Grid, r: Rectangle) -> bool {
    forall|i: int|
        0 <= i < g.tiles@.len() && #[trigger] room_interior_covers(g.width as int, r, i)
            ==> g.tiles@[i] == TileType::Room
}

/// A room whose interior is fully carved stays fully carved across any
/// Room-preserving step on a grid of the same width.
pub proof fn lemma_stamped_preserved(a: Grid, b: Grid, r: Rectangle)
    requires
        room_preserving(a, b),
        room_fully_stamped(a, r),
        a.width == b.width,
    ensures
        room_fully_stamped(b, r),
{
    assert forall|i: int|
        0 <= i < b.tiles@.len() && #[trigger] room_interior_covers(b.width as int, r, i) implies b.tiles@[i]
        == TileType::Room by {
        assert(room_interior_covers(a.width as int, r, i));
        assert(a.tiles@[i] == TileType::Room);
    }
}

/// Extending the row cutoff by one adds exactly the interior of row `yc`.
proof fn lemma_rows_covered_extend(w: int, room: Rectangle, yc: int, i: int)
    requires
        room.lower.y < yc <= room.upper.y,
    ensures
        rows_covered_to(w, room, yc + 1, i) == (rows_covered_to(w, room, yc, i) || (row_base(yc, w)
            + room.lower.x < i <= row_base(yc, w) + room.upper.x)),
{
    if rows_covered_to(w, room, yc + 1, i) {
        let y = choose|y: int|
            room.lower.y < y < yc + 1 && y <= room.upper.y && (#[trigger] row_base(y, w))
                + room.lower.x < i && i <= row_base(y, w) + room.upper.x;
        if y < yc {
            assert(rows_covered_to(w, room, yc, i));
        } else {
            assert(y == yc);
        }
    }
    if rows_covered_to(w, room, yc, i) {
        let y = choose|y: int|
            room.lower.y < y < yc && y <= room.upper.y && (#[trigger] row_base(y, w)) + room.lower.x
                < i && i <= row_base(y, w) + room.upper.x;
        assert(room.lower.y < y < yc + 1 && y <= room.upper.y && row_base(y, w) + room.lower.x < i
            && i <= row_base(y, w) + room.upper.x);
        assert(rows_covered_to(w, room, yc + 1, i));
    }
    if row_base(yc, w) + room.lower.x < i <= row_base(yc, w) + room.upper.x {
        assert(room.lower.y < yc < yc + 1 && yc <= room.upper.y && row_base(yc, w) + room.lower.x
            < i && i <= row_base(yc, w) + room.upper.x);
        assert(rows_covered_to(w, room, yc + 1, i));
    }
}

/// Once the cutoff passes the last interior row, the covered set is the whole
/// interior.
proof fn lemma_rows_covered_saturate(w: int, room: Rectangle, yc: int, i: int)
    requires
        yc >= room.upper.y + 1,
    ensures
        rows_covered_to(w, room, yc, i) == room_interior_covers(w, room, i),
{
    if rows_covered_to(w, room, yc, i) {
        let y = choose|y: int|
            room.lower.y < y < yc && y <= room.upper.y && (#[trigger] row_base(y, w)) + room.lower.x
                < i && i <= row_base(y, w) + room.upper.x;
        assert(room.lower.y < y < room.upper.y + 1 && y <= room.upper.y && row_base(y, w)
            + room.lower.x < i && i <= row_base(y, w) + room.upper.x);
        assert(room_interior_covers(w, room, i));
    }
    if room_interior_covers(w, room, i) {
        let y = choose|y: int|
            room.lower.y < y < room.upper.y + 1 && y <= room.upper.y && (#[trigger] row_base(y, w))
                + room.lower.x < i && i <= row_base(y, w) + room.upper.x;
        assert(room.lower.y < y < yc && y <= room.upper.y && row_base(y, w) + room.lower.x < i && i
            <= row_base(y, w) + room.upper.x);
        assert(rows_covered_to(w, room, yc, i));
    }
}

/// Sets every tile strictly inside `room`'s interior to `Room`, overwriting
/// whatever was there. The caller owes feasible geometry: every interior
/// coordinate's flat index must land inside the tile vector.
pub fn apply_room_to_map(map: &mut Grid, room: &Rectangle)
    requires
        old(map).wf(),
        forall|x: int, y: int|
            room.lower.x < x <= room.upper.x && room.lower.y < y <= room.upper.y ==> 0 <= #[trigger] flat_idx(old(map).width as int, x, y) < old(map).tiles@.len(),
    ensures
        final(map).wf(),
        final(map).width == old(map).width,
        final(map).height == old(map).height,
        final(map).tiles@.len() == old(map).tiles@.len(),
        forall|i: int|
            0 <= i < old(map).tiles@.len() ==> final(map).tiles@[i] == (if room_interior_covers(
                old(map).width as int,
                *room,
                i,
            ) {
                TileType::Room
            } else {
                old(map).tiles@[i]
            }),
        forall|i: int|
            0 <= i < old(map).tiles@.len() && old(map).tiles@[i] == TileType::Room ==> final(map).tiles@[i] == TileType::Room,
{
    let ghost m0 = *map;
    let ghost w = map.width as int;
    let mut y: i64 = (room.lower.y as i64) + 1;
    while y <= room.upper.y as i64
        invariant
            map.wf(),
            map.width == m0.width,
            map.height == m0.height,
            map.tiles@.len() == m0.tiles@.len(),
            w == m0.width as int,
            m0.wf(),
            room.lower.y < y,
            y <= room.upper.y + 1 || y == room.lower.y + 1,
            forall|x: int, yy: int|
                room.lower.x < x <= room.upper.x && room.lower.y < yy <= room.upper.y ==> 0 <= #[trigger] flat_idx(w, x, yy) < m0.tiles@.len(),
            stamped_to(m0.tiles@, map.tiles@, w, *room, y as int, room.lower.x + 1),
        decreases room.upper.y as i64 - y + 1,
    {
        let mut x: i64 = (room.lower.x as i64) + 1;
        while x <= room.upper.x as i64
            invariant
                map.wf(),
                map.width == m0.width,
                map.height == m0.height,
                map.tiles@.len() == m0.tiles@.len(),
                w == m0.width as int,
                m0.wf(),
                room.lower.y < y <= room.upper.y,
                room.lower.x < x,
                x <= room.upper.x + 1 || x == room.lower.x + 1,
                forall|xx: int, yy: int|
                    room.lower.x < xx <= room.upper.x && room.lower.y < yy <= room.upper.y ==> 0 <= #[trigger] flat_idx(w, xx, yy) < m0.tiles@.len(),
                stamped_to(m0.tiles@, map.tiles@, w, *room, y as int, x as int),
            decreases room.upper.x as i64 - x + 1,
        {
            assert(0 <= flat_idx(w, x as int, y as int) < m0.tiles@.len());
            proof {
                lemma_row_product_bound(y as int, w);
            }
            let idx128: i128 = (y as i128) * (map.width as i128) + (x as i128);
            assert(idx128 == (y as int) * w + (x as int));
            let n = map.tiles.len();
            assert(0 <= idx128 < n as i128);
            let idx: usize = idx128 as usize;
            let ghost prev = map.tiles@;
            map.tiles.set(idx, TileType::Room);
            proof {
                let xi = x as int;
                let yi = y as int;
                let idxi = idx as int;
                assert(idxi == row_base(yi, w) + xi);
                assert forall|i: int| 0 <= i < m0.tiles@.len() implies map.tiles@[i] == (if
                    rows_covered_to(w, *room, yi, i) || (row_base(yi, w) + room.lower.x < i && i
                        < row_base(yi, w) + (xi + 1)) {
                    TileType::Room
                } else {
                    m0.tiles@[i]
                }) by {
                    if i == idxi {
                        assert(row_base(yi, w) + room.lower.x < i && i < row_base(yi, w) + (xi
                            + 1));
                        assert(map.tiles@[i] == TileType::Room);
                    } else {
                        assert(map.tiles@[i] == prev[i]);
                        assert(i != row_base(yi, w) + xi);
                        assert(prev[i] == (if rows_covered_to(w, *room, yi, i) || (row_base(yi, w)
                            + room.lower.x < i && i < row_base(yi, w) + xi) {
                            TileType::Room
                        } else {
                            m0.tiles@[i]
                        }));
                        assert((row_base(yi, w) + room.lower.x < i && i < row_base(yi, w) + (xi
                            + 1)) == (row_base(yi, w) + room.lower.x < i && i < row_base(yi, w)
                            + xi));
                    }
                }
                assert(stamped_to(m0.tiles@, map.tiles@, w, *room, yi, xi + 1));
            }
            x = x + 1;
        }
        proof {
            assert forall|i: int| 0 <= i < m0.tiles@.len() implies map.tiles@[i] == (if
                rows_covered_to(w, *room, y as int + 1, i) || (row_base(y as int + 1, w)
                    + room.lower.x < i && i < row_base(y as int + 1, w) + room.lower.x + 1) {
                TileType::Room
            } else {
                m0.tiles@[i]
            }) by {
                lemma_rows_covered_extend(w, *room, y as int, i);
            }
            assert(stamped_to(m0.tiles@, map.tiles@, w, *room, y as int + 1, room.lower.x + 1));
        }
        y = y + 1;
    }
    proof {
        assert forall|i: int| 0 <= i < m0.tiles@.len() implies map.tiles@[i] == (if
            room_interior_covers(w, *room, i) {
            TileType::Room
        } else {
            m0.tiles@[i]
        }) by {
            assert(map.tiles@[i] == (if rows_covered_to(w, *room, y as int, i) || (row_base(
                y as int,
                w,
            ) + room.lower.x < i && i < row_base(y as int, w) + room.lower.x + 1) {
                TileType::Room
            } else {
                m0.tiles@[i]
            }));
            lemma_rows_covered_saturate(w, *room, y as int, i);
        }
    }
}

/// Flat index `i` is on the horizontal tunnel at row `y` between columns
/// `x_start` and `x_end` (inclusive, either order), and strictly inside the
/// flat array bounds.
pub open spec fn h_tunnel_covers(
    w: int,
    h: int,
    x_start: int,
    x_end: int,
    y: int,
    i: int,
) -> bool {
    let lo = if x_start <= x_end {
        x_start
    } else {
        x_end
    };
    let hi = if x_start <= x_end {
        x_end
    } else {
        x_start
    };
    row_base(y, w) + lo <= i <= row_base(y, w) + hi && 0 < i < w * h
}

/// Carves the inclusive column range between `x_start` and `x_end` at row `y`
/// to `Tunnel`. Indices that fall outside the flat array are silently
/// skipped, and a `Room` tile is never downgraded.
pub fn apply_horizontal_tunnel(map: &mut Grid, x_start: i32, x_end: i32, y: i32)
    requires
        old(map).wf(),
    ensures
        final(map).wf(),
        final(map).width == old(map).width,
        final(map).height == old(map).height,
        final(map).tiles@.len() == old(map).tiles@.len(),
        forall|i: int|
            0 <= i < old(map).tiles@.len() ==> final(map).tiles@[i] == (if h_tunnel_covers(
                old(map).width as int,
                old(map).height as int,
                x_start as int,
                x_end as int,
                y as int,
                i,
            ) && old(map).tiles@[i] != TileType::Room {
                TileType::Tunnel
            } else {
                old(map).tiles@[i]
            }),
        forall|i: int|
            0 <= i < old(map).tiles@.len() && old(map).tiles@[i] == TileType::Room ==> final(map).tiles@[i] == TileType::Room,
{
    let ghost m0 = *map;
    let ghost w = map.width as int;
    let ghost h = map.height as int;
    let n = map.tiles.len();
    assert(w * h == n);
    let bound: usize = map.width * map.height;
    let lo: i32 = if x_start <= x_end {
        x_start
    } else {
        x_end
    };
    let hi: i32 = if x_start <= x_end {
        x_end
    } else {
        x_start
    };
    let mut x: i64 = lo as i64;
    while x <= hi as i64
        invariant
            map.wf(),
            map.width == m0.width,
            map.height == m0.height,
            map.tiles@.len() == m0.tiles@.len(),
            w == m0.width as int,
            h == m0.height as int,
            m0.wf(),
            bound == w * h,
            bound == m0.tiles@.len(),
            lo <= x <= hi + 1,
            forall|i: int|
                0 <= i < m0.tiles@.len() ==> map.tiles@[i] == (if row_base(y as int, w) + lo <= i
                    < row_base(y as int, w) + x && 0 < i < w * h && m0.tiles@[i] != TileType::Room {
                    TileType::Tunnel
                } else {
                    m0.tiles@[i]
                }),
        decreases hi as i64 - x + 1,
    {
        proof {
            lemma_row_product_bound(y as int, w);
        }
        let idx128: i128 = (y as i128) * (map.width as i128) + (x as i128);
        assert(idx128 == row_base(y as int, w) + x);
        if 0 < idx128 && idx128 < bound as i128 {
            let idx: usize = idx128 as usize;
            if map.tiles[idx] != TileType::Room {
                map.tiles.set(idx, TileType::Tunnel);
            }
        }
        x = x + 1;
    }
}

/// Flat index `i` lies on the vertical tunnel segment at column `x` for some
/// row strictly below cutoff `yc` (rows counted from `lo` upward).
pub open spec fn v_rows_covered_to(w: int, lo: int, yc: int, x: int, i: int) -> bool {
    exists|y: int| lo <= y < yc && i == (#[trigger] row_base(y, w)) + x
}

/// Flat index `i` is on the vertical tunnel at column `x` between rows
/// `y_start` and `y_end` (inclusive, either order), and strictly inside the
/// flat array bounds.
pub open spec fn v_tunnel_covers(
    w: int,
    h: int,
    y_start: int,
    y_end: int,
    x: int,
    i: int,
) -> bool {
    let lo = if y_start <= y_end {
        y_start
    } else {
        y_end
    };
    let hi = if y_start <= y_end {
        y_end
    } else {
        y_start
    };
    v_rows_covered_to(w, lo, hi + 1, x, i) && 0 < i < w * h
}

/// Extending the row cutoff by one adds exactly the cell of row `yc`.
proof fn lemma_v_rows_covered_extend(w: int, lo: int, yc: int, x: int, i: int)
    requires
        lo <= yc,
    ensures
        v_rows_covered_to(w, lo, yc + 1, x, i) == (v_rows_covered_to(w, lo, yc, x, i) || i
            == row_base(yc, w) + x),
{
    if v_rows_covered_to(w, lo, yc + 1, x, i) {
        let y = choose|y: int| lo <= y < yc + 1 && i == (#[trigger] row_base(y, w)) + x;
        if y < yc {
            assert(v_rows_covered_to(w, lo, yc, x, i));
        } else {
            assert(y == yc);
        }
    }
    if v_rows_covered_to(w, lo, yc, x, i) {
        let y = choose|y: int| lo <= y < yc && i == (#[trigger] row_base(y, w)) + x;
        assert(lo <= y < yc + 1 && i == row_base(y, w) + x);
        assert(v_rows_covered_to(w, lo, yc + 1, x, i));
    }
    if i == row_base(yc, w) + x {
        assert(lo <= yc < yc + 1 && i == row_base(yc, w) + x);
        assert(v_rows_covered_to(w, lo, yc + 1, x, i));
    }
}

/// Carves the inclusive row range between `y_start` and `y_end` at column `x`
/// to `Tunnel`, with the same skip-and-preserve policy as the horizontal
/// carve.
pub fn apply_vertical_tunnel(map: &mut Grid, y_start: i32, y_end: i32, x: i32)
    requires
        old(map).wf(),
    ensures
        final(map).wf(),
        final(map).width == old(map).width,
        final(map).height == old(map).height,
        final(map).tiles@.len() == old(map).tiles@.len(),
        forall|i: int|
            0 <= i < old(map).tiles@.len() ==> final(map).tiles@[i] == (if v_tunnel_covers(
                old(map).width as int,
                old(map).height as int,
                y_start as int,
                y_end as int,
                x as int,
                i,
            ) && old(map).tiles@[i] != TileType::Room {
                TileType::Tunnel
            } else {
                old(map).tiles@[i]
            }),
        forall|i: int|
            0 <= i < old(map).tiles@.len() && old(map).tiles@[i] == TileType::Room ==> final(map).tiles@[i] == TileType::Room,
{
    let ghost m0 = *map;
    let ghost w = map.width as int;
    let ghost h = map.height as int;
    let n = map.tiles.len();
    assert(w * h == n);
    let bound: usize = map.width * map.height;
    let lo: i32 = if y_start <= y_end {
        y_start
    } else {
        y_end
    };
    let hi: i32 = if y_start <= y_end {
        y_end
    } else {
        y_start
    };
    let mut y: i64 = lo as i64;
    while y <= hi as i64
        invariant
            map.wf(),
            map.width == m0.width,
            map.height == m0.height,
            map.tiles@.len() == m0.tiles@.len(),
            w == m0.width as int,
            h == m0.height as int,
            m0.wf(),
            bound == w * h,
            bound == m0.tiles@.len(),
            lo <= y <= hi + 1,
            forall|i: int|
                0 <= i < m0.tiles@.len() ==> map.tiles@[i] == (if v_rows_covered_to(
                    w,
                    lo as int,
                    y as int,
                    x as int,
                    i,
                ) && 0 < i < w * h && m0.tiles@[i] != TileType::Room {
                    TileType::Tunnel
                } else {
                    m0.tiles@[i]
                }),
        decreases hi as i64 - y + 1,
    {
        proof {
            lemma_row_product_bound(y as int, w);
        }
        let idx128: i128 = (y as i128) * (map.width as i128) + (x as i128);
        assert(idx128 == row_base(y as int, w) + x);
        if 0 < idx128 && idx128 < bound as i128 {
            let idx: usize = idx128 as usize;
            if map.tiles[idx] != TileType::Room {
                map.tiles.set(idx, TileType::Tunnel);
            }
        }
        proof {
            assert forall|i: int| 0 <= i < m0.tiles@.len() implies map.tiles@[i] == (if
                v_rows_covered_to(w, lo as int, y as int + 1, x as int, i) && 0 < i < w * h
                && m0.tiles@[i] != TileType::Room {
                TileType::Tunnel
            } else {
                m0.tiles@[i]
            }) by {
                lemma_v_rows_covered_extend(w, lo as int, y as int, x as int, i);
            }
        }
        y = y + 1;
    }
}

} // verus!
