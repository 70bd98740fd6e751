//! Enumeration of the tile tree: the unbounded Z-order walk over all tiles,
//! the bounded row-major walk down to a chosen zoom with its exact
//! remaining-count report, and the subtree walk below one tile.

use vstd::prelude::*;
use vstd::arithmetic::power2::{pow2, lemma_pow2_strictly_increases, lemma_pow2_pos, lemma2_to64, lemma2_to64_rest};
use vstd::arithmetic::mul::{lemma_mul_upper_bound, lemma_mul_inequality};
use crate::arith::{pow2_u32, pow2_u64, lemma_pow2_ge_u32_width};
use crate::tile::Tile;
use crate::zorder::{unord_x, unord_y, zorder_to_xy, lemma_unord_bound, lemma_unord_zord, lemma_zord_unord, lemma_zord_corner};

verus! {

/// The largest coordinate a tile can carry at a zoom level: the grid edge
/// `2^zoom - 1`, capped at the coordinate width.
pub open spec fn level_max(zoom: nat) -> nat {
    if zoom >= 32 {
        u32::MAX as nat
    } else {
        (pow2(zoom) - 1) as nat
    }
}

/// The grid edge of a zoom level as a `u32`.
pub(crate) fn level_max_u32(zoom: u8) -> (r: u32)
    ensures
        r as nat == level_max(zoom as nat),
{
    if zoom >= 32 {
        u32::MAX
    } else {
        let p = pow2_u32(zoom);
        proof {
            lemma_pow2_pos(zoom as nat);
        }
        p - 1
    }
}

/// Walks every tile of the world, breadth-first over zoom levels and in
/// Z-order inside each level.
pub struct AllTilesIterator {
    pub next_zoom: u8,
    pub next_zorder: u64,
}

impl AllTilesIterator {
    /// The cursor always points inside the Z-order range of its level.
    pub open spec fn wf(self) -> bool {
        self.next_zoom < 32 ==> (self.next_zorder as nat) < pow2(2 * self.next_zoom as nat)
    }

    /// Produces the tile under the cursor and moves the cursor one step in
    /// Z-order, wrapping to the next zoom level after the south-east corner.
    pub fn next(&mut self) -> (r: Option<Tile>)
        requires
            old(self).wf(),
        ensures
            final(self).wf(),
            old(self).next_zoom >= 100 ==> r is None && *final(self) == *old(self),
            old(self).next_zoom < 100 ==> {
                let z = old(self).next_zoom;
                let zo = old(self).next_zorder as nat;
                &&& r == Some((Tile { zoom: z, x: unord_x(zo) as u32, y: unord_y(zo) as u32 }))
                &&& r matches Some(t) && t.wf()
                &&& if unord_x(zo) == level_max(z as nat) && unord_y(zo) == level_max(z as nat) {
                    final(self).next_zoom == z + 1 && final(self).next_zorder == 0
                } else {
                    final(self).next_zoom == z && final(self).next_zorder == old(
                        self,
                    ).next_zorder + 1
                }
            },
    {
        if self.next_zoom >= 100 {
            return None;
        }
        let zoom = self.next_zoom;
        let (x, y) = zorder_to_xy(self.next_zorder);
        proof {
            lemma2_to64();
            lemma2_to64_rest();
            if zoom < 32 {
                lemma_unord_bound(self.next_zorder as nat, zoom as nat);
            } else {
                lemma_pow2_ge_u32_width(zoom as nat);
                lemma_unord_bound(self.next_zorder as nat, 32);
            }
        }
        let tile = Tile::new(zoom, x, y);
        let max_tile_no = level_max_u32(zoom);
        if x == max_tile_no && y == max_tile_no {
            self.next_zoom = zoom + 1;
            self.next_zorder = 0;
            proof {
                lemma_pow2_pos(2 * self.next_zoom as nat);
            }
        } else {
            proof {
                let zo = self.next_zorder as nat;
                let k: nat = if zoom < 32 { zoom as nat } else { 32 };
                // Were the cursor on the last index of the level, both
                // halves would sit on the grid edge and the other branch
                // would have been taken.
                if zo == pow2(2 * k) - 1 {
                    lemma_zord_corner(k);
                    lemma_unord_zord((pow2(k) - 1) as nat, (pow2(k) - 1) as nat);
                    assert(false);
                }
                if zoom < 32 {
                    lemma_pow2_strictly_increases(2 * zoom as nat, 64);
                }
            }
            self.next_zorder = self.next_zorder + 1;
        }
        tile
    }
}

/// Walks the tiles of zoom levels 0 through `max_zoom`, row by row inside
/// each level.
pub struct AllTilesToZoomIterator {
    pub max_zoom: u8,
    pub next_zoom: u8,
    pub next_x: u32,
    pub next_y: u32,
}

/// How many tiles a zoom level has, in the doubling-exponent scheme the
/// cache layouts count by: `2^(2^zoom)` tiles for levels one through five.
/// Level zero has one tile, and from level six on the count no longer fits
/// the platform word.
pub open spec fn spec_tiles_in_zoom(zoom: nat) -> nat {
    if zoom == 0 {
        1
    } else {
        pow2(pow2(zoom))
    }
}

/// How many tiles are in this zoom level?  Returns `None` where the count
/// would overflow a `usize`.
pub fn num_tiles_in_zoom(zoom: u8) -> (r: Option<usize>)
    ensures
        r is Some <==> zoom <= 5 && spec_tiles_in_zoom(zoom as nat) <= usize::MAX,
        r matches Some(c) ==> c as nat == spec_tiles_in_zoom(zoom as nat),
{
    proof {
        lemma2_to64();
    }
    let c: u64 = match zoom {
        0 => 1,
        1 => 4,
        2 => 16,
        3 => 256,
        4 => 65536,
        5 => 4294967296,
        _ => {
            return None;
        },
    };
    if c <= (usize::MAX as u64) {
        Some(c as usize)
    } else {
        None
    }
}

/// How many tiles of a level remain at and after the cursor `(x, y)`, the
/// column below the cursor plus all columns to its east.
pub open spec fn spec_remaining_in_zoom(zoom: nat, x: nat, y: nat) -> int {
    (pow2(zoom) - y) + (pow2(zoom) - x - 1) * pow2(zoom)
}

/// Counts the tiles of a level not yet visited by the row-major walk at
/// cursor `(next_x, next_y)`.  Returns `None` where the count would
/// overflow a `usize`.
pub fn remaining_in_this_zoom(next_zoom: u8, next_x: u32, next_y: u32) -> (r: Option<usize>)
    requires
        (next_x as nat) < pow2(next_zoom as nat),
        (next_y as nat) < pow2(next_zoom as nat),
    ensures
        r matches Some(c) ==> c as int == spec_remaining_in_zoom(
            next_zoom as nat,
            next_x as nat,
            next_y as nat,
        ),
        r is None <==> spec_remaining_in_zoom(next_zoom as nat, next_x as nat, next_y as nat)
            > usize::MAX,
{
    let ghost rem = spec_remaining_in_zoom(next_zoom as nat, next_x as nat, next_y as nat);
    if next_zoom >= 33 {
        proof {
            lemma2_to64();
            lemma2_to64_rest();
            if next_zoom > 33 {
                lemma_pow2_strictly_increases(33, next_zoom as nat);
            }
            let n = pow2(next_zoom as nat) as int;
            lemma_mul_inequality(0x1_0000_0000, n - next_x - 1, n);
        }
        None
    } else {
        let n = pow2_u64(next_zoom);
        let rem_col = n - (next_y as u64);
        let rem_rows = n - (next_x as u64) - 1;
        proof {
            lemma2_to64();
            lemma2_to64_rest();
            if next_zoom < 32 {
                lemma_pow2_strictly_increases(next_zoom as nat, 32);
            }
            lemma_mul_upper_bound(rem_rows as int, 0x1_0000_0000, n as int, 0x1_0000_0000);
        }
        let prod: u128 = (rem_rows as u128) * (n as u128);
        let total: u128 = prod + (rem_col as u128);
        if total <= (usize::MAX as u128) {
            Some(total as usize)
        } else {
            None
        }
    }
}

/// The sum of `spec_tiles_in_zoom` over the levels `from` through `to`,
/// or `None` as soon as one level's count is unknown.
pub open spec fn spec_level_total(from: nat, to: nat) -> Option<int>
    decreases (if from <= to { (to - from + 1) as nat } else { 0 }),
{
    if from > to {
        Some(0int)
    } else if from > 5 {
        None
    } else {
        match spec_level_total(from + 1, to) {
            None => None,
            Some(s) => Some(spec_tiles_in_zoom(from) + s),
        }
    }
}

/// Level sums are never negative.
proof fn lemma_level_total_nonneg(from: nat, to: nat)
    ensures
        spec_level_total(from, to) matches Some(s) ==> s >= 0,
    decreases (if from <= to { (to - from + 1) as nat } else { 0 }),
{
    if from <= to && from <= 5 {
        lemma_level_total_nonneg(from + 1, to);
    }
}

/// A level sum splits at any point of the range: the part before the split
/// plus the part from the split on.
proof fn lemma_level_total_split(from: nat, mid: nat, to: nat)
    requires
        from <= mid <= to + 1,
        mid >= 1,
    ensures
        spec_level_total(from, to) == match (
            spec_level_total(from, (mid - 1) as nat),
            spec_level_total(mid, to),
        ) {
            (Some(a), Some(b)) => Some(a + b),
            _ => None::<int>,
        },
    decreases mid - from,
{
    if from == mid {
    } else {
        lemma_level_total_split(from + 1, mid, to);
    }
}

/// The report `size_hint` owes: the exact number of tiles still to come
/// where that number fits a `usize`, and a saturated lower bound with an
/// unknown upper bound where it does not.
pub open spec fn spec_size_hint(s: AllTilesToZoomIterator) -> (usize, Option<usize>) {
    if s.next_zoom > s.max_zoom {
        (0usize, Some(0usize))
    } else {
        let rem = spec_remaining_in_zoom(s.next_zoom as nat, s.next_x as nat, s.next_y as nat);
        match spec_level_total(s.next_zoom as nat + 1, s.max_zoom as nat) {
            None => (usize::MAX, None),
            Some(t) => if rem + t <= usize::MAX {
                ((rem + t) as usize, Some((rem + t) as usize))
            } else {
                (usize::MAX, None)
            },
        }
    }
}

/// The state `next` leaves behind after emitting a tile: down the column,
/// east to the next column, or on to the next zoom level.
pub open spec fn spec_to_zoom_step(s: AllTilesToZoomIterator) -> AllTilesToZoomIterator {
    let max = level_max(s.next_zoom as nat);
    if (s.next_y as nat) < max {
        AllTilesToZoomIterator {
            max_zoom: s.max_zoom,
            next_zoom: s.next_zoom,
            next_x: s.next_x,
            next_y: (s.next_y + 1) as u32,
        }
    } else if (s.next_x as nat) < max {
        AllTilesToZoomIterator {
            max_zoom: s.max_zoom,
            next_zoom: s.next_zoom,
            next_x: (s.next_x + 1) as u32,
            next_y: 0,
        }
    } else if s.next_zoom < 255 {
        AllTilesToZoomIterator {
            max_zoom: s.max_zoom,
            next_zoom: (s.next_zoom + 1) as u8,
            next_x: 0,
            next_y: 0,
        }
    } else {
        s
    }
}

impl AllTilesToZoomIterator {
    /// The cursor always lies inside the grid of its level.
    pub open spec fn wf(self) -> bool {
        (self.next_x as nat) < pow2(self.next_zoom as nat) && (self.next_y as nat) < pow2(
            self.next_zoom as nat,
        )
    }

    /// Produces the tile under the cursor and advances it in row-major
    /// order; the walk ends once the cursor passes `max_zoom`.
    pub fn next(&mut self) -> (r: Option<Tile>)
        requires
            old(self).wf(),
        ensures
            final(self).wf(),
            old(self).next_zoom > old(self).max_zoom ==> r is None && *final(self) == *old(self),
            old(self).next_zoom <= old(self).max_zoom ==> r == Tile::spec_new(
                old(self).next_zoom,
                old(self).next_x,
                old(self).next_y,
            ) && *final(self) == spec_to_zoom_step(*old(self)),
    {
        if self.next_zoom > self.max_zoom {
            return None;
        }
        let tile = Tile::new(self.next_zoom, self.next_x, self.next_y);
        let max_tile_no = level_max_u32(self.next_zoom);
        proof {
            if self.next_zoom >= 32 {
                lemma_pow2_ge_u32_width(self.next_zoom as nat);
            }
        }
        if self.next_y < max_tile_no {
            self.next_y = self.next_y + 1;
        } else if self.next_x < max_tile_no {
            self.next_x = self.next_x + 1;
            self.next_y = 0;
        } else if self.next_zoom < 255 {
            self.next_zoom = self.next_zoom + 1;
            self.next_x = 0;
            self.next_y = 0;
            proof {
                lemma_pow2_pos(self.next_zoom as nat);
            }
        }
        tile
    }

    /// Reports how many tiles the walk still owes: the exact figure where
    /// it fits a `usize`, else `usize::MAX` with no upper bound.
    pub fn size_hint(&self) -> (r: (usize, Option<usize>))
        requires
            self.wf(),
        ensures
            r == spec_size_hint(*self),
    {
        if self.next_zoom > self.max_zoom {
            return (0, Some(0));
        }
        let ghost rem = spec_remaining_in_zoom(
            self.next_zoom as nat,
            self.next_x as nat,
            self.next_y as nat,
        );
        let remaining_opt = remaining_in_this_zoom(self.next_zoom, self.next_x, self.next_y);
        if remaining_opt.is_none() {
            proof {
                lemma_level_total_nonneg(self.next_zoom as nat + 1, self.max_zoom as nat);
            }
            return (usize::MAX, None);
        }
        let mut total: usize = match remaining_opt {
            Some(c) => c,
            None => 0,
        };
        let mut i: u16 = (self.next_zoom as u16) + 1;
        while i <= (self.max_zoom as u16)
            invariant
                self.next_zoom as int + 1 <= i <= self.max_zoom as int + 1,
                spec_level_total(self.next_zoom as nat + 1, (i - 1) as nat) == Some(
                    total - rem,
                ),
                rem <= total <= usize::MAX,
                rem == spec_remaining_in_zoom(
                    self.next_zoom as nat,
                    self.next_x as nat,
                    self.next_y as nat,
                ),
            decreases self.max_zoom as int + 1 - i,
        {
            proof {
                lemma_level_total_split(
                    self.next_zoom as nat + 1,
                    i as nat,
                    self.max_zoom as nat,
                );
            }
            let tiles_this_zoom = num_tiles_in_zoom(i as u8);
            let c = match tiles_this_zoom {
                None => {
                    proof {
                        if i <= 5 {
                            // The count of this level alone is already past
                            // the word, so any defined total is as well.
                            lemma_level_total_nonneg(self.next_zoom as nat + 1, (i - 1) as nat);
                            lemma_level_total_nonneg(i as nat + 1, self.max_zoom as nat);
                        }
                    }
                    return (usize::MAX, None);
                },
                Some(c) => c,
            };
            let new_total = total.checked_add(c);
            match new_total {
                None => {
                    proof {
                        lemma_level_total_nonneg(i as nat + 1, self.max_zoom as nat);
                        lemma_level_total_split(
                            self.next_zoom as nat + 1,
                            i as nat + 1,
                            self.max_zoom as nat,
                        );
                    }
                    return (usize::MAX, None);
                },
                Some(t) => {
                    total = t;
                },
            }
            proof {
                assert(spec_level_total(i as nat + 1, i as nat) == Some(0int));
                assert(spec_level_total(i as nat, i as nat) == Some(
                    spec_tiles_in_zoom(i as nat) as int,
                ));
                lemma_level_total_split(self.next_zoom as nat + 1, i as nat, i as nat);
            }
            i = i + 1;
        }
        proof {
            lemma_level_total_split(
                self.next_zoom as nat + 1,
                i as nat,
                self.max_zoom as nat,
            );
        }
        (total, Some(total))
    }
}

/// Walks all descendants of one tile, level by level.
pub struct AllSubTilesIterator {
    pub tiles: Vec<Tile>,
}

impl AllSubTilesIterator {
    /// Every queued tile is valid.
    pub open spec fn wf(self) -> bool {
        forall|i: int| 0 <= i < self.tiles@.len() ==> #[trigger] self.tiles@[i].wf()
    }

    /// The queue a fresh subtree walk starts from: the four children of the
    /// base tile, or nothing where the base tile has no children.
    pub open spec fn spec_seed(base: Tile) -> Seq<Tile> {
        if base.has_subtiles() {
            base.spec_subtiles()
        } else {
            Seq::empty()
        }
    }

    /// Starts a subtree walk below `base_tile`.
    pub fn new_from_tile(base_tile: &Tile) -> (r: Self)
        requires
            base_tile.wf(),
        ensures
            r.wf(),
            r.tiles@ == Self::spec_seed(*base_tile),
    {
        let new_tiles = match base_tile.subtiles() {
            None => Vec::new(),
            Some(t) => {
                let mut v: Vec<Tile> = Vec::new();
                v.push(t[0]);
                v.push(t[1]);
                v.push(t[2]);
                v.push(t[3]);
                proof {
                    assert(v@ =~= base_tile.spec_subtiles());
                }
                v
            },
        };
        AllSubTilesIterator { tiles: new_tiles }
    }

    /// Emits the head of the queue and appends its children, so each level
    /// of the subtree comes out in full before the next one begins.
    pub fn next(&mut self) -> (r: Option<Tile>)
        requires
            old(self).wf(),
        ensures
            final(self).wf(),
            old(self).tiles@.len() == 0 ==> r is None && *final(self) == *old(self),
            old(self).tiles@.len() > 0 ==> r == Some(old(self).tiles@[0]) && final(self).tiles@
                == old(self).tiles@.drop_first() + Self::spec_seed(old(self).tiles@[0]),
    {
        if self.tiles.len() == 0 {
            return None;
        }
        let next_tile = self.tiles.remove(0);
        match next_tile.subtiles() {
            None => {
                proof {
                    assert(self.tiles@ =~= old(self).tiles@.drop_first() + Self::spec_seed(
                        old(self).tiles@[0],
                    ));
                }
            },
            Some(subtiles) => {
                self.tiles.push(subtiles[0]);
                self.tiles.push(subtiles[1]);
                self.tiles.push(subtiles[2]);
                self.tiles.push(subtiles[3]);
                proof {
                    assert(self.tiles@ =~= old(self).tiles@.drop_first() + Self::spec_seed(
                        old(self).tiles@[0],
                    ));
                }
            },
        }
        Some(next_tile)
    }
}

impl Tile {
    /// Returns an iterator that yields every tile, starting from the zoom 0
    /// root, each zoom level in full before the next, in Z-order inside a
    /// level.
    pub fn all() -> (r: AllTilesIterator)
        ensures
            r == (AllTilesIterator { next_zoom: 0u8, next_zorder: 0u64 }),
            r.wf(),
    {
        proof {
            lemma_pow2_pos(0);
        }
        AllTilesIterator { next_zoom: 0, next_zorder: 0 }
    }

    /// Returns an iterator over the tiles of zoom levels 0 through
    /// `max_zoom`, row by row inside each level.
    pub fn all_to_zoom(max_zoom: u8) -> (r: AllTilesToZoomIterator)
        ensures
            r == (AllTilesToZoomIterator { max_zoom, next_zoom: 0u8, next_x: 0u32, next_y: 0u32 }),
            r.wf(),
    {
        proof {
            lemma_pow2_pos(0);
        }
        AllTilesToZoomIterator { max_zoom, next_zoom: 0, next_x: 0, next_y: 0 }
    }

    /// Returns an iterator over all descendants of this tile.
    pub fn all_subtiles_iter(&self) -> (r: AllSubTilesIterator)
        requires
            self.wf(),
        ensures
            r.wf(),
            r.tiles@ == AllSubTilesIterator::spec_seed(*self),
    {
        AllSubTilesIterator::new_from_tile(self)
    }
}

} // verus!
