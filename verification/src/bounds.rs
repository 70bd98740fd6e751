//! Query regions in tile space, and the quad-tree search that enumerates
//! every tile meeting such a region, level by level.

use vstd::prelude::*;
use vstd::arithmetic::power2::{pow2, lemma_pow2_pos};
use crate::arith::{pow2_u64, lemma_pow2_ge_u32_width};
use crate::tile::Tile;

verus! {

/// An axis-aligned query region, held as the tile coordinates of its
/// north-west corner `(x1, y1)` and its south-east corner `(x2, y2)` on the
/// reference grid of zoom 32.  A geographic bounding box becomes such a
/// region by forward-projecting its two corners onto that grid.
#[derive(PartialEq, Eq, Structural, Debug, Clone, Copy, Hash)]
pub struct TileBounds {
    pub x1: u32,
    pub y1: u32,
    pub x2: u32,
    pub y2: u32,
}

/// Divides a reference-grid coordinate down to the grid of `zoom`.
pub(crate) fn shift_to_zoom(c: u32, zoom: u8) -> (r: u32)
    requires
        zoom <= 32,
    ensures
        r as nat == (c as nat) / pow2((32 - zoom) as nat),
{
    let d = pow2_u64(32 - zoom);
    proof {
        lemma_pow2_pos((32 - zoom) as nat);
    }
    let r64 = (c as u64) / d;
    r64 as u32
}

impl TileBounds {
    /// The corners are ordered: north-west at or before south-east on both
    /// axes.
    pub open spec fn wf(self) -> bool {
        self.x1 <= self.x2 && self.y1 <= self.y2
    }

    /// Constructs a region from its two reference-grid corners.  Returns
    /// `None` where the corners are out of order on either axis.
    pub fn new(x1: u32, y1: u32, x2: u32, y2: u32) -> (r: Option<TileBounds>)
        ensures
            r is Some <==> x1 <= x2 && y1 <= y2,
            r matches Some(b) ==> b == (TileBounds { x1, y1, x2, y2 }) && b.wf(),
    {
        if x1 <= x2 && y1 <= y2 {
            Some(TileBounds { x1, y1, x2, y2 })
        } else {
            None
        }
    }

    /// The column of the north-west corner on the grid of `zoom`.
    pub open spec fn x1_at(self, zoom: nat) -> nat
        recommends
            zoom <= 32,
    {
        (self.x1 as nat) / pow2((32 - zoom) as nat)
    }

    /// The row of the north-west corner on the grid of `zoom`.
    pub open spec fn y1_at(self, zoom: nat) -> nat
        recommends
            zoom <= 32,
    {
        (self.y1 as nat) / pow2((32 - zoom) as nat)
    }

    /// The column of the south-east corner on the grid of `zoom`.
    pub open spec fn x2_at(self, zoom: nat) -> nat
        recommends
            zoom <= 32,
    {
        (self.x2 as nat) / pow2((32 - zoom) as nat)
    }

    /// The row of the south-east corner on the grid of `zoom`.
    pub open spec fn y2_at(self, zoom: nat) -> nat
        recommends
            zoom <= 32,
    {
        (self.y2 as nat) / pow2((32 - zoom) as nat)
    }

    /// Whether a tile's square meets the region: the tile must lie between
    /// the region's corner columns and rows, compared on the coarser of the
    /// two grids.
    pub open spec fn spec_overlaps(self, t: Tile) -> bool {
        if t.zoom <= 32 {
            &&& self.x1_at(t.zoom as nat) <= t.x as nat <= self.x2_at(t.zoom as nat)
            &&& self.y1_at(t.zoom as nat) <= t.y as nat <= self.y2_at(t.zoom as nat)
        } else {
            let k = pow2((t.zoom - 32) as nat);
            &&& self.x1 as nat <= (t.x as nat) / k <= self.x2 as nat
            &&& self.y1 as nat <= (t.y as nat) / k <= self.y2 as nat
        }
    }

    /// Decides whether a tile's square meets the region.
    pub fn overlaps(&self, t: &Tile) -> (r: bool)
        requires
            t.wf(),
        ensures
            r == self.spec_overlaps(*t),
    {
        if t.zoom <= 32 {
            let x1 = shift_to_zoom(self.x1, t.zoom);
            let x2 = shift_to_zoom(self.x2, t.zoom);
            let y1 = shift_to_zoom(self.y1, t.zoom);
            let y2 = shift_to_zoom(self.y2, t.zoom);
            x1 <= t.x && t.x <= x2 && y1 <= t.y && t.y <= y2
        } else if t.zoom >= 64 {
            // The ancestor grid step exceeds the coordinate width, so both
            // quotients are zero.
            proof {
                lemma_pow2_ge_u32_width((t.zoom - 32) as nat);
                lemma_pow2_pos((t.zoom - 32) as nat);
                vstd::arithmetic::div_mod::lemma_basic_div(
                    t.x as int,
                    pow2((t.zoom - 32) as nat) as int,
                );
                vstd::arithmetic::div_mod::lemma_basic_div(
                    t.y as int,
                    pow2((t.zoom - 32) as nat) as int,
                );
            }
            self.x1 == 0 && self.y1 == 0
        } else {
            let k = pow2_u64(t.zoom - 32);
            proof {
                lemma_pow2_pos((t.zoom - 32) as nat);
                vstd::arithmetic::div_mod::lemma_div_nonincreasing(t.x as int, k as int);
                vstd::arithmetic::div_mod::lemma_div_nonincreasing(t.y as int, k as int);
            }
            let xa = ((t.x as u64) / k) as u32;
            let ya = ((t.y as u64) / k) as u32;
            self.x1 <= xa && xa <= self.x2 && self.y1 <= ya && ya <= self.y2
        }
    }
}

/// The children of `t` that meet the region `b`, in the fixed child order.
pub open spec fn spec_kept(b: TileBounds, t: Tile) -> Seq<Tile> {
    if !t.has_subtiles() {
        Seq::empty()
    } else {
        let c = t.spec_subtiles();
        (if b.spec_overlaps(c[0]) {
            seq![c[0]]
        } else {
            Seq::empty()
        }) + (if b.spec_overlaps(c[1]) {
            seq![c[1]]
        } else {
            Seq::empty()
        }) + (if b.spec_overlaps(c[2]) {
            seq![c[2]]
        } else {
            Seq::empty()
        }) + (if b.spec_overlaps(c[3]) {
            seq![c[3]]
        } else {
            Seq::empty()
        })
    }
}

/// One level of the search: the kept children of every tile of the level,
/// in order.
pub open spec fn spec_expand(b: TileBounds, ts: Seq<Tile>) -> Seq<Tile>
    decreases ts.len(),
{
    if ts.len() == 0 {
        Seq::empty()
    } else {
        spec_kept(b, ts[0]) + spec_expand(b, ts.drop_first())
    }
}

/// Expanding one more tile appends its kept children.
proof fn lemma_expand_snoc(b: TileBounds, ts: Seq<Tile>, t: Tile)
    ensures
        spec_expand(b, ts.push(t)) == spec_expand(b, ts) + spec_kept(b, t),
    decreases ts.len(),
{
    if ts.len() == 0 {
        assert(ts.push(t).drop_first() =~= Seq::<Tile>::empty());
        assert(ts.push(t)[0] == t);
        assert(spec_expand(b, ts.push(t)) == spec_kept(b, t) + spec_expand(
            b,
            ts.push(t).drop_first(),
        ));
        assert(spec_expand(b, ts.push(t)) =~= spec_expand(b, ts) + spec_kept(b, t));
    } else {
        assert(ts.push(t).drop_first() =~= ts.drop_first().push(t));
        lemma_expand_snoc(b, ts.drop_first(), t);
        assert(ts.push(t)[0] == ts[0]);
        assert(spec_expand(b, ts.push(t)) == spec_kept(b, ts[0]) + spec_expand(
            b,
            ts.drop_first().push(t),
        ));
        assert(spec_expand(b, ts.push(t)) =~= spec_expand(b, ts) + spec_kept(b, t));
    }
}

/// Walks the tiles meeting a query region, from the zoom 0 root downward:
/// each level holds the children of the previous level's tiles that meet
/// the region, and pruned branches are never revisited.
pub struct BBoxTilesIterator {
    pub bbox: TileBounds,
    pub tiles: Vec<Tile>,
    pub tile_index: usize,
}

impl BBoxTilesIterator {
    /// The region is ordered, the cursor lies inside the working level and
    /// every queued tile is valid.
    pub open spec fn wf(self) -> bool {
        &&& self.bbox.wf()
        &&& self.tile_index <= self.tiles@.len()
        &&& forall|i: int| 0 <= i < self.tiles@.len() ==> #[trigger] self.tiles@[i].wf()
    }

    /// Starts the search at the root tile, which covers the whole world.
    pub fn new(bbox: TileBounds) -> (r: BBoxTilesIterator)
        requires
            bbox.wf(),
        ensures
            r.wf(),
            r.bbox == bbox,
            r.tiles@ == seq![Tile { zoom: 0u8, x: 0u32, y: 0u32 }],
            r.tile_index == 0,
    {
        proof {
            lemma_pow2_pos(0);
        }
        let mut tiles: Vec<Tile> = Vec::new();
        tiles.push(Tile { zoom: 0, x: 0, y: 0 });
        proof {
            assert(tiles@ =~= seq![Tile { zoom: 0u8, x: 0u32, y: 0u32 }]);
        }
        BBoxTilesIterator { bbox, tiles, tile_index: 0 }
    }

    /// Emits the next queued tile; once a level is spent, replaces it by
    /// the kept children of all its tiles and goes on there.  Returns
    /// `None` only when no queued tile has representable children left.
    pub fn next(&mut self) -> (r: Option<Tile>)
        requires
            old(self).wf(),
        ensures
            final(self).wf(),
            final(self).bbox == old(self).bbox,
            old(self).tile_index < old(self).tiles@.len() ==> r == Some(
                old(self).tiles@[old(self).tile_index as int],
            ) && final(self).tiles == old(self).tiles && final(self).tile_index == old(
                self,
            ).tile_index + 1,
            old(self).tile_index >= old(self).tiles@.len() ==> {
                let expanded = spec_expand(old(self).bbox, old(self).tiles@);
                &&& final(self).tiles@ == expanded
                &&& expanded.len() == 0 ==> r is None && final(self).tile_index == 0
                &&& expanded.len() > 0 ==> r == Some(expanded[0]) && final(self).tile_index == 1
            },
    {
        if self.tile_index >= self.tiles.len() {
            // The level is spent: build the next one from the children that
            // still meet the region.
            let ghost orig = self.tiles@;
            let mut new_tiles: Vec<Tile> = Vec::new();
            let mut i: usize = 0;
            while i < self.tiles.len()
                invariant
                    *self == *old(self),
                    self.bbox.wf(),
                    forall|j: int| 0 <= j < self.tiles@.len() ==> #[trigger] self.tiles@[j].wf(),
                    i <= self.tiles@.len(),
                    orig == self.tiles@,
                    new_tiles@ == spec_expand(self.bbox, self.tiles@.take(i as int)),
                    forall|j: int| 0 <= j < new_tiles@.len() ==> #[trigger] new_tiles@[j].wf(),
                decreases self.tiles@.len() - i,
            {
                let t = self.tiles[i];
                let ghost before = new_tiles@;
                match t.subtiles() {
                    None => {
                        proof {
                            assert(new_tiles@ =~= before + spec_kept(self.bbox, t));
                        }
                    },
                    Some(sub) => {
                        if self.bbox.overlaps(&sub[0]) {
                            new_tiles.push(sub[0]);
                        }
                        if self.bbox.overlaps(&sub[1]) {
                            new_tiles.push(sub[1]);
                        }
                        if self.bbox.overlaps(&sub[2]) {
                            new_tiles.push(sub[2]);
                        }
                        if self.bbox.overlaps(&sub[3]) {
                            new_tiles.push(sub[3]);
                        }
                        proof {
                            assert(new_tiles@ =~= before + spec_kept(self.bbox, t));
                        }
                    },
                }
                proof {
                    lemma_expand_snoc(self.bbox, self.tiles@.take(i as int), t);
                    assert(self.tiles@.take(i + 1) =~= self.tiles@.take(i as int).push(t));
                }
                i = i + 1;
            }
            proof {
                assert(self.tiles@.take(self.tiles@.len() as int) =~= self.tiles@);
            }
            self.tiles = new_tiles;
            self.tile_index = 0;
        }
        if self.tile_index < self.tiles.len() {
            let tile = self.tiles[self.tile_index];
            self.tile_index = self.tile_index + 1;
            Some(tile)
        } else {
            None
        }
    }
}

} // verus!
