//! Metatiles: aligned power-of-two blocks of tiles that share one cache
//! file, and the Z-order walk that enumerates them world-wide or inside a
//! query region.

use vstd::prelude::*;
use vstd::arithmetic::power2::{pow2, lemma_pow2_adds, lemma_pow2_strictly_increases, lemma_pow2_pos, lemma2_to64};
use vstd::arithmetic::div_mod::{lemma_fundamental_div_mod, lemma_fundamental_div_mod_converse, lemma_div_is_ordered, lemma_small_mod};
use vstd::arithmetic::mul::{lemma_mul_inequality, lemma_mul_is_commutative, lemma_mul_is_associative, lemma_mul_is_distributive_add, lemma_mul_upper_bound};
use crate::arith::{pow2_u32, lemma_pow2_ge_u32_width};
use crate::bounds::{shift_to_zoom, TileBounds};
use crate::iterators::{level_max, level_max_u32};
use crate::paths::spec_mt_path;
use crate::tile::Tile;
use crate::zorder::{zord, unord_x, unord_y, zorder_to_xy, lemma_unord_zord, lemma_zord_unord, lemma_zord_corner, lemma_zord_bound, lemma_zord_monotonic};

verus! {

/// Whether `n` is a power of two: one, or an even number whose half is.
pub open spec fn is_pow2(n: nat) -> bool
    decreases n,
{
    if n == 0 {
        false
    } else if n == 1 {
        true
    } else {
        n % 2 == 0 && is_pow2(n / 2)
    }
}

/// Decides whether a scale is a power of two.
pub(crate) fn is_power_of_two(s: u8) -> (r: bool)
    ensures
        r == is_pow2(s as nat),
    decreases s,
{
    if s == 0 {
        false
    } else if s == 1 {
        true
    } else if s % 2 == 1 {
        false
    } else {
        is_power_of_two(s / 2)
    }
}

/// A power of two no larger than `2^z` divides `2^z`.
pub proof fn lemma_pow2_divides(s: nat, z: nat)
    requires
        is_pow2(s),
        s <= pow2(z),
    ensures
        pow2(z) % s == 0,
    decreases s,
{
    if s == 1 {
        assert(pow2(z) % 1 == 0);
    } else {
        lemma2_to64();
        if z == 0 {
            assert(false);
        }
        lemma_pow2_adds(1, (z - 1) as nat);
        let p = pow2((z - 1) as nat);
        let t = s / 2;
        lemma_pow2_divides(t, (z - 1) as nat);
        assert(t >= 1);
        lemma_fundamental_div_mod(p as int, t as int);
        let q = p as int / t as int;
        assert(2 * p == (2 * t) * q) by {
            lemma_mul_is_commutative(t as int, q);
            assert(p == t * q);
            lemma_mul_is_associative(2, t as int, q);
        };
        lemma_mul_is_commutative(2 * t as int, q);
        lemma_fundamental_div_mod_converse(2 * p as int, 2 * t as int, q, 0);
    }
}

/// A multiple of `s` strictly below another multiple of `s` leaves room for
/// one more step of `s`.
pub proof fn lemma_mult_below(s: nat, n: nat, x: nat)
    requires
        s >= 1,
        x % s == 0,
        x < n,
        n % s == 0,
    ensures
        x + s <= n,
{
    lemma_fundamental_div_mod(x as int, s as int);
    lemma_fundamental_div_mod(n as int, s as int);
    let qx = x / s;
    let qn = n / s;
    assert(qx * s < qn * s) by {
        lemma_mul_is_commutative(s as int, qx as int);
        lemma_mul_is_commutative(s as int, qn as int);
    };
    assert(qx < qn) by {
        if qx >= qn {
            lemma_mul_inequality(qn as int, qx as int, s as int);
        }
    };
    lemma_mul_inequality(qx as int + 1, qn as int, s as int);
    lemma_mul_is_distributive_add(s as int, qx as int, 1);
    lemma_mul_is_commutative(s as int, qx as int + 1);
    lemma_mul_is_commutative(s as int, qx as int);
    lemma_mul_is_commutative(s as int, qn as int);
}

/// Metatiles are aligned `scale` by `scale` blocks of tiles; `(x, y)` is
/// the address of the north-west constituent tile, a multiple of `scale`.
#[derive(PartialEq, Eq, Structural, Debug, Clone, Copy, Hash)]
pub struct Metatile {
    pub scale: u8,
    pub zoom: u8,
    pub x: u32,
    pub y: u32,
}

impl Metatile {
    /// A metatile is valid when its scale is a power of two, its zoom is
    /// below 100, and its corner is an aligned tile of that zoom level.
    pub open spec fn wf(self) -> bool {
        &&& is_pow2(self.scale as nat)
        &&& self.zoom < 100
        &&& (self.x as nat) < pow2(self.zoom as nat)
        &&& (self.y as nat) < pow2(self.zoom as nat)
        &&& (self.x as nat) % (self.scale as nat) == 0
        &&& (self.y as nat) % (self.scale as nat) == 0
    }

    /// The value `Metatile::new` owes: the coordinates snapped down to the
    /// enclosing aligned block, under the same validity checks as a tile.
    pub open spec fn spec_new(scale: u8, zoom: u8, x: u32, y: u32) -> Option<Metatile> {
        if is_pow2(scale as nat) && zoom < 100 && (x as nat) < pow2(zoom as nat) && (y as nat)
            < pow2(zoom as nat) {
            Some(
                Metatile {
                    scale,
                    zoom,
                    x: ((x as nat / scale as nat) * scale as nat) as u32,
                    y: ((y as nat / scale as nat) * scale as nat) as u32,
                },
            )
        } else {
            None
        }
    }

    /// Constructs the metatile containing tile `(zoom, x, y)`.  Returns
    /// `None` when the scale is not a power of two, or when zoom, x or y
    /// fail the tile validity checks.
    pub fn new(scale: u8, zoom: u8, x: u32, y: u32) -> (r: Option<Self>)
        ensures
            r == Self::spec_new(scale, zoom, x, y),
            r matches Some(m) ==> m.wf(),
    {
        if !is_power_of_two(scale) {
            return None;
        }
        if zoom >= 100 {
            return None;
        }
        let in_grid = if zoom >= 32 {
            proof {
                lemma_pow2_ge_u32_width(zoom as nat);
            }
            true
        } else {
            let limit = pow2_u32(zoom);
            x < limit && y < limit
        };
        if !in_grid {
            return None;
        }
        let s = scale as u32;
        proof {
            lemma_fundamental_div_mod(x as int, s as int);
            lemma_fundamental_div_mod(y as int, s as int);
            lemma_mul_is_commutative(s as int, (x as int) / (s as int));
            lemma_mul_is_commutative(s as int, (y as int) / (s as int));
            vstd::arithmetic::div_mod::lemma_mod_multiples_basic(
                (x as int) / (s as int),
                s as int,
            );
            vstd::arithmetic::div_mod::lemma_mod_multiples_basic(
                (y as int) / (s as int),
                s as int,
            );
            lemma_div_is_ordered(((x / s) * s) as int, x as int, s as int);
        }
        let sx = (x / s) * s;
        let sy = (y / s) * s;
        Some(Metatile { scale, zoom, x: sx, y: sy })
    }

    /// Scale of this metatile.
    pub fn scale(&self) -> (r: u8)
        ensures
            r == self.scale,
    {
        self.scale
    }

    /// Zoom of this metatile.
    pub fn zoom(&self) -> (r: u8)
        ensures
            r == self.zoom,
    {
        self.zoom
    }

    /// X value of this metatile.
    pub fn x(&self) -> (r: u32)
        ensures
            r == self.x,
    {
        self.x
    }

    /// Y value of this metatile.
    pub fn y(&self) -> (r: u32)
        ensures
            r == self.y,
    {
        self.y
    }

    /// The edge length this metatile really has: the scale, except at low
    /// zoom levels where the whole grid is narrower than the scale.
    pub open spec fn spec_size(self) -> nat {
        if pow2(self.zoom as nat) < self.scale as nat {
            pow2(self.zoom as nat)
        } else {
            self.scale as nat
        }
    }

    /// What is the width or height of this metatile, in tiles.
    pub fn size(&self) -> (r: u8)
        requires
            self.wf(),
        ensures
            r as nat == self.spec_size(),
    {
        if self.zoom >= 8 {
            proof {
                lemma2_to64();
                if self.zoom > 8 {
                    lemma_pow2_strictly_increases(8, self.zoom as nat);
                }
            }
            self.scale
        } else {
            let p = pow2_u32(self.zoom);
            if p < self.scale as u32 {
                p as u8
            } else {
                self.scale
            }
        }
    }

    /// The aligned corner plus the real edge length stays inside both the
    /// zoom grid and the coordinate width.
    pub proof fn lemma_block_in_grid(self)
        requires
            self.wf(),
        ensures
            self.x as nat + self.spec_size() <= pow2(self.zoom as nat),
            self.y as nat + self.spec_size() <= pow2(self.zoom as nat),
            self.x as nat + self.spec_size() <= 0x1_0000_0000,
            self.y as nat + self.spec_size() <= 0x1_0000_0000,
    {
        lemma2_to64();
        let s = self.scale as nat;
        let z = self.zoom as nat;
        if pow2(z) < s {
            // The grid is narrower than the scale: the corner is the
            // origin and the block is the whole grid.
            lemma_small_mod(self.x as nat, s);
            lemma_small_mod(self.y as nat, s);
        } else {
            if z <= 32 {
                lemma_pow2_divides(s, z);
                lemma_mult_below(s, pow2(z), self.x as nat);
                lemma_mult_below(s, pow2(z), self.y as nat);
                if z < 32 {
                    lemma_pow2_strictly_increases(z, 32);
                }
            } else {
                // Deep levels: the grid exceeds the coordinate width, and
                // the corner is bounded by the width instead.
                lemma_pow2_strictly_increases(32, z);
                assert(s <= 256);
                assert(is_pow2(s) && s <= pow2(32)) by {
                    lemma_pow2_strictly_increases(8, 32);
                };
                lemma_pow2_divides(s, 32);
                lemma_mult_below(s, pow2(32), self.x as nat);
                lemma_mult_below(s, pow2(32), self.y as nat);
            }
        }
    }

    /// The constituent tiles of this metatile, in row-major order with the
    /// outer loop over the x offset.
    pub fn tiles(&self) -> (r: Vec<Tile>)
        requires
            self.wf(),
        ensures
            r@.len() == self.spec_size() * self.spec_size(),
            forall|n: int|
                0 <= n < r@.len() ==> #[trigger] r@[n] == (Tile {
                    zoom: self.zoom,
                    x: (self.x + n / self.spec_size() as int) as u32,
                    y: (self.y + n % self.spec_size() as int) as u32,
                }),
            forall|n: int| 0 <= n < r@.len() ==> #[trigger] r@[n].wf(),
    {
        let size = self.size() as u32;
        proof {
            self.lemma_block_in_grid();
            lemma_pow2_pos(self.zoom as nat);
        }
        proof {
            lemma_mul_upper_bound(size as int, 255, size as int, 255);
        }
        let total = size * size;
        let mut v: Vec<Tile> = Vec::new();
        let mut n: u32 = 0;
        while n < total
            invariant
                self.wf(),
                size as nat == self.spec_size(),
                1 <= size,
                total == size * size,
                self.x as nat + size as nat <= pow2(self.zoom as nat),
                self.y as nat + size as nat <= pow2(self.zoom as nat),
                self.x as nat + size as nat <= 0x1_0000_0000,
                self.y as nat + size as nat <= 0x1_0000_0000,
                n <= total,
                v@.len() == n,
                forall|m: int|
                    0 <= m < v@.len() ==> #[trigger] v@[m] == (Tile {
                        zoom: self.zoom,
                        x: (self.x + m / self.spec_size() as int) as u32,
                        y: (self.y + m % self.spec_size() as int) as u32,
                    }),
                forall|m: int| 0 <= m < v@.len() ==> #[trigger] v@[m].wf(),
            decreases total - n,
        {
            let i = n / size;
            let j = n % size;
            proof {
                assert(i < size) by {
                    vstd::arithmetic::div_mod::lemma_multiply_divide_lt(
                        n as int,
                        size as int,
                        size as int,
                    );
                };
            }
            v.push(Tile { zoom: self.zoom, x: self.x + i, y: self.y + j });
            n = n + 1;
        }
        v
    }
}

/// Metatiles as used by the nibble-interleaved cache layout: always 8 by 8.
#[derive(PartialEq, Eq, Structural, Debug, Clone, Copy, Hash)]
pub struct ModTileMetatile {
    pub inner: Metatile,
}

impl ModTileMetatile {
    /// The value `ModTileMetatile::new` owes: the containing 8-block, under
    /// the tile validity checks.
    pub open spec fn spec_new(zoom: u8, x: u32, y: u32) -> Option<ModTileMetatile> {
        match Metatile::spec_new(8, zoom, x, y) {
            None => None,
            Some(inner) => Some(ModTileMetatile { inner }),
        }
    }

    /// Constructs the 8 by 8 metatile containing tile `(zoom, x, y)`.
    pub fn new(zoom: u8, x: u32, y: u32) -> (r: Option<Self>)
        ensures
            r == Self::spec_new(zoom, x, y),
            r matches Some(m) ==> m.inner.wf(),
    {
        match Metatile::new(8, zoom, x, y) {
            None => None,
            Some(inner) => Some(ModTileMetatile { inner }),
        }
    }

    /// Returns the nibble-interleaved path for storing this metatile.
    pub fn path(&self, ext: &str) -> (r: String)
        ensures
            r@ == spec_mt_path(
                self.inner.zoom as nat,
                self.inner.x as nat,
                self.inner.y as nat,
                ext@,
            ),
    {
        let corner = Tile { zoom: self.inner.zoom, x: self.inner.x, y: self.inner.y };
        corner.mt_path(ext)
    }
}

impl Tile {
    /// The metatile of the given scale that this tile belongs to.
    pub fn metatile(&self, scale: u8) -> (r: Option<Metatile>)
        ensures
            r == Metatile::spec_new(scale, self.zoom, self.x, self.y),
            r matches Some(m) ==> m.wf(),
    {
        Metatile::new(scale, self.zoom, self.x, self.y)
    }

    /// The 8 by 8 metatile that this tile belongs to.
    pub fn modtile_metatile(&self) -> (r: Option<ModTileMetatile>)
        ensures
            r == ModTileMetatile::spec_new(self.zoom, self.x, self.y),
            r matches Some(m) ==> m.inner.wf(),
    {
        ModTileMetatile::new(self.zoom, self.x, self.y)
    }
}

/// The first metatile slot a level's walk starts from: the region's
/// north-west corner in slot units, or the origin for the whole world.
pub open spec fn start_at(scale: nat, bbox: Option<TileBounds>, zoom: nat) -> (nat, nat) {
    match bbox {
        None => (0, 0),
        Some(b) => (b.x1_at(zoom) / scale, b.y1_at(zoom) / scale),
    }
}

/// The extent a level's walk scans before moving on: for a region, the
/// corner distance in whole tiles; for the whole world, the last slot
/// index.
pub open spec fn wh_at(scale: nat, bbox: Option<TileBounds>, zoom: nat) -> (nat, nat) {
    match bbox {
        None => (level_max(zoom) / scale, level_max(zoom) / scale),
        Some(b) => (
            (b.x2_at(zoom) - b.x1_at(zoom)) as nat,
            (b.y2_at(zoom) - b.y1_at(zoom)) as nat,
        ),
    }
}

/// Where the walk emits next, searching from `(zoom, zorder)`: the first
/// slot inside the level's extent, in Z-order.  A slot beyond the extent on
/// one axis only is skipped; a slot beyond it on both axes ends the level,
/// and is itself emitted exactly when it sits on the extent's diagonal
/// corner.
pub open spec fn next_emit_at(
    scale: nat,
    maxzoom: nat,
    bbox: Option<TileBounds>,
    zoom: nat,
    zorder: nat,
) -> Option<(nat, nat)>
    decreases maxzoom + 1 - zoom, 0x1_0000_0000_0000_0000 - zorder,
{
    if zoom > maxzoom {
        None
    } else if zorder >= 0x1_0000_0000_0000_0000 {
        None
    } else {
        let i = unord_x(zorder);
        let j = unord_y(zorder);
        let w = wh_at(scale, bbox, zoom).0;
        let h = wh_at(scale, bbox, zoom).1;
        if i >= w && j >= h {
            if i == w && j == w {
                Some((zoom, zorder))
            } else {
                next_emit_at(scale, maxzoom, bbox, zoom + 1, 0)
            }
        } else if i > w || j > h {
            next_emit_at(scale, maxzoom, bbox, zoom, zorder + 1)
        } else {
            Some((zoom, zorder))
        }
    }
}

/// The Z-order index of the last slot of a whole-world level: the code of
/// the level's south-east slot.
pub open spec fn world_corner(scale: nat, zoom: nat) -> nat {
    zord(level_max(zoom) / scale, level_max(zoom) / scale)
}

/// Searching anywhere up to the last slot of a whole-world level, the walk
/// finds a slot to emit at that very level, inside the level's extent.
pub proof fn lemma_world_emit(scale: nat, maxzoom: nat, zoom: nat, zorder: nat)
    requires
        scale >= 1,
        zoom <= maxzoom,
        maxzoom <= 32,
        zorder <= world_corner(scale, zoom),
    ensures
        next_emit_at(scale, maxzoom, None, zoom, zorder) matches Some(pos) && pos.0 == zoom
            && unord_x(pos.1) <= level_max(zoom) / scale && unord_y(pos.1) <= level_max(zoom)
            / scale,
    decreases world_corner(scale, zoom) - zorder,
{
    let w = level_max(zoom) / scale;
    let i = unord_x(zorder);
    let j = unord_y(zorder);
    lemma2_to64();
    vstd::arithmetic::power2::lemma2_to64_rest();
    assert(w < pow2(32)) by {
        vstd::arithmetic::div_mod::lemma_div_nonincreasing(level_max(zoom) as int, scale as int);
        if zoom < 32 {
            lemma_pow2_strictly_increases(zoom as nat, 32);
        }
    };
    lemma_zord_bound(w, w, 32);
    lemma_zord_unord(zorder);
    lemma_unord_zord(w, w);
    if i >= w && j >= w {
        lemma_zord_monotonic(w, w, i, j);
        assert(i == w && j == w);
    } else if i > w || j > w {
        assert(zorder != world_corner(scale, zoom));
        lemma_world_emit(scale, maxzoom, zoom, zorder + 1);
    }
}

/// Iterates over the metatiles of the world, or of a query region, one
/// zoom level at a time and in Z-order inside each level.
#[derive(Debug)]
pub struct MetatilesIterator {
    pub scale: u8,
    pub curr_zoom: u8,
    pub maxzoom: u8,
    pub curr_zorder: u64,
    pub bbox: Option<TileBounds>,
    pub curr_zoom_width_height: Option<(u32, u32)>,
    pub curr_zoom_start_xy: Option<(u32, u32)>,
}

impl MetatilesIterator {
    /// The cached slot origin matches the current level of the walk.
    pub open spec fn start_cached(self) -> bool {
        self.curr_zoom_start_xy matches Some(st) && st.0 as nat == start_at(
            self.scale as nat,
            self.bbox,
            self.curr_zoom as nat,
        ).0 && st.1 as nat == start_at(self.scale as nat, self.bbox, self.curr_zoom as nat).1
    }

    /// The cached level extent matches the current level of the walk.
    pub open spec fn wh_cached(self) -> bool {
        self.curr_zoom_width_height matches Some(wh) && wh.0 as nat == wh_at(
            self.scale as nat,
            self.bbox,
            self.curr_zoom as nat,
        ).0 && wh.1 as nat == wh_at(self.scale as nat, self.bbox, self.curr_zoom as nat).1
    }

    /// The scale is a power of two, the zoom cursor stays within one step
    /// of the last level, and the cached per-level slot origin and extent
    /// agree with the region while the walk is inside its levels.
    pub open spec fn wf(self) -> bool {
        &&& is_pow2(self.scale as nat)
        &&& self.maxzoom <= 32
        &&& self.curr_zoom <= self.maxzoom + 1
        &&& match self.bbox {
            None => {
                &&& self.curr_zoom_width_height is None
                &&& self.curr_zoom_start_xy is None
                &&& (self.curr_zoom <= self.maxzoom ==> self.curr_zorder as nat <= world_corner(
                    self.scale as nat,
                    self.curr_zoom as nat,
                ))
            },
            Some(b) => {
                &&& b.wf()
                &&& (self.curr_zoom <= self.maxzoom ==> self.start_cached())
                &&& (self.curr_zoom <= self.maxzoom ==> self.wh_cached())
            },
        }
    }

    /// Iterates over every metatile of the world with the given scale.
    pub fn all(scale: u8) -> (r: Self)
        requires
            is_pow2(scale as nat),
        ensures
            r.wf(),
            r.scale == scale,
            r.curr_zoom == 0,
            r.maxzoom == 32,
            r.curr_zorder == 0,
            r.bbox is None,
    {
        MetatilesIterator {
            scale,
            curr_zoom: 0,
            maxzoom: 32,
            curr_zorder: 0,
            bbox: None,
            curr_zoom_width_height: None,
            curr_zoom_start_xy: None,
        }
    }

    /// Iterates over the metatiles meeting a query region, from zoom 0
    /// through zoom 32.
    pub fn new_for_bbox(scale: u8, bbox: &TileBounds) -> (r: Self)
        requires
            is_pow2(scale as nat),
            bbox.wf(),
        ensures
            r.wf(),
            r.scale == scale,
            r.curr_zoom == 0,
            r.maxzoom == 32,
            r.curr_zorder == 0,
            r.bbox == Some(*bbox),
    {
        MetatilesIterator::new_for_bbox_zoom(scale, &Some(*bbox), 0, 32)
    }

    /// Iterates over the metatiles of the zoom levels `minzoom` through
    /// `maxzoom`; `None` for the region means the whole world.
    pub fn new_for_bbox_zoom(
        scale: u8,
        bbox: &Option<TileBounds>,
        minzoom: u8,
        maxzoom: u8,
    ) -> (r: Self)
        requires
            is_pow2(scale as nat),
            bbox matches Some(b) ==> b.wf(),
            minzoom <= maxzoom,
            maxzoom <= 32,
        ensures
            r.wf(),
            r.scale == scale,
            r.curr_zoom == minzoom,
            r.maxzoom == maxzoom,
            r.curr_zorder == 0,
            r.bbox == *bbox,
    {
        let mut it = MetatilesIterator {
            scale,
            curr_zoom: minzoom,
            curr_zorder: 0,
            bbox: *bbox,
            maxzoom,
            curr_zoom_width_height: None,
            curr_zoom_start_xy: None,
        };
        it.set_zoom_width_height();
        it.set_zoom_start_xy();
        it
    }

    /// Caches the level extent of the current zoom, for a region walk.
    fn set_zoom_width_height(&mut self)
        requires
            old(self).maxzoom <= 32,
            old(self).bbox matches Some(b) ==> b.wf(),
        ensures
            final(self).scale == old(self).scale,
            final(self).curr_zoom == old(self).curr_zoom,
            final(self).maxzoom == old(self).maxzoom,
            final(self).curr_zorder == old(self).curr_zorder,
            final(self).bbox == old(self).bbox,
            final(self).curr_zoom_start_xy == old(self).curr_zoom_start_xy,
            old(self).bbox is None || old(self).curr_zoom > old(self).maxzoom ==> final(self).curr_zoom_width_height == old(self).curr_zoom_width_height,
            old(self).bbox is Some && old(self).curr_zoom <= old(self).maxzoom ==> final(self).wh_cached(),
    {
        let zoom = self.curr_zoom;
        if zoom > self.maxzoom {
            return ;
        }
        match self.bbox {
            None => {},
            Some(b) => {
                let x1 = shift_to_zoom(b.x1, zoom);
                let y1 = shift_to_zoom(b.y1, zoom);
                let x2 = shift_to_zoom(b.x2, zoom);
                let y2 = shift_to_zoom(b.y2, zoom);
                proof {
                    let d = pow2((32 - zoom) as nat) as int;
                    vstd::arithmetic::power2::lemma_pow2_pos((32 - zoom) as nat);
                    lemma_div_is_ordered(b.x1 as int, b.x2 as int, d);
                    lemma_div_is_ordered(b.y1 as int, b.y2 as int, d);
                }
                let width = x2 - x1;
                let height = y2 - y1;
                self.curr_zoom_width_height = Some((width, height));
            },
        }
    }

    /// Caches the slot origin of the current zoom, for a region walk.
    fn set_zoom_start_xy(&mut self)
        requires
            old(self).maxzoom <= 32,
            is_pow2(old(self).scale as nat),
            old(self).bbox matches Some(b) ==> b.wf(),
        ensures
            final(self).scale == old(self).scale,
            final(self).curr_zoom == old(self).curr_zoom,
            final(self).maxzoom == old(self).maxzoom,
            final(self).curr_zorder == old(self).curr_zorder,
            final(self).bbox == old(self).bbox,
            final(self).curr_zoom_width_height == old(self).curr_zoom_width_height,
            old(self).bbox is None || old(self).curr_zoom > old(self).maxzoom ==> final(self).curr_zoom_start_xy == old(self).curr_zoom_start_xy,
            old(self).bbox is Some && old(self).curr_zoom <= old(self).maxzoom ==> final(self).start_cached(),
    {
        let zoom = self.curr_zoom;
        if zoom > self.maxzoom {
            return ;
        }
        match self.bbox {
            None => {},
            Some(b) => {
                let x1 = shift_to_zoom(b.x1, zoom);
                let y1 = shift_to_zoom(b.y1, zoom);
                proof {
                    assert(self.scale as nat >= 1);
                }
                self.curr_zoom_start_xy = Some((x1 / self.scale as u32, y1 / self.scale as u32));
            },
        }
    }

    /// Emits the metatile of the next slot the walk accepts, and moves the
    /// cursor past it; `None` once the walk has passed the last level, or
    /// for a slot whose tile address leaves the coordinate width.
    pub fn next(&mut self) -> (r: Option<Metatile>)
        requires
            old(self).wf(),
        ensures
            final(self).wf(),
            final(self).scale == old(self).scale,
            final(self).maxzoom == old(self).maxzoom,
            final(self).bbox == old(self).bbox,
            old(self).bbox is None && old(self).curr_zoom <= old(self).maxzoom ==> r is Some,
            match next_emit_at(
                old(self).scale as nat,
                old(self).maxzoom as nat,
                old(self).bbox,
                old(self).curr_zoom as nat,
                old(self).curr_zorder as nat,
            ) {
                None => r is None && final(self).curr_zoom > final(self).maxzoom,
                Some(pos) => {
                    let i = unord_x(pos.1);
                    let j = unord_y(pos.1);
                    let st = start_at(old(self).scale as nat, old(self).bbox, pos.0);
                    let ex = wh_at(old(self).scale as nat, old(self).bbox, pos.0);
                    let xt = (st.0 + i) * old(self).scale as nat;
                    let yt = (st.1 + j) * old(self).scale as nat;
                    &&& (xt <= u32::MAX && yt <= u32::MAX ==> r == Metatile::spec_new(
                        old(self).scale,
                        pos.0 as u8,
                        xt as u32,
                        yt as u32,
                    ))
                    &&& (!(xt <= u32::MAX && yt <= u32::MAX) ==> r is None)
                    &&& (if i >= ex.0 && j >= ex.1 {
                        final(self).curr_zoom == pos.0 + 1 && final(self).curr_zorder == 0
                    } else {
                        final(self).curr_zoom == pos.0 && final(self).curr_zorder == pos.1 + 1
                    })
                },
            },
    {
        let ghost cfg_scale = self.scale as nat;
        let ghost cfg_max = self.maxzoom as nat;
        let ghost cfg_bbox = self.bbox;
        let ghost start_zoom = self.curr_zoom as nat;
        let ghost start_zorder = self.curr_zorder as nat;
        let mut found = false;
        let mut emit_zoom: u8 = 0;
        let mut emit_xs: u64 = 0;
        let mut emit_ys: u64 = 0;
        let ghost mut emit_pos: (nat, nat) = (0, 0);
        while !found && self.curr_zoom <= self.maxzoom
            invariant
                self.wf(),
                self.scale as nat == cfg_scale,
                self.maxzoom as nat == cfg_max,
                self.bbox == cfg_bbox,
                next_emit_at(cfg_scale, cfg_max, cfg_bbox, start_zoom, start_zorder) == (
                if found {
                    Some(emit_pos)
                } else {
                    next_emit_at(
                        cfg_scale,
                        cfg_max,
                        cfg_bbox,
                        self.curr_zoom as nat,
                        self.curr_zorder as nat,
                    )
                }),
                found ==> emit_zoom as nat == emit_pos.0,
                found ==> emit_xs as nat == start_at(cfg_scale, cfg_bbox, emit_pos.0).0 + unord_x(
                    emit_pos.1,
                ),
                found ==> emit_ys as nat == start_at(cfg_scale, cfg_bbox, emit_pos.0).1 + unord_y(
                    emit_pos.1,
                ),
                found ==> emit_xs < 0x2_0000_0000 && emit_ys < 0x2_0000_0000,
                found ==> (if unord_x(emit_pos.1) >= wh_at(cfg_scale, cfg_bbox, emit_pos.0).0
                    && unord_y(emit_pos.1) >= wh_at(cfg_scale, cfg_bbox, emit_pos.0).1 {
                    self.curr_zoom as nat == emit_pos.0 + 1 && self.curr_zorder == 0
                } else {
                    self.curr_zoom as nat == emit_pos.0 && self.curr_zorder as nat == emit_pos.1
                        + 1
                }),
            decreases self.maxzoom + 1 - self.curr_zoom, u64::MAX - self.curr_zorder,
        {
            let zoom = self.curr_zoom;
            let ghost zo = self.curr_zorder as nat;
            let (i, j) = zorder_to_xy(self.curr_zorder);
            let (xs, ys) = match self.curr_zoom_start_xy {
                None => (i as u64, j as u64),
                Some(start) => ((start.0 as u64) + (i as u64), (start.1 as u64) + (j as u64)),
            };
            let (width, height) = match self.curr_zoom_width_height {
                None => {
                    let max_slot = level_max_u32(zoom) / (self.scale as u32);
                    proof {
                        assert(self.scale as nat >= 1);
                    }
                    (max_slot, max_slot)
                },
                Some(wh) => wh,
            };
            proof {
                assert(self.scale >= 1);
                assert(width as nat == wh_at(cfg_scale, cfg_bbox, zoom as nat).0);
                assert(height as nat == wh_at(cfg_scale, cfg_bbox, zoom as nat).1);
                assert(xs as nat == start_at(cfg_scale, cfg_bbox, zoom as nat).0 + unord_x(zo));
                assert(ys as nat == start_at(cfg_scale, cfg_bbox, zoom as nat).1 + unord_y(zo));
            }
            if i >= width && j >= height {
                let at_corner = i == width && j == width;
                self.curr_zoom = zoom + 1;
                self.curr_zorder = 0;
                self.set_zoom_start_xy();
                self.set_zoom_width_height();
                if at_corner {
                    emit_zoom = zoom;
                    emit_xs = xs;
                    emit_ys = ys;
                    found = true;
                    proof {
                        emit_pos = (zoom as nat, zo);
                    }
                }
            } else if i > width || j > height {
                proof {
                    if self.curr_zorder == u64::MAX {
                        lemma2_to64();
                        vstd::arithmetic::power2::lemma2_to64_rest();
                        lemma_zord_corner(32);
                        lemma_unord_zord((pow2(32) - 1) as nat, (pow2(32) - 1) as nat);
                        assert(false);
                    }
                    if cfg_bbox is None {
                        let w = level_max(zoom as nat) / cfg_scale;
                        lemma_unord_zord(w, w);
                        lemma_zord_unord(zo);
                    }
                }
                self.curr_zorder = self.curr_zorder + 1;
            } else {
                emit_zoom = zoom;
                emit_xs = xs;
                emit_ys = ys;
                found = true;
                proof {
                    emit_pos = (zoom as nat, zo);
                    if self.curr_zorder == u64::MAX {
                        lemma2_to64();
                        vstd::arithmetic::power2::lemma2_to64_rest();
                        lemma_zord_corner(32);
                        lemma_unord_zord((pow2(32) - 1) as nat, (pow2(32) - 1) as nat);
                        assert(false);
                    }
                    if cfg_bbox is None {
                        let w = level_max(zoom as nat) / cfg_scale;
                        lemma_unord_zord(w, w);
                        lemma_zord_unord(zo);
                    }
                }
                self.curr_zorder = self.curr_zorder + 1;
            }
        }
        if !found {
            proof {
                if cfg_bbox is None && start_zoom <= cfg_max {
                    assert(cfg_scale >= 1);
                    lemma_world_emit(cfg_scale, cfg_max, start_zoom, start_zorder);
                    assert(false);
                }
            }
            return None;
        }
        let scale64 = self.scale as u64;
        proof {
            if cfg_bbox is None {
                assert(cfg_scale >= 1);
                if start_zoom > cfg_max {
                    assert(false);
                }
                lemma_world_emit(cfg_scale, cfg_max, start_zoom, start_zorder);
                let w = level_max(emit_pos.0) / cfg_scale;
                // The emitted slot is inside the level, so its tile address
                // stays inside the grid and the coordinate width.
                vstd::arithmetic::div_mod::lemma_fundamental_div_mod(
                    level_max(emit_pos.0) as int,
                    cfg_scale as int,
                );
                lemma_mul_is_commutative(cfg_scale as int, w as int);
                lemma_mul_inequality(emit_xs as int, w as int, cfg_scale as int);
                lemma_mul_inequality(emit_ys as int, w as int, cfg_scale as int);
                lemma2_to64();
                if emit_pos.0 < 32 {
                    lemma_pow2_strictly_increases(emit_pos.0, 32);
                }
            }
        }
        proof {
            vstd::arithmetic::mul::lemma_mul_upper_bound(
                emit_xs as int,
                0x2_0000_0000,
                scale64 as int,
                256,
            );
            vstd::arithmetic::mul::lemma_mul_upper_bound(
                emit_ys as int,
                0x2_0000_0000,
                scale64 as int,
                256,
            );
        }
        let xt = emit_xs * scale64;
        let yt = emit_ys * scale64;
        if xt > (u32::MAX as u64) || yt > (u32::MAX as u64) {
            return None;
        }
        Metatile::new(self.scale, emit_zoom, xt as u32, yt as u32)
    }
}

impl Metatile {
    /// Iterates over every metatile of the world with the given scale,
    /// which must be a power of two.
    pub fn all(scale: u8) -> (r: MetatilesIterator)
        requires
            is_pow2(scale as nat),
        ensures
            r.wf(),
            r.scale == scale,
            r.curr_zoom == 0,
            r.maxzoom == 32,
            r.curr_zorder == 0,
            r.bbox is None,
    {
        MetatilesIterator::all(scale)
    }
}


} // verus!
