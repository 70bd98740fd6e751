//! The `Tile` coordinate type and navigation between zoom levels.

use vstd::prelude::*;
use vstd::arithmetic::power2::{pow2, lemma_pow2_adds};
use crate::arith::{pow2_u32, lemma_pow2_ge_u32_width};

verus! {

/// One cell of the quad-tree partition of the world, addressed by
/// `(zoom, x, y)`.  `x` runs east from the west edge of the map, `y` runs
/// south from the north edge.
#[derive(PartialEq, Eq, Structural, Debug, Clone, Copy, Hash)]
pub struct Tile {
    pub zoom: u8,
    pub x: u32,
    pub y: u32,
}

impl Tile {
    /// A tile is valid when its zoom is below 100 and its coordinates lie
    /// inside the `2^zoom` by `2^zoom` grid of that level.
    pub open spec fn wf(self) -> bool {
        &&& self.zoom < 100
        &&& (self.x as nat) < pow2(self.zoom as nat)
        &&& (self.y as nat) < pow2(self.zoom as nat)
    }

    /// The value `Tile::new` owes for the given arguments.
    pub open spec fn spec_new(zoom: u8, x: u32, y: u32) -> Option<Tile> {
        if zoom < 100 && (x as nat) < pow2(zoom as nat) && (y as nat) < pow2(zoom as nat) {
            Some(Tile { zoom, x, y })
        } else {
            None
        }
    }

    /// Constructs a tile from zoom, x and y.  Returns `None` when the zoom is
    /// 100 or more, or when either coordinate falls outside the grid of that
    /// zoom level.
    pub fn new(zoom: u8, x: u32, y: u32) -> (r: Option<Tile>)
        ensures
            r == Self::spec_new(zoom, x, y),
            r matches Some(t) ==> t.wf(),
    {
        if zoom >= 100 {
            None
        } else if zoom >= 32 {
            proof {
                lemma_pow2_ge_u32_width(zoom as nat);
            }
            Some(Tile { zoom, x, y })
        } else {
            let limit = pow2_u32(zoom);
            if x < limit && y < limit {
                Some(Tile { zoom, x, y })
            } else {
                None
            }
        }
    }

    /// Zoom of this tile.
    pub fn zoom(&self) -> (r: u8)
        ensures
            r == self.zoom,
    {
        self.zoom
    }

    /// X value of this tile.
    pub fn x(&self) -> (r: u32)
        ensures
            r == self.x,
    {
        self.x
    }

    /// Y value of this tile.
    pub fn y(&self) -> (r: u32)
        ensures
            r == self.y,
    {
        self.y
    }

    /// The tile one zoom level up that contains this tile.
    pub open spec fn spec_parent(self) -> Tile {
        Tile { zoom: (self.zoom - 1) as u8, x: self.x / 2, y: self.y / 2 }
    }

    /// Returns the parent tile, i.e. the tile at `zoom - 1` that this tile is
    /// inside.  Returns `None` only at zoom 0, where there is no parent.
    pub fn parent(&self) -> (r: Option<Tile>)
        requires
            self.wf(),
        ensures
            self.zoom == 0 ==> r is None,
            self.zoom > 0 ==> r == Some(self.spec_parent()) && self.spec_parent().wf(),
    {
        if self.zoom == 0 {
            None
        } else {
            proof {
                vstd::arithmetic::power2::lemma2_to64();
                lemma_pow2_adds(1, (self.zoom - 1) as nat);
            }
            Some(Tile { zoom: self.zoom - 1, x: self.x / 2, y: self.y / 2 })
        }
    }

    /// Whether the four children of this tile are themselves representable:
    /// their zoom must stay below 100 and their doubled coordinates must fit
    /// the coordinate width.
    pub open spec fn has_subtiles(self) -> bool {
        self.zoom < 99 && self.x < 0x8000_0000u32 && self.y < 0x8000_0000u32
    }

    /// The four children of this tile, in the fixed order top-left,
    /// top-right, bottom-left, bottom-right.
    pub open spec fn spec_subtiles(self) -> Seq<Tile> {
        let z = (self.zoom + 1) as u8;
        seq![
            Tile { zoom: z, x: (self.x * 2) as u32, y: (self.y * 2) as u32 },
            Tile { zoom: z, x: (self.x * 2 + 1) as u32, y: (self.y * 2) as u32 },
            Tile { zoom: z, x: (self.x * 2) as u32, y: (self.y * 2 + 1) as u32 },
            Tile { zoom: z, x: (self.x * 2 + 1) as u32, y: (self.y * 2 + 1) as u32 },
        ]
    }

    /// Returns the four subtiles (children) at `zoom + 1` that cover this
    /// tile, or `None` when no valid children exist because the zoom cap or
    /// the coordinate width is reached.
    pub fn subtiles(&self) -> (r: Option<[Tile; 4]>)
        requires
            self.wf(),
        ensures
            r is Some <==> self.has_subtiles(),
            r matches Some(arr) ==> arr@ == self.spec_subtiles(),
            r matches Some(arr) ==> forall|i: int| 0 <= i < 4 ==> #[trigger] arr[i].wf(),
    {
        if self.zoom >= 99 || self.x >= 0x8000_0000u32 || self.y >= 0x8000_0000u32 {
            None
        } else {
            let z = self.zoom + 1;
            let x = self.x * 2;
            let y = self.y * 2;
            proof {
                vstd::arithmetic::power2::lemma2_to64();
                lemma_pow2_adds(self.zoom as nat, 1);
            }
            let arr = [
                Tile { zoom: z, x, y },
                Tile { zoom: z, x: x + 1, y },
                Tile { zoom: z, x, y: y + 1 },
                Tile { zoom: z, x: x + 1, y: y + 1 },
            ];
            proof {
                assert(arr@ =~= self.spec_subtiles());
            }
            Some(arr)
        }
    }
}

/// Every tile below zoom 0 is one of the four subtiles of its parent.
pub proof fn lemma_parent_subtiles_contain(t: Tile)
    requires
        t.wf(),
        t.zoom >= 1,
    ensures
        t.spec_parent().wf(),
        t.spec_parent().has_subtiles(),
        exists|i: int| 0 <= i < 4 && t.spec_parent().spec_subtiles()[i] == t,
{
    vstd::arithmetic::power2::lemma2_to64();
    lemma_pow2_adds(1, (t.zoom - 1) as nat);
    let p = t.spec_parent();
    let i = (t.x % 2) + 2 * (t.y % 2);
    assert(p.spec_subtiles()[i as int] == t);
}

/// The first subtile of the origin tile of any zoom level is the origin tile
/// of the next level.
pub proof fn lemma_origin_first_subtile(zoom: u8)
    requires
        zoom < 99,
    ensures
        (Tile { zoom, x: 0, y: 0 }).spec_subtiles()[0] == (Tile {
            zoom: (zoom + 1) as u8,
            x: 0,
            y: 0,
        }),
{
}

} // verus!
