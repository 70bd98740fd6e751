//! Tile addressing for slippy maps.
//!
//! The world is cut into a quad-tree of square tiles: at zoom level `z` the
//! map is a `2^z` by `2^z` grid, and every tile splits into four tiles one
//! level down.  This crate models tile and metatile coordinates, navigation
//! between levels, breadth-first and Z-order enumeration of the tree,
//! bounding-box pruning in tile space, and the directory layouts that tile
//! caches use on disk.

mod arith;
pub mod bounds;
pub mod tile;
pub mod tms;
pub mod iterators;
pub mod metatile;
pub mod paths;
pub mod zorder;

pub use bounds::{TileBounds, BBoxTilesIterator};
pub use tile::Tile;
pub use iterators::{AllTilesIterator, AllTilesToZoomIterator, AllSubTilesIterator, num_tiles_in_zoom, remaining_in_this_zoom};
pub use metatile::{Metatile, MetatilesIterator, ModTileMetatile};
pub use paths::{xy_to_tc, xy_to_mp, xy_to_ts, xy_to_mt};
pub use zorder::{xy_to_zorder, zorder_to_xy};
