use slippy_map_tiles::{BBoxTilesIterator, Metatile, MetatilesIterator, Tile, TileBounds};

/// Forward Web-Mercator projection of a geographic point onto the tile
/// grid of the reference zoom 32, with the latitude clamped to the
/// projection's limit.  Coordinates are stored single-precision, as the
/// geodata this models is.
fn to_zoom32(lat: f64, lon: f64) -> (u32, u32) {
    let max_lat: f64 = std::f64::consts::PI.sinh().atan();
    let lat = (lat as f32) as f64;
    let lon = (lon as f32) as f64;
    let lat = lat.to_radians();
    let lat = if lat > max_lat {
        max_lat
    } else if lat < -max_lat {
        -max_lat
    } else {
        lat
    };
    let n: f64 = 2f64.powi(32);
    let x = (n * ((lon + 180.0) / 360.0)).trunc() as u32;
    let y = (n * (1.0 - ((lat.tan() + 1.0 / lat.cos()).ln() / std::f64::consts::PI)) / 2.0)
        .trunc() as u32;
    (x, y)
}

/// The reference-grid region of a geographic box given as top, left,
/// bottom, right.
fn bounds_of(top: f64, left: f64, bottom: f64, right: f64) -> TileBounds {
    let (x1, y1) = to_zoom32(top, left);
    let (x2, y2) = to_zoom32(bottom, right);
    TileBounds::new(x1, y1, x2, y2).unwrap()
}

#[test]
fn bbox_tile_iter() {
    // left=-11.32 bottom=51.11 right=-4.97 top=55.7
    let ie_bbox = bounds_of(55.7, -11.32, 51.11, -4.97);
    let mut tiles = BBoxTilesIterator::new(ie_bbox);
    assert_eq!(tiles.next(), Tile::new(0, 0, 0));
    assert_eq!(tiles.next(), Tile::new(1, 0, 0));
    assert_eq!(tiles.next(), Tile::new(2, 1, 1));
    assert_eq!(tiles.next(), Tile::new(3, 3, 2));
    assert_eq!(tiles.next(), Tile::new(4, 7, 5));
    assert_eq!(tiles.next(), Tile::new(5, 14, 10));
    assert_eq!(tiles.next(), Tile::new(5, 15, 10));
    assert_eq!(tiles.next(), Tile::new(6, 29, 20));
    assert_eq!(tiles.next(), Tile::new(6, 29, 21));
}

#[test]
fn test_metatile_subtiles_bbox1() {
    // left=-11.32 bottom=51.11 right=-4.97 top=55.7
    let ie_bbox = bounds_of(55.7, -11.32, 51.11, -4.97);
    let mut metatiles = MetatilesIterator::new_for_bbox(8, &ie_bbox);
    assert_eq!(metatiles.next(), Metatile::new(8, 0, 0, 0));
    assert_eq!(metatiles.next(), Metatile::new(8, 1, 0, 0));
    assert_eq!(metatiles.next(), Metatile::new(8, 2, 0, 0));
    assert_eq!(metatiles.next(), Metatile::new(8, 3, 0, 0));
    assert_eq!(metatiles.next(), Metatile::new(8, 4, 0, 0));
    assert_eq!(metatiles.next(), Metatile::new(8, 5, 8, 8));

    assert_eq!(metatiles.next(), Metatile::new(8, 6, 24, 16));
    assert_eq!(metatiles.next(), Metatile::new(8, 6, 32, 16));
    assert_eq!(metatiles.next(), Metatile::new(8, 6, 24, 24));
    assert_eq!(metatiles.next(), Metatile::new(8, 6, 32, 24));
    assert_eq!(metatiles.next(), Metatile::new(8, 6, 40, 16));

    assert_eq!(metatiles.next(), Metatile::new(8, 7, 56, 40));
    assert_eq!(metatiles.next(), Metatile::new(8, 7, 64, 40));
    assert_eq!(metatiles.next(), Metatile::new(8, 7, 56, 48));
    assert_eq!(metatiles.next(), Metatile::new(8, 7, 64, 48));
    assert_eq!(metatiles.next(), Metatile::new(8, 7, 72, 40));
    assert_eq!(metatiles.next(), Metatile::new(8, 7, 80, 40));
    assert_eq!(metatiles.next(), Metatile::new(8, 7, 72, 48));
    assert_eq!(metatiles.next(), Metatile::new(8, 7, 80, 48));
    assert_eq!(metatiles.next(), Metatile::new(8, 7, 56, 56));
    assert_eq!(metatiles.next(), Metatile::new(8, 7, 64, 56));
    assert_eq!(metatiles.next(), Metatile::new(8, 7, 72, 56));
}

#[test]
fn test_metatile_subtiles_bbox2() {
    let ie_bbox = bounds_of(55.7, -11.32, 51.11, -4.97);
    let mut metatiles = MetatilesIterator::new_for_bbox_zoom(8, &Some(ie_bbox), 0, 5);
    assert_eq!(metatiles.next(), Metatile::new(8, 0, 0, 0));
    assert_eq!(metatiles.next(), Metatile::new(8, 1, 0, 0));
    assert_eq!(metatiles.next(), Metatile::new(8, 2, 0, 0));
    assert_eq!(metatiles.next(), Metatile::new(8, 3, 0, 0));
    assert_eq!(metatiles.next(), Metatile::new(8, 4, 0, 0));
}

#[test]
fn test_metatile_subtiles_bbox3() {
    let ie_bbox = bounds_of(55.7, -11.32, 51.11, -4.97);
    let mut metatiles = MetatilesIterator::new_for_bbox_zoom(8, &Some(ie_bbox), 5, 5);
    assert_eq!(metatiles.next(), Metatile::new(8, 5, 8, 8));
    assert_eq!(metatiles.next(), None);
}

#[test]
fn tile_bounds_ordering() {
    assert!(TileBounds::new(5, 5, 1, 1).is_none());
    assert!(TileBounds::new(1, 5, 5, 1).is_none());
    let b = TileBounds::new(1, 1, 5, 5).unwrap();
    assert_eq!(b.x1, 1);
    assert_eq!(b.y2, 5);
}

#[test]
fn whole_world_metatiles_via_bbox_zoom() {
    // `None` for the region means the whole world.
    let mut metatiles = MetatilesIterator::new_for_bbox_zoom(8, &None, 0, 32);
    assert_eq!(metatiles.next(), Metatile::new(8, 0, 0, 0));
    assert_eq!(metatiles.next(), Metatile::new(8, 1, 0, 0));
    assert_eq!(metatiles.next(), Metatile::new(8, 2, 0, 0));
}
