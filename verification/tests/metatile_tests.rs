use slippy_map_tiles::{Metatile, ModTileMetatile, Tile};

#[test]
fn test_metatile() {
    let mt = Metatile::new(8, 0, 0, 0);
    assert!(mt.is_some());
    let mt = mt.unwrap();
    assert_eq!(mt.scale(), 8);
    assert_eq!(mt.zoom, 0);
    assert_eq!(mt.x, 0);
    assert_eq!(mt.y, 0);

    let mt = Metatile::new(8, 3, 3, 2);
    assert!(mt.is_some());
    let mt = mt.unwrap();
    assert_eq!(mt.zoom, 3);
    assert_eq!(mt.x, 0);
    assert_eq!(mt.y, 0);

    let t = Tile::new(3, 3, 2).unwrap();
    assert_eq!(t.metatile(8), Some(mt));
}

#[test]
fn test_metatile_all() {
    let mut it = Metatile::all(8);

    assert_eq!(it.next(), Metatile::new(8, 0, 0, 0));
    assert_eq!(it.next(), Metatile::new(8, 1, 0, 0));
    assert_eq!(it.next(), Metatile::new(8, 2, 0, 0));
    assert_eq!(it.next(), Metatile::new(8, 3, 0, 0));
    assert_eq!(it.next(), Metatile::new(8, 4, 0, 0));
    assert_eq!(it.next(), Metatile::new(8, 4, 8, 0));
    assert_eq!(it.next(), Metatile::new(8, 4, 0, 8));
    assert_eq!(it.next(), Metatile::new(8, 4, 8, 8));
    assert_eq!(it.next(), Metatile::new(8, 5, 0, 0));

    let mut it = Metatile::all(8);
    let mut z10_count: usize = 0;
    let mut second_z10 = None;
    loop {
        let mt = it.next().unwrap();
        if mt.zoom() >= 11 {
            break;
        }
        if mt.zoom() == 10 {
            z10_count += 1;
            if z10_count == 2 {
                second_z10 = Some(mt);
            }
        }
    }
    assert_eq!(z10_count, 16384);
    assert_eq!(second_z10, Metatile::new(8, 10, 8, 0));
}

#[test]
fn test_metatile_size() {
    assert_eq!(Metatile::new(8, 0, 0, 0).unwrap().size(), 1);
    assert_eq!(Metatile::new(8, 1, 0, 0).unwrap().size(), 2);
    assert_eq!(Metatile::new(8, 2, 0, 0).unwrap().size(), 4);
    assert_eq!(Metatile::new(8, 3, 0, 0).unwrap().size(), 8);
    assert_eq!(Metatile::new(8, 4, 0, 0).unwrap().size(), 8);
    assert_eq!(Metatile::new(8, 5, 0, 0).unwrap().size(), 8);
}

#[test]
fn test_metatile_subtiles() {
    assert_eq!(
        Metatile::new(8, 0, 0, 0).unwrap().tiles(),
        vec![(0, 0, 0)]
            .into_iter()
            .map(|c| Tile::new(c.0, c.1, c.2).unwrap())
            .collect::<Vec<Tile>>()
    );
    assert_eq!(
        Metatile::new(8, 1, 0, 0).unwrap().tiles(),
        vec![(1, 0, 0), (1, 0, 1), (1, 1, 0), (1, 1, 1)]
            .into_iter()
            .map(|c| Tile::new(c.0, c.1, c.2).unwrap())
            .collect::<Vec<Tile>>()
    );
    assert_eq!(
        Metatile::new(8, 2, 0, 0).unwrap().tiles(),
        vec![
            (2, 0, 0),
            (2, 0, 1),
            (2, 0, 2),
            (2, 0, 3),
            (2, 1, 0),
            (2, 1, 1),
            (2, 1, 2),
            (2, 1, 3),
            (2, 2, 0),
            (2, 2, 1),
            (2, 2, 2),
            (2, 2, 3),
            (2, 3, 0),
            (2, 3, 1),
            (2, 3, 2),
            (2, 3, 3),
        ]
        .into_iter()
        .map(|c| Tile::new(c.0, c.1, c.2).unwrap())
        .collect::<Vec<Tile>>()
    );
}

#[test]
fn test_mod_tile_metatile() {
    let mt_meta = ModTileMetatile::new(0, 0, 0);
    assert!(mt_meta.is_some());
    let mt_meta = mt_meta.unwrap();
    assert_eq!(mt_meta.path("png"), "0/0/0/0/0/0.png");
}

#[test]
fn metatile_scale_not_power_of_two() {
    assert_eq!(Metatile::new(3, 2, 1, 1), None);
    assert_eq!(Metatile::new(0, 2, 1, 1), None);
    assert_eq!(Metatile::new(8, 100, 0, 0), None);
    assert_eq!(Metatile::new(8, 1, 5, 0), None);
    assert_eq!(ModTileMetatile::new(100, 0, 0), None);
    assert_eq!(Tile::new(5, 3, 7).unwrap().modtile_metatile(), ModTileMetatile::new(5, 0, 0));
}
