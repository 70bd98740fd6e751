use slippy_map_tiles::Tile;

#[test]
fn tiles_parsing() {
    let tile = Tile::new(1, 5, 5);
    assert!(tile.is_none());

    assert!(Tile::new(4, 8, 9).is_some());

    let tile = Tile::new(1, 0, 0);
    assert!(tile.is_some());

    assert!(Tile::new(100, 0, 0).is_none());
}

#[test]
fn tile_from_tms() {
    assert_eq!(Tile::from_tms("/0/0/0.png"), Tile::new(0, 0, 0));
    assert_eq!(Tile::from_tms("/17/1/1234.png"), Tile::new(17, 1, 1234));
    assert_eq!(Tile::from_tms("17/1/1234"), Tile::new(17, 1, 1234));
    assert_eq!(Tile::from_tms("17/1/1234.jpeg"), Tile::new(17, 1, 1234));
    assert_eq!(Tile::from_tms("/17/1/1234.jpeg"), Tile::new(17, 1, 1234));

    assert_eq!(Tile::from_tms("foo"), None);
    assert_eq!(Tile::from_tms("/17/1/1234.jpegz"), None);
    assert_eq!(Tile::from_tms("/17z/1/1234.jpegz"), None);
    assert_eq!(Tile::from_tms("/0/1/1.png"), None);
    assert_eq!(Tile::from_tms("/100/1/1.png"), None);

    assert_eq!(
        Tile::from_tms("http://tile.example.org/17/1/1234"),
        Tile::new(17, 1, 1234)
    );
    assert_eq!(
        Tile::from_tms("http://tile.example.org/17/1/1234.png"),
        Tile::new(17, 1, 1234)
    );
    assert_eq!(Tile::from_tms("http://tile.example.org/17/1"), None);
    assert_eq!(Tile::from_tms("http://tile.example.org/17"), None);
    assert_eq!(Tile::from_tms("http://tile.example.org/17/1/1234.png/foo/bar"), None);
}

#[test]
fn tile_from_tms_overflow() {
    // Ten digits can exceed the coordinate width; such addresses are
    // rejected rather than wrapped.
    assert_eq!(Tile::from_tms("/17/4294967296/1.png"), None);
    assert_eq!(Tile::from_tms("/17/1/9999999999.png"), None);
}

#[test]
fn parent_and_children() {
    let t = Tile::new(6, 35, 23).unwrap();
    let parent = t.parent().unwrap();
    assert_eq!(parent, Tile::new(5, 17, 11).unwrap());
    let siblings = parent.subtiles().unwrap();
    assert!(siblings.iter().any(|s| *s == t));

    assert_eq!(Tile::new(0, 0, 0).unwrap().parent(), None);
}

#[test]
fn origin_subtiles() {
    for zoom in 0..12u8 {
        let t = Tile::new(zoom, 0, 0).unwrap();
        let children = t.subtiles().unwrap();
        assert_eq!(children[0], Tile::new(zoom + 1, 0, 0).unwrap());
    }
}
