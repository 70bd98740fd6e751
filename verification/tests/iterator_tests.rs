use slippy_map_tiles::{
    num_tiles_in_zoom, remaining_in_this_zoom, xy_to_zorder, zorder_to_xy, Tile,
};

#[test]
fn all_tiles() {
    let mut it = Tile::all();

    assert_eq!(it.next(), Tile::new(0, 0, 0));
    assert_eq!(it.next(), Tile::new(1, 0, 0));
    assert_eq!(it.next(), Tile::new(1, 1, 0));
    assert_eq!(it.next(), Tile::new(1, 0, 1));
    assert_eq!(it.next(), Tile::new(1, 1, 1));
    assert_eq!(it.next(), Tile::new(2, 0, 0));
    assert_eq!(it.next(), Tile::new(2, 1, 0));
    assert_eq!(it.next(), Tile::new(2, 0, 1));
    assert_eq!(it.next(), Tile::new(2, 1, 1));
    assert_eq!(it.next(), Tile::new(2, 2, 0));

    let mut it = Tile::all();
    let first_z5;
    loop {
        let t = it.next().unwrap();
        if t.zoom() >= 5 {
            first_z5 = t;
            break;
        }
    }
    assert_eq!(first_z5, Tile::new(5, 0, 0).unwrap());
}

#[test]
fn test_num_tiles_in_zoom() {
    assert_eq!(num_tiles_in_zoom(0), Some(1));
    assert_eq!(num_tiles_in_zoom(1), Some(4));
    assert_eq!(num_tiles_in_zoom(2), Some(16));
    assert_eq!(num_tiles_in_zoom(3), Some(256));
    assert_eq!(num_tiles_in_zoom(4), Some(65_536));
    assert_eq!(num_tiles_in_zoom(5), Some(4_294_967_296));

    assert_eq!(num_tiles_in_zoom(6), None);
}

#[test]
fn test_remaining_in_zoom() {
    assert_eq!(remaining_in_this_zoom(0, 0, 0), Some(1));

    assert_eq!(remaining_in_this_zoom(1, 0, 0), Some(4));
    assert_eq!(remaining_in_this_zoom(1, 0, 1), Some(3));
    assert_eq!(remaining_in_this_zoom(1, 1, 0), Some(2));
    assert_eq!(remaining_in_this_zoom(1, 1, 1), Some(1));

    assert_eq!(remaining_in_this_zoom(2, 0, 0), Some(16));
}

fn count_all_to_zoom(max_zoom: u8) -> usize {
    let mut it = Tile::all_to_zoom(max_zoom);
    let mut count: usize = 0;
    while it.next().is_some() {
        count += 1;
    }
    count
}

#[test]
fn all_tiles_to_zoom_iter() {
    let mut it = Tile::all_to_zoom(1);

    assert_eq!(it.next(), Tile::new(0, 0, 0));
    assert_eq!(it.next(), Tile::new(1, 0, 0));
    assert_eq!(it.next(), Tile::new(1, 0, 1));
    assert_eq!(it.next(), Tile::new(1, 1, 0));
    assert_eq!(it.next(), Tile::new(1, 1, 1));
    assert_eq!(it.next(), None);

    assert_eq!(count_all_to_zoom(0), 1);
    assert_eq!(count_all_to_zoom(1), 5);
    assert_eq!(count_all_to_zoom(2), 21);
    assert_eq!(count_all_to_zoom(3), 85);

    let mut it = Tile::all_to_zoom(2);
    let mut last = None;
    loop {
        match it.next() {
            Some(t) => last = Some(t),
            None => break,
        }
    }
    assert_eq!(last, Tile::new(2, 3, 3));

    // check the size hints
    assert_eq!(Tile::all_to_zoom(0).size_hint(), (1, Some(1)));

    let mut it = Tile::all_to_zoom(1);
    assert_eq!(it.size_hint(), (5, Some(5)));
    assert!(it.next().is_some());
    assert_eq!(it.size_hint(), (4, Some(4)));
    assert!(it.next().is_some());
    assert_eq!(it.size_hint(), (3, Some(3)));
    assert!(it.next().is_some());
    assert_eq!(it.size_hint(), (2, Some(2)));
    assert!(it.next().is_some());
    assert_eq!(it.size_hint(), (1, Some(1)));
    assert!(it.next().is_some());
    assert_eq!(it.size_hint(), (0, Some(0)));
    assert!(it.next().is_none());

    assert_eq!(Tile::all_to_zoom(2).size_hint(), (21, Some(21)));

    assert_eq!(Tile::all_to_zoom(3).size_hint(), (277, Some(277)));
    assert_eq!(Tile::all_to_zoom(4).size_hint(), (65_813, Some(65_813)));
    assert_eq!(Tile::all_to_zoom(5).size_hint(), (4_295_033_109, Some(4_295_033_109)));
    assert_eq!(Tile::all_to_zoom(6).size_hint(), (18_446_744_073_709_551_615, None));
    assert_eq!(Tile::all_to_zoom(7).size_hint(), (18_446_744_073_709_551_615, None));
    assert_eq!(Tile::all_to_zoom(8).size_hint(), (18_446_744_073_709_551_615, None));
    assert_eq!(Tile::all_to_zoom(9).size_hint(), (18_446_744_073_709_551_615, None));
    assert_eq!(Tile::all_to_zoom(10).size_hint(), (18_446_744_073_709_551_615, None));
    assert_eq!(Tile::all_to_zoom(11).size_hint(), (18_446_744_073_709_551_615, None));
    assert_eq!(Tile::all_to_zoom(12).size_hint(), (18_446_744_073_709_551_615, None));
    assert_eq!(Tile::all_to_zoom(13).size_hint(), (18_446_744_073_709_551_615, None));
    assert_eq!(Tile::all_to_zoom(14).size_hint(), (18_446_744_073_709_551_615, None));
    assert_eq!(Tile::all_to_zoom(15).size_hint(), (18_446_744_073_709_551_615, None));
    assert_eq!(Tile::all_to_zoom(16).size_hint(), (18_446_744_073_709_551_615, None));
}

#[test]
fn all_sub_tiles_iter() {
    let mut it = Tile::new(4, 7, 5).unwrap().all_subtiles_iter();
    assert_eq!(it.next(), Tile::new(5, 14, 10));
    assert_eq!(it.next(), Tile::new(5, 15, 10));
    assert_eq!(it.next(), Tile::new(5, 14, 11));
    assert_eq!(it.next(), Tile::new(5, 15, 11));

    let mut it = Tile::new(4, 7, 5).unwrap().all_subtiles_iter();
    let mut z10_count: usize = 0;
    let mut first_z10 = None;
    let mut last_z10 = None;
    loop {
        let t = it.next().unwrap();
        if t.zoom() >= 11 {
            break;
        }
        if t.zoom() == 10 {
            if first_z10.is_none() {
                first_z10 = Some(t);
            }
            last_z10 = Some(t);
            z10_count += 1;
        }
    }
    assert_eq!(z10_count, 4096);
    assert_eq!(first_z10.unwrap().zoom(), 10);
    assert_eq!(last_z10.unwrap().zoom(), 10);
}

#[test]
fn test_xy_to_zorder() {
    assert_eq!(xy_to_zorder(0, 0), 0);
    assert_eq!(xy_to_zorder(1, 0), 1);
    assert_eq!(xy_to_zorder(0, 1), 2);
    assert_eq!(xy_to_zorder(1, 1), 3);
}

#[test]
fn test_zorder_to_xy() {
    assert_eq!(zorder_to_xy(0), (0, 0));
    assert_eq!(zorder_to_xy(1), (1, 0));
}

#[test]
fn remaining_overflow() {
    // From zoom 33 on the remaining count no longer fits a usize.
    assert_eq!(remaining_in_this_zoom(33, 0, 0), None);
    assert_eq!(remaining_in_this_zoom(40, 123, 456), None);
}

#[test]
fn zorder_round_trip() {
    let cases: [(u32, u32); 5] = [(0, 0), (1, 0), (35, 23), (130981, 87177), (4294967295, 0)];
    for (x, y) in cases {
        assert_eq!(zorder_to_xy(xy_to_zorder(x, y)), (x, y));
    }
    assert_eq!(xy_to_zorder(zorder_to_xy(123456789).0, zorder_to_xy(123456789).1), 123456789);
}
