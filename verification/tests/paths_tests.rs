use slippy_map_tiles::{xy_to_mp, xy_to_mt, xy_to_tc, xy_to_ts, Tile};

#[test]
fn tc() {
    let res = xy_to_tc(3, 4);
    assert_eq!(res[0], "000");
    assert_eq!(res[1], "000");
    assert_eq!(res[2], "003");
    assert_eq!(res[3], "000");
    assert_eq!(res[4], "000");
    assert_eq!(res[5], "004");
}

#[test]
fn mp() {
    let res = xy_to_mp(3, 4);
    assert_eq!(res[0], "0000");
    assert_eq!(res[1], "0003");
    assert_eq!(res[2], "0000");
    assert_eq!(res[3], "0004");
}

#[test]
fn ts() {
    let res = xy_to_ts(656, 1582);
    assert_eq!(res[0], "000");
    assert_eq!(res[1], "656");
    assert_eq!(res[2], "001");
    assert_eq!(res[3], "582");
}

#[test]
fn mod_tile_path() {
    let res = xy_to_mt(0, 0);
    assert_eq!(res[0], "0");
    assert_eq!(res[1], "0");
    assert_eq!(res[2], "0");
    assert_eq!(res[3], "0");
    assert_eq!(res[4], "0");

    let res = xy_to_mt(1, 1);
    assert_eq!(res[0], "0");
    assert_eq!(res[1], "0");
    assert_eq!(res[2], "0");
    assert_eq!(res[3], "0");
    assert_eq!(res[4], "17");
}

#[test]
fn tc_path_zoom2() {
    let tc = xy_to_tc(3, 4);
    let path = format!("2/{}/{}/{}/{}/{}/{}.png", tc[0], tc[1], tc[2], tc[3], tc[4], tc[5]);
    assert_eq!(path, "2/000/000/003/000/000/004.png");
}

#[test]
fn world_root_paths() {
    let root = Tile::new(0, 0, 0).unwrap();
    assert_eq!(root.tc_path("png"), "0/000/000/000/000/000/000.png");
    assert_eq!(root.mp_path("png"), "0/0000/0000/0000/0000.png");
    assert_eq!(root.ts_path("png"), "0/000/000/000/000.png");
    assert_eq!(root.zxy(), "0/0/0");
    assert_eq!(root.zxy_path("png"), "0/0/0.png");
    assert_eq!(root.mt_path("png"), "0/0/0/0/0/0.png");

    let children = root.subtiles().unwrap();
    assert_eq!(children[0], Tile::new(1, 0, 0).unwrap());
    assert_eq!(children[0].tc_path("png"), "1/000/000/000/000/000/000.png");
    assert_eq!(children[1], Tile::new(1, 1, 0).unwrap());
    assert_eq!(children[1].tc_path("png"), "1/000/000/001/000/000/000.png");
    assert_eq!(children[2], Tile::new(1, 0, 1).unwrap());
    assert_eq!(children[2].tc_path("png"), "1/000/000/000/000/000/001.png");
    assert_eq!(children[3], Tile::new(1, 1, 1).unwrap());
    assert_eq!(children[3].tc_path("png"), "1/000/000/001/000/000/001.png");
    assert_eq!(children[3].zxy_path("png"), "1/1/1.png");
    assert_eq!(children[3].zxy(), "1/1/1");
}

#[test]
fn paths_large_coordinates() {
    let t = Tile::new(18, 130981, 87177).unwrap();
    assert_eq!(t.tc_path("png"), "18/000/130/981/000/087/177.png");
    assert_eq!(t.mp_path("png"), "18/0013/0981/0008/7177.png");
    assert_eq!(t.ts_path("png"), "18/130/981/087/177.png");
    assert_eq!(t.zxy(), "18/130981/87177");
}
