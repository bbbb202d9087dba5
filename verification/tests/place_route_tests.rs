use helion::ir::Design;
use helion::pack::pack;
use helion::place::{place, place_with, DeviceSites};
use helion::route::{route, route_with, RouteGrid, RouteOpts};

fn sites() -> DeviceSites {
    DeviceSites {
        clb: vec![(5, 1), (5, 2), (5, 3), (5, 4), (6, 1), (6, 2)],
        iob: vec![(5, 0), (6, 0)],
        dsp: vec![(7, 1)],
        bram: vec![(8, 1)],
        n_ble: 4,
    }
}

fn grid() -> RouteGrid {
    RouteGrid {
        clb_x0: 5,
        clb_y0: 1,
        interior_cols: 2,
        clb_tiles: vec![(5, 1), (5, 2), (5, 3), (5, 4), (6, 1), (6, 2)],
    }
}

#[test]
fn blinky_places_mid_column_and_routes_south() {
    let p = pack(&Design::structural_blinky()).unwrap();
    let pl = place(&p, &sites()).unwrap();
    assert_eq!(pl.iob_sites, vec![(5, 0)]);
    assert_eq!(pl.lutff_sites, vec![((5, 3), 0)]);
    let r = route(&pl, &grid()).unwrap();
    assert_eq!(r.imux.len(), 1);
    assert_eq!((r.imux[0].x, r.imux[0].y, r.imux[0].mux, r.imux[0].sel), (5, 3, 0, 16));
    assert_eq!(r.iob_src.len(), 1);
    let io = &r.iob_src[0];
    assert_eq!(io.clb, (5, 3));
    assert_eq!(io.iob, (5, 0));
    assert_eq!(io.path, vec![(5, 3), (5, 2), (5, 1), (5, 0)]);
    assert_eq!(io.hops, 3);
    assert_eq!(io.delay_ps, 120);
    assert_eq!(io.net, "q");
    assert_eq!(r.pathfinder_iters, 1);
    assert_eq!(r.overused, 0);
}

#[test]
fn timing_driven_placement_takes_south_row() {
    let p = pack(&Design::structural_blinky()).unwrap();
    let pl = place_with(&p, &sites(), true).unwrap();
    assert_eq!(pl.lutff_sites, vec![((5, 1), 0)]);
    let r = route_with(&pl, &grid(), RouteOpts { max_iters: 8, extra_hops: 2 }).unwrap();
    assert_eq!(r.iob_src[0].path, vec![(5, 1), (5, 0)]);
    assert_eq!(r.iob_src[0].hops, 3);
    assert_eq!(r.iob_src[0].delay_ps, 120);
}

#[test]
fn loc_selects_iob_site_and_column() {
    let mut p = pack(&Design::structural_blinky()).unwrap();
    p.iobs[0].loc = Some("IOB_X6Y0".to_string());
    let pl = place(&p, &sites()).unwrap();
    assert_eq!(pl.iob_sites, vec![(6, 0)]);
    assert_eq!(pl.lutff_sites[0].0 .0, 6);
}

#[test]
fn loc_outside_device_is_refused() {
    let mut p = pack(&Design::structural_blinky()).unwrap();
    p.iobs[0].loc = Some("IOB_X9Y0".to_string());
    let e = place(&p, &sites()).unwrap_err();
    assert_eq!(e, "LOC IOB_X9Y0 is not an IOB site");
    p.iobs[0].loc = Some("CLB_X5Y1".to_string());
    assert_eq!(place(&p, &sites()).unwrap_err(), "LOC CLB_X5Y1 is not an IOB site");
}

#[test]
fn counter_fills_one_clb_with_distinct_bles() {
    let p = pack(&Design::structural_counter()).unwrap();
    let pl = place(&p, &sites()).unwrap();
    assert_eq!(pl.lutff_sites.len(), 4);
    let bles: Vec<u8> = pl.lutff_sites.iter().map(|(_, b)| *b).collect();
    assert_eq!(bles, vec![0, 1, 2, 3]);
    assert!(pl.lutff_sites.windows(2).all(|w| w[0].0 == w[1].0));
}

#[test]
fn placement_stops_when_every_slot_is_taken() {
    let p = pack(&Design::structural_counter()).unwrap();
    let mut d = sites();
    d.clb = vec![(5, 1)];
    d.n_ble = 2;
    let pl = place(&p, &d).unwrap();
    assert_eq!(pl.lutff_sites, vec![((5, 1), 0), ((5, 1), 1)]);
    assert_eq!(pl.packed.lutffs.len(), 2);
}

#[test]
fn lutffs_without_any_iob_site_are_refused() {
    let p = pack(&Design::structural_blinky()).unwrap();
    let mut d = sites();
    d.iob = vec![];
    assert_eq!(place(&p, &d).unwrap_err(), "need IOB column for LUTFF");
}

#[test]
fn iob_south_of_clb_is_required() {
    let p = pack(&Design::structural_blinky()).unwrap();
    let mut pl = place(&p, &sites()).unwrap();
    pl.iob_sites[0] = (5, 3);
    assert_eq!(route(&pl, &grid()).unwrap_err(), "CLB must be north of IOB");
}

#[test]
fn unreachable_iob_reports_no_path() {
    let p = pack(&Design::structural_blinky()).unwrap();
    let mut pl = place(&p, &sites()).unwrap();
    pl.iob_sites[0] = (9, 0);
    assert_eq!(route(&pl, &grid()).unwrap_err(), "PathFinder: no path (5, 3) → (9, 0)");
}

#[test]
fn incremental_reuses_named_lutff_sites() {
    let p = pack(&Design::structural_counter()).unwrap();
    let prev = place_with(&p, &sites(), true).unwrap();
    let (next, reused) = helion::place::place_incremental(&p, &sites(), &prev, true).unwrap();
    assert_eq!(reused, prev.lutff_sites.len());
    assert_eq!(next.lutff_sites, prev.lutff_sites);
    let mut moved = prev.clone();
    moved.lutff_sites[0] = ((6, 2), 3);
    moved.iob_sites[0] = (6, 0);
    let (next, reused) = helion::place::place_incremental(&p, &sites(), &moved, false).unwrap();
    assert_eq!(reused, 4);
    assert_eq!(next.lutff_sites[0], ((6, 2), 3));
    assert_eq!(next.iob_sites[0], (6, 0));
}

#[test]
fn lutff_of_finds_the_ff_slot() {
    let p = pack(&Design::structural_blinky()).unwrap();
    let pl = place(&p, &sites()).unwrap();
    assert_eq!(helion::route::lutff_of(&pl, "u_ff"), Some(((5, 3), 0)));
    assert_eq!(helion::route::lutff_of(&pl, "nope"), None);
}
