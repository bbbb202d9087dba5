use helion::ir::{CellKind, Design, PortDir};
use helion::pack::pack;

#[test]
fn packs_blinky_lutff() {
    let p = pack(&Design::structural_blinky()).unwrap();
    assert_eq!(p.lutffs.len(), 1);
    assert_eq!(p.iobs.len(), 1);
    assert_eq!(p.lutffs[0].init, 0x5555_5555_5555_5555);
    assert_eq!(p.lutffs[0].lut_pins, vec![(0, "u_ff".into())]);
    assert_eq!(p.lutffs[0].q_net, "q");
}

#[test]
fn packs_counter_four_lutffs_with_pins() {
    let p = pack(&Design::structural_counter()).unwrap();
    assert_eq!(p.lutffs.len(), 4);
    assert_eq!(p.lutffs[3].lut_pins.len(), 4);
    assert_eq!(p.iobs[0].from_net, "q3");
    assert_eq!(p.lutffs[3].q_net, "q3");
    assert!(p.iobs[0].drive.is_none());
    assert!(p.iobs[0].slew.is_none());
    assert!(p.iobs[0].pulltype.is_none());
    assert!(p.iobs[0].diff_term.is_none());
    assert!(p.iobs[0].in_term.is_none());
    let mut d = Design::structural_counter();
    d.set_drive("led", "4").unwrap();
    d.set_slew("led", "FAST").unwrap();
    d.set_pulltype("led", "PULLUP").unwrap();
    d.set_diff_term("led", "TRUE").unwrap();
    d.set_in_term("led", "UNTUNED_SPLIT_50").unwrap();
    let p = pack(&d).unwrap();
    assert_eq!(p.iobs[0].drive.as_deref(), Some("4"));
    assert_eq!(p.iobs[0].slew.as_deref(), Some("FAST"));
    assert_eq!(p.iobs[0].pulltype.as_deref(), Some("PULLUP"));
    assert_eq!(p.iobs[0].diff_term.as_deref(), Some("TRUE"));
    assert_eq!(p.iobs[0].in_term.as_deref(), Some("UNTUNED_SPLIT_50"));
}

#[test]
fn packs_comb_lut_without_ff() {
    let mut d = Design::new("comb");
    d.add_port("a", PortDir::In);
    d.add_port("y", PortDir::Out);
    d.add_cell(
        "u_lut",
        CellKind::Lut6 {
            init: 0x5555_5555_5555_5555,
        },
    );
    d.add_cell("u_iob", CellKind::IobOut);
    d.connect("a", "u_lut", "I0");
    d.connect("n", "u_lut", "O");
    d.connect("n", "u_iob", "I");
    d.connect("y", "u_iob", "PAD");
    let p = pack(&d).unwrap();
    assert_eq!(p.lutffs.len(), 1);
    assert!(
        p.lutffs[0].ff_cell.is_empty(),
        "comb LUT must not invent an FF"
    );
    assert_eq!(p.lutffs[0].q_net, "n");
    assert_eq!(p.iobs[0].from_net, "n");
}

#[test]
fn packs_mac27() {
    let mut d = Design::new("mac");
    d.add_cell("u_mac", CellKind::Mac27);
    let p = pack(&d).unwrap();
    assert_eq!(p.macs.len(), 1);
    assert!(p.lutffs.is_empty());
}

#[test]
fn pack_thousands_of_lutff_pairs_is_subquadratic() {
    let mut d = Design::new("wide");
    d.add_port("clk", PortDir::In);
    const N: u32 = 3_000;
    for i in 0..N {
        let lut = format!("lut{i}");
        let ff = format!("ff{i}");
        d.add_cell(
            &lut,
            CellKind::Lut6 {
                init: 0x5555_5555_5555_5555,
            },
        );
        d.add_cell(&ff, CellKind::Hff);
        d.connect("clk", &ff, "CLK");
        d.connect(&format!("d{i}"), &lut, "O");
        d.connect(&format!("d{i}"), &ff, "D");
        d.connect(&format!("q{i}"), &ff, "Q");
        d.connect(&format!("q{i}"), &lut, "I0");
    }
    let t0 = std::time::Instant::now();
    let p = pack(&d).unwrap();
    let ms = t0.elapsed().as_millis();
    assert_eq!(p.lutffs.len(), N as usize, "every LUT/FF pair packs");
    assert!(
        p.lutffs
            .iter()
            .all(|l| !l.ff_cell.is_empty() && !l.q_net.is_empty()),
        "clusters keep FF and Q net"
    );
    assert!(
        ms < 2000,
        "pack of {N} LUT/FF pairs must stay subquadratic, took {ms}ms"
    );
}

#[test]
fn packs_bram18() {
    let mut d = Design::new("ram");
    d.add_cell("u_bram", CellKind::Bram18);
    let p = pack(&d).unwrap();
    assert_eq!(p.brams.len(), 1);
}

#[test]
fn packing_summary_counts_clusters_per_site() {
    let ids: Vec<String> = ["CLB_X1Y2", "CLB_X1Y2", "CLB_X0Y5", "CLB_X1Y2"].iter().map(|s| s.to_string()).collect();
    let sum = helion::pack::PackingSummary::from_lutff_sites(&ids);
    assert_eq!(sum.lutff_in("CLB_X1Y2"), 3);
    assert_eq!(sum.lutff_in("CLB_X0Y5"), 1);
    assert_eq!(sum.lutff_in("CLB_X9Y9"), 0);
    assert_eq!(sum.sites, vec![("CLB_X0Y5".to_string(), 1), ("CLB_X1Y2".to_string(), 3)]);
}
