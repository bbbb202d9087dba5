use helion::ir::{CellKind, Design, PortDir};
use helion::sim::run_tb;

#[test]
fn inverter_toggles_const0_does_not() {
    let inv = run_tb(&Design::structural_blinky(), 4);
    assert!(inv.contains(&true) && inv.contains(&false));

    let mut z = Design::new("z");
    z.add_port("clk", PortDir::In);
    z.add_port("led", PortDir::Out);
    z.add_cell("u_lut", CellKind::Lut6 { init: 0 });
    z.add_cell("u_ff", CellKind::Hff);
    z.add_cell("u_iob", CellKind::IobOut);
    z.connect("d", "u_lut", "O");
    z.connect("d", "u_ff", "D");
    z.connect("q", "u_ff", "Q");
    z.connect("q", "u_lut", "I0");
    z.connect("q", "u_iob", "I");
    let w = run_tb(&z, 4);
    assert!(w.iter().all(|&b| !b), "const0 LUT must not toggle LED: {w:?}");
}

#[test]
fn event_sim_counter_matches_fabric_gold() {
    let w = run_tb(&Design::structural_counter(), 16);
    assert!(w[0..7].iter().all(|b| !b), "{w:?}");
    assert!(w[7..15].iter().all(|b| *b), "{w:?}");
    assert!(!w[15], "{w:?}");
}
