use helion::ir::{CellKind, Design};
use helion::session::{insert_eco_lut, set_property};

#[test]
fn set_property_routes_each_key() {
    let mut d = Some(Design::structural_blinky());
    set_property(&mut d, "keep", "true", "u_lut").unwrap();
    set_property(&mut d, "MARK_DEBUG", "true", "q").unwrap();
    set_property(&mut d, "package_pin", "IOB_X2Y0", "led").unwrap();
    set_property(&mut d, "iostandard", "LVCMOS18", "led").unwrap();
    set_property(&mut d, "Drive", "8", "led").unwrap();
    set_property(&mut d, "RLOC", "X0Y0", "u_lut").unwrap();
    let x = d.as_ref().unwrap();
    assert!(x.cell("u_lut").unwrap().attrs.flag("DONT_TOUCH"));
    assert_eq!(x.cell("u_lut").unwrap().attrs.get("RLOC"), Some("X0Y0"));
    assert!(x.net("q").unwrap().attrs.flag("mark_debug"));
    let led = x.ports.iter().find(|p| p.name == "led").unwrap();
    assert_eq!(led.attrs.get("LOC"), Some("IOB_X2Y0"));
    assert_eq!(led.attrs.get("IOSTANDARD"), Some("LVCMOS18"));
    assert_eq!(led.attrs.get("DRIVE"), Some("8"));
    assert_eq!(set_property(&mut d, "LOC", "X", "nope"), Err("no port nope".to_string()));
    assert_eq!(set_property(&mut d, "keep", "true", "nope"), Err("no cell nope".to_string()));
    assert_eq!(set_property(&mut d, "mark_debug", "true", "nope"), Err("no net nope".to_string()));
    let mut none: Option<Design> = None;
    assert_eq!(set_property(&mut none, "LOC", "X", "led"), Err("set_property: no design".to_string()));
}

#[test]
fn insert_eco_lut_adds_lut_ff_and_nets() {
    let mut d = Some(Design::structural_blinky());
    let msg = insert_eco_lut(&mut d, "ECO_LUT3", 0x8).unwrap();
    assert_eq!(msg, "insert_eco_lut ECO_LUT3 init=0x8");
    let x = d.as_ref().unwrap();
    assert!(matches!(x.cell("ECO_LUT3").unwrap().kind, CellKind::Lut6 { init: 8 }));
    assert!(matches!(x.cell("ECO_LUT3_ff").unwrap().kind, CellKind::Hff));
    assert_eq!(x.net_on("ECO_LUT3_ff", "CLK"), Some("clk"));
    assert_eq!(x.net_on("ECO_LUT3", "O"), Some("ECO_LUT3_d"));
    assert_eq!(x.net_on("ECO_LUT3_ff", "D"), Some("ECO_LUT3_d"));
    assert_eq!(x.net_on("ECO_LUT3_ff", "Q"), Some("ECO_LUT3_q"));
    assert_eq!(x.ports.iter().filter(|p| p.name == "clk").count(), 1);
    assert_eq!(insert_eco_lut(&mut d, "ECO_LUT3", 1), Err("insert_eco_lut: ECO_LUT3 exists".to_string()));
    let mut bare = Some(Design::new("t"));
    insert_eco_lut(&mut bare, "E", 0xff).unwrap();
    assert!(bare.as_ref().unwrap().ports.iter().any(|p| p.name == "clk"));
    let mut none: Option<Design> = None;
    assert_eq!(insert_eco_lut(&mut none, "E", 0), Err("insert_eco_lut: no design".to_string()));
}
