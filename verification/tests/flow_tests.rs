use helion::cells::{cell_names, map_muladd_to_mac27, muladd_design};
use helion::ir::{CellKind, Design, PortDir};
use helion::pack::{apply_iob_electrical, pack, PackingSummary};
use helion::proj::{format_prj, load_prj, opt_design};
use helion::sim::{run_tb, Sim};
use helion::sta::{Constraints, IoLocs};
use helion::stage::{
    constraint_provenance, design_has_clock_path, parse_stage_error_line, ConstraintProvenance, SessionProgress,
    SessionStage, StageError, TimingReport, STAGE_PREREQ, STA_FAIL,
};

fn fresh() -> SessionProgress {
    SessionProgress {
        design: false,
        packed: false,
        placed: false,
        routed: false,
        timing: None,
        bitstream: false,
        sim_done: false,
        lab_done: false,
    }
}

#[test]
fn stage_prereq_chain() {
    assert_eq!(SessionStage::Idle.prereq(), None);
    assert_eq!(SessionStage::Elaborated.prereq(), None);
    assert_eq!(SessionStage::Packed.prereq(), Some(SessionStage::Elaborated));
    assert_eq!(SessionStage::Sta.prereq(), Some(SessionStage::Routed));
    assert_eq!(SessionStage::Bitgen.prereq(), Some(SessionStage::Routed));
    assert_eq!(SessionStage::Lab.prereq(), Some(SessionStage::Bitgen));
    assert_eq!(SessionStage::Placed.as_str(), "Placed");
    assert_eq!(SessionStage::all().len(), 9);
}

#[test]
fn can_advance_refuses_with_stage_prereq() {
    let mut p = fresh();
    assert!(p.can_advance(SessionStage::Elaborated).is_ok());
    let e = p.can_advance(SessionStage::Placed).unwrap_err();
    assert_eq!(e.code, STAGE_PREREQ);
    assert_eq!(e.from, SessionStage::Idle);
    assert_eq!(e.missing, SessionStage::Packed);
    assert_eq!(e.message, "place_design: no design");
    p.design = true;
    assert_eq!(p.stage(), SessionStage::Elaborated);
    assert!(p.can_advance(SessionStage::Packed).is_ok());
    let e = p.can_advance(SessionStage::Placed).unwrap_err();
    assert_eq!(e.message, "place_design: not packed");
    p.packed = true;
    p.placed = true;
    p.routed = true;
    assert!(p.can_advance(SessionStage::Bitgen).is_ok());
    assert!(p.can_advance(SessionStage::Sta).is_ok());
    p.record_timing_provenance(ConstraintProvenance::DefaultPeriod);
    assert_eq!(p.stage(), SessionStage::Sta);
    assert_eq!(p.last_timing_provenance(), Some(ConstraintProvenance::DefaultPeriod));
    p.clear_post_place();
    assert_eq!(p.stage(), SessionStage::Placed);
}

#[test]
fn stage_status_text_lists_every_stage() {
    let mut p = fresh();
    p.design = true;
    let st = p.stage_status();
    assert_eq!(st.len(), 9);
    assert!(st[1].ready && st[2].ready && !st[3].ready);
    let t = p.print_stages_text();
    assert_eq!(t.lines().count(), 9);
    assert!(t.starts_with("stage=Idle ready=1\nstage=Elaborated ready=1\nstage=Packed ready=1\nstage=Placed ready=0"));
}

#[test]
fn stage_error_text_reads_back() {
    let e = StageError::prereq(
        SessionStage::Placed,
        SessionStage::Sta,
        SessionStage::Routed,
        "report_timing: not routed",
    );
    let line = e.text();
    assert_eq!(line, "code=STAGE_PREREQ from=Placed attempted=Sta missing=Routed report_timing: not routed");
    let back = parse_stage_error_line(&line).unwrap();
    assert_eq!(back.code, STAGE_PREREQ);
    assert_eq!(back.from, SessionStage::Placed);
    assert_eq!(back.attempted, SessionStage::Sta);
    assert_eq!(back.missing, SessionStage::Routed);
    assert_eq!(back.message, "report_timing: not routed");
    let f = parse_stage_error_line("code=STA_FAIL from=Routed attempted=Sta missing=Routed no clocks").unwrap();
    assert_eq!(f.code, STA_FAIL);
    assert!(parse_stage_error_line("plain failure").is_none());
}

#[test]
fn provenance_follows_clocks_and_flip_flops() {
    let blinky = Design::structural_blinky();
    assert!(design_has_clock_path(&blinky));
    assert_eq!(constraint_provenance(&Constraints::default(), &blinky), ConstraintProvenance::DefaultPeriod);
    let mac = muladd_design();
    assert!(!design_has_clock_path(&mac));
    assert_eq!(ConstraintProvenance::from_constraints(&Constraints::default(), &mac), ConstraintProvenance::NoClockPath);
    assert_eq!(ConstraintProvenance::UserXdc.as_str(), "UserXdc");
    let r = TimingReport::empty("muladd", ConstraintProvenance::NoClockPath);
    assert_eq!(
        r.text(),
        "report_timing muladd WNS_PS=0 TNS_PS=0 SETUP_PS=0 HOLD_PS=0 HOLD_SLACK_PS=0 endpoints=0 r2r_ps=0 iob_ps=0 route_ps=0 provenance=NoClockPath stage=Sta"
    );
}

#[test]
fn helionlib_names_and_muladd() {
    let names = cell_names();
    assert!(names.contains(&"LUT6") && names.contains(&"HFF") && names.contains(&"MAC27"));
    assert!(!names.iter().any(|n| n.contains("FDRE") || *n == "LUT6_2"));
    assert!(matches!(map_muladd_to_mac27(), CellKind::Mac27));
    let d = muladd_design();
    assert_eq!(d.cells.len(), 1);
    let p = pack(&d).unwrap();
    assert_eq!(p.macs.len(), 1);
    assert!(p.lutffs.is_empty());
}

#[test]
fn pack_refuses_iob_without_input_net() {
    let mut d = Design::new("bad");
    d.add_cell("u_iob", CellKind::IobOut);
    let err = pack(&d).unwrap_err();
    assert_eq!(err, "IOB u_iob has no I net");
}

#[test]
fn pack_reads_bram_init_words() {
    let mut d = Design::new("ram");
    d.add_cell("u_bram", CellKind::Bram18);
    d.set_cell_attr("u_bram", "INIT", "ff, 10,,zz").unwrap();
    let p = pack(&d).unwrap();
    assert_eq!(p.brams[0].init, vec![0xff, 0x10, 0]);
}

#[test]
fn apply_iob_electrical_copies_port_attrs() {
    let mut d = Design::structural_counter();
    let mut p = pack(&d).unwrap();
    assert!(p.iobs[0].slew.is_none());
    d.set_slew("led", "FAST").unwrap();
    d.set_drive("led", "8").unwrap();
    apply_iob_electrical(&d, &mut p.iobs);
    assert_eq!(p.iobs[0].slew.as_deref(), Some("FAST"));
    assert_eq!(p.iobs[0].drive.as_deref(), Some("8"));
    assert!(p.iobs[0].in_term.is_none());
}

#[test]
fn packing_summary_counts_by_site() {
    let s = PackingSummary { sites: vec![("CLB_X2Y1".to_string(), 3), ("CLB_X2Y2".to_string(), 1)] };
    assert_eq!(s.lutff_in("CLB_X2Y1"), 3);
    assert_eq!(s.lutff_in("CLB_X2Y2"), 1);
    assert_eq!(s.lutff_in("CLB_X9Y9"), 0);
}

fn const0_pair(keep_iob: bool) -> Design {
    let mut d = Design::new("dead");
    d.add_port("clk", PortDir::In);
    d.add_port("led", PortDir::Out);
    d.add_cell("u_lut", CellKind::Lut6 { init: 0 });
    d.add_cell("u_ff", CellKind::Hff);
    d.connect("d", "u_lut", "O");
    d.connect("d", "u_ff", "D");
    d.connect("q", "u_ff", "Q");
    if keep_iob {
        d.add_cell("u_iob", CellKind::IobOut);
        d.connect("q", "u_iob", "I");
    }
    d
}

#[test]
fn opt_design_drops_dead_const0_pairs_only() {
    let mut d = const0_pair(false);
    assert_eq!(opt_design(&mut d), 1);
    assert!(d.cells.is_empty());
    let mut live = const0_pair(true);
    assert_eq!(opt_design(&mut live), 0);
    assert_eq!(live.cells.len(), 3);
    let mut kept = const0_pair(false);
    kept.dont_touch("u_lut").unwrap();
    assert_eq!(opt_design(&mut kept), 0);
    let mut blinky = Design::structural_blinky();
    assert_eq!(opt_design(&mut blinky), 0);
}

#[test]
fn sim_objects_sorted_and_led_first() {
    let d = Design::structural_counter();
    let mut s = Sim::new(&d);
    for _ in 0..8 {
        s.step_posedge(10);
    }
    assert_eq!(s.time, 80);
    let v = s.object_values();
    assert_eq!(v[0].0, "led");
    assert_eq!(v[0].1, if s.led { "1" } else { "0" });
    let names: Vec<&str> = v[1..].iter().map(|(n, _)| n.as_str()).collect();
    let mut sorted = names.clone();
    sorted.sort();
    assert_eq!(names, sorted);
    assert_eq!(names.len(), 4);
    assert_eq!(run_tb(&d, 8).last().copied(), Some(s.led));
}

#[test]
fn io_locs_keep_one_site_per_port() {
    let mut io = IoLocs::default();
    io.set_pin_loc("led", "IOB_X2Y0");
    io.set_pin_loc("btn", "IOB_X3Y0");
    io.set_pin_loc("led", "IOB_X5Y0");
    assert_eq!(io.pins.len(), 2);
    assert_eq!(io.pins[0].0, "btn");
    assert_eq!(io.get("led").as_deref(), Some("IOB_X5Y0"));
    assert!(io.get("clk").is_none());
}

#[test]
fn format_prj_picks_read_command_by_extension() {
    let prj = load_prj("read_vhdl rtl/top.VHD\nread_c hls/k.cpp\nread_sv a/b.sv\nread_sv dir.v/file\n").unwrap();
    let text = format_prj(&prj);
    assert_eq!(
        text,
        "part HL10T-C32-1\nread_vhdl rtl/top.VHD\nread_c hls/k.cpp\nread_sv a/b.sv\nread_sv dir.v/file\n"
    );
}
