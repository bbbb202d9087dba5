use helion::ir::Design;
use helion::sta::{create_clock, create_generated_clock, report_clock_interaction, report_timing, ClockGroups, ClockRelation, Constraints, MaxDelay};

#[test]
fn create_clock_and_generated() {
    let d = Design::structural_blinky();
    let mut clks = Vec::new();
    create_clock(&mut clks, "clk", 10_000, "clk");
    create_generated_clock(&mut clks, "clk_div2", "clk", 2, "u_ff/Q").unwrap();
    assert!(clks[1].generated);
    assert_eq!(clks[1].period_ps, 20_000);
    let r = report_timing(&d, &clks).unwrap();
    assert!(r.endpoints >= 1);
    assert_eq!(r.clocks.len(), 2);
    // non-vacuous: path delay is counted
    assert_ne!(r.wns_ps, clks[0].period_ps as i64);
}

#[test]
fn counter_sta_worse_than_blinky() {
    let mut clks = Vec::new();
    create_clock(&mut clks, "clk", 10_000, "clk");
    let b = report_timing(&Design::structural_blinky(), &clks).unwrap();
    let c = report_timing(&Design::structural_counter(), &clks).unwrap();
    assert!(
        c.r2r_ps > b.r2r_ps,
        "4-input incrementer LUT must be slower than 1-input inverter ({} vs {})",
        c.r2r_ps,
        b.r2r_ps
    );
    assert!(c.wns_ps < b.wns_ps);
}

#[test]
fn report_clock_interaction_matrix_from_sta_clocks() {
    let mut clks = Vec::new();
    create_clock(&mut clks, "clk", 10_000, "clk");
    create_generated_clock(&mut clks, "clkdiv", "clk", 2, "u_ff/Q").unwrap();
    create_clock(&mut clks, "virt", 8_000, "virt");
    let empty = report_clock_interaction(&[], &Constraints::default(), None);
    assert!(empty.clocks.is_empty());
    assert!(empty.cells.is_empty());
    assert!(empty.text().contains("no clocks"));

    let r = report_clock_interaction(&clks, &Constraints::default(), None);
    assert_eq!(r.clocks.len(), 3);
    assert_eq!(r.cells.len(), 9);
    assert_eq!(r.cell("clk", "clk").unwrap().relation, ClockRelation::Timed);
    assert_eq!(
        r.cell("clk", "clkdiv").unwrap().relation,
        ClockRelation::TimedGenerated
    );
    assert_eq!(
        r.cell("clkdiv", "clk").unwrap().relation,
        ClockRelation::TimedGenerated
    );
    assert_eq!(
        r.cell("clk", "virt").unwrap().relation,
        ClockRelation::TimedUnsafe
    );
    assert!(r.cdc_count() >= 2, "{}", r.text());

    let mut async_xdc = Constraints::default();
    async_xdc.clock_groups.push(ClockGroups {
        asynchronous: true,
        exclusive: false,
        groups: vec![vec!["clk".into()], vec!["virt".into()]],
    });
    let ra = report_clock_interaction(&clks, &async_xdc, None);
    assert_eq!(
        ra.cell("clk", "virt").unwrap().relation,
        ClockRelation::Asynchronous
    );
    assert!(ra.cell("clk", "virt").unwrap().wns_ps.is_none());
    assert_eq!(ra.cell("clk", "clk").unwrap().relation, ClockRelation::Timed);

    let mut ex = Constraints::default();
    ex.clock_groups.push(ClockGroups {
        asynchronous: false,
        exclusive: true,
        groups: vec![vec!["clkdiv".into()], vec!["virt".into()]],
    });
    let re = report_clock_interaction(&clks, &ex, None);
    assert_eq!(
        re.cell("clkdiv", "virt").unwrap().relation,
        ClockRelation::Exclusive
    );

    let mut fp = Constraints::default();
    fp.false_paths
        .push("set_false_path -from [get_clocks clk] -to [get_clocks virt]".into());
    let rf = report_clock_interaction(&clks, &fp, None);
    assert_eq!(
        rf.cell("clk", "virt").unwrap().relation,
        ClockRelation::FalsePath
    );

    let mut dp = Constraints::default();
    dp.max_delays.push(MaxDelay {
        from: "clk".into(),
        to: "virt".into(),
        delay_ps: 2_000,
        datapath_only: true,
    });
    let rd = report_clock_interaction(&clks, &dp, None);
    assert_eq!(
        rd.cell("clk", "virt").unwrap().relation,
        ClockRelation::TimedDatapath
    );
    assert_eq!(rd.cell("clk", "virt").unwrap().requirement_ps, 2_000);

    let d = Design::structural_counter();
    let mut sta_clks = Vec::new();
    create_clock(&mut sta_clks, "clk", 10_000, "clk");
    let t = report_timing(&d, &sta_clks).unwrap();
    let ri = report_clock_interaction(&sta_clks, &Constraints::default(), Some(&t));
    let cell = ri.cell("clk", "clk").unwrap();
    assert_eq!(cell.wns_ps, Some(t.wns_ps));
    assert_eq!(cell.path_count, t.endpoints);
    assert_ne!(t.wns_ps, 0);
}

#[test]
fn constraints_apply_sets_port_tables_in_order() {
    let mut d = Design::new("t");
    d.add_port("led", helion::ir::PortDir::Out);
    let mut c = Constraints::default();
    c.package_pins.push(("led".to_string(), "A1".to_string()));
    c.iostandards.push(("led".to_string(), "LVCMOS33".to_string()));
    helion::sta::apply_xdc(&mut d, &c).unwrap();
    assert_eq!(d.ports[0].attrs.get("LOC"), Some("A1"));
    assert_eq!(d.ports[0].attrs.get("IOSTANDARD"), Some("LVCMOS33"));
    c.drives.push(("nope".to_string(), "8".to_string()));
    c.slews.push(("led".to_string(), "FAST".to_string()));
    assert_eq!(c.apply(&mut d).unwrap_err(), "no port nope");
    assert_eq!(d.ports[0].attrs.get("SLEW"), None);
}

#[test]
fn report_timing_xdc_prefers_constraint_clocks_and_keeps_gold_when_empty() {
    let d = Design::structural_blinky();
    let mut clks = Vec::new();
    create_clock(&mut clks, "clk", 10_000, "clk");
    let gold = report_timing(&d, &clks).unwrap();
    let r = helion::sta::report_timing_xdc(&d, &clks, &Constraints::default()).unwrap();
    assert_eq!(r.wns_ps, gold.wns_ps);
    assert_eq!(r.tns_ps, gold.tns_ps);
    assert_eq!(r.hold_slack_ps, gold.hold_slack_ps);
    let mut x = Constraints::default();
    create_clock(&mut x.clocks, "fast", 5_000, "clk");
    let f = helion::sta::report_timing_xdc(&d, &clks, &x).unwrap();
    assert_eq!(f.wns_ps, gold.wns_ps - 5_000);
    assert_eq!(
        helion::sta::report_timing_xdc(&d, &[], &Constraints::default()).unwrap_err(),
        "no clocks"
    );
}
