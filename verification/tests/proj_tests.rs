use helion::proj::{format_prj, load_prj, ImplStrategy, PrjImplRun, PrjPblock};

#[test]
fn format_prj_round_trips_load() {
    let prj = load_prj(
        "part HL10T-C32-1\nread_sv examples/counter.sv\nread_xdc examples/counter.sdc\n",
    )
    .unwrap();
    let text = format_prj(&prj);
    let again = load_prj(&text).unwrap();
    assert_eq!(again.part, "HL10T-C32-1");
    assert_eq!(again.sources, vec!["examples/counter.sv"]);
    assert_eq!(again.constraint_files, vec!["examples/counter.sdc"]);
}

#[test]
fn project_file_parses_vivado_shaped_commands() {
    let prj = load_prj(
        r#"
part HL10T-C32-1
read_sv examples/blinky.sv
create_clock -period 10.000 [get_ports clk]
set_property PACKAGE_PIN IOB_X2Y0 [get_ports led]
set_property IOSTANDARD LVCMOS18 [get_ports led]
set_property DRIVE 12 [get_ports led]
set_property SLEW SLOW [get_ports led]
set_property PULLTYPE NONE [get_ports led]
set_property DIFF_TERM FALSE [get_ports led]
set_property IN_TERM NONE [get_ports led]
"#,
    )
    .unwrap();
    assert_eq!(prj.part, "HL10T-C32-1");
    assert_eq!(prj.sources, vec!["examples/blinky.sv"]);
    assert!(prj.constraint_files.is_empty());
    assert!(prj.top.is_none());
    assert_eq!(prj.sdc.len(), 1);
    assert_eq!(prj.package_pins, vec![("led".into(), "IOB_X2Y0".into())]);
    assert_eq!(prj.iostandards, vec![("led".into(), "LVCMOS18".into())]);
    assert_eq!(prj.drives, vec![("led".into(), "12".into())]);
    assert_eq!(prj.slews, vec![("led".into(), "SLOW".into())]);
    assert_eq!(prj.pulltypes, vec![("led".into(), "NONE".into())]);
    assert_eq!(prj.diff_terms, vec![("led".into(), "FALSE".into())]);
    assert_eq!(prj.in_terms, vec![("led".into(), "NONE".into())]);
    assert!(load_prj("part X\n").is_err());
}

#[test]
fn project_file_read_xdc_multi_source_and_top() {
    let prj = load_prj(
        r#"
part HL10T-C32-1
read_sv examples/multi/tog.sv
read_sv examples/multi/top.sv
read_xdc examples/multi/multi.sdc
top top
set_property TOP top
create_clock -period 10.000 [get_ports clk]
"#,
    )
    .unwrap();
    assert_eq!(prj.sources.len(), 2);
    assert_eq!(prj.constraint_files, vec!["examples/multi/multi.sdc"]);
    assert_eq!(prj.top.as_deref(), Some("top"));
    assert_eq!(prj.sdc.len(), 1);
}

#[test]
fn project_file_read_ip_parses() {
    let prj = load_prj(
        r#"
part HL10T-C32-1
read_ip ip/h_gpio/h_gpio.helion
top h_gpio
"#,
    )
    .unwrap();
    assert!(prj.sources.is_empty());
    assert_eq!(prj.ip_packages, vec!["ip/h_gpio/h_gpio.helion"]);
    assert_eq!(prj.top.as_deref(), Some("h_gpio"));
}

#[test]
fn format_prj_round_trips_pblock_impl_run_checkpoint() {
    let prj = load_prj(
        r#"
part HL10T-C32-1
read_sv examples/counter.sv
read_xdc examples/counter.sdc
create_pblock pblock_0
resize_pblock pblock_0 -add {CLB_X5Y1:CLB_X8Y8}
add_cells_to_pblock pblock_0 u_lut0
create_run impl_1 -strategy Default
create_run impl_runtime -strategy RuntimeOpt
write_checkpoint counter.hckp
"#,
    )
    .unwrap();
    assert_eq!(prj.pblocks.len(), 1);
    assert_eq!(prj.pblocks[0].name, "pblock_0");
    assert!(prj.pblocks[0].ranged);
    assert_eq!(prj.pblocks[0].x0, 5);
    assert_eq!(prj.pblocks[0].y0, 1);
    assert_eq!(prj.pblocks[0].x1, 8);
    assert_eq!(prj.pblocks[0].y1, 8);
    assert_eq!(prj.pblocks[0].cells, vec!["u_lut0"]);
    assert_eq!(
        prj.impl_runs,
        vec![
            PrjImplRun {
                name: "impl_1".into(),
                strategy: "Default".into(),
            },
            PrjImplRun {
                name: "impl_runtime".into(),
                strategy: "RuntimeOpt".into(),
            },
        ]
    );
    assert_eq!(prj.checkpoint_path.as_deref(), Some("counter.hckp"));

    let text = format_prj(&prj);
    assert!(text.contains("create_pblock pblock_0"), "{text}");
    assert!(
        text.contains("resize_pblock pblock_0 -add {CLB_X5Y1:CLB_X8Y8}"),
        "{text}"
    );
    assert!(
        text.contains("add_cells_to_pblock pblock_0 u_lut0"),
        "{text}"
    );
    assert!(
        text.contains("create_run impl_1 -strategy Default"),
        "{text}"
    );
    assert!(
        text.contains("create_run impl_runtime -strategy RuntimeOpt"),
        "{text}"
    );
    assert!(text.contains("write_checkpoint counter.hckp"), "{text}");

    let again = load_prj(&text).unwrap();
    assert_eq!(again.pblocks, prj.pblocks);
    assert_eq!(again.impl_runs, prj.impl_runs);
    assert_eq!(again.checkpoint_path, prj.checkpoint_path);
    assert_eq!(again.sources, prj.sources);
    assert_eq!(again.constraint_files, prj.constraint_files);
}

#[test]
fn load_prj_rejects_unparseable_pblock_range() {
    let err = load_prj(
        r#"
part HL10T-C32-1
read_sv examples/counter.sv
create_pblock pblock_0
resize_pblock pblock_0 -add {NOT_A_CLB_RANGE}
"#,
    )
    .unwrap_err();
    assert!(
        err.contains("resize_pblock") && err.contains("NOT_A_CLB_RANGE"),
        "{err}"
    );

    let err = load_prj(
        r#"
part HL10T-C32-1
read_sv examples/counter.sv
create_pblock pblock_0
resize_pblock pblock_0 -add {FOO_X0Y0:BAR_X1Y1}
"#,
    )
    .unwrap_err();
    assert!(
        err.contains("resize_pblock") && err.contains("FOO_X0Y0:BAR_X1Y1"),
        "{err}"
    );

    let err = load_prj(
        r#"
part HL10T-C32-1
read_sv examples/counter.sv
create_pblock pblock_0 -add {GARBAGE}
"#,
    )
    .unwrap_err();
    assert!(
        err.contains("create_pblock") && err.contains("GARBAGE"),
        "{err}"
    );

    let ok = load_prj(
        r#"
part HL10T-C32-1
read_sv examples/counter.sv
create_pblock pblock_0
"#,
    )
    .unwrap();
    assert_eq!(ok.pblocks.len(), 1);
    assert!(!ok.pblocks[0].ranged, "create_pblock without -add stays unranged");
}

#[test]
fn format_prj_round_trip_keeps_all_but_pin_properties() {
    let prj = load_prj(
        "part P1\nread_vhdl rtl/a.vhd\nread_c hls/k.cpp\nread_ip ip/x.helion\ntop t\n\
         create_clock -period 5 [get_ports clk]\nset_property PACKAGE_PIN IOB_X2Y0 [get_ports led]\n\
         create_run r1 -strategy PhysOpt\nwrite_checkpoint out.hckp\n",
    )
    .unwrap();
    assert_eq!(prj.package_pins.len(), 1);
    let text = format_prj(&prj);
    assert!(text.contains("read_vhdl rtl/a.vhd\n"), "{text}");
    assert!(text.contains("read_c hls/k.cpp\n"), "{text}");
    let again = load_prj(&text).unwrap();
    assert_eq!(again.part, "P1");
    assert_eq!(again.sources, prj.sources);
    assert_eq!(again.ip_packages, prj.ip_packages);
    assert_eq!(again.top, prj.top);
    assert_eq!(again.sdc, prj.sdc);
    assert_eq!(again.impl_runs, prj.impl_runs);
    assert_eq!(again.checkpoint_path, prj.checkpoint_path);
    assert!(again.package_pins.is_empty());
}

#[test]
fn format_prj_orders_pblock_corners_on_read() {
    let mut prj = load_prj("read_sv a.sv\n").unwrap();
    prj.pblocks.push(PrjPblock {
        name: "pb".to_string(),
        x0: 8,
        y0: 9,
        x1: 2,
        y1: 3,
        ranged: true,
        cells: vec!["u0".to_string()],
    });
    let again = load_prj(&format_prj(&prj)).unwrap();
    assert_eq!((again.pblocks[0].x0, again.pblocks[0].y0, again.pblocks[0].x1, again.pblocks[0].y1), (2, 3, 8, 9));
    assert_eq!(again.pblocks[0].cells, vec!["u0".to_string()]);
}

#[test]
fn read_ip_merge_keeps_explicit_top_and_skips_listed_files() {
    let mut p = load_prj("read_ip ip/h_gpio.helion\ntop mine\nread_sv a.v\n").unwrap();
    helion::proj::merge_ip_package(
        &mut p,
        &vec!["a.v".to_string(), "ip/h_gpio.v".to_string()],
        &vec!["ip/h_gpio.xdc".to_string()],
        &Some("h_gpio".to_string()),
    );
    assert_eq!(p.sources, vec!["a.v".to_string(), "ip/h_gpio.v".to_string()]);
    assert_eq!(p.constraint_files, vec!["ip/h_gpio.xdc".to_string()]);
    assert_eq!(p.top.as_deref(), Some("mine"));
    assert!(helion::proj::check_expanded_sources(&p).is_ok());

    let mut q = load_prj("read_ip ip/h_gpio.helion\n").unwrap();
    assert_eq!(
        helion::proj::check_expanded_sources(&q).unwrap_err(),
        "project has no sources after read_ip expand"
    );
    helion::proj::merge_ip_package(&mut q, &vec!["g.v".to_string()], &vec![], &Some("h_gpio".to_string()));
    assert_eq!(q.top.as_deref(), Some("h_gpio"));
    assert_eq!(q.sources, vec!["g.v".to_string()]);
}

#[test]
fn impl_strategy_parse_reads_back_each_label() {
    for s in [ImplStrategy::Default, ImplStrategy::TimingExplore, ImplStrategy::RuntimeOpt, ImplStrategy::PhysOpt] {
        assert_eq!(ImplStrategy::parse(s.label()).unwrap(), s);
    }
    assert_eq!(ImplStrategy::parse(" RUNTIME ").unwrap(), ImplStrategy::RuntimeOpt);
    assert_eq!(ImplStrategy::parse("impl_1").unwrap(), ImplStrategy::Default);
    assert_eq!(ImplStrategy::parse(" Fast ").unwrap_err(), "unknown impl strategy fast");
}
