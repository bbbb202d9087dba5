use helion::ir::{Attrs, CellKind, Design, Endpoint, MapResult, Net, PortDir, SoftDiag, SoftSpan, INC4_INIT};

#[test]
fn clone_data_omits_indexes_until_rebuild() {
    let mut d = Design::new("idx");
    d.add_cell("ff", CellKind::Hff);
    d.connect("q", "ff", "Q");
    let mut c = d.clone_data();
    assert!(c.cell("ff").is_some());
    assert_eq!(c.net_on("ff", "Q"), Some("q"));
    c.rebuild_indexes();
    assert_eq!(c.cell("ff").map(|x| x.name.as_str()), Some("ff"));
    assert_eq!(c.net_on("ff", "Q"), Some("q"));
}

#[test]
fn connect_is_subquadratic_on_many_nets() {
    let mut d = Design::new("wide");
    let t0 = std::time::Instant::now();
    for i in 0..20_000u32 {
        d.add_cell(&format!("c{i}"), CellKind::Hff);
        d.connect(&format!("n{i}"), &format!("c{i}"), "Q");
    }
    let ms = t0.elapsed().as_millis();
    assert_eq!(d.nets.len(), 20_000);
    assert_eq!(d.net("n19999").map(|n| n.name.as_str()), Some("n19999"));
    assert!(
        ms < 800,
        "connect must stay O(1) per net (HashMap index), took {ms}ms for 20k"
    );
    let t1 = std::time::Instant::now();
    let mut hits = 0usize;
    for i in 0..20_000u32 {
        let cell = format!("c{i}");
        if d.net_on(&cell, "Q").is_some() {
            hits += 1;
        }
    }
    let lookup_ms = t1.elapsed().as_millis();
    assert_eq!(hits, 20_000);
    assert_eq!(d.net_on("c0", "Q"), Some("n0"));
    assert_eq!(d.net_on("c19999", "Q"), Some("n19999"));
    assert!(
        lookup_ms < 800,
        "20k net_on lookups must stay O(1), took {lookup_ms}ms"
    );
}

#[test]
fn merge_net_and_instantiate_are_subquadratic() {
    let mut d = Design::new("merge");
    let t0 = std::time::Instant::now();
    for i in 0..20_000u32 {
        d.add_cell(&format!("c{i}"), CellKind::Hff);
        d.merge_net(Net {
            name: format!("n{i}"),
            endpoints: vec![Endpoint {
                cell: format!("c{i}"),
                pin: "Q".into(),
            }],
            attrs: Attrs::new(),
        });
    }
    let merge_ms = t0.elapsed().as_millis();
    assert_eq!(d.nets.len(), 20_000);
    assert_eq!(d.net_on("c0", "Q"), Some("n0"));
    assert_eq!(d.net_on("c19999", "Q"), Some("n19999"));
    assert_eq!(d.cell("c19999").map(|c| c.name.as_str()), Some("c19999"));
    assert!(
        merge_ms < 800,
        "merge_net must stay O(1) per net, took {merge_ms}ms for 20k"
    );

    let mut top = Design::new("top");
    let t1 = std::time::Instant::now();
    for i in 0..2_000u32 {
        let mut child = Design::new(&format!("m{i}"));
        child.add_cell("ff", CellKind::Hff);
        child.connect("q", "ff", "Q");
        top.instantiate(&format!("u{i}"), child, &vec![]);
    }
    let inst_ms = t1.elapsed().as_millis();
    assert_eq!(top.cells.len(), 2_000);
    assert!(top.cell("u1999_ff").is_some());
    assert_eq!(top.net_on("u1999_ff", "Q"), Some("u1999_q"));
    assert!(
        inst_ms < 1500,
        "instantiate of 2k children must stay subquadratic, took {inst_ms}ms"
    );
}

#[test]
fn blinky_has_lut_ff_iob() {
    let d = Design::structural_blinky();
    assert_eq!(d.cells.len(), 3);
    assert!(matches!(d.cell("u_lut").unwrap().kind, CellKind::Lut6 { .. }));
    assert!(matches!(d.cell("u_ff").unwrap().kind, CellKind::Hff));
}

#[test]
fn counter_has_four_distinct_luts() {
    let d = Design::structural_counter();
    let inits = d.lut_inits();
    assert_eq!(inits, INC4_INIT.to_vec());
    assert_eq!(inits.len(), 4);
    for i in 0..4 {
        for j in i + 1..4 {
            assert_ne!(inits[i], inits[j], "bit {i} INIT must differ from bit {j}");
        }
    }
    assert_eq!(d.net_on("u_lut3", "I3"), Some("q3"));
    assert_eq!(d.net_on("u_iob", "I"), Some("q3"));
}

#[test]
fn hnf_round_trip_preserves_attrs_and_init() {
    let mut d = Design::structural_blinky();
    d.mark_debug("q").unwrap();
    d.dont_touch("u_lut").unwrap();
    d.set_loc("led", "IOB_X2Y0").unwrap();
    d.set_iostandard("led", "LVCMOS18").unwrap();
    d.set_drive("led", "12").unwrap();
    d.set_slew("led", "SLOW").unwrap();
    d.set_pulltype("led", "NONE").unwrap();
    d.set_diff_term("led", "FALSE").unwrap();
    d.set_in_term("led", "NONE").unwrap();
    d.attrs.set("top", "blinky");
    let text = d.to_hnf();
    assert!(text.starts_with("HNF 1"), "{text}");
    let back = Design::from_hnf(&text).unwrap();
    assert_eq!(back.name, "blinky");
    assert_eq!(back.lut_inits(), d.lut_inits());
    assert!(back.net("q").unwrap().attrs.flag("mark_debug"));
    assert!(back.cell("u_lut").unwrap().attrs.flag("DONT_TOUCH"));
    assert_eq!(back.ports.iter().find(|p| p.name == "led").unwrap().attrs.get("LOC"), Some("IOB_X2Y0"));
    assert_eq!(
        back.ports.iter().find(|p| p.name == "led").unwrap().attrs.get("IOSTANDARD"),
        Some("LVCMOS18")
    );
    assert_eq!(
        back.ports.iter().find(|p| p.name == "led").unwrap().attrs.get("DRIVE"),
        Some("12")
    );
    assert_eq!(
        back.ports.iter().find(|p| p.name == "led").unwrap().attrs.get("SLEW"),
        Some("SLOW")
    );
    assert_eq!(
        back.ports.iter().find(|p| p.name == "led").unwrap().attrs.get("PULLTYPE"),
        Some("NONE")
    );
    assert_eq!(
        back.ports.iter().find(|p| p.name == "led").unwrap().attrs.get("DIFF_TERM"),
        Some("FALSE")
    );
    assert_eq!(
        back.ports.iter().find(|p| p.name == "led").unwrap().attrs.get("IN_TERM"),
        Some("NONE")
    );
    assert_eq!(back.net_on("u_lut", "I0"), Some("q"));
}

#[test]
fn instantiate_prefixes_and_rewires_ports() {
    let child = Design::structural_blinky();
    let mut top = Design::new("top");
    top.add_port("clk", PortDir::In);
    top.add_port("led", PortDir::Out);
    top.instantiate("u0", child, &vec![("clk".into(), "clk".into()), ("led".into(), "led".into())]);
    assert!(top.cell("u0_u_lut").is_some());
    assert!(top.cell("u_lut").is_none());
    assert_eq!(top.instances[0].module, "blinky");
    assert!(top.cells.len() >= 3);
}

#[test]
fn soft_diag_table_line_and_children() {
    let mut parent = SoftDiag::new("child_soft_incomplete", "ibex_core")
        .with_detail("ibex_if_stage")
        .with_span(SoftSpan::file_line("ibex_core.sv", 120));
    parent.push_child(
        SoftDiag::new("generate_not_lowered", "ibex_if_stage")
            .with_span(SoftSpan::file_line("ibex_if_stage.sv", 40)),
    );
    let mr = MapResult {
        design: Design::new("t"),
        softs: vec![parent],
    };
    let lines = mr.soft_table_lines();
    assert_eq!(lines.len(), 2);
    assert!(lines[0].contains("soft name=child_soft_incomplete"));
    assert!(lines[0].contains("span=ibex_core.sv:120"));
    assert!(lines[1].contains("soft name=generate_not_lowered"));
    assert!(mr.has_softs());
}

#[test]
fn hnf_round_trip_keeps_instances_kinds_and_order() {
    let mut d = Design::new("top");
    d.add_port("a", PortDir::In);
    d.add_port("y", PortDir::Inout);
    d.add_cell("l", CellKind::Lut6 { init: 0xdead_beef_0000_0001 });
    d.add_cell("bb", CellKind::BlackBox { module: "ip core".to_string() });
    d.add_cell("ila0", CellKind::Ila { net: "q".to_string() });
    d.add_cell("m", CellKind::Mac27);
    d.connect("q", "l", "O");
    d.connect("q", "bb", "I/0");
    d.merge_net(Net { name: "floating".to_string(), endpoints: Vec::new(), attrs: Attrs::new() });
    d.add_instance("u0", "child");
    d.instances[0].conns.push(("clk".to_string(), "q".to_string()));
    d.instances[0].conns.push(("rst".to_string(), "a:b".to_string()));
    d.set_cell_attr("bb", "NOTE", "two words").unwrap();
    d.instances[0].attrs.set("KEEP_HIERARCHY", "yes");
    let text = d.to_hnf();
    assert!(text.contains("iattr u0 KEEP_HIERARCHY yes\n"));
    let back = Design::from_hnf(&text).unwrap();
    assert_eq!(back.to_hnf(), text);
    assert_eq!(back.ports[1].dir, PortDir::Inout);
    assert_eq!(back.lut_inits(), vec![0xdead_beef_0000_0001]);
    assert!(matches!(&back.cells[1].kind, CellKind::BlackBox { module } if module == "ip core"));
    assert_eq!(back.cells[1].attrs.get("NOTE"), Some("two words"));
    assert_eq!(back.nets.len(), 2);
    assert_eq!(back.nets[1].name, "floating");
    assert!(back.nets[1].endpoints.is_empty());
    assert_eq!(back.nets[0].endpoints[1].pin, "I/0");
    assert_eq!(
        back.instances[0].conns,
        vec![("clk".to_string(), "q".to_string()), ("rst".to_string(), "a:b".to_string())]
    );
    assert_eq!(back.instances[0].attrs.get("KEEP_HIERARCHY"), Some("yes"));
}

#[test]
fn from_hnf_reports_each_error() {
    assert_eq!(Design::from_hnf("HNF 1\n# nothing\n").err(), Some("no design".to_string()));
    assert_eq!(Design::from_hnf("port a in\n").err(), Some("no design".to_string()));
    assert_eq!(Design::from_hnf("design d\nwire x\n").err(), Some("hnf cmd wire".to_string()));
    assert_eq!(Design::from_hnf("design d\ncell c Foo\n").err(), Some("unknown kind Foo".to_string()));
    assert_eq!(Design::from_hnf("design d\ncell c\n").err(), Some("kind".to_string()));
    assert_eq!(Design::from_hnf("design d\npattr p K V\n").err(), Some("no port p".to_string()));
    assert_eq!(Design::from_hnf("design d\ncattr c K V\n").err(), Some("no cell c".to_string()));
    assert_eq!(Design::from_hnf("design d\niattr u K V\n").err(), Some("no instance u".to_string()));
    assert_eq!(Design::from_hnf("design d\nnattr n K V\n").err(), Some("no net n".to_string()));
    assert_eq!(Design::from_hnf("design d\nnattr n\n").err(), Some("nattr k".to_string()));
    assert_eq!(Design::from_hnf("design d\nnet n a/b cpin\n").err(), Some("ep".to_string()));
    assert_eq!(Design::from_hnf("design d\ninst u\n").err(), Some("imod".to_string()));
    let d = Design::from_hnf("  design  d  \n  dattr  k  a   b \n").unwrap();
    assert_eq!(d.attrs.get("k"), Some("a b"));
    let e = Design::from_hnf("HNF 9\n").err();
    assert_eq!(e, Some("no design".to_string()));
    assert_eq!(Design::from_hnf("design\n").unwrap().name, "top");
}

#[test]
fn attrs_are_listed_in_key_order() {
    let mut a = Attrs::new();
    a.set("b", "2");
    a.set("a", "1");
    a.set("c", "3");
    a.set("a", "9");
    let keys: Vec<&str> = a.entries().iter().map(|(k, _)| k.as_str()).collect();
    assert_eq!(keys, vec!["a", "b", "c"]);
    assert_eq!(a.get("a"), Some("9"));
    let mut d = Design::new("t");
    d.attrs.set("ZED", "1");
    d.attrs.set("ALPHA", "2");
    assert!(d.to_hnf().starts_with("HNF 1\ndesign t\ndattr ALPHA 2\ndattr ZED 1\n"));
}
