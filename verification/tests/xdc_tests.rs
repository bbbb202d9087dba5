use helion::sta::Clock;
use helion::xdc::{sdc_take_clocks, xdc_command_lines, xdc_create_clock, xdc_false_path, xdc_port_property, PortProperty};

fn words(line: &str) -> Vec<Vec<char>> {
    line.split_whitespace().map(|w| w.chars().collect()).collect()
}

fn chars(s: &str) -> Vec<char> {
    s.chars().collect()
}

#[test]
fn command_lines_drop_comments_and_blank_lines() {
    let t = "create_clock -period 10 [get_ports clk] # main\n\n   # only a comment\r\nset_false_path -from [get_ports rst]\r\n";
    let ls: Vec<String> = xdc_command_lines(t).into_iter().map(|l| l.into_iter().collect()).collect();
    assert_eq!(ls, vec!["create_clock -period 10 [get_ports clk]".to_string(), "set_false_path -from [get_ports rst]".to_string()]);
}

#[test]
fn create_clock_reads_period_name_and_port() {
    let line = "create_clock -period 10.0 -name sys [get_ports clk_in]";
    let mut clocks: Vec<Clock> = Vec::new();
    xdc_create_clock(&mut clocks, &chars(line), &words(line), &vec![("10.0".to_string(), 10000)]).unwrap();
    assert_eq!(clocks.len(), 1);
    assert_eq!(clocks[0].name, "sys");
    assert_eq!(clocks[0].period_ps, 10000);
    assert_eq!(clocks[0].source, "clk_in");
    assert!(!clocks[0].generated);
}

#[test]
fn create_clock_names_clock_after_port_and_clamps_period() {
    let line = "create_clock -period -3 [get_ports xtal]";
    let mut clocks: Vec<Clock> = Vec::new();
    xdc_create_clock(&mut clocks, &chars(line), &words(line), &vec![("-3".to_string(), -3000)]).unwrap();
    assert_eq!(clocks[0].name, "xtal");
    assert_eq!(clocks[0].period_ps, 1);
}

#[test]
fn create_clock_without_period_is_refused() {
    let line = "create_clock -name sys [get_ports clk]";
    let mut clocks: Vec<Clock> = Vec::new();
    let e = xdc_create_clock(&mut clocks, &chars(line), &words(line), &vec![]).unwrap_err();
    assert_eq!(e, "create_clock missing -period: create_clock -name sys [get_ports clk]");
    assert!(clocks.is_empty());
}

#[test]
fn false_path_names_port_or_whole_command() {
    let mut paths: Vec<String> = Vec::new();
    xdc_false_path(&mut paths, &words("set_false_path -from [get_ports rst_n]"));
    xdc_false_path(&mut paths, &words("set_false_path -through x"));
    assert_eq!(paths, vec!["rst_n".to_string(), "set_false_path -through x".to_string()]);
}

#[test]
fn sdc_without_clock_is_refused() {
    let mut clocks: Vec<Clock> = Vec::new();
    assert_eq!(sdc_take_clocks(&mut clocks, Vec::new()).unwrap_err(), "SDC contained no create_clock");
    let line = "create_clock -period 5 [get_ports c]";
    let mut found: Vec<Clock> = Vec::new();
    xdc_create_clock(&mut found, &chars(line), &words(line), &vec![("5".to_string(), 5000)]).unwrap();
    sdc_take_clocks(&mut clocks, found).unwrap();
    assert_eq!(clocks.len(), 1);
    assert_eq!(clocks[0].period_ps, 5000);
}

#[test]
fn io_delay_reads_port_and_first_number() {
    let line = "set_input_delay -clock clk 2.5 [get_ports din] 7";
    let nums = vec![("2.5".to_string(), 2500), ("7".to_string(), 7000)];
    let (port, ps) = helion::xdc::xdc_io_delay(&chars(line), &words(line), &nums).unwrap();
    assert_eq!(port, "din");
    assert_eq!(ps, 2500);
    let line = "set_output_delay -clock clk [get_ports q]";
    assert_eq!(
        helion::xdc::xdc_io_delay(&chars(line), &words(line), &vec![]).unwrap_err(),
        "set_output_delay -clock clk [get_ports q]: missing delay"
    );
    let line = "set_output_delay 1";
    assert_eq!(
        helion::xdc::xdc_io_delay(&chars(line), &words(line), &vec![("1".to_string(), 1000)]).unwrap_err(),
        "set_output_delay 1: missing port"
    );
}

#[test]
fn clock_uncertainty_splits_setup_and_hold() {
    let mut us = Vec::new();
    let line = "set_clock_uncertainty -setup 0.2 [get_clocks sys]";
    let nums = vec![("0.2".to_string(), 200)];
    helion::xdc::xdc_clock_uncertainty(&mut us, &chars(line), &words(line), &nums).unwrap();
    assert_eq!(us.len(), 1);
    assert_eq!((us[0].setup_ps, us[0].hold_ps), (200, 0));
    assert_eq!(us[0].to, "sys");
    assert_eq!(us[0].from, "");
    let line = "set_clock_uncertainty 0.1 -from [get_clocks a] -to [get_clocks b]";
    let nums = vec![("0.1".to_string(), 100)];
    helion::xdc::xdc_clock_uncertainty(&mut us, &chars(line), &words(line), &nums).unwrap();
    assert_eq!((us[1].from.as_str(), us[1].to.as_str(), us[1].setup_ps, us[1].hold_ps), ("a", "b", 100, 100));
    let line = "set_clock_uncertainty -hold [get_clocks a]";
    assert_eq!(
        helion::xdc::xdc_clock_uncertainty(&mut us, &chars(line), &words(line), &vec![]).unwrap_err(),
        "set_clock_uncertainty -hold [get_clocks a]: missing uncertainty"
    );
    assert_eq!(us.len(), 2);
}

#[test]
fn path_delays_read_bound_and_endpoints() {
    let mut maxd = Vec::new();
    let line = "set_max_delay 4.5 -datapath_only -from [get_ports a] -to [get_ports b]";
    helion::xdc::xdc_max_delay(&mut maxd, &chars(line), &words(line), &vec![("4.5".to_string(), 4500)]).unwrap();
    assert_eq!((maxd[0].from.as_str(), maxd[0].to.as_str(), maxd[0].delay_ps, maxd[0].datapath_only), ("a", "b", 4500, true));
    let mut mind = Vec::new();
    let line = "set_min_delay -to [get_pins u/D]";
    assert_eq!(
        helion::xdc::xdc_min_delay(&mut mind, &chars(line), &words(line), &vec![]).unwrap_err(),
        "set_min_delay -to [get_pins u/D]: missing delay"
    );
}

#[test]
fn multicycle_reads_setup_and_hold_multipliers() {
    let mut v = Vec::new();
    let line = "set_multicycle_path -setup 3 -from [get_cells a] -to [get_cells b]";
    helion::xdc::xdc_multicycle(&mut v, &chars(line), &words(line)).unwrap();
    assert_eq!((v[0].from.as_str(), v[0].to.as_str(), v[0].setup_mult, v[0].hold_mult), ("a", "b", 3, 0));
    let line = "set_multicycle_path -hold 2 -end";
    helion::xdc::xdc_multicycle(&mut v, &chars(line), &words(line)).unwrap();
    assert_eq!((v[1].setup_mult, v[1].hold_mult, v[1].end, v[1].start), (1, 2, true, false));
    let line = "set_multicycle_path 0";
    helion::xdc::xdc_multicycle(&mut v, &chars(line), &words(line)).unwrap();
    assert_eq!(v[2].setup_mult, 1);
    let line = "set_multicycle_path -setup";
    assert_eq!(
        helion::xdc::xdc_multicycle(&mut v, &chars(line), &words(line)).unwrap_err(),
        "set_multicycle_path -setup: missing path multiplier"
    );
}

#[test]
fn generated_clock_follows_master_and_divider() {
    let mut clocks: Vec<Clock> = Vec::new();
    let line = "create_clock -period 10 -name sys [get_ports clk]";
    xdc_create_clock(&mut clocks, &chars(line), &words(line), &vec![("10".to_string(), 10000)]).unwrap();
    helion::xdc::xdc_generated_clock(&mut clocks, &words("create_generated_clock -name half -source [get_ports clk] -divide_by 2 [get_pins div/Q]")).unwrap();
    assert_eq!(clocks.len(), 2);
    assert_eq!(clocks[1].name, "half");
    assert_eq!(clocks[1].period_ps, 20000);
    assert_eq!(clocks[1].source, "div");
    assert_eq!(clocks[1].master.as_deref(), Some("sys"));
    let mut none: Vec<Clock> = Vec::new();
    assert_eq!(
        helion::xdc::xdc_generated_clock(&mut none, &words("create_generated_clock -name g")).unwrap_err(),
        "unknown master clock clk"
    );
}

#[test]
fn latency_and_disable_timing() {
    let mut lat = Vec::new();
    let line = "set_clock_latency -source -late 0.3 [get_clocks sys]";
    helion::xdc::xdc_clock_latency(&mut lat, &chars(line), &words(line), &vec![("0.3".to_string(), 300)]).unwrap();
    assert_eq!((lat[0].clock.as_str(), lat[0].late_ps, lat[0].early_ps, lat[0].source), ("sys", 300, 0, true));
    let mut dis = Vec::new();
    let line = "set_disable_timing -from A -to Z [get_cells u1]";
    helion::xdc::xdc_disable_timing(&mut dis, &chars(line), &words(line)).unwrap();
    assert_eq!(dis[0].object, "u1");
    let line = "set_disable_timing";
    assert_eq!(
        helion::xdc::xdc_disable_timing(&mut dis, &chars(line), &words(line)).unwrap_err(),
        "set_disable_timing: set_disable_timing needs -from/-to or a cell/pin"
    );
}

#[test]
fn propagated_clock_and_sense() {
    let mut pc: Vec<String> = Vec::new();
    let line = "set_propagated_clock [get_clocks sys]";
    helion::xdc::xdc_propagated_clock(&mut pc, &chars(line), &words(line)).unwrap();
    helion::xdc::xdc_propagated_clock(&mut pc, &chars(line), &words(line)).unwrap();
    let line = "set_propagated_clock [all_clocks]";
    helion::xdc::xdc_propagated_clock(&mut pc, &chars(line), &words(line)).unwrap();
    assert_eq!(pc, vec!["sys".to_string(), "*".to_string()]);
    let mut cs = Vec::new();
    let line = "set_clock_sense -negative [get_pins inv/O]";
    helion::xdc::xdc_clock_sense(&mut cs, &chars(line), &words(line)).unwrap();
    assert_eq!((cs[0].object.as_str(), cs[0].sense.as_str()), ("inv", "negative"));
    let line = "set_clock_sense [get_pins inv/O]";
    assert_eq!(
        helion::xdc::xdc_clock_sense(&mut cs, &chars(line), &words(line)).unwrap_err(),
        "set_clock_sense [get_pins inv/O]: set_clock_sense needs -positive/-negative/-stop_propagation"
    );
}

#[test]
fn system_jitter_and_time_borrow_take_first_number() {
    let line = "set_system_jitter -quiet 0.05 0.07";
    let nums = vec![("0.05".to_string(), 50), ("0.07".to_string(), 70)];
    assert_eq!(helion::xdc::xdc_system_jitter(&chars(line), &words(line), &nums).unwrap(), 50);
    let line = "set_system_jitter";
    assert_eq!(helion::xdc::xdc_system_jitter(&chars(line), &words(line), &vec![]).unwrap_err(), "set_system_jitter: missing system jitter");
    let mut b = Vec::new();
    let line = "set_max_time_borrow 1.5 [get_cells latch0]";
    helion::xdc::xdc_max_time_borrow(&mut b, &chars(line), &words(line), &vec![("1.5".to_string(), 1500)]).unwrap();
    assert_eq!((b[0].object.as_str(), b[0].borrow_ps), ("latch0", 1500));
}

#[test]
fn data_check_reads_hold_value_and_clock() {
    let mut v = Vec::new();
    let line = "set_data_check -hold 0.4 -from [get_pins a/Q] -to [get_pins b/D] -clock {sys}";
    helion::xdc::xdc_data_check(&mut v, &chars(line), &words(line), &vec![("0.4".to_string(), 400)]).unwrap();
    assert_eq!((v[0].from.as_str(), v[0].to.as_str(), v[0].setup_ps, v[0].hold_ps, v[0].clock.as_str()), ("a", "b", 0, 400, "sys"));
    let line = "set_data_check 0.4";
    assert_eq!(
        helion::xdc::xdc_data_check(&mut v, &chars(line), &words(line), &vec![("0.4".to_string(), 400)]).unwrap_err(),
        "set_data_check 0.4: set_data_check needs -from/-to"
    );
}

#[test]
fn case_analysis_and_input_jitter() {
    let mut ca = Vec::new();
    let line = "set_case_analysis {Rising} [get_pins mux/S]";
    helion::xdc::xdc_case_analysis(&mut ca, &chars(line), &words(line)).unwrap();
    assert_eq!((ca[0].value.as_str(), ca[0].object.as_str()), ("rising", "mux"));
    let line = "set_case_analysis zero [get_ports mode]";
    helion::xdc::xdc_case_analysis(&mut ca, &chars(line), &words(line)).unwrap();
    assert_eq!(ca[1].value, "0");
    let line = "set_case_analysis 2 [get_ports mode]";
    assert_eq!(
        helion::xdc::xdc_case_analysis(&mut ca, &chars(line), &words(line)).unwrap_err(),
        "set_case_analysis 2 [get_ports mode]: set_case_analysis missing 0/1/rising/falling"
    );
    let mut ij = Vec::new();
    let line = "set_input_jitter [get_clocks sys] 0.1";
    helion::xdc::xdc_input_jitter(&mut ij, &chars(line), &words(line), &vec![("0.1".to_string(), 100)]).unwrap();
    assert_eq!((ij[0].clock.as_str(), ij[0].jitter_ps), ("sys", 100));
}

#[test]
fn port_properties_name_port_and_value() {
    let (k, p, v) = xdc_port_property(&words("set_property PACKAGE_PIN IOB_X5Y0 [get_ports led]")).unwrap();
    assert_eq!((k, p.as_str(), v.as_str()), (PortProperty::PackagePin, "led", "IOB_X5Y0"));
    let (k, p, v) = xdc_port_property(&words("set_property iostandard LVCMOS33 {btn}")).unwrap();
    assert_eq!((k, p.as_str(), v.as_str()), (PortProperty::IoStandard, "btn", "LVCMOS33"));
    assert!(xdc_port_property(&words("set_property PACKAGE_PIN IOB_X5Y0 {btn}")).is_none());
    assert!(xdc_port_property(&words("set_property LOC X")).is_none());
}
