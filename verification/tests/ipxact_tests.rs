use helion::ipxact::{catalog, from_xml, pack_absdiff, pack_accum_mm, pack_addsub_mm, pack_arb_rr, pack_bcd_inc, pack_bin2gray, pack_bin2oh, pack_byte_rev, pack_cam_slot, pack_cdc_pulse, pack_clamp, pack_clkdiv, pack_clz, pack_compare_mm, pack_cordic_step, pack_crc16, pack_crc32, pack_crc8, pack_ctz, pack_debounce, pack_div_restoring, pack_edge_cnt, pack_edge_det, pack_fir_tap, pack_gpio, pack_gray2bin, pack_gray_cnt, pack_hamming, pack_iir_biquad, pack_lfsr, pack_lfsr16, pack_mailbox_mm, pack_majority3, pack_manchester_enc, pack_mask_gen, pack_minmax, pack_mux4, pack_ones_comp, pack_parity, pack_phase_accum, pack_piso, pack_popcount, pack_prio_enc, pack_pulse_ext, pack_pwm, pack_pwm_center, pack_pwm_deadtime, pack_pwm_phase, pack_quad_enc, pack_rng_xorshift, pack_rot_mm, pack_rr_token, pack_rv32, pack_saturate, pack_scoreboard, pack_scratch_mm, pack_shift_reg, pack_sipo, pack_skid_buf, pack_spi_mm, pack_spi_slave, pack_sqrt_digit, pack_sync_fifo, pack_timer, pack_timer_cap, pack_traffic_light, pack_uart, pack_uart_rx, pack_watchdog, to_xml, parse_helion, to_helion_manifest};

#[test]
fn uart_pack_reimport_helion_mm() {
    let ip = pack_uart();
    assert_eq!(ip.bus, "Helion-MM");
    assert_ne!(ip.bus, "AXI");
    let xml = to_xml(&ip);
    let back = from_xml(&xml).unwrap();
    assert_eq!(ip, back);
    let gpio = pack_gpio();
    assert_eq!(gpio.name, "h_gpio");
    assert_eq!(gpio.bus, "Helion-MM");
    let rv = pack_rv32();
    assert_eq!(rv.name, "h_rv32_hb1");
    assert_eq!(rv.bus, "Helion-MM");
    assert_ne!(rv.bus, "AXI");
    let fifo = pack_sync_fifo();
    assert_eq!(fifo.name, "h_sync_fifo");
    assert_eq!(fifo.bus, "Helion-ST");
    assert_ne!(fifo.bus, "AXI");
    let timer = pack_timer();
    assert_eq!(timer.name, "h_timer");
    assert_eq!(timer.bus, "Helion-MM");
    assert_ne!(timer.bus, "AXI");
    let pwm = pack_pwm();
    assert_eq!(pwm.name, "h_pwm");
    assert_eq!(pwm.bus, "Helion-MM");
    assert_ne!(pwm.bus, "AXI");
    let spi = pack_spi_mm();
    assert_eq!(spi.name, "h_spi_mm");
    assert_eq!(spi.bus, "Helion-MM");
    assert_ne!(spi.bus, "AXI");
    let deb = pack_debounce();
    assert_eq!(deb.name, "h_debounce");
    assert_eq!(deb.bus, "Helion-ST");
    assert_ne!(deb.bus, "AXI");
    let cdiv = pack_clkdiv();
    assert_eq!(cdiv.name, "h_clkdiv");
    assert_eq!(cdiv.bus, "Helion-ST");
    assert_ne!(cdiv.bus, "AXI");
    let cat = catalog();
    assert!(cat.iter().any(|c| c.name == "h_uart"));
    assert!(cat.iter().any(|c| c.name == "h_gpio"));
    assert!(cat.iter().any(|c| c.name == "h_rv32_hb1"));
    assert!(cat.iter().any(|c| c.name == "h_sync_fifo"));
    assert!(cat.iter().any(|c| c.name == "h_timer"));
    assert!(cat.iter().any(|c| c.name == "h_pwm"));
    assert!(cat.iter().any(|c| c.name == "h_spi_mm"));
    assert!(cat.iter().any(|c| c.name == "h_debounce"));
    assert!(cat.iter().any(|c| c.name == "h_clkdiv"));
    assert!(cat.iter().all(|c| c.bus != "AXI"));
    assert!(cat.iter().all(|c| !c.bus.to_ascii_lowercase().contains("axi")));
    assert_eq!(pack_uart().vlnv(), "community:helion:h_uart:1.0");
    assert_eq!(pack_sync_fifo().vlnv(), "community:helion:h_sync_fifo:1.0");
    assert_eq!(pack_timer().vlnv(), "community:helion:h_timer:1.0");
    assert_eq!(pack_pwm().vlnv(), "community:helion:h_pwm:1.0");
    assert_eq!(pack_spi_mm().vlnv(), "community:helion:h_spi_mm:1.0");
    assert_eq!(pack_debounce().vlnv(), "community:helion:h_debounce:1.0");
    assert_eq!(pack_clkdiv().vlnv(), "community:helion:h_clkdiv:1.0");
    let edge = pack_edge_det();
    assert_eq!(edge.name, "h_edge_det");
    assert_eq!(edge.bus, "Helion-ST");
    assert_ne!(edge.bus, "AXI");
    let wdog = pack_watchdog();
    assert_eq!(wdog.name, "h_watchdog");
    assert_eq!(wdog.bus, "Helion-MM");
    assert_ne!(wdog.bus, "AXI");
    assert!(cat.iter().any(|c| c.name == "h_edge_det"));
    assert!(cat.iter().any(|c| c.name == "h_watchdog"));
    assert_eq!(pack_edge_det().vlnv(), "community:helion:h_edge_det:1.0");
    assert_eq!(pack_watchdog().vlnv(), "community:helion:h_watchdog:1.0");
    let crc = pack_crc32();
    assert_eq!(crc.name, "h_crc32");
    assert_eq!(crc.bus, "Helion-ST");
    assert_ne!(crc.bus, "AXI");
    let lfsr = pack_lfsr();
    assert_eq!(lfsr.name, "h_lfsr");
    assert_eq!(lfsr.bus, "Helion-ST");
    assert_ne!(lfsr.bus, "AXI");
    assert!(cat.iter().any(|c| c.name == "h_crc32"));
    assert!(cat.iter().any(|c| c.name == "h_lfsr"));
    assert_eq!(pack_crc32().vlnv(), "community:helion:h_crc32:1.0");
    assert_eq!(pack_lfsr().vlnv(), "community:helion:h_lfsr:1.0");
    let gray = pack_gray_cnt();
    assert_eq!(gray.name, "h_gray_cnt");
    assert_eq!(gray.bus, "Helion-ST");
    assert_ne!(gray.bus, "AXI");
    let scratch = pack_scratch_mm();
    assert_eq!(scratch.name, "h_scratch_mm");
    assert_eq!(scratch.bus, "Helion-MM");
    assert_ne!(scratch.bus, "AXI");
    assert!(cat.iter().any(|c| c.name == "h_gray_cnt"));
    assert!(cat.iter().any(|c| c.name == "h_scratch_mm"));
    assert_eq!(pack_gray_cnt().vlnv(), "community:helion:h_gray_cnt:1.0");
    assert_eq!(pack_scratch_mm().vlnv(), "community:helion:h_scratch_mm:1.0");
    let pop = pack_popcount();
    assert_eq!(pop.name, "h_popcount");
    assert_eq!(pop.bus, "Helion-ST");
    assert_ne!(pop.bus, "AXI");
    let sat = pack_saturate();
    assert_eq!(sat.name, "h_saturate");
    assert_eq!(sat.bus, "Helion-ST");
    assert_ne!(sat.bus, "AXI");
    assert!(cat.iter().any(|c| c.name == "h_popcount"));
    assert!(cat.iter().any(|c| c.name == "h_saturate"));
    assert_eq!(pack_popcount().vlnv(), "community:helion:h_popcount:1.0");
    assert_eq!(pack_saturate().vlnv(), "community:helion:h_saturate:1.0");
    let sreg = pack_shift_reg();
    assert_eq!(sreg.name, "h_shift_reg");
    assert_eq!(sreg.bus, "Helion-ST");
    assert_ne!(sreg.bus, "AXI");
    let cmp = pack_compare_mm();
    assert_eq!(cmp.name, "h_compare_mm");
    assert_eq!(cmp.bus, "Helion-MM");
    assert_ne!(cmp.bus, "AXI");
    assert!(cat.iter().any(|c| c.name == "h_shift_reg"));
    assert!(cat.iter().any(|c| c.name == "h_compare_mm"));
    assert_eq!(pack_shift_reg().vlnv(), "community:helion:h_shift_reg:1.0");
    assert_eq!(pack_compare_mm().vlnv(), "community:helion:h_compare_mm:1.0");
    let clz = pack_clz();
    assert_eq!(clz.name, "h_clz");
    assert_eq!(clz.bus, "Helion-ST");
    assert_ne!(clz.bus, "AXI");
    let brev = pack_byte_rev();
    assert_eq!(brev.name, "h_byte_rev");
    assert_eq!(brev.bus, "Helion-ST");
    assert_ne!(brev.bus, "AXI");
    assert!(cat.iter().any(|c| c.name == "h_clz"));
    assert!(cat.iter().any(|c| c.name == "h_byte_rev"));
    assert_eq!(pack_clz().vlnv(), "community:helion:h_clz:1.0");
    assert_eq!(pack_byte_rev().vlnv(), "community:helion:h_byte_rev:1.0");
    let arb = pack_arb_rr();
    assert_eq!(arb.name, "h_arb_rr");
    assert_eq!(arb.bus, "Helion-ST");
    assert_ne!(arb.bus, "AXI");
    let ctz = pack_ctz();
    assert_eq!(ctz.name, "h_ctz");
    assert_eq!(ctz.bus, "Helion-ST");
    assert_ne!(ctz.bus, "AXI");
    assert!(cat.iter().any(|c| c.name == "h_arb_rr"));
    assert!(cat.iter().any(|c| c.name == "h_ctz"));
    assert_eq!(pack_arb_rr().vlnv(), "community:helion:h_arb_rr:1.0");
    assert_eq!(pack_ctz().vlnv(), "community:helion:h_ctz:1.0");
    let mmx = pack_minmax();
    assert_eq!(mmx.name, "h_minmax");
    assert_eq!(mmx.bus, "Helion-ST");
    assert_ne!(mmx.bus, "AXI");
    let acc = pack_accum_mm();
    assert_eq!(acc.name, "h_accum_mm");
    assert_eq!(acc.bus, "Helion-MM");
    assert_ne!(acc.bus, "AXI");
    assert!(cat.iter().any(|c| c.name == "h_minmax"));
    assert!(cat.iter().any(|c| c.name == "h_accum_mm"));
    assert_eq!(pack_minmax().vlnv(), "community:helion:h_minmax:1.0");
    assert_eq!(pack_accum_mm().vlnv(), "community:helion:h_accum_mm:1.0");
    let par = pack_parity();
    assert_eq!(par.name, "h_parity");
    assert_eq!(par.bus, "Helion-ST");
    assert_ne!(par.bus, "AXI");
    let ham = pack_hamming();
    assert_eq!(ham.name, "h_hamming");
    assert_eq!(ham.bus, "Helion-ST");
    assert_ne!(ham.bus, "AXI");
    let rot = pack_rot_mm();
    assert_eq!(rot.name, "h_rot_mm");
    assert_eq!(rot.bus, "Helion-MM");
    assert_ne!(rot.bus, "AXI");
    let mgen = pack_mask_gen();
    assert_eq!(mgen.name, "h_mask_gen");
    assert_eq!(mgen.bus, "Helion-ST");
    assert_ne!(mgen.bus, "AXI");
    assert!(cat.iter().any(|c| c.name == "h_parity"));
    assert!(cat.iter().any(|c| c.name == "h_hamming"));
    assert!(cat.iter().any(|c| c.name == "h_rot_mm"));
    assert!(cat.iter().any(|c| c.name == "h_mask_gen"));
    assert_eq!(pack_parity().vlnv(), "community:helion:h_parity:1.0");
    assert_eq!(pack_hamming().vlnv(), "community:helion:h_hamming:1.0");
    assert_eq!(pack_rot_mm().vlnv(), "community:helion:h_rot_mm:1.0");
    assert_eq!(pack_mask_gen().vlnv(), "community:helion:h_mask_gen:1.0");
    let ad = pack_absdiff();
    assert_eq!(ad.name, "h_absdiff");
    assert_eq!(ad.bus, "Helion-ST");
    assert_ne!(ad.bus, "AXI");
    let cl = pack_clamp();
    assert_eq!(cl.name, "h_clamp");
    assert_eq!(cl.bus, "Helion-ST");
    assert_ne!(cl.bus, "AXI");
    let b2 = pack_bin2oh();
    assert_eq!(b2.name, "h_bin2oh");
    assert_eq!(b2.bus, "Helion-ST");
    assert_ne!(b2.bus, "AXI");
    let tc = pack_timer_cap();
    assert_eq!(tc.name, "h_timer_cap");
    assert_eq!(tc.bus, "Helion-MM");
    assert_ne!(tc.bus, "AXI");
    assert!(cat.iter().any(|c| c.name == "h_absdiff"));
    assert!(cat.iter().any(|c| c.name == "h_clamp"));
    assert!(cat.iter().any(|c| c.name == "h_bin2oh"));
    assert!(cat.iter().any(|c| c.name == "h_timer_cap"));
    assert_eq!(pack_absdiff().vlnv(), "community:helion:h_absdiff:1.0");
    assert_eq!(pack_clamp().vlnv(), "community:helion:h_clamp:1.0");
    assert_eq!(pack_bin2oh().vlnv(), "community:helion:h_bin2oh:1.0");
    assert_eq!(pack_timer_cap().vlnv(), "community:helion:h_timer_cap:1.0");
    let m4 = pack_mux4();
    assert_eq!(m4.name, "h_mux4");
    assert_eq!(m4.bus, "Helion-ST");
    assert_ne!(m4.bus, "AXI");
    let asmm = pack_addsub_mm();
    assert_eq!(asmm.name, "h_addsub_mm");
    assert_eq!(asmm.bus, "Helion-MM");
    assert_ne!(asmm.bus, "AXI");
    let oc = pack_ones_comp();
    assert_eq!(oc.name, "h_ones_comp");
    assert_eq!(oc.bus, "Helion-ST");
    assert_ne!(oc.bus, "AXI");
    let pe = pack_pulse_ext();
    assert_eq!(pe.name, "h_pulse_ext");
    assert_eq!(pe.bus, "Helion-ST");
    assert_ne!(pe.bus, "AXI");
    assert!(cat.iter().any(|c| c.name == "h_mux4"));
    assert!(cat.iter().any(|c| c.name == "h_addsub_mm"));
    assert!(cat.iter().any(|c| c.name == "h_ones_comp"));
    assert!(cat.iter().any(|c| c.name == "h_pulse_ext"));
    assert_eq!(pack_mux4().vlnv(), "community:helion:h_mux4:1.0");
    assert_eq!(pack_addsub_mm().vlnv(), "community:helion:h_addsub_mm:1.0");
    assert_eq!(pack_ones_comp().vlnv(), "community:helion:h_ones_comp:1.0");
    assert_eq!(pack_pulse_ext().vlnv(), "community:helion:h_pulse_ext:1.0");
    let rng = pack_rng_xorshift();
    assert_eq!(rng.name, "h_rng_xorshift");
    assert_eq!(rng.bus, "Helion-ST");
    assert_ne!(rng.bus, "AXI");
    let penc = pack_prio_enc();
    assert_eq!(penc.name, "h_prio_enc");
    assert_eq!(penc.bus, "Helion-ST");
    assert_ne!(penc.bus, "AXI");
    let sk = pack_skid_buf();
    assert_eq!(sk.name, "h_skid_buf");
    assert_eq!(sk.bus, "Helion-ST");
    assert_ne!(sk.bus, "AXI");
    let bcd = pack_bcd_inc();
    assert_eq!(bcd.name, "h_bcd_inc");
    assert_eq!(bcd.bus, "Helion-ST");
    assert_ne!(bcd.bus, "AXI");
    assert!(cat.iter().any(|c| c.name == "h_rng_xorshift"));
    assert!(cat.iter().any(|c| c.name == "h_prio_enc"));
    assert!(cat.iter().any(|c| c.name == "h_skid_buf"));
    assert!(cat.iter().any(|c| c.name == "h_bcd_inc"));
    assert_eq!(pack_rng_xorshift().vlnv(), "community:helion:h_rng_xorshift:1.0");
    assert_eq!(pack_prio_enc().vlnv(), "community:helion:h_prio_enc:1.0");
    assert_eq!(pack_skid_buf().vlnv(), "community:helion:h_skid_buf:1.0");
    assert_eq!(pack_bcd_inc().vlnv(), "community:helion:h_bcd_inc:1.0");
    let mb = pack_mailbox_mm();
    assert_eq!(mb.name, "h_mailbox_mm");
    assert_eq!(mb.bus, "Helion-MM");
    assert_ne!(mb.bus, "AXI");
    let pdt = pack_pwm_deadtime();
    assert_eq!(pdt.name, "h_pwm_deadtime");
    assert_eq!(pdt.bus, "Helion-ST");
    assert_ne!(pdt.bus, "AXI");
    let l16 = pack_lfsr16();
    assert_eq!(l16.name, "h_lfsr16");
    assert_eq!(l16.bus, "Helion-ST");
    assert_ne!(l16.bus, "AXI");
    let ec = pack_edge_cnt();
    assert_eq!(ec.name, "h_edge_cnt");
    assert_eq!(ec.bus, "Helion-ST");
    assert_ne!(ec.bus, "AXI");
    assert!(cat.iter().any(|c| c.name == "h_mailbox_mm"));
    assert!(cat.iter().any(|c| c.name == "h_pwm_deadtime"));
    assert!(cat.iter().any(|c| c.name == "h_lfsr16"));
    assert!(cat.iter().any(|c| c.name == "h_edge_cnt"));
    assert_eq!(pack_mailbox_mm().vlnv(), "community:helion:h_mailbox_mm:1.0");
    assert_eq!(pack_pwm_deadtime().vlnv(), "community:helion:h_pwm_deadtime:1.0");
    assert_eq!(pack_lfsr16().vlnv(), "community:helion:h_lfsr16:1.0");
    assert_eq!(pack_edge_cnt().vlnv(), "community:helion:h_edge_cnt:1.0");
    let urx = pack_uart_rx();
    assert_eq!(urx.name, "h_uart_rx");
    assert_eq!(urx.bus, "Helion-MM");
    assert_ne!(urx.bus, "AXI");
    let dvr = pack_div_restoring();
    assert_eq!(dvr.name, "h_div_restoring");
    assert_eq!(dvr.bus, "Helion-ST");
    assert_ne!(dvr.bus, "AXI");
    let sq = pack_sqrt_digit();
    assert_eq!(sq.name, "h_sqrt_digit");
    assert_eq!(sq.bus, "Helion-ST");
    assert_ne!(sq.bus, "AXI");
    let cord = pack_cordic_step();
    assert_eq!(cord.name, "h_cordic_step");
    assert_eq!(cord.bus, "Helion-ST");
    assert_ne!(cord.bus, "AXI");
    assert!(cat.iter().any(|c| c.name == "h_uart_rx"));
    assert!(cat.iter().any(|c| c.name == "h_div_restoring"));
    assert!(cat.iter().any(|c| c.name == "h_sqrt_digit"));
    assert!(cat.iter().any(|c| c.name == "h_cordic_step"));
    assert_eq!(pack_uart_rx().vlnv(), "community:helion:h_uart_rx:1.0");
    assert_eq!(pack_div_restoring().vlnv(), "community:helion:h_div_restoring:1.0");
    assert_eq!(pack_sqrt_digit().vlnv(), "community:helion:h_sqrt_digit:1.0");
    assert_eq!(pack_cordic_step().vlnv(), "community:helion:h_cordic_step:1.0");
    let pa = pack_phase_accum();
    assert_eq!(pa.name, "h_phase_accum");
    assert_eq!(pa.bus, "Helion-ST");
    assert_ne!(pa.bus, "AXI");
    let ft = pack_fir_tap();
    assert_eq!(ft.name, "h_fir_tap");
    assert_eq!(ft.bus, "Helion-ST");
    assert_ne!(ft.bus, "AXI");
    let iir = pack_iir_biquad();
    assert_eq!(iir.name, "h_iir_biquad");
    assert_eq!(iir.bus, "Helion-ST");
    assert_ne!(iir.bus, "AXI");
    let cdc = pack_cdc_pulse();
    assert_eq!(cdc.name, "h_cdc_pulse");
    assert_eq!(cdc.bus, "Helion-ST");
    assert_ne!(cdc.bus, "AXI");
    assert!(cat.iter().any(|c| c.name == "h_phase_accum"));
    assert!(cat.iter().any(|c| c.name == "h_fir_tap"));
    assert!(cat.iter().any(|c| c.name == "h_iir_biquad"));
    assert!(cat.iter().any(|c| c.name == "h_cdc_pulse"));
    assert_eq!(pack_phase_accum().vlnv(), "community:helion:h_phase_accum:1.0");
    assert_eq!(pack_fir_tap().vlnv(), "community:helion:h_fir_tap:1.0");
    assert_eq!(pack_iir_biquad().vlnv(), "community:helion:h_iir_biquad:1.0");
    assert_eq!(pack_cdc_pulse().vlnv(), "community:helion:h_cdc_pulse:1.0");
    let c8 = pack_crc8();
    assert_eq!(c8.name, "h_crc8");
    assert_eq!(c8.bus, "Helion-ST");
    assert_ne!(c8.bus, "AXI");
    let ss = pack_spi_slave();
    assert_eq!(ss.name, "h_spi_slave");
    assert_eq!(ss.bus, "Helion-MM");
    assert_ne!(ss.bus, "AXI");
    let qe = pack_quad_enc();
    assert_eq!(qe.name, "h_quad_enc");
    assert_eq!(qe.bus, "Helion-ST");
    assert_ne!(qe.bus, "AXI");
    let pc = pack_pwm_center();
    assert_eq!(pc.name, "h_pwm_center");
    assert_eq!(pc.bus, "Helion-ST");
    assert_ne!(pc.bus, "AXI");
    assert!(cat.iter().any(|c| c.name == "h_crc8"));
    assert!(cat.iter().any(|c| c.name == "h_spi_slave"));
    assert!(cat.iter().any(|c| c.name == "h_quad_enc"));
    assert!(cat.iter().any(|c| c.name == "h_pwm_center"));
    assert_eq!(pack_crc8().vlnv(), "community:helion:h_crc8:1.0");
    assert_eq!(pack_spi_slave().vlnv(), "community:helion:h_spi_slave:1.0");
    assert_eq!(pack_quad_enc().vlnv(), "community:helion:h_quad_enc:1.0");
    assert_eq!(pack_pwm_center().vlnv(), "community:helion:h_pwm_center:1.0");
    let me = pack_manchester_enc();
    assert_eq!(me.name, "h_manchester_enc");
    assert_eq!(me.bus, "Helion-ST");
    assert_ne!(me.bus, "AXI");
    let g2b = pack_gray2bin();
    assert_eq!(g2b.name, "h_gray2bin");
    assert_eq!(g2b.bus, "Helion-ST");
    assert_ne!(g2b.bus, "AXI");
    let b2g = pack_bin2gray();
    assert_eq!(b2g.name, "h_bin2gray");
    assert_eq!(b2g.bus, "Helion-ST");
    assert_ne!(b2g.bus, "AXI");
    let maj = pack_majority3();
    assert_eq!(maj.name, "h_majority3");
    assert_eq!(maj.bus, "Helion-ST");
    assert_ne!(maj.bus, "AXI");
    assert!(cat.iter().any(|c| c.name == "h_manchester_enc"));
    assert!(cat.iter().any(|c| c.name == "h_gray2bin"));
    assert!(cat.iter().any(|c| c.name == "h_bin2gray"));
    assert!(cat.iter().any(|c| c.name == "h_majority3"));
    assert_eq!(pack_manchester_enc().vlnv(), "community:helion:h_manchester_enc:1.0");
    assert_eq!(pack_gray2bin().vlnv(), "community:helion:h_gray2bin:1.0");
    assert_eq!(pack_bin2gray().vlnv(), "community:helion:h_bin2gray:1.0");
    assert_eq!(pack_majority3().vlnv(), "community:helion:h_majority3:1.0");
    let c16 = pack_crc16();
    assert_eq!(c16.name, "h_crc16");
    assert_eq!(c16.bus, "Helion-ST");
    assert_ne!(c16.bus, "AXI");
    let rrt = pack_rr_token();
    assert_eq!(rrt.name, "h_rr_token");
    assert_eq!(rrt.bus, "Helion-ST");
    assert_ne!(rrt.bus, "AXI");
    let pp = pack_pwm_phase();
    assert_eq!(pp.name, "h_pwm_phase");
    assert_eq!(pp.bus, "Helion-ST");
    assert_ne!(pp.bus, "AXI");
    let cam = pack_cam_slot();
    assert_eq!(cam.name, "h_cam_slot");
    assert_eq!(cam.bus, "Helion-MM");
    assert_ne!(cam.bus, "AXI");
    assert!(cat.iter().any(|c| c.name == "h_crc16"));
    assert!(cat.iter().any(|c| c.name == "h_rr_token"));
    assert!(cat.iter().any(|c| c.name == "h_pwm_phase"));
    assert!(cat.iter().any(|c| c.name == "h_cam_slot"));
    assert_eq!(pack_crc16().vlnv(), "community:helion:h_crc16:1.0");
    assert_eq!(pack_rr_token().vlnv(), "community:helion:h_rr_token:1.0");
    assert_eq!(pack_pwm_phase().vlnv(), "community:helion:h_pwm_phase:1.0");
    assert_eq!(pack_cam_slot().vlnv(), "community:helion:h_cam_slot:1.0");
    let sipo = pack_sipo();
    assert_eq!(sipo.name, "h_sipo");
    assert_eq!(sipo.bus, "Helion-ST");
    assert_ne!(sipo.bus, "AXI");
    let piso = pack_piso();
    assert_eq!(piso.name, "h_piso");
    assert_eq!(piso.bus, "Helion-ST");
    assert_ne!(piso.bus, "AXI");
    let tl = pack_traffic_light();
    assert_eq!(tl.name, "h_traffic_light");
    assert_eq!(tl.bus, "Helion-ST");
    assert_ne!(tl.bus, "AXI");
    let sb = pack_scoreboard();
    assert_eq!(sb.name, "h_scoreboard");
    assert_eq!(sb.bus, "Helion-MM");
    assert_ne!(sb.bus, "AXI");
    assert!(cat.iter().any(|c| c.name == "h_sipo"));
    assert!(cat.iter().any(|c| c.name == "h_piso"));
    assert!(cat.iter().any(|c| c.name == "h_traffic_light"));
    assert!(cat.iter().any(|c| c.name == "h_scoreboard"));
    assert_eq!(pack_sipo().vlnv(), "community:helion:h_sipo:1.0");
    assert_eq!(pack_piso().vlnv(), "community:helion:h_piso:1.0");
    assert_eq!(pack_traffic_light().vlnv(), "community:helion:h_traffic_light:1.0");
    assert_eq!(pack_scoreboard().vlnv(), "community:helion:h_scoreboard:1.0");
}

#[test]
fn parses_helion_manifest_and_rejects_axi() {
    let pkg = parse_helion(
        r#"
format 1
vlnv community:helion:h_gpio:1.0
bus Helion-MM
top h_gpio
file h_gpio.v
"#,
    )
    .unwrap();
    assert_eq!(pkg.name, "h_gpio");
    assert_eq!(pkg.vlnv(), "community:helion:h_gpio:1.0");
    assert_eq!(pkg.files, vec!["h_gpio.v"]);
    assert_eq!(pkg.to_ip_core().unwrap().bus, "Helion-MM");
    assert!(parse_helion(
        r#"
format 1
name bad
bus AXI
file a.v
"#
    )
    .unwrap_err()
    .contains("not AXI"));
}

#[test]
fn catalog_cores_roundtrip_helion_text() {
    for ip in catalog() {
        let file = format!("{}.v", ip.name);
        let body = to_helion_manifest(&ip, Some(ip.name.as_str()), &[file.as_str()]);
        let pkg = parse_helion(&body).unwrap();
        assert_eq!(pkg.to_ip_core().unwrap(), ip);
    }
}

#[test]
fn package_bus_must_be_helion_mm_or_st() {
    let err = parse_helion("format 1\nname wb\nbus Wishbone\nfile a.v\n").unwrap_err();
    assert_eq!(err, ".helion wb: bus must be Helion-MM/Helion-ST (not AXI as Helion product)");
    let st = parse_helion("format 1\nname f\nbus Helion-ST\nfile a.v\n").unwrap();
    assert_eq!(st.to_ip_core().unwrap().bus, "Helion-ST");
    let mut pkg = st.clone();
    pkg.bus = String::new();
    assert_eq!(pkg.to_ip_core().unwrap_err(), ".helion f: bus must be Helion-MM/Helion-ST (not AXI)");
}
