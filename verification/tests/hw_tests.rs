use helion::hw::{BitsCounts, OflProgramReport, ProgramOutcome, StatFlags};
use helion::hw::{HbitsAction, HbitsEvent, HbitsProgState, TapAction, TapRegs};
use helion::hw::{
    detect_report_from, had_board_id_table_text, parse_ofl_verify_output, parse_scan_usb_output,
    resolve_cable_from, try_native_usb_program, tap_next, CableBackend, DetectReport, HadUsbTransport,
    NativeUsbError, OflReadbackKind, TapState, UsbProbe, UsbProbeSource, UsbScan, IR_CFG_W, IR_IDCODE, IR_STAT,
    format_command, env_flag_on, lookup_had_board, resolve_ofl_board_with,
};
use helion::mpsse::{
    native_mpsse_status_note, pack_mock_stat_tdo, parse_stat_tdo_mpsse, stat_word_done, try_native_mpsse_program,
    MpsseOpcodeBuilder, NativeFtdiMpsse, MPSSE_CLK_BITS_INOUT_LSB, MPSSE_CLK_BITS_OUT_NEG_LSB,
    MPSSE_CLK_BYTES_INOUT_LSB, MPSSE_CLK_BYTES_OUT_NEG_LSB, MPSSE_CLK_TMS_INOUT_LSB, MPSSE_CLK_TMS_OUT_NEG_LSB,
    MPSSE_SEND_IMMEDIATE, MPSSE_SET_CLK_DIVISOR, STAT_CAPTURE_TDO_LEN,
};
use helion::native_usb::{enumerate_ftdi, feature_enabled, FTDI_VID};

/// The detection a machine without openFPGALoader and without the native
/// USB driver reports.
fn offline_detect() -> DetectReport {
    let native = enumerate_ftdi();
    detect_report_from(UsbScan {
        ofl_path: None,
        probes: Vec::new(),
        native_probes: Vec::new(),
        raw: String::new(),
        note: "openFPGALoader not on PATH (set HELION_OPENFPGALOADER or install openFPGALoader)".to_string(),
        native_note: native.note,
    })
}

#[test]
fn backend_selection_auto_prefers_ofl_when_probes() {
    // Auto always OFL (USB=0 → honest program fail; probes → OFL program).
    let det = offline_detect();
    let usb = resolve_cable_from("usb0", &det).unwrap();
    assert_eq!(usb.backend, CableBackend::OpenFpgaLoader);
    assert_eq!(usb.id, "ofl0");
    let auto = resolve_cable_from("auto", &det).unwrap();
    assert_eq!(auto.backend, CableBackend::OpenFpgaLoader);
}

#[test]
fn parse_ofl_verify_output_honesty() {
    let (ok, detail) = parse_ofl_verify_output(
        "Write done\nVerify: OK\n",
        "",
        OflReadbackKind::FlashSpiVerify,
        true,
    );
    assert_eq!(ok, Some(true), "{detail}");
    assert!(detail.to_ascii_lowercase().contains("verify"), "{detail}");

    let (bad, detail) = parse_ofl_verify_output(
        "Verify failed: mismatch at 0x10\n",
        "",
        OflReadbackKind::FlashSpiVerify,
        true,
    );
    assert_eq!(bad, Some(false), "{detail}");

    let (none_v, detail) = parse_ofl_verify_output(
        "Done\n",
        "",
        OflReadbackKind::NoReadback,
        true,
    );
    assert_eq!(none_v, None, "{detail}");
    assert!(detail.contains("TAP_readback=none"), "{detail}");
}

#[test]
fn ofl_had_cable_notes_surface_board_alias() {
    let table = had_board_id_table_text();
    assert!(table.contains("helion_hl10t"));
    assert!(table.contains("HELION_OFL_BOARD"));
    assert!(table.contains("HELION_OFL_VERIFY") || table.contains("TAP_readback=none"));
    let det = offline_detect();
    assert!(det.text().contains("helion_hl10t"));
    assert!(det.text().contains("native_mpsse") || det.text().contains("NativeFtdiMpsse") || det.text().contains("native_usb"));
}

#[test]
fn native_mpsse_and_ofl_honesty_coexist_on_box() {
    // usb-native on + 0 FTDI → Io; OFL on PATH + 0 probes → no USB; neither invents STAT.
    let native_err = try_native_usb_program("/dev/null", false);
    if feature_enabled() {
        assert!(matches!(native_err, Err(NativeUsbError::Io(_))), "{native_err:?}");
    } else {
        assert!(matches!(native_err, Err(NativeUsbError::NotImplemented(_))), "{native_err:?}");
    }
    let det = offline_detect();
    assert!(det.text().contains("TAP_readback=none") || det.text().contains("never invent"));
    assert!(!det.text().to_ascii_lowercase().contains("done=1 from enumerate"));
    let _ = native_err;
}

#[test]
fn parse_scan_usb_dedups_and_skips_header_chatter() {
    let raw = "empty\n\
No USB devices found\n\
Bus device vid:pid       probe type      manufacturer serial               product\n\
FTDI 0x0403:0x6010 probe type FTDI\n\
FTDI 0x0403:0x6010 probe type FTDI\n\
noise without hex id probe\n";
    let probes = parse_scan_usb_output(raw);
    assert_eq!(probes.len(), 1, "{probes:?}");
    assert!(probes[0].detail.contains("0x0403"));
    assert_eq!(probes[0].source, UsbProbeSource::OpenFpgaLoader);
    assert!(parse_scan_usb_output("Usage: openFPGALoader [options]\n").is_empty());
}

#[test]
fn native_path_does_not_claim_done_without_probe() {
    // Honesty: sim harness ≠ native USB MPSSE board DONE.
    let err = try_native_usb_program("/dev/null", false).unwrap_err();
    if NativeFtdiMpsse::usb_native_enabled() {
        assert!(matches!(err, NativeUsbError::Io(_)), "{err:?}");
    } else {
        assert!(matches!(err, NativeUsbError::NotImplemented(_)), "{err:?}");
    }
}

#[test]
fn mpsse_opcodes_encode_ir_stat_and_cfg_w_without_hardware() {
    let mut b = MpsseOpcodeBuilder::new();
    b.init_clock(2);
    b.jtag_reset_to_idle();
    b.helion_read_stat();
    let stat_ops = b.into_bytes();
    assert!(stat_ops.contains(&MPSSE_SET_CLK_DIVISOR));
    assert!(stat_ops.contains(&MPSSE_CLK_TMS_OUT_NEG_LSB));
    assert!(stat_ops.contains(&MPSSE_CLK_BITS_OUT_NEG_LSB) || stat_ops.contains(&MPSSE_CLK_BYTES_OUT_NEG_LSB));
    // IR_STAT = 0b010010 — encoder must emit TMS/TDI activity (non-trivial length).
    assert!(stat_ops.len() > 16, "stat opcode stream too short: {}", stat_ops.len());

    let packets = b"HBIT\x00\x01\x02\x03test-packets";
    let cfg = NativeFtdiMpsse::encode_cfg_w_and_stat(packets);
    assert!(cfg.len() > stat_ops.len(), "CFG_W stream should dwarf STAT-only");
    assert!(cfg.contains(&MPSSE_CLK_BYTES_OUT_NEG_LSB) || cfg.contains(&MPSSE_CLK_BITS_OUT_NEG_LSB));
    assert!(cfg.ends_with(&[MPSSE_SEND_IMMEDIATE]) || cfg.contains(&MPSSE_SEND_IMMEDIATE));
    // Must include IR_CFG_W path + IR_STAT path markers (TMS opcodes present twice+).
    let tms_count = cfg.iter().filter(|&&x| x == MPSSE_CLK_TMS_OUT_NEG_LSB).count();
    assert!(tms_count >= 4, "expected multiple TMS bursts, got {tms_count}");
}

#[test]
fn encode_read_stat_never_invents_stat_word() {
    // The encoder returns opcodes only — no u32 STAT.
    let ops = NativeFtdiMpsse::encode_read_stat();
    assert!(!ops.is_empty());
    let _ = ops;
}

#[test]
fn open_probe_honesty_feature_gate() {
    let mut t = NativeFtdiMpsse::new();
    let err = t.open_probe().unwrap_err();
    if NativeFtdiMpsse::usb_native_enabled() {
        // No FTDI on this box → Io, never NotImplemented, never Ok/STAT.
        assert!(
            matches!(err, NativeUsbError::Io(_)),
            "usb-native + no device must be Io, got {err:?}"
        );
        let msg = err.message();
        assert!(
            msg.contains("no FTDI") || msg.contains("open failed") || msg.contains("Io"),
            "{msg}"
        );
        assert!(!msg.to_ascii_lowercase().contains("done=1"));
    } else {
        assert!(
            matches!(err, NativeUsbError::NotImplemented(_)),
            "feature off → NotImplemented, got {err:?}"
        );
    }
    assert!(!t.is_open());
}

#[test]
fn try_native_mpsse_program_no_device_or_feature() {
    let err = try_native_mpsse_program("/dev/null", false).unwrap_err();
    if NativeFtdiMpsse::usb_native_enabled() {
        assert!(matches!(err, NativeUsbError::Io(_)), "{err:?}");
    } else {
        assert!(matches!(err, NativeUsbError::NotImplemented(_)), "{err:?}");
    }
}

#[test]
fn status_note_mentions_ofl_and_had() {
    let n = native_mpsse_status_note();
    assert!(n.contains("native_mpsse"));
    assert!(
        n.contains("OFL") || n.contains("ofl") || n.contains("NotImplemented") || n.contains("FTDI"),
        "{n}"
    );
}

#[test]
fn helion_ir_constants_used_in_encoder() {
    assert_eq!(IR_CFG_W, 0b010000);
    assert_eq!(IR_STAT, 0b010010);
    assert_eq!(IR_IDCODE, 0b000011);
    let mut b = MpsseOpcodeBuilder::new();
    b.helion_shift_ir(IR_CFG_W);
    let ops = b.into_bytes();
    assert!(ops.contains(&MPSSE_CLK_TMS_OUT_NEG_LSB));
}

#[test]
fn encode_read_stat_uses_inout_capture_opcodes() {
    let ops = NativeFtdiMpsse::encode_read_stat();
    assert!(
        ops.contains(&MPSSE_CLK_BYTES_INOUT_LSB) || ops.contains(&MPSSE_CLK_BITS_INOUT_LSB),
        "STAT capture must request TDO via INOUT"
    );
    assert!(ops.contains(&MPSSE_CLK_TMS_INOUT_LSB), "last DR bit via TMS INOUT");
    assert_eq!(STAT_CAPTURE_TDO_LEN, 5);
}

#[test]
fn parse_stat_tdo_refuses_short_buffer() {
    let err = parse_stat_tdo_mpsse(&[0, 1, 2]).unwrap_err();
    assert!(err.contains("short") || err.contains("refusing"), "{err}");
    let err0 = parse_stat_tdo_mpsse(&[]).unwrap_err();
    assert!(err0.contains("refusing") || err0.contains("short"), "{err0}");
}

#[test]
fn enumerate_ftdi_never_panics_and_respects_feature() {
    let scan = enumerate_ftdi();
    assert_eq!(scan.feature_enabled, feature_enabled());
    // No fabricated probes: empty is fine on CI without hardware.
    for p in &scan.probes {
        assert_eq!(p.vid, FTDI_VID);
        assert!(p.detail().contains("detect-only"));
        assert!(!p.detail().to_ascii_lowercase().contains("done=1"));
    }
    assert!(!scan.note.is_empty());
}

// ---------------------------------------------------------------------------
// Further cases
// ---------------------------------------------------------------------------

#[test]
fn mock_stat_tdo_roundtrip_startup_and_reset() {
    // A configured fabric reports DONE (bit 5); a reset one does not.
    let startup_word: u32 = 0x0000_00E0;
    let reset_word: u32 = 0x0000_0000;
    for word in [startup_word, reset_word, 0u32, 0xA5A5_5A5A, 0xFFFF_FFFF] {
        let packed = pack_mock_stat_tdo(word);
        let parsed = parse_stat_tdo_mpsse(&packed).expect("parse");
        assert_eq!(parsed, word, "roundtrip {word:#010x}");
    }
    let startup = pack_mock_stat_tdo(startup_word);
    let w = parse_stat_tdo_mpsse(&startup).unwrap();
    assert!(stat_word_done(w), "STARTUP_WORD must set DONE bit5");
    assert_eq!(w, startup_word);

    let reset = pack_mock_stat_tdo(reset_word);
    let r = parse_stat_tdo_mpsse(&reset).unwrap();
    assert!(!stat_word_done(r), "RESET_WORD must not set DONE");
    assert!(stat_word_done(0x20));
    assert!(!stat_word_done(0x1F));
}

#[test]
fn five_tms_high_reach_reset_from_any_state() {
    let all = [
        TapState::TestLogicReset,
        TapState::RunTestIdle,
        TapState::SelectDr,
        TapState::CaptureDr,
        TapState::ShiftDr,
        TapState::Exit1Dr,
        TapState::UpdateDr,
        TapState::SelectIr,
        TapState::CaptureIr,
        TapState::ShiftIr,
        TapState::Exit1Ir,
        TapState::UpdateIr,
    ];
    for s in all {
        let mut t = s;
        for _ in 0..5 {
            t = tap_next(t, true);
        }
        assert_eq!(t, TapState::TestLogicReset, "{s:?}");
    }
    assert_eq!(tap_next(TapState::TestLogicReset, false), TapState::RunTestIdle);
}

#[test]
fn resolve_cable_rejects_unknown_and_finds_sim() {
    let det = offline_detect();
    let sim = resolve_cable_from("sim", &det).unwrap();
    assert_eq!(sim.backend, CableBackend::Sim);
    assert!(resolve_cable_from("nope", &det).is_err());
    assert_eq!(det.physical_had, false);
    assert_eq!(det.cables.len(), 4);
}

#[test]
fn scan_usb_output_keeps_distinct_probes() {
    let probes: Vec<UsbProbe> = parse_scan_usb_output(
        "FTDI 0x0403:0x6010 probe A\nFTDI 0x0403:0x6014 probe B\n",
    );
    assert_eq!(probes.len(), 2);
}

#[test]
fn board_lookup_and_resolution() {
    let b = lookup_had_board("hl10t-c32-1").unwrap();
    assert_eq!(b.ofl_board, "helion_hl10t");
    assert!(lookup_had_board("no-such-part").is_none());
    assert_eq!(resolve_ofl_board_with(Some("custom_board"), Some("HL10T-C32-1")), Some("custom_board".to_string()));
    assert_eq!(resolve_ofl_board_with(Some("none"), Some("HL10T-C32-1")), None);
    assert_eq!(resolve_ofl_board_with(None, Some("HL10T-C32-1")), Some("helion_hl10t".to_string()));
}

#[test]
fn env_flags_and_command_text() {
    assert!(env_flag_on(Some("1")));
    assert!(!env_flag_on(None));
    let cmd = format_command("openFPGALoader", &["-b".to_string(), "my board".to_string()]);
    assert!(cmd.starts_with("openFPGALoader -b"));
}

#[test]
fn program_outcome_summary_lines_per_backend() {
    let stat = StatFlags { init: true, done: true, eos: true, gwe: true, gsr: false, gts: false, crc_err: false };
    let sim = ProgramOutcome::Sim { bits: BitsCounts { frames: 3, bytes: 120 }, stat };
    assert_eq!(sim.backend(), CableBackend::Sim);
    assert_eq!(
        sim.summary_line("program", "HL10T-C32-1"),
        "hw program backend=sim part=HL10T-C32-1 frames=3 bytes=120 STAT INIT=1 DONE=1 EOS=1 GWE=1 GSR=0 GTS=0 CRC_ERR=0 (sim fabric; not board DONE)"
    );
    let native = ProgramOutcome::NativeMpsse { bytes: 64, stat_word: 0x20 };
    assert_eq!(native.backend(), CableBackend::NativeUsb);
    assert_eq!(
        native.summary_line("lab", "P"),
        "hw lab backend=native-mpsse part=P bytes=64 STAT=0x00000020 DONE=1 (live TDO on persistent FTDI session; board STAT)"
    );
    let ofl = OflProgramReport {
        command: "openFPGALoader -b x top.bit".to_string(),
        dry_run: false,
        exit_code: Some(0),
        stdout: String::new(),
        stderr: String::new(),
        board: None,
        tap_readback: false,
        readback: OflReadbackKind::NoReadback,
        verify_ok: None,
        verify_detail: "no verify phrase".to_string(),
    };
    let line = ProgramOutcome::OpenFpgaLoader { bits: None, ofl, bytes: 0 }.summary_line("program", "P");
    assert!(line.contains("no TAP readback"), "{line}");
    assert!(line.contains("TAP_readback=none"), "{line}");
    assert!(line.contains("STAT=(no readback)"), "{line}");
    assert!(line.contains("ofl_board=- ofl_exit=0"), "{line}");
    assert!(line.contains("verify_ok=unknown verify_detail=no_verify_phrase"), "{line}");
    assert!(line.ends_with("cmd=openFPGALoader -b x top.bit"), "{line}");
}

fn scan_ir(t: &mut TapRegs, ir: u8, idcode: u32, stat: u32) {
    // Run-Test/Idle -> Select-DR -> Select-IR -> Capture-IR -> Shift-IR
    for tms in [true, true, false, false] {
        t.tick(tms, false, idcode, stat);
    }
    for i in 0..6 {
        t.tick(i == 5, (ir >> i) & 1 == 1, idcode, stat);
    }
    // Exit1-IR -> Update-IR -> Run-Test/Idle
    t.tick(true, false, idcode, stat);
    t.tick(false, false, idcode, stat);
}

#[test]
fn tap_regs_read_stat_through_ir_and_dr_scans() {
    let (idcode, stat) = (0x1234_5678u32, 0x0000_00E0u32);
    let mut t = TapRegs::new();
    t.tick(false, false, idcode, stat);
    assert_eq!(t.state, TapState::RunTestIdle);
    scan_ir(&mut t, IR_STAT, idcode, stat);
    assert_eq!(t.ir, IR_STAT);
    // Select-DR -> Capture-DR
    t.tick(true, false, idcode, stat);
    let (_, a) = t.tick(false, false, idcode, stat);
    assert_eq!(a, TapAction::Idle);
    assert_eq!(t.state, TapState::CaptureDr);
    assert_eq!(t.dr_shift, stat as u64);
    t.tick(false, false, idcode, stat);
    let mut word = 0u32;
    for i in 0..32 {
        let (tdo, _) = t.tick(i == 31, false, idcode, stat);
        if tdo {
            word |= 1 << i;
        }
    }
    assert_eq!(word, stat);
}

#[test]
fn tap_regs_cfg_w_gathers_payload_and_asks_for_commit() {
    let (idcode, stat) = (1u32, 0u32);
    let mut t = TapRegs::new();
    t.tick(false, false, idcode, stat);
    scan_ir(&mut t, IR_CFG_W, idcode, stat);
    t.tick(true, false, idcode, stat);
    let (_, a) = t.tick(false, false, idcode, stat);
    assert_eq!(a, TapAction::ClearCfgError);
    t.tick(false, false, idcode, stat);
    assert_eq!(t.state, TapState::ShiftDr);
    let byte = 0xA5u8;
    for i in 0..8 {
        t.tick(i == 7, (byte >> i) & 1 == 1, idcode, stat);
    }
    assert_eq!(t.cfg_buf, vec![0xA5]);
    assert_eq!(t.cfg_bit_count, 8);
    let (_, a) = t.tick(true, false, idcode, stat);
    assert_eq!(t.state, TapState::UpdateDr);
    assert_eq!(a, TapAction::CommitCfg);
}

fn step(s: helion::hw::HbitsProgState, ev: helion::hw::HbitsEvent) -> (helion::hw::HbitsProgState, helion::hw::HbitsAction) {
    helion::hw::hbits_program_step(s, ev, 0x4845_4C31, "HL10T-C32-1", "top.hbits")
}

#[test]
fn hbits_program_step_refuses_empty_and_foreign_idcode() {
    let (s, a) = step(HbitsProgState::Start { backend: CableBackend::OpenFpgaLoader }, HbitsEvent::Begin);
    assert!(matches!(a, HbitsAction::ReadFile));
    let (_, a) = step(s.clone(), HbitsEvent::FileRead(Ok(vec![])));
    assert!(matches!(a, HbitsAction::Finish(Err(ref e)) if e == "program: empty bitstream (0 bytes)"));
    let (s2, a) = step(s.clone(), HbitsEvent::FileRead(Ok(b"HBIT\x01".to_vec())));
    assert!(matches!(a, HbitsAction::DecodePackets));
    let counts = BitsCounts { frames: 3, bytes: 5 };
    let (_, a) = step(s2.clone(), HbitsEvent::Decoded(Ok((0x1111_2222, counts))));
    assert!(matches!(a, HbitsAction::Finish(Err(ref e))
        if e == "program: bitstream idcode 0x11112222 != device HL10T-C32-1 idcode 0x48454c31"));
    let (s3, a) = step(s2, HbitsEvent::Decoded(Ok((0x4845_4C31, counts))));
    assert!(matches!(a, HbitsAction::RunOfl));
    assert!(matches!(s3, HbitsProgState::OflRunning { bits: Some(_), len: 5 }));
    let (s4, a) = step(s, HbitsEvent::FileRead(Ok(b"bitfile".to_vec())));
    assert!(matches!(a, HbitsAction::RunOfl));
    assert!(matches!(s4, HbitsProgState::OflRunning { bits: None, len: 7 }));
    let (_, a) = step(HbitsProgState::Reading { backend: CableBackend::MpsseSim }, HbitsEvent::FileRead(Err("gone".to_string())));
    assert!(matches!(a, HbitsAction::Finish(Err(ref e)) if e == "program: read top.hbits: gone"));
}

#[test]
fn hbits_program_step_native_falls_back_to_openfpgaloader() {
    let (s, a) = step(HbitsProgState::Start { backend: CableBackend::NativeUsb }, HbitsEvent::Begin);
    assert!(matches!(a, HbitsAction::RunNative));
    let (s2, a) = step(s.clone(), HbitsEvent::NativeFinished(Err(NativeUsbError::NotImplemented("off"))));
    assert!(matches!(a, HbitsAction::ReadFile));
    assert!(matches!(s2, HbitsProgState::Reading { backend: CableBackend::OpenFpgaLoader }));
    let (_, a) = step(s, HbitsEvent::NativeFinished(Err(NativeUsbError::Io("no device".to_string()))));
    assert!(matches!(a, HbitsAction::Finish(Err(ref e)) if e == "program: native MPSSE I/O (no invented STAT): no device"));
    let (_, a) = step(HbitsProgState::Start { backend: CableBackend::Sim }, HbitsEvent::Begin);
    assert!(matches!(a, HbitsAction::RunSim));
}

#[test]
fn single_clock_uncertainty_shifts_wns_and_hold() {
    let d = helion::ir::Design::structural_blinky();
    let mut clks = Vec::new();
    helion::sta::create_clock(&mut clks, "clk", 10_000, "clk");
    let gold = helion::sta::report_timing(&d, &clks).unwrap();
    let mut x = helion::sta::Constraints::default();
    x.clock_uncertainties.push(helion::sta::ClockUncertainty {
        from: String::new(),
        to: String::new(),
        setup_ps: 150,
        hold_ps: 40,
    });
    let mut r = gold.clone();
    helion::sta::apply_xdc_delays(&mut r, &x, 10_000);
    assert_eq!(r.wns_ps, gold.wns_ps - 150);
    assert_eq!(r.hold_slack_ps, gold.hold_slack_ps - 40);
    assert_eq!(r.setup_ps, gold.setup_ps);
}
