//! IEEE 1149.1 TAP state machine, programming-cable descriptors, HAD board
//! table, and the honest parsing of openFPGALoader output.
//!
//! Nothing here claims a board is configured without a validated STAT word:
//! openFPGALoader has no Helion TAP readback (`TAP_readback=none`), and the
//! native FTDI path stays `NotImplemented` in this build.

use vstd::prelude::*;
use crate::text;
use crate::mpsse::{native_mpsse_status_note, native_off_err, stat_done, stat_word_done, try_native_mpsse_program, NativeFtdiMpsse};

verus! {

// ---------------------------------------------------------------------------
// TAP controller
// ---------------------------------------------------------------------------

#[derive(Clone, Copy, Debug, PartialEq, Eq, Structural)]
pub enum TapState {
    TestLogicReset,
    RunTestIdle,
    SelectDr,
    CaptureDr,
    ShiftDr,
    Exit1Dr,
    UpdateDr,
    SelectIr,
    CaptureIr,
    ShiftIr,
    Exit1Ir,
    UpdateIr,
}

pub const IR_IDCODE: u8 = 0b000011;
pub const IR_STAT: u8 = 0b010010;
pub const IR_CFG_W: u8 = 0b010000;

/// IEEE 1149.1 IR length of the Helion TAP (the `IR_*` opcodes are 6 bits).
pub const TAP_IR_LEN: u8 = 6;

/// The IEEE 1149.1 TAP transition on one TCK with the given TMS.
pub open spec fn tap_step(s: TapState, tms: bool) -> TapState {
    match s {
        TapState::TestLogicReset => if tms { TapState::TestLogicReset } else { TapState::RunTestIdle },
        TapState::RunTestIdle => if tms { TapState::SelectDr } else { TapState::RunTestIdle },
        TapState::SelectDr => if tms { TapState::SelectIr } else { TapState::CaptureDr },
        TapState::CaptureDr => if tms { TapState::Exit1Dr } else { TapState::ShiftDr },
        TapState::ShiftDr => if tms { TapState::Exit1Dr } else { TapState::ShiftDr },
        TapState::Exit1Dr => if tms { TapState::UpdateDr } else { TapState::ShiftDr },
        TapState::UpdateDr => if tms { TapState::SelectDr } else { TapState::RunTestIdle },
        TapState::SelectIr => if tms { TapState::TestLogicReset } else { TapState::CaptureIr },
        TapState::CaptureIr => if tms { TapState::Exit1Ir } else { TapState::ShiftIr },
        TapState::ShiftIr => if tms { TapState::Exit1Ir } else { TapState::ShiftIr },
        TapState::Exit1Ir => if tms { TapState::UpdateIr } else { TapState::ShiftIr },
        TapState::UpdateIr => if tms { TapState::SelectDr } else { TapState::RunTestIdle },
    }
}

/// The TAP registers that one TCK changes; the fabric behind the TAP (its
/// IDCODE, its STAT word and the configuration it is programmed with) stays
/// with the caller.
pub struct TapRegs {
    pub state: TapState,
    pub ir: u8,
    pub ir_shift: u8,
    /// DR shift register (IDCODE/STAT words use the low 32 bits).
    pub dr_shift: u64,
    pub shlen: u8,
    /// CFG_W payload gathered during Shift-DR, LSB-first per byte.
    pub cfg_buf: Vec<u8>,
    /// Bits written into `cfg_buf` in the current CFG_W DR scan.
    pub cfg_bit_count: u32,
}

/// What the fabric has to do after a TCK.
#[derive(Clone, Copy, Debug, PartialEq, Eq, Structural)]
pub enum TapAction {
    /// Nothing.
    Idle,
    /// A CFG_W Capture-DR started a new payload: forget the last CFG_W error.
    ClearCfgError,
    /// A CFG_W Update-DR ended a non-empty payload: decode `cfg_buf` as
    /// bitstream packets and program the fabric with it.
    CommitCfg,
}

/// [`TapRegs`] as plain values.
#[verifier::ext_equal]
pub struct TapModel {
    pub state: TapState,
    pub ir: u8,
    pub ir_shift: u8,
    pub dr_shift: u64,
    pub shlen: u8,
    pub cfg: Seq<u8>,
    pub cfg_bits: u32,
}

pub open spec fn tap_model(r: TapRegs) -> TapModel {
    TapModel {
        state: r.state,
        ir: r.ir,
        ir_shift: r.ir_shift,
        dr_shift: r.dr_shift,
        shlen: r.shlen,
        cfg: r.cfg_buf@,
        cfg_bits: r.cfg_bit_count,
    }
}

pub open spec fn sat_inc_u8(x: u8) -> u8 {
    if x == 255 { 255 } else { (x + 1) as u8 }
}

pub open spec fn sat_inc_u32(x: u32) -> u32 {
    if x == 0xffff_ffff { 0xffff_ffff } else { (x + 1) as u32 }
}

/// TDO before the clock edge: bit 0 of the IR shifter in Shift/Capture-IR,
/// of the DR shifter in Shift/Capture-DR, else low.
pub open spec fn tap_tdo(m: TapModel) -> bool {
    match m.state {
        TapState::ShiftIr | TapState::CaptureIr => m.ir_shift & 1 != 0,
        TapState::ShiftDr | TapState::CaptureDr => m.dr_shift & 1 != 0,
        _ => false,
    }
}

/// `cfg` grown with zero bytes to hold bit `bits`, with that bit set when `tdi`.
pub open spec fn cfg_with_bit(cfg: Seq<u8>, bits: u32, tdi: bool) -> Seq<u8> {
    let i = (bits / 8) as int;
    let grown = if cfg.len() <= i { cfg + Seq::new((i + 1 - cfg.len()) as nat, |j: int| 0u8) } else { cfg };
    if tdi { grown.update(i, grown[i] | (1u8 << ((bits % 8) as u8))) } else { grown }
}

/// The shift a TCK does in Shift-IR (6-bit IR, TDI into bit 5) or Shift-DR
/// (CFG_W: TDI appended to the payload; otherwise TDI into bit 31 of the DR).
pub open spec fn tap_shift(m: TapModel, tdi: bool) -> TapModel {
    match m.state {
        TapState::ShiftIr => TapModel {
            ir_shift: ((m.ir_shift >> 1u8) & 0x1f) | ((if tdi { 1u8 } else { 0u8 }) << 5u8),
            shlen: sat_inc_u8(m.shlen),
            ..m
        },
        TapState::ShiftDr => if m.ir == IR_CFG_W {
            TapModel { cfg: cfg_with_bit(m.cfg, m.cfg_bits, tdi), cfg_bits: sat_inc_u32(m.cfg_bits), ..m }
        } else {
            TapModel {
                dr_shift: (m.dr_shift >> 1u64) | ((if tdi { 1u64 } else { 0u64 }) << 31u64),
                shlen: sat_inc_u8(m.shlen),
                ..m
            }
        },
        _ => m,
    }
}

/// One TCK: shift, step the controller on `tms`, then capture into or update
/// from the shifters on entering Capture-IR/DR or Update-IR/DR.
pub open spec fn tap_tick(m: TapModel, tms: bool, tdi: bool, idcode: u32, stat: u32) -> (TapModel, TapAction) {
    let s = TapModel { state: tap_step(m.state, tms), ..tap_shift(m, tdi) };
    if s.state == TapState::CaptureIr && m.state != TapState::CaptureIr {
        (TapModel { ir_shift: s.ir & 0x3f, shlen: 0, ..s }, TapAction::Idle)
    } else if s.state == TapState::CaptureDr && m.state != TapState::CaptureDr {
        if s.ir == IR_IDCODE {
            (TapModel { dr_shift: idcode as u64, shlen: 0, ..s }, TapAction::Idle)
        } else if s.ir == IR_STAT {
            (TapModel { dr_shift: stat as u64, shlen: 0, ..s }, TapAction::Idle)
        } else if s.ir == IR_CFG_W {
            (TapModel { dr_shift: 0, shlen: 0, cfg: Seq::empty(), cfg_bits: 0, ..s }, TapAction::ClearCfgError)
        } else {
            (TapModel { dr_shift: 0, shlen: 0, ..s }, TapAction::Idle)
        }
    } else if s.state == TapState::UpdateIr && m.state != TapState::UpdateIr {
        (TapModel { ir: s.ir_shift & 0x3f, ..s }, TapAction::Idle)
    } else if s.state == TapState::UpdateDr && m.state != TapState::UpdateDr && s.ir == IR_CFG_W && s.cfg.len() > 0 {
        (s, TapAction::CommitCfg)
    } else {
        (s, TapAction::Idle)
    }
}

impl TapRegs {
    /// Test-Logic-Reset with IDCODE selected and empty shifters.
    pub fn new() -> (r: TapRegs)
        ensures
            tap_model(r) == (TapModel {
                state: TapState::TestLogicReset,
                ir: IR_IDCODE,
                ir_shift: 0,
                dr_shift: 0,
                shlen: 0,
                cfg: Seq::empty(),
                cfg_bits: 0,
            }),
    {
        TapRegs {
            state: TapState::TestLogicReset,
            ir: IR_IDCODE,
            ir_shift: 0,
            dr_shift: 0,
            shlen: 0,
            cfg_buf: Vec::new(),
            cfg_bit_count: 0,
        }
    }

    /// One simulated TCK with the fabric's `idcode` and `stat` word: returns
    /// TDO sampled before the edge and what the fabric has to do.
    pub fn tick(&mut self, tms: bool, tdi: bool, idcode: u32, stat: u32) -> (r: (bool, TapAction))
        ensures
            r.0 == tap_tdo(tap_model(*old(self))),
            (tap_model(*final(self)), r.1) == tap_tick(tap_model(*old(self)), tms, tdi, idcode, stat),
    {
        let ghost m = tap_model(*self);
        let tdo = match self.state {
            TapState::ShiftIr | TapState::CaptureIr => (self.ir_shift & 1) != 0,
            TapState::ShiftDr | TapState::CaptureDr => (self.dr_shift & 1) != 0,
            _ => false,
        };
        match self.state {
            TapState::ShiftIr => {
                let b: u8 = if tdi { 1 } else { 0 };
                self.ir_shift = ((self.ir_shift >> 1u8) & 0x1f) | (b << 5u8);
                self.shlen = if self.shlen == 255 { 255 } else { self.shlen + 1 };
                assert(self.ir_shift == ((m.ir_shift >> 1u8) & 0x1f) | ((if tdi { 1u8 } else { 0u8 }) << 5u8));
                assert(self.shlen == sat_inc_u8(m.shlen));
                assert(tap_model(*self) =~= tap_shift(m, tdi));
            },
            TapState::ShiftDr => {
                if self.ir == IR_CFG_W {
                    let byte_i = (self.cfg_bit_count / 8) as usize;
                    let bit_i = (self.cfg_bit_count % 8) as u8;
                    let ghost c0 = self.cfg_buf@;
                    while self.cfg_buf.len() <= byte_i
                        invariant
                            self.state == m.state,
                            self.ir == m.ir,
                            self.ir_shift == m.ir_shift,
                            self.dr_shift == m.dr_shift,
                            self.shlen == m.shlen,
                            self.cfg_bit_count == m.cfg_bits,
                            c0.len() <= self.cfg_buf@.len(),
                            self.cfg_buf@.len() <= (if c0.len() <= byte_i { byte_i + 1 } else { c0.len() as int }),
                            self.cfg_buf@ == c0 + Seq::new((self.cfg_buf@.len() - c0.len()) as nat, |j: int| 0u8),
                        decreases byte_i + 1 - self.cfg_buf@.len(),
                    {
                        let ghost before = self.cfg_buf@;
                        self.cfg_buf.push(0);
                        assert(self.cfg_buf@ =~= c0 + Seq::new((self.cfg_buf@.len() - c0.len()) as nat, |j: int| 0u8));
                    }
                    let ghost i = (m.cfg_bits / 8) as int;
                    let ghost grown = if c0.len() <= i { c0 + Seq::new((i + 1 - c0.len()) as nat, |j: int| 0u8) } else { c0 };
                    proof {
                        assert(byte_i as int == i);
                        if c0.len() > byte_i {
                            assert(self.cfg_buf@ =~= c0);
                        } else {
                            assert(self.cfg_buf@.len() == byte_i + 1);
                        }
                        assert(self.cfg_buf@ =~= grown);
                    }
                    if tdi {
                        let old_b = self.cfg_buf[byte_i];
                        self.cfg_buf.set(byte_i, old_b | (1u8 << bit_i));
                        assert(bit_i == ((m.cfg_bits % 8) as u8));
                    }
                    assert(self.cfg_buf@ =~= cfg_with_bit(c0, m.cfg_bits, tdi));
                    self.cfg_bit_count = if self.cfg_bit_count == 0xffff_ffff { 0xffff_ffff } else { self.cfg_bit_count + 1 };
                    assert(tap_model(*self) =~= tap_shift(m, tdi));
                } else {
                    let b: u64 = if tdi { 1 } else { 0 };
                    self.dr_shift = (self.dr_shift >> 1u64) | (b << 31u64);
                    self.shlen = if self.shlen == 255 { 255 } else { self.shlen + 1 };
                    assert(tap_model(*self) =~= tap_shift(m, tdi));
                }
            },
            _ => {},
        }
        assert(tap_model(*self) =~= tap_shift(m, tdi));
        let prev = self.state;
        self.state = tap_next(self.state, tms);
        let mut action = TapAction::Idle;
        if self.state == TapState::CaptureIr && prev != TapState::CaptureIr {
            self.ir_shift = self.ir & 0x3f;
            self.shlen = 0;
        }
        if self.state == TapState::CaptureDr && prev != TapState::CaptureDr {
            if self.ir == IR_IDCODE {
                self.dr_shift = idcode as u64;
            } else if self.ir == IR_STAT {
                self.dr_shift = stat as u64;
            } else if self.ir == IR_CFG_W {
                self.cfg_buf = Vec::new();
                self.cfg_bit_count = 0;
                action = TapAction::ClearCfgError;
                self.dr_shift = 0;
            } else {
                self.dr_shift = 0;
            }
            self.shlen = 0;
        }
        if self.state == TapState::UpdateIr && prev != TapState::UpdateIr {
            self.ir = self.ir_shift & 0x3f;
        }
        if self.state == TapState::UpdateDr && prev != TapState::UpdateDr {
            if self.ir == IR_CFG_W && self.cfg_buf.len() > 0 {
                action = TapAction::CommitCfg;
            }
        }
        assert(self.cfg_buf@ =~= tap_tick(m, tms, tdi, idcode, stat).0.cfg);
        (tdo, action)
    }
}

/// The state after clocking the TMS values `tms` in order.
pub open spec fn tap_walk(s: TapState, tms: Seq<bool>) -> TapState
    decreases tms.len(),
{
    if tms.len() == 0 {
        s
    } else {
        tap_walk(tap_step(s, tms[0]), tms.drop_first())
    }
}

/// The state after `n` TMS bits taken LSB-first from `bits`.
pub open spec fn tap_walk_bits(s: TapState, bits: u8, n: nat) -> TapState
    decreases n,
{
    if n == 0 {
        s
    } else {
        tap_walk_bits(tap_step(s, bits % 2 == 1), bits / 2, (n - 1) as nat)
    }
}

/// One TCK of the TAP controller: the next state for `tms`.
pub fn tap_next(s: TapState, tms: bool) -> (r: TapState)
    ensures
        r == tap_step(s, tms),
{
    match s {
        TapState::TestLogicReset => if tms { TapState::TestLogicReset } else { TapState::RunTestIdle },
        TapState::RunTestIdle => if tms { TapState::SelectDr } else { TapState::RunTestIdle },
        TapState::SelectDr => if tms { TapState::SelectIr } else { TapState::CaptureDr },
        TapState::CaptureDr => if tms { TapState::Exit1Dr } else { TapState::ShiftDr },
        TapState::ShiftDr => if tms { TapState::Exit1Dr } else { TapState::ShiftDr },
        TapState::Exit1Dr => if tms { TapState::UpdateDr } else { TapState::ShiftDr },
        TapState::UpdateDr => if tms { TapState::SelectDr } else { TapState::RunTestIdle },
        TapState::SelectIr => if tms { TapState::TestLogicReset } else { TapState::CaptureIr },
        TapState::CaptureIr => if tms { TapState::Exit1Ir } else { TapState::ShiftIr },
        TapState::ShiftIr => if tms { TapState::Exit1Ir } else { TapState::ShiftIr },
        TapState::Exit1Ir => if tms { TapState::UpdateIr } else { TapState::ShiftIr },
        TapState::UpdateIr => if tms { TapState::SelectDr } else { TapState::RunTestIdle },
    }
}

/// Five TCKs with TMS=1 reach Test-Logic-Reset from every state.
pub proof fn five_tms_high_resets(s: TapState)
    ensures
        tap_walk(s, seq![true, true, true, true, true]) == TapState::TestLogicReset,
        tap_walk_bits(s, 0x1f, 5) == TapState::TestLogicReset,
{
    let t = seq![true, true, true, true, true];
    assert(t.drop_first() =~= seq![true, true, true, true]);
    assert(t.drop_first().drop_first() =~= seq![true, true, true]);
    assert(t.drop_first().drop_first().drop_first() =~= seq![true, true]);
    assert(t.drop_first().drop_first().drop_first().drop_first() =~= seq![true]);
    assert(seq![true].drop_first() =~= Seq::<bool>::empty());
    reveal_with_fuel(tap_walk, 6);
    reveal_with_fuel(tap_walk_bits, 6);
}

/// Test-Logic-Reset stays put while TMS is held high.
pub proof fn reset_is_stable_under_tms_high()
    ensures
        tap_step(TapState::TestLogicReset, true) == TapState::TestLogicReset,
{
}

// ---------------------------------------------------------------------------
// Native USB errors and the transport trait
// ---------------------------------------------------------------------------

/// Error from the native USB / FTDI path (not openFPGALoader).
#[derive(Clone, Debug, PartialEq, Eq)]
pub enum NativeUsbError {
    /// Driver / transport not built — callers should fall back to openFPGALoader.
    NotImplemented(&'static str),
    /// Probe / IO failure once a real driver exists.
    Io(String),
}

impl NativeUsbError {
    /// The human-readable message of this error.
    pub fn message(&self) -> (r: String)
        ensures
            r@ == match self {
                NativeUsbError::NotImplemented(m) => "native USB NotImplemented: "@ + m@,
                NativeUsbError::Io(m) => "native USB I/O: "@ + m@,
            },
    {
        let mut o = match self {
            NativeUsbError::NotImplemented(_) => text::chars_of("native USB NotImplemented: "),
            NativeUsbError::Io(_) => text::chars_of("native USB I/O: "),
        };
        match self {
            NativeUsbError::NotImplemented(m) => text::push_str(&mut o, m),
            NativeUsbError::Io(m) => text::push_str(&mut o, m.as_str()),
        }
        text::string_of(o.as_slice())
    }
}

/// Helion-native USB/JTAG transport (FTDI MPSSE class).
pub trait HadUsbTransport {
    fn name(&self) -> &'static str;

    fn open_probe(&mut self) -> Result<(), NativeUsbError>;

    fn program_hbits(&mut self, path: &str, flash: bool) -> Result<(), NativeUsbError>;

    /// Helion TAP STAT word readback over USB/JTAG, when implemented.
    fn read_stat(&mut self) -> Result<Option<u32>, NativeUsbError>;
}

/// Compatibility transport: delegates to [`NativeFtdiMpsse`], so it is
/// `NotImplemented` in this build (openFPGALoader fallback).
#[derive(Clone, Copy, Debug, Default)]
pub struct NativeFtdiStub;

impl HadUsbTransport for NativeFtdiStub {
    fn name(&self) -> (r: &'static str)
        ensures
            r@ == "native-ftdi-stub"@,
    {
        "native-ftdi-stub"
    }

    fn open_probe(&mut self) -> (r: Result<(), NativeUsbError>)
        ensures
            r == native_off_err::<()>(),
    {
        let mut t = NativeFtdiMpsse::new();
        t.open_probe()
    }

    fn program_hbits(&mut self, path: &str, flash: bool) -> (r: Result<(), NativeUsbError>)
        ensures
            r == native_off_err::<()>(),
    {
        let mut t = NativeFtdiMpsse::new();
        match t.open_probe() {
            Ok(()) => {},
            Err(e) => return Err(e),
        }
        t.program_hbits(path, flash)
    }

    fn read_stat(&mut self) -> (r: Result<Option<u32>, NativeUsbError>)
        ensures
            r == native_off_err::<Option<u32>>(),
    {
        let mut t = NativeFtdiMpsse::new();
        t.read_stat()
    }
}

/// Tries the native FTDI MPSSE program path ([`NativeFtdiMpsse`]):
/// `NotImplemented` in this build, so callers fall back to openFPGALoader.
pub fn try_native_usb_program(path: &str, flash: bool) -> (r: Result<(), NativeUsbError>)
    ensures
        r == native_off_err::<()>(),
{
    try_native_mpsse_program(path, flash)
}

// ---------------------------------------------------------------------------
// Cable backends and HAD boards
// ---------------------------------------------------------------------------

/// Programming backend.
#[derive(Clone, Copy, Debug, PartialEq, Eq, Structural)]
pub enum CableBackend {
    /// In-process TAP + fabric (sim cable; high-level CFG_W).
    Sim,
    /// In-process FTDI bitbang harness: IR/DR + CFG_W packet shift + STAT.
    /// Sim fabric DONE only — never board DONE.
    MpsseSim,
    /// External `openFPGALoader` on PATH (USB/JTAG).
    OpenFpgaLoader,
    /// Native USB path ([`HadUsbTransport`] / [`NativeFtdiMpsse`]).
    NativeUsb,
}

pub open spec fn backend_name(b: CableBackend) -> Seq<char> {
    match b {
        CableBackend::Sim => "sim"@,
        CableBackend::MpsseSim => "mpsse-sim"@,
        CableBackend::OpenFpgaLoader => "ofl"@,
        CableBackend::NativeUsb => "native"@,
    }
}

impl CableBackend {
    pub fn as_str(self) -> (r: &'static str)
        ensures
            r@ == backend_name(self),
    {
        match self {
            CableBackend::Sim => "sim",
            CableBackend::MpsseSim => "mpsse-sim",
            CableBackend::OpenFpgaLoader => "ofl",
            CableBackend::NativeUsb => "native",
        }
    }
}

/// One known Helion HAD board / part row for openFPGALoader `-b` defaults and docs.
#[derive(Clone, Copy, Debug, PartialEq, Eq)]
pub struct HadBoardId {
    pub part: &'static str,
    pub idcode: u32,
    /// Suggested openFPGALoader `-b` name (Helion-local until upstreamed).
    pub ofl_board: &'static str,
    /// Common FTDI VID used on bring-up cables (heuristic, not a Helion USB ID).
    pub usb_vid: u16,
    /// Common FTDI PID (FT2232H dual = 0x6010) used on bring-up cables.
    pub usb_pid: u16,
    pub note: &'static str,
}

/// Row `i` of the known-board table.
pub open spec fn is_board_row(b: HadBoardId, i: int) -> bool {
    &&& b.part@ == (if i == 0 { "HL10T-C32-1"@ } else { "HL10T-DSP1"@ })
    &&& b.idcode == 0x0001_1A1F
    &&& b.ofl_board@ == "helion_hl10t"@
    &&& b.usb_vid == 0x0403
    &&& b.usb_pid == 0x6010
    &&& b.note@ == (if i == 0 {
        "Helion-T bring-up part; OFL board alias Helion-local (not upstream yet); OFL TAP_readback=none (never invent Helion STAT); native MPSSE=persistent FTDI session+opcodes (Io if no FTDI; no invented STAT); mpsse-sim=sim fabric STAT only"@
    } else {
        "Same IDCODE as HL10T-C32-1; DSP/MAC27 site variant; OFL TAP_readback=none; native MPSSE=usb-native or NotImplemented→OFL"@
    })
}

fn board_row(i: usize) -> (b: HadBoardId)
    requires
        i < 2,
    ensures
        is_board_row(b, i as int),
{
    if i == 0 {
        HadBoardId {
            part: "HL10T-C32-1",
            idcode: 0x0001_1A1F,
            ofl_board: "helion_hl10t",
            usb_vid: 0x0403,
            usb_pid: 0x6010,
            note: "Helion-T bring-up part; OFL board alias Helion-local (not upstream yet); OFL TAP_readback=none (never invent Helion STAT); native MPSSE=persistent FTDI session+opcodes (Io if no FTDI; no invented STAT); mpsse-sim=sim fabric STAT only",
        }
    } else {
        HadBoardId {
            part: "HL10T-DSP1",
            idcode: 0x0001_1A1F,
            ofl_board: "helion_hl10t",
            usb_vid: 0x0403,
            usb_pid: 0x6010,
            note: "Same IDCODE as HL10T-C32-1; DSP/MAC27 site variant; OFL TAP_readback=none; native MPSSE=usb-native or NotImplemented→OFL",
        }
    }
}

/// Known Helion HAD part → IDCODE / suggested `HELION_OFL_BOARD` table.
pub fn had_known_boards() -> (r: Vec<HadBoardId>)
    ensures
        r@.len() == 2,
        forall|i: int| 0 <= i < 2 ==> is_board_row(#[trigger] r@[i], i),
{
    let mut r: Vec<HadBoardId> = Vec::new();
    r.push(board_row(0));
    r.push(board_row(1));
    r
}

/// The row whose part equals `part`, trimmed, ignoring ASCII case.
pub open spec fn board_for(part: Seq<char>) -> Option<int> {
    if text::eq_ignore_case("HL10T-C32-1"@, text::trim(part)) {
        Some(0)
    } else if text::eq_ignore_case("HL10T-DSP1"@, text::trim(part)) {
        Some(1)
    } else {
        None
    }
}

/// Looks up a HAD board row by part name (trimmed, case-insensitive).
pub fn lookup_had_board(part: &str) -> (r: Option<HadBoardId>)
    ensures
        match board_for(part@) {
            Some(i) => r matches Some(b) && is_board_row(b, i),
            None => r is None,
        },
{
    let v = text::chars_of(part);
    let p = text::trim_chars(&v);
    let boards = had_known_boards();
    let mut i: usize = 0;
    while i < boards.len()
        invariant
            i <= 2,
            boards@.len() == 2,
            p@ == text::trim(part@),
            forall|k: int| 0 <= k < 2 ==> is_board_row(#[trigger] boards@[k], k),
            forall|k: int| 0 <= k < i ==> !text::eq_ignore_case(#[trigger] boards@[k].part@, p@),
        decreases 2 - i,
    {
        let b = boards[i];
        proof {
            assert(is_board_row(boards@[0], 0));
            assert(is_board_row(boards@[1], 1));
        }
        if text::eq_ignore_case_str(&p, b.part) {
            proof {
                assert(text::lower(p@) == text::lower(b.part@));
                if i == 1 {
                    assert(!text::eq_ignore_case(boards@[0].part@, p@));
                }
            }
            return Some(b);
        }
        proof {
            assert(!text::eq_ignore_case(p@, b.part@));
        }
        i = i + 1;
    }
    proof {
        assert(is_board_row(boards@[0], 0));
        assert(is_board_row(boards@[1], 1));
        assert(!text::eq_ignore_case(boards@[0].part@, p@));
        assert(!text::eq_ignore_case(boards@[1].part@, p@));
    }
    None
}

/// The `-b` board for openFPGALoader given the `HELION_OFL_BOARD` setting
/// (`env_board`, when set) and the part: a set value wins (`none`, `-` or
/// blank suppress `-b`); otherwise the known-table default for the part.
pub fn resolve_ofl_board_with(env_board: Option<&str>, part: Option<&str>) -> (r: Option<String>)
    ensures
        match env_board {
            Some(e) => {
                let b = text::trim(e@);
                if b.len() == 0 || b == seq!['-'] || text::eq_ignore_case(b, "none"@) {
                    r is None
                } else {
                    r matches Some(s) && s@ == b
                }
            },
            None => match part {
                Some(p) => match board_for(p@) {
                    Some(i) => r matches Some(s) && s@ == "helion_hl10t"@,
                    None => r is None,
                },
                None => r is None,
            },
        },
{
    match env_board {
        Some(e) => {
            let v = text::chars_of(e);
            let b = text::trim_chars(&v);
            let dash = b.len() == 1 && b[0] == '-';
            proof {
                if b@.len() == 1 && b@[0] == '-' {
                    assert(b@ =~= seq!['-']);
                }
            }
            if b.len() == 0 || dash || text::eq_ignore_case_str(&b, "none") {
                return None;
            }
            Some(text::string_of(b.as_slice()))
        },
        None => match part {
            Some(p) => match lookup_had_board(p) {
                Some(row) => Some(text::owned(row.ofl_board)),
                None => None,
            },
            None => None,
        },
    }
}

pub open spec fn board_line_of(part: Seq<char>, idcode: u32, ofl: Seq<char>, vid: u16, pid: u16, note: Seq<char>) -> Seq<char> {
    "had_board part="@ + part + " idcode="@ + text::hex_padded(idcode as nat, 10) + " ofl_board="@
        + ofl + " usb_vid="@ + text::hex_padded(vid as nat, 6) + " usb_pid="@
        + text::hex_padded(pid as nat, 6) + " — "@ + note + seq!['\n']
}

pub open spec fn board_line(b: HadBoardId) -> Seq<char> {
    board_line_of(b.part@, b.idcode, b.ofl_board@, b.usb_vid, b.usb_pid, b.note@)
}

pub open spec fn table_head() -> Seq<char> {
    "had_board_ids (HELION_OFL_BOARD defaults; Helion-local until OFL upstream)\n"@
        + "docs: set HELION_OFL_BOARD=<ofl_board> to pass -b; HELION_OFL_BOARD=none disables -b; unset → default ofl_board for known part. HELION_OFL_CABLE / HELION_OFL_EXTRA / HELION_OFL_VERIFY (flash --verify) / HELION_OFL_DRY_RUN also apply. OFL never invents Helion TAP STAT (TAP_readback=none). Native FTDI MPSSE (--cable native, feature usb-native): open when probe present; Io if none; refuses DONE without validated STAT TDO. Use --cable mpsse-sim for sim fabric CFG_W+STAT (not board DONE).\n"@
}

pub open spec fn table_native_line() -> Seq<char> {
    "native_usb: feature="@ + "off (OFL path)"@
        + " enumerate=FTDI_VID_0x0403 detect-only; program=NativeFtdiMpsse (opcodes+open; NotImplemented→OFL if feature off; Io if no device); OFL TAP_readback=none (never invent Helion STAT); mpsse_sim=bitbang+CFG_W+STAT (sim fabric DONE only; not hardware DONE)\n"@
}

/// The known-id table text: header, one line per known board, the native
/// USB line and the native MPSSE status note.
pub open spec fn known_table_text() -> Seq<char> {
    table_head() + board_line_of(
        "HL10T-C32-1"@,
        0x0001_1A1F,
        "helion_hl10t"@,
        0x0403,
        0x6010,
        "Helion-T bring-up part; OFL board alias Helion-local (not upstream yet); OFL TAP_readback=none (never invent Helion STAT); native MPSSE=persistent FTDI session+opcodes (Io if no FTDI; no invented STAT); mpsse-sim=sim fabric STAT only"@,
    ) + board_line_of(
        "HL10T-DSP1"@,
        0x0001_1A1F,
        "helion_hl10t"@,
        0x0403,
        0x6010,
        "Same IDCODE as HL10T-C32-1; DSP/MAC27 site variant; OFL TAP_readback=none; native MPSSE=usb-native or NotImplemented→OFL"@,
    ) + table_native_line()
        + "native_mpsse: usb-native OFF — NativeFtdiMpsse NotImplemented → OFL fallback; build with --features usb-native for real FTDI MPSSE open/opcode path"@
        + seq!['\n']
}

fn push_board_line(out: &mut Vec<char>, b: HadBoardId)
    ensures
        final(out)@ == old(out)@ + board_line(b),
{
    let ghost o = out@;
    text::push_str(out, "had_board part=");
    text::push_str(out, b.part);
    text::push_str(out, " idcode=");
    text::push_hex_padded(out, b.idcode as u64, 10);
    text::push_str(out, " ofl_board=");
    text::push_str(out, b.ofl_board);
    text::push_str(out, " usb_vid=");
    text::push_hex_padded(out, b.usb_vid as u64, 6);
    text::push_str(out, " usb_pid=");
    text::push_hex_padded(out, b.usb_pid as u64, 6);
    text::push_str(out, " — ");
    text::push_str(out, b.note);
    out.push('\n');
    assert(out@ =~= o + board_line(b));
}

/// Human-readable known-id table for detect / docs.
pub fn had_board_id_table_text() -> (r: String)
    ensures
        r@ == known_table_text(),
{
    let mut out = text::chars_of(
        "had_board_ids (HELION_OFL_BOARD defaults; Helion-local until OFL upstream)\n",
    );
    text::push_str(
        &mut out,
        "docs: set HELION_OFL_BOARD=<ofl_board> to pass -b; HELION_OFL_BOARD=none disables -b; unset → default ofl_board for known part. HELION_OFL_CABLE / HELION_OFL_EXTRA / HELION_OFL_VERIFY (flash --verify) / HELION_OFL_DRY_RUN also apply. OFL never invents Helion TAP STAT (TAP_readback=none). Native FTDI MPSSE (--cable native, feature usb-native): open when probe present; Io if none; refuses DONE without validated STAT TDO. Use --cable mpsse-sim for sim fabric CFG_W+STAT (not board DONE).\n",
    );
    let boards = had_known_boards();
    push_board_line(&mut out, boards[0]);
    push_board_line(&mut out, boards[1]);
    text::push_str(&mut out, "native_usb: feature=");
    let feat = if crate::native_usb::feature_enabled() {
        "usb-native"
    } else {
        "off (OFL path)"
    };
    text::push_str(&mut out, feat);
    text::push_str(
        &mut out,
        " enumerate=FTDI_VID_0x0403 detect-only; program=NativeFtdiMpsse (opcodes+open; NotImplemented→OFL if feature off; Io if no device); OFL TAP_readback=none (never invent Helion STAT); mpsse_sim=bitbang+CFG_W+STAT (sim fabric DONE only; not hardware DONE)\n",
    );
    let note = native_mpsse_status_note();
    text::push_str(&mut out, note.as_str());
    out.push('\n');
    proof {
        assert(is_board_row(boards@[0], 0));
        assert(is_board_row(boards@[1], 1));
        assert(out@ =~= known_table_text());
    }
    text::string_of(out.as_slice())
}

/// Whether openFPGALoader `--verify` was requested (SPI flash only, never
/// Helion TAP STAT readback).
#[derive(Clone, Copy, Debug, PartialEq, Eq, Structural)]
pub enum OflReadbackKind {
    /// No bitstream/STAT readback available over USB for the Helion TAP.
    NoReadback,
    /// `openFPGALoader --verify` requested for flash (SPI content check only).
    FlashSpiVerify,
}

impl OflReadbackKind {
    pub fn as_str(self) -> (r: &'static str)
        ensures
            r@ == (match self {
                OflReadbackKind::NoReadback => "none"@,
                OflReadbackKind::FlashSpiVerify => "flash_spi_verify"@,
            }),
    {
        match self {
            OflReadbackKind::NoReadback => "none",
            OflReadbackKind::FlashSpiVerify => "flash_spi_verify",
        }
    }
}

/// One entry from `list_cables` / `detect_boards`.
#[derive(Clone, Debug, PartialEq, Eq)]
pub struct CableInfo {
    pub id: String,
    pub backend: CableBackend,
    pub part_hint: String,
    pub detail: String,
}

/// Where a USB probe was discovered.
#[derive(Clone, Copy, Debug, PartialEq, Eq, Structural)]
pub enum UsbProbeSource {
    /// `openFPGALoader --scan-usb` line.
    OpenFpgaLoader,
    /// Native FTDI VID 0x0403 enumeration. Detect-only.
    NativeRusb,
}

pub open spec fn source_name(s: UsbProbeSource) -> Seq<char> {
    match s {
        UsbProbeSource::OpenFpgaLoader => "ofl"@,
        UsbProbeSource::NativeRusb => "native-rusb"@,
    }
}

impl UsbProbeSource {
    pub fn as_str(self) -> (r: &'static str)
        ensures
            r@ == source_name(self),
    {
        match self {
            UsbProbeSource::OpenFpgaLoader => "ofl",
            UsbProbeSource::NativeRusb => "native-rusb",
        }
    }
}

/// USB probe row from `--scan-usb` and/or native FTDI enumeration.
#[derive(Clone, Debug, PartialEq, Eq)]
pub struct UsbProbe {
    pub name: String,
    pub detail: String,
    pub source: UsbProbeSource,
}

/// Result of probing for `openFPGALoader` + native FTDI.
#[derive(Clone, Debug, PartialEq, Eq)]
pub struct UsbScan {
    /// Where `openFPGALoader` was found, if anywhere.
    pub ofl_path: Option<String>,
    /// Combined openFPGALoader + native FTDI probes (detect listing).
    pub probes: Vec<UsbProbe>,
    /// Probes from native FTDI enumeration only.
    pub native_probes: Vec<UsbProbe>,
    pub raw: String,
    pub note: String,
    pub native_note: String,
}

/// Result of board/cable detection (honest about a missing physical HAD).
#[derive(Clone, Debug, PartialEq, Eq)]
pub struct DetectReport {
    pub cables: Vec<CableInfo>,
    /// At least one USB probe is listed (detect only — not program DONE).
    pub physical_had: bool,
    pub note: String,
    pub usb: UsbScan,
}

// ---------------------------------------------------------------------------
// openFPGALoader `--scan-usb` output
// ---------------------------------------------------------------------------

/// `c` occurs in `s`.
pub open spec fn has_char(s: Seq<char>, c: char) -> bool {
    text::find_char_from(s, c, 0) < s.len()
}

/// Header chatter of `--scan-usb` (lower-cased line): never a programmer.
pub open spec fn scan_skip(l: Seq<char>) -> bool {
    ||| l == "empty"@
    ||| text::starts_with(l, "bus device"@)
    ||| text::contains(l, "no usb"@)
    ||| text::contains(l, "nothing"@)
    ||| text::starts_with(l, "usage"@)
    ||| text::contains(l, "not found"@)
    ||| (text::contains(l, "vid:pid"@) && !text::contains(l, "0x"@))
}

/// A probe line: a hex id plus a probe-ish word (lower-cased line).
pub open spec fn scan_interesting(l: Seq<char>) -> bool {
    &&& text::contains(l, "0x"@)
    &&& (text::contains(l, "vid"@) || text::contains(l, "pid"@) || text::contains(l, "ftdi"@)
        || text::contains(l, "probe"@) || text::contains(l, "cable"@) || text::contains(l, "usb"@)
        || has_char(l, ':'))
}

/// The probe detail a `--scan-usb` line yields, if any (the trimmed line).
pub open spec fn scan_line(line: Seq<char>) -> Option<Seq<char>> {
    let t = text::trim(line);
    let lo = text::lower(t);
    if t.len() == 0 || scan_skip(lo) || !scan_interesting(lo) {
        None
    } else {
        Some(t)
    }
}

/// Probe details of the lines `ls`, consecutive repeats dropped.
pub open spec fn scan_fold(acc: Seq<Seq<char>>, ls: Seq<Seq<char>>) -> Seq<Seq<char>>
    decreases ls.len(),
{
    if ls.len() == 0 {
        acc
    } else {
        let acc2 = match scan_line(ls[0]) {
            Some(t) => if acc.len() > 0 && acc.last() == t { acc } else { acc.push(t) },
            None => acc,
        };
        scan_fold(acc2, ls.drop_first())
    }
}

pub open spec fn scan_details(raw: Seq<char>) -> Seq<Seq<char>> {
    scan_fold(Seq::empty(), text::lines(raw))
}

/// The probe name: the first word of its line.
pub open spec fn probe_name(t: Seq<char>) -> Seq<char> {
    if text::words(t).len() > 0 {
        text::words(t)[0]
    } else {
        "usb"@
    }
}

fn has_char_exec(v: &Vec<char>, c: char) -> (r: bool)
    ensures
        r == has_char(v@, c),
{
    text::find_char(v, c, 0) < v.len()
}

fn scan_line_exec(line: &Vec<char>) -> (r: Option<Vec<char>>)
    ensures
        match scan_line(line@) {
            Some(t) => r matches Some(v) && v@ == t,
            None => r is None,
        },
{
    let t = text::trim_chars(line);
    if t.len() == 0 {
        return None;
    }
    let lo = text::lower_chars(&t);
    let has_hex = text::contains_str(&lo, "0x");
    let skip = text::eq_str(&lo, "empty") || text::starts_with_str(&lo, "bus device") || text::contains_str(
        &lo,
        "no usb",
    ) || text::contains_str(&lo, "nothing") || text::starts_with_str(&lo, "usage") || text::contains_str(
        &lo,
        "not found",
    ) || (text::contains_str(&lo, "vid:pid") && !has_hex);
    if skip {
        return None;
    }
    let interesting = has_hex && (text::contains_str(&lo, "vid") || text::contains_str(&lo, "pid")
        || text::contains_str(&lo, "ftdi") || text::contains_str(&lo, "probe") || text::contains_str(
        &lo,
        "cable",
    ) || text::contains_str(&lo, "usb") || has_char_exec(&lo, ':'));
    if !interesting {
        return None;
    }
    Some(t)
}

fn probe_name_exec(t: &Vec<char>) -> (r: String)
    ensures
        r@ == probe_name(t@),
{
    let w = text::split_words(t);
    if w.len() > 0 {
        text::string_of(w[0].as_slice())
    } else {
        text::owned("usb")
    }
}

/// Probes listed by `openFPGALoader --scan-usb` output: header chatter
/// (`empty`, the column header, "No USB devices found", usage text) is never a
/// programmer; a probe line carries a hex id; repeated lines count once.
pub fn parse_scan_usb_output(raw: &str) -> (r: Vec<UsbProbe>)
    ensures
        r@.len() == scan_details(raw@).len(),
        forall|i: int|
            0 <= i < r@.len() ==> {
                &&& (#[trigger] r@[i]).detail@ == scan_details(raw@)[i]
                &&& r@[i].name@ == probe_name(scan_details(raw@)[i])
                &&& r@[i].source == UsbProbeSource::OpenFpgaLoader
            },
{
    let all = text::chars_of(raw);
    let lines = text::split_lines(&all);
    let ghost ls = text::lines(all@);
    let mut probes: Vec<UsbProbe> = Vec::new();
    let ghost mut acc: Seq<Seq<char>> = Seq::empty();
    let mut li: usize = 0;
    assert(ls.subrange(0, ls.len() as int) =~= ls);
    while li < lines.len()
        invariant
            li <= lines@.len(),
            lines@.len() == ls.len(),
            ls == text::lines(raw@),
            forall|k: int| 0 <= k < lines@.len() ==> (#[trigger] lines@[k])@ == ls[k],
            probes@.len() == acc.len(),
            forall|i: int|
                0 <= i < probes@.len() ==> {
                    &&& (#[trigger] probes@[i]).detail@ == acc[i]
                    &&& probes@[i].name@ == probe_name(acc[i])
                    &&& probes@[i].source == UsbProbeSource::OpenFpgaLoader
                },
            scan_details(raw@) == scan_fold(acc, ls.subrange(li as int, ls.len() as int)),
        decreases lines@.len() - li,
    {
        proof {
            let rest = ls.subrange(li as int, ls.len() as int);
            assert(rest[0] == ls[li as int]);
            assert(rest.drop_first() =~= ls.subrange(li + 1, ls.len() as int));
        }
        match scan_line_exec(&lines[li]) {
            Some(t) => {
                let dup = if probes.len() > 0 {
                    let last = text::chars_of(probes[probes.len() - 1].detail.as_str());
                    text::eq_chars(&last, &t)
                } else {
                    false
                };
                if !dup {
                    let name = probe_name_exec(&t);
                    probes.push(UsbProbe { name, detail: text::string_of(t.as_slice()), source: UsbProbeSource::OpenFpgaLoader });
                    proof {
                        acc = acc.push(t@);
                    }
                }
            },
            None => {},
        }
        li = li + 1;
    }
    assert(ls.subrange(li as int, ls.len() as int) =~= Seq::<Seq<char>>::empty());
    probes
}

// ---------------------------------------------------------------------------
// Cables and detection
// ---------------------------------------------------------------------------

/// `c` has exactly these fields.
pub open spec fn cable_is(c: CableInfo, id: Seq<char>, b: CableBackend, part: Seq<char>, detail: Seq<char>) -> bool {
    &&& c.id@ == id
    &&& c.backend == b
    &&& c.part_hint@ == part
    &&& c.detail@ == detail
}

fn cable(id: &str, b: CableBackend, part: &str, detail: String) -> (r: CableInfo)
    ensures
        cable_is(r, id@, b, part@, detail@),
{
    CableInfo { id: text::owned(id), backend: b, part_hint: text::owned(part), detail }
}

pub open spec fn is_sim_cable(c: CableInfo) -> bool {
    cable_is(c, "sim0"@, CableBackend::Sim, "HL10T-C32-1"@, "helion-hw sim cable (TAP CFG_W); in-process fabric"@)
}

pub open spec fn is_mpsse_sim_cable(c: CableInfo) -> bool {
    cable_is(
        c,
        "mpsse-sim0"@,
        CableBackend::MpsseSim,
        "HL10T-C32-1"@,
        "FTDI bitbang harness (Tap::tick): CFG_W .hbits DR + STAT; sim fabric DONE only — not board DONE"@,
    )
}

/// Number of probes from `--scan-usb`.
pub open spec fn count_ofl(ps: Seq<UsbProbe>) -> nat
    decreases ps.len(),
{
    if ps.len() == 0 {
        0
    } else {
        count_ofl(ps.drop_last()) + if ps.last().source == UsbProbeSource::OpenFpgaLoader { 1nat } else { 0nat }
    }
}

/// Index of the first probe from `--scan-usb`.
pub open spec fn first_ofl(ps: Seq<UsbProbe>, i: int) -> int
    decreases ps.len() - i,
{
    if i >= ps.len() {
        ps.len() as int
    } else if ps[i].source == UsbProbeSource::OpenFpgaLoader {
        i
    } else {
        first_ofl(ps, i + 1)
    }
}

pub open spec fn ofl_detail(scan: UsbScan) -> Seq<char> {
    let n = count_ofl(scan.probes@);
    if scan.ofl_path is None {
        "openFPGALoader backend (binary not on PATH)"@
    } else if n == 0 {
        "openFPGALoader backend — no USB probe ("@ + scan.note@ + seq![')']
    } else {
        "openFPGALoader backend — "@ + text::dec(n) + " USB probe(s); "@
            + scan.probes@[first_ofl(scan.probes@, 0)].detail@
    }
}

pub open spec fn is_ofl_cable(c: CableInfo, scan: UsbScan) -> bool {
    cable_is(c, "ofl0"@, CableBackend::OpenFpgaLoader, "HL10T-C32-1"@, ofl_detail(scan))
}

pub open spec fn is_native_cable(c: CableInfo) -> bool {
    cable_is(
        c,
        "native0"@,
        CableBackend::NativeUsb,
        "HL10T-C32-1"@,
        "native USB ("@ + "usb-native feature off"@
            + "); MPSSE opcodes via NativeFtdiMpsse (feature off→NotImplemented→OFL; no device→Io; never invents STAT / never DONE from enumerate alone)"@,
    )
}

/// The in-process sim cable.
pub fn sim_cable_info() -> (r: CableInfo)
    ensures
        is_sim_cable(r),
{
    cable("sim0", CableBackend::Sim, "HL10T-C32-1", text::owned("helion-hw sim cable (TAP CFG_W); in-process fabric"))
}

/// The in-process FTDI bitbang harness cable.
pub fn mpsse_sim_cable_info() -> (r: CableInfo)
    ensures
        is_mpsse_sim_cable(r),
{
    cable(
        "mpsse-sim0",
        CableBackend::MpsseSim,
        "HL10T-C32-1",
        text::owned("FTDI bitbang harness (Tap::tick): CFG_W .hbits DR + STAT; sim fabric DONE only — not board DONE"),
    )
}

fn count_ofl_exec(ps: &Vec<UsbProbe>) -> (r: (usize, usize))
    ensures
        r.0 == count_ofl(ps@),
        r.1 == first_ofl(ps@, 0),
{
    let mut n: usize = 0;
    let mut first: usize = ps.len();
    let mut i: usize = 0;
    while i < ps.len()
        invariant
            i <= ps@.len(),
            n == count_ofl(ps@.subrange(0, i as int)),
            n <= i,
            first == ps@.len() ==> first_ofl(ps@, 0) == first_ofl(ps@, i as int),
            first < ps@.len() ==> first == first_ofl(ps@, 0) && first < i,
            first <= ps@.len(),
        decreases ps@.len() - i,
    {
        assert(ps@.subrange(0, i + 1).drop_last() =~= ps@.subrange(0, i as int));
        if ps[i].source == UsbProbeSource::OpenFpgaLoader {
            n = n + 1;
            if first == ps.len() {
                first = i;
            }
        }
        i = i + 1;
    }
    assert(ps@.subrange(0, ps@.len() as int) =~= ps@);
    (n, first)
}

/// The openFPGALoader cable, described from the scan.
pub fn ofl_cable_info(scan: &UsbScan) -> (r: CableInfo)
    ensures
        is_ofl_cable(r, *scan),
{
    let (n, first) = count_ofl_exec(&scan.probes);
    let detail = if scan.ofl_path.is_none() {
        text::owned("openFPGALoader backend (binary not on PATH)")
    } else if n == 0 {
        let mut o = text::chars_of("openFPGALoader backend — no USB probe (");
        text::push_str(&mut o, scan.note.as_str());
        let ghost m = o@;
        o.push(')');
        assert(o@ =~= m + seq![')']);
        text::string_of(o.as_slice())
    } else {
        proof {
            lemma_first_ofl(scan.probes@, 0);
        }
        let mut o = text::chars_of("openFPGALoader backend — ");
        text::push_u64(&mut o, n as u64);
        text::push_str(&mut o, " USB probe(s); ");
        text::push_str(&mut o, scan.probes[first].detail.as_str());
        text::string_of(o.as_slice())
    };
    cable("ofl0", CableBackend::OpenFpgaLoader, "HL10T-C32-1", detail)
}

proof fn lemma_first_ofl(ps: Seq<UsbProbe>, i: int)
    requires
        0 <= i <= ps.len(),
        count_ofl(ps) > 0 || first_ofl(ps, i) < ps.len(),
    ensures
        count_ofl(ps) > 0 ==> first_ofl(ps, 0) < ps.len(),
    decreases ps.len(),
{
    if count_ofl(ps) > 0 && ps.len() > 0 {
        lemma_count_means_some(ps);
    }
}

proof fn lemma_count_means_some(ps: Seq<UsbProbe>)
    requires
        count_ofl(ps) > 0,
    ensures
        first_ofl(ps, 0) < ps.len(),
    decreases ps.len(),
{
    let k = choose_ofl(ps);
    lemma_first_le(ps, 0, k);
}

proof fn choose_ofl(ps: Seq<UsbProbe>) -> (k: int)
    requires
        count_ofl(ps) > 0,
    ensures
        0 <= k < ps.len(),
        ps[k].source == UsbProbeSource::OpenFpgaLoader,
    decreases ps.len(),
{
    if ps.last().source == UsbProbeSource::OpenFpgaLoader {
        ps.len() - 1
    } else {
        let k = choose_ofl(ps.drop_last());
        k
    }
}

proof fn lemma_first_le(ps: Seq<UsbProbe>, i: int, k: int)
    requires
        0 <= i <= k < ps.len(),
        ps[k].source == UsbProbeSource::OpenFpgaLoader,
    ensures
        first_ofl(ps, i) <= k,
    decreases k - i,
{
    if ps[i].source != UsbProbeSource::OpenFpgaLoader {
        lemma_first_le(ps, i + 1, k);
    }
}

/// The native USB cable (driver absent in this build).
pub fn native_cable_info(scan: &UsbScan) -> (r: CableInfo)
    ensures
        is_native_cable(r),
{
    let enum_bit = if crate::native_usb::feature_enabled() {
        if scan.native_probes.len() == 0 {
            "rusb FTDI enumerate on (0 devices)"
        } else {
            "rusb FTDI enumerate on (probe(s) listed; detect-only)"
        }
    } else {
        "usb-native feature off"
    };
    let mut o = text::chars_of("native USB (");
    text::push_str(&mut o, enum_bit);
    text::push_str(
        &mut o,
        "); MPSSE opcodes via NativeFtdiMpsse (feature off→NotImplemented→OFL; no device→Io; never invents STAT / never DONE from enumerate alone)",
    );
    cable("native0", CableBackend::NativeUsb, "HL10T-C32-1", text::string_of(o.as_slice()))
}

/// The four cables of a scan: sim, mpsse-sim, openFPGALoader, native.
pub open spec fn cables_of(cs: Seq<CableInfo>, scan: UsbScan) -> bool {
    &&& cs.len() == 4
    &&& is_sim_cable(cs[0])
    &&& is_mpsse_sim_cable(cs[1])
    &&& is_ofl_cable(cs[2], scan)
    &&& is_native_cable(cs[3])
}

/// The cables listed for a scan.
pub fn cables_for_scan(scan: &UsbScan) -> (r: Vec<CableInfo>)
    ensures
        cables_of(r@, *scan),
{
    let mut r: Vec<CableInfo> = Vec::new();
    r.push(sim_cable_info());
    r.push(mpsse_sim_cable_info());
    r.push(ofl_cable_info(scan));
    r.push(native_cable_info(scan));
    r
}

pub open spec fn detect_note(usb: UsbScan) -> Seq<char> {
    if usb.probes@.len() > 0 {
        "Physical USB probe(s) listed: ofl="@ + text::dec(count_ofl(usb.probes@)) + " native_ftdi="@
            + text::dec(usb.native_probes@.len())
            + " (detect only — program DONE requires OFL/sim/mpsse-sim success or validated native STAT TDO, not enumerate). OFL TAP_readback=none; native MPSSE=opcodes+open when usb-native (Io if open fails; NotImplemented→OFL if feature off). Use --cable usb|ofl|auto|native|mpsse-sim|sim."@
    } else if usb.ofl_path is Some {
        "No USB programmer attached. "@ + usb.note@
            + ". Use --cable sim, or attach HAD/JTAG and retry detect."@
    } else {
        "openFPGALoader not on PATH and usb-native off — cannot probe USB. Install openFPGALoader (or set HELION_OPENFPGALOADER) or build helion-hw with --features usb-native for FTDI enumerate + MPSSE opcode open path. Sim/mpsse-sim cables remain available (--cable sim|mpsse-sim); native without feature stays NotImplemented→OFL; with feature and no FTDI → honest Io (no invented STAT)."@
    }
}

/// The detection report of a USB scan. A physical HAD means at least one
/// listed probe — enumeration alone never claims program DONE.
pub fn detect_report_from(usb: UsbScan) -> (r: DetectReport)
    ensures
        r.usb == usb,
        r.physical_had == (usb.probes@.len() > 0),
        cables_of(r.cables@, usb),
        r.note@ == detect_note(usb),
{
    let physical_had = usb.probes.len() > 0;
    let cables = cables_for_scan(&usb);
    let (ofl_n, _) = count_ofl_exec(&usb.probes);
    let native_n = usb.native_probes.len();
    let note = if physical_had {
        let mut o = text::chars_of("Physical USB probe(s) listed: ofl=");
        text::push_u64(&mut o, ofl_n as u64);
        text::push_str(&mut o, " native_ftdi=");
        text::push_u64(&mut o, native_n as u64);
        text::push_str(
            &mut o,
            " (detect only — program DONE requires OFL/sim/mpsse-sim success or validated native STAT TDO, not enumerate). OFL TAP_readback=none; native MPSSE=opcodes+open when usb-native (Io if open fails; NotImplemented→OFL if feature off). Use --cable usb|ofl|auto|native|mpsse-sim|sim.",
        );
        text::string_of(o.as_slice())
    } else if usb.ofl_path.is_some() || crate::native_usb::feature_enabled() {
        let mut o = text::chars_of("No USB programmer attached. ");
        text::push_str(&mut o, usb.note.as_str());
        text::push_str(&mut o, ". Use --cable sim, or attach HAD/JTAG and retry detect.");
        text::string_of(o.as_slice())
    } else {
        text::owned(
            "openFPGALoader not on PATH and usb-native off — cannot probe USB. Install openFPGALoader (or set HELION_OPENFPGALOADER) or build helion-hw with --features usb-native for FTDI enumerate + MPSSE opcode open path. Sim/mpsse-sim cables remain available (--cable sim|mpsse-sim); native without feature stays NotImplemented→OFL; with feature and no FTDI → honest Io (no invented STAT).",
        )
    };
    DetectReport { cables, physical_had, note, usb }
}

pub open spec fn probe_lines(ps: Seq<UsbProbe>) -> Seq<char>
    decreases ps.len(),
{
    if ps.len() == 0 {
        Seq::empty()
    } else {
        let p = ps.last();
        probe_lines(ps.drop_last()) + "probe "@ + p.name@ + " source="@ + source_name(p.source) + " — "@
            + p.detail@ + seq!['\n']
    }
}

pub open spec fn cable_lines(cs: Seq<CableInfo>) -> Seq<char>
    decreases cs.len(),
{
    if cs.len() == 0 {
        Seq::empty()
    } else {
        let c = cs.last();
        cable_lines(cs.drop_last()) + "cable "@ + c.id@ + " backend="@ + backend_name(c.backend) + " part="@
            + c.part_hint@ + " — "@ + c.detail@ + seq!['\n']
    }
}

/// The detect report text.
pub open spec fn report_text(d: DetectReport) -> Seq<char> {
    "detect physical_had="@ + text::dec(if d.physical_had { 1nat } else { 0nat }) + " cables="@
        + text::dec(d.cables@.len()) + seq!['\n'] + "note "@ + d.note@ + seq!['\n'] + match d.usb.ofl_path {
        Some(p) => "ofl path "@ + p@ + seq!['\n'],
        None => "ofl path (not on PATH)\n"@,
    } + "ofl probes "@ + text::dec(count_ofl(d.usb.probes@)) + seq!['\n'] + "native_ftdi probes "@
        + text::dec(d.usb.native_probes@.len()) + " feature="@ + "off"@ + seq!['\n'] + "native_note "@
        + d.usb.native_note@ + seq!['\n'] + probe_lines(d.usb.probes@) + cable_lines(d.cables@)
        + known_table_text()
}

impl DetectReport {
    pub fn text(&self) -> (r: String)
        ensures
            r@ == report_text(*self),
    {
        let mut out: Vec<char> = Vec::new();
        text::push_str(&mut out, "detect physical_had=");
        let ph: u64 = if self.physical_had {
            1
        } else {
            0
        };
        text::push_u64(&mut out, ph);
        text::push_str(&mut out, " cables=");
        text::push_u64(&mut out, self.cables.len() as u64);
        out.push('\n');
        text::push_str(&mut out, "note ");
        text::push_str(&mut out, self.note.as_str());
        out.push('\n');
        match &self.usb.ofl_path {
            Some(p) => {
                text::push_str(&mut out, "ofl path ");
                text::push_str(&mut out, p.as_str());
                out.push('\n');
            },
            None => text::push_str(&mut out, "ofl path (not on PATH)\n"),
        }
        let (ofl_n, _) = count_ofl_exec(&self.usb.probes);
        text::push_str(&mut out, "ofl probes ");
        text::push_u64(&mut out, ofl_n as u64);
        out.push('\n');
        text::push_str(&mut out, "native_ftdi probes ");
        text::push_u64(&mut out, self.usb.native_probes.len() as u64);
        text::push_str(&mut out, " feature=");
        let feat = if crate::native_usb::feature_enabled() {
            "usb-native"
        } else {
            "off"
        };
        text::push_str(&mut out, feat);
        out.push('\n');
        text::push_str(&mut out, "native_note ");
        text::push_str(&mut out, self.usb.native_note.as_str());
        out.push('\n');
        let ghost head = out@;
        assert(head =~= "detect physical_had="@ + text::dec(if self.physical_had { 1nat } else { 0nat })
            + " cables="@ + text::dec(self.cables@.len()) + seq!['\n'] + "note "@ + self.note@ + seq!['\n']
            + match self.usb.ofl_path {
            Some(p) => "ofl path "@ + p@ + seq!['\n'],
            None => "ofl path (not on PATH)\n"@,
        } + "ofl probes "@ + text::dec(count_ofl(self.usb.probes@)) + seq!['\n'] + "native_ftdi probes "@
            + text::dec(self.usb.native_probes@.len()) + " feature="@ + "off"@ + seq!['\n'] + "native_note "@
            + self.usb.native_note@ + seq!['\n']);
        let mut i: usize = 0;
        while i < self.usb.probes.len()
            invariant
                i <= self.usb.probes@.len(),
                out@ == head + probe_lines(self.usb.probes@.subrange(0, i as int)),
            decreases self.usb.probes@.len() - i,
        {
            let p = &self.usb.probes[i];
            let ghost before = out@;
            text::push_str(&mut out, "probe ");
            text::push_str(&mut out, p.name.as_str());
            text::push_str(&mut out, " source=");
            text::push_str(&mut out, p.source.as_str());
            text::push_str(&mut out, " — ");
            text::push_str(&mut out, p.detail.as_str());
            out.push('\n');
            proof {
                let pre = self.usb.probes@.subrange(0, i + 1);
                assert(pre.drop_last() =~= self.usb.probes@.subrange(0, i as int));
                assert(pre.last() == self.usb.probes@[i as int]);
                assert(out@ =~= head + probe_lines(pre));
            }
            i = i + 1;
        }
        assert(self.usb.probes@.subrange(0, self.usb.probes@.len() as int) =~= self.usb.probes@);
        let ghost mid = out@;
        let mut j: usize = 0;
        while j < self.cables.len()
            invariant
                j <= self.cables@.len(),
                out@ == mid + cable_lines(self.cables@.subrange(0, j as int)),
            decreases self.cables@.len() - j,
        {
            let c = &self.cables[j];
            text::push_str(&mut out, "cable ");
            text::push_str(&mut out, c.id.as_str());
            text::push_str(&mut out, " backend=");
            text::push_str(&mut out, c.backend.as_str());
            text::push_str(&mut out, " part=");
            text::push_str(&mut out, c.part_hint.as_str());
            text::push_str(&mut out, " — ");
            text::push_str(&mut out, c.detail.as_str());
            out.push('\n');
            proof {
                let pre = self.cables@.subrange(0, j + 1);
                assert(pre.drop_last() =~= self.cables@.subrange(0, j as int));
                assert(pre.last() == self.cables@[j as int]);
                assert(out@ =~= mid + cable_lines(pre));
            }
            j = j + 1;
        }
        assert(self.cables@.subrange(0, self.cables@.len() as int) =~= self.cables@);
        let table = had_board_id_table_text();
        text::push_str(&mut out, table.as_str());
        assert(out@ =~= report_text(*self));
        text::string_of(out.as_slice())
    }
}

// ---------------------------------------------------------------------------
// Cable selection
// ---------------------------------------------------------------------------

/// `{:?}` of a string (std `Debug for str`): the text in double quotes with
/// std's escapes.
pub uninterp spec fn str_debug(s: Seq<char>) -> Seq<char>;

/// Trusted: std's `Debug` formatting of a `str` is a function of the text alone.
#[verifier::external_body]
fn debug_str(s: &str) -> (r: String)
    ensures
        r@ == str_debug(s@),
{
    format!("{:?}", s)
}

/// The backend a (trimmed, lower-cased) `--cable` spec selects.
pub open spec fn cable_key(s: Seq<char>) -> Option<CableBackend> {
    if s.len() == 0 || s == "sim"@ || s == "sim0"@ {
        Some(CableBackend::Sim)
    } else if s == "mpsse-sim"@ || s == "mpsse_sim"@ || s == "mpsse-sim0"@ || s == "bitbang"@ {
        Some(CableBackend::MpsseSim)
    } else if s == "usb"@ || s == "usb0"@ || s == "ofl"@ || s == "ofl0"@ || s == "openfpgaloader"@ || s == "auto"@ {
        Some(CableBackend::OpenFpgaLoader)
    } else if s == "native"@ || s == "native0"@ || s == "ftdi"@ || s == "libusb"@ {
        Some(CableBackend::NativeUsb)
    } else {
        None
    }
}

/// Index of the first cable of backend `b`, or `cs.len()`.
pub open spec fn find_cable(cs: Seq<CableInfo>, b: CableBackend, i: int) -> int
    decreases cs.len() - i,
{
    if i >= cs.len() {
        cs.len() as int
    } else if cs[i].backend == b {
        i
    } else {
        find_cable(cs, b, i + 1)
    }
}

/// The built-in cable for backend `b` when a report lists none.
pub open spec fn default_cable(c: CableInfo, b: CableBackend, usb: UsbScan) -> bool {
    match b {
        CableBackend::Sim => is_sim_cable(c),
        CableBackend::MpsseSim => is_mpsse_sim_cable(c),
        CableBackend::OpenFpgaLoader => is_ofl_cable(c, usb),
        CableBackend::NativeUsb => is_native_cable(c),
    }
}

fn copy_cable(c: &CableInfo) -> (r: CableInfo)
    ensures
        r == *c,
{
    CableInfo { id: c.id.clone(), backend: c.backend, part_hint: c.part_hint.clone(), detail: c.detail.clone() }
}

fn pick_cable(det: &DetectReport, b: CableBackend) -> (r: CableInfo)
    ensures
        find_cable(det.cables@, b, 0) < det.cables@.len() ==> r == det.cables@[find_cable(det.cables@, b, 0)],
        find_cable(det.cables@, b, 0) >= det.cables@.len() ==> default_cable(r, b, det.usb),
{
    let mut i: usize = 0;
    while i < det.cables.len()
        invariant
            i <= det.cables@.len(),
            find_cable(det.cables@, b, 0) == find_cable(det.cables@, b, i as int),
        decreases det.cables@.len() - i,
    {
        if det.cables[i].backend == b {
            return copy_cable(&det.cables[i]);
        }
        i = i + 1;
    }
    match b {
        CableBackend::Sim => sim_cable_info(),
        CableBackend::MpsseSim => mpsse_sim_cable_info(),
        CableBackend::OpenFpgaLoader => ofl_cable_info(&det.usb),
        CableBackend::NativeUsb => native_cable_info(&det.usb),
    }
}

/// Resolves `--cable auto|sim|mpsse-sim|usb|ofl|native|sim0|mpsse-sim0|ofl0|usb0|native0`
/// against a detect report (no new scan). `auto` always selects the
/// openFPGALoader board path — never a sim DONE fallback.
pub fn resolve_cable_from(spec: &str, det: &DetectReport) -> (r: Result<CableInfo, String>)
    ensures
        match cable_key(text::lower(text::trim(spec@))) {
            Some(b) => r matches Ok(c) && if find_cable(det.cables@, b, 0) < det.cables@.len() {
                c == det.cables@[find_cable(det.cables@, b, 0)]
            } else {
                default_cable(c, b, det.usb)
            },
            None => r matches Err(e) && e@ == "unknown cable "@ + str_debug(text::lower(text::trim(spec@)))
                + ": use --cable auto|sim|mpsse-sim|usb|ofl|native"@,
        },
{
    let v = text::chars_of(spec);
    let t = text::trim_chars(&v);
    let s = text::lower_chars(&t);
    let key = if s.len() == 0 || text::eq_str(&s, "sim") || text::eq_str(&s, "sim0") {
        Some(CableBackend::Sim)
    } else if text::eq_str(&s, "mpsse-sim") || text::eq_str(&s, "mpsse_sim") || text::eq_str(&s, "mpsse-sim0")
        || text::eq_str(&s, "bitbang") {
        Some(CableBackend::MpsseSim)
    } else if text::eq_str(&s, "usb") || text::eq_str(&s, "usb0") || text::eq_str(&s, "ofl") || text::eq_str(
        &s,
        "ofl0",
    ) || text::eq_str(&s, "openfpgaloader") || text::eq_str(&s, "auto") {
        Some(CableBackend::OpenFpgaLoader)
    } else if text::eq_str(&s, "native") || text::eq_str(&s, "native0") || text::eq_str(&s, "ftdi")
        || text::eq_str(&s, "libusb") {
        Some(CableBackend::NativeUsb)
    } else {
        None
    };
    match key {
        Some(b) => Ok(pick_cable(det, b)),
        None => {
            let ss = text::string_of(s.as_slice());
            let d = debug_str(ss.as_str());
            let mut o = text::chars_of("unknown cable ");
            text::push_str(&mut o, d.as_str());
            text::push_str(&mut o, ": use --cable auto|sim|mpsse-sim|usb|ofl|native");
            Err(text::string_of(o.as_slice()))
        },
    }
}

// ---------------------------------------------------------------------------
// openFPGALoader invocation and output
// ---------------------------------------------------------------------------

pub open spec fn fail_marker(i: int) -> Seq<char> {
    if i == 0 { "verify failed"@ } else if i == 1 { "verification failed"@ } else if i == 2 { "verify: fail"@ }
    else if i == 3 { "verify error"@ } else if i == 4 { "mismatch"@ } else if i == 5 { "crc error"@ }
    else { "done failed"@ }
}

pub open spec fn ok_marker(i: int) -> Seq<char> {
    if i == 0 { "verify: ok"@ } else if i == 1 { "verify ok"@ } else if i == 2 { "verification ok"@ }
    else if i == 3 { "verified successfully"@ } else if i == 4 { "verify success"@ } else { "flash verified"@ }
}

/// The first failure phrase (of the seven, in order) that `l` holds.
pub open spec fn first_fail(l: Seq<char>, i: int) -> Option<int>
    decreases 7 - i,
{
    if i >= 7 || i < 0 {
        None
    } else if text::contains(l, fail_marker(i)) {
        Some(i)
    } else {
        first_fail(l, i + 1)
    }
}

/// The first success phrase (of the six, in order) that `l` holds.
pub open spec fn first_ok(l: Seq<char>, i: int) -> Option<int>
    decreases 6 - i,
{
    if i >= 6 || i < 0 {
        None
    } else if text::contains(l, ok_marker(i)) {
        Some(i)
    } else {
        first_ok(l, i + 1)
    }
}

pub open spec fn quoted_hit(m: Seq<char>) -> Seq<char> {
    "ofl_output contains "@ + seq!['"'] + m + seq!['"']
}

/// The verdict on openFPGALoader output: failure phrases first, then
/// success phrases, then the exit status. Without `--verify` the verdict is
/// never `Some(true)`: there is no Helion TAP readback over openFPGALoader.
pub open spec fn ofl_verdict(stdout: Seq<char>, stderr: Seq<char>, rb: OflReadbackKind, exit_ok: bool) -> (Option<bool>, Seq<char>) {
    let lo = text::lower(stdout + seq!['\n'] + stderr);
    match first_fail(lo, 0) {
        Some(i) => (Some(false), quoted_hit(fail_marker(i))),
        None => match first_ok(lo, 0) {
            Some(i) => (Some(true), quoted_hit(ok_marker(i))),
            None => match rb {
                OflReadbackKind::FlashSpiVerify => if exit_ok {
                    (Some(true), "HELION_OFL_VERIFY set and ofl exit 0 (no explicit verify phrase; not TAP STAT)"@)
                } else {
                    (Some(false), "HELION_OFL_VERIFY set but ofl exit non-zero"@)
                },
                OflReadbackKind::NoReadback => if exit_ok && (text::contains(lo, "done"@) || text::contains(
                    lo,
                    "finished"@,
                ) || text::contains(lo, "successfully"@)) {
                    (None, "ofl programmer success phrase seen; TAP_readback=none STAT=(no readback)"@)
                } else if exit_ok {
                    (None, "ofl exit 0; no verify phrase; TAP_readback=none STAT=(no readback)"@)
                } else {
                    (None, "ofl exit non-zero"@)
                },
            },
        },
    }
}

fn fail_marker_exec(i: usize) -> (r: &'static str)
    requires
        i < 7,
    ensures
        r@ == fail_marker(i as int),
{
    match i {
        0 => "verify failed",
        1 => "verification failed",
        2 => "verify: fail",
        3 => "verify error",
        4 => "mismatch",
        5 => "crc error",
        _ => "done failed",
    }
}

fn ok_marker_exec(i: usize) -> (r: &'static str)
    requires
        i < 6,
    ensures
        r@ == ok_marker(i as int),
{
    match i {
        0 => "verify: ok",
        1 => "verify ok",
        2 => "verification ok",
        3 => "verified successfully",
        4 => "verify success",
        _ => "flash verified",
    }
}

fn quoted_hit_exec(m: &str) -> (r: String)
    ensures
        r@ == quoted_hit(m@),
{
    let mut o = text::chars_of("ofl_output contains ");
    let ghost a = o@;
    o.push('"');
    text::push_str(&mut o, m);
    o.push('"');
    assert(o@ =~= quoted_hit(m@));
    text::string_of(o.as_slice())
}

/// Parses openFPGALoader stdout/stderr for verify / done phrases. Helion TAP
/// `IR_STAT` is never in that output: this only reflects openFPGALoader's own
/// programmer/verify messages.
pub fn parse_ofl_verify_output(stdout: &str, stderr: &str, readback: OflReadbackKind, exit_ok: bool) -> (r: (
    Option<bool>,
    String,
))
    ensures
        r.0 == ofl_verdict(stdout@, stderr@, readback, exit_ok).0,
        r.1@ == ofl_verdict(stdout@, stderr@, readback, exit_ok).1,
{
    let mut comb = text::chars_of(stdout);
    comb.push('\n');
    text::push_str(&mut comb, stderr);
    let lo = text::lower_chars(&comb);
    assert(lo@ == text::lower(stdout@ + seq!['\n'] + stderr@)) by {
        assert(comb@ =~= stdout@ + seq!['\n'] + stderr@);
    }
    let mut i: usize = 0;
    while i < 7
        invariant
            i <= 7,
            lo@ == text::lower(stdout@ + seq!['\n'] + stderr@),
            first_fail(lo@, 0) == first_fail(lo@, i as int),
        decreases 7 - i,
    {
        let m = fail_marker_exec(i);
        if text::contains_str(&lo, m) {
            assert(first_fail(lo@, i as int) == Some(i as int));
            let q = quoted_hit_exec(m);
            return (Some(false), q);
        }
        i = i + 1;
    }
    let mut j: usize = 0;
    while j < 6
        invariant
            j <= 6,
            lo@ == text::lower(stdout@ + seq!['\n'] + stderr@),
            first_fail(lo@, 0) is None,
            first_ok(lo@, 0) == first_ok(lo@, j as int),
        decreases 6 - j,
    {
        let m = ok_marker_exec(j);
        if text::contains_str(&lo, m) {
            assert(first_ok(lo@, j as int) == Some(j as int));
            let q = quoted_hit_exec(m);
            return (Some(true), q);
        }
        j = j + 1;
    }
    let doneish = text::contains_str(&lo, "done") || text::contains_str(&lo, "finished") || text::contains_str(
        &lo,
        "successfully",
    );
    match readback {
        OflReadbackKind::FlashSpiVerify => {
            if exit_ok {
                (Some(true), text::owned("HELION_OFL_VERIFY set and ofl exit 0 (no explicit verify phrase; not TAP STAT)"))
            } else {
                (Some(false), text::owned("HELION_OFL_VERIFY set but ofl exit non-zero"))
            }
        },
        OflReadbackKind::NoReadback => {
            if doneish && exit_ok {
                (None, text::owned("ofl programmer success phrase seen; TAP_readback=none STAT=(no readback)"))
            } else if exit_ok {
                (None, text::owned("ofl exit 0; no verify phrase; TAP_readback=none STAT=(no readback)"))
            } else {
                (None, text::owned("ofl exit non-zero"))
            }
        },
    }
}

/// An argument as shown in a command line: quoted when it holds a space.
pub open spec fn shown_arg(a: Seq<char>) -> Seq<char> {
    if has_char(a, ' ') {
        seq!['"'] + a + seq!['"']
    } else {
        a
    }
}

pub open spec fn command_text(program: Seq<char>, args: Seq<Seq<char>>) -> Seq<char>
    decreases args.len(),
{
    if args.len() == 0 {
        program
    } else {
        command_text(program, args.drop_last()) + seq![' '] + shown_arg(args.last())
    }
}

/// The command line `program args…` for logs, arguments with spaces quoted.
pub fn format_command(program: &str, args: &[String]) -> (r: String)
    ensures
        r@ == command_text(program@, crate::ipxact::str_views(args@)),
{
    let mut s = text::chars_of(program);
    let ghost av = crate::ipxact::str_views(args@);
    let mut i: usize = 0;
    while i < args.len()
        invariant
            i <= args@.len(),
            av == crate::ipxact::str_views(args@),
            s@ == command_text(program@, av.subrange(0, i as int)),
        decreases args@.len() - i,
    {
        let ghost before = s@;
        let a = text::chars_of(args[i].as_str());
        s.push(' ');
        if has_char_exec(&a, ' ') {
            s.push('"');
            text::push_chars(&mut s, &a);
            s.push('"');
        } else {
            text::push_chars(&mut s, &a);
        }
        proof {
            let pre = av.subrange(0, i + 1);
            assert(pre.drop_last() =~= av.subrange(0, i as int));
            assert(pre.last() == a@);
            assert(s@ =~= command_text(program@, pre));
        }
        i = i + 1;
    }
    assert(av.subrange(0, args@.len() as int) =~= av);
    text::string_of(s.as_slice())
}

/// An environment switch that is on: `1`, `true`, `TRUE`, `yes` or `YES`.
pub open spec fn flag_on(v: Option<Seq<char>>) -> bool {
    match v {
        Some(s) => s == "1"@ || s == "true"@ || s == "TRUE"@ || s == "yes"@ || s == "YES"@,
        None => false,
    }
}

pub fn env_flag_on(v: Option<&str>) -> (r: bool)
    ensures
        r == flag_on(match v {
            Some(s) => Some(s@),
            None => None,
        }),
{
    match v {
        Some(s) => text::str_eq(s, "1") || text::str_eq(s, "true") || text::str_eq(s, "TRUE") || text::str_eq(s, "yes")
            || text::str_eq(s, "YES"),
        None => false,
    }
}

pub open spec fn opt_str_view(o: Option<&str>) -> Option<Seq<char>> {
    match o {
        Some(s) => Some(s@),
        None => None,
    }
}

/// The openFPGALoader arguments for a program run: `-b <board>` when a board
/// is known, `-c <cable>` when one is set, `-f` (flash) or `-m` (SRAM),
/// `--verify` for a flash run with verify requested (SPI flash only), the
/// extra words, then the bitstream.
pub open spec fn ofl_args(bitstream: Seq<char>, flash: bool, board: Option<Seq<char>>, cable: Option<Seq<char>>, verify: bool, extra: Option<Seq<char>>) -> Seq<Seq<char>> {
    (match board {
        Some(b) => seq!["-b"@, b],
        None => Seq::empty(),
    }) + (match cable {
        Some(c) => if text::trim(c).len() > 0 { seq!["-c"@, text::trim(c)] } else { Seq::empty() },
        None => Seq::empty(),
    }) + seq![if flash { "-f"@ } else { "-m"@ }] + (if flash && verify { seq!["--verify"@] } else { Seq::empty() })
        + (match extra {
        Some(e) => text::words(e),
        None => Seq::empty(),
    }) + seq![bitstream]
}

/// Builds the openFPGALoader program arguments from the resolved board and
/// the `HELION_OFL_CABLE` / `HELION_OFL_VERIFY` / `HELION_OFL_EXTRA` settings.
pub fn ofl_program_args(
    bitstream: &str,
    flash: bool,
    board: Option<String>,
    cable: Option<&str>,
    verify: bool,
    extra: Option<&str>,
) -> (r: (Vec<String>, Option<String>, OflReadbackKind))
    ensures
        crate::ipxact::str_views(r.0@) == ofl_args(
            bitstream@,
            flash,
            crate::ipxact::opt_view(board),
            opt_str_view(cable),
            verify,
            opt_str_view(extra),
        ),
        r.1 == board,
        r.2 == (if flash && verify { OflReadbackKind::FlashSpiVerify } else { OflReadbackKind::NoReadback }),
{
    let ghost p1: Seq<Seq<char>> = match crate::ipxact::opt_view(board) {
        Some(b) => seq!["-b"@, b],
        None => Seq::empty(),
    };
    let ghost p2: Seq<Seq<char>> = match cable {
        Some(c) => if text::trim(c@).len() > 0 { seq!["-c"@, text::trim(c@)] } else { Seq::empty() },
        None => Seq::empty(),
    };
    let ghost p3: Seq<Seq<char>> = seq![if flash { "-f"@ } else { "-m"@ }];
    let ghost p4: Seq<Seq<char>> = if flash && verify { seq!["--verify"@] } else { Seq::empty() };
    let mut args: Vec<String> = Vec::new();
    match &board {
        Some(b) => {
            args.push(text::owned("-b"));
            args.push(b.clone());
        },
        None => {},
    }
    assert(crate::ipxact::str_views(args@) =~= p1);
    match cable {
        Some(c) => {
            let cv = text::chars_of(c);
            let t = text::trim_chars(&cv);
            if t.len() > 0 {
                args.push(text::owned("-c"));
                args.push(text::string_of(t.as_slice()));
            }
        },
        None => {},
    }
    assert(crate::ipxact::str_views(args@) =~= p1 + p2);
    args.push(text::owned(if flash {
        "-f"
    } else {
        "-m"
    }));
    assert(crate::ipxact::str_views(args@) =~= p1 + p2 + p3);
    let readback = if flash && verify {
        args.push(text::owned("--verify"));
        OflReadbackKind::FlashSpiVerify
    } else {
        OflReadbackKind::NoReadback
    };
    let ghost a2 = crate::ipxact::str_views(args@);
    assert(a2 =~= p1 + p2 + p3 + p4);
    match extra {
        Some(e) => {
            let ev = text::chars_of(e);
            let w = text::split_words(&ev);
            let mut k: usize = 0;
            while k < w.len()
                invariant
                    k <= w@.len(),
                    w@.len() == text::words(e@).len(),
                    forall|q: int| 0 <= q < w@.len() ==> (#[trigger] w@[q])@ == text::words(e@)[q],
                    crate::ipxact::str_views(args@) == a2 + text::words(e@).subrange(0, k as int),
                decreases w@.len() - k,
            {
                let ghost before = crate::ipxact::str_views(args@);
                args.push(text::string_of(w[k].as_slice()));
                assert(crate::ipxact::str_views(args@) =~= before.push(w@[k as int]@));
                k = k + 1;
                assert(crate::ipxact::str_views(args@) =~= a2 + text::words(e@).subrange(0, k as int));
            }
            assert(text::words(e@).subrange(0, w@.len() as int) =~= text::words(e@));
        },
        None => {},
    }
    let ghost p5: Seq<Seq<char>> = match extra {
        Some(e) => text::words(e@),
        None => Seq::empty(),
    };
    assert(crate::ipxact::str_views(args@) =~= a2 + p5);
    let ghost a3 = crate::ipxact::str_views(args@);
    args.push(text::owned(bitstream));
    assert(crate::ipxact::str_views(args@) =~= a3.push(bitstream@));
    proof {
        let want = ofl_args(
            bitstream@,
            flash,
            crate::ipxact::opt_view(board),
            opt_str_view(cable),
            verify,
            opt_str_view(extra),
        );
        assert(crate::ipxact::str_views(args@) =~= want);
    }
    (args, board, readback)
}

// ---------------------------------------------------------------------------
// openFPGALoader program run: the checks before and the verdict after
// ---------------------------------------------------------------------------

/// What an openFPGALoader program run reported.
#[derive(Clone, Debug)]
pub struct OflProgramReport {
    pub command: String,
    pub dry_run: bool,
    pub exit_code: Option<i32>,
    pub stdout: String,
    pub stderr: String,
    /// Board `-b` actually passed, if any.
    pub board: Option<String>,
    /// Helion TAP STAT readback is never available via openFPGALoader.
    pub tap_readback: bool,
    /// openFPGALoader `--verify` kind (SPI flash only when enabled).
    pub readback: OflReadbackKind,
    /// Parsed from the run's stdout/stderr (SPI verify honesty).
    pub verify_ok: Option<bool>,
    /// Short parse note (which verify phrase matched).
    pub verify_detail: String,
}

/// Why a program run is refused before it starts, or `None`: no binary, a
/// binary path that is not a file, no USB programmer, no bitstream file.
pub open spec fn ofl_refusal(ofl_path: Option<Seq<char>>, ofl_is_file: bool, probes_found: bool, scan_note: Seq<char>, bitstream: Seq<char>, bitstream_is_file: bool) -> Option<Seq<char>> {
    match ofl_path {
        None => Some(
            "program: openFPGALoader not on PATH — install it or set HELION_OPENFPGALOADER; or use --cable sim"@,
        ),
        Some(p) => if !ofl_is_file {
            Some("program: openFPGALoader path "@ + p + " is not a file"@)
        } else if !probes_found {
            Some(
                "program: no USB programmer detected — "@ + scan_note
                    + "\n  Attach HAD / JTAG cable and re-run detect, or use --cable sim"@,
            )
        } else if !bitstream_is_file {
            Some("program: bitstream not found: "@ + bitstream)
        } else {
            None
        },
    }
}

/// The checks before a program run, with the refusal text of the first that fails.
pub fn ofl_program_precheck(
    ofl_path: Option<&str>,
    ofl_is_file: bool,
    probes_found: bool,
    scan_note: &str,
    bitstream: &str,
    bitstream_is_file: bool,
) -> (r: Result<(), String>)
    ensures
        match ofl_refusal(opt_str_view(ofl_path), ofl_is_file, probes_found, scan_note@, bitstream@, bitstream_is_file) {
            Some(e) => r matches Err(x) && x@ == e,
            None => r is Ok,
        },
{
    match ofl_path {
        None => Err(text::owned(
            "program: openFPGALoader not on PATH — install it or set HELION_OPENFPGALOADER; or use --cable sim",
        )),
        Some(p) => if !ofl_is_file {
            let mut v = text::chars_of("program: openFPGALoader path ");
            text::push_str(&mut v, p);
            text::push_str(&mut v, " is not a file");
            Err(text::string_of(v.as_slice()))
        } else if !probes_found {
            let mut v = text::chars_of("program: no USB programmer detected — ");
            text::push_str(&mut v, scan_note);
            text::push_str(&mut v, "\n  Attach HAD / JTAG cable and re-run detect, or use --cable sim");
            Err(text::string_of(v.as_slice()))
        } else if !bitstream_is_file {
            let mut v = text::chars_of("program: bitstream not found: ");
            text::push_str(&mut v, bitstream);
            Err(text::string_of(v.as_slice()))
        } else {
            Ok(())
        },
    }
}

/// The refusal of a dry run (`HELION_OFL_DRY_RUN`): the command is shown, not run.
pub fn ofl_dry_run_refusal(command: &str) -> (r: String)
    ensures
        r@ == "program: dry-run only (HELION_OFL_DRY_RUN=1); would run: "@ + command@,
{
    let mut v = text::chars_of("program: dry-run only (HELION_OFL_DRY_RUN=1); would run: ");
    text::push_str(&mut v, command);
    text::string_of(v.as_slice())
}

/// The first line (of `ls`, from `i` on) that is not blank, trimmed.
pub open spec fn first_text_line(ls: Seq<Seq<char>>, i: int) -> Option<Seq<char>>
    decreases ls.len() - i,
{
    if i < 0 || i >= ls.len() {
        None
    } else if text::trim(ls[i]).len() > 0 {
        Some(text::trim(ls[i]))
    } else {
        first_text_line(ls, i + 1)
    }
}

/// The verdict on a finished program run: a failed exit is an error naming
/// the exit code (-1 when killed) and the first non-blank line of stderr,
/// then stdout; a clean exit whose output reports a failed verify is refused;
/// otherwise the report.
pub open spec fn ofl_outcome_of(command: Seq<char>, stdout: Seq<char>, stderr: Seq<char>, success: bool, code: Option<i32>, readback: OflReadbackKind) -> Result<(Option<bool>, Seq<char>), Seq<char>> {
    if !success {
        Err(
            "program: openFPGALoader failed (exit "@ + text::dec_int(
                match code {
                    Some(c) => c as int,
                    None => -1,
                },
            ) + "): "@ + match first_text_line(text::lines(stderr) + text::lines(stdout), 0) {
                Some(l) => l,
                None => "(no output)"@,
            } + "\n  cmd: "@ + command,
        )
    } else {
        let v = ofl_verdict(stdout, stderr, readback, true);
        if v.0 == Some(false) {
            Err(
                "program: openFPGALoader exit 0 but verify parse failed ("@ + v.1
                    + ");              refusing DONE (no TAP STAT). cmd: "@ + command,
            )
        } else {
            Ok(v)
        }
    }
}

fn first_text_line_exec(ls: &Vec<Vec<char>>) -> (r: Option<Vec<char>>)
    ensures
        match first_text_line(ls@.map_values(|l: Vec<char>| l@), 0) {
            Some(l) => r matches Some(v) && v@ == l,
            None => r is None,
        },
{
    let ghost lv = ls@.map_values(|l: Vec<char>| l@);
    let mut i: usize = 0;
    while i < ls.len()
        invariant
            i <= ls@.len(),
            lv == ls@.map_values(|l: Vec<char>| l@),
            first_text_line(lv, 0) == first_text_line(lv, i as int),
        decreases ls@.len() - i,
    {
        assert(lv[i as int] == ls@[i as int]@);
        let t = text::trim_chars(&ls[i]);
        if t.len() > 0 {
            return Some(t);
        }
        i = i + 1;
    }
    None
}

/// The verdict on a finished openFPGALoader program run (see [`ofl_outcome_of`]).
pub fn ofl_program_outcome(
    command: String,
    stdout: String,
    stderr: String,
    success: bool,
    code: Option<i32>,
    board: Option<String>,
    readback: OflReadbackKind,
) -> (r: Result<OflProgramReport, String>)
    ensures
        match ofl_outcome_of(command@, stdout@, stderr@, success, code, readback) {
            Err(e) => r matches Err(x) && x@ == e,
            Ok(v) => r matches Ok(rep) && rep.command@ == command@ && !rep.dry_run && rep.exit_code == code
                && rep.stdout@ == stdout@ && rep.stderr@ == stderr@ && rep.board == board && !rep.tap_readback
                && rep.readback == readback && rep.verify_ok == v.0 && rep.verify_detail@ == v.1,
        },
{
    if !success {
        let mut all = text::split_lines(&text::chars_of(stderr.as_str()));
        let ghost a = text::lines(stderr@);
        let out_lines = text::split_lines(&text::chars_of(stdout.as_str()));
        let ghost b = text::lines(stdout@);
        let ghost a0 = all@;
        let mut k: usize = 0;
        assert(a0.map_values(|l: Vec<char>| l@) =~= a);
        assert(out_lines@.map_values(|l: Vec<char>| l@) =~= b);
        while k < out_lines.len()
            invariant
                k <= out_lines@.len(),
                out_lines@.map_values(|l: Vec<char>| l@) == b,
                all@.map_values(|l: Vec<char>| l@) == a + b.subrange(0, k as int),
            decreases out_lines@.len() - k,
        {
            let mut c: Vec<char> = Vec::new();
            text::push_chars(&mut c, &out_lines[k]);
            assert(c@ =~= out_lines@[k as int]@);
            let ghost before = all@;
            all.push(c);
            assert(all@.map_values(|l: Vec<char>| l@) =~= before.map_values(|l: Vec<char>| l@).push(b[k as int]));
            k = k + 1;
            assert(all@.map_values(|l: Vec<char>| l@) =~= a + b.subrange(0, k as int));
        }
        assert(b.subrange(0, out_lines@.len() as int) =~= b);
        let mut v = text::chars_of("program: openFPGALoader failed (exit ");
        let c: i64 = match code {
            Some(c) => c as i64,
            None => -1,
        };
        text::push_i64(&mut v, c);
        text::push_str(&mut v, "): ");
        match first_text_line_exec(&all) {
            Some(l) => text::push_chars(&mut v, &l),
            None => text::push_str(&mut v, "(no output)"),
        }
        text::push_str(&mut v, "\n  cmd: ");
        text::push_str(&mut v, command.as_str());
        return Err(text::string_of(v.as_slice()));
    }
    let (verify_ok, verify_detail) = parse_ofl_verify_output(stdout.as_str(), stderr.as_str(), readback, true);
    match verify_ok {
        Some(false) => {
            let mut v = text::chars_of("program: openFPGALoader exit 0 but verify parse failed (");
            text::push_str(&mut v, verify_detail.as_str());
            text::push_str(&mut v, ");              refusing DONE (no TAP STAT). cmd: ");
            text::push_str(&mut v, command.as_str());
            return Err(text::string_of(v.as_slice()));
        },
        _ => {},
    }
    Ok(OflProgramReport {
        command,
        dry_run: false,
        exit_code: code,
        stdout,
        stderr,
        board,
        tap_readback: false,
        readback,
        verify_ok,
        verify_detail,
    })
}

// ---------------------------------------------------------------------------
// Probe scan: what a `--scan-usb` run and the native enumeration amount to
// ---------------------------------------------------------------------------

/// The scan when openFPGALoader was not found.
pub fn scan_without_ofl(native_probes: Vec<UsbProbe>, native_note: String) -> (r: UsbScan)
    ensures
        r.ofl_path is None,
        r.probes@.len() == 0,
        r.native_probes == native_probes,
        r.raw@.len() == 0,
        r.note@ == "openFPGALoader not on PATH (set HELION_OPENFPGALOADER or install openFPGALoader)"@,
        r.native_note == native_note,
{
    UsbScan {
        ofl_path: None,
        probes: Vec::new(),
        native_probes,
        raw: String::new(),
        note: text::owned("openFPGALoader not on PATH (set HELION_OPENFPGALOADER or install openFPGALoader)"),
        native_note,
    }
}

/// The note of a finished `--scan-usb` run that listed `n` probes.
pub open spec fn scan_run_note(raw: Seq<char>, n: nat, success: bool, code: Option<i32>) -> Seq<char> {
    if n == 0 {
        if success {
            "openFPGALoader --scan-usb: no USB programmer found"@
        } else {
            "openFPGALoader --scan-usb exit "@ + text::dec_int(
                match code {
                    Some(c) => c as int,
                    None => -1,
                },
            ) + ": "@ + text::trim(
                if text::lines(raw).len() > 0 {
                    text::lines(raw)[0]
                } else {
                    "(no output)"@
                },
            )
        }
    } else {
        "openFPGALoader --scan-usb: "@ + text::dec(n) + " probe(s)"@
    }
}

/// The scan made of a finished `--scan-usb` run (stdout then stderr).
pub fn scan_from_ofl_run(
    ofl_path: String,
    stdout: &str,
    stderr: &str,
    success: bool,
    code: Option<i32>,
    native_probes: Vec<UsbProbe>,
    native_note: String,
) -> (r: UsbScan)
    ensures
        r.ofl_path == Some(ofl_path),
        r.raw@ == stdout@ + stderr@,
        r.probes@.len() == scan_details(stdout@ + stderr@).len(),
        forall|i: int|
            0 <= i < r.probes@.len() ==> {
                &&& (#[trigger] r.probes@[i]).detail@ == scan_details(stdout@ + stderr@)[i]
                &&& r.probes@[i].name@ == probe_name(scan_details(stdout@ + stderr@)[i])
                &&& r.probes@[i].source == UsbProbeSource::OpenFpgaLoader
            },
        r.note@ == scan_run_note(stdout@ + stderr@, r.probes@.len(), success, code),
        r.native_probes == native_probes,
        r.native_note == native_note,
{
    let mut rv = text::chars_of(stdout);
    text::push_str(&mut rv, stderr);
    let raw = text::string_of(rv.as_slice());
    let probes = parse_scan_usb_output(raw.as_str());
    let mut nv: Vec<char> = Vec::new();
    if probes.len() == 0 {
        if success {
            text::push_str(&mut nv, "openFPGALoader --scan-usb: no USB programmer found");
        } else {
            text::push_str(&mut nv, "openFPGALoader --scan-usb exit ");
            let c: i64 = match code {
                Some(c) => c as i64,
                None => -1,
            };
            text::push_i64(&mut nv, c);
            text::push_str(&mut nv, ": ");
            let ls = text::split_lines(&rv);
            let first = if ls.len() > 0 {
                text::trim_chars(&ls[0])
            } else {
                text::trim_chars(&text::chars_of("(no output)"))
            };
            text::push_chars(&mut nv, &first);
        }
    } else {
        text::push_str(&mut nv, "openFPGALoader --scan-usb: ");
        text::push_u64(&mut nv, probes.len() as u64);
        text::push_str(&mut nv, " probe(s)");
    }
    UsbScan {
        ofl_path: Some(ofl_path),
        probes,
        native_probes,
        raw,
        note: text::string_of(nv.as_slice()),
        native_note,
    }
}

/// `ps` followed by each probe of `ns` whose detail is not listed yet.
pub open spec fn merged_probes(ps: Seq<UsbProbe>, ns: Seq<UsbProbe>) -> Seq<UsbProbe>
    decreases ns.len(),
{
    if ns.len() == 0 {
        ps
    } else {
        let m = merged_probes(ps, ns.drop_last());
        if exists|j: int| 0 <= j < m.len() && (#[trigger] m[j]).detail@ == ns.last().detail@ {
            m
        } else {
            m.push(ns.last())
        }
    }
}

/// `s` without its trailing `.` characters.
pub open spec fn trim_dots(s: Seq<char>) -> Seq<char>
    decreases s.len(),
{
    if s.len() > 0 && s.last() == '.' {
        trim_dots(s.drop_last())
    } else {
        s
    }
}

fn copy_probe(p: &UsbProbe) -> (r: UsbProbe)
    ensures
        r == *p,
{
    UsbProbe { name: p.name.clone(), detail: p.detail.clone(), source: p.source }
}

/// Adds the native FTDI probes of `scan` to its listing (one per detail) and,
/// when there are native probes or the driver is built in, appends the
/// native note to the scan note.
pub fn merge_native_probes(scan: UsbScan, native_enabled: bool) -> (r: UsbScan)
    ensures
        r.ofl_path == scan.ofl_path,
        r.raw == scan.raw,
        r.native_probes == scan.native_probes,
        r.native_note == scan.native_note,
        r.probes@ == merged_probes(scan.probes@, scan.native_probes@),
        r.note@ == if scan.native_probes@.len() > 0 || native_enabled {
            trim_dots(scan.note@) + "; "@ + scan.native_note@
        } else {
            scan.note@
        },
{
    let mut s = scan;
    let ghost p0 = s.probes@;
    let mut i: usize = 0;
    assert(s.native_probes@.subrange(0, 0) =~= Seq::<UsbProbe>::empty());
    while i < s.native_probes.len()
        invariant
            i <= s.native_probes@.len(),
            s.ofl_path == scan.ofl_path && s.raw == scan.raw && s.native_probes == scan.native_probes,
            s.native_note == scan.native_note && s.note == scan.note,
            p0 == scan.probes@,
            s.probes@ == merged_probes(p0, s.native_probes@.subrange(0, i as int)),
        decreases s.native_probes@.len() - i,
    {
        assert(s.native_probes@.subrange(0, i + 1).drop_last() =~= s.native_probes@.subrange(0, i as int));
        let mut found = false;
        let mut j: usize = 0;
        while j < s.probes.len()
            invariant
                j <= s.probes@.len(),
                i < s.native_probes@.len(),
                !found ==> forall|q: int| 0 <= q < j ==> (#[trigger] s.probes@[q]).detail@ != s.native_probes@[i as int].detail@,
                found ==> exists|q: int| 0 <= q < s.probes@.len() && (#[trigger] s.probes@[q]).detail@ == s.native_probes@[i as int].detail@,
            decreases s.probes@.len() - j,
        {
            if text::str_eq(s.probes[j].detail.as_str(), s.native_probes[i].detail.as_str()) {
                found = true;
            }
            j = j + 1;
        }
        if !found {
            let p = copy_probe(&s.native_probes[i]);
            s.probes.push(p);
        }
        i = i + 1;
    }
    assert(s.native_probes@.subrange(0, s.native_probes@.len() as int) =~= s.native_probes@);
    if s.native_probes.len() > 0 || native_enabled {
        let v = text::chars_of(s.note.as_str());
        let mut k: usize = v.len();
        assert(v@.subrange(0, k as int) =~= v@);
        while k > 0 && v[k - 1] == '.'
            invariant
                k <= v@.len(),
                trim_dots(v@) == trim_dots(v@.subrange(0, k as int)),
            decreases k,
        {
            assert(v@.subrange(0, k as int).drop_last() =~= v@.subrange(0, k - 1));
            k = k - 1;
        }
        let mut nv = text::slice(&v, 0, k);
        assert(trim_dots(v@.subrange(0, k as int)) == v@.subrange(0, k as int));
        text::push_str(&mut nv, "; ");
        text::push_str(&mut nv, s.native_note.as_str());
        s.note = text::string_of(nv.as_slice());
    }
    s
}

// ---------------------------------------------------------------------------
// Lab programming gate
// ---------------------------------------------------------------------------

/// `{:?}` of a backend: its variant name.
pub open spec fn backend_debug(b: CableBackend) -> Seq<char> {
    match b {
        CableBackend::Sim => "Sim"@,
        CableBackend::MpsseSim => "MpsseSim"@,
        CableBackend::OpenFpgaLoader => "OpenFpgaLoader"@,
        CableBackend::NativeUsb => "NativeUsb"@,
    }
}

fn backend_debug_exec(b: CableBackend) -> (r: &'static str)
    ensures
        r@ == backend_debug(b),
{
    match b {
        CableBackend::Sim => "Sim",
        CableBackend::MpsseSim => "MpsseSim",
        CableBackend::OpenFpgaLoader => "OpenFpgaLoader",
        CableBackend::NativeUsb => "NativeUsb",
    }
}

/// Why the lab refuses to program through `cable` (resolved from `spec`)
/// when it expects backend `expect`: a different backend, or a native cable
/// in a build without the native driver (the lab never falls back to
/// openFPGALoader).
pub open spec fn lab_cable_refusal(spec: Seq<char>, cable: CableInfo, expect: CableBackend, native_enabled: bool) -> Option<Seq<char>> {
    if cable.backend != expect {
        Some(
            "lab: cable "@ + str_debug(spec) + " expected "@ + backend_debug(expect) + ", got "@ + backend_debug(
                cable.backend,
            ) + " ("@ + cable.id@ + ")"@,
        )
    } else if expect == CableBackend::NativeUsb && !native_enabled {
        Some("lab: native requires --features usb-native — refusing OFL soft-fallback for lab"@)
    } else {
        None
    }
}

/// The lab's check of a resolved cable before programming.
pub fn lab_cable_check(spec: &str, cable: &CableInfo, expect: CableBackend, native_enabled: bool) -> (r: Result<(), String>)
    ensures
        match lab_cable_refusal(spec@, *cable, expect, native_enabled) {
            Some(e) => r matches Err(x) && x@ == e,
            None => r is Ok,
        },
{
    if cable.backend != expect {
        let mut v = text::chars_of("lab: cable ");
        let d = debug_str(spec);
        text::push_str(&mut v, d.as_str());
        text::push_str(&mut v, " expected ");
        text::push_str(&mut v, backend_debug_exec(expect));
        text::push_str(&mut v, ", got ");
        text::push_str(&mut v, backend_debug_exec(cable.backend));
        text::push_str(&mut v, " (");
        text::push_str(&mut v, cable.id.as_str());
        text::push_str(&mut v, ")");
        return Err(text::string_of(v.as_slice()));
    }
    if expect == CableBackend::NativeUsb && !native_enabled {
        return Err(text::owned("lab: native requires --features usb-native — refusing OFL soft-fallback for lab"));
    }
    Ok(())
}


// ---------------------------------------------------------------------------
// Programming outcome
// ---------------------------------------------------------------------------

/// What a programming summary reads of a bitstream: its configured frames and
/// its packet bytes.
#[derive(Clone, Copy, Debug, PartialEq, Eq, Structural)]
pub struct BitsCounts {
    pub frames: usize,
    pub bytes: usize,
}

/// The fabric STAT flags a simulated programming run reads back.
#[derive(Clone, Copy, Debug, PartialEq, Eq, Structural)]
pub struct StatFlags {
    pub init: bool,
    pub done: bool,
    pub eos: bool,
    pub gwe: bool,
    pub gsr: bool,
    pub gts: bool,
    pub crc_err: bool,
}

/// Result of programming a bitstream through a cable.
#[derive(Clone, Debug)]
pub enum ProgramOutcome {
    Sim { bits: BitsCounts, stat: StatFlags },
    /// Bitbang CFG_W + STAT through the FTDI harness (sim fabric DONE — not board DONE).
    MpsseSim { bits: BitsCounts, stat: StatFlags },
    /// Native FTDI MPSSE session with live STAT TDO (bit 5 DONE).
    NativeMpsse { bytes: usize, stat_word: u32 },
    OpenFpgaLoader { bits: Option<BitsCounts>, ofl: OflProgramReport, bytes: usize },
}

pub open spec fn bit_text(b: bool) -> Seq<char> {
    if b { "1"@ } else { "0"@ }
}

/// `p` followed by ` STAT INIT=.. DONE=.. EOS=.. GWE=.. GSR=.. GTS=.. CRC_ERR=..`.
pub open spec fn stat_onto(p: Seq<char>, s: StatFlags) -> Seq<char> {
    p + " STAT INIT="@ + bit_text(s.init) + " DONE="@ + bit_text(s.done) + " EOS="@ + bit_text(s.eos) + " GWE="@
        + bit_text(s.gwe) + " GSR="@ + bit_text(s.gsr) + " GTS="@ + bit_text(s.gts) + " CRC_ERR="@ + bit_text(s.crc_err)
}

/// `s` with every space replaced by `_`.
pub open spec fn underscored(s: Seq<char>) -> Seq<char> {
    Seq::new(s.len(), |i: int| if s[i] == ' ' { '_' } else { s[i] })
}

pub open spec fn readback_name(k: OflReadbackKind) -> Seq<char> {
    match k {
        OflReadbackKind::NoReadback => "none"@,
        OflReadbackKind::FlashSpiVerify => "flash_spi_verify"@,
    }
}

/// The sim summary after `p`.
pub open spec fn sim_line(p: Seq<char>, part: Seq<char>, bits: BitsCounts, stat: StatFlags) -> Seq<char> {
    stat_onto(
        p + " backend=sim part="@ + part + " frames="@ + text::dec(bits.frames as nat) + " bytes="@ + text::dec(
            bits.bytes as nat,
        ),
        stat,
    ) + " (sim fabric; not board DONE)"@
}

/// The bitbang-harness summary after `p`.
pub open spec fn mpsse_sim_line(p: Seq<char>, part: Seq<char>, bits: BitsCounts, stat: StatFlags) -> Seq<char> {
    stat_onto(
        p + " backend=mpsse-sim part="@ + part + " frames="@ + text::dec(bits.frames as nat) + " bytes="@ + text::dec(
            bits.bytes as nat,
        ),
        stat,
    ) + " (sim fabric via bitbang CFG_W; not board DONE)"@
}

/// The native-session summary after `p`: the live STAT word and its DONE bit.
pub open spec fn native_line(p: Seq<char>, part: Seq<char>, bytes: usize, stat_word: u32) -> Seq<char> {
    p + " backend=native-mpsse part="@ + part + " bytes="@ + text::dec(bytes as nat) + " STAT="@ + text::hex_padded(
        stat_word as nat,
        10,
    ) + " DONE="@ + bit_text(stat_done(stat_word)) + " (live TDO on persistent FTDI session; board STAT)"@
}

/// The openFPGALoader summary after `p`: DONE from a run that returned, no
/// TAP STAT bits.
pub open spec fn ofl_line(p: Seq<char>, part: Seq<char>, bits: Option<BitsCounts>, ofl: OflProgramReport, bytes: usize) -> Seq<char> {
    p + " backend=ofl part="@ + part + " frames="@ + text::dec(
        match bits {
            Some(b) => b.frames as nat,
            None => 0,
        },
    ) + " bytes="@ + text::dec(bytes as nat) + " ofl_board="@ + (match ofl.board {
        Some(b) => b@,
        None => "-"@,
    }) + " ofl_exit="@ + text::dec_int(
        match ofl.exit_code {
            Some(c) => c as int,
            None => 0,
        },
    ) + " DONE=1 (programmer ok; no TAP readback) TAP_readback=none ofl_verify="@ + readback_name(ofl.readback)
        + " verify_ok="@ + (match ofl.verify_ok {
        Some(true) => "1"@,
        Some(false) => "0"@,
        None => "unknown"@,
    }) + " verify_detail="@ + underscored(ofl.verify_detail@) + " STAT=(no readback) cmd="@ + ofl.command@
}

/// The one-line programming summary (`hw <sub> backend=..`).
pub open spec fn summary_text(o: ProgramOutcome, sub: Seq<char>, part: Seq<char>) -> Seq<char> {
    let p = "hw "@ + sub;
    match o {
        ProgramOutcome::Sim { bits, stat } => sim_line(p, part, bits, stat),
        ProgramOutcome::MpsseSim { bits, stat } => mpsse_sim_line(p, part, bits, stat),
        ProgramOutcome::NativeMpsse { bytes, stat_word } => native_line(p, part, bytes, stat_word),
        ProgramOutcome::OpenFpgaLoader { bits, ofl, bytes } => ofl_line(p, part, bits, ofl, bytes),
    }
}

fn push_bit(out: &mut Vec<char>, b: bool)
    ensures
        final(out)@ == old(out)@ + bit_text(b),
{
    if b {
        text::push_str(out, "1");
    } else {
        text::push_str(out, "0");
    }
}

fn push_stat(out: &mut Vec<char>, s: StatFlags)
    ensures
        final(out)@ == stat_onto(old(out)@, s),
{
    text::push_str(out, " STAT INIT=");
    push_bit(out, s.init);
    text::push_str(out, " DONE=");
    push_bit(out, s.done);
    text::push_str(out, " EOS=");
    push_bit(out, s.eos);
    text::push_str(out, " GWE=");
    push_bit(out, s.gwe);
    text::push_str(out, " GSR=");
    push_bit(out, s.gsr);
    text::push_str(out, " GTS=");
    push_bit(out, s.gts);
    text::push_str(out, " CRC_ERR=");
    push_bit(out, s.crc_err);
}

fn push_underscored(out: &mut Vec<char>, s: &str)
    ensures
        final(out)@ == old(out)@ + underscored(s@),
{
    let v = text::chars_of(s);
    let ghost o = out@;
    let mut i: usize = 0;
    while i < v.len()
        invariant
            i <= v@.len(),
            v@ == s@,
            out@ == o + underscored(s@).subrange(0, i as int),
        decreases v@.len() - i,
    {
        out.push(if v[i] == ' ' { '_' } else { v[i] });
        assert(underscored(s@).subrange(0, i + 1) =~= underscored(s@).subrange(0, i as int).push(
            underscored(s@)[i as int],
        ));
        i = i + 1;
    }
    assert(underscored(s@).subrange(0, i as int) =~= underscored(s@));
}

impl ProgramOutcome {
    pub fn backend(&self) -> (r: CableBackend)
        ensures
            r == match *self {
                ProgramOutcome::Sim { .. } => CableBackend::Sim,
                ProgramOutcome::MpsseSim { .. } => CableBackend::MpsseSim,
                ProgramOutcome::NativeMpsse { .. } => CableBackend::NativeUsb,
                ProgramOutcome::OpenFpgaLoader { .. } => CableBackend::OpenFpgaLoader,
            },
    {
        match self {
            ProgramOutcome::Sim { .. } => CableBackend::Sim,
            ProgramOutcome::MpsseSim { .. } => CableBackend::MpsseSim,
            ProgramOutcome::NativeMpsse { .. } => CableBackend::NativeUsb,
            ProgramOutcome::OpenFpgaLoader { .. } => CableBackend::OpenFpgaLoader,
        }
    }

    /// Human summary line for CLI / GUI. Claims DONE only for sim TAP or an
    /// openFPGALoader run that returned; that path reports `TAP_readback=none`.
    #[verifier::spinoff_prover]
    #[verifier::rlimit(40)]
    pub fn summary_line(&self, sub: &str, part: &str) -> (r: String)
        ensures
            r@ == summary_text(*self, sub@, part@),
    {
        let mut out = text::chars_of("hw ");
        text::push_str(&mut out, sub);
        let ghost head = out@;
        match self {
            ProgramOutcome::Sim { bits, stat } => {
                text::push_str(&mut out, " backend=sim part=");
                text::push_str(&mut out, part);
                text::push_str(&mut out, " frames=");
                text::push_u64(&mut out, bits.frames as u64);
                text::push_str(&mut out, " bytes=");
                text::push_u64(&mut out, bits.bytes as u64);
                push_stat(&mut out, *stat);
                text::push_str(&mut out, " (sim fabric; not board DONE)");
            },
            ProgramOutcome::MpsseSim { bits, stat } => {
                text::push_str(&mut out, " backend=mpsse-sim part=");
                text::push_str(&mut out, part);
                text::push_str(&mut out, " frames=");
                text::push_u64(&mut out, bits.frames as u64);
                text::push_str(&mut out, " bytes=");
                text::push_u64(&mut out, bits.bytes as u64);
                push_stat(&mut out, *stat);
                text::push_str(&mut out, " (sim fabric via bitbang CFG_W; not board DONE)");
            },
            ProgramOutcome::NativeMpsse { bytes, stat_word } => {
                text::push_str(&mut out, " backend=native-mpsse part=");
                text::push_str(&mut out, part);
                text::push_str(&mut out, " bytes=");
                text::push_u64(&mut out, *bytes as u64);
                text::push_str(&mut out, " STAT=");
                text::push_hex_padded(&mut out, *stat_word as u64, 10);
                text::push_str(&mut out, " DONE=");
                push_bit(&mut out, stat_word_done(*stat_word));
                text::push_str(&mut out, " (live TDO on persistent FTDI session; board STAT)");
            },
            ProgramOutcome::OpenFpgaLoader { bits, ofl, bytes } => {
                let frames: u64 = match bits {
                    Some(b) => b.frames as u64,
                    None => 0,
                };
                text::push_str(&mut out, " backend=ofl part=");
                text::push_str(&mut out, part);
                text::push_str(&mut out, " frames=");
                text::push_u64(&mut out, frames);
                text::push_str(&mut out, " bytes=");
                text::push_u64(&mut out, *bytes as u64);
                text::push_str(&mut out, " ofl_board=");
                match &ofl.board {
                    Some(b) => text::push_str(&mut out, b.as_str()),
                    None => text::push_str(&mut out, "-"),
                }
                text::push_str(&mut out, " ofl_exit=");
                let code: i64 = match ofl.exit_code {
                    Some(c) => c as i64,
                    None => 0,
                };
                text::push_i64(&mut out, code);
                text::push_str(&mut out, " DONE=1 (programmer ok; no TAP readback) TAP_readback=none ofl_verify=");
                text::push_str(&mut out, ofl.readback.as_str());
                text::push_str(&mut out, " verify_ok=");
                match ofl.verify_ok {
                    Some(true) => text::push_str(&mut out, "1"),
                    Some(false) => text::push_str(&mut out, "0"),
                    None => text::push_str(&mut out, "unknown"),
                }
                text::push_str(&mut out, " verify_detail=");
                push_underscored(&mut out, ofl.verify_detail.as_str());
                text::push_str(&mut out, " STAT=(no readback) cmd=");
                text::push_str(&mut out, ofl.command.as_str());
            },
        }
        assert(out@ =~= summary_text(*self, sub@, part@));
        text::string_of(out.as_slice())
    }
}

// ---------------------------------------------------------------------------
// Programming a bitstream through a cable: the decisions
// ---------------------------------------------------------------------------

/// Where a bitstream programming run stands.
#[derive(Clone, Debug)]
pub enum HbitsProgState {
    /// Nothing done yet, for a cable of `backend`.
    Start { backend: CableBackend },
    /// The simulated cable is programming the bitstream.
    SimRunning,
    /// The bitstream file is being read for the `backend` path.
    Reading { backend: CableBackend },
    /// The packets of the `len` bytes read are being decoded.
    Decoding { backend: CableBackend, len: usize },
    /// The bitbang harness is programming the decoded bitstream.
    MpsseRunning { bits: BitsCounts },
    /// The native MPSSE session is running.
    NativeRunning,
    /// openFPGALoader is running on the `len`-byte file (`bits` when it is Helion HBIT).
    OflRunning { bits: Option<BitsCounts>, len: usize },
    /// The run is over.
    Done,
}

/// What came back from the last action.
#[derive(Debug)]
pub enum HbitsEvent {
    /// The run starts.
    Begin,
    /// The simulated cable programmed the file (frame and byte counts, STAT flags).
    SimFinished(Result<(BitsCounts, StatFlags), String>),
    /// The file's bytes, or the text of the read error.
    FileRead(Result<Vec<u8>, String>),
    /// The decoded bitstream's IDCODE and counts, or the decoder's error.
    Decoded(Result<(u32, BitsCounts), String>),
    /// The bitbang harness finished with these STAT flags, or failed.
    MpsseFinished(Result<StatFlags, String>),
    /// The native session read a live STAT word with DONE (file size, word), or failed.
    NativeFinished(Result<(usize, u32), NativeUsbError>),
    /// openFPGALoader's report, or why it could not run.
    OflFinished(Result<OflProgramReport, String>),
}

/// What the caller has to do next.
#[derive(Debug)]
pub enum HbitsAction {
    RunSim,
    ReadFile,
    DecodePackets,
    RunMpsseSim,
    RunNative,
    RunOfl,
    Finish(Result<ProgramOutcome, String>),
}

/// The bytes begin with the Helion `HBIT` magic.
pub open spec fn hbit_magic(b: Seq<u8>) -> bool {
    b.len() >= 4 && b[0] == 0x48u8 && b[1] == 0x42u8 && b[2] == 0x49u8 && b[3] == 0x54u8
}

/// The refusal for a bitstream built for another IDCODE.
pub open spec fn idcode_mismatch_text(got: u32, part: Seq<char>, want: u32) -> Seq<char> {
    "program: bitstream idcode "@ + text::hex_padded(got as nat, 10) + " != device "@ + part + " idcode "@
        + text::hex_padded(want as nat, 10)
}

/// The event each state waits for.
pub open spec fn hbits_expects(s: HbitsProgState, ev: HbitsEvent) -> bool {
    match s {
        HbitsProgState::Start { .. } => ev is Begin,
        HbitsProgState::SimRunning => ev is SimFinished,
        HbitsProgState::Reading { backend } => ev is FileRead && (backend == CableBackend::MpsseSim || backend
            == CableBackend::OpenFpgaLoader),
        HbitsProgState::Decoding { backend, .. } => ev is Decoded && (backend == CableBackend::MpsseSim || backend
            == CableBackend::OpenFpgaLoader),
        HbitsProgState::MpsseRunning { .. } => ev is MpsseFinished,
        HbitsProgState::NativeRunning => ev is NativeFinished,
        HbitsProgState::OflRunning { .. } => ev is OflFinished,
        HbitsProgState::Done => false,
    }
}

/// The action finishes the run with exactly the error text `e`.
pub open spec fn fails_with(a: HbitsAction, e: Seq<char>) -> bool {
    a matches HbitsAction::Finish(Err(m)) && m@ == e
}

/// One decision of a programming run on a device with IDCODE `idcode` and
/// part `part`, for the file `path`:
/// - the simulated cable programs directly; the bitbang harness and
///   openFPGALoader read the file first, the native cable tries its session;
/// - a read error is reported with the path;
/// - for openFPGALoader an empty file is refused before any cable action, a
///   file with the `HBIT` magic is decoded and checked, any other file is
///   handed over as it is;
/// - a decoded IDCODE other than the device's is refused, naming both;
/// - a native `NotImplemented` falls back to reading the file for
///   openFPGALoader, a native I/O error is refused without inventing a STAT;
/// - every other failure is passed on as it came, every success becomes the
///   backend's outcome.
pub open spec fn hbits_step_spec(
    s: HbitsProgState,
    ev: HbitsEvent,
    idcode: u32,
    part: Seq<char>,
    path: Seq<char>,
    r: (HbitsProgState, HbitsAction),
) -> bool {
    match s {
        HbitsProgState::Start { backend } => match backend {
            CableBackend::Sim => r == (HbitsProgState::SimRunning, HbitsAction::RunSim),
            CableBackend::MpsseSim => r == (HbitsProgState::Reading { backend }, HbitsAction::ReadFile),
            CableBackend::OpenFpgaLoader => r == (HbitsProgState::Reading { backend }, HbitsAction::ReadFile),
            CableBackend::NativeUsb => r == (HbitsProgState::NativeRunning, HbitsAction::RunNative),
        },
        HbitsProgState::SimRunning => r.0 is Done && match ev {
            HbitsEvent::SimFinished(Ok((bits, stat))) => r.1 == HbitsAction::Finish(Ok(ProgramOutcome::Sim { bits, stat })),
            HbitsEvent::SimFinished(Err(e)) => r.1 == HbitsAction::Finish(Err(e)),
            _ => true,
        },
        HbitsProgState::Reading { backend } => match ev {
            HbitsEvent::FileRead(Err(e)) => r.0 is Done && fails_with(r.1, "program: read "@ + path + ": "@ + e@),
            HbitsEvent::FileRead(Ok(bytes)) => if backend == CableBackend::MpsseSim {
                r == (HbitsProgState::Decoding { backend, len: bytes@.len() as usize }, HbitsAction::DecodePackets)
            } else if bytes@.len() == 0 {
                r.0 is Done && fails_with(r.1, "program: empty bitstream (0 bytes)"@)
            } else if hbit_magic(bytes@) {
                r == (HbitsProgState::Decoding { backend, len: bytes@.len() as usize }, HbitsAction::DecodePackets)
            } else {
                r == (HbitsProgState::OflRunning { bits: None, len: bytes@.len() as usize }, HbitsAction::RunOfl)
            },
            _ => true,
        },
        HbitsProgState::Decoding { backend, len } => match ev {
            HbitsEvent::Decoded(Err(e)) => r == (HbitsProgState::Done, HbitsAction::Finish(Err(e))),
            HbitsEvent::Decoded(Ok((got, bits))) => if got != idcode {
                r.0 is Done && fails_with(r.1, idcode_mismatch_text(got, part, idcode))
            } else if backend == CableBackend::MpsseSim {
                r == (HbitsProgState::MpsseRunning { bits }, HbitsAction::RunMpsseSim)
            } else {
                r == (HbitsProgState::OflRunning { bits: Some(bits), len }, HbitsAction::RunOfl)
            },
            _ => true,
        },
        HbitsProgState::MpsseRunning { bits } => r.0 is Done && match ev {
            HbitsEvent::MpsseFinished(Ok(stat)) => r.1 == HbitsAction::Finish(Ok(ProgramOutcome::MpsseSim { bits, stat })),
            HbitsEvent::MpsseFinished(Err(e)) => r.1 == HbitsAction::Finish(Err(e)),
            _ => true,
        },
        HbitsProgState::NativeRunning => match ev {
            HbitsEvent::NativeFinished(Ok((bytes, stat_word))) => r == (
                HbitsProgState::Done,
                HbitsAction::Finish(Ok(ProgramOutcome::NativeMpsse { bytes, stat_word })),
            ),
            HbitsEvent::NativeFinished(Err(NativeUsbError::NotImplemented(_))) => r == (
                HbitsProgState::Reading { backend: CableBackend::OpenFpgaLoader },
                HbitsAction::ReadFile,
            ),
            HbitsEvent::NativeFinished(Err(NativeUsbError::Io(m))) => r.0 is Done && fails_with(
                r.1,
                "program: native MPSSE I/O (no invented STAT): "@ + m@,
            ),
            _ => true,
        },
        HbitsProgState::OflRunning { bits, len } => r.0 is Done && match ev {
            HbitsEvent::OflFinished(Ok(ofl)) => r.1 == HbitsAction::Finish(
                Ok(ProgramOutcome::OpenFpgaLoader { bits, ofl, bytes: len }),
            ),
            HbitsEvent::OflFinished(Err(e)) => r.1 == HbitsAction::Finish(Err(e)),
            _ => true,
        },
        HbitsProgState::Done => true,
    }
}

fn err_text(a: &str, b: &str, c: &str, d: &str) -> (r: String)
    ensures
        r@ == a@ + b@ + c@ + d@,
{
    let mut v = text::chars_of(a);
    text::push_str(&mut v, b);
    text::push_str(&mut v, c);
    text::push_str(&mut v, d);
    text::string_of(v.as_slice())
}

/// One step of programming a bitstream through a cable: the next state and
/// what the caller has to do (see [`hbits_step_spec`]).
pub fn hbits_program_step(s: HbitsProgState, ev: HbitsEvent, idcode: u32, part: &str, path: &str) -> (r: (
    HbitsProgState,
    HbitsAction,
))
    requires
        hbits_expects(s, ev),
    ensures
        hbits_step_spec(s, ev, idcode, part@, path@, r),
{
    proof {
        reveal_strlit("");
    }
    match s {
        HbitsProgState::Start { backend } => match backend {
            CableBackend::Sim => (HbitsProgState::SimRunning, HbitsAction::RunSim),
            CableBackend::MpsseSim => (HbitsProgState::Reading { backend }, HbitsAction::ReadFile),
            CableBackend::OpenFpgaLoader => (HbitsProgState::Reading { backend }, HbitsAction::ReadFile),
            CableBackend::NativeUsb => (HbitsProgState::NativeRunning, HbitsAction::RunNative),
        },
        HbitsProgState::SimRunning => match ev {
            HbitsEvent::SimFinished(Ok((bits, stat))) => (
                HbitsProgState::Done,
                HbitsAction::Finish(Ok(ProgramOutcome::Sim { bits, stat })),
            ),
            HbitsEvent::SimFinished(Err(e)) => (HbitsProgState::Done, HbitsAction::Finish(Err(e))),
            _ => (HbitsProgState::Done, HbitsAction::RunSim),
        },
        HbitsProgState::Reading { backend } => match ev {
            HbitsEvent::FileRead(Err(e)) => (
                HbitsProgState::Done,
                HbitsAction::Finish(Err(err_text("program: read ", path, ": ", e.as_str()))),
            ),
            HbitsEvent::FileRead(Ok(bytes)) => {
                let len = bytes.len();
                if backend == CableBackend::MpsseSim {
                    (HbitsProgState::Decoding { backend, len }, HbitsAction::DecodePackets)
                } else if len == 0 {
                    (HbitsProgState::Done, HbitsAction::Finish(Err(text::owned("program: empty bitstream (0 bytes)"))))
                } else if len >= 4 && bytes[0] == 0x48u8 && bytes[1] == 0x42u8 && bytes[2] == 0x49u8 && bytes[3]
                    == 0x54u8 {
                    (HbitsProgState::Decoding { backend, len }, HbitsAction::DecodePackets)
                } else {
                    (HbitsProgState::OflRunning { bits: None, len }, HbitsAction::RunOfl)
                }
            },
            _ => (HbitsProgState::Done, HbitsAction::RunSim),
        },
        HbitsProgState::Decoding { backend, len } => match ev {
            HbitsEvent::Decoded(Err(e)) => (HbitsProgState::Done, HbitsAction::Finish(Err(e))),
            HbitsEvent::Decoded(Ok((got, bits))) => {
                if got != idcode {
                    let mut v = text::chars_of("program: bitstream idcode ");
                    text::push_hex_padded(&mut v, got as u64, 10);
                    text::push_str(&mut v, " != device ");
                    text::push_str(&mut v, part);
                    text::push_str(&mut v, " idcode ");
                    text::push_hex_padded(&mut v, idcode as u64, 10);
                    (HbitsProgState::Done, HbitsAction::Finish(Err(text::string_of(v.as_slice()))))
                } else if backend == CableBackend::MpsseSim {
                    (HbitsProgState::MpsseRunning { bits }, HbitsAction::RunMpsseSim)
                } else {
                    (HbitsProgState::OflRunning { bits: Some(bits), len }, HbitsAction::RunOfl)
                }
            },
            _ => (HbitsProgState::Done, HbitsAction::RunSim),
        },
        HbitsProgState::MpsseRunning { bits } => match ev {
            HbitsEvent::MpsseFinished(Ok(stat)) => (
                HbitsProgState::Done,
                HbitsAction::Finish(Ok(ProgramOutcome::MpsseSim { bits, stat })),
            ),
            HbitsEvent::MpsseFinished(Err(e)) => (HbitsProgState::Done, HbitsAction::Finish(Err(e))),
            _ => (HbitsProgState::Done, HbitsAction::RunSim),
        },
        HbitsProgState::NativeRunning => match ev {
            HbitsEvent::NativeFinished(Ok((bytes, stat_word))) => (
                HbitsProgState::Done,
                HbitsAction::Finish(Ok(ProgramOutcome::NativeMpsse { bytes, stat_word })),
            ),
            HbitsEvent::NativeFinished(Err(NativeUsbError::NotImplemented(_))) => (
                HbitsProgState::Reading { backend: CableBackend::OpenFpgaLoader },
                HbitsAction::ReadFile,
            ),
            HbitsEvent::NativeFinished(Err(NativeUsbError::Io(m))) => (
                HbitsProgState::Done,
                HbitsAction::Finish(Err(err_text("program: native MPSSE I/O (no invented STAT): ", m.as_str(), "", ""))),
            ),
            _ => (HbitsProgState::Done, HbitsAction::RunSim),
        },
        HbitsProgState::OflRunning { bits, len } => match ev {
            HbitsEvent::OflFinished(Ok(ofl)) => (
                HbitsProgState::Done,
                HbitsAction::Finish(Ok(ProgramOutcome::OpenFpgaLoader { bits, ofl, bytes: len })),
            ),
            HbitsEvent::OflFinished(Err(e)) => (HbitsProgState::Done, HbitsAction::Finish(Err(e))),
            _ => (HbitsProgState::Done, HbitsAction::RunSim),
        },
        HbitsProgState::Done => (HbitsProgState::Done, HbitsAction::RunSim),
    }
}

} // verus!
