//! FTDI MPSSE opcode streams for the Helion TAP (CFG_W / STAT / IDCODE).
//!
//! [`MpsseOpcodeBuilder`] builds AN_108-class MPSSE command bytes for IEEE
//! 1149.1 IR/DR shifts; every method states the exact bytes it appends. The
//! STAT capture layout ([`pack_mock_stat_tdo`] / [`parse_stat_tdo_mpsse`]) is
//! proved to round-trip every 32-bit word. No STAT word is ever invented:
//! in this build the native transport stays `NotImplemented`.

use vstd::prelude::*;
use crate::text;
use crate::hw::{tap_walk_bits, HadUsbTransport, NativeUsbError, TapState, IR_CFG_W, IR_IDCODE, IR_STAT};

verus! {

// FTDI MPSSE opcodes (subset used for JTAG). Bit flags (FTDI AN_108):
//   WRITE_NEG=0x01  BITMODE=0x02  READ_NEG=0x04  LSB=0x08
//   DO_WRITE=0x10   DO_READ=0x20  WRITE_TMS=0x40

/// Clock Data Bytes Out on -ve clock edge LSB first (TDI, TMS held).
pub const MPSSE_CLK_BYTES_OUT_NEG_LSB: u8 = 0x19;
/// Clock Data Bytes In on +ve / Out on -ve LSB first.
pub const MPSSE_CLK_BYTES_INOUT_LSB: u8 = 0x39;
/// Clock Data Bits Out on -ve LSB first (TDI bits, length = nbits-1).
pub const MPSSE_CLK_BITS_OUT_NEG_LSB: u8 = 0x1B;
/// Clock Data Bits In/Out LSB first.
pub const MPSSE_CLK_BITS_INOUT_LSB: u8 = 0x3B;
/// Clock TMS Bits Out on -ve LSB first (bit7 of data = TDI held).
pub const MPSSE_CLK_TMS_OUT_NEG_LSB: u8 = 0x4B;
/// Clock TMS Bits Out on -ve + In on +ve LSB first.
pub const MPSSE_CLK_TMS_INOUT_LSB: u8 = 0x6B;
/// Set data bits low byte (value, direction). ADBUS0..7.
pub const MPSSE_SET_DATA_LOW: u8 = 0x80;
/// Read data bits low byte.
pub const MPSSE_GET_DATA_LOW: u8 = 0x81;
/// Set TCK/SK divisor (lo, hi) — actual freq = 60MHz / (1+div) on HS.
pub const MPSSE_SET_CLK_DIVISOR: u8 = 0x86;
/// Send immediate (flush to USB).
pub const MPSSE_SEND_IMMEDIATE: u8 = 0x87;
/// Disable divide-by-5 (FT2232H high-speed).
pub const MPSSE_DISABLE_DIV5: u8 = 0x8A;

/// Default ADBUS direction for JTAG: TCK, TDI, TMS out; TDO in (0b0000_1011).
pub const JTAG_DIR_LOW: u8 = 0x0B;
/// Idle levels: TCK=0, TDI=0, TMS=1.
pub const JTAG_VAL_IDLE: u8 = 0x08;

/// Expected bulk-IN byte count of a STAT capture DR scan (3 bytes + 7-bit + 1-bit TMS).
pub const STAT_CAPTURE_TDO_LEN: usize = 5;

/// STAT bit of DONE.
pub const STAT_BIT_DONE: u32 = 5;

// ---------------------------------------------------------------------------
// Encodings
// ---------------------------------------------------------------------------

/// `(1 << n) - 1` for `1 <= n <= 8`.
pub open spec fn low_mask(n: u8) -> u8 {
    if n == 1 { 0x01 } else if n == 2 { 0x03 } else if n == 3 { 0x07 } else if n == 4 { 0x0f }
    else if n == 5 { 0x1f } else if n == 6 { 0x3f } else if n == 7 { 0x7f } else { 0xff }
}

pub open spec fn enc_init_clock(divisor: u16) -> Seq<u8> {
    seq![MPSSE_DISABLE_DIV5, MPSSE_SET_CLK_DIVISOR, (divisor % 256) as u8, (divisor / 256) as u8]
}

pub open spec fn enc_low_byte(value: u8, direction: u8) -> Seq<u8> {
    seq![MPSSE_SET_DATA_LOW, value, direction]
}

/// A TMS burst: `nbits` TMS bits LSB-first, TDI held at `tdi` (bit 7).
pub open spec fn enc_tms(op: u8, tms_bits: u8, nbits: u8, tdi: bool) -> Seq<u8> {
    seq![op, (nbits - 1) as u8, (tms_bits & low_mask(nbits)) | (if tdi { 0x80u8 } else { 0u8 })]
}

/// A byte shift: length field (count-1, 16 bits LE) then the data.
pub open spec fn enc_bytes(op: u8, data: Seq<u8>) -> Seq<u8> {
    if data.len() == 0 {
        Seq::empty()
    } else {
        seq![op, ((data.len() - 1) % 256) as u8, (((data.len() - 1) / 256) % 256) as u8] + data
    }
}

pub open spec fn enc_bits(op: u8, bits: u8, nbits: u8) -> Seq<u8> {
    seq![op, (nbits - 1) as u8, bits]
}

pub open spec fn enc_reset_to_idle() -> Seq<u8> {
    enc_low_byte(JTAG_VAL_IDLE, JTAG_DIR_LOW) + enc_tms(MPSSE_CLK_TMS_OUT_NEG_LSB, 0x1f, 5, false)
        + enc_tms(MPSSE_CLK_TMS_OUT_NEG_LSB, 0x00, 1, false)
}

/// Idle → Shift-IR, 5 IR bits with TMS=0, last bit with TMS=1, Update-IR → Idle.
pub open spec fn enc_shift_ir(ir: u8) -> Seq<u8> {
    enc_tms(MPSSE_CLK_TMS_OUT_NEG_LSB, 0x03, 4, false) + enc_low_byte(0x00, JTAG_DIR_LOW)
        + enc_bits(MPSSE_CLK_BITS_OUT_NEG_LSB, ir & 0x1f, 5)
        + enc_tms(MPSSE_CLK_TMS_OUT_NEG_LSB, 0x01, 1, (ir / 32) % 2 == 1)
        + enc_tms(MPSSE_CLK_TMS_OUT_NEG_LSB, 0x01, 2, false)
}

/// Little-endian byte `k` of `v`.
pub open spec fn le_byte(v: u32, k: nat) -> u8 {
    if k == 0 { (v % 256) as u8 } else if k == 1 { ((v / 256) % 256) as u8 }
    else if k == 2 { ((v / 65536) % 256) as u8 } else { (v / 16777216) as u8 }
}

/// A 32-bit DR scan from Idle: 24 bits as bytes, 7 bits, the last bit with
/// TMS=1, then Update-DR → Idle. `capture` selects the INOUT opcodes.
pub open spec fn enc_shift_dr_u32(val: u32, capture: bool) -> Seq<u8> {
    let b3 = le_byte(val, 3);
    enc_tms(MPSSE_CLK_TMS_OUT_NEG_LSB, 0x01, 3, false) + enc_low_byte(0x00, JTAG_DIR_LOW)
        + enc_bytes(
        if capture { MPSSE_CLK_BYTES_INOUT_LSB } else { MPSSE_CLK_BYTES_OUT_NEG_LSB },
        seq![le_byte(val, 0), le_byte(val, 1), le_byte(val, 2)],
    ) + enc_bits(if capture { MPSSE_CLK_BITS_INOUT_LSB } else { MPSSE_CLK_BITS_OUT_NEG_LSB }, b3 & 0x7f, 7)
        + enc_tms(if capture { MPSSE_CLK_TMS_INOUT_LSB } else { MPSSE_CLK_TMS_OUT_NEG_LSB }, 0x01, 1, b3 >= 0x80)
        + enc_tms(MPSSE_CLK_TMS_OUT_NEG_LSB, 0x01, 2, false)
}

/// `IR_CFG_W` then, for a non-empty payload, one DR scan of all its bits:
/// all bytes but the last, 7 bits of the last, its top bit with TMS=1.
pub open spec fn enc_cfg_w(p: Seq<u8>) -> Seq<u8> {
    enc_shift_ir(IR_CFG_W) + if p.len() == 0 {
        Seq::empty()
    } else {
        enc_tms(MPSSE_CLK_TMS_OUT_NEG_LSB, 0x01, 3, false) + enc_low_byte(0x00, JTAG_DIR_LOW)
            + enc_bytes(MPSSE_CLK_BYTES_OUT_NEG_LSB, p.subrange(0, p.len() - 1))
            + enc_bits(MPSSE_CLK_BITS_OUT_NEG_LSB, p.last() & 0x7f, 7)
            + enc_tms(MPSSE_CLK_TMS_OUT_NEG_LSB, 0x01, 1, p.last() >= 0x80)
            + enc_tms(MPSSE_CLK_TMS_OUT_NEG_LSB, 0x01, 2, false)
    }
}

// ---------------------------------------------------------------------------
// The builder
// ---------------------------------------------------------------------------

/// Builder for FTDI MPSSE command byte streams (no USB I/O).
#[derive(Clone, Debug)]
pub struct MpsseOpcodeBuilder {
    buf: Vec<u8>,
}

fn mask_of(n: u8) -> (m: u8)
    requires
        1 <= n <= 8,
    ensures
        m == low_mask(n),
{
    match n {
        1 => 0x01,
        2 => 0x03,
        3 => 0x07,
        4 => 0x0f,
        5 => 0x1f,
        6 => 0x3f,
        7 => 0x7f,
        _ => 0xff,
    }
}

impl MpsseOpcodeBuilder {
    /// The bytes built so far.
    pub closed spec fn bytes(&self) -> Seq<u8> {
        self.buf@
    }

    pub fn new() -> (r: Self)
        ensures
            r.bytes() == Seq::<u8>::empty(),
    {
        MpsseOpcodeBuilder { buf: Vec::new() }
    }

    pub fn as_slice(&self) -> (r: &[u8])
        ensures
            r@ == self.bytes(),
    {
        self.buf.as_slice()
    }

    pub fn into_bytes(self) -> (r: Vec<u8>)
        ensures
            r@ == self.bytes(),
    {
        self.buf
    }

    pub fn len(&self) -> (r: usize)
        ensures
            r == self.bytes().len(),
    {
        self.buf.len()
    }

    pub fn is_empty(&self) -> (r: bool)
        ensures
            r == (self.bytes().len() == 0),
    {
        self.buf.len() == 0
    }

    fn push3(&mut self, a: u8, b: u8, c: u8)
        ensures
            final(self).bytes() == old(self).bytes() + seq![a, b, c],
    {
        self.buf.push(a);
        self.buf.push(b);
        self.buf.push(c);
        assert(self.buf@ =~= old(self).bytes() + seq![a, b, c]);
    }

    /// Disable /5 and set the clock divisor (smaller → faster).
    pub fn init_clock(&mut self, divisor: u16) -> (r: &mut Self)
        ensures
            r.bytes() == old(self).bytes() + enc_init_clock(divisor),
            *final(self) == *final(r),
    {
        self.buf.push(MPSSE_DISABLE_DIV5);
        self.buf.push(MPSSE_SET_CLK_DIVISOR);
        self.buf.push((divisor % 256) as u8);
        self.buf.push((divisor / 256) as u8);
        assert(self.buf@ =~= old(self).bytes() + enc_init_clock(divisor));
        self
    }

    /// Set ADBUS value/direction (JTAG pins).
    pub fn set_low_byte(&mut self, value: u8, direction: u8) -> (r: &mut Self)
        ensures
            r.bytes() == old(self).bytes() + enc_low_byte(value, direction),
            *final(self) == *final(r),
    {
        self.push3(MPSSE_SET_DATA_LOW, value, direction);
        self
    }

    pub fn send_immediate(&mut self) -> (r: &mut Self)
        ensures
            r.bytes() == old(self).bytes().push(MPSSE_SEND_IMMEDIATE),
            *final(self) == *final(r),
    {
        self.buf.push(MPSSE_SEND_IMMEDIATE);
        self
    }

    fn tms_burst(&mut self, op: u8, tms_bits: u8, nbits: u8, tdi: bool)
        requires
            1 <= nbits <= 7,
        ensures
            final(self).bytes() == old(self).bytes() + enc_tms(op, tms_bits, nbits, tdi),
    {
        let hi: u8 = if tdi {
            0x80
        } else {
            0
        };
        self.push3(op, nbits - 1, (tms_bits & mask_of(nbits)) | hi);
    }

    /// Shift `nbits` (1..=7) TMS bits LSB-first; hold TDI at `tdi` for the burst.
    pub fn tms_out(&mut self, tms_bits: u8, nbits: u8, tdi: bool) -> (r: &mut Self)
        requires
            1 <= nbits <= 7,
        ensures
            r.bytes() == old(self).bytes() + enc_tms(MPSSE_CLK_TMS_OUT_NEG_LSB, tms_bits, nbits, tdi),
            *final(self) == *final(r),
    {
        self.tms_burst(MPSSE_CLK_TMS_OUT_NEG_LSB, tms_bits, nbits, tdi);
        self
    }

    /// TMS burst with TDO capture.
    pub fn tms_inout(&mut self, tms_bits: u8, nbits: u8, tdi: bool) -> (r: &mut Self)
        requires
            1 <= nbits <= 7,
        ensures
            r.bytes() == old(self).bytes() + enc_tms(MPSSE_CLK_TMS_INOUT_LSB, tms_bits, nbits, tdi),
            *final(self) == *final(r),
    {
        self.tms_burst(MPSSE_CLK_TMS_INOUT_LSB, tms_bits, nbits, tdi);
        self
    }

    fn byte_shift(&mut self, op: u8, data: &[u8])
        ensures
            final(self).bytes() == old(self).bytes() + enc_bytes(op, data@),
    {
        if data.len() == 0 {
            assert(old(self).bytes() + enc_bytes(op, data@) =~= old(self).bytes());
            return;
        }
        let n = data.len() - 1;
        self.push3(op, (n % 256) as u8, ((n / 256) % 256) as u8);
        let ghost mid = self.buf@;
        let mut i: usize = 0;
        while i < data.len()
            invariant
                i <= data@.len(),
                self.buf@ == mid + data@.subrange(0, i as int),
            decreases data@.len() - i,
        {
            self.buf.push(data[i]);
            i = i + 1;
            assert(self.buf@ =~= mid + data@.subrange(0, i as int));
        }
        assert(data@.subrange(0, data@.len() as int) =~= data@);
        assert(self.buf@ =~= old(self).bytes() + enc_bytes(op, data@));
    }

    /// Shift whole bytes on TDI (TMS held by pin state).
    pub fn tdi_bytes_out(&mut self, data: &[u8]) -> (r: &mut Self)
        ensures
            r.bytes() == old(self).bytes() + enc_bytes(MPSSE_CLK_BYTES_OUT_NEG_LSB, data@),
            *final(self) == *final(r),
    {
        self.byte_shift(MPSSE_CLK_BYTES_OUT_NEG_LSB, data);
        self
    }

    /// Shift whole bytes on TDI with TDO capture.
    pub fn tdi_bytes_inout(&mut self, data: &[u8]) -> (r: &mut Self)
        ensures
            r.bytes() == old(self).bytes() + enc_bytes(MPSSE_CLK_BYTES_INOUT_LSB, data@),
            *final(self) == *final(r),
    {
        self.byte_shift(MPSSE_CLK_BYTES_INOUT_LSB, data);
        self
    }

    /// Shift 1..=8 TDI bits (length = nbits-1).
    pub fn tdi_bits_out(&mut self, bits: u8, nbits: u8) -> (r: &mut Self)
        requires
            1 <= nbits <= 8,
        ensures
            r.bytes() == old(self).bytes() + enc_bits(MPSSE_CLK_BITS_OUT_NEG_LSB, bits, nbits),
            *final(self) == *final(r),
    {
        self.push3(MPSSE_CLK_BITS_OUT_NEG_LSB, nbits - 1, bits);
        self
    }

    pub fn tdi_bits_inout(&mut self, bits: u8, nbits: u8) -> (r: &mut Self)
        requires
            1 <= nbits <= 8,
        ensures
            r.bytes() == old(self).bytes() + enc_bits(MPSSE_CLK_BITS_INOUT_LSB, bits, nbits),
            *final(self) == *final(r),
    {
        self.push3(MPSSE_CLK_BITS_INOUT_LSB, nbits - 1, bits);
        self
    }
}

impl MpsseOpcodeBuilder {
    /// 5× TMS=1 → Test-Logic-Reset, then TMS=0 → Run-Test/Idle.
    pub fn jtag_reset_to_idle(&mut self) -> (r: &mut Self)
        ensures
            r.bytes() == old(self).bytes() + enc_reset_to_idle(),
            *final(self) == *final(r),
    {
        self.set_low_byte(JTAG_VAL_IDLE, JTAG_DIR_LOW);
        self.tms_out(0x1f, 5, false);
        self.tms_out(0x00, 1, false);
        assert(self.bytes() =~= old(self).bytes() + enc_reset_to_idle());
        self
    }

    /// From Idle: enter Shift-IR (TMS 1,1,0,0 LSB-first = 0b0011).
    pub fn jtag_enter_shift_ir(&mut self) -> (r: &mut Self)
        ensures
            r.bytes() == old(self).bytes() + enc_tms(MPSSE_CLK_TMS_OUT_NEG_LSB, 0x03, 4, false),
            *final(self) == *final(r),
    {
        self.tms_out(0x03, 4, false);
        self
    }

    /// From Idle: enter Shift-DR (TMS 1,0,0).
    pub fn jtag_enter_shift_dr(&mut self) -> (r: &mut Self)
        ensures
            r.bytes() == old(self).bytes() + enc_tms(MPSSE_CLK_TMS_OUT_NEG_LSB, 0x01, 3, false),
            *final(self) == *final(r),
    {
        self.tms_out(0x01, 3, false);
        self
    }

    /// From Exit1-*: TMS=1 → Update, TMS=0 → Idle.
    pub fn jtag_exit_shift_update_idle(&mut self) -> (r: &mut Self)
        ensures
            r.bytes() == old(self).bytes() + enc_tms(MPSSE_CLK_TMS_OUT_NEG_LSB, 0x01, 2, false),
            *final(self) == *final(r),
    {
        self.tms_out(0x01, 2, false);
        self
    }

    /// A full Helion 6-bit IR shift (LSB first) from Run-Test/Idle: the last
    /// IR bit goes with TMS=1 (→ Exit1-IR), then Update-IR → Idle.
    pub fn helion_shift_ir(&mut self, ir: u8) -> (r: &mut Self)
        ensures
            r.bytes() == old(self).bytes() + enc_shift_ir(ir),
            *final(self) == *final(r),
    {
        self.tms_out(0x03, 4, false);
        let low5 = ir & 0x1f;
        self.set_low_byte(0x00, JTAG_DIR_LOW);
        self.tdi_bits_out(low5, 5);
        let tdi_last = (ir / 32) % 2 == 1;
        self.tms_out(0x01, 1, tdi_last);
        self.tms_out(0x01, 2, false);
        assert(self.bytes() =~= old(self).bytes() + enc_shift_ir(ir));
        self
    }

    fn shift_dr_u32(&mut self, val: u32, capture: bool)
        ensures
            final(self).bytes() == old(self).bytes() + enc_shift_dr_u32(val, capture),
    {
        self.tms_out(0x01, 3, false);
        self.set_low_byte(0x00, JTAG_DIR_LOW);
        let bytes: [u8; 3] = [(val % 256) as u8, ((val / 256) % 256) as u8, ((val / 65536) % 256) as u8];
        let b3: u8 = (val / 16777216) as u8;
        assert(bytes@ =~= seq![le_byte(val, 0), le_byte(val, 1), le_byte(val, 2)]);
        if capture {
            self.tdi_bytes_inout(&bytes);
            self.tdi_bits_inout(b3 & 0x7f, 7);
            self.tms_inout(0x01, 1, b3 >= 0x80);
        } else {
            self.tdi_bytes_out(&bytes);
            self.tdi_bits_out(b3 & 0x7f, 7);
            self.tms_out(0x01, 1, b3 >= 0x80);
        }
        self.tms_out(0x01, 2, false);
        assert(self.bytes() =~= old(self).bytes() + enc_shift_dr_u32(val, capture));
    }

    /// A 32-bit DR scan from Idle, out only.
    pub fn helion_shift_dr_u32(&mut self, val: u32) -> (r: &mut Self)
        ensures
            r.bytes() == old(self).bytes() + enc_shift_dr_u32(val, false),
            *final(self) == *final(r),
    {
        self.shift_dr_u32(val, false);
        self
    }

    /// A 32-bit DR scan with TDO capture: 3 byte-INOUT + 7-bit INOUT + 1-bit
    /// TMS-INOUT, i.e. [`STAT_CAPTURE_TDO_LEN`] bulk-IN bytes; Update → Idle
    /// follows out-only.
    pub fn helion_shift_dr_u32_capture(&mut self, val: u32) -> (r: &mut Self)
        ensures
            r.bytes() == old(self).bytes() + enc_shift_dr_u32(val, true),
            *final(self) == *final(r),
    {
        self.shift_dr_u32(val, true);
        self
    }

    /// `IR_STAT` then a 32-bit DR scan with TDO capture.
    pub fn helion_read_stat(&mut self) -> (r: &mut Self)
        ensures
            r.bytes() == old(self).bytes() + enc_shift_ir(IR_STAT) + enc_shift_dr_u32(0, true),
            *final(self) == *final(r),
    {
        self.helion_shift_ir(IR_STAT);
        self.shift_dr_u32(0, true);
        assert(self.bytes() =~= old(self).bytes() + enc_shift_ir(IR_STAT) + enc_shift_dr_u32(0, true));
        self
    }

    /// Out-only STAT request (no TDO expected).
    pub fn helion_read_stat_out_only(&mut self) -> (r: &mut Self)
        ensures
            r.bytes() == old(self).bytes() + enc_shift_ir(IR_STAT) + enc_shift_dr_u32(0, false),
            *final(self) == *final(r),
    {
        self.helion_shift_ir(IR_STAT);
        self.shift_dr_u32(0, false);
        assert(self.bytes() =~= old(self).bytes() + enc_shift_ir(IR_STAT) + enc_shift_dr_u32(0, false));
        self
    }

    /// `IR_IDCODE` then a 32-bit DR scan.
    pub fn helion_read_idcode(&mut self) -> (r: &mut Self)
        ensures
            r.bytes() == old(self).bytes() + enc_shift_ir(IR_IDCODE) + enc_shift_dr_u32(0, false),
            *final(self) == *final(r),
    {
        self.helion_shift_ir(IR_IDCODE);
        self.shift_dr_u32(0, false);
        assert(self.bytes() =~= old(self).bytes() + enc_shift_ir(IR_IDCODE) + enc_shift_dr_u32(0, false));
        self
    }

    /// `IR_CFG_W` then the whole packet payload as one DR scan; the last
    /// payload bit goes with TMS=1, then Update-DR → Idle. Only builds
    /// opcodes — no STAT is invented here.
    pub fn helion_cfg_w_packets(&mut self, packets: &[u8]) -> (r: &mut Self)
        ensures
            r.bytes() == old(self).bytes() + enc_cfg_w(packets@),
            *final(self) == *final(r),
    {
        self.helion_shift_ir(IR_CFG_W);
        if packets.len() == 0 {
            assert(self.bytes() =~= old(self).bytes() + enc_cfg_w(packets@));
            return self;
        }
        let ghost mid = self.bytes();
        self.tms_out(0x01, 3, false);
        self.set_low_byte(0x00, JTAG_DIR_LOW);
        // All but the last bit as bytes + 7 bits; the last bit with TMS=1.
        let full_bytes = packets.len() - 1;
        let head = prefix(packets, full_bytes);
        self.tdi_bytes_out(head.as_slice());
        let b = packets[full_bytes];
        self.tdi_bits_out(b & 0x7f, 7);
        self.tms_out(0x01, 1, b >= 0x80);
        self.tms_out(0x01, 2, false);
        assert(self.bytes() =~= old(self).bytes() + enc_cfg_w(packets@));
        self
    }
}

fn prefix(data: &[u8], n: usize) -> (r: Vec<u8>)
    requires
        n <= data@.len(),
    ensures
        r@ == data@.subrange(0, n as int),
{
    let mut r: Vec<u8> = Vec::new();
    let mut i: usize = 0;
    while i < n
        invariant
            i <= n <= data@.len(),
            r@ == data@.subrange(0, i as int),
        decreases n - i,
    {
        r.push(data[i]);
        i = i + 1;
        assert(r@ =~= data@.subrange(0, i as int));
    }
    r
}

// ---------------------------------------------------------------------------
// STAT capture layout
// ---------------------------------------------------------------------------

pub open spec fn sel8(c: bool, m: u8) -> u8 {
    if c { m } else { 0 }
}

pub open spec fn sel32(c: bool, m: u32) -> u32 {
    if c { m } else { 0 }
}

/// The 7-bit TDO response byte: STAT bit 24 lands in bit 7 … bit 30 in bit 1.
pub open spec fn tdo_bits7(w: u32) -> u8 {
    sel8((w >> 24u32) & 1 != 0, 0x80) | sel8((w >> 25u32) & 1 != 0, 0x40)
        | sel8((w >> 26u32) & 1 != 0, 0x20) | sel8((w >> 27u32) & 1 != 0, 0x10)
        | sel8((w >> 28u32) & 1 != 0, 0x08) | sel8((w >> 29u32) & 1 != 0, 0x04)
        | sel8((w >> 30u32) & 1 != 0, 0x02)
}

/// The TDO bytes a capture DR scan of STAT word `w` returns.
pub open spec fn tdo_of_stat(w: u32) -> Seq<u8> {
    seq![(w & 0xff) as u8, ((w >> 8u32) & 0xff) as u8, ((w >> 16u32) & 0xff) as u8, tdo_bits7(w),
        sel8((w >> 31u32) & 1 != 0, 0x80)]
}

/// The STAT word read back from five TDO bytes.
pub open spec fn stat_from_bytes(b0: u8, b1: u8, b2: u8, b3: u8, b4: u8) -> u32 {
    ((b0 as u32) | ((b1 as u32) << 8u32) | ((b2 as u32) << 16u32))
        | sel32((b3 >> 7u8) & 1 != 0, 0x0100_0000) | sel32((b3 >> 6u8) & 1 != 0, 0x0200_0000)
        | sel32((b3 >> 5u8) & 1 != 0, 0x0400_0000) | sel32((b3 >> 4u8) & 1 != 0, 0x0800_0000)
        | sel32((b3 >> 3u8) & 1 != 0, 0x1000_0000) | sel32((b3 >> 2u8) & 1 != 0, 0x2000_0000)
        | sel32((b3 >> 1u8) & 1 != 0, 0x4000_0000) | sel32((b4 >> 7u8) & 1 != 0, 0x8000_0000)
}

pub open spec fn stat_of_tdo(b: Seq<u8>) -> u32 {
    stat_from_bytes(b[0], b[1], b[2], b[3], b[4])
}

/// Packs a Helion STAT word into the MPSSE TDO response layout (mock / tests):
/// byte clocks come back as little-endian bytes; bit-mode clocks land
/// MSB-first in their response byte.
pub fn pack_mock_stat_tdo(word: u32) -> (r: [u8; 5])
    ensures
        r@ == tdo_of_stat(word),
{
    let mut b7: u8 = if (word >> 24u32) & 1 != 0 { 0x80u8 } else { 0u8 };
    b7 = b7 | if (word >> 25u32) & 1 != 0 { 0x40u8 } else { 0u8 };
    b7 = b7 | if (word >> 26u32) & 1 != 0 { 0x20u8 } else { 0u8 };
    b7 = b7 | if (word >> 27u32) & 1 != 0 { 0x10u8 } else { 0u8 };
    b7 = b7 | if (word >> 28u32) & 1 != 0 { 0x08u8 } else { 0u8 };
    b7 = b7 | if (word >> 29u32) & 1 != 0 { 0x04u8 } else { 0u8 };
    b7 = b7 | if (word >> 30u32) & 1 != 0 { 0x02u8 } else { 0u8 };
    let top: u8 = if (word >> 31u32) & 1 != 0 { 0x80 } else { 0x00 };
    let r: [u8; 5] = [(word & 0xff) as u8, ((word >> 8u32) & 0xff) as u8, ((word >> 16u32) & 0xff) as u8, b7, top];
    assert(r@ =~= tdo_of_stat(word));
    r
}

/// Parses the Helion STAT `u32` from the bulk-IN bytes of a capture DR scan.
/// Short buffers are refused — a STAT word is never invented.
pub fn parse_stat_tdo_mpsse(tdo: &[u8]) -> (r: Result<u32, String>)
    ensures
        tdo@.len() < STAT_CAPTURE_TDO_LEN ==> (r matches Err(e) && e@ == "STAT TDO short: got "@
            + text::dec(tdo@.len()) + " byte(s), need 5 (refusing invented STAT)"@),
        tdo@.len() >= STAT_CAPTURE_TDO_LEN ==> r == Ok::<u32, String>(stat_of_tdo(tdo@)),
{
    if tdo.len() < STAT_CAPTURE_TDO_LEN {
        let mut m = text::chars_of("STAT TDO short: got ");
        text::push_u64(&mut m, tdo.len() as u64);
        text::push_str(&mut m, " byte(s), need 5 (refusing invented STAT)");
        return Err(text::string_of(m.as_slice()));
    }
    let b0 = tdo[0];
    let b1 = tdo[1];
    let b2 = tdo[2];
    let mut word: u32 = (b0 as u32) | ((b1 as u32) << 8u32) | ((b2 as u32) << 16u32);
    let bits7 = tdo[3];
    word = word | if (bits7 >> 7u8) & 1 != 0 { 0x0100_0000u32 } else { 0u32 };
    word = word | if (bits7 >> 6u8) & 1 != 0 { 0x0200_0000u32 } else { 0u32 };
    word = word | if (bits7 >> 5u8) & 1 != 0 { 0x0400_0000u32 } else { 0u32 };
    word = word | if (bits7 >> 4u8) & 1 != 0 { 0x0800_0000u32 } else { 0u32 };
    word = word | if (bits7 >> 3u8) & 1 != 0 { 0x1000_0000u32 } else { 0u32 };
    word = word | if (bits7 >> 2u8) & 1 != 0 { 0x2000_0000u32 } else { 0u32 };
    word = word | if (bits7 >> 1u8) & 1 != 0 { 0x4000_0000u32 } else { 0u32 };
    word = word | if (tdo[4] >> 7u8) & 1 != 0 { 0x8000_0000u32 } else { 0u32 };
    Ok(word)
}

/// Every STAT word survives the capture layout: packing it as TDO bytes and
/// parsing them back gives the same word.
pub proof fn stat_tdo_round_trip(w: u32)
    ensures
        tdo_of_stat(w).len() == STAT_CAPTURE_TDO_LEN,
        stat_of_tdo(tdo_of_stat(w)) == w,
{
    assert(stat_from_bytes((w & 0xff) as u8, ((w >> 8u32) & 0xff) as u8, ((w >> 16u32) & 0xff) as u8,
        tdo_bits7(w), sel8((w >> 31u32) & 1 != 0, 0x80)) == w) by (bit_vector);
}

/// STAT bit 5 (DONE) is set; the word itself is taken as given.
pub open spec fn stat_done(word: u32) -> bool {
    (word >> 5u32) & 1 != 0
}

/// True when Helion STAT bit 5 (DONE) is set — does not invent the word.
pub fn stat_word_done(word: u32) -> (r: bool)
    ensures
        r == stat_done(word),
{
    (word >> STAT_BIT_DONE) & 1 != 0
}

// ---------------------------------------------------------------------------
// Native FTDI MPSSE transport
// ---------------------------------------------------------------------------

/// Why the native path is unavailable in this build (no `usb-native` driver).
pub const MPSSE_NATIVE_OFF: &'static str = "FTDI MPSSE path requires helion-hw feature usb-native (rusb); without it native program stays NotImplemented → use --cable ofl|usb|auto or --cable mpsse-sim for sim fabric CFG_W+STAT";

/// Native FTDI MPSSE transport. This build carries no USB driver: opening,
/// programming and STAT readback are `NotImplemented`, so callers fall back to
/// openFPGALoader and no STAT word is ever invented.
#[derive(Debug)]
pub struct NativeFtdiMpsse {
    open: bool,
    /// Selected VID/PID after a successful open (detect honesty).
    pub opened_vid: Option<u16>,
    pub opened_pid: Option<u16>,
    pub opened_detail: String,
}

/// The byte stream of [`NativeFtdiMpsse::encode_cfg_w_and_stat`].
pub open spec fn enc_cfg_w_and_stat(packets: Seq<u8>) -> Seq<u8> {
    enc_init_clock(0x0002) + enc_reset_to_idle() + enc_cfg_w(packets) + enc_shift_ir(IR_STAT)
        + enc_shift_dr_u32(0, false) + seq![MPSSE_SEND_IMMEDIATE]
}

/// The byte stream of [`NativeFtdiMpsse::encode_read_stat`].
pub open spec fn enc_read_stat() -> Seq<u8> {
    enc_init_clock(0x0002) + enc_reset_to_idle() + enc_shift_ir(IR_STAT) + enc_shift_dr_u32(0, true)
        + seq![MPSSE_SEND_IMMEDIATE]
}

pub open spec fn native_off_err<T>() -> Result<T, NativeUsbError> {
    Err(NativeUsbError::NotImplemented(MPSSE_NATIVE_OFF))
}

impl NativeFtdiMpsse {
    pub closed spec fn opened(&self) -> bool {
        self.open
    }

    /// The fresh state: not open, no VID/PID, empty detail.
    pub closed spec fn is_fresh(&self) -> bool {
        &&& !self.open
        &&& self.opened_vid is None
        &&& self.opened_pid is None
        &&& self.opened_detail@ == Seq::<char>::empty()
    }

    pub fn new() -> (r: Self)
        ensures
            r.is_fresh(),
            !r.opened(),
    {
        NativeFtdiMpsse { open: false, opened_vid: None, opened_pid: None, opened_detail: String::new() }
    }

    pub fn is_open(&self) -> (r: bool)
        ensures
            r == self.opened(),
    {
        self.open
    }

    /// Whether this build includes the USB MPSSE open path (it does not).
    pub fn usb_native_enabled() -> (r: bool)
        ensures
            !r,
    {
        false
    }

    /// CFG_W + STAT opcode stream without touching USB: clock set-up, TAP
    /// reset, the CFG_W scan of `packets`, an out-only STAT request, flush.
    pub fn encode_cfg_w_and_stat(packets: &[u8]) -> (r: Vec<u8>)
        ensures
            r@ == enc_cfg_w_and_stat(packets@),
    {
        let mut b = MpsseOpcodeBuilder::new();
        b.init_clock(0x0002);
        b.jtag_reset_to_idle();
        b.helion_cfg_w_packets(packets);
        b.helion_read_stat_out_only();
        b.send_immediate();
        assert(b.bytes() =~= enc_cfg_w_and_stat(packets@));
        b.into_bytes()
    }

    /// IR_STAT + capture DR opcode stream (no USB).
    pub fn encode_read_stat() -> (r: Vec<u8>)
        ensures
            r@ == enc_read_stat(),
    {
        let mut b = MpsseOpcodeBuilder::new();
        b.init_clock(0x0002);
        b.jtag_reset_to_idle();
        b.helion_read_stat();
        b.send_immediate();
        assert(b.bytes() =~= enc_read_stat());
        b.into_bytes()
    }
}

impl Default for NativeFtdiMpsse {
    fn default() -> (r: Self)
        ensures
            r.is_fresh(),
            !r.opened(),
    {
        NativeFtdiMpsse::new()
    }
}

impl HadUsbTransport for NativeFtdiMpsse {
    fn name(&self) -> (r: &'static str)
        ensures
            r@ == "native-ftdi-mpsse"@,
    {
        "native-ftdi-mpsse"
    }

    fn open_probe(&mut self) -> (r: Result<(), NativeUsbError>)
        ensures
            r == native_off_err::<()>(),
            *final(self) == *old(self),
    {
        Err(NativeUsbError::NotImplemented(MPSSE_NATIVE_OFF))
    }

    fn program_hbits(&mut self, path: &str, flash: bool) -> (r: Result<(), NativeUsbError>)
        ensures
            r == native_off_err::<()>(),
            *final(self) == *old(self),
    {
        self.open_probe()
    }

    fn read_stat(&mut self) -> (r: Result<Option<u32>, NativeUsbError>)
        ensures
            r == native_off_err::<Option<u32>>(),
            *final(self) == *old(self),
    {
        match self.open_probe() {
            Ok(()) => Ok(None),
            Err(e) => Err(e),
        }
    }
}

/// Tries a native FTDI MPSSE program: `NotImplemented` in this build.
pub fn try_native_mpsse_program(path: &str, flash: bool) -> (r: Result<(), NativeUsbError>)
    ensures
        r == native_off_err::<()>(),
{
    let mut t = NativeFtdiMpsse::new();
    match t.open_probe() {
        Ok(()) => {},
        Err(e) => return Err(e),
    }
    t.program_hbits(path, flash)
}

/// Human note for detect / HAD docs about native MPSSE vs openFPGALoader.
pub fn native_mpsse_status_note() -> (r: String)
    ensures
        r@ == "native_mpsse: usb-native OFF — NativeFtdiMpsse NotImplemented → OFL fallback; build with --features usb-native for real FTDI MPSSE open/opcode path"@,
{
    text::owned("native_mpsse: usb-native OFF — NativeFtdiMpsse NotImplemented → OFL fallback; build with --features usb-native for real FTDI MPSSE open/opcode path")
}

/// The TMS bursts the encoder issues walk the IEEE 1149.1 TAP along the
/// intended path: the reset burst reaches Test-Logic-Reset from any state and
/// then Run-Test/Idle; an IR (or DR) scan goes Idle → Shift-IR (Shift-DR), its
/// last bit → Exit1, then Update → Idle.
pub proof fn encoder_tms_paths(s: TapState)
    ensures
        tap_walk_bits(s, 0x1f, 5) == TapState::TestLogicReset,
        tap_walk_bits(TapState::TestLogicReset, 0x00, 1) == TapState::RunTestIdle,
        tap_walk_bits(TapState::RunTestIdle, 0x03, 4) == TapState::ShiftIr,
        tap_walk_bits(TapState::ShiftIr, 0x01, 1) == TapState::Exit1Ir,
        tap_walk_bits(TapState::Exit1Ir, 0x01, 2) == TapState::RunTestIdle,
        tap_walk_bits(TapState::RunTestIdle, 0x01, 3) == TapState::ShiftDr,
        tap_walk_bits(TapState::ShiftDr, 0x01, 1) == TapState::Exit1Dr,
        tap_walk_bits(TapState::Exit1Dr, 0x01, 2) == TapState::RunTestIdle,
{
    crate::hw::five_tms_high_resets(s);
    reveal_with_fuel(tap_walk_bits, 5);
}

/// Error from the sim bitbang harness (never pretends to be a USB I/O failure).
#[derive(Clone, Debug, PartialEq, Eq)]
pub enum MpsseSimError {
    /// The harness was not opened yet.
    NotOpen(&'static str),
    /// CFG_W packet decode / fabric program failed after Update-DR.
    CfgW(String),
}

pub open spec fn mpsse_sim_message(e: MpsseSimError) -> Seq<char> {
    match e {
        MpsseSimError::NotOpen(m) => "mpsse-sim not open: "@ + m@,
        MpsseSimError::CfgW(m) => "mpsse-sim CFG_W: "@ + m@,
    }
}

impl MpsseSimError {
    /// The error's text.
    pub fn message(&self) -> (r: String)
        ensures
            r@ == mpsse_sim_message(*self),
    {
        match self {
            MpsseSimError::NotOpen(m) => {
                let mut v = text::chars_of("mpsse-sim not open: ");
                text::push_str(&mut v, m);
                text::string_of(v.as_slice())
            },
            MpsseSimError::CfgW(m) => {
                let mut v = text::chars_of("mpsse-sim CFG_W: ");
                text::push_str(&mut v, m.as_str());
                text::string_of(v.as_slice())
            },
        }
    }
}


/// A byte shift of `data` (1 to 65536 bytes) is the opcode, a 16-bit
/// little-endian length field holding `data.len() - 1`, then the data itself;
/// an empty shift emits nothing.
pub proof fn byte_shift_length_field(op: u8, data: Seq<u8>)
    requires
        data.len() <= 65536,
    ensures
        data.len() == 0 ==> enc_bytes(op, data).len() == 0,
        data.len() > 0 ==> {
            let e = enc_bytes(op, data);
            &&& e.len() == data.len() + 3
            &&& e[0] == op
            &&& e[1] as int + 256 * (e[2] as int) == data.len() - 1
            &&& e.subrange(3, e.len() as int) == data
        },
{
    if data.len() > 0 {
        let n: int = data.len() - 1;
        let e = enc_bytes(op, data);
        assert(0 <= n < 65536);
        assert((n % 256) + 256 * ((n / 256) % 256) == n) by (nonlinear_arith)
            requires 0 <= n < 65536;
        assert(e[1] == ((n % 256) as u8));
        assert(e[2] == (((n / 256) % 256) as u8));
        assert(e.subrange(3, e.len() as int) =~= data);
    }
}

} // verus!
