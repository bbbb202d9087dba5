//! IEEE 1685-style IP packaging: `IpCore` descriptors, the packed core
//! catalog, the minimal IP-XACT XML form and the `.helion` text manifest.
//! Every packed core sits on Helion-MM or Helion-ST, never AXI.

use vstd::prelude::*;
use crate::text;

verus! {

/// An IP core descriptor: IEEE 1685 VLNV plus the bus it speaks.
#[derive(Clone, Debug, PartialEq, Eq)]
pub struct IpCore {
    pub vendor: String,
    pub library: String,
    pub name: String,
    pub version: String,
    pub bus: String,
}

/// `ip` is the packed core `name` on `bus`, from `community:helion`, version 1.0.
pub open spec fn packed(ip: IpCore, name: Seq<char>, bus: Seq<char>) -> bool {
    &&& ip.vendor@ == "community"@
    &&& ip.library@ == "helion"@
    &&& ip.name@ == name
    &&& ip.version@ == "1.0"@
    &&& ip.bus@ == bus
}

fn packed_core(name: &str, bus: &str) -> (r: IpCore)
    ensures
        packed(r, name@, bus@),
{
    IpCore {
        vendor: text::owned("community"),
        library: text::owned("helion"),
        name: text::owned(name),
        version: text::owned("1.0"),
        bus: text::owned(bus),
    }
}

pub fn pack_uart() -> (r: IpCore)
    ensures
        packed(r, "h_uart"@, "Helion-MM"@),
{
    packed_core("h_uart", "Helion-MM")
}

pub fn pack_gpio() -> (r: IpCore)
    ensures
        packed(r, "h_gpio"@, "Helion-MM"@),
{
    packed_core("h_gpio", "Helion-MM")
}

/// PicoRV32 wrap on Helion-MM (ip/h_rv32_hb1). Not a Zynq PS, not AXI.
pub fn pack_rv32() -> (r: IpCore)
    ensures
        packed(r, "h_rv32_hb1"@, "Helion-MM"@),
{
    packed_core("h_rv32_hb1", "Helion-MM")
}

/// Helion-ST sync FIFO (ip/h_sync_fifo). Depth 8 / width 8. Not AXI-Stream.
pub fn pack_sync_fifo() -> (r: IpCore)
    ensures
        packed(r, "h_sync_fifo"@, "Helion-ST"@),
{
    packed_core("h_sync_fifo", "Helion-ST")
}

/// Helion-MM loadable down-counter timer (ip/h_timer). Not AXI timer.
pub fn pack_timer() -> (r: IpCore)
    ensures
        packed(r, "h_timer"@, "Helion-MM"@),
{
    packed_core("h_timer", "Helion-MM")
}

/// Helion-MM PWM period/duty/compare (ip/h_pwm). Not AXI PWM.
pub fn pack_pwm() -> (r: IpCore)
    ensures
        packed(r, "h_pwm"@, "Helion-MM"@),
{
    packed_core("h_pwm", "Helion-MM")
}

/// Helion-MM SPI master bit-engine (ip/h_spi_mm). Not Xilinx AXI SPI.
pub fn pack_spi_mm() -> (r: IpCore)
    ensures
        packed(r, "h_spi_mm"@, "Helion-MM"@),
{
    packed_core("h_spi_mm", "Helion-MM")
}

/// Helion-ST N-stage shift-reg debounce (ip/h_debounce). Not AXI.
pub fn pack_debounce() -> (r: IpCore)
    ensures
        packed(r, "h_debounce"@, "Helion-ST"@),
{
    packed_core("h_debounce", "Helion-ST")
}

/// Helion-ST programmable clock divider (ip/h_clkdiv). Not AXI.
pub fn pack_clkdiv() -> (r: IpCore)
    ensures
        packed(r, "h_clkdiv"@, "Helion-ST"@),
{
    packed_core("h_clkdiv", "Helion-ST")
}

/// Helion-ST rising/falling edge detect with sticky status (ip/h_edge_det). Not AXI.
pub fn pack_edge_det() -> (r: IpCore)
    ensures
        packed(r, "h_edge_det"@, "Helion-ST"@),
{
    packed_core("h_edge_det", "Helion-ST")
}

/// Helion-MM loadable countdown watchdog (ip/h_watchdog). Not AXI watchdog.
pub fn pack_watchdog() -> (r: IpCore)
    ensures
        packed(r, "h_watchdog"@, "Helion-MM"@),
{
    packed_core("h_watchdog", "Helion-MM")
}

/// Helion-ST byte-serial CRC32 (ip/h_crc32). Not AXI CRC.
pub fn pack_crc32() -> (r: IpCore)
    ensures
        packed(r, "h_crc32"@, "Helion-ST"@),
{
    packed_core("h_crc32", "Helion-ST")
}

/// Helion-ST programmable-tap LFSR PRBS generator (ip/h_lfsr). Not AXI.
pub fn pack_lfsr() -> (r: IpCore)
    ensures
        packed(r, "h_lfsr"@, "Helion-ST"@),
{
    packed_core("h_lfsr", "Helion-ST")
}

/// Helion-ST binary↔gray counter with enable/load (ip/h_gray_cnt). Not AXI.
pub fn pack_gray_cnt() -> (r: IpCore)
    ensures
        packed(r, "h_gray_cnt"@, "Helion-ST"@),
{
    packed_core("h_gray_cnt", "Helion-ST")
}

/// Helion-MM 4×32b scratch register file (ip/h_scratch_mm). Not AXI.
pub fn pack_scratch_mm() -> (r: IpCore)
    ensures
        packed(r, "h_scratch_mm"@, "Helion-MM"@),
{
    packed_core("h_scratch_mm", "Helion-MM")
}

/// Helion-ST registered 32b population count (ip/h_popcount). Not AXI.
pub fn pack_popcount() -> (r: IpCore)
    ensures
        packed(r, "h_popcount"@, "Helion-ST"@),
{
    packed_core("h_popcount", "Helion-ST")
}

/// Helion-ST saturating add/sub with sticky signed overflow (ip/h_saturate). Not AXI.
pub fn pack_saturate() -> (r: IpCore)
    ensures
        packed(r, "h_saturate"@, "Helion-ST"@),
{
    packed_core("h_saturate", "Helion-ST")
}

/// Helion-ST loadable N-bit shift register with dir/serial (ip/h_shift_reg). Not AXI.
pub fn pack_shift_reg() -> (r: IpCore)
    ensures
        packed(r, "h_shift_reg"@, "Helion-ST"@),
{
    packed_core("h_shift_reg", "Helion-ST")
}

/// Helion-MM threshold/compare regs + sticky match/irq (ip/h_compare_mm). Not AXI.
pub fn pack_compare_mm() -> (r: IpCore)
    ensures
        packed(r, "h_compare_mm"@, "Helion-MM"@),
{
    packed_core("h_compare_mm", "Helion-MM")
}

/// Helion-ST registered 32b count-leading-zeros (ip/h_clz). Not AXI.
pub fn pack_clz() -> (r: IpCore)
    ensures
        packed(r, "h_clz"@, "Helion-ST"@),
{
    packed_core("h_clz", "Helion-ST")
}

/// Helion-ST registered endian byte-reverse 32b↔bytes (ip/h_byte_rev). Not AXI.
pub fn pack_byte_rev() -> (r: IpCore)
    ensures
        packed(r, "h_byte_rev"@, "Helion-ST"@),
{
    packed_core("h_byte_rev", "Helion-ST")
}

/// Helion-ST 4-request round-robin arbiter with grant + sticky mask (ip/h_arb_rr). Not AXI.
pub fn pack_arb_rr() -> (r: IpCore)
    ensures
        packed(r, "h_arb_rr"@, "Helion-ST"@),
{
    packed_core("h_arb_rr", "Helion-ST")
}

/// Helion-ST registered 32b count-trailing-zeros (ip/h_ctz). Not AXI. Pair to h_clz.
pub fn pack_ctz() -> (r: IpCore)
    ensures
        packed(r, "h_ctz"@, "Helion-ST"@),
{
    packed_core("h_ctz", "Helion-ST")
}

/// Helion-ST registered min/max of two 32b + mode (ip/h_minmax). Not AXI.
pub fn pack_minmax() -> (r: IpCore)
    ensures
        packed(r, "h_minmax"@, "Helion-ST"@),
{
    packed_core("h_minmax", "Helion-ST")
}

/// Helion-MM loadable accumulator + clear/add (ip/h_accum_mm). Not AXI.
pub fn pack_accum_mm() -> (r: IpCore)
    ensures
        packed(r, "h_accum_mm"@, "Helion-MM"@),
{
    packed_core("h_accum_mm", "Helion-MM")
}

/// Helion-ST registered even/odd parity + sticky error over 32b (ip/h_parity). Not AXI.
pub fn pack_parity() -> (r: IpCore)
    ensures
        packed(r, "h_parity"@, "Helion-ST"@),
{
    packed_core("h_parity", "Helion-ST")
}

/// Helion-ST registered Hamming distance between two 32b (ip/h_hamming). Not AXI.
pub fn pack_hamming() -> (r: IpCore)
    ensures
        packed(r, "h_hamming"@, "Helion-ST"@),
{
    packed_core("h_hamming", "Helion-ST")
}

/// Helion-MM programmed rotate left/right by N on 32b (ip/h_rot_mm). Not AXI.
pub fn pack_rot_mm() -> (r: IpCore)
    ensures
        packed(r, "h_rot_mm"@, "Helion-MM"@),
{
    packed_core("h_rot_mm", "Helion-MM")
}

/// Helion-ST registered bitmask generator from width/offset (ip/h_mask_gen). Not AXI.
pub fn pack_mask_gen() -> (r: IpCore)
    ensures
        packed(r, "h_mask_gen"@, "Helion-ST"@),
{
    packed_core("h_mask_gen", "Helion-ST")
}

/// Helion-ST registered absolute difference |a-b| on 32b (ip/h_absdiff). Not AXI.
pub fn pack_absdiff() -> (r: IpCore)
    ensures
        packed(r, "h_absdiff"@, "Helion-ST"@),
{
    packed_core("h_absdiff", "Helion-ST")
}

/// Helion-ST registered clamp of 32b value to [lo,hi] (ip/h_clamp). Not AXI.
pub fn pack_clamp() -> (r: IpCore)
    ensures
        packed(r, "h_clamp"@, "Helion-ST"@),
{
    packed_core("h_clamp", "Helion-ST")
}

/// Helion-ST registered binary→onehot 4b→16b (ip/h_bin2oh). Not AXI.
pub fn pack_bin2oh() -> (r: IpCore)
    ensures
        packed(r, "h_bin2oh"@, "Helion-ST"@),
{
    packed_core("h_bin2oh", "Helion-ST")
}

/// Helion-MM free-run capture timer + sticky edge capture (ip/h_timer_cap). Not AXI.
pub fn pack_timer_cap() -> (r: IpCore)
    ensures
        packed(r, "h_timer_cap"@, "Helion-MM"@),
{
    packed_core("h_timer_cap", "Helion-MM")
}

/// Helion-ST registered 4:1 mux 32b + sel (ip/h_mux4). Not AXI.
pub fn pack_mux4() -> (r: IpCore)
    ensures
        packed(r, "h_mux4"@, "Helion-ST"@),
{
    packed_core("h_mux4", "Helion-ST")
}

/// Helion-MM add/sub with sticky carry/borrow (ip/h_addsub_mm). Not AXI.
pub fn pack_addsub_mm() -> (r: IpCore)
    ensures
        packed(r, "h_addsub_mm"@, "Helion-MM"@),
{
    packed_core("h_addsub_mm", "Helion-MM")
}

/// Helion-ST registered ones-complement / invert+inc negate (ip/h_ones_comp). Not AXI.
pub fn pack_ones_comp() -> (r: IpCore)
    ensures
        packed(r, "h_ones_comp"@, "Helion-ST"@),
{
    packed_core("h_ones_comp", "Helion-ST")
}

/// Helion-ST pulse stretcher/extender with programmable width (ip/h_pulse_ext). Not AXI.
pub fn pack_pulse_ext() -> (r: IpCore)
    ensures
        packed(r, "h_pulse_ext"@, "Helion-ST"@),
{
    packed_core("h_pulse_ext", "Helion-ST")
}

/// Helion-ST registered xorshift32 PRNG with seed/enable (ip/h_rng_xorshift). Not AXI.
pub fn pack_rng_xorshift() -> (r: IpCore)
    ensures
        packed(r, "h_rng_xorshift"@, "Helion-ST"@),
{
    packed_core("h_rng_xorshift", "Helion-ST")
}

/// Helion-ST registered 16→4 priority encoder + valid (ip/h_prio_enc). Not AXI.
pub fn pack_prio_enc() -> (r: IpCore)
    ensures
        packed(r, "h_prio_enc"@, "Helion-ST"@),
{
    packed_core("h_prio_enc", "Helion-ST")
}

/// Helion-ST 1-deep skid buffer valid/ready (ip/h_skid_buf). Not AXI.
pub fn pack_skid_buf() -> (r: IpCore)
    ensures
        packed(r, "h_skid_buf"@, "Helion-ST"@),
{
    packed_core("h_skid_buf", "Helion-ST")
}

/// Helion-ST registered 4-digit BCD incrementer + carry (ip/h_bcd_inc). Not AXI.
pub fn pack_bcd_inc() -> (r: IpCore)
    ensures
        packed(r, "h_bcd_inc"@, "Helion-ST"@),
{
    packed_core("h_bcd_inc", "Helion-ST")
}

/// Helion-MM single-slot mailbox write/read + sticky full/empty (ip/h_mailbox_mm). Not AXI.
pub fn pack_mailbox_mm() -> (r: IpCore)
    ensures
        packed(r, "h_mailbox_mm"@, "Helion-MM"@),
{
    packed_core("h_mailbox_mm", "Helion-MM")
}

/// Helion-ST complementary PWM with deadtime counters (ip/h_pwm_deadtime). Not AXI.
pub fn pack_pwm_deadtime() -> (r: IpCore)
    ensures
        packed(r, "h_pwm_deadtime"@, "Helion-ST"@),
{
    packed_core("h_pwm_deadtime", "Helion-ST")
}

/// Helion-ST 16-bit LFSR PRBS (ip/h_lfsr16). Distinct from 8b h_lfsr. Not AXI.
pub fn pack_lfsr16() -> (r: IpCore)
    ensures
        packed(r, "h_lfsr16"@, "Helion-ST"@),
{
    packed_core("h_lfsr16", "Helion-ST")
}

/// Helion-ST rising-edge counter with clear (ip/h_edge_cnt). Not AXI.
pub fn pack_edge_cnt() -> (r: IpCore)
    ensures
        packed(r, "h_edge_cnt"@, "Helion-ST"@),
{
    packed_core("h_edge_cnt", "Helion-ST")
}

/// Helion-MM UART RX bit sampler start/data/stop + sticky byte (ip/h_uart_rx). Not AXI UART.
pub fn pack_uart_rx() -> (r: IpCore)
    ensures
        packed(r, "h_uart_rx"@, "Helion-MM"@),
{
    packed_core("h_uart_rx", "Helion-MM")
}

/// Helion-ST restoring divider step engine, registered quot/rem (ip/h_div_restoring). Not AXI.
pub fn pack_div_restoring() -> (r: IpCore)
    ensures
        packed(r, "h_div_restoring"@, "Helion-ST"@),
{
    packed_core("h_div_restoring", "Helion-ST")
}

/// Helion-ST digit-by-digit integer sqrt step, registered rem/root (ip/h_sqrt_digit). Not AXI.
pub fn pack_sqrt_digit() -> (r: IpCore)
    ensures
        packed(r, "h_sqrt_digit"@, "Helion-ST"@),
{
    packed_core("h_sqrt_digit", "Helion-ST")
}

/// Helion-ST one CORDIC rotation step, registered x/y/z (ip/h_cordic_step). Not AXI.
pub fn pack_cordic_step() -> (r: IpCore)
    ensures
        packed(r, "h_cordic_step"@, "Helion-ST"@),
{
    packed_core("h_cordic_step", "Helion-ST")
}

/// Helion-ST NCO phase accumulator with freq word + MSB carrier (ip/h_phase_accum). Not AXI.
pub fn pack_phase_accum() -> (r: IpCore)
    ensures
        packed(r, "h_phase_accum"@, "Helion-ST"@),
{
    packed_core("h_phase_accum", "Helion-ST")
}

/// Helion-ST single MAC FIR tap, registered acc += x*coeff (ip/h_fir_tap). Not AXI.
pub fn pack_fir_tap() -> (r: IpCore)
    ensures
        packed(r, "h_fir_tap"@, "Helion-ST"@),
{
    packed_core("h_fir_tap", "Helion-ST")
}

/// Helion-ST DF1 biquad step with small coeffs (ip/h_iir_biquad). Not AXI.
pub fn pack_iir_biquad() -> (r: IpCore)
    ensures
        packed(r, "h_iir_biquad"@, "Helion-ST"@),
{
    packed_core("h_iir_biquad", "Helion-ST")
}

/// Helion-ST 2FF toggle-pulse CDC synchronizer (ip/h_cdc_pulse). Not AXI / not XPM.
pub fn pack_cdc_pulse() -> (r: IpCore)
    ensures
        packed(r, "h_cdc_pulse"@, "Helion-ST"@),
{
    packed_core("h_cdc_pulse", "Helion-ST")
}

/// Helion-ST registered CRC-8 poly 0x07 byte-serial (ip/h_crc8). Not AXI.
pub fn pack_crc8() -> (r: IpCore)
    ensures
        packed(r, "h_crc8"@, "Helion-ST"@),
{
    packed_core("h_crc8", "Helion-ST")
}

/// Helion-MM SPI slave shift+sticky byte (ip/h_spi_slave). Not AXI SPI.
pub fn pack_spi_slave() -> (r: IpCore)
    ensures
        packed(r, "h_spi_slave"@, "Helion-MM"@),
{
    packed_core("h_spi_slave", "Helion-MM")
}

/// Helion-ST quadrature decoder count up/down (ip/h_quad_enc). Not AXI.
pub fn pack_quad_enc() -> (r: IpCore)
    ensures
        packed(r, "h_quad_enc"@, "Helion-ST"@),
{
    packed_core("h_quad_enc", "Helion-ST")
}

/// Helion-ST center-aligned PWM up/down triangle (ip/h_pwm_center). Not AXI.
pub fn pack_pwm_center() -> (r: IpCore)
    ensures
        packed(r, "h_pwm_center"@, "Helion-ST"@),
{
    packed_core("h_pwm_center", "Helion-ST")
}

/// Helion-ST Manchester encoder from bit stream + enable (ip/h_manchester_enc). Not AXI.
pub fn pack_manchester_enc() -> (r: IpCore)
    ensures
        packed(r, "h_manchester_enc"@, "Helion-ST"@),
{
    packed_core("h_manchester_enc", "Helion-ST")
}

/// Helion-ST registered gray→binary converter 8b (ip/h_gray2bin). Not AXI.
pub fn pack_gray2bin() -> (r: IpCore)
    ensures
        packed(r, "h_gray2bin"@, "Helion-ST"@),
{
    packed_core("h_gray2bin", "Helion-ST")
}

/// Helion-ST registered binary→gray converter 8b (ip/h_bin2gray). Not AXI.
pub fn pack_bin2gray() -> (r: IpCore)
    ensures
        packed(r, "h_bin2gray"@, "Helion-ST"@),
{
    packed_core("h_bin2gray", "Helion-ST")
}

/// Helion-ST 3-input majority voter registered width-8 (ip/h_majority3). Not AXI.
pub fn pack_majority3() -> (r: IpCore)
    ensures
        packed(r, "h_majority3"@, "Helion-ST"@),
{
    packed_core("h_majority3", "Helion-ST")
}

/// Helion-ST registered CRC-16 poly 0x1021 byte-serial (ip/h_crc16). Not AXI.
pub fn pack_crc16() -> (r: IpCore)
    ensures
        packed(r, "h_crc16"@, "Helion-ST"@),
{
    packed_core("h_crc16", "Helion-ST")
}

/// Helion-ST token-ring rotating grant among N requesters (ip/h_rr_token). Distinct from h_arb_rr. Not AXI.
pub fn pack_rr_token() -> (r: IpCore)
    ensures
        packed(r, "h_rr_token"@, "Helion-ST"@),
{
    packed_core("h_rr_token", "Helion-ST")
}

/// Helion-ST phase-shifted dual PWM shared counter (ip/h_pwm_phase). Not AXI.
pub fn pack_pwm_phase() -> (r: IpCore)
    ensures
        packed(r, "h_pwm_phase"@, "Helion-ST"@),
{
    packed_core("h_pwm_phase", "Helion-ST")
}

/// Helion-MM tiny CAM/tag compare slot sticky match (ip/h_cam_slot). Not AXI.
pub fn pack_cam_slot() -> (r: IpCore)
    ensures
        packed(r, "h_cam_slot"@, "Helion-MM"@),
{
    packed_core("h_cam_slot", "Helion-MM")
}

/// Helion-ST serial-in parallel-out shift register WIDTH=16 (ip/h_sipo). Not AXI.
pub fn pack_sipo() -> (r: IpCore)
    ensures
        packed(r, "h_sipo"@, "Helion-ST"@),
{
    packed_core("h_sipo", "Helion-ST")
}

/// Helion-ST parallel-in serial-out shift register WIDTH=16 (ip/h_piso). Not AXI.
pub fn pack_piso() -> (r: IpCore)
    ensures
        packed(r, "h_piso"@, "Helion-ST"@),
{
    packed_core("h_piso", "Helion-ST")
}

/// Helion-ST simple FSM traffic light registered states+timers (ip/h_traffic_light). Not AXI.
pub fn pack_traffic_light() -> (r: IpCore)
    ensures
        packed(r, "h_traffic_light"@, "Helion-ST"@),
{
    packed_core("h_traffic_light", "Helion-ST")
}

/// Helion-MM outstanding-id scoreboard / sticky 4-entry ID CAM (ip/h_scoreboard). Not AXI.
pub fn pack_scoreboard() -> (r: IpCore)
    ensures
        packed(r, "h_scoreboard"@, "Helion-MM"@),
{
    packed_core("h_scoreboard", "Helion-MM")
}

/// Number of cores in the packed catalog.
pub open spec fn catalog_len() -> int {
    69
}

/// Name and bus of catalog entry `i`, in catalog order.
pub open spec fn catalog_entry(i: int) -> (Seq<char>, Seq<char>) {
    if i == 0 {
        ("h_uart"@, "Helion-MM"@)
    } else if i == 1 {
        ("h_gpio"@, "Helion-MM"@)
    } else if i == 2 {
        ("h_rv32_hb1"@, "Helion-MM"@)
    } else if i == 3 {
        ("h_sync_fifo"@, "Helion-ST"@)
    } else if i == 4 {
        ("h_timer"@, "Helion-MM"@)
    } else if i == 5 {
        ("h_pwm"@, "Helion-MM"@)
    } else if i == 6 {
        ("h_spi_mm"@, "Helion-MM"@)
    } else if i == 7 {
        ("h_debounce"@, "Helion-ST"@)
    } else if i == 8 {
        ("h_clkdiv"@, "Helion-ST"@)
    } else if i == 9 {
        ("h_edge_det"@, "Helion-ST"@)
    } else if i == 10 {
        ("h_watchdog"@, "Helion-MM"@)
    } else if i == 11 {
        ("h_crc32"@, "Helion-ST"@)
    } else if i == 12 {
        ("h_lfsr"@, "Helion-ST"@)
    } else if i == 13 {
        ("h_gray_cnt"@, "Helion-ST"@)
    } else if i == 14 {
        ("h_scratch_mm"@, "Helion-MM"@)
    } else if i == 15 {
        ("h_popcount"@, "Helion-ST"@)
    } else if i == 16 {
        ("h_saturate"@, "Helion-ST"@)
    } else if i == 17 {
        ("h_shift_reg"@, "Helion-ST"@)
    } else if i == 18 {
        ("h_compare_mm"@, "Helion-MM"@)
    } else if i == 19 {
        ("h_clz"@, "Helion-ST"@)
    } else if i == 20 {
        ("h_byte_rev"@, "Helion-ST"@)
    } else if i == 21 {
        ("h_arb_rr"@, "Helion-ST"@)
    } else if i == 22 {
        ("h_ctz"@, "Helion-ST"@)
    } else if i == 23 {
        ("h_minmax"@, "Helion-ST"@)
    } else if i == 24 {
        ("h_accum_mm"@, "Helion-MM"@)
    } else if i == 25 {
        ("h_parity"@, "Helion-ST"@)
    } else if i == 26 {
        ("h_hamming"@, "Helion-ST"@)
    } else if i == 27 {
        ("h_rot_mm"@, "Helion-MM"@)
    } else if i == 28 {
        ("h_mask_gen"@, "Helion-ST"@)
    } else if i == 29 {
        ("h_absdiff"@, "Helion-ST"@)
    } else if i == 30 {
        ("h_clamp"@, "Helion-ST"@)
    } else if i == 31 {
        ("h_bin2oh"@, "Helion-ST"@)
    } else if i == 32 {
        ("h_timer_cap"@, "Helion-MM"@)
    } else if i == 33 {
        ("h_mux4"@, "Helion-ST"@)
    } else if i == 34 {
        ("h_addsub_mm"@, "Helion-MM"@)
    } else if i == 35 {
        ("h_ones_comp"@, "Helion-ST"@)
    } else if i == 36 {
        ("h_pulse_ext"@, "Helion-ST"@)
    } else if i == 37 {
        ("h_rng_xorshift"@, "Helion-ST"@)
    } else if i == 38 {
        ("h_prio_enc"@, "Helion-ST"@)
    } else if i == 39 {
        ("h_skid_buf"@, "Helion-ST"@)
    } else if i == 40 {
        ("h_bcd_inc"@, "Helion-ST"@)
    } else if i == 41 {
        ("h_mailbox_mm"@, "Helion-MM"@)
    } else if i == 42 {
        ("h_pwm_deadtime"@, "Helion-ST"@)
    } else if i == 43 {
        ("h_lfsr16"@, "Helion-ST"@)
    } else if i == 44 {
        ("h_edge_cnt"@, "Helion-ST"@)
    } else if i == 45 {
        ("h_uart_rx"@, "Helion-MM"@)
    } else if i == 46 {
        ("h_div_restoring"@, "Helion-ST"@)
    } else if i == 47 {
        ("h_sqrt_digit"@, "Helion-ST"@)
    } else if i == 48 {
        ("h_cordic_step"@, "Helion-ST"@)
    } else if i == 49 {
        ("h_phase_accum"@, "Helion-ST"@)
    } else if i == 50 {
        ("h_fir_tap"@, "Helion-ST"@)
    } else if i == 51 {
        ("h_iir_biquad"@, "Helion-ST"@)
    } else if i == 52 {
        ("h_cdc_pulse"@, "Helion-ST"@)
    } else if i == 53 {
        ("h_crc8"@, "Helion-ST"@)
    } else if i == 54 {
        ("h_spi_slave"@, "Helion-MM"@)
    } else if i == 55 {
        ("h_quad_enc"@, "Helion-ST"@)
    } else if i == 56 {
        ("h_pwm_center"@, "Helion-ST"@)
    } else if i == 57 {
        ("h_manchester_enc"@, "Helion-ST"@)
    } else if i == 58 {
        ("h_gray2bin"@, "Helion-ST"@)
    } else if i == 59 {
        ("h_bin2gray"@, "Helion-ST"@)
    } else if i == 60 {
        ("h_majority3"@, "Helion-ST"@)
    } else if i == 61 {
        ("h_crc16"@, "Helion-ST"@)
    } else if i == 62 {
        ("h_rr_token"@, "Helion-ST"@)
    } else if i == 63 {
        ("h_pwm_phase"@, "Helion-ST"@)
    } else if i == 64 {
        ("h_cam_slot"@, "Helion-MM"@)
    } else if i == 65 {
        ("h_sipo"@, "Helion-ST"@)
    } else if i == 66 {
        ("h_piso"@, "Helion-ST"@)
    } else if i == 67 {
        ("h_traffic_light"@, "Helion-ST"@)
    } else {
        ("h_scoreboard"@, "Helion-MM"@)
    }
}

fn catalog_item(i: usize) -> (r: IpCore)
    requires
        i < catalog_len(),
    ensures
        packed(r, catalog_entry(i as int).0, catalog_entry(i as int).1),
{
    match i {
        0 => pack_uart(),
        1 => pack_gpio(),
        2 => pack_rv32(),
        3 => pack_sync_fifo(),
        4 => pack_timer(),
        5 => pack_pwm(),
        6 => pack_spi_mm(),
        7 => pack_debounce(),
        8 => pack_clkdiv(),
        9 => pack_edge_det(),
        10 => pack_watchdog(),
        11 => pack_crc32(),
        12 => pack_lfsr(),
        13 => pack_gray_cnt(),
        14 => pack_scratch_mm(),
        15 => pack_popcount(),
        16 => pack_saturate(),
        17 => pack_shift_reg(),
        18 => pack_compare_mm(),
        19 => pack_clz(),
        20 => pack_byte_rev(),
        21 => pack_arb_rr(),
        22 => pack_ctz(),
        23 => pack_minmax(),
        24 => pack_accum_mm(),
        25 => pack_parity(),
        26 => pack_hamming(),
        27 => pack_rot_mm(),
        28 => pack_mask_gen(),
        29 => pack_absdiff(),
        30 => pack_clamp(),
        31 => pack_bin2oh(),
        32 => pack_timer_cap(),
        33 => pack_mux4(),
        34 => pack_addsub_mm(),
        35 => pack_ones_comp(),
        36 => pack_pulse_ext(),
        37 => pack_rng_xorshift(),
        38 => pack_prio_enc(),
        39 => pack_skid_buf(),
        40 => pack_bcd_inc(),
        41 => pack_mailbox_mm(),
        42 => pack_pwm_deadtime(),
        43 => pack_lfsr16(),
        44 => pack_edge_cnt(),
        45 => pack_uart_rx(),
        46 => pack_div_restoring(),
        47 => pack_sqrt_digit(),
        48 => pack_cordic_step(),
        49 => pack_phase_accum(),
        50 => pack_fir_tap(),
        51 => pack_iir_biquad(),
        52 => pack_cdc_pulse(),
        53 => pack_crc8(),
        54 => pack_spi_slave(),
        55 => pack_quad_enc(),
        56 => pack_pwm_center(),
        57 => pack_manchester_enc(),
        58 => pack_gray2bin(),
        59 => pack_bin2gray(),
        60 => pack_majority3(),
        61 => pack_crc16(),
        62 => pack_rr_token(),
        63 => pack_pwm_phase(),
        64 => pack_cam_slot(),
        65 => pack_sipo(),
        66 => pack_piso(),
        67 => pack_traffic_light(),
        _ => pack_scoreboard(),
    }
}

/// The IP catalog: every packed Helion-MM/ST core, in a fixed order.
pub fn catalog() -> (r: Vec<IpCore>)
    ensures
        r@.len() == catalog_len(),
        forall|i: int|
            0 <= i < catalog_len() ==> packed(
                #[trigger] r@[i],
                catalog_entry(i).0,
                catalog_entry(i).1,
            ),
{
    let mut r: Vec<IpCore> = Vec::new();
    let mut i: usize = 0;
    while i < 69
        invariant
            i <= catalog_len(),
            r@.len() == i,
            forall|k: int|
                0 <= k < i ==> packed(#[trigger] r@[k], catalog_entry(k).0, catalog_entry(k).1),
        decreases catalog_len() - i,
    {
        r.push(catalog_item(i));
        i = i + 1;
    }
    r
}

// ---------------------------------------------------------------------------
// VLNV and the IP-XACT XML form
// ---------------------------------------------------------------------------

/// IEEE 1685 VLNV text `vendor:library:name:version`.
pub open spec fn vlnv_of(v: Seq<char>, l: Seq<char>, n: Seq<char>, ver: Seq<char>) -> Seq<char> {
    v + seq![':'] + l + seq![':'] + n + seq![':'] + ver
}

fn vlnv_string(v: &str, l: &str, n: &str, ver: &str) -> (r: String)
    ensures
        r@ == vlnv_of(v@, l@, n@, ver@),
{
    let mut o = text::chars_of(v);
    o.push(':');
    text::push_str(&mut o, l);
    o.push(':');
    text::push_str(&mut o, n);
    o.push(':');
    text::push_str(&mut o, ver);
    assert(o@ =~= vlnv_of(v@, l@, n@, ver@));
    text::string_of(o.as_slice())
}

impl IpCore {
    /// IEEE 1685 VLNV (`vendor:library:name:version`).
    pub fn vlnv(&self) -> (r: String)
        ensures
            r@ == vlnv_of(self.vendor@, self.library@, self.name@, self.version@),
    {
        vlnv_string(self.vendor.as_str(), self.library.as_str(), self.name.as_str(), self.version.as_str())
    }
}

/// The IP-XACT component text written for `ip`.
pub open spec fn xml_text(ip: IpCore) -> Seq<char> {
    "<?xml version=\"1.0\"?>\n<ipxact:component xmlns:ipxact=\"http://www.accellera.org/XMLSchema/IPXACT/1685-2014\">\n  <ipxact:vendor>"@
        + ip.vendor@ + "</ipxact:vendor>\n  <ipxact:library>"@
        + ip.library@ + "</ipxact:library>\n  <ipxact:name>"@
        + ip.name@ + "</ipxact:name>\n  <ipxact:version>"@
        + ip.version@ + "</ipxact:version>\n  <ipxact:busInterfaces>\n    <ipxact:busInterface>\n      <ipxact:name>s_mm</ipxact:name>\n      <ipxact:description>"@
        + ip.bus@ + "</ipxact:description>\n    </ipxact:busInterface>\n  </ipxact:busInterfaces>\n</ipxact:component>\n"@
}

/// Minimal IP-XACT (IEEE 1685-2014) component for `ip`; the bus is written
/// as the description of its single bus interface.
pub fn to_xml(ip: &IpCore) -> (r: String)
    ensures
        r@ == xml_text(*ip),
{
    let mut o = text::chars_of(
        "<?xml version=\"1.0\"?>\n<ipxact:component xmlns:ipxact=\"http://www.accellera.org/XMLSchema/IPXACT/1685-2014\">\n  <ipxact:vendor>",
    );
    text::push_str(&mut o, ip.vendor.as_str());
    text::push_str(&mut o, "</ipxact:vendor>\n  <ipxact:library>");
    text::push_str(&mut o, ip.library.as_str());
    text::push_str(&mut o, "</ipxact:library>\n  <ipxact:name>");
    text::push_str(&mut o, ip.name.as_str());
    text::push_str(&mut o, "</ipxact:name>\n  <ipxact:version>");
    text::push_str(&mut o, ip.version.as_str());
    text::push_str(
        &mut o,
        "</ipxact:version>\n  <ipxact:busInterfaces>\n    <ipxact:busInterface>\n      <ipxact:name>s_mm</ipxact:name>\n      <ipxact:description>",
    );
    text::push_str(&mut o, ip.bus.as_str());
    text::push_str(
        &mut o,
        "</ipxact:description>\n    </ipxact:busInterface>\n  </ipxact:busInterfaces>\n</ipxact:component>\n",
    );
    text::string_of(o.as_slice())
}

pub open spec fn xml_open(tag: Seq<char>) -> Seq<char> {
    "<ipxact:"@ + tag + seq!['>']
}

pub open spec fn xml_close(tag: Seq<char>) -> Seq<char> {
    "</ipxact:"@ + tag + seq!['>']
}

/// The trimmed text between the first `<ipxact:tag>` and the first
/// `</ipxact:tag>` after it, if both occur.
pub open spec fn xml_grab(x: Seq<char>, tag: Seq<char>) -> Option<Seq<char>> {
    let o = xml_open(tag);
    match text::find_from(x, o, 0) {
        None => None,
        Some(i) => {
            let rest = x.subrange(i + o.len(), x.len() as int);
            match text::find_from(rest, xml_close(tag), 0) {
                None => None,
                Some(j) => Some(text::trim(rest.subrange(0, j))),
            }
        },
    }
}

/// The four VLNV elements are all present.
pub open spec fn xml_complete(x: Seq<char>) -> bool {
    &&& xml_grab(x, "vendor"@) is Some
    &&& xml_grab(x, "library"@) is Some
    &&& xml_grab(x, "name"@) is Some
    &&& xml_grab(x, "version"@) is Some
}

/// The error for the first missing VLNV element.
pub open spec fn xml_missing(x: Seq<char>) -> Seq<char> {
    if xml_grab(x, "vendor"@) is None {
        "missing "@ + "vendor"@
    } else if xml_grab(x, "library"@) is None {
        "missing "@ + "library"@
    } else if xml_grab(x, "name"@) is None {
        "missing "@ + "name"@
    } else {
        "missing "@ + "version"@
    }
}

/// The bus read back: the description, or Helion-MM when there is none.
pub open spec fn xml_bus(x: Seq<char>) -> Seq<char> {
    match xml_grab(x, "description"@) {
        Some(b) => b,
        None => "Helion-MM"@,
    }
}

fn xml_tag(pfx: &str, tag: &str) -> (r: Vec<char>)
    ensures
        r@ == pfx@ + tag@ + seq!['>'],
{
    let mut o = text::chars_of(pfx);
    text::push_str(&mut o, tag);
    let ghost before = o@;
    o.push('>');
    assert(o@ =~= before + seq!['>']);
    o
}

fn grab(x: &Vec<char>, tag: &str) -> (r: Result<String, String>)
    ensures
        match xml_grab(x@, tag@) {
            Some(v) => r matches Ok(s) && s@ == v,
            None => r matches Err(e) && e@ == "missing "@ + tag@,
        },
{
    let o = xml_tag("<ipxact:", tag);
    let c = xml_tag("</ipxact:", tag);
    assert(o@ == xml_open(tag@));
    assert(c@ == xml_close(tag@));
    let f = text::find(x, &o, 0);
    match f {
        None => {},
        Some(i) => {
            assert(text::find_from(x@, o@, 0) == Some(i as int));
            let ol = o.len();
            assert(i + ol <= x.len()) by {
                text::lemma_find_from_some(x@, o@, 0);
            }
            let rest = text::slice(x, i + ol, x.len());
            let g = text::find(&rest, &c, 0);
            match g {
                None => {},
                Some(j) => {
                    assert(text::find_from(rest@, c@, 0) == Some(j as int));
                    let inner = text::slice(&rest, 0, j);
                    let t = text::trim_chars(&inner);
                    return Ok(text::string_of(t.as_slice()));
                },
            }
        },
    }
    let mut m = text::chars_of("missing ");
    text::push_str(&mut m, tag);
    Err(text::string_of(m.as_slice()))
}

/// Reads a core back from [`to_xml`] text. The four VLNV elements are
/// required; a missing description reads as Helion-MM.
pub fn from_xml(xml: &str) -> (r: Result<IpCore, String>)
    ensures
        r is Ok <==> xml_complete(xml@),
        match r {
            Ok(ip) => {
                &&& xml_grab(xml@, "vendor"@) == Some(ip.vendor@)
                &&& xml_grab(xml@, "library"@) == Some(ip.library@)
                &&& xml_grab(xml@, "name"@) == Some(ip.name@)
                &&& xml_grab(xml@, "version"@) == Some(ip.version@)
                &&& ip.bus@ == xml_bus(xml@)
            },
            Err(e) => e@ == xml_missing(xml@),
        },
{
    let x = text::chars_of(xml);
    let vendor = match grab(&x, "vendor") {
        Ok(v) => v,
        Err(e) => return Err(e),
    };
    let library = match grab(&x, "library") {
        Ok(v) => v,
        Err(e) => return Err(e),
    };
    let name = match grab(&x, "name") {
        Ok(v) => v,
        Err(e) => return Err(e),
    };
    let version = match grab(&x, "version") {
        Ok(v) => v,
        Err(e) => return Err(e),
    };
    let bus = match grab(&x, "description") {
        Ok(v) => v,
        Err(_) => text::owned("Helion-MM"),
    };
    Ok(IpCore { vendor, library, name, version, bus })
}

// ---------------------------------------------------------------------------
// `.helion` package manifests
// ---------------------------------------------------------------------------

/// On-disk Helion IP package (`.helion` manifest + relative HDL/XDC files).
/// Smallest honest package: a text manifest, not a zip redesign.
#[derive(Clone, Debug, PartialEq, Eq)]
pub struct HelionPackage {
    pub format: u32,
    pub vendor: String,
    pub library: String,
    pub name: String,
    pub version: String,
    pub bus: String,
    pub top: Option<String>,
    /// HDL sources relative to the `.helion` file (or absolute).
    pub files: Vec<String>,
    /// Optional constraint files relative to the `.helion` file.
    pub constraints: Vec<String>,
    /// Path of the loaded manifest (empty when parsed from a string).
    pub manifest_path: String,
}

pub open spec fn str_views(v: Seq<String>) -> Seq<Seq<char>> {
    Seq::new(v.len(), |i: int| v[i]@)
}

pub open spec fn opt_view(o: Option<String>) -> Option<Seq<char>> {
    match o {
        Some(s) => Some(s@),
        None => None,
    }
}

/// A bus a Helion product speaks: exactly `Helion-MM` or `Helion-ST`.
pub open spec fn is_helion_bus(b: Seq<char>) -> bool {
    b == "Helion-MM"@ || b == "Helion-ST"@
}

fn helion_bus(b: &str) -> (r: bool)
    ensures
        r == is_helion_bus(b@),
{
    text::str_eq(b, "Helion-MM") || text::str_eq(b, "Helion-ST")
}

fn msg3(a: &str, b: &str, c: &str) -> (r: String)
    ensures
        r@ == a@ + b@ + c@,
{
    let mut o = text::chars_of(a);
    text::push_str(&mut o, b);
    text::push_str(&mut o, c);
    text::string_of(o.as_slice())
}

impl HelionPackage {
    pub fn vlnv(&self) -> (r: String)
        ensures
            r@ == vlnv_of(self.vendor@, self.library@, self.name@, self.version@),
    {
        vlnv_string(self.vendor.as_str(), self.library.as_str(), self.name.as_str(), self.version.as_str())
    }

    /// The package as an [`IpCore`]; refused unless its bus is Helion-MM or Helion-ST.
    pub fn to_ip_core(&self) -> (r: Result<IpCore, String>)
        ensures
            !is_helion_bus(self.bus@) ==> (r matches Err(e) && e@ == ".helion "@ + self.name@
                + ": bus must be Helion-MM/Helion-ST (not AXI)"@),
            is_helion_bus(self.bus@) ==> (r matches Ok(ip) && {
                &&& ip.vendor@ == self.vendor@
                &&& ip.library@ == self.library@
                &&& ip.name@ == self.name@
                &&& ip.version@ == self.version@
                &&& ip.bus@ == self.bus@
            }),
    {
        if !helion_bus(self.bus.as_str()) {
            return Err(msg3(".helion ", self.name.as_str(), ": bus must be Helion-MM/Helion-ST (not AXI)"));
        }
        Ok(IpCore {
            vendor: self.vendor.clone(),
            library: self.library.clone(),
            name: self.name.clone(),
            version: self.version.clone(),
            bus: self.bus.clone(),
        })
    }
}

/// What a manifest has_arg said so far, line by line.
pub struct ManifestState {
    pub format: u32,
    pub vendor: Seq<char>,
    pub library: Seq<char>,
    pub name: Seq<char>,
    pub version: Seq<char>,
    pub bus: Seq<char>,
    pub top: Option<Seq<char>>,
    pub files: Seq<Seq<char>>,
    pub constraints: Seq<Seq<char>>,
    pub saw_format: bool,
}

/// Defaults before the first line: `community:helion:<unnamed>:1.0` on Helion-MM.
pub open spec fn manifest_init() -> ManifestState {
    ManifestState {
        format: 1,
        vendor: "community"@,
        library: "helion"@,
        name: Seq::empty(),
        version: "1.0"@,
        bus: "Helion-MM"@,
        top: None,
        files: Seq::empty(),
        constraints: Seq::empty(),
        saw_format: false,
    }
}

pub open spec fn is_file_cmd(c: Seq<char>) -> bool {
    c == "file"@ || c == "read_sv"@ || c == "read_verilog"@ || c == "sv"@ || c == "verilog"@
}

pub open spec fn is_constraint_cmd(c: Seq<char>) -> bool {
    c == "xdc"@ || c == "sdc"@ || c == "read_xdc"@ || c == "read_sdc"@ || c == "constraint"@
}

/// The effect of one manifest line, given its whitespace-separated tokens
/// (after the `#` comment is cut off).
pub open spec fn manifest_step(st: ManifestState, t: Seq<Seq<char>>) -> Result<ManifestState, Seq<char>> {
    if t.len() == 0 {
        Ok(st)
    } else {
        let cmd = t[0];
        let has_arg = t.len() > 1;
        if cmd == "format"@ {
            if !has_arg {
                Err("format: missing version"@)
            } else {
                match text::parse_unsigned(t[1], 0xffff_ffff) {
                    None => Err("format: bad version "@ + t[1]),
                    Some(n) => if n != 1 {
                        Err("unsupported .helion format "@ + text::dec(n))
                    } else {
                        Ok(ManifestState { format: 1, saw_format: true, ..st })
                    },
                }
            }
        } else if cmd == "vendor"@ {
            if has_arg { Ok(ManifestState { vendor: t[1], ..st }) } else { Ok(st) }
        } else if cmd == "library"@ {
            if has_arg { Ok(ManifestState { library: t[1], ..st }) } else { Ok(st) }
        } else if cmd == "name"@ {
            if has_arg { Ok(ManifestState { name: t[1], ..st }) } else { Ok(st) }
        } else if cmd == "version"@ {
            if has_arg { Ok(ManifestState { version: t[1], ..st }) } else { Ok(st) }
        } else if cmd == "bus"@ {
            if has_arg { Ok(ManifestState { bus: t[1], ..st }) } else { Ok(st) }
        } else if cmd == "vlnv"@ {
            if !has_arg {
                Err("vlnv: missing value"@)
            } else {
                let p = crate::ir::split_char_from(t[1], ':', 0);
                if p.len() != 4 {
                    Err("vlnv: expected vendor:library:name:version, got "@ + t[1])
                } else {
                    Ok(ManifestState { vendor: p[0], library: p[1], name: p[2], version: p[3], ..st })
                }
            }
        } else if cmd == "top"@ {
            if has_arg { Ok(ManifestState { top: Some(t[1]), ..st }) } else { Ok(st) }
        } else if is_file_cmd(cmd) {
            if has_arg { Ok(ManifestState { files: st.files.push(t[1]), ..st }) } else { Ok(st) }
        } else if is_constraint_cmd(cmd) {
            if has_arg { Ok(ManifestState { constraints: st.constraints.push(t[1]), ..st }) } else { Ok(st) }
        } else {
            Err(".helion: unknown directive "@ + cmd)
        }
    }
}

/// The tokens of a manifest line.
pub open spec fn line_tokens(l: Seq<char>) -> Seq<Seq<char>> {
    text::words(text::clean_line(l))
}

/// Applies the lines `ls` in order, stopping at the first error.
pub open spec fn manifest_fold(st: ManifestState, ls: Seq<Seq<char>>) -> Result<ManifestState, Seq<char>>
    decreases ls.len(),
{
    if ls.len() == 0 {
        Ok(st)
    } else {
        match manifest_step(st, line_tokens(ls[0])) {
            Err(e) => Err(e),
            Ok(s2) => manifest_fold(s2, ls.drop_first()),
        }
    }
}

/// The outcome of parsing `.helion` text: the final state, or the first error.
pub open spec fn helion_result(t: Seq<char>) -> Result<ManifestState, Seq<char>> {
    match manifest_fold(manifest_init(), text::lines(t)) {
        Err(e) => Err(e),
        Ok(st) => if !st.saw_format {
            Err(".helion: missing `format 1`"@)
        } else if st.name.len() == 0 {
            Err(".helion: missing `name` (or `vlnv`)"@)
        } else if st.files.len() == 0 {
            Err(".helion "@ + st.name + ": no `file` entries"@)
        } else if !is_helion_bus(st.bus) {
            Err(".helion "@ + st.name + ": bus must be Helion-MM/Helion-ST (not AXI as Helion product)"@)
        } else {
            Ok(st)
        },
    }
}

/// `p` holds exactly the state `st`, with no manifest path.
pub open spec fn package_is(p: HelionPackage, st: ManifestState) -> bool {
    &&& p.format == st.format
    &&& p.vendor@ == st.vendor
    &&& p.library@ == st.library
    &&& p.name@ == st.name
    &&& p.version@ == st.version
    &&& p.bus@ == st.bus
    &&& opt_view(p.top) == st.top
    &&& str_views(p.files@) == st.files
    &&& str_views(p.constraints@) == st.constraints
    &&& p.manifest_path@ == Seq::<char>::empty()
}

pub open spec fn char_views(v: Seq<Vec<char>>) -> Seq<Seq<char>> {
    v.map_values(|x: Vec<char>| x@)
}

struct ManifestBuild {
    format: u32,
    vendor: Vec<char>,
    library: Vec<char>,
    name: Vec<char>,
    version: Vec<char>,
    bus: Vec<char>,
    top: Option<Vec<char>>,
    files: Vec<Vec<char>>,
    constraints: Vec<Vec<char>>,
    saw_format: bool,
}

impl ManifestBuild {
    spec fn model(&self) -> ManifestState {
        ManifestState {
            format: self.format,
            vendor: self.vendor@,
            library: self.library@,
            name: self.name@,
            version: self.version@,
            bus: self.bus@,
            top: match self.top {
                Some(v) => Some(v@),
                None => None,
            },
            files: char_views(self.files@),
            constraints: char_views(self.constraints@),
            saw_format: self.saw_format,
        }
    }

    fn new() -> (b: Self)
        ensures
            b.model() == manifest_init(),
    {
        let b = ManifestBuild {
            format: 1,
            vendor: text::chars_of("community"),
            library: text::chars_of("helion"),
            name: Vec::new(),
            version: text::chars_of("1.0"),
            bus: text::chars_of("Helion-MM"),
            top: None,
            files: Vec::new(),
            constraints: Vec::new(),
            saw_format: false,
        };
        assert(char_views(b.files@) =~= Seq::<Seq<char>>::empty());
        assert(char_views(b.constraints@) =~= Seq::<Seq<char>>::empty());
        b
    }
}

fn err_msg(pfx: &str, w: &Vec<char>) -> (r: String)
    ensures
        r@ == pfx@ + w@,
{
    let mut v = text::chars_of(pfx);
    text::push_chars(&mut v, w);
    text::string_of(v.as_slice())
}

fn copy_chars(v: &Vec<char>) -> (r: Vec<char>)
    ensures
        r@ == v@,
{
    text::slice(v, 0, v.len())
}

fn manifest_apply(b: &mut ManifestBuild, t: &Vec<Vec<char>>) -> (r: Result<(), String>)
    ensures
        match manifest_step(old(b).model(), char_views(t@)) {
            Ok(s) => r is Ok && final(b).model() == s,
            Err(e) => r matches Err(m) && m@ == e,
        },
{
    let ghost tv = char_views(t@);
    if t.len() == 0 {
        return Ok(());
    }
    let cmd = &t[0];
    assert(tv[0] == cmd@);
    let has_arg = t.len() > 1;
    if text::eq_str(cmd, "format") {
        if !has_arg {
            return Err(text::owned("format: missing version"));
        }
        assert(tv[1] == t@[1]@);
        match text::parse_uint(&t[1], 0xffff_ffff) {
            None => return Err(err_msg("format: bad version ", &t[1])),
            Some(n) => {
                if n != 1 {
                    let mut m = text::chars_of("unsupported .helion format ");
                    text::push_u64(&mut m, n);
                    return Err(text::string_of(m.as_slice()));
                }
                b.format = 1;
                b.saw_format = true;
            },
        }
    } else if text::eq_str(cmd, "vendor") {
        if has_arg {
            assert(tv[1] == t@[1]@);
            b.vendor = copy_chars(&t[1]);
        }
    } else if text::eq_str(cmd, "library") {
        if has_arg {
            assert(tv[1] == t@[1]@);
            b.library = copy_chars(&t[1]);
        }
    } else if text::eq_str(cmd, "name") {
        if has_arg {
            assert(tv[1] == t@[1]@);
            b.name = copy_chars(&t[1]);
        }
    } else if text::eq_str(cmd, "version") {
        if has_arg {
            assert(tv[1] == t@[1]@);
            b.version = copy_chars(&t[1]);
        }
    } else if text::eq_str(cmd, "bus") {
        if has_arg {
            assert(tv[1] == t@[1]@);
            b.bus = copy_chars(&t[1]);
        }
    } else if text::eq_str(cmd, "vlnv") {
        if !has_arg {
            return Err(text::owned("vlnv: missing value"));
        }
        assert(tv[1] == t@[1]@);
        let p = crate::ir::split_on(&t[1], ':');
        if p.len() != 4 {
            return Err(err_msg("vlnv: expected vendor:library:name:version, got ", &t[1]));
        }
        let ghost pv = p@.map_values(|x: Vec<char>| x@);
        assert(pv[0] == p@[0]@ && pv[1] == p@[1]@ && pv[2] == p@[2]@ && pv[3] == p@[3]@);
        b.vendor = copy_chars(&p[0]);
        b.library = copy_chars(&p[1]);
        b.name = copy_chars(&p[2]);
        b.version = copy_chars(&p[3]);
    } else if text::eq_str(cmd, "top") {
        if has_arg {
            assert(tv[1] == t@[1]@);
            b.top = Some(copy_chars(&t[1]));
        }
    } else if text::eq_str(cmd, "file") || text::eq_str(cmd, "read_sv") || text::eq_str(cmd, "read_verilog")
        || text::eq_str(cmd, "sv") || text::eq_str(cmd, "verilog") {
        if has_arg {
            assert(tv[1] == t@[1]@);
            let ghost before = char_views(b.files@);
            b.files.push(copy_chars(&t[1]));
            assert(char_views(b.files@) =~= before.push(tv[1]));
        }
    } else if text::eq_str(cmd, "xdc") || text::eq_str(cmd, "sdc") || text::eq_str(cmd, "read_xdc")
        || text::eq_str(cmd, "read_sdc") || text::eq_str(cmd, "constraint") {
        if has_arg {
            assert(tv[1] == t@[1]@);
            let ghost before = char_views(b.constraints@);
            b.constraints.push(copy_chars(&t[1]));
            assert(char_views(b.constraints@) =~= before.push(tv[1]));
        }
    } else {
        return Err(err_msg(".helion: unknown directive ", cmd));
    }
    Ok(())
}

fn strings_of(v: &Vec<Vec<char>>) -> (r: Vec<String>)
    ensures
        str_views(r@) == char_views(v@),
{
    let mut r: Vec<String> = Vec::new();
    let mut i: usize = 0;
    while i < v.len()
        invariant
            i <= v@.len(),
            r@.len() == i,
            forall|k: int| 0 <= k < i ==> (#[trigger] r@[k])@ == v@[k]@,
        decreases v@.len() - i,
    {
        r.push(text::string_of(v[i].as_slice()));
        i = i + 1;
    }
    assert(str_views(r@) =~= char_views(v@));
    r
}

/// Parses a `.helion` IP package manifest (text, format 1):
///
/// ```text
/// format 1
/// vendor community
/// library helion
/// name h_gpio
/// version 1.0
/// bus Helion-MM
/// top h_gpio
/// file h_gpio.v
/// xdc pins.xdc          # optional
/// ```
pub fn parse_helion(text_in: &str) -> (r: Result<HelionPackage, String>)
    ensures
        match helion_result(text_in@) {
            Ok(st) => r matches Ok(p) && package_is(p, st),
            Err(e) => r matches Err(m) && m@ == e,
        },
{
    let all = text::chars_of(text_in);
    let lines = text::split_lines(&all);
    let ghost ls = text::lines(all@);
    let mut b = ManifestBuild::new();
    let mut li: usize = 0;
    assert(ls.subrange(0, ls.len() as int) =~= ls);
    while li < lines.len()
        invariant
            li <= lines@.len(),
            lines@.len() == ls.len(),
            ls == text::lines(all@),
            all@ == text_in@,
            forall|k: int| 0 <= k < lines@.len() ==> (#[trigger] lines@[k])@ == ls[k],
            manifest_fold(manifest_init(), ls) == manifest_fold(b.model(), ls.subrange(li as int, ls.len() as int)),
        decreases lines@.len() - li,
    {
        let line = text::clean(&lines[li]);
        let toks = text::split_words(&line);
        proof {
            assert(char_views(toks@) =~= line_tokens(ls[li as int]));
            let rest = ls.subrange(li as int, ls.len() as int);
            assert(rest[0] == ls[li as int]);
            assert(rest.drop_first() =~= ls.subrange(li + 1, ls.len() as int));
        }
        match manifest_apply(&mut b, &toks) {
            Ok(()) => {},
            Err(e) => return Err(e),
        }
        li = li + 1;
    }
    assert(ls.subrange(li as int, ls.len() as int) =~= Seq::<Seq<char>>::empty());
    if !b.saw_format {
        return Err(text::owned(".helion: missing `format 1`"));
    }
    if b.name.len() == 0 {
        return Err(text::owned(".helion: missing `name` (or `vlnv`)"));
    }
    if b.files.len() == 0 {
        let mut m = text::chars_of(".helion ");
        text::push_chars(&mut m, &b.name);
        text::push_str(&mut m, ": no `file` entries");
        return Err(text::string_of(m.as_slice()));
    }
    let bus = text::string_of(b.bus.as_slice());
    if !helion_bus(bus.as_str()) {
        let mut m = text::chars_of(".helion ");
        text::push_chars(&mut m, &b.name);
        text::push_str(&mut m, ": bus must be Helion-MM/Helion-ST (not AXI as Helion product)");
        return Err(text::string_of(m.as_slice()));
    }
    let top = match &b.top {
        Some(t) => Some(text::string_of(t.as_slice())),
        None => None,
    };
    Ok(HelionPackage {
        format: b.format,
        vendor: text::string_of(b.vendor.as_slice()),
        library: text::string_of(b.library.as_slice()),
        name: text::string_of(b.name.as_slice()),
        version: text::string_of(b.version.as_slice()),
        bus,
        top,
        files: strings_of(&b.files),
        constraints: strings_of(&b.constraints),
        manifest_path: String::new(),
    })
}

/// The `file` lines of a manifest, in order.
pub open spec fn file_lines(fs: Seq<Seq<char>>) -> Seq<char>
    decreases fs.len(),
{
    if fs.len() == 0 {
        Seq::empty()
    } else {
        file_lines(fs.drop_last()) + "file "@ + fs.last() + seq!['\n']
    }
}

/// The format-1 manifest text written for `ip`, an optional top and files.
pub open spec fn manifest_text(ip: IpCore, top: Option<Seq<char>>, files: Seq<Seq<char>>) -> Seq<char> {
    "# Helion IP package (format 1)\nformat 1\n"@ + "vlnv "@ + vlnv_of(ip.vendor@, ip.library@, ip.name@, ip.version@)
        + seq!['\n'] + "bus "@ + ip.bus@ + seq!['\n'] + match top {
        Some(t) => "top "@ + t + seq!['\n'],
        None => Seq::empty(),
    } + file_lines(files)
}

/// Emits a format-1 `.helion` manifest body for an IpCore + file list.
pub fn to_helion_manifest(ip: &IpCore, top: Option<&str>, files: &[&str]) -> (r: String)
    ensures
        r@ == manifest_text(
            *ip,
            match top {
                Some(t) => Some(t@),
                None => None,
            },
            files@.map_values(|f: &str| f@),
        ),
{
    let mut s = text::chars_of("# Helion IP package (format 1)\nformat 1\n");
    let ghost s0 = s@;
    text::push_str(&mut s, "vlnv ");
    let v = ip.vlnv();
    text::push_str(&mut s, v.as_str());
    s.push('\n');
    text::push_str(&mut s, "bus ");
    text::push_str(&mut s, ip.bus.as_str());
    s.push('\n');
    let ghost tv: Option<Seq<char>> = match top {
        Some(t) => Some(t@),
        None => None,
    };
    let ghost head = s0 + "vlnv "@ + vlnv_of(ip.vendor@, ip.library@, ip.name@, ip.version@) + seq!['\n']
        + "bus "@ + ip.bus@ + seq!['\n'];
    assert(s@ =~= head);
    match top {
        Some(t) => {
            text::push_str(&mut s, "top ");
            text::push_str(&mut s, t);
            s.push('\n');
        },
        None => {},
    }
    let ghost tl: Seq<char> = match tv {
        Some(t) => "top "@ + t + seq!['\n'],
        None => Seq::empty(),
    };
    assert(s@ =~= head + tl);
    let ghost fv = files@.map_values(|f: &str| f@);
    let mut i: usize = 0;
    while i < files.len()
        invariant
            i <= files@.len(),
            fv == files@.map_values(|f: &str| f@),
            s@ == head + tl + file_lines(fv.subrange(0, i as int)),
        decreases files@.len() - i,
    {
        let ghost before = s@;
        text::push_str(&mut s, "file ");
        text::push_str(&mut s, files[i]);
        s.push('\n');
        proof {
            let pre = fv.subrange(0, i + 1);
            assert(pre.drop_last() =~= fv.subrange(0, i as int));
            assert(pre.last() == files@[i as int]@);
            assert(s@ =~= before + "file "@ + pre.last() + seq!['\n']);
        }
        i = i + 1;
    }
    assert(fv.subrange(0, files@.len() as int) =~= fv);
    assert(s@ =~= manifest_text(*ip, tv, fv));
    text::string_of(s.as_slice())
}

/// No catalog core is an AXI core: every bus is Helion-MM or Helion-ST.
pub proof fn catalog_is_never_axi(i: int)
    requires
        0 <= i < catalog_len(),
    ensures
        catalog_entry(i).1 == "Helion-MM"@ || catalog_entry(i).1 == "Helion-ST"@,
        is_helion_bus(catalog_entry(i).1),
{
}


// ---------------------------------------------------------------------------
// Manifest round trip
// ---------------------------------------------------------------------------

/// The lines of [`manifest_text`], without their newlines.
pub open spec fn manifest_lines(ip: IpCore, top: Option<Seq<char>>, files: Seq<Seq<char>>) -> Seq<Seq<char>> {
    seq![
        "# Helion IP package (format 1)"@,
        "format 1"@,
        "vlnv "@ + vlnv_of(ip.vendor@, ip.library@, ip.name@, ip.version@),
        "bus "@ + ip.bus@,
    ] + match top {
        Some(t) => seq!["top "@ + t],
        None => Seq::empty(),
    } + files.map_values(|f: Seq<char>| "file "@ + f)
}

proof fn lemma_file_lines(fs: Seq<Seq<char>>)
    ensures
        file_lines(fs) == crate::hnf::nl_join(fs.map_values(|f: Seq<char>| "file "@ + f)),
    decreases fs.len(),
{
    if fs.len() > 0 {
        lemma_file_lines(fs.drop_last());
        assert(fs.map_values(|f: Seq<char>| "file "@ + f).drop_last() =~= fs.drop_last().map_values(|f: Seq<char>| "file "@ + f));
    } else {
        assert(fs.map_values(|f: Seq<char>| "file "@ + f) =~= Seq::<Seq<char>>::empty());
    }
}

proof fn lemma_manifest_text(ip: IpCore, top: Option<Seq<char>>, files: Seq<Seq<char>>)
    ensures
        manifest_text(ip, top, files) == crate::hnf::nl_join(manifest_lines(ip, top, files)),
{
    reveal_strlit("# Helion IP package (format 1)\nformat 1\n");
    reveal_strlit("# Helion IP package (format 1)");
    reveal_strlit("format 1");
    let head = seq![
        "# Helion IP package (format 1)"@,
        "format 1"@,
        "vlnv "@ + vlnv_of(ip.vendor@, ip.library@, ip.name@, ip.version@),
        "bus "@ + ip.bus@,
    ];
    let tl: Seq<Seq<char>> = match top {
        Some(t) => seq!["top "@ + t],
        None => Seq::empty(),
    };
    let fl = files.map_values(|f: Seq<char>| "file "@ + f);
    crate::hnf::lemma_nl_join_append(head, tl);
    crate::hnf::lemma_nl_join_append(head + tl, fl);
    lemma_file_lines(files);
    let c = "# Helion IP package (format 1)"@;
    let f1 = "format 1"@;
    let v = "vlnv "@ + vlnv_of(ip.vendor@, ip.library@, ip.name@, ip.version@);
    let b = "bus "@ + ip.bus@;
    reveal_strlit("\n");
    crate::hnf::lemma_nl_one(c);
    assert(seq![c, f1].drop_last() =~= seq![c]);
    assert(crate::hnf::nl_join(seq![c, f1]) == crate::hnf::nl_join(seq![c]) + f1 + seq!['\n']);
    assert(seq![c, f1, v].drop_last() =~= seq![c, f1]);
    assert(crate::hnf::nl_join(seq![c, f1, v]) == crate::hnf::nl_join(seq![c, f1]) + v + seq!['\n']);
    assert(head.drop_last() =~= seq![c, f1, v]);
    assert(crate::hnf::nl_join(head) == crate::hnf::nl_join(seq![c, f1, v]) + b + seq!['\n']);
    assert("# Helion IP package (format 1)\nformat 1\n"@ =~= c + "\n"@ + f1 + seq!['\n']);
    assert(crate::hnf::nl_join(head) =~= "# Helion IP package (format 1)\nformat 1\n"@ + v + seq!['\n'] + b + seq!['\n']);
    match top {
        Some(t) => {
            crate::hnf::lemma_nl_one("top "@ + t);
            assert(crate::hnf::nl_join(tl) =~= "top "@ + t + seq!['\n']);
        },
        None => {
            assert(crate::hnf::nl_join(tl) =~= Seq::<char>::empty());
        },
    }
    assert(manifest_text(ip, top, files) =~= crate::hnf::nl_join(head) + crate::hnf::nl_join(tl) + crate::hnf::nl_join(fl));
}


/// A manifest field: one word, with no `#` and no `:`.
pub open spec fn manifest_field(t: Seq<char>) -> bool {
    crate::prj_file::word(t) && crate::hnf::lacks(t, ':')
}

/// Reading `a` then `b` is reading `a + b`.
proof fn lemma_manifest_fold_append(st: ManifestState, a: Seq<Seq<char>>, b: Seq<Seq<char>>)
    ensures
        manifest_fold(st, a + b) == match manifest_fold(st, a) {
            Err(e) => Err(e),
            Ok(s2) => manifest_fold(s2, b),
        },
    decreases a.len(),
{
    if a.len() == 0 {
        assert(a + b =~= b);
    } else {
        assert((a + b).drop_first() =~= a.drop_first() + b);
        assert((a + b)[0] == a[0]);
        match manifest_step(st, line_tokens(a[0])) {
            Err(e) => {},
            Ok(s2) => {
                lemma_manifest_fold_append(s2, a.drop_first(), b);
            },
        }
    }
}

proof fn lemma_manifest_fold_one(st: ManifestState, l: Seq<char>)
    ensures
        manifest_fold(st, seq![l]) == manifest_step(st, line_tokens(l)),
{
    assert(seq![l].drop_first() =~= Seq::<Seq<char>>::empty());
    match manifest_step(st, line_tokens(l)) {
        Err(e) => {},
        Ok(s2) => {
            assert(manifest_fold(s2, Seq::<Seq<char>>::empty()) == Ok::<ManifestState, Seq<char>>(s2));
        },
    }
}

/// `kw x` reads as the tokens `kw`, `x`.
proof fn lemma_manifest_kw(kw: Seq<char>, x: Seq<char>)
    requires
        crate::prj_file::word(kw),
        crate::prj_file::word(x),
    ensures
        line_tokens(kw + seq![' '] + x) == seq![kw, x],
        crate::hnf::spaced(kw + seq![' '] + x),
{
    crate::prj_file::lemma_kw_line(kw, x);
}


proof fn lemma_word_from(t: Seq<char>)
    requires
        t.len() > 0,
        forall|i: int| 0 <= i < t.len() ==> !text::is_ws(#[trigger] t[i]) && t[i] != '#',
    ensures
        crate::prj_file::word(t),
{
}

proof fn lemma_split_last(a: Seq<char>)
    requires
        crate::hnf::lacks(a, ':'),
    ensures
        crate::ir::split_char_from(a, ':', 0) == seq![a],
{
    crate::hnf::lemma_find_before(a, ':', Seq::<char>::empty(), 0);
    assert(a + Seq::<char>::empty() =~= a);
    assert(a.subrange(0, a.len() as int) =~= a);
}

proof fn lemma_split_front(a: Seq<char>, r: Seq<char>)
    requires
        crate::hnf::lacks(a, ':'),
    ensures
        crate::ir::split_char_from(a + (seq![':'] + r), ':', 0) == seq![a] + crate::ir::split_char_from(r, ':', 0),
{
    let s = a + (seq![':'] + r);
    crate::hnf::lemma_find_before(a, ':', seq![':'] + r, 0);
    assert(s.subrange(0, a.len() as int) =~= a);
    assert(s =~= (a + seq![':']) + r);
    crate::hnf::lemma_split_shift(a + seq![':'], r, ':', 0);
}

/// The parts of `v:l:n:ver` split at `:`.
proof fn lemma_vlnv_split(v: Seq<char>, l: Seq<char>, n: Seq<char>, ver: Seq<char>)
    requires
        crate::hnf::lacks(v, ':'),
        crate::hnf::lacks(l, ':'),
        crate::hnf::lacks(n, ':'),
        crate::hnf::lacks(ver, ':'),
    ensures
        crate::ir::split_char_from(vlnv_of(v, l, n, ver), ':', 0) == seq![v, l, n, ver],
{
    let x = vlnv_of(v, l, n, ver);
    let r2 = n + (seq![':'] + ver);
    let r1 = l + (seq![':'] + r2);
    lemma_split_last(ver);
    lemma_split_front(n, ver);
    lemma_split_front(l, r2);
    lemma_split_front(v, r1);
    assert(x =~= v + (seq![':'] + r1));
    assert(seq![v] + (seq![l] + (seq![n] + seq![ver])) =~= seq![v, l, n, ver]);
}

proof fn lemma_files_fold(st: ManifestState, fs: Seq<Seq<char>>)
    requires
        forall|i: int| 0 <= i < fs.len() ==> crate::prj_file::word(#[trigger] fs[i]),
    ensures
        manifest_fold(st, fs.map_values(|f: Seq<char>| "file "@ + f)) == Ok::<ManifestState, Seq<char>>(
            ManifestState { files: st.files + fs, ..st },
        ),
    decreases fs.len(),
{
    reveal_strlit("file ");
    reveal_strlit("file");
    reveal_strlit("format");
    reveal_strlit("vendor");
    reveal_strlit("library");
    reveal_strlit("name");
    reveal_strlit("version");
    reveal_strlit("bus");
    reveal_strlit("vlnv");
    reveal_strlit("top");
    if fs.len() == 0 {
        assert(fs.map_values(|f: Seq<char>| "file "@ + f) =~= Seq::<Seq<char>>::empty());
        assert(st.files + fs =~= st.files);
        assert(ManifestState { files: st.files, ..st } == st);
    } else {
        let a = fs.drop_last();
        let f = fs.last();
        assert forall|i: int| 0 <= i < a.len() implies crate::prj_file::word(#[trigger] a[i]) by {
            assert(a[i] == fs[i]);
        }
        lemma_files_fold(st, a);
        let ls = fs.map_values(|x: Seq<char>| "file "@ + x);
        assert(ls =~= a.map_values(|x: Seq<char>| "file "@ + x) + seq!["file "@ + f]);
        lemma_manifest_fold_append(st, a.map_values(|x: Seq<char>| "file "@ + x), seq!["file "@ + f]);
        let s1 = ManifestState { files: st.files + a, ..st };
        lemma_manifest_fold_one(s1, "file "@ + f);
        assert("file "@ =~= "file"@ + seq![' ']);
        assert(crate::prj_file::word("file"@)) by {
            lemma_word_from("file"@);
        }
        assert(crate::prj_file::word(fs[fs.len() - 1]));
        lemma_manifest_kw("file"@, f);
        assert(is_file_cmd("file"@));
        assert(s1.files.push(f) =~= st.files + fs);
    }
}

/// A manifest written by [`to_helion_manifest`] reads back as the core, its
/// top and its files: VLNV fields that are single words without `#` or `:`,
/// a Helion bus, a top and file names that are single words without `#`,
/// and at least one file.
pub proof fn manifest_round_trip(ip: IpCore, top: Option<Seq<char>>, files: Seq<Seq<char>>)
    requires
        manifest_field(ip.vendor@),
        manifest_field(ip.library@),
        manifest_field(ip.name@),
        manifest_field(ip.version@),
        is_helion_bus(ip.bus@),
        top matches Some(t) ==> crate::prj_file::word(t),
        files.len() > 0,
        forall|i: int| 0 <= i < files.len() ==> crate::prj_file::word(#[trigger] files[i]),
    ensures
        helion_result(manifest_text(ip, top, files)) == Ok::<ManifestState, Seq<char>>(
            ManifestState {
                format: 1,
                vendor: ip.vendor@,
                library: ip.library@,
                name: ip.name@,
                version: ip.version@,
                bus: ip.bus@,
                top,
                files,
                constraints: Seq::empty(),
                saw_format: true,
            },
        ),
{
    reveal_strlit("# Helion IP package (format 1)");
    reveal_strlit("format 1");
    reveal_strlit("format");
    reveal_strlit("1");
    reveal_strlit("vlnv ");
    reveal_strlit("vlnv");
    reveal_strlit("bus ");
    reveal_strlit("bus");
    reveal_strlit("top ");
    reveal_strlit("top");
    reveal_strlit("file ");
    reveal_strlit("file");
    reveal_strlit("vendor");
    reveal_strlit("library");
    reveal_strlit("name");
    reveal_strlit("version");
    reveal_strlit("Helion-MM");
    reveal_strlit("Helion-ST");
    let c = "# Helion IP package (format 1)"@;
    let vl = vlnv_of(ip.vendor@, ip.library@, ip.name@, ip.version@);
    let head = seq![c, "format 1"@, "vlnv "@ + vl, "bus "@ + ip.bus@];
    let tl: Seq<Seq<char>> = match top {
        Some(t) => seq!["top "@ + t],
        None => Seq::empty(),
    };
    let fl = files.map_values(|f: Seq<char>| "file "@ + f);
    let ls = manifest_lines(ip, top, files);
    lemma_manifest_text(ip, top, files);
    // words
    lemma_word_from("format"@);
    lemma_word_from("1"@);
    lemma_word_from("vlnv"@);
    lemma_word_from("bus"@);
    lemma_word_from("top"@);
    lemma_word_from("file"@);
    assert(crate::prj_file::word(vl)) by {
        assert forall|i: int| 0 <= i < vl.len() implies !text::is_ws(#[trigger] vl[i]) && vl[i] != '#' by {
            let a = ip.vendor@;
            let b = ip.library@;
            let n = ip.name@;
            let v = ip.version@;
            if i < a.len() {
                assert(vl[i] == a[i]);
            } else if i == a.len() {
            } else if i < a.len() + 1 + b.len() {
                assert(vl[i] == b[i - a.len() - 1]);
            } else if i == a.len() + 1 + b.len() {
            } else if i < a.len() + 2 + b.len() + n.len() {
                assert(vl[i] == n[i - a.len() - 2 - b.len()]);
            } else if i == a.len() + 2 + b.len() + n.len() {
            } else {
                assert(vl[i] == v[i - a.len() - 3 - b.len() - n.len()]);
            }
        }
        lemma_word_from(vl);
    }
    assert(crate::prj_file::word(ip.bus@)) by {
        lemma_word_from(ip.bus@);
    }
    assert("format 1"@ =~= "format"@ + seq![' '] + "1"@);
    assert("vlnv "@ + vl =~= "vlnv"@ + seq![' '] + vl);
    assert("bus "@ + ip.bus@ =~= "bus"@ + seq![' '] + ip.bus@);
    lemma_manifest_kw("format"@, "1"@);
    lemma_manifest_kw("vlnv"@, vl);
    lemma_manifest_kw("bus"@, ip.bus@);
    // lines
    assert forall|i: int| 0 <= i < c.len() implies (#[trigger] c[i]) == ' ' || !text::is_ws(c[i]) by {}
    assert forall|i: int| 0 <= i < ls.len() implies crate::hnf::spaced(#[trigger] ls[i]) by {
        if i == 0 {
        } else if i == 1 {
        } else if i == 2 {
        } else if i == 3 {
        } else if i < 4 + tl.len() {
            match top {
                Some(t) => {
                    assert("top "@ + t =~= "top"@ + seq![' '] + t);
                    lemma_manifest_kw("top"@, t);
                },
                None => {},
            }
        } else {
            let k = i - 4 - tl.len();
            assert(ls[i] == fl[k]);
            assert(crate::prj_file::word(files[k]));
            assert("file "@ + files[k] =~= "file"@ + seq![' '] + files[k]);
            lemma_manifest_kw("file"@, files[k]);
        }
    }
    crate::hnf::lemma_lines_nl_join(ls);
    // reading them
    let s0 = manifest_init();
    assert(line_tokens(c) == Seq::<Seq<char>>::empty()) by {
        text::lemma_find_char_ge(c, '#', 0);
        assert(text::before_char(c, '#') =~= Seq::<char>::empty());
        assert(text::trim(Seq::<char>::empty()) =~= Seq::<char>::empty());
    }
    crate::prj_file::lemma_parse_dec(1, 0xffff_ffff);
    assert(text::dec(1) =~= "1"@);
    lemma_vlnv_split(ip.vendor@, ip.library@, ip.name@, ip.version@);
    let s1 = ManifestState { format: 1, saw_format: true, ..s0 };
    let s2 = ManifestState { vendor: ip.vendor@, library: ip.library@, name: ip.name@, version: ip.version@, ..s1 };
    let s3 = ManifestState { bus: ip.bus@, ..s2 };
    let s4 = ManifestState { top, ..s3 };
    assert(head =~= seq![c] + seq!["format 1"@] + seq!["vlnv "@ + vl] + seq!["bus "@ + ip.bus@]);
    lemma_manifest_fold_append(s0, seq![c] + seq!["format 1"@] + seq!["vlnv "@ + vl], seq!["bus "@ + ip.bus@]);
    lemma_manifest_fold_append(s0, seq![c] + seq!["format 1"@], seq!["vlnv "@ + vl]);
    lemma_manifest_fold_append(s0, seq![c], seq!["format 1"@]);
    lemma_manifest_fold_one(s0, c);
    lemma_manifest_fold_one(s0, "format 1"@);
    lemma_manifest_fold_one(s1, "vlnv "@ + vl);
    lemma_manifest_fold_one(s2, "bus "@ + ip.bus@);
    assert(manifest_fold(s0, head) == Ok::<ManifestState, Seq<char>>(s3));
    match top {
        Some(t) => {
            assert("top "@ + t =~= "top"@ + seq![' '] + t);
            lemma_manifest_kw("top"@, t);
            lemma_manifest_fold_one(s3, "top "@ + t);
        },
        None => {
            assert(manifest_fold(s3, tl) == Ok::<ManifestState, Seq<char>>(s3));
        },
    }
    assert(manifest_fold(s3, tl) == Ok::<ManifestState, Seq<char>>(s4));
    lemma_files_fold(s4, files);
    assert(s4.files + files =~= files);
    assert(ls =~= head + tl + fl);
    lemma_manifest_fold_append(s0, head, tl);
    lemma_manifest_fold_append(s0, head + tl, fl);
    assert(s4.constraints =~= Seq::<Seq<char>>::empty());
}

} // verus!
