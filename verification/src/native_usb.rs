//! FTDI probe descriptors for native USB enumeration (VID 0x0403).
//!
//! Enumeration is detect-only: listing a probe never counts as program DONE.
//! This build carries no USB driver, so enumeration reports no probes and
//! says why; programming stays with openFPGALoader (or the sim TAP).

use vstd::prelude::*;
use crate::text;

verus! {

/// FTDI USB vendor ID (Future Technology Devices International).
pub const FTDI_VID: u16 = 0x0403;

/// Common FT2232H dual-channel PID used on many JTAG bring-up cables.
pub const FTDI_PID_FT2232H: u16 = 0x6010;

/// One FTDI device seen on the bus.
#[derive(Clone, Debug, PartialEq, Eq)]
pub struct FtdiDeviceInfo {
    pub bus: u8,
    pub address: u8,
    pub vid: u16,
    pub pid: u16,
    pub manufacturer: Option<String>,
    pub product: Option<String>,
    pub serial: Option<String>,
}

/// ` <label><value>` when the value is present.
pub open spec fn opt_field(label: Seq<char>, v: Option<String>) -> Seq<char> {
    match v {
        Some(s) => seq![' '] + label + s@,
        None => Seq::empty(),
    }
}

/// The detect listing line of a device.
pub open spec fn ftdi_detail(d: FtdiDeviceInfo) -> Seq<char> {
    "native-rusb FTDI vid="@ + text::hex_padded(d.vid as nat, 6) + " pid="@ + text::hex_padded(d.pid as nat, 6)
        + " bus="@ + text::dec(d.bus as nat) + " addr="@ + text::dec(d.address as nat)
        + opt_field("mfr="@, d.manufacturer) + opt_field("product="@, d.product)
        + opt_field("serial="@, d.serial) + " detect-only (no program DONE claimed)"@
}

fn push_opt(out: &mut Vec<char>, label: &str, v: &Option<String>)
    ensures
        final(out)@ == old(out)@ + opt_field(label@, *v),
{
    match v {
        Some(s) => {
            let ghost o = out@;
            out.push(' ');
            text::push_str(out, label);
            text::push_str(out, s.as_str());
            assert(out@ =~= o + opt_field(label@, *v));
        },
        None => {
            assert(out@ =~= old(out)@ + opt_field(label@, *v));
        },
    }
}

impl FtdiDeviceInfo {
    /// Short stable name for detect listings (`ftdi-<bus>-<addr>`).
    pub fn name(&self) -> (r: String)
        ensures
            r@ == "ftdi-"@ + text::dec(self.bus as nat) + seq!['-'] + text::dec(self.address as nat),
    {
        let mut o = text::chars_of("ftdi-");
        text::push_u64(&mut o, self.bus as u64);
        let ghost m = o@;
        o.push('-');
        text::push_u64(&mut o, self.address as u64);
        assert(o@ =~= "ftdi-"@ + text::dec(self.bus as nat) + seq!['-'] + text::dec(self.address as nat));
        text::string_of(o.as_slice())
    }

    /// Human detail line (never implies program success).
    pub fn detail(&self) -> (r: String)
        ensures
            r@ == ftdi_detail(*self),
    {
        let mut o = text::chars_of("native-rusb FTDI vid=");
        text::push_hex_padded(&mut o, self.vid as u64, 6);
        text::push_str(&mut o, " pid=");
        text::push_hex_padded(&mut o, self.pid as u64, 6);
        text::push_str(&mut o, " bus=");
        text::push_u64(&mut o, self.bus as u64);
        text::push_str(&mut o, " addr=");
        text::push_u64(&mut o, self.address as u64);
        push_opt(&mut o, "mfr=", &self.manufacturer);
        push_opt(&mut o, "product=", &self.product);
        push_opt(&mut o, "serial=", &self.serial);
        text::push_str(&mut o, " detect-only (no program DONE claimed)");
        assert(o@ =~= ftdi_detail(*self));
        text::string_of(o.as_slice())
    }
}

/// Result of FTDI enumeration.
#[derive(Clone, Debug, PartialEq, Eq)]
pub struct NativeUsbScan {
    pub probes: Vec<FtdiDeviceInfo>,
    pub note: String,
    /// Whether this build carries the native USB driver.
    pub feature_enabled: bool,
}

/// Whether this build carries the native USB driver (it does not).
pub fn feature_enabled() -> (r: bool)
    ensures
        !r,
{
    false
}

/// Enumerates FTDI devices. Without the native driver there are none, and
/// the note says the openFPGALoader path stays active. Never fabricates a
/// device; never claims DONE.
pub fn enumerate_ftdi() -> (r: NativeUsbScan)
    ensures
        r.probes@.len() == 0,
        !r.feature_enabled,
        r.note@ == "usb-native feature disabled — FTDI rusb enumeration off; use openFPGALoader --scan-usb / --cable ofl|usb"@,
{
    NativeUsbScan {
        probes: Vec::new(),
        note: text::owned(
            "usb-native feature disabled — FTDI rusb enumeration off; use openFPGALoader --scan-usb / --cable ofl|usb",
        ),
        feature_enabled: false,
    }
}

} // verus!
