//! Graph static timing: clocks, unit-delay timing of a netlist, HAD pad
//! delays, UG903 timing constraints (XDC/SDC) and the UG949 clock interaction
//! report.

use vstd::prelude::*;
use crate::text;
use crate::ir::{CellKind, Design, DesignModel, PortDir, PortModel, design_model, first_port};

verus! {

#[derive(Clone, Debug)]
pub struct Clock {
    pub name: String,
    pub period_ps: u64,
    pub source: String,
    pub generated: bool,
    pub master: Option<String>,
    pub divide_by: u32,
}

#[derive(Clone, Debug)]
pub struct TimingResult {
    pub clocks: Vec<Clock>,
    pub wns_ps: i64,
    pub tns_ps: i64,
    pub endpoints: usize,
    pub r2r_ps: i64,
    pub iob_ps: i64,
    pub setup_ps: i64,
    pub hold_ps: i64,
    pub hold_slack_ps: i64,
    pub route_ps: i64,
    /// Routed clock-network insertion (ps). Applied to WNS only with `set_propagated_clock`.
    pub clk_net_ps: i64,
}

pub open spec fn opt_view(o: Option<String>) -> Option<Seq<char>> {
    match o {
        Some(s) => Some(s@),
        None => None,
    }
}

/// `k` and `c` hold the same clock.
pub open spec fn same_clock(k: Clock, c: Clock) -> bool {
    &&& k.name@ == c.name@
    &&& k.period_ps == c.period_ps
    &&& k.source@ == c.source@
    &&& k.generated == c.generated
    &&& opt_view(k.master) == opt_view(c.master)
    &&& k.divide_by == c.divide_by
}

pub open spec fn same_clocks(a: Seq<Clock>, b: Seq<Clock>) -> bool {
    &&& a.len() == b.len()
    &&& forall|i: int| 0 <= i < a.len() ==> same_clock(#[trigger] a[i], b[i])
}

fn copy_opt(o: &Option<String>) -> (r: Option<String>)
    ensures
        opt_view(r) == opt_view(*o),
{
    match o {
        Some(s) => Some(s.clone()),
        None => None,
    }
}

pub fn copy_clock(c: &Clock) -> (r: Clock)
    ensures
        same_clock(r, *c),
{
    Clock {
        name: c.name.clone(),
        period_ps: c.period_ps,
        source: c.source.clone(),
        generated: c.generated,
        master: copy_opt(&c.master),
        divide_by: c.divide_by,
    }
}

pub fn copy_clocks(cs: &[Clock]) -> (r: Vec<Clock>)
    ensures
        same_clocks(r@, cs@),
{
    let mut r: Vec<Clock> = Vec::new();
    let mut i: usize = 0;
    while i < cs.len()
        invariant
            i <= cs@.len(),
            r@.len() == i,
            forall|k: int| 0 <= k < i ==> same_clock(#[trigger] r@[k], cs@[k]),
        decreases cs@.len() - i,
    {
        r.push(copy_clock(&cs[i]));
        i = i + 1;
    }
    r
}

/// `c` is a primary clock `name` of the given period on `source`.
pub open spec fn is_primary_clock(c: Clock, name: Seq<char>, period_ps: u64, source: Seq<char>) -> bool {
    &&& c.name@ == name
    &&& c.period_ps == period_ps
    &&& c.source@ == source
    &&& !c.generated
    &&& c.master is None
    &&& c.divide_by == 1
}

/// Adds a primary clock.
pub fn create_clock(clocks: &mut Vec<Clock>, name: &str, period_ps: u64, source: &str)
    ensures
        final(clocks)@.len() == old(clocks)@.len() + 1,
        final(clocks)@.subrange(0, old(clocks)@.len() as int) == old(clocks)@,
        is_primary_clock(final(clocks)@.last(), name@, period_ps, source@),
{
    clocks.push(Clock {
        name: text::owned(name),
        period_ps,
        source: text::owned(source),
        generated: false,
        master: None,
        divide_by: 1,
    });
    assert(clocks@.subrange(0, old(clocks)@.len() as int) =~= old(clocks)@);
}

/// Index of the first clock named `n`, or `cs.len()`.
pub open spec fn clock_index(cs: Seq<Clock>, n: Seq<char>, i: int) -> int
    decreases cs.len() - i,
{
    if i >= cs.len() || i < 0 {
        cs.len() as int
    } else if cs[i].name@ == n {
        i
    } else {
        clock_index(cs, n, i + 1)
    }
}

pub open spec fn sat_u64(x: int) -> u64 {
    if x > u64::MAX { u64::MAX } else { x as u64 }
}

pub open spec fn sat_i64(x: int) -> i64 {
    if x > i64::MAX { i64::MAX } else if x < i64::MIN { i64::MIN } else { x as i64 }
}

/// `u64::saturating_mul`.
fn sat_mul_u64(a: u64, b: u64) -> (r: u64)
    ensures
        r == sat_u64(a * b),
{
    match a.checked_mul(b) {
        Some(x) => x,
        None => u64::MAX,
    }
}

/// `i64::saturating_mul`.
fn sat_mul_i64(a: i64, b: i64) -> (r: i64)
    ensures
        r == sat_i64(a * b),
{
    match a.checked_mul(b) {
        Some(x) => x,
        None => {
            if (a < 0) == (b < 0) {
                assert(a * b >= 0) by (nonlinear_arith)
                    requires
                        (a < 0) == (b < 0),
                ;
                i64::MAX
            } else {
                assert(a * b <= 0) by (nonlinear_arith)
                    requires
                        (a < 0) != (b < 0),
                ;
                i64::MIN
            }
        },
    }
}

/// `i64::saturating_add`.
fn sat_add_i64(a: i64, b: i64) -> (r: i64)
    ensures
        r == sat_i64(a + b),
{
    match a.checked_add(b) {
        Some(x) => x,
        None => if b > 0 {
            i64::MAX
        } else {
            i64::MIN
        },
    }
}

fn find_clock(cs: &Vec<Clock>, n: &str) -> (r: usize)
    ensures
        r == clock_index(cs@, n@, 0),
        r <= cs@.len(),
{
    let mut i: usize = 0;
    while i < cs.len()
        invariant
            i <= cs@.len(),
            clock_index(cs@, n@, 0) == clock_index(cs@, n@, i as int),
        decreases cs@.len() - i,
    {
        if text::str_eq(cs[i].name.as_str(), n) {
            return i;
        }
        i = i + 1;
    }
    i
}

/// Adds a clock generated from `master` divided by `divide_by` (at least 1);
/// its period saturates at `u64::MAX`. The master must exist.
pub fn create_generated_clock(clocks: &mut Vec<Clock>, name: &str, master: &str, divide_by: u32, source: &str) -> (r: Result<(), String>)
    ensures
        clock_index(old(clocks)@, master@, 0) >= old(clocks)@.len() ==> {
            &&& r matches Err(e) && e@ == "unknown master clock "@ + master@
            &&& final(clocks)@ == old(clocks)@
        },
        clock_index(old(clocks)@, master@, 0) < old(clocks)@.len() ==> {
            let m = old(clocks)@[clock_index(old(clocks)@, master@, 0)];
            let div: u32 = if divide_by > 1 { divide_by } else { 1 };
            &&& r is Ok
            &&& final(clocks)@.len() == old(clocks)@.len() + 1
            &&& final(clocks)@.subrange(0, old(clocks)@.len() as int) == old(clocks)@
            &&& final(clocks)@.last().name@ == name@
            &&& final(clocks)@.last().period_ps == sat_u64(m.period_ps * div)
            &&& final(clocks)@.last().source@ == source@
            &&& final(clocks)@.last().generated
            &&& opt_view(final(clocks)@.last().master) == Some(master@)
            &&& final(clocks)@.last().divide_by == div
        },
{
    let k = find_clock(clocks, master);
    if k >= clocks.len() {
        let mut m = text::chars_of("unknown master clock ");
        text::push_str(&mut m, master);
        return Err(text::string_of(m.as_slice()));
    }
    let div: u32 = if divide_by > 1 {
        divide_by
    } else {
        1
    };
    let period = sat_mul_u64(clocks[k].period_ps, div as u64);
    clocks.push(Clock {
        name: text::owned(name),
        period_ps: period,
        source: text::owned(source),
        generated: true,
        master: Some(text::owned(master)),
        divide_by: div,
    });
    assert(clocks@.subrange(0, old(clocks)@.len() as int) =~= old(clocks)@);
    Ok(())
}

/// UG949 Clock Interaction Report (`report_clock_interaction`) cell class.
#[derive(Clone, Copy, Debug, PartialEq, Eq, Structural)]
pub enum ClockRelation {
    /// Same clock or harmonic clocks sharing a root.
    Timed,
    /// Generated clock vs its master (same generated-clock tree).
    TimedGenerated,
    /// Unrelated clocks still timed — CDC without an exception.
    TimedUnsafe,
    /// `set_max_delay -datapath_only` covers the pair.
    TimedDatapath,
    /// `set_false_path` covers both clocks.
    FalsePath,
    /// Some but not all paths between the pair are excepted.
    PartialFalsePath,
    /// `set_clock_groups -asynchronous`.
    Asynchronous,
    /// `set_clock_groups -logically_exclusive` / `-physically_exclusive`.
    Exclusive,
    /// No timing paths between the pair.
    NoPaths,
}

pub open spec fn relation_name(r: ClockRelation) -> Seq<char> {
    match r {
        ClockRelation::Timed => "Timed"@,
        ClockRelation::TimedGenerated => "Timed (generated)"@,
        ClockRelation::TimedUnsafe => "Timed (unsafe)"@,
        ClockRelation::TimedDatapath => "Timed (datapath)"@,
        ClockRelation::FalsePath => "False Path"@,
        ClockRelation::PartialFalsePath => "Partial False Path"@,
        ClockRelation::Asynchronous => "Asynchronous"@,
        ClockRelation::Exclusive => "Exclusive"@,
        ClockRelation::NoPaths => "No Paths"@,
    }
}

/// An inter-clock crossing or exception (not intra-clock Timed / No Paths).
pub open spec fn relation_is_cdc(r: ClockRelation) -> bool {
    match r {
        ClockRelation::TimedUnsafe | ClockRelation::TimedDatapath | ClockRelation::FalsePath
        | ClockRelation::PartialFalsePath | ClockRelation::Asynchronous | ClockRelation::Exclusive => true,
        _ => false,
    }
}

impl ClockRelation {
    pub fn as_str(self) -> (r: &'static str)
        ensures
            r@ == relation_name(self),
    {
        match self {
            ClockRelation::Timed => "Timed",
            ClockRelation::TimedGenerated => "Timed (generated)",
            ClockRelation::TimedUnsafe => "Timed (unsafe)",
            ClockRelation::TimedDatapath => "Timed (datapath)",
            ClockRelation::FalsePath => "False Path",
            ClockRelation::PartialFalsePath => "Partial False Path",
            ClockRelation::Asynchronous => "Asynchronous",
            ClockRelation::Exclusive => "Exclusive",
            ClockRelation::NoPaths => "No Paths",
        }
    }

    /// Inter-clock CDC / exception (not intra-clock Timed).
    pub fn is_cdc(self) -> (r: bool)
        ensures
            r == relation_is_cdc(self),
    {
        match self {
            ClockRelation::TimedUnsafe | ClockRelation::TimedDatapath | ClockRelation::FalsePath
            | ClockRelation::PartialFalsePath | ClockRelation::Asynchronous | ClockRelation::Exclusive => true,
            _ => false,
        }
    }
}

// ---------------------------------------------------------------------------
// HAD pad delays
// ---------------------------------------------------------------------------

/// HAD default I/O pad (LVCMOS18). Gold WNS for counter uses this.
pub const IOB_PS: i64 = 100;
pub const LUT_PS: i64 = 150;
pub const FF_CKQ_PS: i64 = 80;
pub const SETUP_PS: i64 = 50;
pub const PIN_PS: i64 = 20;
pub const HOP_PS: i64 = 40;
pub const HOLD_REQ_PS: i64 = 20;

/// A setting as the pad tables read it: trimmed and upper-cased.
pub open spec fn norm(o: Option<&str>) -> Option<Seq<char>> {
    match o {
        Some(s) => Some(text::upper(text::trim(s@))),
        None => None,
    }
}

fn norm_exec(o: Option<&str>) -> (r: Option<Vec<char>>)
    ensures
        match norm(o) {
            Some(u) => r matches Some(v) && v@ == u,
            None => r is None,
        },
{
    match o {
        Some(s) => {
            let v = text::chars_of(s);
            let t = text::trim_chars(&v);
            Some(text::upper_chars(&t))
        },
        None => None,
    }
}

pub open spec fn iostandard_ps(u: Option<Seq<char>>) -> i64 {
    match u {
        None => IOB_PS,
        Some(s) => if s.len() == 0 || s == "LVCMOS18"@ {
            IOB_PS
        } else if s == "LVCMOS12"@ {
            60
        } else if s == "LVCMOS15"@ {
            80
        } else if s == "LVCMOS25"@ {
            200
        } else if s == "LVCMOS33"@ {
            280
        } else if s == "SSTL15"@ || s == "SSTL15_I"@ {
            160
        } else if s == "HSTL_I"@ || s == "HSTL_I_18"@ {
            140
        } else {
            IOB_PS
        },
    }
}

/// I/O pad delay for a Helion IOSTANDARD (trimmed, any case). Unset /
/// LVCMOS18 keeps gold STA.
pub fn iostandard_pad_ps(std: Option<&str>) -> (r: i64)
    ensures
        r == iostandard_ps(norm(std)),
{
    match norm_exec(std) {
        None => IOB_PS,
        Some(s) => if s.len() == 0 || text::eq_str(&s, "LVCMOS18") {
            IOB_PS
        } else if text::eq_str(&s, "LVCMOS12") {
            60
        } else if text::eq_str(&s, "LVCMOS15") {
            80
        } else if text::eq_str(&s, "LVCMOS25") {
            200
        } else if text::eq_str(&s, "LVCMOS33") {
            280
        } else if text::eq_str(&s, "SSTL15") || text::eq_str(&s, "SSTL15_I") {
            160
        } else if text::eq_str(&s, "HSTL_I") || text::eq_str(&s, "HSTL_I_18") {
            140
        } else {
            IOB_PS
        },
    }
}

pub open spec fn drive_ps(ma: Option<u32>) -> i64 {
    match ma {
        Some(2) => 160,
        Some(4) => 80,
        Some(6) => 40,
        Some(8) => 16,
        Some(16) => -16i64,
        Some(24) => -32i64,
        _ => 0,
    }
}

/// Drive vs default 12 mA, from the device-parsed DRIVE setting in mA.
/// Unset / 12 keeps gold STA.
pub fn drive_pad_delta_ps(drive_ma: Option<u32>) -> (r: i64)
    ensures
        r == drive_ps(drive_ma),
{
    match drive_ma {
        Some(2) => 160,
        Some(4) => 80,
        Some(6) => 40,
        Some(8) => 16,
        Some(16) => -16,
        Some(24) => -32,
        _ => 0,
    }
}

pub open spec fn slew_ps(u: Option<Seq<char>>) -> i64 {
    match u {
        Some(s) => if s == "FAST"@ { -40i64 } else { 0 },
        None => 0,
    }
}

/// Slew vs default SLOW. Unset / SLOW keeps gold STA.
pub fn slew_pad_delta_ps(slew: Option<&str>) -> (r: i64)
    ensures
        r == slew_ps(norm(slew)),
{
    match norm_exec(slew) {
        Some(s) => if text::eq_str(&s, "FAST") {
            -40
        } else {
            0
        },
        None => 0,
    }
}

pub open spec fn pull_ps(u: Option<Seq<char>>) -> i64 {
    match u {
        Some(s) => if s == "PULLUP"@ || s == "PULLDOWN"@ {
            20
        } else if s == "KEEPER"@ {
            24
        } else {
            0
        },
        None => 0,
    }
}

/// Pull vs default NONE. Unset / NONE keeps gold STA.
pub fn pulltype_pad_delta_ps(pull: Option<&str>) -> (r: i64)
    ensures
        r == pull_ps(norm(pull)),
{
    match norm_exec(pull) {
        Some(s) => if text::eq_str(&s, "PULLUP") || text::eq_str(&s, "PULLDOWN") {
            20
        } else if text::eq_str(&s, "KEEPER") {
            24
        } else {
            0
        },
        None => 0,
    }
}

pub open spec fn diff_term_ps(t: Option<&str>) -> i64 {
    match t {
        Some(s) => if s@ == "TRUE"@ { 16 } else { 0 },
        None => 0,
    }
}

/// DIFF_TERM vs default FALSE, from the device-validated setting
/// (`TRUE` / `FALSE`). Unset / FALSE keeps gold STA.
pub fn diff_term_pad_delta_ps(term: Option<&str>) -> (r: i64)
    ensures
        r == diff_term_ps(term),
{
    match term {
        Some(s) => if text::str_eq(s, "TRUE") {
            16
        } else {
            0
        },
        None => 0,
    }
}

pub open spec fn in_term_ps(t: Option<&str>) -> i64 {
    match t {
        Some(s) => if s@ == "UNTUNED_SPLIT_40"@ {
            8
        } else if s@ == "UNTUNED_SPLIT_50"@ {
            12
        } else if s@ == "UNTUNED_SPLIT_60"@ {
            16
        } else {
            0
        },
        None => 0,
    }
}

/// IN_TERM vs default NONE, from the device-validated setting.
/// Unset / NONE keeps gold STA.
pub fn in_term_pad_delta_ps(term: Option<&str>) -> (r: i64)
    ensures
        r == in_term_ps(term),
{
    match term {
        Some(s) => if text::str_eq(s, "UNTUNED_SPLIT_40") {
            8
        } else if text::str_eq(s, "UNTUNED_SPLIT_50") {
            12
        } else if text::str_eq(s, "UNTUNED_SPLIT_60") {
            16
        } else {
            0
        },
        None => 0,
    }
}

/// Combined HAD pad delay (IOSTANDARD + DRIVE + SLEW + PULLTYPE + DIFF_TERM + IN_TERM).
pub fn port_pad_ps(
    std: Option<&str>,
    drive_ma: Option<u32>,
    slew: Option<&str>,
    pull: Option<&str>,
    diff_term: Option<&str>,
    in_term: Option<&str>,
) -> (r: i64)
    ensures
        r == iostandard_ps(norm(std)) + drive_ps(drive_ma) + slew_ps(norm(slew)) + pull_ps(norm(pull))
            + diff_term_ps(diff_term) + in_term_ps(in_term),
{
    iostandard_pad_ps(std) + drive_pad_delta_pad(drive_ma) + slew_pad_delta_ps(slew) + pulltype_pad_delta_ps(pull)
        + diff_term_pad_delta_ps(diff_term) + in_term_pad_delta_ps(in_term)
}

fn drive_pad_delta_pad(d: Option<u32>) -> (r: i64)
    ensures
        r == drive_ps(d),
        -32 <= r <= 160,
{
    drive_pad_delta_ps(d)
}

// ---------------------------------------------------------------------------
// Unit-delay timing of a netlist
// ---------------------------------------------------------------------------

/// The LUT input pin `I<p>`.
pub open spec fn lut_pin(p: nat) -> Seq<char> {
    seq!['I', text::digit_char(p)]
}

/// Connected inputs among `I0..I<k-1>` of LUT `lut`.
pub open spec fn fanin_upto(d: Design, lut: Seq<char>, k: nat) -> nat
    decreases k,
{
    if k == 0 {
        0
    } else {
        fanin_upto(d, lut, (k - 1) as nat) + if d.pin_connected(lut, lut_pin((k - 1) as nat)) { 1nat } else { 0nat }
    }
}

pub open spec fn is_lut(c: CellKind) -> bool {
    c matches CellKind::Lut6 { .. }
}

/// Register-to-register path over the first `k` cells: clock-to-Q + LUT +
/// one pin delay per connected LUT input + setup, the worst LUT, at least the
/// bare path.
pub open spec fn r2r_upto(d: Design, k: int) -> int
    decreases k,
{
    if k <= 0 {
        FF_CKQ_PS + LUT_PS + SETUP_PS
    } else {
        let prev = r2r_upto(d, k - 1);
        let c = d.cells@[k - 1];
        if is_lut(c.kind) {
            let here = FF_CKQ_PS + LUT_PS + fanin_upto(d, c.name@, 6) * PIN_PS + SETUP_PS;
            if here > prev { here } else { prev }
        } else {
            prev
        }
    }
}

pub open spec fn r2r_of(d: Design) -> int {
    r2r_upto(d, d.cells@.len() as int)
}

pub open spec fn ff_count_upto(cs: Seq<crate::ir::Cell>, k: int) -> nat
    decreases k,
{
    if k <= 0 {
        0
    } else {
        ff_count_upto(cs, k - 1) + if cs[k - 1].kind is Hff { 1nat } else { 0nat }
    }
}

fn lut_fanin(design: &Design, lut: &str) -> (r: i64)
    requires
        design.wf(),
    ensures
        r == fanin_upto(*design, lut@, 6),
        0 <= r <= 6,
{
    let mut n: i64 = 0;
    let mut p: u32 = 0;
    while p < 6
        invariant
            p <= 6,
            design.wf(),
            n == fanin_upto(*design, lut@, p as nat),
            0 <= n <= p,
        decreases 6 - p,
    {
        let mut pin: Vec<char> = Vec::new();
        pin.push('I');
        pin.push(((p + ('0' as u32)) as u8) as char);
        proof {
            assert(((p + ('0' as u32)) as u8) as char == text::digit_char(p as nat));
            assert(pin@ =~= lut_pin(p as nat));
        }
        let ps = text::string_of(pin.as_slice());
        if design.net_on(lut, ps.as_str()).is_some() {
            n = n + 1;
        }
        p = p + 1;
    }
    n
}

fn r2r_ps(design: &Design) -> (r: i64)
    requires
        design.wf(),
    ensures
        r == r2r_of(*design),
        280 <= r <= 400,
{
    let mut max_ps: i64 = FF_CKQ_PS + LUT_PS + SETUP_PS;
    let mut i: usize = 0;
    while i < design.cells.len()
        invariant
            i <= design.cells@.len(),
            design.wf(),
            max_ps == r2r_upto(*design, i as int),
            280 <= max_ps <= 400,
        decreases design.cells@.len() - i,
    {
        let c = &design.cells[i];
        match c.kind {
            CellKind::Lut6 { .. } => {
                let pins = lut_fanin(design, c.name.as_str());
                let here = FF_CKQ_PS + LUT_PS + pins * PIN_PS + SETUP_PS;
                if here > max_ps {
                    max_ps = here;
                }
            },
            _ => {},
        }
        i = i + 1;
    }
    max_ps
}

/// The unit-delay timing of `design` against the first clock.
pub open spec fn timing_of(r: TimingResult, d: Design, clocks: Seq<Clock>) -> bool {
    let r2r = r2r_of(d);
    let wns = (clocks[0].period_ps as i64) - r2r;
    let ffs = ff_count_upto(d.cells@, d.cells@.len() as int);
    &&& same_clocks(r.clocks@, clocks)
    &&& r.wns_ps == wns
    &&& r.tns_ps == (if wns < 0 { wns } else { 0 })
    &&& r.endpoints == (if ffs > 1 { ffs } else { 1 })
    &&& r.r2r_ps == r2r
    &&& r.iob_ps == 0
    &&& r.setup_ps == r2r
    &&& r.hold_ps == FF_CKQ_PS
    &&& r.hold_slack_ps == FF_CKQ_PS - HOLD_REQ_PS
    &&& r.route_ps == 0
    &&& r.clk_net_ps == 0
}

/// Unit-delay STA from netlist arity (no placement): the worst
/// register-to-register LUT path against the first clock's period.
pub fn report_timing(design: &Design, clocks: &[Clock]) -> (r: Result<TimingResult, String>)
    requires
        design.wf(),
        clocks@.len() > 0 ==> (clocks@[0].period_ps as i64) - r2r_of(*design) >= i64::MIN,
    ensures
        clocks@.len() == 0 ==> (r matches Err(e) && e@ == "no clocks"@),
        clocks@.len() > 0 ==> (r matches Ok(t) && timing_of(t, *design, clocks@)),
{
    if clocks.len() == 0 {
        return Err(text::owned("no clocks"));
    }
    let mut ffs: usize = 0;
    let mut i: usize = 0;
    while i < design.cells.len()
        invariant
            i <= design.cells@.len(),
            ffs == ff_count_upto(design.cells@, i as int),
            ffs <= i,
        decreases design.cells@.len() - i,
    {
        match design.cells[i].kind {
            CellKind::Hff => ffs = ffs + 1,
            _ => {},
        }
        i = i + 1;
    }
    let r2r = r2r_ps(design);
    let wns = (clocks[0].period_ps as i64) - r2r;
    Ok(TimingResult {
        clocks: copy_clocks(clocks),
        wns_ps: wns,
        tns_ps: if wns < 0 {
            wns
        } else {
            0
        },
        endpoints: if ffs > 1 {
            ffs
        } else {
            1
        },
        r2r_ps: r2r,
        iob_ps: 0,
        setup_ps: r2r,
        hold_ps: FF_CKQ_PS,
        hold_slack_ps: FF_CKQ_PS - HOLD_REQ_PS,
        route_ps: 0,
        clk_net_ps: 0,
    })
}

// ---------------------------------------------------------------------------
// Timing constraints (UG903)
// ---------------------------------------------------------------------------

/// UG903 `set_multicycle_path`: setup/hold path multipliers.
#[derive(Clone, Debug)]
pub struct MulticyclePath {
    pub from: String,
    pub to: String,
    pub setup_mult: u32,
    pub hold_mult: u32,
    pub start: bool,
    pub end: bool,
}

/// UG903 `set_max_delay`: absolute setup requirement (ps), replacing the period check.
#[derive(Clone, Debug)]
pub struct MaxDelay {
    pub from: String,
    pub to: String,
    pub delay_ps: i64,
    pub datapath_only: bool,
}

/// UG903 `set_min_delay`: absolute hold requirement (ps), replacing HOLD_REQ_PS.
#[derive(Clone, Debug)]
pub struct MinDelay {
    pub from: String,
    pub to: String,
    pub delay_ps: i64,
    pub datapath_only: bool,
}

/// UG903 `set_clock_groups`: CDC / exclusive groups (false path between groups).
#[derive(Clone, Debug)]
pub struct ClockGroups {
    pub asynchronous: bool,
    pub exclusive: bool,
    pub groups: Vec<Vec<String>>,
}

/// UG903 `set_clock_uncertainty`: subtracted from setup and/or hold slack.
#[derive(Clone, Debug)]
pub struct ClockUncertainty {
    pub from: String,
    pub to: String,
    pub setup_ps: i64,
    pub hold_ps: i64,
}

/// UG903 `set_clock_latency`: late adds to setup arrival; early reduces hold slack.
#[derive(Clone, Debug)]
pub struct ClockLatency {
    pub clock: String,
    pub late_ps: i64,
    pub early_ps: i64,
    pub source: bool,
}

/// UG903 `set_disable_timing`: drop timing arcs through a cell or pin pair.
#[derive(Clone, Debug)]
pub struct DisableTiming {
    pub from: String,
    pub to: String,
    pub object: String,
}

/// UG903 `set_case_analysis`: force a constant on a pin/port (disables unused arcs).
#[derive(Clone, Debug)]
pub struct CaseAnalysis {
    pub value: String,
    pub object: String,
}

/// UG903 `set_clock_sense`: rising / falling / stop_propagation on a clock pin.
#[derive(Clone, Debug)]
pub struct ClockSense {
    pub object: String,
    /// `positive`, `negative`, or `stop`.
    pub sense: String,
}

/// UG903 `set_input_jitter`: peak-to-peak primary-clock jitter (ps).
#[derive(Clone, Debug)]
pub struct InputJitter {
    pub clock: String,
    pub jitter_ps: i64,
}

/// UG903 `set_timing_derate`: OCV scale on early (hold) / late (setup) path delay.
/// `*_milli` is parts-per-thousand (1100 = 1.100); 0 means this edge was not set.
#[derive(Clone, Debug)]
pub struct TimingDerate {
    pub early_milli: i64,
    pub late_milli: i64,
    pub cell: bool,
    pub net: bool,
    pub clock: bool,
    pub data: bool,
}

impl Default for TimingDerate {
    fn default() -> (r: Self)
        ensures
            r.early_milli == 0 && r.late_milli == 0 && !r.cell && !r.net && !r.clock && !r.data,
    {
        TimingDerate { early_milli: 0, late_milli: 0, cell: false, net: false, clock: false, data: false }
    }
}

/// UG903 `set_operating_conditions`: PVT overlay on HAD delays.
/// Unset voltage/temperature keeps the gold (1.00 V, 25 °C) corner.
#[derive(Clone, Debug)]
pub struct OperatingConditions {
    pub voltage_mv: i64,
    pub temperature_c: i64,
    pub voltage_set: bool,
    pub temperature_set: bool,
}

impl Default for OperatingConditions {
    fn default() -> (r: Self)
        ensures
            r.voltage_mv == 0 && r.temperature_c == 0 && !r.voltage_set && !r.temperature_set,
    {
        OperatingConditions { voltage_mv: 0, temperature_c: 0, voltage_set: false, temperature_set: false }
    }
}

/// Truncating division (Rust `/` on signed integers) by a positive divisor.
pub open spec fn tdiv(x: int, d: int) -> int {
    if x >= 0 { x / d } else { -((-x) / d) }
}

fn div_trunc(x: i64, d: i64) -> (r: i64)
    requires
        d > 0,
    ensures
        r == tdiv(x as int, d as int),
{
    match x.checked_div(d) {
        Some(q) => q,
        None => {
            assert(false);
            0
        },
    }
}

/// Operating-condition delay scale (parts per thousand) when the settings
/// can be evaluated without overflow.
pub open spec fn pvt_ok(o: OperatingConditions) -> bool {
    o.temperature_set ==> o.temperature_c - 25 >= i64::MIN
}

pub open spec fn pvt_scale(o: OperatingConditions) -> i64 {
    let s1: i64 = if o.voltage_set && o.voltage_mv > 0 { tdiv(1_000_000, o.voltage_mv as int) as i64 } else { 1000 };
    let s2: i64 = if o.temperature_set { sat_i64(s1 + sat_i64((o.temperature_c - 25) * 2)) } else { s1 };
    if s2 > 1 { s2 } else { 1 }
}

impl OperatingConditions {
    pub fn is_set(&self) -> (r: bool)
        ensures
            r == (self.voltage_set || self.temperature_set),
    {
        self.voltage_set || self.temperature_set
    }

    /// Delay scale in parts-per-thousand. 1000 = gold HAD numbers.
    /// Voltage: `1000 * 1000 / V_mv` (0.95 V → 1052). Temperature: +2 milli / °C from 25 °C.
    pub fn scale_milli(&self) -> (r: i64)
        requires
            pvt_ok(*self),
        ensures
            r == pvt_scale(*self),
            r >= 1,
    {
        let mut s: i64 = 1000;
        if self.voltage_set && self.voltage_mv > 0 {
            s = div_trunc(sat_mul_i64(s, 1000), self.voltage_mv);
        }
        if self.temperature_set {
            s = sat_add_i64(s, sat_mul_i64(self.temperature_c - 25, 2));
        }
        if s > 1 {
            s
        } else {
            1
        }
    }
}

/// UG903 `set_bus_skew`: max allowed skew between bits (ps). Subtracted from slack.
#[derive(Clone, Debug)]
pub struct BusSkew {
    pub from: String,
    pub to: String,
    pub skew_ps: i64,
    pub setup: bool,
    pub hold: bool,
}

/// UG903 `group_path`: named path group; `-weight` scales setup delay (1000 = 1.0).
#[derive(Clone, Debug)]
pub struct PathGroup {
    pub name: String,
    pub from: String,
    pub to: String,
    pub weight_milli: i64,
    pub critical_range_ps: i64,
}

/// UG903 `set_max_time_borrow`: latch may steal this much from the next period (ps).
#[derive(Clone, Debug)]
pub struct MaxTimeBorrow {
    pub object: String,
    pub borrow_ps: i64,
}

/// UG903 `set_data_check`: data-to-data setup/hold between `-from` and `-to` (ps).
#[derive(Clone, Debug)]
pub struct DataCheck {
    pub from: String,
    pub to: String,
    pub setup_ps: i64,
    pub hold_ps: i64,
    pub clock: String,
}

/// Parsed timing constraints. The per-port tables are kept sorted by port
/// name with one entry per port (the last setting wins).
#[derive(Clone, Debug)]
pub struct Constraints {
    pub clocks: Vec<Clock>,
    pub input_delay_ps: Vec<(String, i64)>,
    pub output_delay_ps: Vec<(String, i64)>,
    pub false_paths: Vec<String>,
    pub multicycle_paths: Vec<MulticyclePath>,
    pub max_delays: Vec<MaxDelay>,
    pub min_delays: Vec<MinDelay>,
    pub clock_groups: Vec<ClockGroups>,
    pub clock_uncertainties: Vec<ClockUncertainty>,
    pub clock_latencies: Vec<ClockLatency>,
    pub disable_timings: Vec<DisableTiming>,
    pub case_analyses: Vec<CaseAnalysis>,
    pub propagated_clocks: Vec<String>,
    pub clock_senses: Vec<ClockSense>,
    pub input_jitters: Vec<InputJitter>,
    /// UG903 `set_system_jitter` in ps (0 if unset).
    pub system_jitter_ps: i64,
    pub timing_derates: Vec<TimingDerate>,
    pub operating_conditions: OperatingConditions,
    pub bus_skews: Vec<BusSkew>,
    pub path_groups: Vec<PathGroup>,
    pub max_time_borrows: Vec<MaxTimeBorrow>,
    pub data_checks: Vec<DataCheck>,
    pub package_pins: Vec<(String, String)>,
    pub iostandards: Vec<(String, String)>,
    pub drives: Vec<(String, String)>,
    pub slews: Vec<(String, String)>,
    pub pulltypes: Vec<(String, String)>,
    pub diff_terms: Vec<(String, String)>,
    pub in_terms: Vec<(String, String)>,
}

/// No constraints at all.
pub open spec fn is_empty_constraints(c: Constraints) -> bool {
    &&& c.clocks@.len() == 0
    &&& c.input_delay_ps@.len() == 0
    &&& c.output_delay_ps@.len() == 0
    &&& c.false_paths@.len() == 0
    &&& c.multicycle_paths@.len() == 0
    &&& c.max_delays@.len() == 0
    &&& c.min_delays@.len() == 0
    &&& c.clock_groups@.len() == 0
    &&& c.clock_uncertainties@.len() == 0
    &&& c.clock_latencies@.len() == 0
    &&& c.disable_timings@.len() == 0
    &&& c.case_analyses@.len() == 0
    &&& c.propagated_clocks@.len() == 0
    &&& c.clock_senses@.len() == 0
    &&& c.input_jitters@.len() == 0
    &&& c.system_jitter_ps == 0
    &&& c.timing_derates@.len() == 0
    &&& c.operating_conditions.voltage_mv == 0
    &&& c.operating_conditions.temperature_c == 0
    &&& !c.operating_conditions.voltage_set
    &&& !c.operating_conditions.temperature_set
    &&& c.bus_skews@.len() == 0
    &&& c.path_groups@.len() == 0
    &&& c.max_time_borrows@.len() == 0
    &&& c.data_checks@.len() == 0
    &&& c.package_pins@.len() == 0
    &&& c.iostandards@.len() == 0
    &&& c.drives@.len() == 0
    &&& c.slews@.len() == 0
    &&& c.pulltypes@.len() == 0
    &&& c.diff_terms@.len() == 0
    &&& c.in_terms@.len() == 0
}

impl Default for Constraints {
    fn default() -> (r: Self)
        ensures
            is_empty_constraints(r),
    {
        Constraints {
            clocks: Vec::new(),
            input_delay_ps: Vec::new(),
            output_delay_ps: Vec::new(),
            false_paths: Vec::new(),
            multicycle_paths: Vec::new(),
            max_delays: Vec::new(),
            min_delays: Vec::new(),
            clock_groups: Vec::new(),
            clock_uncertainties: Vec::new(),
            clock_latencies: Vec::new(),
            disable_timings: Vec::new(),
            case_analyses: Vec::new(),
            propagated_clocks: Vec::new(),
            clock_senses: Vec::new(),
            input_jitters: Vec::new(),
            system_jitter_ps: 0,
            timing_derates: Vec::new(),
            operating_conditions: OperatingConditions::default(),
            bus_skews: Vec::new(),
            path_groups: Vec::new(),
            max_time_borrows: Vec::new(),
            data_checks: Vec::new(),
            package_pins: Vec::new(),
            iostandards: Vec::new(),
            drives: Vec::new(),
            slews: Vec::new(),
            pulltypes: Vec::new(),
            diff_terms: Vec::new(),
            in_terms: Vec::new(),
        }
    }
}

/// Largest element, if any.
pub open spec fn smax(s: Seq<i64>) -> Option<i64>
    decreases s.len(),
{
    if s.len() == 0 {
        None
    } else {
        match smax(s.drop_last()) {
            None => Some(s.last()),
            Some(m) => Some(if s.last() > m { s.last() } else { m }),
        }
    }
}

/// Smallest element, if any.
pub open spec fn smin(s: Seq<i64>) -> Option<i64>
    decreases s.len(),
{
    if s.len() == 0 {
        None
    } else {
        match smin(s.drop_last()) {
            None => Some(s.last()),
            Some(m) => Some(if s.last() < m { s.last() } else { m }),
        }
    }
}

/// The last non-zero element, if any.
pub open spec fn last_nonzero(s: Seq<i64>) -> Option<i64>
    decreases s.len(),
{
    if s.len() == 0 {
        None
    } else if s.last() != 0 {
        Some(s.last())
    } else {
        last_nonzero(s.drop_last())
    }
}

pub open spec fn or_d(o: Option<i64>, d: i64) -> i64 {
    match o {
        Some(v) => v,
        None => d,
    }
}

fn max_opt(v: &Vec<i64>) -> (r: Option<i64>)
    ensures
        r == smax(v@),
{
    let mut r: Option<i64> = None;
    let mut i: usize = 0;
    while i < v.len()
        invariant
            i <= v@.len(),
            r == smax(v@.subrange(0, i as int)),
        decreases v@.len() - i,
    {
        assert(v@.subrange(0, i + 1).drop_last() =~= v@.subrange(0, i as int));
        let x = v[i];
        r = match r {
            None => Some(x),
            Some(m) => Some(if x > m { x } else { m }),
        };
        i = i + 1;
    }
    assert(v@.subrange(0, v@.len() as int) =~= v@);
    r
}

fn min_opt(v: &Vec<i64>) -> (r: Option<i64>)
    ensures
        r == smin(v@),
{
    let mut r: Option<i64> = None;
    let mut i: usize = 0;
    while i < v.len()
        invariant
            i <= v@.len(),
            r == smin(v@.subrange(0, i as int)),
        decreases v@.len() - i,
    {
        assert(v@.subrange(0, i + 1).drop_last() =~= v@.subrange(0, i as int));
        let x = v[i];
        r = match r {
            None => Some(x),
            Some(m) => Some(if x < m { x } else { m }),
        };
        i = i + 1;
    }
    assert(v@.subrange(0, v@.len() as int) =~= v@);
    r
}

fn last_nonzero_exec(v: &Vec<i64>) -> (r: Option<i64>)
    ensures
        r == last_nonzero(v@),
{
    let mut i: usize = v.len();
    assert(v@.subrange(0, v@.len() as int) =~= v@);
    while i > 0
        invariant
            i <= v@.len(),
            last_nonzero(v@) == last_nonzero(v@.subrange(0, i as int)),
        decreases i,
    {
        let ghost pre = v@.subrange(0, i as int);
        assert(pre.drop_last() =~= v@.subrange(0, i - 1));
        if v[i - 1] != 0 {
            return Some(v[i - 1]);
        }
        i = i - 1;
    }
    None
}

fn or_default(o: Option<i64>, d: i64) -> (r: i64)
    ensures
        r == or_d(o, d),
{
    match o {
        Some(v) => v,
        None => d,
    }
}

// Field projections of the constraint lists.

pub open spec fn mc_setup(c: Constraints) -> Seq<i64> {
    Seq::new(c.multicycle_paths@.len(), |i: int| c.multicycle_paths@[i].setup_mult as i64)
}

pub open spec fn mc_hold(c: Constraints) -> Seq<i64> {
    Seq::new(c.multicycle_paths@.len(), |i: int| c.multicycle_paths@[i].hold_mult as i64)
}

pub open spec fn max_delay_values(c: Constraints) -> Seq<i64> {
    Seq::new(c.max_delays@.len(), |i: int| c.max_delays@[i].delay_ps)
}

pub open spec fn min_delay_values(c: Constraints) -> Seq<i64> {
    Seq::new(c.min_delays@.len(), |i: int| c.min_delays@[i].delay_ps)
}

pub open spec fn unc_setup(c: Constraints) -> Seq<i64> {
    Seq::new(c.clock_uncertainties@.len(), |i: int| c.clock_uncertainties@[i].setup_ps)
}

pub open spec fn unc_hold(c: Constraints) -> Seq<i64> {
    Seq::new(c.clock_uncertainties@.len(), |i: int| c.clock_uncertainties@[i].hold_ps)
}

pub open spec fn lat_late(c: Constraints) -> Seq<i64> {
    Seq::new(c.clock_latencies@.len(), |i: int| c.clock_latencies@[i].late_ps)
}

pub open spec fn lat_early(c: Constraints) -> Seq<i64> {
    Seq::new(c.clock_latencies@.len(), |i: int| c.clock_latencies@[i].early_ps)
}

pub open spec fn jitters(c: Constraints) -> Seq<i64> {
    Seq::new(c.input_jitters@.len(), |i: int| c.input_jitters@[i].jitter_ps)
}

pub open spec fn derate_late(c: Constraints) -> Seq<i64> {
    Seq::new(c.timing_derates@.len(), |i: int| c.timing_derates@[i].late_milli)
}

pub open spec fn derate_early(c: Constraints) -> Seq<i64> {
    Seq::new(c.timing_derates@.len(), |i: int| c.timing_derates@[i].early_milli)
}

/// Skews of the bus-skew constraints that apply to setup (`hold == false`)
/// or to hold (`hold == true`).
pub open spec fn skews(s: Seq<BusSkew>, hold: bool) -> Seq<i64>
    decreases s.len(),
{
    if s.len() == 0 {
        Seq::empty()
    } else {
        let b = s.last();
        let rest = skews(s.drop_last(), hold);
        if (if hold { b.hold } else { b.setup }) { rest.push(b.skew_ps) } else { rest }
    }
}

pub open spec fn weights(c: Constraints) -> Seq<i64> {
    Seq::new(c.path_groups@.len(), |i: int| c.path_groups@[i].weight_milli)
}

pub open spec fn critical_ranges(c: Constraints) -> Seq<i64> {
    Seq::new(c.path_groups@.len(), |i: int| c.path_groups@[i].critical_range_ps)
}

pub open spec fn borrows(c: Constraints) -> Seq<i64> {
    Seq::new(c.max_time_borrows@.len(), |i: int| c.max_time_borrows@[i].borrow_ps)
}

pub open spec fn dc_setup(c: Constraints) -> Seq<i64> {
    Seq::new(c.data_checks@.len(), |i: int| c.data_checks@[i].setup_ps)
}

pub open spec fn dc_hold(c: Constraints) -> Seq<i64> {
    Seq::new(c.data_checks@.len(), |i: int| c.data_checks@[i].hold_ps)
}

fn mc_setup_exec(c: &Constraints) -> (v: Vec<i64>)
    ensures
        v@ == mc_setup(*c),
{
    let mut v: Vec<i64> = Vec::new();
    let mut i: usize = 0;
    while i < c.multicycle_paths.len()
        invariant
            i <= c.multicycle_paths@.len(),
            v@ == Seq::new(i as nat, |k: int| c.multicycle_paths@[k].setup_mult as i64),
        decreases c.multicycle_paths@.len() - i,
    {
        v.push(c.multicycle_paths[i].setup_mult as i64);
        i = i + 1;
        assert(v@ =~= Seq::new(i as nat, |k: int| c.multicycle_paths@[k].setup_mult as i64));
    }
    assert(v@ =~= mc_setup(*c));
    v
}

fn mc_hold_exec(c: &Constraints) -> (v: Vec<i64>)
    ensures
        v@ == mc_hold(*c),
{
    let mut v: Vec<i64> = Vec::new();
    let mut i: usize = 0;
    while i < c.multicycle_paths.len()
        invariant
            i <= c.multicycle_paths@.len(),
            v@ == Seq::new(i as nat, |k: int| c.multicycle_paths@[k].hold_mult as i64),
        decreases c.multicycle_paths@.len() - i,
    {
        v.push(c.multicycle_paths[i].hold_mult as i64);
        i = i + 1;
        assert(v@ =~= Seq::new(i as nat, |k: int| c.multicycle_paths@[k].hold_mult as i64));
    }
    assert(v@ =~= mc_hold(*c));
    v
}

fn max_delay_values_exec(c: &Constraints) -> (v: Vec<i64>)
    ensures
        v@ == max_delay_values(*c),
{
    let mut v: Vec<i64> = Vec::new();
    let mut i: usize = 0;
    while i < c.max_delays.len()
        invariant
            i <= c.max_delays@.len(),
            v@ == Seq::new(i as nat, |k: int| c.max_delays@[k].delay_ps),
        decreases c.max_delays@.len() - i,
    {
        v.push(c.max_delays[i].delay_ps);
        i = i + 1;
        assert(v@ =~= Seq::new(i as nat, |k: int| c.max_delays@[k].delay_ps));
    }
    assert(v@ =~= max_delay_values(*c));
    v
}

fn min_delay_values_exec(c: &Constraints) -> (v: Vec<i64>)
    ensures
        v@ == min_delay_values(*c),
{
    let mut v: Vec<i64> = Vec::new();
    let mut i: usize = 0;
    while i < c.min_delays.len()
        invariant
            i <= c.min_delays@.len(),
            v@ == Seq::new(i as nat, |k: int| c.min_delays@[k].delay_ps),
        decreases c.min_delays@.len() - i,
    {
        v.push(c.min_delays[i].delay_ps);
        i = i + 1;
        assert(v@ =~= Seq::new(i as nat, |k: int| c.min_delays@[k].delay_ps));
    }
    assert(v@ =~= min_delay_values(*c));
    v
}

fn unc_setup_exec(c: &Constraints) -> (v: Vec<i64>)
    ensures
        v@ == unc_setup(*c),
{
    let mut v: Vec<i64> = Vec::new();
    let mut i: usize = 0;
    while i < c.clock_uncertainties.len()
        invariant
            i <= c.clock_uncertainties@.len(),
            v@ == Seq::new(i as nat, |k: int| c.clock_uncertainties@[k].setup_ps),
        decreases c.clock_uncertainties@.len() - i,
    {
        v.push(c.clock_uncertainties[i].setup_ps);
        i = i + 1;
        assert(v@ =~= Seq::new(i as nat, |k: int| c.clock_uncertainties@[k].setup_ps));
    }
    assert(v@ =~= unc_setup(*c));
    v
}

fn unc_hold_exec(c: &Constraints) -> (v: Vec<i64>)
    ensures
        v@ == unc_hold(*c),
{
    let mut v: Vec<i64> = Vec::new();
    let mut i: usize = 0;
    while i < c.clock_uncertainties.len()
        invariant
            i <= c.clock_uncertainties@.len(),
            v@ == Seq::new(i as nat, |k: int| c.clock_uncertainties@[k].hold_ps),
        decreases c.clock_uncertainties@.len() - i,
    {
        v.push(c.clock_uncertainties[i].hold_ps);
        i = i + 1;
        assert(v@ =~= Seq::new(i as nat, |k: int| c.clock_uncertainties@[k].hold_ps));
    }
    assert(v@ =~= unc_hold(*c));
    v
}

fn lat_late_exec(c: &Constraints) -> (v: Vec<i64>)
    ensures
        v@ == lat_late(*c),
{
    let mut v: Vec<i64> = Vec::new();
    let mut i: usize = 0;
    while i < c.clock_latencies.len()
        invariant
            i <= c.clock_latencies@.len(),
            v@ == Seq::new(i as nat, |k: int| c.clock_latencies@[k].late_ps),
        decreases c.clock_latencies@.len() - i,
    {
        v.push(c.clock_latencies[i].late_ps);
        i = i + 1;
        assert(v@ =~= Seq::new(i as nat, |k: int| c.clock_latencies@[k].late_ps));
    }
    assert(v@ =~= lat_late(*c));
    v
}

fn lat_early_exec(c: &Constraints) -> (v: Vec<i64>)
    ensures
        v@ == lat_early(*c),
{
    let mut v: Vec<i64> = Vec::new();
    let mut i: usize = 0;
    while i < c.clock_latencies.len()
        invariant
            i <= c.clock_latencies@.len(),
            v@ == Seq::new(i as nat, |k: int| c.clock_latencies@[k].early_ps),
        decreases c.clock_latencies@.len() - i,
    {
        v.push(c.clock_latencies[i].early_ps);
        i = i + 1;
        assert(v@ =~= Seq::new(i as nat, |k: int| c.clock_latencies@[k].early_ps));
    }
    assert(v@ =~= lat_early(*c));
    v
}

fn jitters_exec(c: &Constraints) -> (v: Vec<i64>)
    ensures
        v@ == jitters(*c),
{
    let mut v: Vec<i64> = Vec::new();
    let mut i: usize = 0;
    while i < c.input_jitters.len()
        invariant
            i <= c.input_jitters@.len(),
            v@ == Seq::new(i as nat, |k: int| c.input_jitters@[k].jitter_ps),
        decreases c.input_jitters@.len() - i,
    {
        v.push(c.input_jitters[i].jitter_ps);
        i = i + 1;
        assert(v@ =~= Seq::new(i as nat, |k: int| c.input_jitters@[k].jitter_ps));
    }
    assert(v@ =~= jitters(*c));
    v
}

fn derate_late_exec(c: &Constraints) -> (v: Vec<i64>)
    ensures
        v@ == derate_late(*c),
{
    let mut v: Vec<i64> = Vec::new();
    let mut i: usize = 0;
    while i < c.timing_derates.len()
        invariant
            i <= c.timing_derates@.len(),
            v@ == Seq::new(i as nat, |k: int| c.timing_derates@[k].late_milli),
        decreases c.timing_derates@.len() - i,
    {
        v.push(c.timing_derates[i].late_milli);
        i = i + 1;
        assert(v@ =~= Seq::new(i as nat, |k: int| c.timing_derates@[k].late_milli));
    }
    assert(v@ =~= derate_late(*c));
    v
}

fn derate_early_exec(c: &Constraints) -> (v: Vec<i64>)
    ensures
        v@ == derate_early(*c),
{
    let mut v: Vec<i64> = Vec::new();
    let mut i: usize = 0;
    while i < c.timing_derates.len()
        invariant
            i <= c.timing_derates@.len(),
            v@ == Seq::new(i as nat, |k: int| c.timing_derates@[k].early_milli),
        decreases c.timing_derates@.len() - i,
    {
        v.push(c.timing_derates[i].early_milli);
        i = i + 1;
        assert(v@ =~= Seq::new(i as nat, |k: int| c.timing_derates@[k].early_milli));
    }
    assert(v@ =~= derate_early(*c));
    v
}

fn weights_exec(c: &Constraints) -> (v: Vec<i64>)
    ensures
        v@ == weights(*c),
{
    let mut v: Vec<i64> = Vec::new();
    let mut i: usize = 0;
    while i < c.path_groups.len()
        invariant
            i <= c.path_groups@.len(),
            v@ == Seq::new(i as nat, |k: int| c.path_groups@[k].weight_milli),
        decreases c.path_groups@.len() - i,
    {
        v.push(c.path_groups[i].weight_milli);
        i = i + 1;
        assert(v@ =~= Seq::new(i as nat, |k: int| c.path_groups@[k].weight_milli));
    }
    assert(v@ =~= weights(*c));
    v
}

fn critical_ranges_exec(c: &Constraints) -> (v: Vec<i64>)
    ensures
        v@ == critical_ranges(*c),
{
    let mut v: Vec<i64> = Vec::new();
    let mut i: usize = 0;
    while i < c.path_groups.len()
        invariant
            i <= c.path_groups@.len(),
            v@ == Seq::new(i as nat, |k: int| c.path_groups@[k].critical_range_ps),
        decreases c.path_groups@.len() - i,
    {
        v.push(c.path_groups[i].critical_range_ps);
        i = i + 1;
        assert(v@ =~= Seq::new(i as nat, |k: int| c.path_groups@[k].critical_range_ps));
    }
    assert(v@ =~= critical_ranges(*c));
    v
}

fn borrows_exec(c: &Constraints) -> (v: Vec<i64>)
    ensures
        v@ == borrows(*c),
{
    let mut v: Vec<i64> = Vec::new();
    let mut i: usize = 0;
    while i < c.max_time_borrows.len()
        invariant
            i <= c.max_time_borrows@.len(),
            v@ == Seq::new(i as nat, |k: int| c.max_time_borrows@[k].borrow_ps),
        decreases c.max_time_borrows@.len() - i,
    {
        v.push(c.max_time_borrows[i].borrow_ps);
        i = i + 1;
        assert(v@ =~= Seq::new(i as nat, |k: int| c.max_time_borrows@[k].borrow_ps));
    }
    assert(v@ =~= borrows(*c));
    v
}

fn dc_setup_exec(c: &Constraints) -> (v: Vec<i64>)
    ensures
        v@ == dc_setup(*c),
{
    let mut v: Vec<i64> = Vec::new();
    let mut i: usize = 0;
    while i < c.data_checks.len()
        invariant
            i <= c.data_checks@.len(),
            v@ == Seq::new(i as nat, |k: int| c.data_checks@[k].setup_ps),
        decreases c.data_checks@.len() - i,
    {
        v.push(c.data_checks[i].setup_ps);
        i = i + 1;
        assert(v@ =~= Seq::new(i as nat, |k: int| c.data_checks@[k].setup_ps));
    }
    assert(v@ =~= dc_setup(*c));
    v
}

fn dc_hold_exec(c: &Constraints) -> (v: Vec<i64>)
    ensures
        v@ == dc_hold(*c),
{
    let mut v: Vec<i64> = Vec::new();
    let mut i: usize = 0;
    while i < c.data_checks.len()
        invariant
            i <= c.data_checks@.len(),
            v@ == Seq::new(i as nat, |k: int| c.data_checks@[k].hold_ps),
        decreases c.data_checks@.len() - i,
    {
        v.push(c.data_checks[i].hold_ps);
        i = i + 1;
        assert(v@ =~= Seq::new(i as nat, |k: int| c.data_checks@[k].hold_ps));
    }
    assert(v@ =~= dc_hold(*c));
    v
}

fn skews_exec(s: &Vec<BusSkew>, hold: bool) -> (v: Vec<i64>)
    ensures
        v@ == skews(s@, hold),
{
    let mut v: Vec<i64> = Vec::new();
    let mut i: usize = 0;
    while i < s.len()
        invariant
            i <= s@.len(),
            v@ == skews(s@.subrange(0, i as int), hold),
        decreases s@.len() - i,
    {
        assert(s@.subrange(0, i + 1).drop_last() =~= s@.subrange(0, i as int));
        let b = &s[i];
        if (if hold {
            b.hold
        } else {
            b.setup
        }) {
            v.push(b.skew_ps);
        }
        i = i + 1;
    }
    assert(s@.subrange(0, s@.len() as int) =~= s@);
    v
}

/// First index `>= i` of a character that is not an ASCII letter, digit or `_`.
pub open spec fn first_non_name(s: Seq<char>, i: int) -> int
    decreases s.len() - i,
{
    if i >= s.len() {
        s.len() as int
    } else if !text::is_name_char(s[i]) {
        i
    } else {
        first_non_name(s, i + 1)
    }
}

pub proof fn lemma_first_non_name(s: Seq<char>, i: int)
    requires
        0 <= i <= s.len(),
    ensures
        i <= first_non_name(s, i) <= s.len(),
    decreases s.len() - i,
{
    if i < s.len() && text::is_name_char(s[i]) {
        lemma_first_non_name(s, i + 1);
    }
}

/// `str::split` on every non-name character, from index `i`.
pub open spec fn name_split_from(s: Seq<char>, i: int) -> Seq<Seq<char>>
    decreases s.len() + 1 - i,
{
    if i < 0 || i > s.len() {
        Seq::empty()
    } else {
        let j = first_non_name(s, i);
        proof {
            lemma_first_non_name(s, i);
        }
        if j >= s.len() {
            seq![s.subrange(i, s.len() as int)]
        } else {
            seq![s.subrange(i, j)] + name_split_from(s, j + 1)
        }
    }
}

/// `name` is one of the name tokens of `hay` (the pieces between
/// characters other than ASCII letters, digits and `_`).
pub open spec fn token_eq(hay: Seq<char>, name: Seq<char>) -> bool {
    name_split_from(hay, 0).contains(name)
}

fn first_non_name_exec(v: &Vec<char>, i: usize) -> (r: usize)
    requires
        i <= v@.len(),
    ensures
        r == first_non_name(v@, i as int),
        i <= r <= v@.len(),
    decreases v@.len() - i,
{
    if i >= v.len() {
        i
    } else if !is_name_char_exec(v[i]) {
        i
    } else {
        first_non_name_exec(v, i + 1)
    }
}

pub fn is_name_char_exec(c: char) -> (r: bool)
    ensures
        r == text::is_name_char(c),
{
    ('0' <= c && c <= '9') || ('a' <= c && c <= 'z') || ('A' <= c && c <= 'Z') || c == '_'
}

fn name_split(v: &Vec<char>) -> (r: Vec<Vec<char>>)
    ensures
        r@.map_values(|x: Vec<char>| x@) == name_split_from(v@, 0),
{
    let mut r: Vec<Vec<char>> = Vec::new();
    let mut i: usize = 0;
    let ghost acc: Seq<Seq<char>> = Seq::empty();
    loop
        invariant
            i <= v@.len(),
            r@.map_values(|x: Vec<char>| x@) == acc,
            acc + name_split_from(v@, i as int) == name_split_from(v@, 0),
        decreases v@.len() - i,
    {
        let j = first_non_name_exec(v, i);
        let piece = text::slice(v, i, j);
        proof {
            acc = acc.push(piece@);
        }
        r.push(piece);
        assert(r@.map_values(|x: Vec<char>| x@) =~= acc);
        if j >= v.len() {
            assert(acc =~= name_split_from(v@, 0));
            return r;
        }
        assert(acc + name_split_from(v@, j + 1) =~= name_split_from(v@, 0));
        i = j + 1;
    }
}

/// `name` is a name token of `hay`.
pub fn sdc_token_eq(hay: &str, name: &str) -> (r: bool)
    ensures
        r == token_eq(hay@, name@),
{
    let h = text::chars_of(hay);
    let n = text::chars_of(name);
    let parts = name_split(&h);
    let ghost pv = parts@.map_values(|x: Vec<char>| x@);
    let mut k: usize = 0;
    while k < parts.len()
        invariant
            k <= parts@.len(),
            pv == parts@.map_values(|x: Vec<char>| x@),
            pv == name_split_from(h@, 0),
            h@ == hay@,
            n@ == name@,
            forall|q: int| 0 <= q < k ==> pv[q] != n@,
        decreases parts@.len() - k,
    {
        if text::eq_chars(&parts[k], &n) {
            assert(pv[k as int] == n@);
            return true;
        }
        k = k + 1;
    }
    proof {
        if pv.contains(n@) {
            let q = choose|q: int| 0 <= q < pv.len() && pv[q] == n@;
            assert(pv[q] != n@);
        }
    }
    false
}

pub open spec fn combine(a: i64, b: i64) -> i64 {
    if a == 1000 && b == 1000 { 1000 } else { tdiv(sat_i64(a * b) as int, 1000) as i64 }
}

fn combine_milli(a: i64, b: i64) -> (r: i64)
    ensures
        r == combine(a, b),
{
    if a == 1000 && b == 1000 {
        1000
    } else {
        div_trunc(sat_mul_i64(a, b), 1000)
    }
}

pub open spec fn scale_delay(ps: i64, milli: i64) -> i64 {
    if milli == 1000 { ps } else { tdiv(sat_i64(ps * milli) as int, 1000) as i64 }
}

fn scale_delay_ps(ps: i64, milli: i64) -> (r: i64)
    ensures
        r == scale_delay(ps, milli),
{
    if milli == 1000 {
        ps
    } else {
        div_trunc(sat_mul_i64(ps, milli), 1000)
    }
}

/// The group `n` belongs to (first group holding it), if any.
pub open spec fn group_pos(groups: Seq<Vec<String>>, n: Seq<char>, i: int) -> Option<int>
    decreases groups.len() - i,
{
    if i < 0 || i >= groups.len() {
        None
    } else if exists|k: int| 0 <= k < groups[i]@.len() && (#[trigger] groups[i]@[k])@ == n {
        Some(i)
    } else {
        group_pos(groups, n, i + 1)
    }
}

/// `g` puts `a` and `b` in different groups.
pub open spec fn separates(g: ClockGroups, a: Seq<char>, b: Seq<char>) -> bool {
    match (group_pos(g.groups@, a, 0), group_pos(g.groups@, b, 0)) {
        (Some(i), Some(j)) => i != j,
        _ => false,
    }
}

/// Index of the first clock-groups constraint separating `a` and `b`, or the length.
pub open spec fn groups_index(gs: Seq<ClockGroups>, a: Seq<char>, b: Seq<char>, i: int) -> int
    decreases gs.len() - i,
{
    if i < 0 || i >= gs.len() {
        gs.len() as int
    } else if separates(gs[i], a, b) {
        i
    } else {
        groups_index(gs, a, b, i + 1)
    }
}

fn group_pos_exec(groups: &Vec<Vec<String>>, n: &str) -> (r: Option<usize>)
    ensures
        r matches Some(x) ==> group_pos(groups@, n@, 0) == Some(x as int),
        r is None ==> group_pos(groups@, n@, 0) is None,
{
    let mut i: usize = 0;
    while i < groups.len()
        invariant
            i <= groups@.len(),
            group_pos(groups@, n@, 0) == group_pos(groups@, n@, i as int),
        decreases groups@.len() - i,
    {
        let grp = &groups[i];
        let mut k: usize = 0;
        while k < grp.len()
            invariant
                k <= grp@.len(),
                i < groups@.len(),
                grp == groups@[i as int],
                group_pos(groups@, n@, 0) == group_pos(groups@, n@, i as int),
                forall|q: int| 0 <= q < k ==> (#[trigger] grp@[q])@ != n@,
            decreases grp@.len() - k,
        {
            if text::str_eq(grp[k].as_str(), n) {
                assert((groups@[i as int])@[k as int]@ == n@);
                assert(group_pos(groups@, n@, i as int) == Some(i as int));
                return Some(i);
            }
            k = k + 1;
        }
        i = i + 1;
    }
    None
}

/// `{:?}`-free summary of the constraint queries used by timing.
impl Constraints {
    /// Setup path multiplier (default 1). Empty list keeps gold WNS.
    pub fn setup_mult(&self) -> (r: u32)
        ensures
            r as i64 == (if or_d(smax(mc_setup(*self)), 1) > 1 { or_d(smax(mc_setup(*self)), 1) } else { 1 }),
    {
        let v = mc_setup_exec(self);
        let m = or_default(max_opt(&v), 1);
        proof {
            lemma_smax_in(mc_setup(*self));
        }
        if m > 1 {
            m as u32
        } else {
            1
        }
    }

    /// Hold path multiplier (default 0).
    pub fn hold_mult(&self) -> (r: u32)
        ensures
            r as i64 == or_d(smax(mc_hold(*self)), 0),
    {
        let v = mc_hold_exec(self);
        proof {
            lemma_smax_in(mc_hold(*self));
        }
        or_default(max_opt(&v), 0) as u32
    }

    /// Tightest `set_max_delay` in ps, if any.
    pub fn max_delay_ps(&self) -> (r: Option<i64>)
        ensures
            r == smin(max_delay_values(*self)),
    {
        let v = max_delay_values_exec(self);
        min_opt(&v)
    }

    /// Tightest `set_min_delay` in ps (largest required min delay), if any.
    pub fn min_delay_ps(&self) -> (r: Option<i64>)
        ensures
            r == smax(min_delay_values(*self)),
    {
        let v = min_delay_values_exec(self);
        max_opt(&v)
    }

    /// Two or more groups → false path between clocks in different groups.
    pub fn clock_groups_false_path(&self) -> (r: bool)
        ensures
            r == exists|i: int| 0 <= i < self.clock_groups@.len() && (#[trigger] self.clock_groups@[i]).groups@.len() >= 2,
    {
        let mut i: usize = 0;
        while i < self.clock_groups.len()
            invariant
                i <= self.clock_groups@.len(),
                forall|k: int| 0 <= k < i ==> (#[trigger] self.clock_groups@[k]).groups@.len() < 2,
            decreases self.clock_groups@.len() - i,
        {
            if self.clock_groups[i].groups.len() >= 2 {
                return true;
            }
            i = i + 1;
        }
        false
    }

    /// The first `set_clock_groups` that places `a` and `b` in different groups.
    pub fn clock_groups_for_pair(&self, a: &str, b: &str) -> (r: Option<&ClockGroups>)
        ensures
            groups_index(self.clock_groups@, a@, b@, 0) < self.clock_groups@.len() ==> r == Some(
                &self.clock_groups@[groups_index(self.clock_groups@, a@, b@, 0)],
            ),
            groups_index(self.clock_groups@, a@, b@, 0) >= self.clock_groups@.len() ==> r is None,
    {
        let mut i: usize = 0;
        while i < self.clock_groups.len()
            invariant
                i <= self.clock_groups@.len(),
                groups_index(self.clock_groups@, a@, b@, 0) == groups_index(self.clock_groups@, a@, b@, i as int),
            decreases self.clock_groups@.len() - i,
        {
            let g = &self.clock_groups[i];
            let ia = group_pos_exec(&g.groups, a);
            let ib = group_pos_exec(&g.groups, b);
            let hit = match (ia, ib) {
                (Some(x), Some(y)) => x != y,
                _ => false,
            };
            if hit {
                return Some(g);
            }
            i = i + 1;
        }
        None
    }

    /// Inter-clock `set_false_path` whose stored tokens name both clocks.
    pub fn false_path_covers_clocks(&self, from: &str, to: &str) -> (r: bool)
        ensures
            r == (from@ != to@ && exists|i: int|
                0 <= i < self.false_paths@.len() && token_eq((#[trigger] self.false_paths@[i])@, from@)
                    && token_eq(self.false_paths@[i]@, to@)),
    {
        if text::str_eq(from, to) {
            return false;
        }
        let mut i: usize = 0;
        while i < self.false_paths.len()
            invariant
                i <= self.false_paths@.len(),
                from@ != to@,
                forall|k: int| 0 <= k < i ==> !(token_eq((#[trigger] self.false_paths@[k])@, from@) && token_eq(self.false_paths@[k]@, to@)),
            decreases self.false_paths@.len() - i,
        {
            if sdc_token_eq(self.false_paths[i].as_str(), from) && sdc_token_eq(self.false_paths[i].as_str(), to) {
                assert(token_eq(self.false_paths@[i as int]@, from@) && token_eq(self.false_paths@[i as int]@, to@));
                return true;
            }
            i = i + 1;
        }
        false
    }
}

proof fn lemma_smax_in(s: Seq<i64>)
    ensures
        smax(s) matches Some(m) ==> exists|i: int| 0 <= i < s.len() && s[i] == m,
    decreases s.len(),
{
    if s.len() > 0 {
        lemma_smax_in(s.drop_last());
        if let Some(m) = smax(s.drop_last()) {
            let i = choose|i: int| 0 <= i < s.drop_last().len() && s.drop_last()[i] == m;
            assert(s[i] == m);
        }
        assert(s[s.len() - 1] == s.last());
    }
}

/// A `set_max_delay -datapath_only` between clocks `from` and `to`.
pub open spec fn dp_covers(m: MaxDelay, from: Seq<char>, to: Seq<char>) -> bool {
    &&& m.datapath_only
    &&& m.from@.len() > 0
    &&& m.to@.len() > 0
    &&& ((m.from@ == from && m.to@ == to) || (token_eq(m.from@, from) && token_eq(m.to@, to)))
}

/// Delays of the datapath-only max delays covering `from` → `to`.
pub open spec fn dp_delays(ms: Seq<MaxDelay>, from: Seq<char>, to: Seq<char>) -> Seq<i64>
    decreases ms.len(),
{
    if ms.len() == 0 {
        Seq::empty()
    } else {
        let rest = dp_delays(ms.drop_last(), from, to);
        if dp_covers(ms.last(), from, to) { rest.push(ms.last().delay_ps) } else { rest }
    }
}

pub open spec fn has_sense(s: Seq<ClockSense>, sense: Seq<char>) -> bool {
    exists|i: int| 0 <= i < s.len() && (#[trigger] s[i]).sense@ == sense
}

fn has_sense_exec(s: &Vec<ClockSense>, sense: &str) -> (r: bool)
    ensures
        r == has_sense(s@, sense@),
{
    let mut i: usize = 0;
    while i < s.len()
        invariant
            i <= s@.len(),
            forall|k: int| 0 <= k < i ==> (#[trigger] s@[k]).sense@ != sense@,
        decreases s@.len() - i,
    {
        if text::str_eq(s[i].sense.as_str(), sense) {
            return true;
        }
        i = i + 1;
    }
    false
}

/// The group-path weight: the largest weight when positive, else 1000.
pub open spec fn weight_of(c: Constraints) -> i64 {
    match smax(weights(c)) {
        Some(w) => if w > 0 { w } else { 1000 },
        None => 1000,
    }
}

pub open spec fn late_derate(c: Constraints) -> i64 {
    or_d(last_nonzero(derate_late(c)), 1000)
}

pub open spec fn early_derate(c: Constraints) -> i64 {
    or_d(last_nonzero(derate_early(c)), 1000)
}

/// Late (setup) path scale: derate × operating conditions × group-path weight.
pub open spec fn late_milli(c: Constraints) -> i64 {
    combine(combine(late_derate(c), pvt_scale(c.operating_conditions)), weight_of(c))
}

/// Early (hold) path scale: derate × operating conditions.
pub open spec fn early_milli(c: Constraints) -> i64 {
    combine(early_derate(c), pvt_scale(c.operating_conditions))
}

pub open spec fn jitter_total(c: Constraints) -> int {
    or_d(smax(jitters(c)), 0) + c.system_jitter_ps
}

/// Whether the clock network insertion counts: propagated and not stopped.
pub open spec fn network_counts(c: Constraints) -> bool {
    c.propagated_clocks@.len() > 0 && !has_sense(c.clock_senses@, "stop"@)
}

impl Constraints {
    /// Tightest `set_max_delay -datapath_only` covering the clock pair (ps).
    pub fn datapath_max_delay_covers(&self, from: &str, to: &str) -> (r: Option<i64>)
        ensures
            r == smin(dp_delays(self.max_delays@, from@, to@)),
    {
        let mut v: Vec<i64> = Vec::new();
        let mut i: usize = 0;
        while i < self.max_delays.len()
            invariant
                i <= self.max_delays@.len(),
                v@ == dp_delays(self.max_delays@.subrange(0, i as int), from@, to@),
            decreases self.max_delays@.len() - i,
        {
            assert(self.max_delays@.subrange(0, i + 1).drop_last() =~= self.max_delays@.subrange(0, i as int));
            let m = &self.max_delays[i];
            let cov = m.datapath_only && !m.from.as_str().is_empty() && !m.to.as_str().is_empty() && ((text::str_eq(
                m.from.as_str(),
                from,
            ) && text::str_eq(m.to.as_str(), to)) || (sdc_token_eq(m.from.as_str(), from) && sdc_token_eq(
                m.to.as_str(),
                to,
            )));
            proof {
                broadcast use vstd::string::group_string_axioms;
            }
            if cov {
                v.push(m.delay_ps);
            }
            i = i + 1;
        }
        assert(self.max_delays@.subrange(0, self.max_delays@.len() as int) =~= self.max_delays@);
        min_opt(&v)
    }

    /// Largest setup `set_clock_uncertainty` in ps (0 if none).
    pub fn uncertainty_setup_ps(&self) -> (r: i64)
        ensures
            r == or_d(smax(unc_setup(*self)), 0),
    {
        or_default(max_opt(&unc_setup_exec(self)), 0)
    }

    /// Largest hold `set_clock_uncertainty` in ps (0 if none).
    pub fn uncertainty_hold_ps(&self) -> (r: i64)
        ensures
            r == or_d(smax(unc_hold(*self)), 0),
    {
        or_default(max_opt(&unc_hold_exec(self)), 0)
    }

    /// Largest late `set_clock_latency` in ps (0 if none).
    pub fn latency_late_ps(&self) -> (r: i64)
        ensures
            r == or_d(smax(lat_late(*self)), 0),
    {
        or_default(max_opt(&lat_late_exec(self)), 0)
    }

    /// Largest early `set_clock_latency` in ps (0 if none).
    pub fn latency_early_ps(&self) -> (r: i64)
        ensures
            r == or_d(smax(lat_early(*self)), 0),
    {
        or_default(max_opt(&lat_early_exec(self)), 0)
    }

    /// Disabled arcs or case-analysis constants drop I/O paths like a false path.
    pub fn arcs_disabled(&self) -> (r: bool)
        ensures
            r == (self.disable_timings@.len() > 0 || self.case_analyses@.len() > 0),
    {
        self.disable_timings.len() > 0 || self.case_analyses.len() > 0
    }

    /// `set_propagated_clock` is present (ideal clocks otherwise).
    pub fn clocks_propagated(&self) -> (r: bool)
        ensures
            r == (self.propagated_clocks@.len() > 0),
    {
        self.propagated_clocks.len() > 0
    }

    /// `set_clock_sense -stop_propagation` blocks clock-network insertion.
    pub fn clock_stopped(&self) -> (r: bool)
        ensures
            r == has_sense(self.clock_senses@, "stop"@),
    {
        has_sense_exec(&self.clock_senses, "stop")
    }

    /// Largest `set_input_jitter` in ps (0 if none).
    pub fn input_jitter_ps(&self) -> (r: i64)
        ensures
            r == or_d(smax(jitters(*self)), 0),
    {
        or_default(max_opt(&jitters_exec(self)), 0)
    }

    /// Combined input + system jitter subtracted from setup slack.
    pub fn jitter_setup_ps(&self) -> (r: i64)
        requires
            i64::MIN <= jitter_total(*self) <= i64::MAX,
        ensures
            r == jitter_total(*self),
    {
        self.input_jitter_ps() + self.system_jitter_ps
    }

    /// Combined input + system jitter subtracted from hold slack.
    pub fn jitter_hold_ps(&self) -> (r: i64)
        requires
            i64::MIN <= jitter_total(*self) <= i64::MAX,
        ensures
            r == jitter_total(*self),
    {
        self.jitter_setup_ps()
    }

    /// Last `set_timing_derate` late scale (1000 if unset).
    pub fn late_derate_milli(&self) -> (r: i64)
        ensures
            r == late_derate(*self),
    {
        or_default(last_nonzero_exec(&derate_late_exec(self)), 1000)
    }

    /// Last `set_timing_derate` early scale (1000 if unset).
    pub fn early_derate_milli(&self) -> (r: i64)
        ensures
            r == early_derate(*self),
    {
        or_default(last_nonzero_exec(&derate_early_exec(self)), 1000)
    }

    /// Largest setup `set_bus_skew` in ps (0 if none).
    pub fn bus_skew_setup_ps(&self) -> (r: i64)
        ensures
            r == or_d(smax(skews(self.bus_skews@, false)), 0),
    {
        or_default(max_opt(&skews_exec(&self.bus_skews, false)), 0)
    }

    /// Largest hold `set_bus_skew` in ps (0 if none).
    pub fn bus_skew_hold_ps(&self) -> (r: i64)
        ensures
            r == or_d(smax(skews(self.bus_skews@, true)), 0),
    {
        or_default(max_opt(&skews_exec(&self.bus_skews, true)), 0)
    }

    /// `group_path -weight` scale in parts-per-thousand (1000 = 1.0, gold WNS).
    pub fn group_path_weight_milli(&self) -> (r: i64)
        ensures
            r == weight_of(*self),
    {
        match max_opt(&weights_exec(self)) {
            Some(w) => if w > 0 {
                w
            } else {
                1000
            },
            None => 1000,
        }
    }

    /// Largest `group_path -critical_range` in ps (0 if unset).
    pub fn group_path_critical_range_ps(&self) -> (r: i64)
        ensures
            r == or_d(smax(critical_ranges(*self)), 0),
    {
        or_default(max_opt(&critical_ranges_exec(self)), 0)
    }

    /// Largest `set_max_time_borrow` in ps (0 if none — gold WNS).
    pub fn time_borrow_ps(&self) -> (r: i64)
        ensures
            r == or_d(smax(borrows(*self)), 0),
    {
        or_default(max_opt(&borrows_exec(self)), 0)
    }

    /// Largest setup `set_data_check` in ps (0 if none).
    pub fn data_check_setup_ps(&self) -> (r: i64)
        ensures
            r == or_d(smax(dc_setup(*self)), 0),
    {
        or_default(max_opt(&dc_setup_exec(self)), 0)
    }

    /// Largest hold `set_data_check` in ps (0 if none).
    pub fn data_check_hold_ps(&self) -> (r: i64)
        ensures
            r == or_d(smax(dc_hold(*self)), 0),
    {
        or_default(max_opt(&dc_hold_exec(self)), 0)
    }

    /// Late (setup) path scale: derate × operating conditions × group-path
    /// weight. 1000 keeps gold WNS.
    pub fn path_late_milli(&self) -> (r: i64)
        requires
            pvt_ok(self.operating_conditions),
        ensures
            r == late_milli(*self),
    {
        combine_milli(
            combine_milli(self.late_derate_milli(), self.operating_conditions.scale_milli()),
            self.group_path_weight_milli(),
        )
    }

    /// Early (hold) path scale: derate × operating conditions. 1000 keeps gold hold.
    pub fn path_early_milli(&self) -> (r: i64)
        requires
            pvt_ok(self.operating_conditions),
        ensures
            r == early_milli(*self),
    {
        combine_milli(self.early_derate_milli(), self.operating_conditions.scale_milli())
    }

    /// Routed clock insertion applied to STA. Ideal or stopped clocks keep 0.
    pub fn propagated_network_ps(&self, clk_net_ps: i64) -> (r: i64)
        ensures
            r == (if network_counts(*self) { clk_net_ps } else { 0 }),
    {
        if self.clocks_propagated() && !self.clock_stopped() {
            clk_net_ps
        } else {
            0
        }
    }

    /// `-negative` clock sense uses the falling edge (half-cycle setup).
    pub fn clock_sense_setup_ps(&self, period_ps: u64) -> (r: i64)
        ensures
            r == (if has_sense(self.clock_senses@, "negative"@) { tdiv((period_ps as i64) as int, 2) as i64 } else { 0 }),
    {
        if has_sense_exec(&self.clock_senses, "negative") {
            div_trunc(period_ps as i64, 2)
        } else {
            0
        }
    }
}

// ---------------------------------------------------------------------------
// Applying constraints to a timing result
// ---------------------------------------------------------------------------

pub open spec fn in_range(x: int) -> bool {
    i64::MIN <= x <= i64::MAX
}

pub open spec fn map_values(m: Seq<(String, i64)>) -> Seq<i64> {
    Seq::new(m.len(), |i: int| m[i].1)
}

/// I/O paths are dropped: false paths, clock groups, disabled arcs or case analysis.
pub open spec fn io_dropped(x: Constraints) -> bool {
    x.false_paths@.len() > 0 || (exists|i: int| 0 <= i < x.clock_groups@.len() && (#[trigger] x.clock_groups@[i]).groups@.len() >= 2)
        || x.disable_timings@.len() > 0 || x.case_analyses@.len() > 0
}

pub open spec fn mult_setup(x: Constraints) -> i64 {
    if or_d(smax(mc_setup(x)), 1) > 1 { or_d(smax(mc_setup(x)), 1) } else { 1 }
}

/// The setup requirement: the tightest max delay, else the period times the
/// setup multiplier (saturating).
pub open spec fn setup_req(x: Constraints, period_ps: u64) -> int {
    match smin(max_delay_values(x)) {
        Some(m) => m as int,
        None => sat_i64((period_ps as i64) * mult_setup(x)) as int,
    }
}

/// The setup path after I/O exceptions and I/O delays.
pub open spec fn setup_path(r: TimingResult, x: Constraints) -> int {
    let od = or_d(smax(map_values(x.output_delay_ps@)), 0);
    let id = or_d(smax(map_values(x.input_delay_ps@)), 0);
    if io_dropped(x) {
        r.r2r_ps as int
    } else if id != 0 || od != 0 {
        r.setup_ps + (od + id)
    } else {
        r.setup_ps as int
    }
}

pub open spec fn net_ps(r: TimingResult, x: Constraints) -> int {
    if network_counts(x) { r.clk_net_ps as int } else { 0 }
}

pub open spec fn sense_ps(x: Constraints, period_ps: u64) -> int {
    if has_sense(x.clock_senses@, "negative"@) { tdiv((period_ps as i64) as int, 2) } else { 0 }
}

/// The WNS chain: requirement − scaled setup − uncertainty − jitter − late
/// latency − clock network − clock sense − bus skew − data check, then + time
/// borrow; every partial result, in order.
pub open spec fn wns_steps(r: TimingResult, x: Constraints, period_ps: u64) -> Seq<int> {
    let w0 = setup_req(x, period_ps) - scale_delay(setup_path(r, x) as i64, late_milli(x));
    let w1 = w0 - or_d(smax(unc_setup(x)), 0);
    let w2 = w1 - jitter_total(x);
    let w3 = w2 - or_d(smax(lat_late(x)), 0);
    let w4 = w3 - net_ps(r, x);
    let w5 = w4 - sense_ps(x, period_ps);
    let w6 = w5 - or_d(smax(skews(x.bus_skews@, false)), 0);
    let w7 = w6 - or_d(smax(dc_setup(x)), 0);
    let w8 = w7 + or_d(smax(borrows(x)), 0);
    seq![w0, w1, w2, w3, w4, w5, w6, w7, w8]
}

pub open spec fn mult_hold(x: Constraints) -> i64 {
    or_d(smax(mc_hold(x)), 0)
}

/// Hold slack before the uncertainty-style terms.
pub open spec fn hold_base(r: TimingResult, x: Constraints, period_ps: u64) -> int {
    let h = scale_delay(r.hold_ps, early_milli(x));
    match smax(min_delay_values(x)) {
        Some(m) => h - m,
        None => if mult_hold(x) > 0 || early_milli(x) != 1000 {
            h - HOLD_REQ_PS - sat_i64((period_ps as i64) * mult_hold(x))
        } else {
            r.hold_slack_ps as int
        },
    }
}

/// Uncertainty + jitter + early latency + clock network + bus skew + data
/// check, as partial sums in order.
pub open spec fn hold_terms(r: TimingResult, x: Constraints) -> Seq<int> {
    let s0 = or_d(smax(unc_hold(x)), 0) + jitter_total(x);
    let s1 = s0 + or_d(smax(lat_early(x)), 0);
    let s2 = s1 + net_ps(r, x);
    let s3 = s2 + or_d(smax(skews(x.bus_skews@, true)), 0);
    let s4 = s3 + or_d(smax(dc_hold(x)), 0);
    seq![s0, s1, s2, s3, s4]
}

/// Every step of applying `x` to `r` stays within `i64`.
pub open spec fn apply_fits(r: TimingResult, x: Constraints, period_ps: u64) -> bool {
    let h = scale_delay(r.hold_ps, early_milli(x));
    &&& pvt_ok(x.operating_conditions)
    &&& in_range(jitter_total(x))
    &&& in_range(setup_path(r, x))
    &&& in_range(or_d(smax(map_values(x.output_delay_ps@)), 0) + or_d(smax(map_values(x.input_delay_ps@)), 0))
    &&& forall|i: int| 0 <= i < 9 ==> in_range(#[trigger] wns_steps(r, x, period_ps)[i])
    &&& in_range(h - HOLD_REQ_PS)
    &&& in_range(hold_base(r, x, period_ps))
    &&& forall|i: int| 0 <= i < 5 ==> in_range(#[trigger] hold_terms(r, x)[i])
    &&& in_range(hold_base(r, x, period_ps) - hold_terms(r, x)[4])
}

fn map_max(m: &Vec<(String, i64)>) -> (r: i64)
    ensures
        r == or_d(smax(map_values(m@)), 0),
{
    let mut v: Vec<i64> = Vec::new();
    let mut i: usize = 0;
    while i < m.len()
        invariant
            i <= m@.len(),
            v@ == Seq::new(i as nat, |k: int| m@[k].1),
        decreases m@.len() - i,
    {
        v.push(m[i].1);
        i = i + 1;
        assert(v@ =~= Seq::new(i as nat, |k: int| m@[k].1));
    }
    assert(v@ =~= map_values(m@));
    or_default(max_opt(&v), 0)
}

/// Applies the timing constraints to an STA result: I/O exceptions drop the
/// IOB contribution, I/O delays add to setup; the requirement is the max
/// delay or period × setup multiplier; uncertainty, jitter, latency, clock
/// network, clock sense, bus skew and data check subtract from setup slack and
/// time borrow adds; hold uses the min delay or hold multiplier and the same
/// subtractions. Empty constraints keep gold WNS.
pub fn apply_xdc_delays(r: &mut TimingResult, xdc: &Constraints, period_ps: u64)
    requires
        apply_fits(*old(r), *xdc, period_ps),
    ensures
        final(r).clocks == old(r).clocks,
        final(r).endpoints == old(r).endpoints,
        final(r).r2r_ps == old(r).r2r_ps,
        final(r).hold_ps == old(r).hold_ps,
        final(r).route_ps == old(r).route_ps,
        final(r).clk_net_ps == old(r).clk_net_ps,
        final(r).iob_ps == (if io_dropped(*xdc) { 0 } else { old(r).iob_ps }),
        final(r).setup_ps == setup_path(*old(r), *xdc),
        final(r).wns_ps == wns_steps(*old(r), *xdc, period_ps)[8],
        final(r).tns_ps == (if final(r).wns_ps < 0 { final(r).wns_ps } else { 0 }),
        final(r).hold_slack_ps == hold_base(*old(r), *xdc, period_ps) - hold_terms(*old(r), *xdc)[4],
{
    let ghost r0 = *r;
    let ghost ws = wns_steps(r0, *xdc, period_ps);
    let ghost hs = hold_terms(r0, *xdc);
    assert(in_range(ws[0]) && in_range(ws[1]) && in_range(ws[2]) && in_range(ws[3]) && in_range(ws[4]));
    assert(in_range(ws[5]) && in_range(ws[6]) && in_range(ws[7]) && in_range(ws[8]));
    assert(in_range(hs[0]) && in_range(hs[1]) && in_range(hs[2]) && in_range(hs[3]) && in_range(hs[4]));
    let false_out = xdc.false_paths.len() > 0 || xdc.clock_groups_false_path() || xdc.arcs_disabled();
    let out_d = map_max(&xdc.output_delay_ps);
    let in_d = map_max(&xdc.input_delay_ps);
    if false_out {
        r.iob_ps = 0;
        r.setup_ps = r.r2r_ps;
    } else if in_d != 0 || out_d != 0 {
        r.setup_ps = r.setup_ps + (out_d + in_d);
    }
    let clk_net = xdc.propagated_network_ps(r.clk_net_ps);
    let sense = xdc.clock_sense_setup_ps(period_ps);
    let req_ps = match xdc.max_delay_ps() {
        Some(m) => m,
        None => sat_mul_i64(period_ps as i64, xdc.setup_mult() as i64),
    };
    let setup = scale_delay_ps(r.setup_ps, xdc.path_late_milli());
    r.wns_ps = req_ps - setup - xdc.uncertainty_setup_ps() - xdc.jitter_setup_ps() - xdc.latency_late_ps() - clk_net
        - sense - xdc.bus_skew_setup_ps() - xdc.data_check_setup_ps() + xdc.time_borrow_ps();
    r.tns_ps = if r.wns_ps < 0 {
        r.wns_ps
    } else {
        0
    };
    let hold = scale_delay_ps(r.hold_ps, xdc.path_early_milli());
    match xdc.min_delay_ps() {
        Some(min_d) => {
            r.hold_slack_ps = hold - min_d;
        },
        None => {
            let hold_mult = xdc.hold_mult();
            if hold_mult > 0 || xdc.path_early_milli() != 1000 {
                r.hold_slack_ps = hold - HOLD_REQ_PS - sat_mul_i64(period_ps as i64, hold_mult as i64);
            }
        },
    }
    r.hold_slack_ps = r.hold_slack_ps - (xdc.uncertainty_hold_ps() + xdc.jitter_hold_ps() + xdc.latency_early_ps()
        + clk_net + xdc.bus_skew_hold_ps() + xdc.data_check_hold_ps());
}

// ---------------------------------------------------------------------------
// Clock interaction (UG949)
// ---------------------------------------------------------------------------

pub open spec fn gcd(a: nat, b: nat) -> nat
    decreases b,
{
    if b == 0 { a } else { gcd(b, a % b) }
}

proof fn lemma_gcd_pos(a: nat, b: nat)
    requires
        a > 0 || b > 0,
    ensures
        gcd(a, b) > 0,
    decreases b,
{
    if b > 0 {
        lemma_gcd_pos(b, a % b);
    }
}

fn gcd_u64(a0: u64, b0: u64) -> (r: u64)
    ensures
        r == gcd(a0 as nat, b0 as nat),
{
    let mut a = a0;
    let mut b = b0;
    while b != 0
        invariant
            gcd(a as nat, b as nat) == gcd(a0 as nat, b0 as nat),
        decreases b,
    {
        let t = b;
        b = a % b;
        a = t;
    }
    a
}

/// The common period `a / gcd(a, b) * b` of two periods (0 when one is 0).
pub open spec fn common_period(a: u64, b: u64) -> int {
    if a == 0 || b == 0 { 0 } else { ((a as nat) / gcd(a as nat, b as nat)) * b }
}

fn lcm_u64(a: u64, b: u64) -> (r: u64)
    requires
        common_period(a, b) <= u64::MAX,
    ensures
        r == common_period(a, b),
{
    if a == 0 || b == 0 {
        return 0;
    }
    proof {
        lemma_gcd_pos(a as nat, b as nat);
    }
    let g = gcd_u64(a, b);
    a / g * b
}

/// One period divides the other (both non-zero).
pub open spec fn harmonic(a: u64, b: u64) -> bool {
    a != 0 && b != 0 && if a < b { b % a == 0 } else { a % b == 0 }
}

fn harmonic_periods(a: u64, b: u64) -> (r: bool)
    ensures
        r == harmonic(a, b),
{
    if a == 0 || b == 0 {
        return false;
    }
    let (lo, hi) = if a < b {
        (a, b)
    } else {
        (b, a)
    };
    hi % lo == 0
}

/// The root of `c`'s generated-clock tree, following masters at most `k` times;
/// a master that is not a listed clock is itself the root.
pub open spec fn root_walk(cs: Seq<Clock>, c: Clock, k: nat) -> Seq<char>
    decreases k,
{
    if k == 0 {
        c.name@
    } else {
        match c.master {
            None => c.name@,
            Some(m) => {
                let i = clock_index(cs, m@, 0);
                if 0 <= i < cs.len() { root_walk(cs, cs[i], (k - 1) as nat) } else { m@ }
            },
        }
    }
}

proof fn lemma_clock_index(cs: Seq<Clock>, n: Seq<char>, i: int)
    requires
        0 <= i <= cs.len(),
    ensures
        i <= clock_index(cs, n, i) <= cs.len(),
        clock_index(cs, n, i) < cs.len() ==> cs[clock_index(cs, n, i)].name@ == n,
    decreases cs.len() - i,
{
    if i < cs.len() && cs[i].name@ != n {
        lemma_clock_index(cs, n, i + 1);
    }
}

fn clock_root(clocks: &[Clock], c: &Clock) -> (r: String)
    ensures
        r@ == root_walk(clocks@, *c, 8),
{
    let mut cur: Clock = copy_clock(c);
    let mut k: usize = 8;
    let v = copy_clocks(clocks);
    while k > 0
        invariant
            k <= 8,
            same_clocks(v@, clocks@),
            root_walk(clocks@, *c, 8) == root_walk(clocks@, cur, k as nat),
        decreases k,
    {
        match &cur.master {
            Some(m) => {
                let idx = find_clock(&v, m.as_str());
                proof {
                    assert forall|q: int| 0 <= q <= v@.len() implies clock_index(v@, m@, q) == clock_index(clocks@, m@, q) by {
                        lemma_clock_index_same(v@, clocks@, m@, q);
                    }
                    lemma_clock_index(clocks@, m@, 0);
                }
                if idx < v.len() {
                    let next = copy_clock(&v[idx]);
                    proof {
                        assert(same_clock(v@[idx as int], clocks@[idx as int]));
                        lemma_root_walk_same(clocks@, next, clocks@[idx as int], (k - 1) as nat);
                    }
                    cur = next;
                } else {
                    return m.clone();
                }
            },
            None => {
                return cur.name.clone();
            },
        }
        k = k - 1;
    }
    cur.name.clone()
}

proof fn lemma_clock_index_same(a: Seq<Clock>, b: Seq<Clock>, n: Seq<char>, i: int)
    requires
        same_clocks(a, b),
        0 <= i <= a.len(),
    ensures
        clock_index(a, n, i) == clock_index(b, n, i),
    decreases a.len() - i,
{
    if i < a.len() {
        assert(same_clock(a[i], b[i]));
        lemma_clock_index_same(a, b, n, i + 1);
    }
}

proof fn lemma_root_walk_same(cs: Seq<Clock>, x: Clock, y: Clock, k: nat)
    requires
        same_clock(x, y),
    ensures
        root_walk(cs, x, k) == root_walk(cs, y, k),
{
    if k > 0 {
        match x.master {
            Some(m) => {
                assert(y.master matches Some(m2) && m2@ == m@);
            },
            None => {},
        }
    }
}

/// The UG949 class of the `from` → `to` cell.
pub open spec fn classify(from: Clock, to: Clock, cs: Seq<Clock>, x: Constraints) -> ClockRelation {
    let gi = groups_index(x.clock_groups@, from.name@, to.name@, 0);
    let same_root = root_walk(cs, from, 8) == root_walk(cs, to, 8);
    if from.name@ != to.name@ && gi < x.clock_groups@.len() && x.clock_groups@[gi].exclusive {
        ClockRelation::Exclusive
    } else if from.name@ != to.name@ && gi < x.clock_groups@.len() && x.clock_groups@[gi].asynchronous {
        ClockRelation::Asynchronous
    } else if from.name@ != to.name@ && exists|i: int|
        0 <= i < x.false_paths@.len() && token_eq((#[trigger] x.false_paths@[i])@, from.name@) && token_eq(
            x.false_paths@[i]@,
            to.name@,
        ) {
        ClockRelation::FalsePath
    } else if from.name@ != to.name@ && smin(dp_delays(x.max_delays@, from.name@, to.name@)) is Some {
        ClockRelation::TimedDatapath
    } else if from.name@ == to.name@ {
        ClockRelation::Timed
    } else if same_root && (from.generated || to.generated) {
        ClockRelation::TimedGenerated
    } else if same_root && harmonic(from.period_ps, to.period_ps) {
        ClockRelation::Timed
    } else {
        ClockRelation::TimedUnsafe
    }
}

fn classify_clock_pair(from: &Clock, to: &Clock, clocks: &[Clock], xdc: &Constraints) -> (r: ClockRelation)
    ensures
        r == classify(*from, *to, clocks@, *xdc),
{
    let differ = !text::str_eq(from.name.as_str(), to.name.as_str());
    if differ {
        match xdc.clock_groups_for_pair(from.name.as_str(), to.name.as_str()) {
            Some(g) => {
                if g.exclusive {
                    return ClockRelation::Exclusive;
                }
                if g.asynchronous {
                    return ClockRelation::Asynchronous;
                }
            },
            None => {},
        }
        if xdc.false_path_covers_clocks(from.name.as_str(), to.name.as_str()) {
            return ClockRelation::FalsePath;
        }
        if xdc.datapath_max_delay_covers(from.name.as_str(), to.name.as_str()).is_some() {
            return ClockRelation::TimedDatapath;
        }
    }
    if !differ {
        return ClockRelation::Timed;
    }
    let ra = clock_root(clocks, from);
    let rb = clock_root(clocks, to);
    let same_root = text::str_eq(ra.as_str(), rb.as_str());
    if same_root && (from.generated || to.generated) {
        return ClockRelation::TimedGenerated;
    }
    if same_root && harmonic_periods(from.period_ps, to.period_ps) {
        return ClockRelation::Timed;
    }
    ClockRelation::TimedUnsafe
}

/// One From×To cell of the UG949 clock interaction matrix.
#[derive(Clone, Debug)]
pub struct ClockInteractionCell {
    pub from: String,
    pub to: String,
    pub relation: ClockRelation,
    pub common_period_ps: u64,
    pub requirement_ps: i64,
    pub wns_ps: Option<i64>,
    pub path_count: usize,
}

/// UG949 clock interaction report: N×N matrix from STA clocks + constraints.
#[derive(Clone, Debug)]
pub struct ClockInteraction {
    pub clocks: Vec<Clock>,
    pub cells: Vec<ClockInteractionCell>,
}

impl Default for ClockInteraction {
    fn default() -> (r: Self)
        ensures
            r.clocks@.len() == 0,
            r.cells@.len() == 0,
    {
        ClockInteraction { clocks: Vec::new(), cells: Vec::new() }
    }
}

/// The requirement analysed against: the tightest max delay, else the first
/// analysis clock's period times the setup multiplier (saturating).
pub open spec fn analysis_req(acs: Seq<Clock>, x: Constraints) -> int {
    match smin(max_delay_values(x)) {
        Some(m) => m as int,
        None => sat_i64(((if acs.len() > 0 { acs[0].period_ps } else { 0 }) as i64) * mult_setup(x)) as int,
    }
}

/// The requirement of a cell: the covering datapath-only max delay, else the
/// destination period.
pub open spec fn pair_req(from: Clock, to: Clock, x: Constraints) -> int {
    match smin(dp_delays(x.max_delays@, from.name@, to.name@)) {
        Some(d) => d as int,
        None => (to.period_ps as i64) as int,
    }
}

/// Cell `from` → `to` as the report computes it, `areq` the analysis requirement.
pub open spec fn cell_is(c: ClockInteractionCell, from: Clock, to: Clock, cs: Seq<Clock>, x: Constraints, t: Option<TimingResult>, areq: int) -> bool {
    let rel = classify(from, to, cs, x);
    let req = pair_req(from, to, x);
    let excepted = rel == ClockRelation::FalsePath || rel == ClockRelation::Asynchronous
        || rel == ClockRelation::Exclusive || rel == ClockRelation::NoPaths;
    &&& c.from@ == from.name@
    &&& c.to@ == to.name@
    &&& c.relation == rel
    &&& c.common_period_ps == common_period(from.period_ps, to.period_ps)
    &&& c.requirement_ps == req
    &&& c.wns_ps == (if excepted {
        None
    } else {
        match t {
            Some(tr) => Some((req - (areq - tr.wns_ps)) as i64),
            None => None,
        }
    })
    &&& c.path_count == (if excepted {
        0
    } else {
        match t {
            Some(tr) => if from.name@ == to.name@ { tr.endpoints } else { 1 },
            None => if from.name@ != to.name@ { 1 } else { 0 },
        }
    })
}

/// The report can be computed without overflow.
pub open spec fn interaction_fits(cs: Seq<Clock>, x: Constraints, t: Option<TimingResult>, areq: int) -> bool {
    &&& in_range(areq)
    &&& forall|i: int, j: int|
        0 <= i < cs.len() && 0 <= j < cs.len() ==> common_period(#[trigger] cs[i].period_ps, #[trigger] cs[j].period_ps) <= u64::MAX
    &&& forall|tr: TimingResult| t == Some(tr) ==> {
        &&& in_range(areq - tr.wns_ps)
        &&& forall|i: int, j: int|
            0 <= i < cs.len() && 0 <= j < cs.len() ==> in_range(#[trigger] pair_req(cs[i], cs[j], x) - (areq - tr.wns_ps))
    }
}

/// The clocks a report covers: the given ones, else the constraint clocks.
pub open spec fn report_clocks(clocks: Seq<Clock>, x: Constraints) -> Seq<Clock> {
    if clocks.len() == 0 { x.clocks@ } else { clocks }
}

/// The clocks the requirement is analysed against: the timing result's, when
/// it has any, else the report clocks.
pub open spec fn analysis_clocks(cs: Seq<Clock>, t: Option<TimingResult>) -> Seq<Clock> {
    match t {
        Some(tr) => if tr.clocks@.len() > 0 { tr.clocks@ } else { cs },
        None => cs,
    }
}

pub open spec fn opt_timing(t: Option<&TimingResult>) -> Option<TimingResult> {
    match t {
        Some(r) => Some(*r),
        None => None,
    }
}

fn make_cell(from: &Clock, to: &Clock, cs: &[Clock], xdc: &Constraints, timing: Option<&TimingResult>, areq: i64) -> (r: ClockInteractionCell)
    requires
        common_period(from.period_ps, to.period_ps) <= u64::MAX,
        forall|tr: TimingResult| opt_timing(timing) == Some(tr) ==> in_range(areq - tr.wns_ps) && in_range(
            pair_req(*from, *to, *xdc) - (areq - tr.wns_ps),
        ),
    ensures
        cell_is(r, *from, *to, cs@, *xdc, opt_timing(timing), areq as int),
{
    let relation = classify_clock_pair(from, to, cs, xdc);
    let common_period_ps = lcm_u64(from.period_ps, to.period_ps);
    let requirement_ps = match xdc.datapath_max_delay_covers(from.name.as_str(), to.name.as_str()) {
        Some(d) => d,
        None => to.period_ps as i64,
    };
    let excepted = match relation {
        ClockRelation::FalsePath | ClockRelation::Asynchronous | ClockRelation::Exclusive | ClockRelation::NoPaths => true,
        _ => false,
    };
    let same = text::str_eq(from.name.as_str(), to.name.as_str());
    let (wns_ps, path_count) = if excepted {
        (None, 0)
    } else {
        match timing {
            Some(t) => {
                assert(opt_timing(timing) == Some(*t));
                let delay = areq - t.wns_ps;
                (Some(requirement_ps - delay), if same {
                    t.endpoints
                } else {
                    1
                })
            },
            None => (None, if !same {
                1
            } else {
                0
            }),
        }
    };
    ClockInteractionCell {
        from: from.name.clone(),
        to: to.name.clone(),
        relation,
        common_period_ps,
        requirement_ps,
        wns_ps,
        path_count,
    }
}

/// UG949 `report_clock_interaction`: the From×To matrix (row-major) over the
/// given clocks (else the constraint clocks), classified by the constraints'
/// CDC exceptions. Intra-clock and timed cells carry the STA slack for their
/// requirement when a timing result is given; excepted cells have no WNS. No
/// clocks give an empty report.
pub fn report_clock_interaction(clocks: &[Clock], xdc: &Constraints, timing: Option<&TimingResult>) -> (r: ClockInteraction)
    requires
        interaction_fits(
            report_clocks(clocks@, *xdc),
            *xdc,
            opt_timing(timing),
            analysis_req(analysis_clocks(report_clocks(clocks@, *xdc), opt_timing(timing)), *xdc),
        ),
    ensures
        ({
            let cs = report_clocks(clocks@, *xdc);
            let areq = analysis_req(analysis_clocks(cs, opt_timing(timing)), *xdc);
            &&& cs.len() == 0 ==> r.clocks@.len() == 0 && r.cells@.len() == 0
            &&& cs.len() > 0 ==> {
                &&& same_clocks(r.clocks@, cs)
                &&& r.cells@.len() == cs.len() * cs.len()
                &&& forall|i: int, j: int|
                    0 <= i < cs.len() && 0 <= j < cs.len() ==> cell_is(
                        #[trigger] r.cells@[i * cs.len() + j],
                        cs[i],
                        cs[j],
                        cs,
                        *xdc,
                        opt_timing(timing),
                        areq,
                    )
            }
        }),
{
    let cs: &[Clock] = if clocks.len() == 0 {
        xdc.clocks.as_slice()
    } else {
        clocks
    };
    if cs.len() == 0 {
        return ClockInteraction::default();
    }
    let acs: &[Clock] = match timing {
        Some(t) => if t.clocks.len() > 0 {
            t.clocks.as_slice()
        } else {
            cs
        },
        None => cs,
    };
    assert(acs@ == analysis_clocks(cs@, opt_timing(timing)));
    let areq: i64 = match xdc.max_delay_ps() {
        Some(m) => m,
        None => {
            let p: u64 = if acs.len() > 0 {
                acs[0].period_ps
            } else {
                0
            };
            sat_mul_i64(p as i64, xdc.setup_mult() as i64)
        },
    };
    let ghost n = cs@.len();
    let mut cells: Vec<ClockInteractionCell> = Vec::new();
    let mut i: usize = 0;
    while i < cs.len()
        invariant
            i <= cs@.len(),
            n == cs@.len(),
            n > 0,
            cs@ == report_clocks(clocks@, *xdc),
            areq == analysis_req(analysis_clocks(cs@, opt_timing(timing)), *xdc),
            interaction_fits(cs@, *xdc, opt_timing(timing), areq as int),
            cells@.len() == i * n,
            forall|k: int| 0 <= k < i * n ==> cell_is(#[trigger] cells@[k], cs@[k / n as int], cs@[k % n as int], cs@, *xdc, opt_timing(timing), areq as int),
        decreases cs@.len() - i,
    {
        let mut j: usize = 0;
        while j < cs.len()
            invariant
                i < cs@.len(),
                j <= cs@.len(),
                n == cs@.len(),
                n > 0,
                cs@ == report_clocks(clocks@, *xdc),
                areq == analysis_req(analysis_clocks(cs@, opt_timing(timing)), *xdc),
                interaction_fits(cs@, *xdc, opt_timing(timing), areq as int),
                cells@.len() == i * n + j,
                forall|k: int| 0 <= k < i * n + j ==> cell_is(#[trigger] cells@[k], cs@[k / n as int], cs@[k % n as int], cs@, *xdc, opt_timing(timing), areq as int),
            decreases cs@.len() - j,
        {
            proof {
                assert(common_period(cs@[i as int].period_ps, cs@[j as int].period_ps) <= u64::MAX);
                assert forall|tr: TimingResult| opt_timing(timing) == Some(tr) implies in_range(areq - tr.wns_ps) && in_range(
                    pair_req(cs@[i as int], cs@[j as int], *xdc) - (areq - tr.wns_ps),
                ) by {
                    assert(in_range(pair_req(cs@[i as int], cs@[j as int], *xdc) - (areq - tr.wns_ps)));
                }
            }
            let c = make_cell(&cs[i], &cs[j], cs, xdc, timing, areq);
            proof {
                let k = i * n + j;
                vstd::arithmetic::div_mod::lemma_fundamental_div_mod_converse(k as int, n as int, i as int, j as int);
                assert(k / (n as int) == i && k % (n as int) == j);
            }
            cells.push(c);
            j = j + 1;
        }
        assert((i + 1) * n == i * n + n) by (nonlinear_arith);
        i = i + 1;
    }
    proof {
        assert forall|a: int, b: int| 0 <= a < n && 0 <= b < n implies cell_is(
            #[trigger] cells@[a * n + b],
            cs@[a],
            cs@[b],
            cs@,
            *xdc,
            opt_timing(timing),
            areq as int,
        ) by {
            vstd::arithmetic::div_mod::lemma_fundamental_div_mod_converse(a * n + b, n as int, a, b);
            assert(a * n + b < n * n) by (nonlinear_arith)
                requires
                    0 <= a < n,
                    0 <= b < n,
            ;
        }
    }
    ClockInteraction { clocks: copy_clocks(cs), cells }
}

/// Index of the first cell `from` → `to`, or the length.
pub open spec fn cell_index(cs: Seq<ClockInteractionCell>, from: Seq<char>, to: Seq<char>, i: int) -> int
    decreases cs.len() - i,
{
    if i < 0 || i >= cs.len() {
        cs.len() as int
    } else if cs[i].from@ == from && cs[i].to@ == to {
        i
    } else {
        cell_index(cs, from, to, i + 1)
    }
}

pub open spec fn count_timed(cs: Seq<ClockInteractionCell>) -> nat
    decreases cs.len(),
{
    if cs.len() == 0 {
        0
    } else {
        count_timed(cs.drop_last()) + if cs.last().relation == ClockRelation::Timed || cs.last().relation
            == ClockRelation::TimedGenerated { 1nat } else { 0nat }
    }
}

pub open spec fn count_unsafe(cs: Seq<ClockInteractionCell>) -> nat
    decreases cs.len(),
{
    if cs.len() == 0 {
        0
    } else {
        count_unsafe(cs.drop_last()) + if cs.last().relation == ClockRelation::TimedUnsafe { 1nat } else { 0nat }
    }
}

pub open spec fn count_cdc(cs: Seq<ClockInteractionCell>) -> nat
    decreases cs.len(),
{
    if cs.len() == 0 {
        0
    } else {
        count_cdc(cs.drop_last()) + if cs.last().from@ != cs.last().to@ && relation_is_cdc(cs.last().relation) {
            1nat
        } else {
            0nat
        }
    }
}

pub open spec fn clock_line(c: Clock) -> Seq<char> {
    "clock "@ + c.name@ + " PERIOD_PS="@ + text::dec(c.period_ps as nat) + " generated="@
        + (if c.generated { seq!['1'] } else { seq!['0'] }) + " MASTER="@ + match c.master {
        Some(m) => m@,
        None => seq!['-'],
    }
}

pub open spec fn cell_line(c: ClockInteractionCell) -> Seq<char> {
    "FROM="@ + c.from@ + " TO="@ + c.to@ + seq![' '] + relation_name(c.relation) + " COMMON_PS="@ + text::dec(
        c.common_period_ps as nat,
    ) + " REQ_PS="@ + text::dec_int(c.requirement_ps as int) + seq![' '] + match c.wns_ps {
        Some(w) => "WNS_PS="@ + text::dec_int(w as int),
        None => "WNS_PS=n/a"@,
    } + " paths="@ + text::dec(c.path_count as nat)
}

pub open spec fn clock_lines(cs: Seq<Clock>) -> Seq<char>
    decreases cs.len(),
{
    if cs.len() == 0 { Seq::empty() } else { clock_lines(cs.drop_last()) + seq!['\n'] + clock_line(cs.last()) }
}

pub open spec fn cell_lines(cs: Seq<ClockInteractionCell>) -> Seq<char>
    decreases cs.len(),
{
    if cs.len() == 0 { Seq::empty() } else { cell_lines(cs.drop_last()) + seq!['\n'] + cell_line(cs.last()) }
}

/// The report text: a header line, one line per clock, one line per cell.
pub open spec fn interaction_text(r: ClockInteraction) -> Seq<char> {
    if r.clocks@.len() == 0 {
        "no clocks — create_clock / report_clock_interaction"@
    } else {
        "report_clock_interaction clocks="@ + text::dec(r.clocks@.len()) + " cells="@ + text::dec(r.cells@.len())
            + " timed="@ + text::dec(count_timed(r.cells@)) + " unsafe="@ + text::dec(count_unsafe(r.cells@))
            + " cdc="@ + text::dec(count_cdc(r.cells@)) + clock_lines(r.clocks@) + cell_lines(r.cells@)
    }
}

proof fn lemma_counts_le(cs: Seq<ClockInteractionCell>)
    ensures
        count_timed(cs) <= cs.len(),
        count_unsafe(cs) <= cs.len(),
        count_cdc(cs) <= cs.len(),
    decreases cs.len(),
{
    if cs.len() > 0 {
        lemma_counts_le(cs.drop_last());
    }
}

fn push_cell_line(o: &mut Vec<char>, c: &ClockInteractionCell)
    ensures
        final(o)@ == old(o)@ + seq!['\n'] + cell_line(*c),
{
    let ghost before = o@;
    o.push('\n');
    text::push_str(o, "FROM=");
    text::push_str(o, c.from.as_str());
    text::push_str(o, " TO=");
    text::push_str(o, c.to.as_str());
    o.push(' ');
    text::push_str(o, c.relation.as_str());
    text::push_str(o, " COMMON_PS=");
    text::push_u64(o, c.common_period_ps);
    text::push_str(o, " REQ_PS=");
    text::push_i64(o, c.requirement_ps);
    o.push(' ');
    let ghost mid = o@;
    match c.wns_ps {
        Some(w) => {
            text::push_str(o, "WNS_PS=");
            text::push_i64(o, w);
        },
        None => text::push_str(o, "WNS_PS=n/a"),
    }
    text::push_str(o, " paths=");
    text::push_u64(o, c.path_count as u64);
    assert(o@ =~= before + seq!['\n'] + cell_line(*c));
}

impl ClockInteraction {
    pub fn cell(&self, from: &str, to: &str) -> (r: Option<&ClockInteractionCell>)
        ensures
            cell_index(self.cells@, from@, to@, 0) < self.cells@.len() ==> r == Some(
                &self.cells@[cell_index(self.cells@, from@, to@, 0)],
            ),
            cell_index(self.cells@, from@, to@, 0) >= self.cells@.len() ==> r is None,
    {
        let mut i: usize = 0;
        while i < self.cells.len()
            invariant
                i <= self.cells@.len(),
                cell_index(self.cells@, from@, to@, 0) == cell_index(self.cells@, from@, to@, i as int),
            decreases self.cells@.len() - i,
        {
            if text::str_eq(self.cells[i].from.as_str(), from) && text::str_eq(self.cells[i].to.as_str(), to) {
                return Some(&self.cells[i]);
            }
            i = i + 1;
        }
        None
    }

    pub fn timed_count(&self) -> (r: usize)
        ensures
            r == count_timed(self.cells@),
    {
        let mut n: usize = 0;
        let mut i: usize = 0;
        while i < self.cells.len()
            invariant
                i <= self.cells@.len(),
                n == count_timed(self.cells@.subrange(0, i as int)),
            decreases self.cells@.len() - i,
        {
            proof {
                assert(self.cells@.subrange(0, i + 1).drop_last() =~= self.cells@.subrange(0, i as int));
                lemma_counts_le(self.cells@.subrange(0, i as int));
            }
            match self.cells[i].relation {
                ClockRelation::Timed | ClockRelation::TimedGenerated => n = n + 1,
                _ => {},
            }
            i = i + 1;
        }
        assert(self.cells@.subrange(0, self.cells@.len() as int) =~= self.cells@);
        n
    }

    pub fn unsafe_count(&self) -> (r: usize)
        ensures
            r == count_unsafe(self.cells@),
    {
        let mut n: usize = 0;
        let mut i: usize = 0;
        while i < self.cells.len()
            invariant
                i <= self.cells@.len(),
                n == count_unsafe(self.cells@.subrange(0, i as int)),
            decreases self.cells@.len() - i,
        {
            proof {
                assert(self.cells@.subrange(0, i + 1).drop_last() =~= self.cells@.subrange(0, i as int));
                lemma_counts_le(self.cells@.subrange(0, i as int));
            }
            match self.cells[i].relation {
                ClockRelation::TimedUnsafe => n = n + 1,
                _ => {},
            }
            i = i + 1;
        }
        assert(self.cells@.subrange(0, self.cells@.len() as int) =~= self.cells@);
        n
    }

    pub fn cdc_count(&self) -> (r: usize)
        ensures
            r == count_cdc(self.cells@),
    {
        let mut n: usize = 0;
        let mut i: usize = 0;
        while i < self.cells.len()
            invariant
                i <= self.cells@.len(),
                n == count_cdc(self.cells@.subrange(0, i as int)),
            decreases self.cells@.len() - i,
        {
            proof {
                assert(self.cells@.subrange(0, i + 1).drop_last() =~= self.cells@.subrange(0, i as int));
                lemma_counts_le(self.cells@.subrange(0, i as int));
            }
            let c = &self.cells[i];
            if !text::str_eq(c.from.as_str(), c.to.as_str()) && c.relation.is_cdc() {
                n = n + 1;
            }
            i = i + 1;
        }
        assert(self.cells@.subrange(0, self.cells@.len() as int) =~= self.cells@);
        n
    }

    pub fn text(&self) -> (r: String)
        ensures
            r@ == interaction_text(*self),
    {
        if self.clocks.len() == 0 {
            return text::owned("no clocks — create_clock / report_clock_interaction");
        }
        let mut o = text::chars_of("report_clock_interaction clocks=");
        text::push_u64(&mut o, self.clocks.len() as u64);
        text::push_str(&mut o, " cells=");
        text::push_u64(&mut o, self.cells.len() as u64);
        text::push_str(&mut o, " timed=");
        text::push_u64(&mut o, self.timed_count() as u64);
        text::push_str(&mut o, " unsafe=");
        text::push_u64(&mut o, self.unsafe_count() as u64);
        text::push_str(&mut o, " cdc=");
        text::push_u64(&mut o, self.cdc_count() as u64);
        let ghost head = o@;
        let mut i: usize = 0;
        while i < self.clocks.len()
            invariant
                i <= self.clocks@.len(),
                o@ == head + clock_lines(self.clocks@.subrange(0, i as int)),
            decreases self.clocks@.len() - i,
        {
            let c = &self.clocks[i];
            let ghost before = o@;
            o.push('\n');
            text::push_str(&mut o, "clock ");
            text::push_str(&mut o, c.name.as_str());
            text::push_str(&mut o, " PERIOD_PS=");
            text::push_u64(&mut o, c.period_ps);
            text::push_str(&mut o, " generated=");
            o.push(if c.generated {
                '1'
            } else {
                '0'
            });
            text::push_str(&mut o, " MASTER=");
            match &c.master {
                Some(m) => text::push_str(&mut o, m.as_str()),
                None => o.push('-'),
            }
            proof {
                let pre = self.clocks@.subrange(0, i + 1);
                assert(pre.drop_last() =~= self.clocks@.subrange(0, i as int));
                assert(pre.last() == self.clocks@[i as int]);
                assert(o@ =~= before + seq!['\n'] + clock_line(self.clocks@[i as int]));
            }
            i = i + 1;
        }
        assert(self.clocks@.subrange(0, self.clocks@.len() as int) =~= self.clocks@);
        let ghost mid = o@;
        let mut j: usize = 0;
        while j < self.cells.len()
            invariant
                j <= self.cells@.len(),
                o@ == mid + cell_lines(self.cells@.subrange(0, j as int)),
            decreases self.cells@.len() - j,
        {
            let ghost before = o@;
            push_cell_line(&mut o, &self.cells[j]);
            proof {
                let pre = self.cells@.subrange(0, j + 1);
                assert(pre.drop_last() =~= self.cells@.subrange(0, j as int));
                assert(pre.last() == self.cells@[j as int]);
                assert(o@ =~= before + seq!['\n'] + cell_line(self.cells@[j as int]));
            }
            j = j + 1;
        }
        assert(self.cells@.subrange(0, self.cells@.len() as int) =~= self.cells@);
        text::string_of(o.as_slice())
    }
}

// ---------------------------------------------------------------------------
// Tcl object names
// ---------------------------------------------------------------------------

/// The first non-empty piece, from index `i` on.
pub open spec fn first_nonempty(ps: Seq<Seq<char>>, i: int) -> Option<Seq<char>>
    decreases ps.len() - i,
{
    if i < 0 || i >= ps.len() {
        None
    } else if ps[i].len() > 0 {
        Some(ps[i])
    } else {
        first_nonempty(ps, i + 1)
    }
}

/// The first name token after the first occurrence of `key` in `joined`
/// (e.g. the port of `[get_ports led]`).
pub open spec fn tcl_name_of(joined: Seq<char>, key: Seq<char>) -> Option<Seq<char>> {
    match text::find_from(joined, key, 0) {
        None => None,
        Some(i) => first_nonempty(name_split_from(joined.subrange(i + key.len(), joined.len() as int), 0), 0),
    }
}

fn first_nonempty_exec(ps: &Vec<Vec<char>>) -> (r: Option<Vec<char>>)
    ensures
        match first_nonempty(ps@.map_values(|x: Vec<char>| x@), 0) {
            Some(p) => r matches Some(v) && v@ == p,
            None => r is None,
        },
{
    let ghost pv = ps@.map_values(|x: Vec<char>| x@);
    let mut i: usize = 0;
    while i < ps.len()
        invariant
            i <= ps@.len(),
            pv == ps@.map_values(|x: Vec<char>| x@),
            first_nonempty(pv, 0) == first_nonempty(pv, i as int),
        decreases ps@.len() - i,
    {
        if ps[i].len() > 0 {
            assert(pv[i as int] == ps@[i as int]@);
            return Some(text::slice(&ps[i], 0, ps[i].len()));
        }
        i = i + 1;
    }
    None
}

/// The first name token after `key` in `joined`.
pub fn tcl_name(joined: &Vec<char>, key: &str) -> (r: Option<Vec<char>>)
    ensures
        match tcl_name_of(joined@, key@) {
            Some(n) => r matches Some(v) && v@ == n,
            None => r is None,
        },
{
    let k = text::chars_of(key);
    match text::find(joined, &k, 0) {
        None => None,
        Some(i) => {
            let kl = k.len();
            assert(i + kl <= joined.len()) by {
                text::lemma_find_from_some(joined@, k@, 0);
            }
            let rest = text::slice(joined, i + kl, joined.len());
            let parts = name_split(&rest);
            first_nonempty_exec(&parts)
        },
    }
}

/// Port → `IOB_XxYy` site bindings, sorted by port name.
#[derive(Clone, Debug)]
pub struct IoLocs {
    pub pins: Vec<(String, String)>,
}

impl Default for IoLocs {
    fn default() -> (r: Self)
        ensures
            r.pins@.len() == 0,
    {
        IoLocs { pins: Vec::new() }
    }
}

/// Port → site, by the views of the stored strings.
pub open spec fn loc_map(v: Seq<(String, String)>) -> Map<Seq<char>, Seq<char>> {
    crate::sim::amap(v).map_values(|s: String| s@)
}

impl IoLocs {
    /// Binds `port` to `site` (replacing an earlier binding).
    pub fn set_pin_loc(&mut self, port: &str, site: &str)
        requires
            crate::sim::names_sorted(old(self).pins@),
        ensures
            crate::sim::names_sorted(final(self).pins@),
            loc_map(final(self).pins@) == loc_map(old(self).pins@).insert(port@, site@),
    {
        proof {
            crate::sim::lemma_sorted_unique(self.pins@);
        }
        let k = text::owned(port);
        let v = text::owned(site);
        match crate::sim::assoc_find(&self.pins, &k) {
            Some(i) => {
                proof {
                    crate::sim::lemma_amap_update(self.pins@, i as int, v);
                }
                let ghost before = self.pins@;
                self.pins[i].1 = v;
                assert(self.pins@ =~= before.update(i as int, (before[i as int].0, v)));
                assert(loc_map(self.pins@) =~= loc_map(before).insert(port@, site@));
                assert forall|a: int, b: int| 0 <= a < b < self.pins@.len() implies crate::sim::lex_lt(
                    self.pins@[a].0@,
                    self.pins@[b].0@,
                ) by {
                    assert(self.pins@[a].0 == before[a].0);
                    assert(self.pins@[b].0 == before[b].0);
                }
            },
            None => {
                let ghost before = self.pins@;
                let p = crate::sim::insert_sorted(&mut self.pins, &k, v);
                proof {
                    crate::sim::lemma_amap_insert_fresh(before, p as int, (k, v));
                    assert(loc_map(self.pins@) =~= loc_map(before).insert(port@, site@));
                }
            },
        }
    }

    /// The site bound to `port`.
    pub fn get(&self, port: &str) -> (r: Option<String>)
        requires
            crate::sim::names_sorted(self.pins@),
        ensures
            match r {
                Some(s) => loc_map(self.pins@).contains_key(port@) && loc_map(self.pins@)[port@] == s@,
                None => !loc_map(self.pins@).contains_key(port@),
            },
    {
        proof {
            crate::sim::lemma_sorted_unique(self.pins@);
            crate::sim::lemma_amap_dom(self.pins@, port@);
        }
        let k = text::owned(port);
        match crate::sim::assoc_find(&self.pins, &k) {
            Some(i) => {
                proof {
                    crate::sim::lemma_amap_at(self.pins@, i as int);
                }
                Some(text::owned(self.pins[i].1.as_str()))
            },
            None => None,
        }
    }
}


// ---------------------------------------------------------------------------
// Port constraints onto a design
// ---------------------------------------------------------------------------

/// The `(port, value)` pairs of a table as plain values.
pub open spec fn port_table(v: Seq<(String, String)>) -> Seq<(Seq<char>, Seq<char>)> {
    Seq::new(v.len(), |i: int| (v[i].0@, v[i].1@))
}

/// Attribute `k` set on the first port of each pair in `t`, in order; the
/// model reached, and the error of the first port that is missing.
pub open spec fn apply_port_table(m: DesignModel, k: Seq<char>, t: Seq<(Seq<char>, Seq<char>)>) -> (DesignModel, Option<Seq<char>>)
    decreases t.len(),
{
    if t.len() == 0 {
        (m, None)
    } else {
        let (m1, e) = apply_port_table(m, k, t.drop_last());
        if e is Some {
            (m1, e)
        } else {
            let port = t.last().0;
            let i = first_port(m1.ports, port, 0);
            if i < m1.ports.len() {
                (
                    DesignModel {
                        ports: m1.ports.update(i, PortModel { attrs: m1.ports[i].attrs.insert(k, t.last().1), ..m1.ports[i] }),
                        ..m1
                    },
                    None,
                )
            } else {
                (m1, Some("no port "@ + port))
            }
        }
    }
}

/// The seven port tables of `c` with the attribute each one sets, in the
/// order they are applied.
pub open spec fn port_tables(c: Constraints) -> Seq<(Seq<char>, Seq<(Seq<char>, Seq<char>)>)> {
    seq![
        ("LOC"@, port_table(c.package_pins@)),
        ("IOSTANDARD"@, port_table(c.iostandards@)),
        ("DRIVE"@, port_table(c.drives@)),
        ("SLEW"@, port_table(c.slews@)),
        ("PULLTYPE"@, port_table(c.pulltypes@)),
        ("DIFF_TERM"@, port_table(c.diff_terms@)),
        ("IN_TERM"@, port_table(c.in_terms@)),
    ]
}

/// The tables `ts` applied one after the other, stopping at the first error.
pub open spec fn apply_port_tables(m: DesignModel, ts: Seq<(Seq<char>, Seq<(Seq<char>, Seq<char>)>)>) -> (DesignModel, Option<Seq<char>>)
    decreases ts.len(),
{
    if ts.len() == 0 {
        (m, None)
    } else {
        let (m1, e) = apply_port_tables(m, ts.drop_last());
        if e is Some { (m1, e) } else { apply_port_table(m1, ts.last().0, ts.last().1) }
    }
}

/// Sets attribute `k` on each port of `t`, in order, stopping at the first
/// port the design lacks.
fn apply_table_exec(design: &mut Design, k: &str, t: &Vec<(String, String)>) -> (r: Result<(), String>)
    requires
        old(design).wf(),
    ensures
        final(design).wf(),
        ({
            let (m, e) = apply_port_table(design_model(*old(design)), k@, port_table(t@));
            &&& design_model(*final(design)) == m
            &&& match e {
                None => r is Ok,
                Some(x) => r matches Err(y) && y@ == x,
            }
        }),
{
    let ghost m0 = design_model(*design);
    let ghost tv = port_table(t@);
    let mut i: usize = 0;
    while i < t.len()
        invariant
            i <= t@.len(),
            design.wf(),
            tv == port_table(t@),
            m0 == design_model(*old(design)),
            apply_port_table(m0, k@, tv.subrange(0, i as int)) == (design_model(*design), None::<Seq<char>>),
        decreases t@.len() - i,
    {
        let ghost before = *design;
        let r = design.set_port_attr(t[i].0.as_str(), k, t[i].1.as_str());
        proof {
            assert(tv.subrange(0, i + 1).drop_last() =~= tv.subrange(0, i as int));
            assert(tv.subrange(0, i + 1).last() == (t@[i as int].0@, t@[i as int].1@));
        }
        match r {
            Ok(()) => {},
            Err(e) => {
                proof {
                    lemma_port_table_stays(m0, k@, tv, i + 1);
                }
                return Err(e);
            },
        }
        i = i + 1;
    }
    assert(tv.subrange(0, i as int) =~= tv);
    Ok(())
}

/// Once a table has failed, the rest of it changes nothing.
proof fn lemma_port_table_stays(m: DesignModel, k: Seq<char>, t: Seq<(Seq<char>, Seq<char>)>, j: int)
    requires
        0 <= j <= t.len(),
        apply_port_table(m, k, t.subrange(0, j)).1 is Some,
    ensures
        apply_port_table(m, k, t) == apply_port_table(m, k, t.subrange(0, j)),
    decreases t.len() - j,
{
    if j < t.len() {
        assert(t.subrange(0, j + 1).drop_last() =~= t.subrange(0, j));
        lemma_port_table_stays(m, k, t, j + 1);
    } else {
        assert(t.subrange(0, j) =~= t);
    }
}

impl Constraints {
    /// Writes the port tables onto `design`: PACKAGE_PIN as `LOC`, then
    /// IOSTANDARD, DRIVE, SLEW, PULLTYPE, DIFF_TERM and IN_TERM, each port in
    /// table order; the first port the design lacks stops it with
    /// `no port <name>`, the settings made before it staying.
    pub fn apply(&self, design: &mut Design) -> (r: Result<(), String>)
        requires
            old(design).wf(),
        ensures
            final(design).wf(),
            ({
                let (m, e) = apply_port_tables(design_model(*old(design)), port_tables(*self));
                &&& design_model(*final(design)) == m
                &&& match e {
                    None => r is Ok,
                    Some(x) => r matches Err(y) && y@ == x,
                }
            }),
    {
        let ghost m0 = design_model(*design);
        let ghost ts = port_tables(*self);
        proof {
            reveal_strlit("LOC");
            assert(ts.subrange(0, 0) =~= Seq::<(Seq<char>, Seq<(Seq<char>, Seq<char>)>)>::empty());
        }
        let r = apply_table_exec(design, "LOC", &self.package_pins);
        proof { lemma_tables_step(m0, ts, 0); }
        if r.is_err() {
            proof { lemma_tables_stop(m0, ts, 1); }
            return r;
        }
        let r = apply_table_exec(design, "IOSTANDARD", &self.iostandards);
        proof { lemma_tables_step(m0, ts, 1); }
        if r.is_err() {
            proof { lemma_tables_stop(m0, ts, 2); }
            return r;
        }
        let r = apply_table_exec(design, "DRIVE", &self.drives);
        proof { lemma_tables_step(m0, ts, 2); }
        if r.is_err() {
            proof { lemma_tables_stop(m0, ts, 3); }
            return r;
        }
        let r = apply_table_exec(design, "SLEW", &self.slews);
        proof { lemma_tables_step(m0, ts, 3); }
        if r.is_err() {
            proof { lemma_tables_stop(m0, ts, 4); }
            return r;
        }
        let r = apply_table_exec(design, "PULLTYPE", &self.pulltypes);
        proof { lemma_tables_step(m0, ts, 4); }
        if r.is_err() {
            proof { lemma_tables_stop(m0, ts, 5); }
            return r;
        }
        let r = apply_table_exec(design, "DIFF_TERM", &self.diff_terms);
        proof { lemma_tables_step(m0, ts, 5); }
        if r.is_err() {
            proof { lemma_tables_stop(m0, ts, 6); }
            return r;
        }
        let r = apply_table_exec(design, "IN_TERM", &self.in_terms);
        proof {
            lemma_tables_step(m0, ts, 6);
            assert(ts.subrange(0, 7) =~= ts);
        }
        r
    }
}

proof fn lemma_tables_step(m: DesignModel, ts: Seq<(Seq<char>, Seq<(Seq<char>, Seq<char>)>)>, j: int)
    requires
        0 <= j < ts.len(),
    ensures
        apply_port_tables(m, ts.subrange(0, j + 1)) == (if apply_port_tables(m, ts.subrange(0, j)).1 is Some {
            apply_port_tables(m, ts.subrange(0, j))
        } else {
            apply_port_table(apply_port_tables(m, ts.subrange(0, j)).0, ts[j].0, ts[j].1)
        }),
{
    assert(ts.subrange(0, j + 1).drop_last() =~= ts.subrange(0, j));
}

proof fn lemma_tables_stop(m: DesignModel, ts: Seq<(Seq<char>, Seq<(Seq<char>, Seq<char>)>)>, j: int)
    requires
        0 <= j <= ts.len(),
        apply_port_tables(m, ts.subrange(0, j)).1 is Some,
    ensures
        apply_port_tables(m, ts) == apply_port_tables(m, ts.subrange(0, j)),
    decreases ts.len() - j,
{
    if j < ts.len() {
        assert(ts.subrange(0, j + 1).drop_last() =~= ts.subrange(0, j));
        lemma_tables_stop(m, ts, j + 1);
    } else {
        assert(ts.subrange(0, j) =~= ts);
    }
}

/// Applies the port tables of `xdc` to `design` (see [`Constraints::apply`]).
pub fn apply_xdc(design: &mut Design, xdc: &Constraints) -> (r: Result<(), String>)
    requires
        old(design).wf(),
    ensures
        final(design).wf(),
        ({
            let (m, e) = apply_port_tables(design_model(*old(design)), port_tables(*xdc));
            &&& design_model(*final(design)) == m
            &&& match e {
                None => r is Ok,
                Some(x) => r matches Err(y) && y@ == x,
            }
        }),
{
    xdc.apply(design)
}


/// `new` is `old` with the constraints `x` applied against a `period_ps`
/// clock, as [`apply_xdc_delays`] does.
pub open spec fn xdc_applied(old: TimingResult, new: TimingResult, x: Constraints, period_ps: u64) -> bool {
    &&& new.clocks == old.clocks
    &&& new.endpoints == old.endpoints
    &&& new.r2r_ps == old.r2r_ps
    &&& new.hold_ps == old.hold_ps
    &&& new.route_ps == old.route_ps
    &&& new.clk_net_ps == old.clk_net_ps
    &&& new.iob_ps == (if io_dropped(x) { 0 } else { old.iob_ps })
    &&& new.setup_ps == setup_path(old, x)
    &&& new.wns_ps == wns_steps(old, x, period_ps)[8]
    &&& new.tns_ps == (if new.wns_ps < 0 { new.wns_ps } else { 0 })
    &&& new.hold_slack_ps == hold_base(old, x, period_ps) - hold_terms(old, x)[4]
}

/// The clocks STA runs with: those of the constraints, or else `clocks`.
pub open spec fn xdc_clocks(x: Constraints, clocks: Seq<Clock>) -> Seq<Clock> {
    if x.clocks@.len() == 0 { clocks } else { x.clocks@ }
}

/// STA with the XDC delays and false paths applied: the constraints' own
/// clocks when it declares any, else `clocks`; then [`report_timing`] and
/// [`apply_xdc_delays`] with the first clock's period.
pub fn report_timing_xdc(design: &Design, clocks: &[Clock], xdc: &Constraints) -> (r: Result<TimingResult, String>)
    requires
        design.wf(),
        xdc_clocks(*xdc, clocks@).len() > 0 ==> {
            &&& (xdc_clocks(*xdc, clocks@)[0].period_ps as i64) - r2r_of(*design) >= i64::MIN
            &&& forall|t: TimingResult| #[trigger] timing_of(t, *design, xdc_clocks(*xdc, clocks@)) ==> apply_fits(
                t,
                *xdc,
                xdc_clocks(*xdc, clocks@)[0].period_ps,
            )
        },
    ensures
        xdc_clocks(*xdc, clocks@).len() == 0 ==> (r matches Err(e) && e@ == "no clocks"@),
        xdc_clocks(*xdc, clocks@).len() > 0 ==> (r matches Ok(t) && exists|t0: TimingResult|
            #[trigger] timing_of(t0, *design, xdc_clocks(*xdc, clocks@)) && xdc_applied(
                t0,
                t,
                *xdc,
                xdc_clocks(*xdc, clocks@)[0].period_ps,
            )),
{
    let clks: &[Clock] = if xdc.clocks.len() == 0 { clocks } else { xdc.clocks.as_slice() };
    assert(clks@ == xdc_clocks(*xdc, clocks@));
    let mut r = match report_timing(design, clks) {
        Ok(t) => t,
        Err(e) => {
            return Err(e);
        },
    };
    let ghost t0 = r;
    let period = clks[0].period_ps;
    apply_xdc_delays(&mut r, xdc, period);
    assert(timing_of(t0, *design, xdc_clocks(*xdc, clocks@)));
    Ok(r)
}


/// Empty constraints keep the gold numbers: applied to the unit-delay STA of
/// a design, they leave its WNS, TNS, setup path, I/O part and hold slack as
/// they were.
pub proof fn empty_constraints_keep_gold(t: TimingResult, d: Design, clocks: Seq<Clock>, u: TimingResult, x: Constraints)
    requires
        is_empty_constraints(x),
        clocks.len() > 0,
        timing_of(t, d, clocks),
        xdc_applied(t, u, x, clocks[0].period_ps),
    ensures
        u.wns_ps == t.wns_ps,
        u.tns_ps == t.tns_ps,
        u.setup_ps == t.setup_ps,
        u.iob_ps == t.iob_ps,
        u.hold_slack_ps == t.hold_slack_ps,
{
    let p = clocks[0].period_ps;
    assert(mc_setup(x).len() == 0 && mc_hold(x).len() == 0 && max_delay_values(x).len() == 0);
    assert(min_delay_values(x).len() == 0 && unc_setup(x).len() == 0 && unc_hold(x).len() == 0);
    assert(lat_late(x).len() == 0 && lat_early(x).len() == 0 && jitters(x).len() == 0);
    assert(derate_late(x).len() == 0 && derate_early(x).len() == 0 && weights(x).len() == 0);
    assert(borrows(x).len() == 0 && dc_setup(x).len() == 0 && dc_hold(x).len() == 0);
    assert(skews(x.bus_skews@, false).len() == 0 && skews(x.bus_skews@, true).len() == 0);
    assert(map_values(x.output_delay_ps@).len() == 0 && map_values(x.input_delay_ps@).len() == 0);
    assert(last_nonzero(derate_late(x)) is None && last_nonzero(derate_early(x)) is None);
    assert(pvt_scale(x.operating_conditions) == 1000);
    assert(late_milli(x) == 1000 && early_milli(x) == 1000);
    assert(!io_dropped(x));
    assert(!network_counts(x));
    assert(!has_sense(x.clock_senses@, "negative"@));
    assert(smax(mc_setup(x)) is None);
    assert(mult_setup(x) == 1);
    assert(smin(max_delay_values(x)) is None);
    let v = p as i64;
    assert(v * mult_setup(x) == v as int);
    assert(setup_req(x, p) == v as int);
    assert(wns_steps(t, x, p)[8] == t.wns_ps);
}


/// No constraints but one clock uncertainty.
pub open spec fn uncertainty_only(c: Constraints) -> bool {
    &&& c.clocks@.len() == 0
    &&& c.input_delay_ps@.len() == 0
    &&& c.output_delay_ps@.len() == 0
    &&& c.false_paths@.len() == 0
    &&& c.multicycle_paths@.len() == 0
    &&& c.max_delays@.len() == 0
    &&& c.min_delays@.len() == 0
    &&& c.clock_groups@.len() == 0
    &&& c.clock_uncertainties@.len() == 1
    &&& c.clock_latencies@.len() == 0
    &&& c.disable_timings@.len() == 0
    &&& c.case_analyses@.len() == 0
    &&& c.propagated_clocks@.len() == 0
    &&& c.clock_senses@.len() == 0
    &&& c.input_jitters@.len() == 0
    &&& c.system_jitter_ps == 0
    &&& c.timing_derates@.len() == 0
    &&& !c.operating_conditions.voltage_set
    &&& !c.operating_conditions.temperature_set
    &&& c.bus_skews@.len() == 0
    &&& c.path_groups@.len() == 0
    &&& c.max_time_borrows@.len() == 0
    &&& c.data_checks@.len() == 0
}

/// Empty constraints keep a timing result's slacks, and a single clock
/// uncertainty takes its setup part off WNS (and TNS) and its hold part off
/// the hold slack, leaving everything else as empty constraints do.
pub proof fn uncertainty_shifts_slack(t: TimingResult, u: TimingResult, x: Constraints, period_ps: u64)
    requires
        is_empty_constraints(x) || uncertainty_only(x),
        xdc_applied(t, u, x, period_ps),
    ensures
        u.setup_ps == t.setup_ps,
        u.iob_ps == t.iob_ps,
        is_empty_constraints(x) ==> u.wns_ps == (period_ps as i64) - t.setup_ps && u.hold_slack_ps == t.hold_slack_ps,
        uncertainty_only(x) ==> u.wns_ps == (period_ps as i64) - t.setup_ps - x.clock_uncertainties@[0].setup_ps
            && u.hold_slack_ps == t.hold_slack_ps - x.clock_uncertainties@[0].hold_ps,
        u.tns_ps == (if u.wns_ps < 0 { u.wns_ps } else { 0 }),
{
    let p = period_ps;
    assert(mc_setup(x).len() == 0 && mc_hold(x).len() == 0 && max_delay_values(x).len() == 0);
    assert(min_delay_values(x).len() == 0);
    assert(lat_late(x).len() == 0 && lat_early(x).len() == 0 && jitters(x).len() == 0);
    assert(derate_late(x).len() == 0 && derate_early(x).len() == 0 && weights(x).len() == 0);
    assert(borrows(x).len() == 0 && dc_setup(x).len() == 0 && dc_hold(x).len() == 0);
    assert(skews(x.bus_skews@, false).len() == 0 && skews(x.bus_skews@, true).len() == 0);
    assert(map_values(x.output_delay_ps@).len() == 0 && map_values(x.input_delay_ps@).len() == 0);
    assert(last_nonzero(derate_late(x)) is None && last_nonzero(derate_early(x)) is None);
    assert(pvt_scale(x.operating_conditions) == 1000);
    assert(late_milli(x) == 1000 && early_milli(x) == 1000);
    assert(!io_dropped(x));
    assert(!network_counts(x));
    assert(!has_sense(x.clock_senses@, "negative"@));
    assert(smax(mc_setup(x)) is None);
    assert(mult_setup(x) == 1);
    assert(mult_hold(x) == 0);
    assert(smin(max_delay_values(x)) is None);
    assert(smax(min_delay_values(x)) is None);
    let v = p as i64;
    assert(v * mult_setup(x) == v as int);
    assert(setup_req(x, p) == v as int);
    assert(hold_base(t, x, p) == t.hold_slack_ps);
    if uncertainty_only(x) {
        let cu = x.clock_uncertainties@[0];
        assert(unc_setup(x) =~= seq![cu.setup_ps]);
        assert(unc_hold(x) =~= seq![cu.hold_ps]);
        assert(seq![cu.setup_ps].drop_last() =~= Seq::<i64>::empty());
        assert(seq![cu.hold_ps].drop_last() =~= Seq::<i64>::empty());
        assert(smax(unc_setup(x)) == Some(cu.setup_ps));
        assert(smax(unc_hold(x)) == Some(cu.hold_ps));
    } else {
        assert(unc_setup(x).len() == 0 && unc_hold(x).len() == 0);
    }
}


/// The register-to-register path through LUT `c`: clock-to-Q, the LUT, one
/// pin delay per connected input, setup.
pub open spec fn lut_path_ps(d: Design, c: crate::ir::Cell) -> int {
    FF_CKQ_PS + LUT_PS + fanin_upto(d, c.name@, 6) * PIN_PS + SETUP_PS
}

proof fn lemma_r2r_bounds(d: Design, k: int)
    requires
        0 <= k <= d.cells@.len(),
    ensures
        r2r_upto(d, k) >= FF_CKQ_PS + LUT_PS + SETUP_PS,
        forall|i: int| 0 <= i < k && is_lut(d.cells@[i].kind) ==> r2r_upto(d, k) >= lut_path_ps(d, #[trigger] d.cells@[i]),
        r2r_upto(d, k) == FF_CKQ_PS + LUT_PS + SETUP_PS
            || exists|i: int| 0 <= i < k && is_lut(d.cells@[i].kind) && r2r_upto(d, k) == lut_path_ps(d, #[trigger] d.cells@[i]),
    decreases k,
{
    if k > 0 {
        lemma_r2r_bounds(d, k - 1);
        if r2r_upto(d, k) != r2r_upto(d, k - 1) {
            assert(is_lut(d.cells@[k - 1].kind) && r2r_upto(d, k) == lut_path_ps(d, d.cells@[k - 1]));
        } else if r2r_upto(d, k - 1) != FF_CKQ_PS + LUT_PS + SETUP_PS {
            let i = choose|i: int| 0 <= i < k - 1 && is_lut(d.cells@[i].kind) && r2r_upto(d, k - 1) == lut_path_ps(d, #[trigger] d.cells@[i]);
            assert(0 <= i < k && is_lut(d.cells@[i].kind) && r2r_upto(d, k) == lut_path_ps(d, d.cells@[i]));
        }
    }
}

/// The unit-delay timing of a design takes the worst LUT: its
/// register-to-register delay (the setup path) is at least the path through
/// every LUT of the design and at least the bare FF-to-FF path, and it is one
/// of these; WNS is the first clock's period minus that delay.
pub proof fn timing_takes_worst_lut(t: TimingResult, d: Design, clocks: Seq<Clock>)
    requires
        clocks.len() > 0,
        timing_of(t, d, clocks),
    ensures
        t.r2r_ps >= FF_CKQ_PS + LUT_PS + SETUP_PS,
        forall|i: int| 0 <= i < d.cells@.len() && is_lut(d.cells@[i].kind) ==> t.r2r_ps >= lut_path_ps(d, #[trigger] d.cells@[i]),
        t.r2r_ps == FF_CKQ_PS + LUT_PS + SETUP_PS
            || exists|i: int| 0 <= i < d.cells@.len() && is_lut(d.cells@[i].kind) && t.r2r_ps == lut_path_ps(d, #[trigger] d.cells@[i]),
        t.setup_ps == t.r2r_ps,
        t.wns_ps == (clocks[0].period_ps as i64) - t.r2r_ps,
{
    lemma_r2r_bounds(d, d.cells@.len() as int);
}

} // verus!
