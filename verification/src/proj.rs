//! Vivado-shaped project files (`.prj`): strategies, pblocks, runs, the
//! project-file parser and writer, and netlist queries.

use vstd::prelude::*;
use crate::text;
use crate::ir::{Design, CellKind, Cell, Net, Attrs, pin_net, pin_net_exec};
use crate::route::RouteOpts;
use crate::ipxact::str_views;

verus! {

/// Implementation strategies (same kind of lever as Vivado's: timing vs
/// runtime vs physical optimisation).
#[derive(Clone, Copy, Debug, PartialEq, Eq, Structural)]
pub enum ImplStrategy {
    /// Timing-driven place + full PathFinder. Gold WNS path (`impl_1`).
    Default,
    /// Same engine as Default (timing-driven family).
    TimingExplore,
    /// Wirelength place + 1 PathFinder iter (faster, worse WNS).
    RuntimeOpt,
    /// Timing-driven place + directed extra hops (phys-opt detours).
    PhysOpt,
}

/// The strategy a (trimmed, lower-cased) name selects.
pub open spec fn strategy_of(s: Seq<char>) -> Option<ImplStrategy> {
    if s == "default"@ || s == "impl_1"@ {
        Some(ImplStrategy::Default)
    } else if s == "timingexplore"@ || s == "timing_explore"@ || s == "explore"@ {
        Some(ImplStrategy::TimingExplore)
    } else if s == "runtimeopt"@ || s == "runtime_opt"@ || s == "runtime"@ {
        Some(ImplStrategy::RuntimeOpt)
    } else if s == "physopt"@ || s == "phys_opt"@ || s == "phys"@ {
        Some(ImplStrategy::PhysOpt)
    } else {
        None
    }
}

pub open spec fn strategy_label(s: ImplStrategy) -> Seq<char> {
    match s {
        ImplStrategy::Default => "Default"@,
        ImplStrategy::TimingExplore => "TimingExplore"@,
        ImplStrategy::RuntimeOpt => "RuntimeOpt"@,
        ImplStrategy::PhysOpt => "PhysOpt"@,
    }
}

impl ImplStrategy {
    /// Parses a strategy name (trimmed, any ASCII case).
    pub fn parse(s: &str) -> (r: Result<ImplStrategy, String>)
        ensures
            match strategy_of(text::lower(text::trim(s@))) {
                Some(k) => r == Ok::<ImplStrategy, String>(k),
                None => r matches Err(e) && e@ == "unknown impl strategy "@ + text::lower(text::trim(s@)),
            },
    {
        let v = text::chars_of(s);
        let t = text::trim_chars(&v);
        let l = text::lower_chars(&t);
        if text::eq_str(&l, "default") || text::eq_str(&l, "impl_1") {
            Ok(ImplStrategy::Default)
        } else if text::eq_str(&l, "timingexplore") || text::eq_str(&l, "timing_explore") || text::eq_str(&l, "explore") {
            Ok(ImplStrategy::TimingExplore)
        } else if text::eq_str(&l, "runtimeopt") || text::eq_str(&l, "runtime_opt") || text::eq_str(&l, "runtime") {
            Ok(ImplStrategy::RuntimeOpt)
        } else if text::eq_str(&l, "physopt") || text::eq_str(&l, "phys_opt") || text::eq_str(&l, "phys") {
            Ok(ImplStrategy::PhysOpt)
        } else {
            let mut m = text::chars_of("unknown impl strategy ");
            text::push_chars(&mut m, &l);
            Err(text::string_of(m.as_slice()))
        }
    }

    pub fn label(self) -> (r: &'static str)
        ensures
            r@ == strategy_label(self),
    {
        match self {
            ImplStrategy::Default => "Default",
            ImplStrategy::TimingExplore => "TimingExplore",
            ImplStrategy::RuntimeOpt => "RuntimeOpt",
            ImplStrategy::PhysOpt => "PhysOpt",
        }
    }

    /// Parsing a strategy's label gives the strategy back.
    pub proof fn parse_label_round_trip(self)
        ensures
            strategy_of(text::lower(text::trim(strategy_label(self)))) == Some(self),
    {
        let l = strategy_label(self);
        reveal_strlit("Default");
        reveal_strlit("TimingExplore");
        reveal_strlit("RuntimeOpt");
        reveal_strlit("PhysOpt");
        reveal_strlit("default");
        reveal_strlit("timingexplore");
        reveal_strlit("runtimeopt");
        reveal_strlit("physopt");
        reveal_strlit("impl_1");
        reveal_strlit("timing_explore");
        reveal_strlit("explore");
        reveal_strlit("runtime_opt");
        reveal_strlit("runtime");
        reveal_strlit("phys_opt");
        reveal_strlit("phys");
        assert(text::skip_ws_from(l, 0) == 0);
        assert(text::trim_end_from(l, l.len() as int) == l.len());
        assert(text::trim(l) =~= l);
        match self {
            ImplStrategy::Default => {
                assert(text::lower(l) =~= "default"@);
                assert(text::lower(text::trim(l)) == "default"@);
                assert(strategy_of("default"@) == Some(ImplStrategy::Default));
            },
            ImplStrategy::TimingExplore => {
                assert(text::lower(l) =~= "timingexplore"@);
                assert(strategy_of(text::lower(text::trim(strategy_label(self)))) == Some(self));
            },
            ImplStrategy::RuntimeOpt => {
                assert(text::lower(l) =~= "runtimeopt"@);
                assert(strategy_of(text::lower(text::trim(strategy_label(self)))) == Some(self));
            },
            ImplStrategy::PhysOpt => {
                assert(text::lower(l) =~= "physopt"@);
                assert("physopt"@[0] != "default"@[0] && "physopt"@[0] != "explore"@[0] && "physopt"@[0] != "runtime"@[0]);
                assert(strategy_of(text::lower(text::trim(strategy_label(self)))) == Some(self));
            },
        }
    }

    /// Router options of the strategy: RuntimeOpt = 1 iteration, PhysOpt = 8
    /// iterations + 8 extra hops, otherwise the defaults (8, 0).
    pub fn route_opts(self) -> (r: RouteOpts)
        ensures
            r.max_iters == (if self == ImplStrategy::RuntimeOpt { 1u32 } else { 8u32 }),
            r.extra_hops == (if self == ImplStrategy::PhysOpt { 8u32 } else { 0u32 }),
    {
        match self {
            ImplStrategy::RuntimeOpt => RouteOpts { max_iters: 1, extra_hops: 0 },
            ImplStrategy::PhysOpt => RouteOpts { max_iters: 8, extra_hops: 8 },
            _ => RouteOpts::default(),
        }
    }
}

/// Incremental reuse report (cells/nets/ports matched by HNF names).
#[derive(Clone, Debug)]
pub struct ReuseReport {
    pub cells: usize,
    pub reused_cells: usize,
    pub nets: usize,
    pub reused_nets: usize,
    pub ports: usize,
    pub reused_ports: usize,
}

impl Default for ReuseReport {
    fn default() -> (r: Self)
        ensures
            r.cells == 0 && r.reused_cells == 0 && r.nets == 0 && r.reused_nets == 0 && r.ports == 0
                && r.reused_ports == 0,
    {
        ReuseReport { cells: 0, reused_cells: 0, nets: 0, reused_nets: 0, ports: 0, reused_ports: 0 }
    }
}

/// Percentage of reused cells, truncated (0 with no cells).
pub open spec fn reuse_pct(r: ReuseReport) -> int {
    if r.cells == 0 { 0 } else { ((r.reused_cells * 100) / (r.cells as int)) as u32 as int }
}

impl ReuseReport {
    pub fn cell_pct(&self) -> (r: u32)
        requires
            self.reused_cells * 100 <= usize::MAX,
        ensures
            r == reuse_pct(*self),
    {
        if self.cells == 0 {
            0
        } else {
            (self.reused_cells * 100 / self.cells) as u32
        }
    }

    pub fn text(&self) -> (r: String)
        requires
            self.reused_cells * 100 <= usize::MAX,
        ensures
            r@ == "reuse cells="@ + text::dec(self.reused_cells as nat) + seq!['/'] + text::dec(self.cells as nat)
                + " ("@ + text::dec(reuse_pct(*self) as nat) + "%) nets="@ + text::dec(self.reused_nets as nat)
                + seq!['/'] + text::dec(self.nets as nat) + " ports="@ + text::dec(self.reused_ports as nat)
                + seq!['/'] + text::dec(self.ports as nat),
    {
        let pct = self.cell_pct();
        let mut o = text::chars_of("reuse cells=");
        text::push_u64(&mut o, self.reused_cells as u64);
        o.push('/');
        text::push_u64(&mut o, self.cells as u64);
        text::push_str(&mut o, " (");
        text::push_u64(&mut o, pct as u64);
        text::push_str(&mut o, "%) nets=");
        text::push_u64(&mut o, self.reused_nets as u64);
        o.push('/');
        text::push_u64(&mut o, self.nets as u64);
        text::push_str(&mut o, " ports=");
        text::push_u64(&mut o, self.reused_ports as u64);
        o.push('/');
        text::push_u64(&mut o, self.ports as u64);
        let ghost want = "reuse cells="@ + text::dec(self.reused_cells as nat) + seq!['/'] + text::dec(self.cells as nat)
            + " ("@ + text::dec(reuse_pct(*self) as nat) + "%) nets="@ + text::dec(self.reused_nets as nat)
            + seq!['/'] + text::dec(self.nets as nat) + " ports="@ + text::dec(self.reused_ports as nat)
            + seq!['/'] + text::dec(self.ports as nat);
        assert(o@ =~= want);
        text::string_of(o.as_slice())
    }
}

#[derive(Clone, Copy, Debug, PartialEq, Eq, Structural)]
pub enum Mode {
    Project,
    NonProject,
}

// ---------------------------------------------------------------------------
// Netlist queries
// ---------------------------------------------------------------------------

/// Names of the items whose name contains `filter` (all without a filter).
pub open spec fn filtered(names: Seq<Seq<char>>, filter: Option<Seq<char>>) -> Seq<Seq<char>>
    decreases names.len(),
{
    if names.len() == 0 {
        Seq::empty()
    } else {
        let rest = filtered(names.drop_last(), filter);
        let keep = match filter {
            Some(f) => text::contains(names.last(), f),
            None => true,
        };
        if keep { rest.push(names.last()) } else { rest }
    }
}

pub open spec fn cell_names(d: Design) -> Seq<Seq<char>> {
    Seq::new(d.cells@.len(), |i: int| d.cells@[i].name@)
}

pub open spec fn net_names(d: Design) -> Seq<Seq<char>> {
    Seq::new(d.nets@.len(), |i: int| d.nets@[i].name@)
}

pub open spec fn opt_str(o: Option<&str>) -> Option<Seq<char>> {
    match o {
        Some(s) => Some(s@),
        None => None,
    }
}

fn filter_names(names: &Vec<String>, filter: Option<&str>) -> (r: Vec<String>)
    ensures
        str_views(r@) == filtered(str_views(names@), opt_str(filter)),
{
    let fv: Option<Vec<char>> = match filter {
        Some(f) => Some(text::chars_of(f)),
        None => None,
    };
    let mut r: Vec<String> = Vec::new();
    let mut i: usize = 0;
    while i < names.len()
        invariant
            i <= names@.len(),
            match fv {
                Some(v) => opt_str(filter) == Some(v@),
                None => filter is None,
            },
            str_views(r@) == filtered(str_views(names@).subrange(0, i as int), opt_str(filter)),
        decreases names@.len() - i,
    {
        let ghost pre = str_views(names@).subrange(0, i + 1);
        assert(pre.drop_last() =~= str_views(names@).subrange(0, i as int));
        let keep = match &fv {
            Some(f) => {
                let n = text::chars_of(names[i].as_str());
                text::contains_chars(&n, f)
            },
            None => true,
        };
        if keep {
            let ghost before = str_views(r@);
            r.push(names[i].clone());
            assert(str_views(r@) =~= before.push(names@[i as int]@));
        }
        i = i + 1;
    }
    assert(str_views(names@).subrange(0, names@.len() as int) =~= str_views(names@));
    r
}

/// Cell names, optionally those containing `filter`.
pub fn get_cells(d: &Design, filter: Option<&str>) -> (r: Vec<String>)
    ensures
        str_views(r@) == filtered(cell_names(*d), opt_str(filter)),
{
    let mut names: Vec<String> = Vec::new();
    let mut i: usize = 0;
    while i < d.cells.len()
        invariant
            i <= d.cells@.len(),
            str_views(names@) == cell_names(*d).subrange(0, i as int),
        decreases d.cells@.len() - i,
    {
        let ghost before = str_views(names@);
        names.push(d.cells[i].name.clone());
        assert(str_views(names@) =~= before.push(d.cells@[i as int].name@));
        i = i + 1;
        assert(str_views(names@) =~= cell_names(*d).subrange(0, i as int));
    }
    assert(cell_names(*d).subrange(0, d.cells@.len() as int) =~= cell_names(*d));
    filter_names(&names, filter)
}

/// Net names, optionally those containing `filter`.
pub fn get_nets(d: &Design, filter: Option<&str>) -> (r: Vec<String>)
    ensures
        str_views(r@) == filtered(net_names(*d), opt_str(filter)),
{
    let mut names: Vec<String> = Vec::new();
    let mut i: usize = 0;
    while i < d.nets.len()
        invariant
            i <= d.nets@.len(),
            str_views(names@) == net_names(*d).subrange(0, i as int),
        decreases d.nets@.len() - i,
    {
        let ghost before = str_views(names@);
        names.push(d.nets[i].name.clone());
        assert(str_views(names@) =~= before.push(d.nets@[i as int].name@));
        i = i + 1;
        assert(str_views(names@) =~= net_names(*d).subrange(0, i as int));
    }
    assert(net_names(*d).subrange(0, d.nets@.len() as int) =~= net_names(*d));
    filter_names(&names, filter)
}

/// The pins `get_pins` looks at, in order.
pub open spec fn pin_name(k: int) -> Seq<char> {
    if k == 0 { "I0"@ } else if k == 1 { "I1"@ } else if k == 2 { "I2"@ } else if k == 3 { "I3"@ }
    else if k == 4 { "I4"@ } else if k == 5 { "I5"@ } else if k == 6 { "O"@ } else if k == 7 { "D"@ }
    else if k == 8 { "Q"@ } else if k == 9 { "CLK"@ } else if k == 10 { "I"@ } else { "PAD"@ }
}

fn pin_name_exec(k: usize) -> (r: &'static str)
    requires
        k < 12,
    ensures
        r@ == pin_name(k as int),
{
    match k {
        0 => "I0",
        1 => "I1",
        2 => "I2",
        3 => "I3",
        4 => "I4",
        5 => "I5",
        6 => "O",
        7 => "D",
        8 => "Q",
        9 => "CLK",
        10 => "I",
        _ => "PAD",
    }
}

/// `cell/pin` for each of the first `k` known pins that a net connects.
pub open spec fn pins_upto(d: Design, cell: Seq<char>, k: int) -> Seq<Seq<char>>
    decreases k,
{
    if k <= 0 {
        Seq::empty()
    } else {
        let rest = pins_upto(d, cell, k - 1);
        if d.pin_connected(cell, pin_name(k - 1)) { rest.push(cell + seq!['/'] + pin_name(k - 1)) } else { rest }
    }
}

/// The connected pins of `cell` among I0..I5, O, D, Q, CLK, I, PAD, as `cell/pin`.
pub fn get_pins(d: &Design, cell: &str) -> (r: Vec<String>)
    requires
        d.wf(),
    ensures
        str_views(r@) == pins_upto(*d, cell@, 12),
{
    let mut r: Vec<String> = Vec::new();
    let mut k: usize = 0;
    while k < 12
        invariant
            k <= 12,
            d.wf(),
            str_views(r@) == pins_upto(*d, cell@, k as int),
        decreases 12 - k,
    {
        let pin = pin_name_exec(k);
        if d.net_on(cell, pin).is_some() {
            let mut o = text::chars_of(cell);
            o.push('/');
            text::push_str(&mut o, pin);
            assert(o@ =~= cell@ + seq!['/'] + pin_name(k as int));
            let ghost before = str_views(r@);
            r.push(text::string_of(o.as_slice()));
            assert(str_views(r@) =~= before.push(cell@ + seq!['/'] + pin_name(k as int)));
        }
        k = k + 1;
    }
    r
}

// ---------------------------------------------------------------------------
// Project file model
// ---------------------------------------------------------------------------

/// A floorplan rectangle persisted in `.prj` (`create_pblock` / `resize_pblock`).
#[derive(Clone, Debug, PartialEq, Eq)]
pub struct PrjPblock {
    pub name: String,
    pub x0: u32,
    pub y0: u32,
    pub x1: u32,
    pub y1: u32,
    pub ranged: bool,
    pub cells: Vec<String>,
}

impl Default for PrjPblock {
    fn default() -> (r: Self)
        ensures
            r.name@ == Seq::<char>::empty(),
            r.x0 == 0 && r.y0 == 0 && r.x1 == 0 && r.y1 == 0 && !r.ranged,
            r.cells@.len() == 0,
    {
        PrjPblock { name: String::new(), x0: 0, y0: 0, x1: 0, y1: 0, ranged: false, cells: Vec::new() }
    }
}

pub open spec fn range_text_of(b: PblockModel) -> Seq<char> {
    if !b.ranged {
        seq!['-']
    } else {
        "CLB_X"@ + text::dec(b.x0 as nat) + seq!['Y'] + text::dec(b.y0 as nat) + ":CLB_X"@ + text::dec(b.x1 as nat)
            + seq!['Y'] + text::dec(b.y1 as nat)
    }
}

impl PrjPblock {
    /// `CLB_X<x0>Y<y0>:CLB_X<x1>Y<y1>`, or `-` when unranged.
    pub fn range_text(&self) -> (r: String)
        ensures
            r@ == range_text_of(pblock_model(*self)),
    {
        if !self.ranged {
            let mut d: Vec<char> = Vec::new();
            d.push('-');
            assert(d@ =~= seq!['-']);
            return text::string_of(d.as_slice());
        }
        let mut o = text::chars_of("CLB_X");
        text::push_u64(&mut o, self.x0 as u64);
        o.push('Y');
        text::push_u64(&mut o, self.y0 as u64);
        text::push_str(&mut o, ":CLB_X");
        text::push_u64(&mut o, self.x1 as u64);
        o.push('Y');
        text::push_u64(&mut o, self.y1 as u64);
        assert(o@ =~= range_text_of(pblock_model(*self)));
        text::string_of(o.as_slice())
    }
}

/// A design run persisted in `.prj` (`create_run` / `launch_runs`).
#[derive(Clone, Debug, PartialEq, Eq)]
pub struct PrjImplRun {
    pub name: String,
    pub strategy: String,
}

/// Vivado-like project file: `part`, `read_sv` (multi), `read_xdc`/`read_sdc`,
/// `create_clock`, `set_property PACKAGE_PIN` / `TOP`, pblocks, impl runs, checkpoint.
#[derive(Clone, Debug)]
pub struct ProjectFile {
    pub part: String,
    pub sources: Vec<String>,
    /// External XDC/SDC paths from `read_xdc` / `read_sdc`.
    pub constraint_files: Vec<String>,
    /// `.helion` IP package paths from `read_ip`.
    pub ip_packages: Vec<String>,
    /// Optional elaborator top (`top <mod>` / `set_property TOP <mod>`).
    pub top: Option<String>,
    pub sdc: Vec<String>,
    pub package_pins: Vec<(String, String)>,
    pub iostandards: Vec<(String, String)>,
    pub drives: Vec<(String, String)>,
    pub slews: Vec<(String, String)>,
    pub pulltypes: Vec<(String, String)>,
    pub diff_terms: Vec<(String, String)>,
    pub in_terms: Vec<(String, String)>,
    /// Floorplan pblocks (`create_pblock` / `resize_pblock` / `add_cells_to_pblock`).
    pub pblocks: Vec<PrjPblock>,
    /// Implementation runs (`create_run impl_1 -strategy Default`).
    pub impl_runs: Vec<PrjImplRun>,
    /// Disk checkpoint path (`write_checkpoint path.hckp`).
    pub checkpoint_path: Option<String>,
}

/// A pblock as plain values.
#[verifier::ext_equal]
pub struct PblockModel {
    pub name: Seq<char>,
    pub x0: u32,
    pub y0: u32,
    pub x1: u32,
    pub y1: u32,
    pub ranged: bool,
    pub cells: Seq<Seq<char>>,
}

/// A project file as plain values.
#[verifier::ext_equal]
pub struct PrjModel {
    pub part: Seq<char>,
    pub sources: Seq<Seq<char>>,
    pub constraint_files: Seq<Seq<char>>,
    pub ip_packages: Seq<Seq<char>>,
    pub top: Option<Seq<char>>,
    pub sdc: Seq<Seq<char>>,
    /// The seven port-property tables, in the order PACKAGE_PIN,
    /// IOSTANDARD, DRIVE, SLEW, PULLTYPE, DIFF_TERM, IN_TERM.
    pub props: Seq<Seq<(Seq<char>, Seq<char>)>>,
    pub pblocks: Seq<PblockModel>,
    pub runs: Seq<(Seq<char>, Seq<char>)>,
    pub checkpoint: Option<Seq<char>>,
}

pub open spec fn pair_views(v: Seq<(String, String)>) -> Seq<(Seq<char>, Seq<char>)> {
    Seq::new(v.len(), |i: int| (v[i].0@, v[i].1@))
}

pub open spec fn pblock_model(b: PrjPblock) -> PblockModel {
    PblockModel { name: b.name@, x0: b.x0, y0: b.y0, x1: b.x1, y1: b.y1, ranged: b.ranged, cells: str_views(b.cells@) }
}

pub open spec fn pblock_models(v: Seq<PrjPblock>) -> Seq<PblockModel> {
    Seq::new(v.len(), |i: int| pblock_model(v[i]))
}

pub open spec fn run_views(v: Seq<PrjImplRun>) -> Seq<(Seq<char>, Seq<char>)> {
    Seq::new(v.len(), |i: int| (v[i].name@, v[i].strategy@))
}

pub open spec fn opt_string(o: Option<String>) -> Option<Seq<char>> {
    match o {
        Some(s) => Some(s@),
        None => None,
    }
}

pub open spec fn prj_model(p: ProjectFile) -> PrjModel {
    PrjModel {
        part: p.part@,
        sources: str_views(p.sources@),
        constraint_files: str_views(p.constraint_files@),
        ip_packages: str_views(p.ip_packages@),
        top: opt_string(p.top),
        sdc: str_views(p.sdc@),
        props: seq![
            pair_views(p.package_pins@),
            pair_views(p.iostandards@),
            pair_views(p.drives@),
            pair_views(p.slews@),
            pair_views(p.pulltypes@),
            pair_views(p.diff_terms@),
            pair_views(p.in_terms@),
        ],
        pblocks: pblock_models(p.pblocks@),
        runs: run_views(p.impl_runs@),
        checkpoint: opt_string(p.checkpoint_path),
    }
}

/// The project before any line: part HL10T-C32-1, nothing else.
pub open spec fn prj_init() -> PrjModel {
    PrjModel {
        part: "HL10T-C32-1"@,
        sources: Seq::empty(),
        constraint_files: Seq::empty(),
        ip_packages: Seq::empty(),
        top: None,
        sdc: Seq::empty(),
        props: seq![Seq::empty(), Seq::empty(), Seq::empty(), Seq::empty(), Seq::empty(), Seq::empty(), Seq::empty()],
        pblocks: Seq::empty(),
        runs: Seq::empty(),
        checkpoint: None,
    }
}

impl Default for ProjectFile {
    fn default() -> (r: Self)
        ensures
            r.part@ == Seq::<char>::empty(),
            r.sources@.len() == 0 && r.constraint_files@.len() == 0 && r.ip_packages@.len() == 0,
            r.top is None && r.sdc@.len() == 0 && r.checkpoint_path is None,
            r.package_pins@.len() == 0 && r.iostandards@.len() == 0 && r.drives@.len() == 0,
            r.slews@.len() == 0 && r.pulltypes@.len() == 0 && r.diff_terms@.len() == 0,
            r.in_terms@.len() == 0 && r.pblocks@.len() == 0 && r.impl_runs@.len() == 0,
    {
        ProjectFile {
            part: String::new(),
            sources: Vec::new(),
            constraint_files: Vec::new(),
            ip_packages: Vec::new(),
            top: None,
            sdc: Vec::new(),
            package_pins: Vec::new(),
            iostandards: Vec::new(),
            drives: Vec::new(),
            slews: Vec::new(),
            pulltypes: Vec::new(),
            diff_terms: Vec::new(),
            in_terms: Vec::new(),
            pblocks: Vec::new(),
            impl_runs: Vec::new(),
            checkpoint_path: None,
        }
    }
}

// ---------------------------------------------------------------------------
// Token helpers
// ---------------------------------------------------------------------------

/// First index `>= i` whose character is not in `set`, or `s.len()`.
pub open spec fn skip_set_from(s: Seq<char>, set: Seq<char>, i: int) -> int
    decreases s.len() - i,
{
    if i >= s.len() {
        s.len() as int
    } else if !set.contains(s[i]) {
        i
    } else {
        skip_set_from(s, set, i + 1)
    }
}

/// One past the last index below `j` whose character is not in `set` (0 if none).
pub open spec fn trim_set_end(s: Seq<char>, set: Seq<char>, j: int) -> int
    decreases j,
{
    if j <= 0 {
        0
    } else if !set.contains(s[j - 1]) {
        j
    } else {
        trim_set_end(s, set, j - 1)
    }
}

/// `str::trim_matches` with a set of characters.
pub open spec fn trim_set(s: Seq<char>, set: Seq<char>) -> Seq<char> {
    let a = skip_set_from(s, set, 0);
    let b = trim_set_end(s, set, s.len() as int);
    if a >= b { Seq::empty() } else { s.subrange(a, b) }
}

proof fn lemma_skip_set(s: Seq<char>, set: Seq<char>, i: int)
    requires
        0 <= i <= s.len(),
    ensures
        i <= skip_set_from(s, set, i) <= s.len(),
    decreases s.len() - i,
{
    if i < s.len() && set.contains(s[i]) {
        lemma_skip_set(s, set, i + 1);
    }
}

proof fn lemma_trim_set_end(s: Seq<char>, set: Seq<char>, j: int)
    requires
        0 <= j <= s.len(),
    ensures
        0 <= trim_set_end(s, set, j) <= j,
    decreases j,
{
    if j > 0 && set.contains(s[j - 1]) {
        lemma_trim_set_end(s, set, j - 1);
    }
}

fn in_set(c: char, set: &Vec<char>) -> (r: bool)
    ensures
        r == set@.contains(c),
{
    let mut i: usize = 0;
    while i < set.len()
        invariant
            i <= set@.len(),
            forall|k: int| 0 <= k < i ==> set@[k] != c,
        decreases set@.len() - i,
    {
        if set[i] == c {
            assert(set@[i as int] == c);
            return true;
        }
        i = i + 1;
    }
    false
}

/// `str::trim_matches(|c| set.contains(c))`.
pub fn trim_set_exec(v: &Vec<char>, set: &str) -> (r: Vec<char>)
    ensures
        r@ == trim_set(v@, set@),
{
    let sv = text::chars_of(set);
    let mut a: usize = 0;
    while a < v.len() && in_set(v[a], &sv)
        invariant
            a <= v@.len(),
            sv@ == set@,
            skip_set_from(v@, set@, 0) == skip_set_from(v@, set@, a as int),
        decreases v@.len() - a,
    {
        a = a + 1;
    }
    let mut b: usize = v.len();
    while b > 0 && in_set(v[b - 1], &sv)
        invariant
            b <= v@.len(),
            sv@ == set@,
            trim_set_end(v@, set@, v@.len() as int) == trim_set_end(v@, set@, b as int),
        decreases b,
    {
        b = b - 1;
    }
    if a >= b {
        Vec::new()
    } else {
        text::slice(v, a, b)
    }
}

/// `CLB_X<x>Y<y>` / `SLICE_X<x>Y<y>` (after trimming and stripping `{}[]`).
pub open spec fn clb_xy(spec: Seq<char>) -> Option<(u32, u32)> {
    let s = trim_set(text::trim(spec), "{}[]"@);
    let rest: Option<Seq<char>> = if text::starts_with(s, "CLB_X"@) {
        Some(s.subrange(5, s.len() as int))
    } else if text::starts_with(s, "SLICE_X"@) {
        Some(s.subrange(7, s.len() as int))
    } else {
        None
    };
    match rest {
        None => None,
        Some(r) => {
            let j = text::find_char_from(r, 'Y', 0);
            if j >= r.len() {
                None
            } else {
                match (text::parse_unsigned(r.subrange(0, j), 0xffff_ffff), text::parse_unsigned(r.subrange(j + 1, r.len() as int), 0xffff_ffff)) {
                    (Some(x), Some(y)) => Some((x as u32, y as u32)),
                    _ => None,
                }
            }
        },
    }
}

/// A CLB range `a:b`, normalised to (min x, min y, max x, max y).
pub open spec fn clb_range(spec: Seq<char>) -> Option<(u32, u32, u32, u32)> {
    let s = trim_set(text::trim(spec), "{}[]"@);
    let j = text::find_char_from(s, ':', 0);
    if j >= s.len() {
        None
    } else {
        match (clb_xy(s.subrange(0, j)), clb_xy(s.subrange(j + 1, s.len() as int))) {
            (Some((x0, y0)), Some((x1, y1))) => Some((
                if x0 < x1 { x0 } else { x1 },
                if y0 < y1 { y0 } else { y1 },
                if x0 > x1 { x0 } else { x1 },
                if y0 > y1 { y0 } else { y1 },
            )),
            _ => None,
        }
    }
}

fn parse_clb_xy(spec: &Vec<char>) -> (r: Option<(u32, u32)>)
    ensures
        r == clb_xy(spec@),
{
    let t = text::trim_chars(spec);
    let s = trim_set_exec(&t, "{}[]");
    let rest = if text::starts_with_str(&s, "CLB_X") {
        proof { reveal_strlit("CLB_X"); }
        text::slice(&s, 5, s.len())
    } else if text::starts_with_str(&s, "SLICE_X") {
        proof { reveal_strlit("SLICE_X"); }
        text::slice(&s, 7, s.len())
    } else {
        return None;
    };
    let j = text::find_char(&rest, 'Y', 0);
    if j >= rest.len() {
        return None;
    }
    let xs = text::slice(&rest, 0, j);
    let ys = text::slice(&rest, j + 1, rest.len());
    match (text::parse_uint(&xs, 0xffff_ffff), text::parse_uint(&ys, 0xffff_ffff)) {
        (Some(x), Some(y)) => Some((x as u32, y as u32)),
        _ => None,
    }
}

fn parse_clb_range(spec: &Vec<char>) -> (r: Option<(u32, u32, u32, u32)>)
    ensures
        r == clb_range(spec@),
{
    let t = text::trim_chars(spec);
    let s = trim_set_exec(&t, "{}[]");
    let j = text::find_char(&s, ':', 0);
    if j >= s.len() {
        return None;
    }
    let a = text::slice(&s, 0, j);
    let b = text::slice(&s, j + 1, s.len());
    match (parse_clb_xy(&a), parse_clb_xy(&b)) {
        (Some((x0, y0)), Some((x1, y1))) => Some((
            if x0 < x1 {
                x0
            } else {
                x1
            },
            if y0 < y1 {
                y0
            } else {
                y1
            },
            if x0 > x1 {
                x0
            } else {
                x1
            },
            if y0 > y1 {
                y0
            } else {
                y1
            },
        )),
        _ => None,
    }
}

/// Tcl helper words that `resize_pblock` / `add_cells_to_pblock` skip.
pub open spec fn is_helper(s: Seq<char>) -> bool {
    s == "get_cells"@ || s == "get_pblocks"@ || s == "get_runs"@ || s == "-cells"@ || s == "-add"@ || s == "-force"@
}

fn is_helper_exec(s: &Vec<char>) -> (r: bool)
    ensures
        r == is_helper(s@),
{
    text::eq_str(s, "get_cells") || text::eq_str(s, "get_pblocks") || text::eq_str(s, "get_runs") || text::eq_str(
        s,
        "-cells",
    ) || text::eq_str(s, "-add") || text::eq_str(s, "-force")
}

// ---------------------------------------------------------------------------
// Project file semantics, line by line
// ---------------------------------------------------------------------------

/// Index of a port-property table, or -1.
pub open spec fn prop_index(k: Seq<char>) -> int {
    if k == "PACKAGE_PIN"@ { 0 } else if k == "IOSTANDARD"@ { 1 } else if k == "DRIVE"@ { 2 }
    else if k == "SLEW"@ { 3 } else if k == "PULLTYPE"@ { 4 } else if k == "DIFF_TERM"@ { 5 }
    else if k == "IN_TERM"@ { 6 } else { -1 }
}

pub open spec fn pb_index(ps: Seq<PblockModel>, n: Seq<char>, i: int) -> int
    decreases ps.len() - i,
{
    if i < 0 || i >= ps.len() {
        ps.len() as int
    } else if ps[i].name == n {
        i
    } else {
        pb_index(ps, n, i + 1)
    }
}

pub open spec fn new_pblock(n: Seq<char>) -> PblockModel {
    PblockModel { name: n, x0: 0, y0: 0, x1: 0, y1: 0, ranged: false, cells: Seq::empty() }
}

/// The pblocks with one named `n` (added unranged and empty when missing).
pub open spec fn ensure_pb(ps: Seq<PblockModel>, n: Seq<char>) -> Seq<PblockModel> {
    if pb_index(ps, n, 0) < ps.len() { ps } else { ps.push(new_pblock(n)) }
}

/// Pblock `n` (added if missing) given the range `r`.
pub open spec fn set_range(ps: Seq<PblockModel>, n: Seq<char>, r: (u32, u32, u32, u32)) -> Seq<PblockModel> {
    let qs = ensure_pb(ps, n);
    let k = pb_index(qs, n, 0);
    qs.update(k, PblockModel { x0: r.0, y0: r.1, x1: r.2, y1: r.3, ranged: true, ..qs[k] })
}

/// `cells` followed by those of `cs` not yet present, in order.
pub open spec fn add_unique(cells: Seq<Seq<char>>, cs: Seq<Seq<char>>) -> Seq<Seq<char>>
    decreases cs.len(),
{
    if cs.len() == 0 {
        cells
    } else {
        add_unique(if cells.contains(cs[0]) { cells } else { cells.push(cs[0]) }, cs.drop_first())
    }
}

pub open spec fn run_index(rs: Seq<(Seq<char>, Seq<char>)>, n: Seq<char>, i: int) -> int
    decreases rs.len() - i,
{
    if i < 0 || i >= rs.len() {
        rs.len() as int
    } else if rs[i].0 == n {
        i
    } else {
        run_index(rs, n, i + 1)
    }
}

/// Run `n` with strategy `s` (an existing run keeps its strategy when `s` is
/// `None`; a new one defaults to `Default`).
pub open spec fn upsert(rs: Seq<(Seq<char>, Seq<char>)>, n: Seq<char>, s: Option<Seq<char>>) -> Seq<(Seq<char>, Seq<char>)> {
    let k = run_index(rs, n, 0);
    if k < rs.len() {
        match s {
            Some(v) => rs.update(k, (rs[k].0, v)),
            None => rs,
        }
    } else {
        rs.push((n, match s {
            Some(v) => v,
            None => "Default"@,
        }))
    }
}

pub open spec fn braces() -> Seq<char> {
    "{}[]"@
}

/// `create_pblock` arguments from token `i` on: the name (first plain token,
/// brackets stripped) and the `-add` range.
pub open spec fn cp_scan(t: Seq<Seq<char>>, i: int, name: Seq<char>, add: Option<Seq<char>>) -> (Seq<char>, Option<Seq<char>>)
    decreases t.len() + 1 - i,
{
    if i < 0 || i >= t.len() {
        (name, add)
    } else if t[i] == "-add"@ {
        cp_scan(t, i + 2, name, if i + 1 < t.len() { Some(t[i + 1]) } else { add })
    } else if name.len() == 0 && !text::starts_with(t[i], "-"@) {
        cp_scan(t, i + 1, trim_set(t[i], braces()), add)
    } else {
        cp_scan(t, i + 1, name, add)
    }
}

/// `resize_pblock` arguments from token `i` on: the name (first token without
/// `:`) and the range (the other tokens joined by `:`).
pub open spec fn rp_scan(t: Seq<Seq<char>>, i: int, name: Seq<char>, spec: Seq<char>) -> (Seq<char>, Seq<char>)
    decreases t.len() - i,
{
    if i < 0 || i >= t.len() {
        (name, spec)
    } else if t[i] == "-add"@ {
        rp_scan(t, i + 1, name, spec)
    } else {
        let x = trim_set(t[i], braces());
        if x.len() == 0 || is_helper(x) {
            rp_scan(t, i + 1, name, spec)
        } else if name.len() == 0 && !crate::hw::has_char(x, ':') {
            rp_scan(t, i + 1, x, spec)
        } else if spec.len() > 0 {
            rp_scan(t, i + 1, name, spec + seq![':'] + x)
        } else {
            rp_scan(t, i + 1, name, x)
        }
    }
}

/// `add_cells_to_pblock` words from token `i` on: brackets stripped, empty
/// and helper words dropped.
pub open spec fn cell_toks(t: Seq<Seq<char>>, i: int) -> Seq<Seq<char>>
    decreases t.len() - i,
{
    if i < 0 || i >= t.len() {
        Seq::empty()
    } else {
        let x = trim_set(t[i], braces());
        if x.len() > 0 && !is_helper(x) { seq![x] + cell_toks(t, i + 1) } else { cell_toks(t, i + 1) }
    }
}

/// `create_run` arguments from token `i` on: name and `-strategy`.
pub open spec fn cr_scan(t: Seq<Seq<char>>, i: int, name: Seq<char>, strat: Seq<char>) -> (Seq<char>, Seq<char>)
    decreases t.len() + 1 - i,
{
    if i < 0 || i >= t.len() {
        (name, strat)
    } else if t[i] == "-strategy"@ || t[i] == "-strat"@ {
        cr_scan(t, i + 2, name, if i + 1 < t.len() { t[i + 1] } else { strat })
    } else if name.len() == 0 && !text::starts_with(t[i], "-"@) {
        cr_scan(t, i + 1, trim_set(t[i], braces()), strat)
    } else {
        cr_scan(t, i + 1, name, strat)
    }
}

/// The last token before index `j` (and after the command) not starting with `-`.
pub open spec fn last_plain(t: Seq<Seq<char>>, j: int) -> Option<Seq<char>>
    decreases j,
{
    if j <= 1 || j > t.len() {
        None
    } else if !text::starts_with(t[j - 1], "-"@) && t[j - 1].len() > 0 {
        Some(t[j - 1])
    } else {
        last_plain(t, j - 1)
    }
}

pub open spec fn is_source_cmd(c: Seq<char>) -> bool {
    c == "read_sv"@ || c == "read_vhdl"@ || c == "read_c"@ || c == "read_verilog"@ || c == "sv"@ || c == "vhdl"@
        || c == "c"@
}

pub open spec fn is_xdc_cmd(c: Seq<char>) -> bool {
    c == "read_xdc"@ || c == "read_sdc"@ || c == "xdc"@ || c == "sdc"@
}

pub open spec fn is_ckpt_cmd(c: Seq<char>) -> bool {
    c == "write_checkpoint"@ || c == "open_checkpoint"@ || c == "read_checkpoint"@ || c == "checkpoint"@
}

/// `set_property` with tokens `t` (the command first).
pub open spec fn prop_step(m: PrjModel, t: Seq<Seq<char>>) -> PrjModel {
    if t.len() >= 3 && t[1] == "TOP"@ {
        let name = trim_set(t[2], "[]"@);
        if name.len() > 0 && !text::eq_ignore_case(name, "current_fileset"@) && !text::starts_with(name, "get_"@) {
            PrjModel { top: Some(name), ..m }
        } else {
            m
        }
    } else if t.len() >= 3 && prop_index(t[1]) >= 0 {
        let k = prop_index(t[1]);
        match crate::sta::tcl_name_of(crate::ir::join_words(t.subrange(3, t.len() as int)), "get_ports"@) {
            Some(port) => PrjModel { props: m.props.update(k, m.props[k].push((port, t[2]))), ..m },
            None => m,
        }
    } else {
        m
    }
}

pub open spec fn create_pblock_step(m: PrjModel, t: Seq<Seq<char>>) -> Result<PrjModel, Seq<char>> {
    let (name0, add) = cp_scan(t, 1, Seq::empty(), None);
    let name = if name0.len() == 0 { "pblock_"@ + text::dec(m.pblocks.len()) } else { name0 };
    let ps = ensure_pb(m.pblocks, name);
    match add {
        None => Ok(PrjModel { pblocks: ps, ..m }),
        Some(spec) => match clb_range(spec) {
            None => Err("create_pblock -add: cannot parse CLB range "@ + spec),
            Some(r) => Ok(PrjModel { pblocks: set_range(ps, name, r), ..m }),
        },
    }
}

pub open spec fn resize_pblock_step(m: PrjModel, t: Seq<Seq<char>>) -> Result<PrjModel, Seq<char>> {
    let (name, spec) = rp_scan(t, 1, Seq::empty(), Seq::empty());
    if name.len() > 0 && spec.len() > 0 {
        match clb_range(spec) {
            None => Err("resize_pblock: cannot parse CLB range "@ + spec),
            Some(r) => Ok(PrjModel { pblocks: set_range(m.pblocks, name, r), ..m }),
        }
    } else {
        Ok(m)
    }
}

pub open spec fn add_cells_step(m: PrjModel, t: Seq<Seq<char>>) -> PrjModel {
    let cs = cell_toks(t, 1);
    if cs.len() > 0 {
        let ps = ensure_pb(m.pblocks, cs[0]);
        let k = pb_index(ps, cs[0], 0);
        PrjModel {
            pblocks: ps.update(k, PblockModel { cells: add_unique(ps[k].cells, cs.subrange(1, cs.len() as int)), ..ps[k] }),
            ..m
        }
    } else {
        m
    }
}

pub open spec fn create_run_step(m: PrjModel, t: Seq<Seq<char>>) -> PrjModel {
    let (name, strat) = cr_scan(t, 1, Seq::empty(), "Default"@);
    if name.len() > 0 { PrjModel { runs: upsert(m.runs, name, Some(strat)), ..m } } else { m }
}

pub open spec fn launch_step(m: PrjModel, t: Seq<Seq<char>>) -> PrjModel {
    if t.len() > 1 && trim_set(t[1], braces()).len() > 0 {
        PrjModel { runs: upsert(m.runs, trim_set(t[1], braces()), None), ..m }
    } else {
        m
    }
}

/// The effect of one comment-stripped, trimmed project line.
pub open spec fn prj_step(m: PrjModel, line: Seq<char>) -> Result<PrjModel, Seq<char>> {
    let t = text::words(line);
    if t.len() == 0 {
        Ok(m)
    } else {
        let cmd = t[0];
        let has_arg = t.len() > 1;
        if cmd == "part"@ {
            Ok(if has_arg { PrjModel { part: t[1], ..m } } else { m })
        } else if is_source_cmd(cmd) {
            Ok(if has_arg { PrjModel { sources: m.sources.push(t[1]), ..m } } else { m })
        } else if is_xdc_cmd(cmd) {
            Ok(if has_arg { PrjModel { constraint_files: m.constraint_files.push(t[1]), ..m } } else { m })
        } else if cmd == "read_ip"@ || cmd == "ip"@ {
            Ok(if has_arg { PrjModel { ip_packages: m.ip_packages.push(t[1]), ..m } } else { m })
        } else if cmd == "top"@ {
            Ok(if has_arg { PrjModel { top: Some(t[1]), ..m } } else { m })
        } else if cmd == "create_clock"@ {
            Ok(PrjModel { sdc: m.sdc.push(line), ..m })
        } else if cmd == "set_property"@ {
            Ok(prop_step(m, t))
        } else if cmd == "create_pblock"@ {
            create_pblock_step(m, t)
        } else if cmd == "resize_pblock"@ {
            resize_pblock_step(m, t)
        } else if cmd == "add_cells_to_pblock"@ {
            Ok(add_cells_step(m, t))
        } else if cmd == "create_run"@ {
            Ok(create_run_step(m, t))
        } else if cmd == "launch_runs"@ {
            Ok(launch_step(m, t))
        } else if is_ckpt_cmd(cmd) {
            Ok(match last_plain(t, t.len() as int) {
                Some(v) => PrjModel { checkpoint: Some(v), ..m },
                None => m,
            })
        } else {
            Ok(m)
        }
    }
}

/// Applies the lines `ls` in order, stopping at the first error.
pub open spec fn prj_fold(m: PrjModel, ls: Seq<Seq<char>>) -> Result<PrjModel, Seq<char>>
    decreases ls.len(),
{
    if ls.len() == 0 {
        Ok(m)
    } else {
        match prj_step(m, text::clean_line(ls[0])) {
            Err(e) => Err(e),
            Ok(m2) => prj_fold(m2, ls.drop_first()),
        }
    }
}

/// The project a `.prj` text describes, or its first error; a project with
/// neither sources nor IP packages is refused.
pub open spec fn prj_result(t: Seq<char>) -> Result<PrjModel, Seq<char>> {
    match prj_fold(prj_init(), text::lines(t)) {
        Err(e) => Err(e),
        Ok(m) => if m.sources.len() == 0 && m.ip_packages.len() == 0 {
            Err("project has no sources"@)
        } else {
            Ok(m)
        },
    }
}

// ---------------------------------------------------------------------------
// Project file parser
// ---------------------------------------------------------------------------

pub open spec fn cviews(v: Seq<Vec<char>>) -> Seq<Seq<char>> {
    v.map_values(|x: Vec<char>| x@)
}

pub open spec fn opt_chars(o: Option<Vec<char>>) -> Option<Seq<char>> {
    match o {
        Some(v) => Some(v@),
        None => None,
    }
}

fn push_string(v: &mut Vec<String>, w: &Vec<char>)
    ensures
        str_views(final(v)@) == str_views(old(v)@).push(w@),
{
    let ghost before = str_views(v@);
    v.push(text::string_of(w.as_slice()));
    assert(str_views(v@) =~= before.push(w@));
}

fn push_pair(v: &mut Vec<(String, String)>, a: &Vec<char>, b: &Vec<char>)
    ensures
        pair_views(final(v)@) == pair_views(old(v)@).push((a@, b@)),
{
    let ghost before = pair_views(v@);
    v.push((text::string_of(a.as_slice()), text::string_of(b.as_slice())));
    assert(pair_views(v@) =~= before.push((a@, b@)));
}

fn push_prop(p: &mut ProjectFile, k: usize, port: &Vec<char>, val: &Vec<char>)
    requires
        k < 7,
    ensures
        prj_model(*final(p)) == ({
            let m = prj_model(*old(p));
            PrjModel { props: m.props.update(k as int, m.props[k as int].push((port@, val@))), ..m }
        }),
{
    let ghost m = prj_model(*p);
    match k {
        0 => push_pair(&mut p.package_pins, port, val),
        1 => push_pair(&mut p.iostandards, port, val),
        2 => push_pair(&mut p.drives, port, val),
        3 => push_pair(&mut p.slews, port, val),
        4 => push_pair(&mut p.pulltypes, port, val),
        5 => push_pair(&mut p.diff_terms, port, val),
        _ => push_pair(&mut p.in_terms, port, val),
    }
    assert(prj_model(*p).props =~= m.props.update(k as int, m.props[k as int].push((port@, val@))));
    assert(prj_model(*p) =~= PrjModel { props: m.props.update(k as int, m.props[k as int].push((port@, val@))), ..m });
}

proof fn lemma_pb_index(ps: Seq<PblockModel>, n: Seq<char>, i: int)
    requires
        0 <= i <= ps.len(),
    ensures
        i <= pb_index(ps, n, i) <= ps.len(),
        pb_index(ps, n, i) < ps.len() ==> ps[pb_index(ps, n, i)].name == n,
    decreases ps.len() - i,
{
    if i < ps.len() && ps[i].name != n {
        lemma_pb_index(ps, n, i + 1);
    }
}

proof fn lemma_pb_index_push(ps: Seq<PblockModel>, x: PblockModel, n: Seq<char>, i: int)
    requires
        0 <= i <= ps.len(),
    ensures
        pb_index(ps, n, i) < ps.len() ==> pb_index(ps.push(x), n, i) == pb_index(ps, n, i),
        pb_index(ps, n, i) == ps.len() && x.name == n ==> pb_index(ps.push(x), n, i) == ps.len(),
    decreases ps.len() - i,
{
    lemma_pb_index(ps, n, i);
    if i < ps.len() {
        assert(ps.push(x)[i] == ps[i]);
        if ps[i].name != n {
            lemma_pb_index_push(ps, x, n, i + 1);
        }
    } else {
        assert(ps.push(x)[i] == x);
    }
}

fn pb_find(ps: &Vec<PrjPblock>, n: &Vec<char>) -> (r: usize)
    ensures
        r == pb_index(pblock_models(ps@), n@, 0),
        r <= ps@.len(),
{
    let ghost ms = pblock_models(ps@);
    let mut i: usize = 0;
    while i < ps.len()
        invariant
            i <= ps@.len(),
            ms == pblock_models(ps@),
            pb_index(ms, n@, 0) == pb_index(ms, n@, i as int),
        decreases ps@.len() - i,
    {
        let nm = text::chars_of(ps[i].name.as_str());
        if text::eq_chars(&nm, n) {
            assert(ms[i as int].name == n@);
            return i;
        }
        i = i + 1;
    }
    i
}

fn new_pblock_exec(n: &Vec<char>) -> (b: PrjPblock)
    ensures
        pblock_model(b) == new_pblock(n@),
{
    let b = PrjPblock { name: text::string_of(n.as_slice()), x0: 0, y0: 0, x1: 0, y1: 0, ranged: false, cells: Vec::new() };
    assert(str_views(b.cells@) =~= Seq::<Seq<char>>::empty());
    assert(pblock_model(b) =~= new_pblock(n@));
    b
}

fn ensure_pblock(ps: &mut Vec<PrjPblock>, n: &Vec<char>) -> (k: usize)
    ensures
        pblock_models(final(ps)@) == ensure_pb(pblock_models(old(ps)@), n@),
        k == pb_index(pblock_models(final(ps)@), n@, 0),
        k < final(ps)@.len(),
{
    let ghost ms = pblock_models(ps@);
    let k = pb_find(ps, n);
    if k < ps.len() {
        return k;
    }
    let b = new_pblock_exec(n);
    ps.push(b);
    proof {
        assert(pblock_models(ps@) =~= ms.push(new_pblock(n@)));
        lemma_pb_index_push(ms, new_pblock(n@), n@, 0);
    }
    k
}

fn set_pblock_range(ps: &mut Vec<PrjPblock>, n: &Vec<char>, r: (u32, u32, u32, u32))
    ensures
        pblock_models(final(ps)@) == set_range(pblock_models(old(ps)@), n@, r),
{
    let k = ensure_pblock(ps, n);
    let ghost qs = pblock_models(ps@);
    ps[k].x0 = r.0;
    ps[k].y0 = r.1;
    ps[k].x1 = r.2;
    ps[k].y1 = r.3;
    ps[k].ranged = true;
    assert(pblock_models(ps@) =~= qs.update(k as int, PblockModel { x0: r.0, y0: r.1, x1: r.2, y1: r.3, ranged: true, ..qs[k as int] }));
}

pub fn contains_string(v: &Vec<String>, w: &Vec<char>) -> (r: bool)
    ensures
        r == str_views(v@).contains(w@),
{
    let mut i: usize = 0;
    while i < v.len()
        invariant
            i <= v@.len(),
            forall|q: int| 0 <= q < i ==> str_views(v@)[q] != w@,
        decreases v@.len() - i,
    {
        let c = text::chars_of(v[i].as_str());
        if text::eq_chars(&c, w) {
            assert(str_views(v@)[i as int] == w@);
            return true;
        }
        i = i + 1;
    }
    false
}

fn add_pblock_cells(ps: &mut Vec<PrjPblock>, cs: &Vec<Vec<char>>)
    requires
        cs@.len() > 0,
    ensures
        ({
            let q = ensure_pb(pblock_models(old(ps)@), cs@[0]@);
            let k = pb_index(q, cs@[0]@, 0);
            pblock_models(final(ps)@) == q.update(
                k,
                PblockModel { cells: add_unique(q[k].cells, cviews(cs@).subrange(1, cs@.len() as int)), ..q[k] },
            )
        }),
{
    let k = ensure_pblock(ps, &cs[0]);
    let ghost q = pblock_models(ps@);
    let ghost cv = cviews(cs@);
    let ghost want = add_unique(q[k as int].cells, cv.subrange(1, cs@.len() as int));
    let mut j: usize = 1;
    assert(cv.subrange(j as int, cs@.len() as int) =~= cv.subrange(1, cs@.len() as int));
    while j < cs.len()
        invariant
            1 <= j <= cs@.len(),
            k < ps@.len(),
            q.len() == ps@.len(),
            cv == cviews(cs@),
            pblock_models(ps@) == q.update(k as int, PblockModel { cells: str_views(ps@[k as int].cells@), ..q[k as int] }),
            want == add_unique(str_views(ps@[k as int].cells@), cv.subrange(j as int, cs@.len() as int)),
        decreases cs@.len() - j,
    {
        let ghost cur = str_views(ps@[k as int].cells@);
        assert(cv.subrange(j as int, cs@.len() as int).drop_first() =~= cv.subrange(j + 1, cs@.len() as int));
        assert(cv.subrange(j as int, cs@.len() as int)[0] == cs@[j as int]@);
        let ghost pre = ps@;
        if !contains_string(&ps[k].cells, &cs[j]) {
            let s = text::string_of(cs[j].as_slice());
            ps[k].cells.push(s);
            assert(str_views(ps@[k as int].cells@) =~= cur.push(cs@[j as int]@));
        }
        proof {
            assert(ps@.len() == pre.len());
            assert(ps@[k as int].name == pre[k as int].name);
            assert(ps@[k as int].x0 == pre[k as int].x0 && ps@[k as int].y0 == pre[k as int].y0);
            assert(ps@[k as int].x1 == pre[k as int].x1 && ps@[k as int].y1 == pre[k as int].y1);
            assert(ps@[k as int].ranged == pre[k as int].ranged);
            let target = q.update(k as int, PblockModel { cells: str_views(ps@[k as int].cells@), ..q[k as int] });
            let before = pblock_models(pre);
            assert(before[k as int] == pblock_model(pre[k as int]));
            assert forall|q2: int| 0 <= q2 < ps@.len() implies #[trigger] pblock_models(ps@)[q2] == target[q2] by {
                if q2 != k {
                    assert(ps@[q2] == pre[q2]);
                    assert(before[q2] == q[q2]);
                } else {
                    assert(before[q2].name == q[q2].name);
                }
            }
            assert(pblock_models(ps@) =~= target);
        }
        j = j + 1;
    }
    assert(cv.subrange(j as int, cs@.len() as int) =~= Seq::<Seq<char>>::empty());
}

proof fn lemma_run_index(rs: Seq<(Seq<char>, Seq<char>)>, n: Seq<char>, i: int)
    requires
        0 <= i <= rs.len(),
    ensures
        i <= run_index(rs, n, i) <= rs.len(),
    decreases rs.len() - i,
{
    if i < rs.len() && rs[i].0 != n {
        lemma_run_index(rs, n, i + 1);
    }
}

fn upsert_run(rs: &mut Vec<PrjImplRun>, n: &Vec<char>, s: Option<&Vec<char>>)
    ensures
        run_views(final(rs)@) == upsert(run_views(old(rs)@), n@, match s {
            Some(v) => Some(v@),
            None => None,
        }),
{
    let ghost rv = run_views(rs@);
    let mut i: usize = 0;
    while i < rs.len()
        invariant
            i <= rs@.len(),
            *rs == *old(rs),
            rv == run_views(rs@),
            run_index(rv, n@, 0) == run_index(rv, n@, i as int),
        decreases rs@.len() - i,
    {
        let nm = text::chars_of(rs[i].name.as_str());
        if text::eq_chars(&nm, n) {
            assert(rv[i as int].0 == n@);
            assert(run_index(rv, n@, i as int) == i as int);
            match s {
                Some(v) => {
                    rs[i].strategy = text::string_of(v.as_slice());
                    assert(run_views(rs@) =~= rv.update(i as int, (rv[i as int].0, v@)));
                    assert(upsert(rv, n@, Some(v@)) == rv.update(i as int, (rv[i as int].0, v@)));
                },
                None => {
                    assert(upsert(rv, n@, None) == rv);
                },
            }
            return;
        }
        i = i + 1;
    }
    let strat = match s {
        Some(v) => text::string_of(v.as_slice()),
        None => text::owned("Default"),
    };
    rs.push(PrjImplRun { name: text::string_of(n.as_slice()), strategy: strat });
    assert(run_views(rs@) =~= upsert(rv, n@, match s {
        Some(v) => Some(v@),
        None => None,
    }));
}

fn copy_chars(v: &Vec<char>) -> (r: Vec<char>)
    ensures
        r@ == v@,
{
    let r = text::slice(v, 0, v.len());
    assert(r@ =~= v@);
    r
}

fn cp_scan_exec(t: &Vec<Vec<char>>) -> (r: (Vec<char>, Option<Vec<char>>))
    ensures
        (r.0@, opt_chars(r.1)) == cp_scan(cviews(t@), 1, Seq::empty(), None),
{
    let ghost tv = cviews(t@);
    let mut name: Vec<char> = Vec::new();
    let mut add: Option<Vec<char>> = None;
    let mut i: usize = 1;
    while i < t.len()
        invariant
            1 <= i,
            i <= t@.len() || t@.len() < 1,
            tv == cviews(t@),
            cp_scan(tv, 1, Seq::empty(), None) == cp_scan(tv, i as int, name@, opt_chars(add)),
        decreases t@.len() + 1 - i,
    {
        assert(tv[i as int] == t@[i as int]@);
        let ghost n0 = name@;
        let ghost a0 = opt_chars(add);
        let ghost i0 = i as int;
        if text::eq_str(&t[i], "-add") {
            if i + 1 < t.len() {
                assert(tv[i + 1] == t@[i + 1]@);
                add = Some(copy_chars(&t[i + 1]));
                i = i + 2;
                assert(cp_scan(tv, i0, n0, a0) == cp_scan(tv, i as int, name@, opt_chars(add)));
            } else {
                i = t.len();
                assert(cp_scan(tv, i0 + 2, n0, a0) == (n0, a0));
                assert(cp_scan(tv, i0, n0, a0) == cp_scan(tv, i as int, name@, opt_chars(add)));
            }
        } else {
            if name.len() == 0 && !text::starts_with_str(&t[i], "-") {
                name = trim_set_exec(&t[i], "{}[]");
            }
            i = i + 1;
            assert(cp_scan(tv, i0, n0, a0) == cp_scan(tv, i as int, name@, opt_chars(add)));
        }
    }
    (name, add)
}

fn rp_scan_exec(t: &Vec<Vec<char>>) -> (r: (Vec<char>, Vec<char>))
    ensures
        (r.0@, r.1@) == rp_scan(cviews(t@), 1, Seq::empty(), Seq::empty()),
{
    let ghost tv = cviews(t@);
    let mut name: Vec<char> = Vec::new();
    let mut spec: Vec<char> = Vec::new();
    let mut i: usize = 1;
    while i < t.len()
        invariant
            1 <= i <= t@.len() || t@.len() <= 1,
            tv == cviews(t@),
            rp_scan(tv, 1, Seq::empty(), Seq::empty()) == rp_scan(tv, i as int, name@, spec@),
        decreases t@.len() - i,
    {
        assert(tv[i as int] == t@[i as int]@);
        if !text::eq_str(&t[i], "-add") {
            let x = trim_set_exec(&t[i], "{}[]");
            if x.len() == 0 || is_helper_exec(&x) {
            } else if name.len() == 0 && text::find_char(&x, ':', 0) >= x.len() {
                name = x;
            } else if spec.len() > 0 {
                let ghost s0 = spec@;
                spec.push(':');
                text::push_chars(&mut spec, &x);
                assert(spec@ =~= s0 + seq![':'] + x@);
            } else {
                spec = x;
            }
        }
        i = i + 1;
    }
    (name, spec)
}

fn cell_toks_exec(t: &Vec<Vec<char>>) -> (r: Vec<Vec<char>>)
    ensures
        cviews(r@) == cell_toks(cviews(t@), 1),
{
    let ghost tv = cviews(t@);
    let mut r: Vec<Vec<char>> = Vec::new();
    let mut i: usize = 1;
    while i < t.len()
        invariant
            1 <= i,
            tv == cviews(t@),
            cell_toks(tv, 1) == cviews(r@) + cell_toks(tv, i as int),
        decreases t@.len() - i,
    {
        assert(tv[i as int] == t@[i as int]@);
        let x = trim_set_exec(&t[i], "{}[]");
        if x.len() > 0 && !is_helper_exec(&x) {
            let ghost before = cviews(r@);
            r.push(x);
            assert(cviews(r@) =~= before.push(trim_set(tv[i as int], braces())));
            assert(cviews(r@) + cell_toks(tv, i + 1) =~= before + cell_toks(tv, i as int));
        }
        i = i + 1;
    }
    assert(cell_toks(tv, i as int) =~= Seq::<Seq<char>>::empty());
    assert(cviews(r@) + Seq::<Seq<char>>::empty() =~= cviews(r@));
    r
}

fn cr_scan_exec(t: &Vec<Vec<char>>) -> (r: (Vec<char>, Vec<char>))
    ensures
        (r.0@, r.1@) == cr_scan(cviews(t@), 1, Seq::empty(), "Default"@),
{
    let ghost tv = cviews(t@);
    let mut name: Vec<char> = Vec::new();
    let mut strat: Vec<char> = text::chars_of("Default");
    let mut i: usize = 1;
    while i < t.len()
        invariant
            1 <= i,
            i <= t@.len() || t@.len() < 1,
            tv == cviews(t@),
            cr_scan(tv, 1, Seq::empty(), "Default"@) == cr_scan(tv, i as int, name@, strat@),
        decreases t@.len() + 1 - i,
    {
        assert(tv[i as int] == t@[i as int]@);
        let ghost n0 = name@;
        let ghost s0 = strat@;
        let ghost i0 = i as int;
        if text::eq_str(&t[i], "-strategy") || text::eq_str(&t[i], "-strat") {
            if i + 1 < t.len() {
                assert(tv[i + 1] == t@[i + 1]@);
                strat = copy_chars(&t[i + 1]);
                i = i + 2;
                assert(cr_scan(tv, i0, n0, s0) == cr_scan(tv, i as int, name@, strat@));
            } else {
                i = t.len();
                assert(cr_scan(tv, i0 + 2, n0, s0) == (n0, s0));
                assert(cr_scan(tv, i0, n0, s0) == cr_scan(tv, i as int, name@, strat@));
            }
        } else {
            if name.len() == 0 && !text::starts_with_str(&t[i], "-") {
                name = trim_set_exec(&t[i], "{}[]");
            }
            i = i + 1;
            assert(cr_scan(tv, i0, n0, s0) == cr_scan(tv, i as int, name@, strat@));
        }
    }
    (name, strat)
}

fn last_plain_exec(t: &Vec<Vec<char>>) -> (r: Option<Vec<char>>)
    ensures
        opt_chars(r) == last_plain(cviews(t@), t@.len() as int),
{
    let ghost tv = cviews(t@);
    let mut j: usize = t.len();
    while j > 1
        invariant
            j <= t@.len(),
            tv == cviews(t@),
            last_plain(tv, t@.len() as int) == last_plain(tv, j as int),
        decreases j,
    {
        assert(tv[j - 1] == t@[j - 1]@);
        if !text::starts_with_str(&t[j - 1], "-") && t[j - 1].len() > 0 {
            return Some(copy_chars(&t[j - 1]));
        }
        j = j - 1;
    }
    None
}

/// `prop_index` on a token.
fn prop_index_exec(k: &Vec<char>) -> (r: usize)
    ensures
        prop_index(k@) < 0 ==> r == 7,
        prop_index(k@) >= 0 ==> r == prop_index(k@),
{
    if text::eq_str(k, "PACKAGE_PIN") {
        0
    } else if text::eq_str(k, "IOSTANDARD") {
        1
    } else if text::eq_str(k, "DRIVE") {
        2
    } else if text::eq_str(k, "SLEW") {
        3
    } else if text::eq_str(k, "PULLTYPE") {
        4
    } else if text::eq_str(k, "DIFF_TERM") {
        5
    } else if text::eq_str(k, "IN_TERM") {
        6
    } else {
        7
    }
}

/// `set_property` on the project.
fn apply_prop(p: &mut ProjectFile, t: &Vec<Vec<char>>)
    ensures
        prj_model(*final(p)) == prop_step(prj_model(*old(p)), cviews(t@)),
{
    let ghost m = prj_model(*p);
    let ghost tv = cviews(t@);
    if t.len() >= 3 && text::eq_str(&t[1], "TOP") {
        assert(tv[1] == t@[1]@ && tv[2] == t@[2]@);
        let name = trim_set_exec(&t[2], "[]");
        if name.len() > 0 && !text::eq_ignore_case_str(&name, "current_fileset") && !text::starts_with_str(
            &name,
            "get_",
        ) {
            p.top = Some(text::string_of(name.as_slice()));
            assert(prj_model(*p) =~= PrjModel { top: Some(name@), ..m });
        }
        return ;
    }
    if t.len() < 3 {
        return ;
    }
    assert(tv[1] == t@[1]@ && tv[2] == t@[2]@);
    let k = prop_index_exec(&t[1]);
    if k >= 7 {
        return ;
    }
    let joined = crate::ir::join_from(t, 3);
    assert(t@.map_values(|x: Vec<char>| x@).subrange(3, t@.len() as int) =~= tv.subrange(3, tv.len() as int));
    match crate::sta::tcl_name(&joined, "get_ports") {
        Some(port) => {
            push_prop(p, k, &port, &t[2]);
        },
        None => {},
    }
}

fn pblock_error(head: &str, spec: &Vec<char>) -> (r: String)
    ensures
        r@ == head@ + spec@,
{
    let mut v = text::chars_of(head);
    text::push_chars(&mut v, spec);
    text::string_of(v.as_slice())
}

/// `create_pblock` on the project.
fn apply_create_pblock(p: &mut ProjectFile, t: &Vec<Vec<char>>) -> (r: Result<(), String>)
    ensures
        match create_pblock_step(prj_model(*old(p)), cviews(t@)) {
            Ok(m) => r is Ok && prj_model(*final(p)) == m,
            Err(e) => r matches Err(x) && x@ == e,
        },
{
    let ghost m = prj_model(*p);
    let (name0, add) = cp_scan_exec(t);
    let name = if name0.len() == 0 {
        let mut v = text::chars_of("pblock_");
        text::push_u64(&mut v, p.pblocks.len() as u64);
        v
    } else {
        name0
    };
    let _ = ensure_pblock(&mut p.pblocks, &name);
    let ghost ps = ensure_pb(m.pblocks, name@);
    assert(prj_model(*p) =~= PrjModel { pblocks: ps, ..m });
    match add {
        None => Ok(()),
        Some(spec) => match parse_clb_range(&spec) {
            None => Err(pblock_error("create_pblock -add: cannot parse CLB range ", &spec)),
            Some(r) => {
                set_pblock_range(&mut p.pblocks, &name, r);
                assert(prj_model(*p) =~= PrjModel { pblocks: set_range(ps, name@, r), ..m });
                Ok(())
            },
        },
    }
}

/// `resize_pblock` on the project.
fn apply_resize_pblock(p: &mut ProjectFile, t: &Vec<Vec<char>>) -> (r: Result<(), String>)
    ensures
        match resize_pblock_step(prj_model(*old(p)), cviews(t@)) {
            Ok(m) => r is Ok && prj_model(*final(p)) == m,
            Err(e) => r matches Err(x) && x@ == e,
        },
{
    let ghost m = prj_model(*p);
    let (name, spec) = rp_scan_exec(t);
    if name.len() > 0 && spec.len() > 0 {
        match parse_clb_range(&spec) {
            None => Err(pblock_error("resize_pblock: cannot parse CLB range ", &spec)),
            Some(r) => {
                set_pblock_range(&mut p.pblocks, &name, r);
                assert(prj_model(*p) =~= PrjModel { pblocks: set_range(m.pblocks, name@, r), ..m });
                Ok(())
            },
        }
    } else {
        Ok(())
    }
}

/// `add_cells_to_pblock` on the project.
fn apply_add_cells(p: &mut ProjectFile, t: &Vec<Vec<char>>)
    ensures
        prj_model(*final(p)) == add_cells_step(prj_model(*old(p)), cviews(t@)),
{
    let ghost m = prj_model(*p);
    let cs = cell_toks_exec(t);
    if cs.len() > 0 {
        assert(cviews(cs@)[0] == cs@[0]@);
        add_pblock_cells(&mut p.pblocks, &cs);
        let ghost q = ensure_pb(m.pblocks, cs@[0]@);
        let ghost k = pb_index(q, cs@[0]@, 0);
        assert(prj_model(*p) =~= PrjModel {
            pblocks: q.update(k, PblockModel { cells: add_unique(q[k].cells, cviews(cs@).subrange(1, cs@.len() as int)), ..q[k] }),
            ..m
        });
    }
}

/// `create_run` on the project.
fn apply_create_run(p: &mut ProjectFile, t: &Vec<Vec<char>>)
    ensures
        prj_model(*final(p)) == create_run_step(prj_model(*old(p)), cviews(t@)),
{
    let ghost m = prj_model(*p);
    let (name, strat) = cr_scan_exec(t);
    if name.len() > 0 {
        upsert_run(&mut p.impl_runs, &name, Some(&strat));
        assert(prj_model(*p) =~= PrjModel { runs: upsert(m.runs, name@, Some(strat@)), ..m });
    }
}

/// `launch_runs` on the project.
fn apply_launch(p: &mut ProjectFile, t: &Vec<Vec<char>>)
    ensures
        prj_model(*final(p)) == launch_step(prj_model(*old(p)), cviews(t@)),
{
    let ghost m = prj_model(*p);
    if t.len() > 1 {
        assert(cviews(t@)[1] == t@[1]@);
        let name = trim_set_exec(&t[1], "{}[]");
        if name.len() > 0 {
            upsert_run(&mut p.impl_runs, &name, None);
            assert(prj_model(*p) =~= PrjModel { runs: upsert(m.runs, name@, None), ..m });
        }
    }
}

/// One comment-stripped, trimmed project line applied to the project.
#[verifier::spinoff_prover]
#[verifier::rlimit(40)]
fn apply_line(p: &mut ProjectFile, line: &Vec<char>) -> (r: Result<(), String>)
    ensures
        match prj_step(prj_model(*old(p)), line@) {
            Ok(m) => r is Ok && prj_model(*final(p)) == m,
            Err(e) => r matches Err(x) && x@ == e,
        },
{
    let ghost m = prj_model(*p);
    let t = text::split_words(line);
    let ghost tv = cviews(t@);
    assert(tv =~= text::words(line@));
    if t.len() == 0 {
        return Ok(());
    }
    assert(tv[0] == t@[0]@);
    let has_arg = t.len() > 1;
    if has_arg {
        assert(tv[1] == t@[1]@);
    }
    let cmd = &t[0];
    if text::eq_str(cmd, "part") {
        if has_arg {
            p.part = text::string_of(t[1].as_slice());
            assert(prj_model(*p) =~= PrjModel { part: tv[1], ..m });
        }
        Ok(())
    } else if text::eq_str(cmd, "read_sv") || text::eq_str(cmd, "read_vhdl") || text::eq_str(cmd, "read_c")
        || text::eq_str(cmd, "read_verilog") || text::eq_str(cmd, "sv") || text::eq_str(cmd, "vhdl")
        || text::eq_str(cmd, "c") {
        if has_arg {
            push_string(&mut p.sources, &t[1]);
            assert(prj_model(*p) =~= PrjModel { sources: m.sources.push(tv[1]), ..m });
        }
        Ok(())
    } else if text::eq_str(cmd, "read_xdc") || text::eq_str(cmd, "read_sdc") || text::eq_str(cmd, "xdc")
        || text::eq_str(cmd, "sdc") {
        if has_arg {
            push_string(&mut p.constraint_files, &t[1]);
            assert(prj_model(*p) =~= PrjModel { constraint_files: m.constraint_files.push(tv[1]), ..m });
        }
        Ok(())
    } else if text::eq_str(cmd, "read_ip") || text::eq_str(cmd, "ip") {
        if has_arg {
            push_string(&mut p.ip_packages, &t[1]);
            assert(prj_model(*p) =~= PrjModel { ip_packages: m.ip_packages.push(tv[1]), ..m });
        }
        Ok(())
    } else if text::eq_str(cmd, "top") {
        if has_arg {
            p.top = Some(text::string_of(t[1].as_slice()));
            assert(prj_model(*p) =~= PrjModel { top: Some(tv[1]), ..m });
        }
        Ok(())
    } else if text::eq_str(cmd, "create_clock") {
        push_string(&mut p.sdc, line);
        assert(prj_model(*p) =~= PrjModel { sdc: m.sdc.push(line@), ..m });
        Ok(())
    } else if text::eq_str(cmd, "set_property") {
        apply_prop(p, &t);
        Ok(())
    } else if text::eq_str(cmd, "create_pblock") {
        apply_create_pblock(p, &t)
    } else if text::eq_str(cmd, "resize_pblock") {
        apply_resize_pblock(p, &t)
    } else if text::eq_str(cmd, "add_cells_to_pblock") {
        apply_add_cells(p, &t);
        Ok(())
    } else if text::eq_str(cmd, "create_run") {
        apply_create_run(p, &t);
        Ok(())
    } else if text::eq_str(cmd, "launch_runs") {
        apply_launch(p, &t);
        Ok(())
    } else if text::eq_str(cmd, "write_checkpoint") || text::eq_str(cmd, "open_checkpoint") || text::eq_str(
        cmd,
        "read_checkpoint",
    ) || text::eq_str(cmd, "checkpoint") {
        match last_plain_exec(&t) {
            Some(v) => {
                p.checkpoint_path = Some(text::string_of(v.as_slice()));
                assert(prj_model(*p) =~= PrjModel { checkpoint: Some(v@), ..m });
            },
            None => {},
        }
        Ok(())
    } else {
        Ok(())
    }
}

/// Parses a Vivado-like `.prj` text. Lines are cut at `#` and trimmed; the
/// part defaults to `HL10T-C32-1`; a malformed pblock range is an error, and
/// so is a project with neither sources nor IP packages.
#[verifier::spinoff_prover]
#[verifier::rlimit(40)]
pub fn load_prj(text: &str) -> (r: Result<ProjectFile, String>)
    ensures
        match prj_result(text@) {
            Ok(m) => r matches Ok(p) && prj_model(p) == m,
            Err(e) => r matches Err(x) && x@ == e,
        },
{
    let mut p = ProjectFile::default();
    p.part = text::owned("HL10T-C32-1");
    assert(prj_model(p) =~~= prj_init());
    let v = text::chars_of(text);
    let ls = text::split_lines(&v);
    let ghost lv = text::lines(v@);
    assert(lv.subrange(0, lv.len() as int) =~= lv);
    let mut i: usize = 0;
    while i < ls.len()
        invariant
            i <= ls@.len(),
            lv == text::lines(text@),
            ls@.len() == lv.len(),
            forall|k: int| 0 <= k < ls@.len() ==> (#[trigger] ls@[k])@ == lv[k],
            prj_fold(prj_init(), lv) == prj_fold(prj_model(p), lv.subrange(i as int, lv.len() as int)),
        decreases ls@.len() - i,
    {
        let ghost rest = lv.subrange(i as int, lv.len() as int);
        assert(rest[0] == lv[i as int]);
        assert(rest.drop_first() =~= lv.subrange(i + 1, lv.len() as int));
        let line = text::clean(&ls[i]);
        match apply_line(&mut p, &line) {
            Err(e) => {
                return Err(e);
            },
            Ok(()) => {},
        }
        i = i + 1;
    }
    assert(lv.subrange(i as int, lv.len() as int) =~= Seq::<Seq<char>>::empty());
    if p.sources.len() == 0 && p.ip_packages.len() == 0 {
        return Err(text::owned("project has no sources"));
    }
    Ok(p)
}

// ---------------------------------------------------------------------------
// Project file writer
// ---------------------------------------------------------------------------

pub open spec fn valid_component(c: Seq<char>) -> bool {
    c.len() > 0 && c != "."@
}

/// Scans `s` from `i` for the last path component (`/`-separated, empty and
/// `.` components skipped).
pub open spec fn file_name_from(s: Seq<char>, i: int, cur: Seq<char>, last: Seq<char>) -> Seq<char>
    decreases s.len() - i,
{
    if i < 0 || i >= s.len() {
        if valid_component(cur) { cur } else { last }
    } else if s[i] == '/' {
        file_name_from(s, i + 1, Seq::empty(), if valid_component(cur) { cur } else { last })
    } else {
        file_name_from(s, i + 1, cur.push(s[i]), last)
    }
}

/// `Path::file_name` of `s` (empty where there is none, or where it is `..`).
pub open spec fn file_name(s: Seq<char>) -> Seq<char> {
    let f = file_name_from(s, 0, Seq::empty(), Seq::empty());
    if f == ".."@ { Seq::empty() } else { f }
}

/// Index of the last `c` before `j`, or -1.
pub open spec fn rfind_char(s: Seq<char>, c: char, j: int) -> int
    decreases j,
{
    if j <= 0 || j > s.len() {
        -1
    } else if s[j - 1] == c {
        j - 1
    } else {
        rfind_char(s, c, j - 1)
    }
}

/// `Path::extension` of `s`, ASCII-lowercased (empty where there is none).
pub open spec fn path_ext(s: Seq<char>) -> Seq<char> {
    let f = file_name(s);
    let j = rfind_char(f, '.', f.len() as int);
    if j <= 0 { Seq::empty() } else { text::lower(f.subrange(j + 1, f.len() as int)) }
}

/// The command that reads source `s`, chosen by its extension.
pub open spec fn source_cmd(s: Seq<char>) -> Seq<char> {
    let e = path_ext(s);
    if e == "vhd"@ || e == "vhdl"@ {
        "read_vhdl"@
    } else if e == "c"@ || e == "cc"@ || e == "cpp"@ {
        "read_c"@
    } else {
        "read_sv"@
    }
}

/// `head x\n` for each `x` of `xs`.
pub open spec fn cmd_lines(head: Seq<char>, xs: Seq<Seq<char>>) -> Seq<char>
    decreases xs.len(),
{
    if xs.len() == 0 {
        Seq::empty()
    } else {
        cmd_lines(head, xs.drop_last()) + head + xs.last() + seq!['\n']
    }
}

/// One `read_*` line per source.
pub open spec fn source_lines(xs: Seq<Seq<char>>) -> Seq<char>
    decreases xs.len(),
{
    if xs.len() == 0 {
        Seq::empty()
    } else {
        source_lines(xs.drop_last()) + source_cmd(xs.last()) + seq![' '] + xs.last() + seq!['\n']
    }
}

/// The inline SDC lines, each ended by a newline.
pub open spec fn sdc_lines(xs: Seq<Seq<char>>) -> Seq<char>
    decreases xs.len(),
{
    if xs.len() == 0 {
        Seq::empty()
    } else {
        let x = xs.last();
        sdc_lines(xs.drop_last()) + x + if x.len() > 0 && x.last() == '\n' { Seq::empty() } else { seq!['\n'] }
    }
}

pub open spec fn pblock_text(b: PblockModel) -> Seq<char> {
    "create_pblock "@ + b.name + seq!['\n'] + (if b.ranged {
        "resize_pblock "@ + b.name + " -add {"@ + range_text_of(b) + "}\n"@
    } else {
        Seq::empty()
    }) + cmd_lines("add_cells_to_pblock "@ + b.name + seq![' '], b.cells)
}

pub open spec fn pblocks_text(bs: Seq<PblockModel>) -> Seq<char>
    decreases bs.len(),
{
    if bs.len() == 0 {
        Seq::empty()
    } else {
        pblocks_text(bs.drop_last()) + pblock_text(bs.last())
    }
}

pub open spec fn runs_text(rs: Seq<(Seq<char>, Seq<char>)>) -> Seq<char>
    decreases rs.len(),
{
    if rs.len() == 0 {
        Seq::empty()
    } else {
        let r = rs.last();
        runs_text(rs.drop_last()) + "create_run "@ + r.0 + " -strategy "@ + (if r.1.len() == 0 {
            "Default"@
        } else {
            r.1
        }) + seq!['\n']
    }
}

/// The `.prj` text of a project (pin properties are not written).
pub open spec fn prj_text(m: PrjModel) -> Seq<char> {
    "part "@ + (if m.part.len() > 0 { m.part } else { "HL10T-C32-1"@ }) + seq!['\n'] + (match m.top {
        Some(t) => "top "@ + t + seq!['\n'],
        None => Seq::empty(),
    }) + source_lines(m.sources) + cmd_lines("read_ip "@, m.ip_packages) + cmd_lines(
        "read_xdc "@,
        m.constraint_files,
    ) + sdc_lines(m.sdc) + pblocks_text(m.pblocks) + runs_text(m.runs) + (match m.checkpoint {
        Some(c) => "write_checkpoint "@ + c + seq!['\n'],
        None => Seq::empty(),
    })
}

fn file_name_exec(v: &Vec<char>) -> (r: Vec<char>)
    ensures
        r@ == file_name(v@),
{
    let mut cur: Vec<char> = Vec::new();
    let mut last: Vec<char> = Vec::new();
    let mut i: usize = 0;
    while i < v.len()
        invariant
            i <= v@.len(),
            file_name_from(v@, 0, Seq::empty(), Seq::empty()) == file_name_from(v@, i as int, cur@, last@),
        decreases v@.len() - i,
    {
        if v[i] == '/' {
            if cur.len() > 0 && !text::eq_str(&cur, ".") {
                last = cur;
            }
            cur = Vec::new();
        } else {
            cur.push(v[i]);
        }
        i = i + 1;
    }
    let f = if cur.len() > 0 && !text::eq_str(&cur, ".") { cur } else { last };
    if text::eq_str(&f, "..") {
        Vec::new()
    } else {
        f
    }
}

fn rfind_char_exec(v: &Vec<char>, c: char) -> (r: Option<usize>)
    ensures
        match r {
            Some(j) => j == rfind_char(v@, c, v@.len() as int) && j < v@.len(),
            None => rfind_char(v@, c, v@.len() as int) == -1,
        },
{
    let mut j: usize = v.len();
    while j > 0
        invariant
            j <= v@.len(),
            rfind_char(v@, c, v@.len() as int) == rfind_char(v@, c, j as int),
        decreases j,
    {
        if v[j - 1] == c {
            return Some(j - 1);
        }
        j = j - 1;
    }
    None
}

fn source_cmd_exec(s: &Vec<char>) -> (r: &'static str)
    ensures
        r@ == source_cmd(s@),
{
    let f = file_name_exec(s);
    let ext = match rfind_char_exec(&f, '.') {
        Some(j) => if j == 0 {
            Vec::new()
        } else {
            let n = f.len();
            assert(j < n);
            let e = text::slice(&f, j + 1, f.len());
            text::lower_chars(&e)
        },
        None => Vec::new(),
    };
    assert(ext@ == path_ext(s@));
    if text::eq_str(&ext, "vhd") || text::eq_str(&ext, "vhdl") {
        "read_vhdl"
    } else if text::eq_str(&ext, "c") || text::eq_str(&ext, "cc") || text::eq_str(&ext, "cpp") {
        "read_c"
    } else {
        "read_sv"
    }
}

fn push_cmd_lines(out: &mut Vec<char>, head: &Vec<char>, xs: &Vec<String>)
    ensures
        final(out)@ == old(out)@ + cmd_lines(head@, str_views(xs@)),
{
    let ghost o = out@;
    let ghost xv = str_views(xs@);
    let mut i: usize = 0;
    assert(xv.subrange(0, 0) =~= Seq::<Seq<char>>::empty());
    while i < xs.len()
        invariant
            i <= xs@.len(),
            xv == str_views(xs@),
            out@ == o + cmd_lines(head@, xv.subrange(0, i as int)),
        decreases xs@.len() - i,
    {
        assert(xv.subrange(0, i + 1).drop_last() =~= xv.subrange(0, i as int));
        text::push_chars(out, head);
        text::push_str(out, xs[i].as_str());
        out.push('\n');
        i = i + 1;
    }
    assert(xv.subrange(0, xs@.len() as int) =~= xv);
}

fn push_source_lines(out: &mut Vec<char>, xs: &Vec<String>)
    ensures
        final(out)@ == old(out)@ + source_lines(str_views(xs@)),
{
    let ghost o = out@;
    let ghost xv = str_views(xs@);
    let mut i: usize = 0;
    assert(xv.subrange(0, 0) =~= Seq::<Seq<char>>::empty());
    while i < xs.len()
        invariant
            i <= xs@.len(),
            xv == str_views(xs@),
            out@ == o + source_lines(xv.subrange(0, i as int)),
        decreases xs@.len() - i,
    {
        assert(xv.subrange(0, i + 1).drop_last() =~= xv.subrange(0, i as int));
        let v = text::chars_of(xs[i].as_str());
        let cmd = source_cmd_exec(&v);
        text::push_str(out, cmd);
        out.push(' ');
        text::push_chars(out, &v);
        out.push('\n');
        i = i + 1;
    }
    assert(xv.subrange(0, xs@.len() as int) =~= xv);
}

fn push_sdc_lines(out: &mut Vec<char>, xs: &Vec<String>)
    ensures
        final(out)@ == old(out)@ + sdc_lines(str_views(xs@)),
{
    let ghost o = out@;
    let ghost xv = str_views(xs@);
    let mut i: usize = 0;
    assert(xv.subrange(0, 0) =~= Seq::<Seq<char>>::empty());
    while i < xs.len()
        invariant
            i <= xs@.len(),
            xv == str_views(xs@),
            out@ == o + sdc_lines(xv.subrange(0, i as int)),
        decreases xs@.len() - i,
    {
        assert(xv.subrange(0, i + 1).drop_last() =~= xv.subrange(0, i as int));
        let v = text::chars_of(xs[i].as_str());
        text::push_chars(out, &v);
        if !text::ends_with_char(&v, '\n') {
            out.push('\n');
        }
        i = i + 1;
    }
    assert(xv.subrange(0, xs@.len() as int) =~= xv);
}

#[verifier::spinoff_prover]
#[verifier::rlimit(40)]
fn push_pblocks(out: &mut Vec<char>, bs: &Vec<PrjPblock>)
    ensures
        final(out)@ == old(out)@ + pblocks_text(pblock_models(bs@)),
{
    let ghost o = out@;
    let ghost bv = pblock_models(bs@);
    let mut i: usize = 0;
    assert(bv.subrange(0, 0) =~= Seq::<PblockModel>::empty());
    while i < bs.len()
        invariant
            i <= bs@.len(),
            bv == pblock_models(bs@),
            out@ == o + pblocks_text(bv.subrange(0, i as int)),
        decreases bs@.len() - i,
    {
        assert(bv.subrange(0, i + 1).drop_last() =~= bv.subrange(0, i as int));
        let ghost before = out@;
        let b = &bs[i];
        let ghost bm = pblock_model(*b);
        assert(bv[i as int] == bm);
        let name = text::chars_of(b.name.as_str());
        text::push_str(out, "create_pblock ");
        text::push_chars(out, &name);
        out.push('\n');
        let ghost b1 = out@;
        assert(b1 =~= before + "create_pblock "@ + bm.name + seq!['\n']);
        if b.ranged {
            text::push_str(out, "resize_pblock ");
            text::push_chars(out, &name);
            text::push_str(out, " -add {");
            let rt = b.range_text();
            text::push_str(out, rt.as_str());
            text::push_str(out, "}\n");
            assert(out@ =~= b1 + ("resize_pblock "@ + bm.name + " -add {"@ + range_text_of(bm) + "}\n"@));
        } else {
            assert(out@ =~= b1 + Seq::<char>::empty());
        }
        let ghost b2 = out@;
        let mut head = text::chars_of("add_cells_to_pblock ");
        text::push_chars(&mut head, &name);
        head.push(' ');
        assert(head@ =~= "add_cells_to_pblock "@ + bm.name + seq![' ']);
        push_cmd_lines(out, &head, &b.cells);
        assert(out@ =~= b2 + cmd_lines("add_cells_to_pblock "@ + bm.name + seq![' '], bm.cells));
        assert(out@ =~= before + pblock_text(bm));
        i = i + 1;
    }
    assert(bv.subrange(0, bs@.len() as int) =~= bv);
}

fn push_runs(out: &mut Vec<char>, rs: &Vec<PrjImplRun>)
    ensures
        final(out)@ == old(out)@ + runs_text(run_views(rs@)),
{
    let ghost o = out@;
    let ghost rv = run_views(rs@);
    let mut i: usize = 0;
    assert(rv.subrange(0, 0) =~= Seq::<(Seq<char>, Seq<char>)>::empty());
    while i < rs.len()
        invariant
            i <= rs@.len(),
            rv == run_views(rs@),
            out@ == o + runs_text(rv.subrange(0, i as int)),
        decreases rs@.len() - i,
    {
        assert(rv.subrange(0, i + 1).drop_last() =~= rv.subrange(0, i as int));
        let ghost before = out@;
        text::push_str(out, "create_run ");
        text::push_str(out, rs[i].name.as_str());
        text::push_str(out, " -strategy ");
        let st = text::chars_of(rs[i].strategy.as_str());
        if st.len() == 0 {
            text::push_str(out, "Default");
        } else {
            text::push_chars(out, &st);
        }
        out.push('\n');
        i = i + 1;
    }
    assert(rv.subrange(0, rs@.len() as int) =~= rv);
}

/// The `.prj` text of a project: part (default `HL10T-C32-1`), top, one
/// `read_*` line per source by extension, IP packages, constraint files,
/// inline SDC, pblocks, runs and checkpoint.
#[verifier::spinoff_prover]
#[verifier::rlimit(40)]
pub fn format_prj(prj: &ProjectFile) -> (r: String)
    ensures
        r@ == prj_text(prj_model(*prj)),
        crate::prj_file::prj_ready(prj_model(*prj)) ==> prj_result(r@) == Ok::<PrjModel, Seq<char>>(
            PrjModel { props: prj_init().props, ..prj_model(*prj) },
        ),
{
    let ghost m = prj_model(*prj);
    let mut out: Vec<char> = Vec::new();
    text::push_str(&mut out, "part ");
    let part = text::chars_of(prj.part.as_str());
    if part.len() > 0 {
        text::push_chars(&mut out, &part);
    } else {
        text::push_str(&mut out, "HL10T-C32-1");
    }
    out.push('\n');
    let ghost a = out@;
    match &prj.top {
        Some(t) => {
            text::push_str(&mut out, "top ");
            text::push_str(&mut out, t.as_str());
            out.push('\n');
        },
        None => {},
    }
    let ghost b = out@;
    push_source_lines(&mut out, &prj.sources);
    let ip = text::chars_of("read_ip ");
    push_cmd_lines(&mut out, &ip, &prj.ip_packages);
    let xdc = text::chars_of("read_xdc ");
    push_cmd_lines(&mut out, &xdc, &prj.constraint_files);
    push_sdc_lines(&mut out, &prj.sdc);
    push_pblocks(&mut out, &prj.pblocks);
    push_runs(&mut out, &prj.impl_runs);
    let ghost c = out@;
    match &prj.checkpoint_path {
        Some(ck) => {
            text::push_str(&mut out, "write_checkpoint ");
            text::push_str(&mut out, ck.as_str());
            out.push('\n');
        },
        None => {},
    }
    assert(out@ =~= prj_text(m));
    proof {
        if crate::prj_file::prj_ready(m) {
            crate::prj_file::prj_round_trip(m);
        }
    }
    text::string_of(out.as_slice())
}

// ---------------------------------------------------------------------------
// opt_design
// ---------------------------------------------------------------------------

/// Some output IOB reads net `n`.
pub open spec fn feeds_iob(d: Design, n: Seq<char>) -> bool {
    exists|i: int|
        0 <= i < d.cells@.len() && (#[trigger] d.cells@[i]).kind is IobOut && pin_net(d.nets@, d.cells@[i].name@, "I"@)
            == Some(n)
}

/// The first flip-flop (from cell `i` on) whose `D` is on net `n`.
pub open spec fn d_ff_from(d: Design, n: Seq<char>, i: int) -> Option<Cell>
    decreases d.cells@.len() - i,
{
    if i < 0 || i >= d.cells@.len() {
        None
    } else if d.cells@[i].kind is Hff && pin_net(d.nets@, d.cells@[i].name@, "D"@) == Some(n) {
        Some(d.cells@[i])
    } else {
        d_ff_from(d, n, i + 1)
    }
}

pub open spec fn flagged(a: Attrs, k: Seq<char>) -> bool {
    a.lookup(k) matches Some(v) && crate::ir::is_flag_true(v)
}

/// The flip-flop that a constant-0 LUT `c` is removed with: the first FF its
/// output feeds, unless that FF drives an output IOB or either cell is kept.
pub open spec fn removable_ff(d: Design, c: Cell) -> Option<Cell> {
    match c.kind {
        CellKind::Lut6 { init } => if init != 0 {
            None
        } else {
            match pin_net(d.nets@, c.name@, "O"@) {
                None => None,
                Some(o) => match d_ff_from(d, o, 0) {
                    None => None,
                    Some(ff) => {
                        let q = match pin_net(d.nets@, ff.name@, "Q"@) {
                            Some(q) => q,
                            None => Seq::empty(),
                        };
                        if feeds_iob(d, q) || flagged(c.attrs, "DONT_TOUCH"@) || flagged(c.attrs, "keep"@) || flagged(
                            ff.attrs,
                            "DONT_TOUCH"@,
                        ) {
                            None
                        } else {
                            Some(ff)
                        }
                    },
                },
            }
        },
        _ => None,
    }
}

/// Cell `i` is a removable LUT named `n`, or its flip-flop is.
pub open spec fn drops_name(d: Design, i: int, n: Seq<char>) -> bool {
    match removable_ff(d, d.cells@[i]) {
        Some(ff) => d.cells@[i].name@ == n || ff.name@ == n,
        None => false,
    }
}

/// Names removed by `opt_design` among the first `k` cells' pairs.
pub open spec fn dropped_upto(d: Design, k: int) -> Set<Seq<char>> {
    Set::new(|n: Seq<char>| exists|i: int| 0 <= i < k && #[trigger] drops_name(d, i, n))
}

pub open spec fn dropped(d: Design) -> Set<Seq<char>> {
    dropped_upto(d, d.cells@.len() as int)
}

/// The cells whose names are not in `drop`, in order.
pub open spec fn kept_cells(cs: Seq<Cell>, drop: Set<Seq<char>>) -> Seq<Cell>
    decreases cs.len(),
{
    if cs.len() == 0 {
        Seq::empty()
    } else if drop.contains(cs.last().name@) {
        kept_cells(cs.drop_last(), drop)
    } else {
        kept_cells(cs.drop_last(), drop).push(cs.last())
    }
}

fn feeds_iob_exec(d: &Design, n: &str) -> (r: bool)
    ensures
        r == feeds_iob(*d, n@),
{
    let mut i: usize = 0;
    while i < d.cells.len()
        invariant
            i <= d.cells@.len(),
            forall|q: int|
                0 <= q < i ==> !((#[trigger] d.cells@[q]).kind is IobOut && pin_net(d.nets@, d.cells@[q].name@, "I"@)
                    == Some(n@)),
        decreases d.cells@.len() - i,
    {
        let c = &d.cells[i];
        match c.kind {
            CellKind::IobOut => {
                match pin_net_exec(d, c.name.as_str(), "I") {
                    Some(x) => if text::str_eq(x, n) {
                        return true;
                    },
                    None => {},
                }
            },
            _ => {},
        }
        i = i + 1;
    }
    false
}

pub fn d_ff_exec(d: &Design, n: &str) -> (r: Option<usize>)
    ensures
        match d_ff_from(*d, n@, 0) {
            Some(c) => r matches Some(i) && i < d.cells@.len() && d.cells@[i as int] == c,
            None => r is None,
        },
{
    let mut i: usize = 0;
    while i < d.cells.len()
        invariant
            i <= d.cells@.len(),
            d_ff_from(*d, n@, 0) == d_ff_from(*d, n@, i as int),
        decreases d.cells@.len() - i,
    {
        let c = &d.cells[i];
        match c.kind {
            CellKind::Hff => {
                match pin_net_exec(d, c.name.as_str(), "D") {
                    Some(x) => if text::str_eq(x, n) {
                        return Some(i);
                    },
                    None => {},
                }
            },
            _ => {},
        }
        i = i + 1;
    }
    None
}

fn removable_ff_exec(d: &Design, c: &Cell) -> (r: Option<usize>)
    ensures
        match removable_ff(*d, *c) {
            Some(ff) => r matches Some(i) && i < d.cells@.len() && d.cells@[i as int] == ff,
            None => r is None,
        },
{
    match c.kind {
        CellKind::Lut6 { init } => {
            if init != 0 {
                return None;
            }
        },
        _ => {
            return None;
        },
    }
    let o = match pin_net_exec(d, c.name.as_str(), "O") {
        Some(o) => o,
        None => {
            return None;
        },
    };
    let fi = match d_ff_exec(d, o) {
        Some(fi) => fi,
        None => {
            return None;
        },
    };
    let ff = &d.cells[fi];
    let q = match pin_net_exec(d, ff.name.as_str(), "Q") {
        Some(q) => q,
        None => "",
    };
    proof {
        reveal_strlit("");
        assert(q@ == match pin_net(d.nets@, ff.name@, "Q"@) {
            Some(q) => q,
            None => Seq::<char>::empty(),
        });
    }
    if feeds_iob_exec(d, q) || c.attrs.flag("DONT_TOUCH") || c.attrs.flag("keep") || ff.attrs.flag("DONT_TOUCH") {
        None
    } else {
        Some(fi)
    }
}

fn push_unique_name(v: &mut Vec<String>, n: &String)
    requires
        str_views(old(v)@).no_duplicates(),
    ensures
        str_views(final(v)@).no_duplicates(),
        str_views(final(v)@).to_set() == str_views(old(v)@).to_set().insert(n@),
{
    let ghost before = str_views(v@);
    let w = text::chars_of(n.as_str());
    if contains_string(v, &w) {
        assert(before.to_set().insert(n@) =~= before.to_set());
    } else {
        v.push(n.clone());
        let ghost after = str_views(v@);
        assert(after =~= before.push(n@));
        assert forall|y: Seq<char>| after.contains(y) <==> before.contains(y) || y == n@ by {
            if before.contains(y) {
                let i = choose|i: int| 0 <= i < before.len() && before[i] == y;
                assert(after[i] == y);
            }
            if y == n@ {
                assert(after[before.len() as int] == y);
            }
            if after.contains(y) {
                let i = choose|i: int| 0 <= i < after.len() && after[i] == y;
                if i < before.len() {
                    assert(before[i] == y);
                }
            }
        }
        assert(after.to_set() =~= before.to_set().insert(n@));
    }
}

/// Drops constant-0 LUT + FF pairs that do not drive an output IOB (and are
/// not kept by `DONT_TOUCH` / `keep`); returns the number of pairs removed.
#[verifier::spinoff_prover]
#[verifier::rlimit(40)]
pub fn opt_design(d: &mut Design) -> (n: usize)
    requires
        old(d).wf(),
    ensures
        final(d).wf(),
        dropped(*old(d)).finite(),
        n == dropped(*old(d)).len() / 2,
        final(d).cells@ == kept_cells(old(d).cells@, dropped(*old(d))),
        final(d).name == old(d).name && final(d).ports == old(d).ports && final(d).nets == old(d).nets,
        final(d).instances == old(d).instances && final(d).attrs == old(d).attrs,
{
    let ghost d0 = *d;
    let mut drop: Vec<String> = Vec::new();
    let mut i: usize = 0;
    while i < d.cells.len()
        invariant
            i <= d.cells@.len(),
            *d == d0,
            str_views(drop@).no_duplicates(),
            str_views(drop@).to_set() == dropped_upto(d0, i as int),
        decreases d.cells@.len() - i,
    {
        let ghost before = str_views(drop@).to_set();
        match removable_ff_exec(d, &d.cells[i]) {
            Some(fi) => {
                push_unique_name(&mut drop, &d.cells[i].name);
                push_unique_name(&mut drop, &d.cells[fi].name);
                proof {
                    assert(str_views(drop@).to_set() =~= dropped_upto(d0, i + 1)) by {
                        assert forall|x: Seq<char>| dropped_upto(d0, i + 1).contains(x) implies str_views(drop@).to_set().contains(x) by {
                            let q = choose|q: int|
                                0 <= q < i + 1 && #[trigger] drops_name(d0, q, x);
                            if q < i {
                                assert(dropped_upto(d0, i as int).contains(x));
                            }
                        }
                        assert forall|x: Seq<char>| str_views(drop@).to_set().contains(x) implies dropped_upto(d0, i + 1).contains(x) by {
                            if x == d0.cells@[i as int].name@ || x == d0.cells@[fi as int].name@ {
                                assert(drops_name(d0, i as int, x));
                            }
                            if before.contains(x) {
                                let q = choose|q: int|
                                    0 <= q < i && #[trigger] drops_name(d0, q, x);
                                assert(0 <= q < i + 1);
                            }
                        }
                    }
                }
            },
            None => {
                proof {
                    assert(str_views(drop@).to_set() =~= dropped_upto(d0, i + 1)) by {
                        assert forall|x: Seq<char>| dropped_upto(d0, i + 1).contains(x) implies str_views(drop@).to_set().contains(x) by {
                            let q = choose|q: int|
                                0 <= q < i + 1 && #[trigger] drops_name(d0, q, x);
                            assert(dropped_upto(d0, i as int).contains(x));
                        }
                        assert forall|x: Seq<char>| str_views(drop@).to_set().contains(x) implies dropped_upto(d0, i + 1).contains(x) by {
                            let q = choose|q: int|
                                0 <= q < i && #[trigger] drops_name(d0, q, x);
                            assert(0 <= q < i + 1);
                        }
                    }
                }
            },
        }
        i = i + 1;
    }
    proof {
        str_views(drop@).unique_seq_to_set();
    }
    let n = drop.len() / 2;
    let ghost ds = dropped(d0);
    let mut rest = d.take_cells();
    let mut k: usize = 0;
    let total = rest.len();
    assert(d0.cells@.subrange(0, 0) =~= Seq::<Cell>::empty());
    while rest.len() > 0
        invariant
            k + rest@.len() == total,
            total == d0.cells@.len(),
            rest@ == d0.cells@.subrange(k as int, total as int),
            d.wf(),
            d.cells@ == kept_cells(d0.cells@.subrange(0, k as int), ds),
            d.name == d0.name && d.ports == d0.ports && d.nets == d0.nets,
            d.instances == d0.instances && d.attrs == d0.attrs,
            str_views(drop@).to_set() == ds,
        decreases rest@.len(),
    {
        let c = rest.remove(0);
        assert(d0.cells@.subrange(0, k + 1).drop_last() =~= d0.cells@.subrange(0, k as int));
        assert(d0.cells@.subrange(0, k + 1).last() == c);
        let w = text::chars_of(c.name.as_str());
        if !contains_string(&drop, &w) {
            assert(!ds.contains(c.name@));
            d.push_cell(c);
        } else {
            assert(ds.contains(c.name@));
        }
        k = k + 1;
        assert(rest@ =~= d0.cells@.subrange(k as int, total as int));
    }
    assert(d0.cells@.subrange(0, total as int) =~= d0.cells@);
    n
}


/// Appends to `v` each string of `xs` that it does not hold yet, in order.
fn append_absent(v: &mut Vec<String>, xs: &Vec<String>)
    ensures
        str_views(final(v)@) == add_unique(str_views(old(v)@), str_views(xs@)),
{
    let ghost xv = str_views(xs@);
    let ghost want = add_unique(str_views(v@), xv);
    let mut j: usize = 0;
    assert(xv.subrange(0, xs@.len() as int) =~= xv);
    while j < xs.len()
        invariant
            j <= xs@.len(),
            xv == str_views(xs@),
            want == add_unique(str_views(v@), xv.subrange(j as int, xs@.len() as int)),
        decreases xs@.len() - j,
    {
        let ghost cur = str_views(v@);
        assert(xv.subrange(j as int, xs@.len() as int).drop_first() =~= xv.subrange(j + 1, xs@.len() as int));
        assert(xv.subrange(j as int, xs@.len() as int)[0] == xs@[j as int]@);
        let w = text::chars_of(xs[j].as_str());
        if !contains_string(v, &w) {
            v.push(xs[j].clone());
            assert(str_views(v@) =~= cur.push(xs@[j as int]@));
        }
        j = j + 1;
    }
    assert(xv.subrange(j as int, xs@.len() as int) =~= Seq::<Seq<char>>::empty());
}

/// Merges one `read_ip` package into the project: each of its HDL files and
/// constraint files is appended when not already listed, and its `top` is
/// taken only when the project names none.
pub fn merge_ip_package(prj: &mut ProjectFile, files: &Vec<String>, constraints: &Vec<String>, top: &Option<String>)
    ensures
        ({
            let m = prj_model(*old(prj));
            prj_model(*final(prj)) == PrjModel {
                sources: add_unique(m.sources, str_views(files@)),
                constraint_files: add_unique(m.constraint_files, str_views(constraints@)),
                top: if m.top is Some { m.top } else { opt_string(*top) },
                ..m
            }
        }),
{
    append_absent(&mut prj.sources, files);
    append_absent(&mut prj.constraint_files, constraints);
    if prj.top.is_none() {
        match top {
            Some(t) => {
                prj.top = Some(t.clone());
            },
            None => {},
        }
    }
}

/// After every `read_ip` package is merged, the project must list a source.
pub fn check_expanded_sources(prj: &ProjectFile) -> (r: Result<(), String>)
    ensures
        r is Ok <==> prj.sources@.len() > 0,
        r matches Err(e) ==> e@ == "project has no sources after read_ip expand"@,
{
    if prj.sources.len() == 0 {
        Err(text::owned("project has no sources after read_ip expand"))
    } else {
        Ok(())
    }
}


proof fn lemma_d_ff_from_in(d: Design, n: Seq<char>, i: int)
    requires
        0 <= i,
        d_ff_from(d, n, i) is Some,
    ensures
        exists|j: int| i <= j < d.cells@.len() && d.cells@[j] == d_ff_from(d, n, i)->0,
        d_ff_from(d, n, i)->0.kind is Hff,
    decreases d.cells@.len() - i,
{
    if i < d.cells@.len() && !(d.cells@[i].kind is Hff && pin_net(d.nets@, d.cells@[i].name@, "D"@) == Some(n)) {
        lemma_d_ff_from_in(d, n, i + 1);
        let j = choose|j: int| i + 1 <= j < d.cells@.len() && d.cells@[j] == d_ff_from(d, n, i + 1)->0;
        assert(i <= j);
    }
}

proof fn lemma_kept_cells_has(cs: Seq<Cell>, drop: Set<Seq<char>>, i: int)
    requires
        0 <= i < cs.len(),
        !drop.contains(cs[i].name@),
    ensures
        kept_cells(cs, drop).contains(cs[i]),
    decreases cs.len(),
{
    let rest = kept_cells(cs.drop_last(), drop);
    if i == cs.len() - 1 {
        assert(kept_cells(cs, drop)[rest.len() as int] == cs[i]);
    } else {
        assert(cs.drop_last()[i] == cs[i]);
        lemma_kept_cells_has(cs.drop_last(), drop, i);
        let k = choose|k: int| 0 <= k < rest.len() && rest[k] == cs[i];
        if drop.contains(cs.last().name@) {
        } else {
            assert(kept_cells(cs, drop)[k] == cs[i]);
        }
    }
}

/// Cell names are distinct.
pub open spec fn cell_names_distinct(d: Design) -> bool {
    forall|i: int, j: int| 0 <= i < j < d.cells@.len() ==> d.cells@[i].name@ != d.cells@[j].name@
}

/// `opt_design` never removes a cell marked `DONT_TOUCH` (nor a LUT marked
/// `keep`): every such cell of the input is still in the output.
pub proof fn opt_design_keeps_dont_touch(before: Design, after: Design, c: int)
    requires
        cell_names_distinct(before),
        after.cells@ == kept_cells(before.cells@, dropped(before)),
        0 <= c < before.cells@.len(),
        flagged(before.cells@[c].attrs, "DONT_TOUCH"@)
            || (before.cells@[c].kind is Lut6 && flagged(before.cells@[c].attrs, "keep"@)),
    ensures
        after.cells@.contains(before.cells@[c]),
{
    let cell = before.cells@[c];
    if dropped(before).contains(cell.name@) {
        let i = choose|i: int| 0 <= i < before.cells@.len() && #[trigger] drops_name(before, i, cell.name@);
        let lut = before.cells@[i];
        let o = pin_net(before.nets@, lut.name@, "O"@)->Some_0;
        let ff = d_ff_from(before, o, 0)->Some_0;
        lemma_d_ff_from_in(before, o, 0);
        let j = choose|j: int| 0 <= j < before.cells@.len() && before.cells@[j] == d_ff_from(before, o, 0)->0;
        if lut.name@ == cell.name@ {
            assert(i == c);
        } else {
            assert(ff.name@ == cell.name@);
            assert(j == c);
        }
    }
    lemma_kept_cells_has(before.cells@, dropped(before), c);
}

} // verus!
