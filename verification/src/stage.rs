//! The session stage machine and constraint provenance. Illegal transitions
//! refuse with a [`StageError`] (`code=STAGE_PREREQ`); timing reports carry a
//! [`ConstraintProvenance`] so a default 10 ns period is never mistaken for a
//! user `create_clock`.

use vstd::prelude::*;
use crate::text;
use crate::ir::{Design, CellKind};
use crate::sta::{Clock, Constraints, TimingResult};

verus! {

/// Highest completed / attempted CAD stage.
#[derive(Clone, Copy, Debug, PartialEq, Eq, Structural, PartialOrd, Ord, Hash)]
pub enum SessionStage {
    Idle,
    /// Elaborate/map done (design present).
    Elaborated,
    Packed,
    Placed,
    Routed,
    Sta,
    Bitgen,
    Sim,
    Lab,
}

/// Position of a stage in the flow, `Idle` first.
pub open spec fn stage_rank(s: SessionStage) -> int {
    match s {
        SessionStage::Idle => 0,
        SessionStage::Elaborated => 1,
        SessionStage::Packed => 2,
        SessionStage::Placed => 3,
        SessionStage::Routed => 4,
        SessionStage::Sta => 5,
        SessionStage::Bitgen => 6,
        SessionStage::Sim => 7,
        SessionStage::Lab => 8,
    }
}

/// The stage at position `k` of the flow.
pub open spec fn stage_at(k: int) -> SessionStage {
    if k <= 0 {
        SessionStage::Idle
    } else if k == 1 {
        SessionStage::Elaborated
    } else if k == 2 {
        SessionStage::Packed
    } else if k == 3 {
        SessionStage::Placed
    } else if k == 4 {
        SessionStage::Routed
    } else if k == 5 {
        SessionStage::Sta
    } else if k == 6 {
        SessionStage::Bitgen
    } else if k == 7 {
        SessionStage::Sim
    } else {
        SessionStage::Lab
    }
}

pub open spec fn stage_name(s: SessionStage) -> Seq<char> {
    match s {
        SessionStage::Idle => "Idle"@,
        SessionStage::Elaborated => "Elaborated"@,
        SessionStage::Packed => "Packed"@,
        SessionStage::Placed => "Placed"@,
        SessionStage::Routed => "Routed"@,
        SessionStage::Sta => "Sta"@,
        SessionStage::Bitgen => "Bitgen"@,
        SessionStage::Sim => "Sim"@,
        SessionStage::Lab => "Lab"@,
    }
}

/// Immediate prerequisite of a stage; `Idle` and `Elaborated` have none. STA
/// and bitgen both consume a routed netlist (bitgen needs no prior STA).
pub open spec fn stage_prereq(s: SessionStage) -> Option<SessionStage> {
    match s {
        SessionStage::Idle | SessionStage::Elaborated => None,
        SessionStage::Packed => Some(SessionStage::Elaborated),
        SessionStage::Placed => Some(SessionStage::Packed),
        SessionStage::Routed => Some(SessionStage::Placed),
        SessionStage::Sta | SessionStage::Bitgen => Some(SessionStage::Routed),
        SessionStage::Sim | SessionStage::Lab => Some(SessionStage::Bitgen),
    }
}

impl SessionStage {
    /// Every stage, in flow order.
    pub fn all() -> (r: [SessionStage; 9])
        ensures
            forall|k: int| 0 <= k < 9 ==> r@[k] == stage_at(k),
    {
        [
            SessionStage::Idle,
            SessionStage::Elaborated,
            SessionStage::Packed,
            SessionStage::Placed,
            SessionStage::Routed,
            SessionStage::Sta,
            SessionStage::Bitgen,
            SessionStage::Sim,
            SessionStage::Lab,
        ]
    }

    pub fn as_str(self) -> (r: &'static str)
        ensures
            r@ == stage_name(self),
    {
        match self {
            SessionStage::Idle => "Idle",
            SessionStage::Elaborated => "Elaborated",
            SessionStage::Packed => "Packed",
            SessionStage::Placed => "Placed",
            SessionStage::Routed => "Routed",
            SessionStage::Sta => "Sta",
            SessionStage::Bitgen => "Bitgen",
            SessionStage::Sim => "Sim",
            SessionStage::Lab => "Lab",
        }
    }

    /// Immediate prerequisite. `Idle` / `Elaborated` have none.
    pub fn prereq(self) -> (r: Option<SessionStage>)
        ensures
            r == stage_prereq(self),
    {
        match self {
            SessionStage::Idle | SessionStage::Elaborated => None,
            SessionStage::Packed => Some(SessionStage::Elaborated),
            SessionStage::Placed => Some(SessionStage::Packed),
            SessionStage::Routed => Some(SessionStage::Placed),
            SessionStage::Sta | SessionStage::Bitgen => Some(SessionStage::Routed),
            SessionStage::Sim | SessionStage::Lab => Some(SessionStage::Bitgen),
        }
    }
}

/// A stage's prerequisite comes strictly earlier in the flow.
pub proof fn prereq_is_earlier(s: SessionStage)
    ensures
        stage_prereq(s) matches Some(p) ==> stage_rank(p) < stage_rank(s),
        stage_at(stage_rank(s)) == s,
        0 <= stage_rank(s) < 9,
{
}

/// Where the STA clock period came from.
#[derive(Clone, Copy, Debug, PartialEq, Eq, Structural, Hash)]
pub enum ConstraintProvenance {
    /// At least one user `create_clock` / loaded XDC clock.
    UserXdc,
    /// Session injected the default 10 ns period.
    DefaultPeriod,
    /// No usable clock for STA (no user clock and no clocked path).
    NoClockPath,
}

pub open spec fn provenance_name(p: ConstraintProvenance) -> Seq<char> {
    match p {
        ConstraintProvenance::UserXdc => "UserXdc"@,
        ConstraintProvenance::DefaultPeriod => "DefaultPeriod"@,
        ConstraintProvenance::NoClockPath => "NoClockPath"@,
    }
}

/// Some cell of `d` is a flip-flop.
pub open spec fn has_clock_path(d: Design) -> bool {
    exists|i: int| 0 <= i < d.cells@.len() && (#[trigger] d.cells@[i]).kind is Hff
}

pub open spec fn provenance_of(n_user_clocks: nat, d: Design) -> ConstraintProvenance {
    if n_user_clocks > 0 {
        ConstraintProvenance::UserXdc
    } else if has_clock_path(d) {
        ConstraintProvenance::DefaultPeriod
    } else {
        ConstraintProvenance::NoClockPath
    }
}

impl ConstraintProvenance {
    pub fn as_str(self) -> (r: &'static str)
        ensures
            r@ == provenance_name(self),
    {
        match self {
            ConstraintProvenance::UserXdc => "UserXdc",
            ConstraintProvenance::DefaultPeriod => "DefaultPeriod",
            ConstraintProvenance::NoClockPath => "NoClockPath",
        }
    }

    /// Classify clocks used for STA against the mapped netlist.
    pub fn from_constraints(xdc: &Constraints, design: &Design) -> (r: ConstraintProvenance)
        ensures
            r == provenance_of(xdc.clocks@.len(), *design),
    {
        if xdc.clocks.len() > 0 {
            ConstraintProvenance::UserXdc
        } else if design_has_clock_path(design) {
            ConstraintProvenance::DefaultPeriod
        } else {
            ConstraintProvenance::NoClockPath
        }
    }
}

/// FF clock pin (or an HFF cell) is the usable STA clock path.
pub fn design_has_clock_path(design: &Design) -> (r: bool)
    ensures
        r == has_clock_path(*design),
{
    let mut i: usize = 0;
    while i < design.cells.len()
        invariant
            i <= design.cells@.len(),
            forall|k: int| 0 <= k < i ==> !((#[trigger] design.cells@[k]).kind is Hff),
        decreases design.cells@.len() - i,
    {
        match design.cells[i].kind {
            CellKind::Hff => {
                return true;
            },
            _ => {},
        }
        i = i + 1;
    }
    false
}

/// Shared CLI/Session classifier.
pub fn constraint_provenance(xdc: &Constraints, design: &Design) -> (r: ConstraintProvenance)
    ensures
        r == provenance_of(xdc.clocks@.len(), *design),
{
    ConstraintProvenance::from_constraints(xdc, design)
}

#[derive(Clone, Copy, Debug, PartialEq, Eq, Structural)]
pub struct StageStatus {
    pub stage: SessionStage,
    pub ready: bool,
}

/// STA result plus constraint provenance. Same numeric fields as `TimingResult`.
#[derive(Clone, Debug)]
pub struct TimingReport {
    pub design: String,
    pub clocks: Vec<Clock>,
    pub wns_ps: i64,
    pub tns_ps: i64,
    pub endpoints: usize,
    pub r2r_ps: i64,
    pub iob_ps: i64,
    pub setup_ps: i64,
    pub hold_ps: i64,
    pub hold_slack_ps: i64,
    pub route_ps: i64,
    pub clk_net_ps: i64,
    pub provenance: ConstraintProvenance,
    /// Typically [`SessionStage::Sta`] when produced.
    pub stage: SessionStage,
}

pub open spec fn report_text(r: TimingReport) -> Seq<char> {
    "report_timing "@ + r.design@ + " WNS_PS="@ + text::dec_int(r.wns_ps as int) + " TNS_PS="@ + text::dec_int(
        r.tns_ps as int,
    ) + " SETUP_PS="@ + text::dec_int(r.setup_ps as int) + " HOLD_PS="@ + text::dec_int(r.hold_ps as int)
        + " HOLD_SLACK_PS="@ + text::dec_int(r.hold_slack_ps as int) + " endpoints="@ + text::dec(
        r.endpoints as nat,
    ) + " r2r_ps="@ + text::dec_int(r.r2r_ps as int) + " iob_ps="@ + text::dec_int(r.iob_ps as int)
        + " route_ps="@ + text::dec_int(r.route_ps as int) + " provenance="@ + provenance_name(r.provenance)
        + " stage="@ + stage_name(r.stage)
}

impl TimingReport {
    pub fn from_timing(design: &str, t: TimingResult, provenance: ConstraintProvenance) -> (r: TimingReport)
        ensures
            r.design@ == design@,
            r.clocks == t.clocks,
            r.wns_ps == t.wns_ps && r.tns_ps == t.tns_ps && r.endpoints == t.endpoints,
            r.r2r_ps == t.r2r_ps && r.iob_ps == t.iob_ps && r.setup_ps == t.setup_ps,
            r.hold_ps == t.hold_ps && r.hold_slack_ps == t.hold_slack_ps,
            r.route_ps == t.route_ps && r.clk_net_ps == t.clk_net_ps,
            r.provenance == provenance,
            r.stage == SessionStage::Sta,
    {
        TimingReport {
            design: text::owned(design),
            clocks: t.clocks,
            wns_ps: t.wns_ps,
            tns_ps: t.tns_ps,
            endpoints: t.endpoints,
            r2r_ps: t.r2r_ps,
            iob_ps: t.iob_ps,
            setup_ps: t.setup_ps,
            hold_ps: t.hold_ps,
            hold_slack_ps: t.hold_slack_ps,
            route_ps: t.route_ps,
            clk_net_ps: t.clk_net_ps,
            provenance,
            stage: SessionStage::Sta,
        }
    }

    pub fn empty(design: &str, provenance: ConstraintProvenance) -> (r: TimingReport)
        ensures
            r.design@ == design@,
            r.clocks@.len() == 0,
            r.wns_ps == 0 && r.tns_ps == 0 && r.endpoints == 0,
            r.r2r_ps == 0 && r.iob_ps == 0 && r.setup_ps == 0,
            r.hold_ps == 0 && r.hold_slack_ps == 0,
            r.route_ps == 0 && r.clk_net_ps == 0,
            r.provenance == provenance,
            r.stage == SessionStage::Sta,
    {
        TimingReport {
            design: text::owned(design),
            clocks: Vec::new(),
            wns_ps: 0,
            tns_ps: 0,
            endpoints: 0,
            r2r_ps: 0,
            iob_ps: 0,
            setup_ps: 0,
            hold_ps: 0,
            hold_slack_ps: 0,
            route_ps: 0,
            clk_net_ps: 0,
            provenance,
            stage: SessionStage::Sta,
        }
    }

    /// Headless line: the WNS tokens plus `provenance=` / `stage=`.
    pub fn text(&self) -> (r: String)
        ensures
            r@ == report_text(*self),
    {
        let mut o = text::chars_of("report_timing ");
        text::push_str(&mut o, self.design.as_str());
        text::push_str(&mut o, " WNS_PS=");
        text::push_i64(&mut o, self.wns_ps);
        text::push_str(&mut o, " TNS_PS=");
        text::push_i64(&mut o, self.tns_ps);
        text::push_str(&mut o, " SETUP_PS=");
        text::push_i64(&mut o, self.setup_ps);
        text::push_str(&mut o, " HOLD_PS=");
        text::push_i64(&mut o, self.hold_ps);
        text::push_str(&mut o, " HOLD_SLACK_PS=");
        text::push_i64(&mut o, self.hold_slack_ps);
        text::push_str(&mut o, " endpoints=");
        text::push_u64(&mut o, self.endpoints as u64);
        text::push_str(&mut o, " r2r_ps=");
        text::push_i64(&mut o, self.r2r_ps);
        text::push_str(&mut o, " iob_ps=");
        text::push_i64(&mut o, self.iob_ps);
        text::push_str(&mut o, " route_ps=");
        text::push_i64(&mut o, self.route_ps);
        text::push_str(&mut o, " provenance=");
        text::push_str(&mut o, self.provenance.as_str());
        text::push_str(&mut o, " stage=");
        text::push_str(&mut o, self.stage.as_str());
        assert(o@ =~= report_text(*self));
        text::string_of(o.as_slice())
    }
}

pub const STAGE_PREREQ: &'static str = "STAGE_PREREQ";

pub const STA_FAIL: &'static str = "STA_FAIL";

/// Machine-readable illegal transition refuse.
#[derive(Clone, Debug)]
pub struct StageError {
    pub code: &'static str,
    pub from: SessionStage,
    pub attempted: SessionStage,
    pub missing: SessionStage,
    pub message: String,
}

pub open spec fn stage_error_text(e: StageError) -> Seq<char> {
    "code="@ + e.code@ + " from="@ + stage_name(e.from) + " attempted="@ + stage_name(e.attempted) + " missing="@
        + stage_name(e.missing) + seq![' '] + e.message@
}

impl StageError {
    pub fn prereq(from: SessionStage, attempted: SessionStage, missing: SessionStage, message: &str) -> (r:
        StageError)
        ensures
            r.code@ == STAGE_PREREQ@,
            r.from == from && r.attempted == attempted && r.missing == missing,
            r.message@ == message@,
    {
        StageError { code: STAGE_PREREQ, from, attempted, missing, message: text::owned(message) }
    }

    /// `code=.. from=.. attempted=.. missing=.. message`.
    pub fn text(&self) -> (r: String)
        ensures
            r@ == stage_error_text(*self),
            (self.code@ == STAGE_PREREQ@ || self.code@ == STA_FAIL@) && message_ready(self.message@) ==> stage_error_fields(
                r@,
            ) == Some::<StageErrorFields>(
                (self.code@ == STA_FAIL@, self.from, self.attempted, self.missing, self.message@),
            ),
    {
        let mut o = text::chars_of("code=");
        text::push_str(&mut o, self.code);
        text::push_str(&mut o, " from=");
        text::push_str(&mut o, self.from.as_str());
        text::push_str(&mut o, " attempted=");
        text::push_str(&mut o, self.attempted.as_str());
        text::push_str(&mut o, " missing=");
        text::push_str(&mut o, self.missing.as_str());
        o.push(' ');
        text::push_str(&mut o, self.message.as_str());
        assert(o@ =~= stage_error_text(*self));
        proof {
            if (self.code@ == STAGE_PREREQ@ || self.code@ == STA_FAIL@) && message_ready(self.message@) {
                stage_error_round_trip(*self);
            }
        }
        text::string_of(o.as_slice())
    }
}

/// Which artifacts a CAD session holds: the plain flags its stage machine
/// reads (a netlist, a packing, a placement, a routing, the last STA
/// provenance, a non-empty bitstream, and the sim / lab marks).
#[derive(Clone, Copy, Debug, PartialEq, Eq, Structural)]
pub struct SessionProgress {
    pub design: bool,
    pub packed: bool,
    pub placed: bool,
    pub routed: bool,
    pub timing: Option<ConstraintProvenance>,
    pub bitstream: bool,
    pub sim_done: bool,
    pub lab_done: bool,
}

pub open spec fn completed(p: SessionProgress, s: SessionStage) -> bool {
    match s {
        SessionStage::Idle => true,
        SessionStage::Elaborated => p.design,
        SessionStage::Packed => p.packed,
        SessionStage::Placed => p.placed,
        SessionStage::Routed => p.routed,
        SessionStage::Sta => p.timing is Some,
        SessionStage::Bitgen => p.bitstream,
        SessionStage::Sim => p.sim_done,
        SessionStage::Lab => p.lab_done,
    }
}

/// The highest completed stage at or below position `k`.
pub open spec fn highest_from(p: SessionProgress, k: int) -> SessionStage
    decreases k,
{
    if k <= 0 {
        SessionStage::Idle
    } else if completed(p, stage_at(k)) {
        stage_at(k)
    } else {
        highest_from(p, k - 1)
    }
}

/// `to` may be run: it is done already, or its prerequisite is.
pub open spec fn may_advance(p: SessionProgress, to: SessionStage) -> bool {
    completed(p, to) || match stage_prereq(to) {
        None => true,
        Some(m) => completed(p, m),
    }
}

pub open spec fn prereq_text(p: SessionProgress, to: SessionStage) -> Seq<char> {
    match to {
        SessionStage::Packed => "pack_design: no design"@,
        SessionStage::Placed => if !p.design {
            "place_design: no design"@
        } else {
            "place_design: not packed"@
        },
        SessionStage::Routed => "route_design: not placed"@,
        SessionStage::Sta => "report_timing: not routed"@,
        SessionStage::Bitgen => if !p.design {
            "write_bitstream: no design"@
        } else {
            "write_bitstream: not routed"@
        },
        SessionStage::Sim | SessionStage::Lab => "program_hw: no bitstream — run write_bitstream / Implement"@,
        SessionStage::Idle | SessionStage::Elaborated => Seq::empty(),
    }
}

pub open spec fn status_line(p: SessionProgress, s: SessionStage) -> Seq<char> {
    "stage="@ + stage_name(s) + " ready="@ + if may_advance(p, s) { "1"@ } else { "0"@ }
}

/// `stage=.. ready=..` lines for the stages before position `k`, joined by newlines.
pub open spec fn status_text(p: SessionProgress, k: int) -> Seq<char>
    decreases k,
{
    if k <= 0 {
        Seq::empty()
    } else if k == 1 {
        status_line(p, stage_at(0))
    } else {
        status_text(p, k - 1) + seq!['\n'] + status_line(p, stage_at(k - 1))
    }
}

proof fn lemma_highest_rank(p: SessionProgress, k: int)
    requires
        0 <= k,
    ensures
        stage_rank(highest_from(p, k)) <= k,
    decreases k,
{
    if k > 0 && !completed(p, stage_at(k)) {
        lemma_highest_rank(p, k - 1);
    }
}

proof fn lemma_highest_skip(p: SessionProgress, j: int, k: int)
    requires
        0 <= j <= k,
        forall|q: int| j < q <= k ==> !completed(p, #[trigger] stage_at(q)),
    ensures
        highest_from(p, k) == highest_from(p, j),
    decreases k,
{
    if k > j {
        lemma_highest_skip(p, j, k - 1);
    }
}

impl SessionProgress {
    pub fn stage_completed(&self, stage: SessionStage) -> (r: bool)
        ensures
            r == completed(*self, stage),
    {
        match stage {
            SessionStage::Idle => true,
            SessionStage::Elaborated => self.design,
            SessionStage::Packed => self.packed,
            SessionStage::Placed => self.placed,
            SessionStage::Routed => self.routed,
            SessionStage::Sta => self.timing.is_some(),
            SessionStage::Bitgen => self.bitstream,
            SessionStage::Sim => self.sim_done,
            SessionStage::Lab => self.lab_done,
        }
    }

    /// Highest completed stage (Lab > Sim > Bitgen > Sta > Routed > … > Idle).
    pub fn stage(&self) -> (r: SessionStage)
        ensures
            r == highest_from(*self, 8),
            completed(*self, r),
            forall|s: SessionStage| stage_rank(r) < #[trigger] stage_rank(s) ==> !completed(*self, s),
    {
        let all = SessionStage::all();
        let mut k: usize = 9;
        while k > 1
            invariant
                1 <= k <= 9,
                forall|q: int| 0 <= q < 9 ==> all@[q] == stage_at(q),
                highest_from(*self, 8) == highest_from(*self, k - 1),
                forall|q: int| k <= q < 9 ==> !completed(*self, stage_at(q)),
            decreases k,
        {
            if self.stage_completed(all[k - 1]) {
                proof {
                    assert forall|s: SessionStage| stage_rank(all@[k - 1]) < #[trigger] stage_rank(s) implies !completed(*self, s) by {
                        prereq_is_earlier(s);
                        assert(stage_at(stage_rank(s)) == s);
                    }
                }
                return all[k - 1];
            }
            k = k - 1;
        }
        proof {
            assert forall|s: SessionStage| 0 < #[trigger] stage_rank(s) implies !completed(*self, s) by {
                prereq_is_earlier(s);
            }
        }
        SessionStage::Idle
    }

    /// Refuse an illegal transition with a stable `code=STAGE_PREREQ`.
    pub fn can_advance(&self, to: SessionStage) -> (r: Result<(), StageError>)
        ensures
            r is Ok <==> may_advance(*self, to),
            r matches Err(e) ==> e.code@ == STAGE_PREREQ@ && e.from == highest_from(*self, 8) && e.attempted == to
                && stage_prereq(to) == Some(e.missing) && e.message@ == prereq_text(*self, to),
    {
        if self.stage_completed(to) {
            return Ok(());
        }
        match to.prereq() {
            None => Ok(()),
            Some(missing) => if self.stage_completed(missing) {
                Ok(())
            } else {
                let from = self.stage();
                let msg = self.prereq_message(to);
                Err(StageError { code: STAGE_PREREQ, from, attempted: to, missing, message: msg })
            },
        }
    }

    fn prereq_message(&self, to: SessionStage) -> (r: String)
        ensures
            r@ == prereq_text(*self, to),
    {
        match to {
            SessionStage::Packed => text::owned("pack_design: no design"),
            SessionStage::Placed => if !self.design {
                text::owned("place_design: no design")
            } else {
                text::owned("place_design: not packed")
            },
            SessionStage::Routed => text::owned("route_design: not placed"),
            SessionStage::Sta => text::owned("report_timing: not routed"),
            SessionStage::Bitgen => if !self.design {
                text::owned("write_bitstream: no design")
            } else {
                text::owned("write_bitstream: not routed")
            },
            SessionStage::Sim | SessionStage::Lab => text::owned(
                "program_hw: no bitstream — run write_bitstream / Implement",
            ),
            SessionStage::Idle | SessionStage::Elaborated => String::new(),
        }
    }

    /// All stages with `ready` = already complete or prerequisite satisfied.
    pub fn stage_status(&self) -> (r: Vec<StageStatus>)
        ensures
            r@.len() == 9,
            forall|k: int| 0 <= k < 9 ==> (#[trigger] r@[k]).stage == stage_at(k) && r@[k].ready == may_advance(
                *self,
                stage_at(k),
            ),
    {
        let all = SessionStage::all();
        let mut r: Vec<StageStatus> = Vec::new();
        let mut k: usize = 0;
        while k < 9
            invariant
                k <= 9,
                r@.len() == k,
                forall|q: int| 0 <= q < 9 ==> all@[q] == stage_at(q),
                forall|q: int| 0 <= q < k ==> (#[trigger] r@[q]).stage == stage_at(q) && r@[q].ready == may_advance(
                    *self,
                    stage_at(q),
                ),
            decreases 9 - k,
        {
            let stage = all[k];
            let ready = self.stage_completed(stage) || self.can_advance(stage).is_ok();
            r.push(StageStatus { stage, ready });
            k = k + 1;
        }
        r
    }

    /// One `stage=<name> ready=<0|1>` line per stage.
    pub fn print_stages_text(&self) -> (r: String)
        ensures
            r@ == status_text(*self, 9),
    {
        let st = self.stage_status();
        let mut o: Vec<char> = Vec::new();
        let mut k: usize = 0;
        while k < 9
            invariant
                k <= 9,
                st@.len() == 9,
                forall|q: int| 0 <= q < 9 ==> (#[trigger] st@[q]).stage == stage_at(q) && st@[q].ready == may_advance(
                    *self,
                    stage_at(q),
                ),
                o@ == status_text(*self, k as int),
            decreases 9 - k,
        {
            if k > 0 {
                o.push('\n');
            }
            text::push_str(&mut o, "stage=");
            text::push_str(&mut o, st[k].stage.as_str());
            text::push_str(&mut o, " ready=");
            if st[k].ready {
                text::push_str(&mut o, "1");
            } else {
                text::push_str(&mut o, "0");
            }
            k = k + 1;
        }
        text::string_of(o.as_slice())
    }

    pub fn last_timing_provenance(&self) -> (r: Option<ConstraintProvenance>)
        ensures
            r == self.timing,
    {
        self.timing
    }

    /// Record STA provenance without re-running the engine.
    pub fn record_timing_provenance(&mut self, p: ConstraintProvenance)
        ensures
            *final(self) == (SessionProgress { timing: Some(p), ..*old(self) }),
    {
        self.timing = Some(p);
    }

    pub fn clear_timing(&mut self)
        ensures
            *final(self) == (SessionProgress { timing: None, ..*old(self) }),
    {
        self.timing = None;
    }

    /// Forget everything after placement.
    pub fn clear_post_place(&mut self)
        ensures
            *final(self) == (SessionProgress {
                routed: false,
                timing: None,
                bitstream: false,
                sim_done: false,
                lab_done: false,
                ..*old(self)
            }),
            stage_rank(highest_from(*final(self), 8)) <= 3,
    {
        self.routed = false;
        self.bitstream = false;
        self.sim_done = false;
        self.lab_done = false;
        self.clear_timing();
        proof {
            lemma_highest_skip(*self, 3, 8);
            lemma_highest_rank(*self, 3);
        }
    }

    /// Forget everything after routing.
    pub fn clear_post_route(&mut self)
        ensures
            *final(self) == (SessionProgress {
                timing: None,
                bitstream: false,
                sim_done: false,
                lab_done: false,
                ..*old(self)
            }),
            stage_rank(highest_from(*final(self), 8)) <= 4,
    {
        self.bitstream = false;
        self.sim_done = false;
        self.lab_done = false;
        self.clear_timing();
        proof {
            lemma_highest_skip(*self, 4, 8);
            lemma_highest_rank(*self, 4);
        }
    }
}

/// The stage whose name is `v`.
pub open spec fn stage_named(v: Seq<char>) -> Option<SessionStage> {
    if v == "Idle"@ {
        Some(SessionStage::Idle)
    } else if v == "Elaborated"@ {
        Some(SessionStage::Elaborated)
    } else if v == "Packed"@ {
        Some(SessionStage::Packed)
    } else if v == "Placed"@ {
        Some(SessionStage::Placed)
    } else if v == "Routed"@ {
        Some(SessionStage::Routed)
    } else if v == "Sta"@ {
        Some(SessionStage::Sta)
    } else if v == "Bitgen"@ {
        Some(SessionStage::Bitgen)
    } else if v == "Sim"@ {
        Some(SessionStage::Sim)
    } else if v == "Lab"@ {
        Some(SessionStage::Lab)
    } else {
        None
    }
}

pub open spec fn stage_or_idle(v: Seq<char>) -> SessionStage {
    match stage_named(v) {
        Some(s) => s,
        None => SessionStage::Idle,
    }
}

/// A parsed refuse line: `STA_FAIL` code?, from, attempted, missing, message.
pub type StageErrorFields = (bool, SessionStage, SessionStage, SessionStage, Seq<char>);

/// Reads the tokens of a refuse line from token `i` on: `key=value` tokens
/// set their field; any other token from the fifth on joins the message.
pub open spec fn stage_error_fold(ws: Seq<Seq<char>>, i: int, acc: StageErrorFields) -> StageErrorFields
    decreases ws.len() - i,
{
    if i < 0 || i >= ws.len() {
        acc
    } else {
        let t = ws[i];
        let next = if text::starts_with(t, "code="@) {
            (t.subrange(5, t.len() as int) == "STA_FAIL"@, acc.1, acc.2, acc.3, acc.4)
        } else if text::starts_with(t, "from="@) {
            (acc.0, stage_or_idle(t.subrange(5, t.len() as int)), acc.2, acc.3, acc.4)
        } else if text::starts_with(t, "attempted="@) {
            (acc.0, acc.1, stage_or_idle(t.subrange(10, t.len() as int)), acc.3, acc.4)
        } else if text::starts_with(t, "missing="@) {
            (acc.0, acc.1, acc.2, stage_or_idle(t.subrange(8, t.len() as int)), acc.4)
        } else if i >= 4 {
            (acc.0, acc.1, acc.2, acc.3, if acc.4.len() > 0 { acc.4 + seq![' '] + t } else { t })
        } else {
            acc
        };
        stage_error_fold(ws, i + 1, next)
    }
}

/// The fields of the refuse line `s`, or `None` when it does not start with `code=`.
pub open spec fn stage_error_fields(s: Seq<char>) -> Option<StageErrorFields> {
    if !text::starts_with(s, "code="@) {
        None
    } else {
        Some(
            stage_error_fold(
                text::words(s),
                0,
                (false, SessionStage::Idle, SessionStage::Idle, SessionStage::Idle, Seq::empty()),
            ),
        )
    }
}

pub fn parse_stage_name(s: &Vec<char>) -> (r: Option<SessionStage>)
    ensures
        r == stage_named(s@),
{
    if text::eq_str(s, "Idle") {
        Some(SessionStage::Idle)
    } else if text::eq_str(s, "Elaborated") {
        Some(SessionStage::Elaborated)
    } else if text::eq_str(s, "Packed") {
        Some(SessionStage::Packed)
    } else if text::eq_str(s, "Placed") {
        Some(SessionStage::Placed)
    } else if text::eq_str(s, "Routed") {
        Some(SessionStage::Routed)
    } else if text::eq_str(s, "Sta") {
        Some(SessionStage::Sta)
    } else if text::eq_str(s, "Bitgen") {
        Some(SessionStage::Bitgen)
    } else if text::eq_str(s, "Sim") {
        Some(SessionStage::Sim)
    } else if text::eq_str(s, "Lab") {
        Some(SessionStage::Lab)
    } else {
        None
    }
}

fn stage_or_idle_exec(s: &Vec<char>) -> (r: SessionStage)
    ensures
        r == stage_or_idle(s@),
{
    match parse_stage_name(s) {
        Some(st) => st,
        None => SessionStage::Idle,
    }
}

/// Reads back a refuse line `code=.. from=.. attempted=.. missing=.. message`.
pub fn parse_stage_error_line(s: &str) -> (r: Option<StageError>)
    ensures
        match stage_error_fields(s@) {
            None => r is None,
            Some(f) => r matches Some(e) && e.code@ == (if f.0 { STA_FAIL@ } else { STAGE_PREREQ@ })
                && e.from == f.1 && e.attempted == f.2 && e.missing == f.3 && e.message@ == f.4,
        },
{
    let v = text::chars_of(s);
    if !text::starts_with_str(&v, "code=") {
        return None;
    }
    let ws = text::split_words(&v);
    let ghost wv = text::words(v@);
    let mut sta_fail = false;
    let mut from = SessionStage::Idle;
    let mut attempted = SessionStage::Idle;
    let mut missing = SessionStage::Idle;
    let mut rest: Vec<char> = Vec::new();
    let mut i: usize = 0;
    while i < ws.len()
        invariant
            i <= ws@.len(),
            wv == text::words(s@),
            ws@.len() == wv.len(),
            forall|k: int| 0 <= k < ws@.len() ==> (#[trigger] ws@[k])@ == wv[k],
            stage_error_fold(wv, 0, (false, SessionStage::Idle, SessionStage::Idle, SessionStage::Idle, Seq::empty()))
                == stage_error_fold(wv, i as int, (sta_fail, from, attempted, missing, rest@)),
        decreases ws@.len() - i,
    {
        let t = &ws[i];
        assert(t@ == wv[i as int]);
        proof {
            reveal_strlit("code=");
            reveal_strlit("from=");
            reveal_strlit("attempted=");
            reveal_strlit("missing=");
        }
        if text::starts_with_str(t, "code=") {
            let v2 = text::slice(t, 5, t.len());
            sta_fail = text::eq_str(&v2, "STA_FAIL");
        } else if text::starts_with_str(t, "from=") {
            let v2 = text::slice(t, 5, t.len());
            from = stage_or_idle_exec(&v2);
        } else if text::starts_with_str(t, "attempted=") {
            let v2 = text::slice(t, 10, t.len());
            attempted = stage_or_idle_exec(&v2);
        } else if text::starts_with_str(t, "missing=") {
            let v2 = text::slice(t, 8, t.len());
            missing = stage_or_idle_exec(&v2);
        } else if i >= 4 {
            let ghost r0 = rest@;
            if rest.len() > 0 {
                rest.push(' ');
            }
            text::push_chars(&mut rest, t);
            assert(rest@ =~= (if r0.len() > 0 { r0 + seq![' '] + t@ } else { t@ }));
        }
        i = i + 1;
    }
    let code = if sta_fail { STA_FAIL } else { STAGE_PREREQ };
    Some(StageError { code, from, attempted, missing, message: text::string_of(rest.as_slice()) })
}


// ---------------------------------------------------------------------------
// Reading back a refuse line
// ---------------------------------------------------------------------------

/// A word that none of the `key=` fields of a refuse line claims.
pub open spec fn free_word(t: Seq<char>) -> bool {
    &&& !text::starts_with(t, "code="@)
    &&& !text::starts_with(t, "from="@)
    &&& !text::starts_with(t, "attempted="@)
    &&& !text::starts_with(t, "missing="@)
}

/// A message that reads back from a refuse line: single-spaced words, none
/// of them starting with a field key.
pub open spec fn message_ready(m: Seq<char>) -> bool {
    &&& crate::hnf::plain(m)
    &&& forall|i: int| 0 <= i < text::words(m).len() ==> free_word(#[trigger] text::words(m)[i])
}

proof fn lemma_stage_named(s: SessionStage)
    ensures
        stage_named(stage_name(s)) == Some(s),
        crate::hnf::is_token(stage_name(s)),
{
    reveal_strlit("Idle");
    reveal_strlit("Elaborated");
    reveal_strlit("Packed");
    reveal_strlit("Placed");
    reveal_strlit("Routed");
    reveal_strlit("Sta");
    reveal_strlit("Bitgen");
    reveal_strlit("Sim");
    reveal_strlit("Lab");
    assert("Packed"@[1] != "Placed"@[1]);
    assert("Packed"@[0] != "Routed"@[0]);
    assert("Packed"@[0] != "Bitgen"@[0]);
    assert("Placed"@[0] != "Routed"@[0]);
    assert("Placed"@[0] != "Bitgen"@[0]);
    assert("Routed"@[0] != "Bitgen"@[0]);
    assert("Sta"@[1] != "Sim"@[1]);
    assert("Sta"@[0] != "Lab"@[0]);
    assert("Sim"@[0] != "Lab"@[0]);
    let n = stage_name(s);
    assert forall|i: int| 0 <= i < n.len() implies !text::is_ws(#[trigger] n[i]) by {}
}

/// `key` followed by `v`: a word that starts with `key`.
proof fn lemma_key_word(key: Seq<char>, v: Seq<char>)
    requires
        crate::hnf::is_token(key),
        crate::hnf::ws_free(v),
    ensures
        text::starts_with(key + v, key),
        (key + v).subrange(key.len() as int, (key + v).len() as int) == v,
        crate::hnf::is_token(key + v),
{
    assert((key + v).subrange(0, key.len() as int) =~= key);
    assert((key + v).subrange(key.len() as int, (key + v).len() as int) =~= v);
    assert forall|i: int| 0 <= i < (key + v).len() implies !text::is_ws(#[trigger] (key + v)[i]) by {
        if i < key.len() {
            assert((key + v)[i] == key[i]);
        } else {
            assert((key + v)[i] == v[i - key.len()]);
        }
    }
}

proof fn lemma_not_key(t: Seq<char>, key: Seq<char>)
    requires
        t.len() > 0,
        key.len() > 0,
        t[0] != key[0],
    ensures
        !text::starts_with(t, key),
{
    if text::starts_with(t, key) {
        assert(t.subrange(0, key.len() as int)[0] == t[0]);
    }
}

proof fn lemma_message_fold(ws: Seq<Seq<char>>, i: int, acc: StageErrorFields)
    requires
        4 <= i <= ws.len(),
        forall|k: int| i <= k < ws.len() ==> free_word(#[trigger] ws[k]) && ws[k].len() > 0,
    ensures
        stage_error_fold(ws, i, acc) == (acc.0, acc.1, acc.2, acc.3, if acc.4.len() > 0 && i < ws.len() {
            acc.4 + seq![' '] + crate::ir::join_words(ws.subrange(i, ws.len() as int))
        } else if i < ws.len() {
            crate::ir::join_words(ws.subrange(i, ws.len() as int))
        } else {
            acc.4
        }),
    decreases ws.len() - i,
{
    if i < ws.len() {
        let t = ws[i];
        assert(free_word(t) && t.len() > 0);
        let nxt = (acc.0, acc.1, acc.2, acc.3, if acc.4.len() > 0 { acc.4 + seq![' '] + t } else { t });
        lemma_message_fold(ws, i + 1, nxt);
        let rest = ws.subrange(i + 1, ws.len() as int);
        if i + 1 < ws.len() {
            crate::hnf::lemma_join_front(ws.subrange(i, ws.len() as int));
            assert(ws.subrange(i, ws.len() as int).drop_first() =~= rest);
            assert(nxt.4.len() > 0);
            if acc.4.len() > 0 {
                assert(acc.4 + seq![' '] + t + seq![' '] + crate::ir::join_words(rest) =~= acc.4 + seq![' '] + (t + seq![' ']
                    + crate::ir::join_words(rest)));
            }
        } else {
            assert(ws.subrange(i, ws.len() as int) =~= seq![t]);
            assert(crate::ir::join_words(seq![t]) == t);
        }
    }
}

/// A refuse line reads back as the error it was written from: code, the
/// three stages and the message.
#[verifier::spinoff_prover]
#[verifier::rlimit(60)]
pub proof fn stage_error_round_trip(e: StageError)
    requires
        e.code@ == STAGE_PREREQ@ || e.code@ == STA_FAIL@,
        message_ready(e.message@),
    ensures
        stage_error_fields(stage_error_text(e)) == Some::<StageErrorFields>(
            (e.code@ == STA_FAIL@, e.from, e.attempted, e.missing, e.message@),
        ),
{
    reveal_strlit("code=");
    reveal_strlit("from=");
    reveal_strlit("attempted=");
    reveal_strlit("missing=");
    reveal_strlit(" from=");
    reveal_strlit(" attempted=");
    reveal_strlit(" missing=");
    reveal_strlit("STAGE_PREREQ");
    reveal_strlit("STA_FAIL");
    let c = e.code@;
    assert(crate::hnf::ws_free(c)) by {
        assert forall|i: int| 0 <= i < c.len() implies !text::is_ws(#[trigger] c[i]) by {}
    }
    lemma_stage_named(e.from);
    lemma_stage_named(e.attempted);
    lemma_stage_named(e.missing);
    let keys = seq!["code="@, "from="@, "attempted="@, "missing="@];
    assert forall|k: int| 0 <= k < 4 implies crate::hnf::is_token(#[trigger] keys[k]) by {
        let kk = keys[k];
        assert forall|i: int| 0 <= i < kk.len() implies !text::is_ws(#[trigger] kk[i]) by {}
    }
    let t0 = "code="@ + c;
    let t1 = "from="@ + stage_name(e.from);
    let t2 = "attempted="@ + stage_name(e.attempted);
    let t3 = "missing="@ + stage_name(e.missing);
    lemma_key_word("code="@, c);
    lemma_key_word("from="@, stage_name(e.from));
    lemma_key_word("attempted="@, stage_name(e.attempted));
    lemma_key_word("missing="@, stage_name(e.missing));
    let head = seq![t0, t1, t2, t3];
    assert(head.drop_last() =~= seq![t0, t1, t2]);
    crate::hnf::lemma_join3(t0, t1, t2);
    assert(crate::ir::join_words(head) =~= t0 + seq![' '] + t1 + seq![' '] + t2 + seq![' '] + t3);
    let msg = e.message@;
    assert(stage_error_text(e) =~= crate::ir::join_words(head) + seq![' '] + msg);
    crate::hnf::lemma_tail(head, msg);
    let vs = text::words(msg);
    let w = head + vs;
    assert forall|i: int| 0 <= i < w.len() implies crate::hnf::is_token(#[trigger] w[i]) by {
        if i >= 4 {
            assert(w[i] == vs[i - 4]);
        }
    }
    let pad: Seq<char> = if vs.len() == 0 { seq![' '] } else { Seq::empty() };
    crate::hnf::lemma_words_join(w, pad);
    assert(crate::hnf::line_words(w, vs.len() == 0) == crate::ir::join_words(w) + pad);
    assert(text::words(stage_error_text(e)) == w);
    // the head words
    assert(text::starts_with(stage_error_text(e), "code="@)) by {
        assert(stage_error_text(e).subrange(0, 5) =~= "code="@);
    }
    lemma_not_key(t1, "code="@);
    lemma_not_key(t2, "code="@);
    lemma_not_key(t2, "from="@);
    lemma_not_key(t3, "code="@);
    lemma_not_key(t3, "from="@);
    lemma_not_key(t3, "attempted="@);
    assert(c == "STA_FAIL"@ <==> c == STA_FAIL@);
    let acc0 = (false, SessionStage::Idle, SessionStage::Idle, SessionStage::Idle, Seq::<char>::empty());
    let acc1 = (c == "STA_FAIL"@, SessionStage::Idle, SessionStage::Idle, SessionStage::Idle, Seq::<char>::empty());
    let acc2 = (c == "STA_FAIL"@, e.from, SessionStage::Idle, SessionStage::Idle, Seq::<char>::empty());
    let acc3 = (c == "STA_FAIL"@, e.from, e.attempted, SessionStage::Idle, Seq::<char>::empty());
    let acc4 = (c == "STA_FAIL"@, e.from, e.attempted, e.missing, Seq::<char>::empty());
    assert(w[0] == t0 && w[1] == t1 && w[2] == t2 && w[3] == t3);
    assert(stage_error_fold(w, 0, acc0) == stage_error_fold(w, 1, acc1));
    assert(stage_error_fold(w, 1, acc1) == stage_error_fold(w, 2, acc2));
    assert(stage_error_fold(w, 2, acc2) == stage_error_fold(w, 3, acc3));
    assert(stage_error_fold(w, 3, acc3) == stage_error_fold(w, 4, acc4));
    assert forall|k: int| 4 <= k < w.len() implies free_word(#[trigger] w[k]) && w[k].len() > 0 by {
        assert(w[k] == vs[k - 4]);
    }
    lemma_message_fold(w, 4, acc4);
    if vs.len() > 0 {
        assert(w.subrange(4, w.len() as int) =~= vs);
    } else {
        assert(msg == crate::ir::join_words(vs));
        assert(msg =~= Seq::<char>::empty());
    }
}
} // verus!
