//! Event-driven kernel driven by LUT INIT + FF in the netlist (not a
//! hardcoded toggle): every rising edge loads each flip-flop with the output
//! of the LUT on its `D` pin, read from the flip-flop values before the edge.

use vstd::prelude::*;
use crate::text;
use crate::ir::{Design, Cell, CellKind, Net, Endpoint};

verus! {

// ---------------------------------------------------------------------------
// Association lists keyed by name
// ---------------------------------------------------------------------------

/// The map an association list stands for (a later entry wins).
pub open spec fn amap<V>(s: Seq<(String, V)>) -> Map<Seq<char>, V>
    decreases s.len(),
{
    if s.len() == 0 {
        Map::empty()
    } else {
        amap(s.drop_last()).insert(s.last().0@, s.last().1)
    }
}

pub open spec fn keys_unique<V>(s: Seq<(String, V)>) -> bool {
    forall|i: int, j: int| 0 <= i < j < s.len() ==> s[i].0@ != s[j].0@
}

pub(crate) proof fn lemma_amap_dom<V>(s: Seq<(String, V)>, k: Seq<char>)
    ensures
        amap(s).contains_key(k) <==> exists|i: int| 0 <= i < s.len() && (#[trigger] s[i]).0@ == k,
    decreases s.len(),
{
    if s.len() > 0 {
        lemma_amap_dom(s.drop_last(), k);
        if amap(s.drop_last()).contains_key(k) {
            let i = choose|i: int| 0 <= i < s.drop_last().len() && (#[trigger] s.drop_last()[i]).0@ == k;
            assert(s[i] == s.drop_last()[i]);
        }
        if exists|i: int| 0 <= i < s.len() && (#[trigger] s[i]).0@ == k {
            let i = choose|i: int| 0 <= i < s.len() && (#[trigger] s[i]).0@ == k;
            if i < s.len() - 1 {
                assert(s.drop_last()[i] == s[i]);
            }
        }
    }
}

pub(crate) proof fn lemma_amap_at<V>(s: Seq<(String, V)>, i: int)
    requires
        keys_unique(s),
        0 <= i < s.len(),
    ensures
        amap(s).contains_key(s[i].0@),
        amap(s)[s[i].0@] == s[i].1,
    decreases s.len(),
{
    if i < s.len() - 1 {
        assert(keys_unique(s.drop_last()));
        lemma_amap_at(s.drop_last(), i);
        assert(s.drop_last()[i] == s[i]);
    }
}

pub(crate) proof fn lemma_amap_update<V>(s: Seq<(String, V)>, i: int, v: V)
    requires
        keys_unique(s),
        0 <= i < s.len(),
    ensures
        amap(s.update(i, (s[i].0, v))) == amap(s).insert(s[i].0@, v),
        keys_unique(s.update(i, (s[i].0, v))),
    decreases s.len(),
{
    let t = s.update(i, (s[i].0, v));
    if i == s.len() - 1 {
        assert(t.drop_last() =~= s.drop_last());
        assert(amap(t) =~= amap(s).insert(s[i].0@, v));
    } else {
        assert(keys_unique(s.drop_last()));
        lemma_amap_update(s.drop_last(), i, v);
        assert(t.drop_last() =~= s.drop_last().update(i, (s[i].0, v)));
        assert(s.last().0@ != s[i].0@);
        assert(amap(t) =~= amap(s).insert(s[i].0@, v));
    }
}

/// Position of key `k`, if present.
pub(crate) fn assoc_find<V>(s: &Vec<(String, V)>, k: &String) -> (r: Option<usize>)
    ensures
        r matches Some(i) ==> i < s@.len() && s@[i as int].0@ == k@,
        r is None ==> forall|i: int| 0 <= i < s@.len() ==> (#[trigger] s@[i]).0@ != k@,
{
    let mut i: usize = 0;
    while i < s.len()
        invariant
            i <= s@.len(),
            forall|q: int| 0 <= q < i ==> (#[trigger] s@[q]).0@ != k@,
        decreases s@.len() - i,
    {
        if s[i].0 == *k {
            return Some(i);
        }
        i = i + 1;
    }
    None
}

/// Sets key `k` to `v`, in place when present, else appended.
pub(crate) fn assoc_set<V>(s: &mut Vec<(String, V)>, k: &String, v: V)
    requires
        keys_unique(old(s)@),
    ensures
        keys_unique(final(s)@),
        amap(final(s)@) == amap(old(s)@).insert(k@, v),
{
    match assoc_find(s, k) {
        Some(i) => {
            proof {
                lemma_amap_update(s@, i as int, v);
            }
            let ghost before = s@;
            s[i].1 = v;
            assert(s@ =~= before.update(i as int, (before[i as int].0, v)));
        },
        None => {
            let ghost before = s@;
            s.push((k.clone(), v));
            assert(s@.drop_last() =~= before);
        },
    }
}

/// The value at key `k`, if present.
pub(crate) fn assoc_get<V: Copy>(s: &Vec<(String, V)>, k: &String) -> (r: Option<V>)
    requires
        keys_unique(s@),
    ensures
        match r {
            Some(v) => amap(s@).contains_key(k@) && amap(s@)[k@] == v,
            None => !amap(s@).contains_key(k@),
        },
{
    proof {
        lemma_amap_dom(s@, k@);
    }
    match assoc_find(s, k) {
        Some(i) => {
            proof {
                lemma_amap_at(s@, i as int);
            }
            Some(s[i].1)
        },
        None => None,
    }
}

// ---------------------------------------------------------------------------
// What the kernel reads from the netlist
// ---------------------------------------------------------------------------

/// LUT name → INIT (a later cell of the same name wins).
pub open spec fn lut_inits(cs: Seq<Cell>) -> Map<Seq<char>, u64>
    decreases cs.len(),
{
    if cs.len() == 0 {
        Map::empty()
    } else {
        let m = lut_inits(cs.drop_last());
        match cs.last().kind {
            CellKind::Lut6 { init } => m.insert(cs.last().name@, init),
            _ => m,
        }
    }
}

/// Flip-flop name → `false` for every `Hff` cell.
pub open spec fn ff_regs(cs: Seq<Cell>) -> Map<Seq<char>, bool>
    decreases cs.len(),
{
    if cs.len() == 0 {
        Map::empty()
    } else {
        let m = ff_regs(cs.drop_last());
        match cs.last().kind {
            CellKind::Hff => m.insert(cs.last().name@, false),
            _ => m,
        }
    }
}

/// The cell of the first endpoint at or after `i` on pin `pin`.
pub open spec fn first_pin_from(eps: Seq<Endpoint>, pin: Seq<char>, i: int) -> Option<String>
    decreases eps.len() - i,
{
    if i < 0 || i >= eps.len() {
        None
    } else if eps[i].pin@ == pin {
        Some(eps[i].cell)
    } else {
        first_pin_from(eps, pin, i + 1)
    }
}

pub open spec fn first_pin(eps: Seq<Endpoint>, pin: Seq<char>) -> Option<String> {
    first_pin_from(eps, pin, 0)
}

/// The LUT input number of pin `p` (`I0` .. `I5`, read as `u8`).
pub open spec fn lut_pin_no(p: Seq<char>) -> Option<u8> {
    if p.len() > 0 && p[0] == 'I' {
        match text::parse_unsigned(p.drop_first(), 255) {
            Some(n) => if n < 6 { Some(n as u8) } else { None },
            None => None,
        }
    } else {
        None
    }
}

/// `(lut, input, flip-flop)` for each LUT input on a net that some `Q` drives.
pub open spec fn eps_pins(eps: Seq<Endpoint>, q: String) -> Seq<(String, u8, String)>
    decreases eps.len(),
{
    if eps.len() == 0 {
        Seq::empty()
    } else {
        let e = eps.last();
        eps_pins(eps.drop_last(), q) + match lut_pin_no(e.pin@) {
            Some(p) => seq![(e.cell, p, q)],
            None => Seq::empty(),
        }
    }
}

pub open spec fn net_pins(n: Net) -> Seq<(String, u8, String)> {
    match first_pin(n.endpoints@, "Q"@) {
        Some(q) => eps_pins(n.endpoints@, q),
        None => Seq::empty(),
    }
}

pub open spec fn all_pins(ns: Seq<Net>) -> Seq<(String, u8, String)>
    decreases ns.len(),
{
    if ns.len() == 0 {
        Seq::empty()
    } else {
        all_pins(ns.drop_last()) + net_pins(ns.last())
    }
}

/// Flip-flop → the LUT on its `D` net (a later net wins).
pub open spec fn ff_luts(ns: Seq<Net>) -> Map<Seq<char>, String>
    decreases ns.len(),
{
    if ns.len() == 0 {
        Map::empty()
    } else {
        let m = ff_luts(ns.drop_last());
        let eps = ns.last().endpoints@;
        match (first_pin(eps, "O"@), first_pin(eps, "D"@)) {
            (Some(l), Some(f)) => m.insert(f@, l),
            _ => m,
        }
    }
}

/// The first net at or after `i` holding endpoint `cell/I`.
pub open spec fn input_net_from(ns: Seq<Net>, cell: Seq<char>, i: int) -> Option<Net>
    decreases ns.len() - i,
{
    if i < 0 || i >= ns.len() {
        None
    } else if ns[i].has_endpoint(cell, "I"@) {
        Some(ns[i])
    } else {
        input_net_from(ns, cell, i + 1)
    }
}

/// The flip-flop an output IOB shows, through the net on its `I` pin.
pub open spec fn iob_ff(ns: Seq<Net>, c: Cell) -> Option<String> {
    if c.kind is IobOut {
        match input_net_from(ns, c.name@, 0) {
            Some(n) => first_pin(n.endpoints@, "Q"@),
            None => None,
        }
    } else {
        None
    }
}

/// The first output IOB (from cell `i` on) that shows a flip-flop.
pub open spec fn iob_from(ns: Seq<Net>, cs: Seq<Cell>, i: int) -> Option<String>
    decreases cs.len() - i,
{
    if i < 0 || i >= cs.len() {
        None
    } else if iob_ff(ns, cs[i]) is Some {
        iob_ff(ns, cs[i])
    } else {
        iob_from(ns, cs, i + 1)
    }
}

/// The kernel's state as plain values.
#[verifier::ext_equal]
pub struct SimModel {
    pub time: u64,
    pub luts: Map<Seq<char>, u64>,
    pub pins: Seq<(String, u8, String)>,
    pub ffd: Map<Seq<char>, String>,
    pub iob: Option<String>,
    pub ffq: Map<Seq<char>, bool>,
    pub led: bool,
}

/// The kernel of design `d` at time 0, every flip-flop low.
pub open spec fn sim_init(d: Design) -> SimModel {
    SimModel {
        time: 0,
        luts: lut_inits(d.cells@),
        pins: all_pins(d.nets@),
        ffd: ff_luts(d.nets@),
        iob: iob_from(d.nets@, d.cells@, 0),
        ffq: ff_regs(d.cells@),
        led: false,
    }
}

// ---------------------------------------------------------------------------
// One rising edge
// ---------------------------------------------------------------------------

/// LUT address of `lut`: bit `p` set for each input `p` whose flip-flop is high.
pub open spec fn pin_addr(pins: Seq<(String, u8, String)>, lut: Seq<char>, q: Map<Seq<char>, bool>) -> u8
    decreases pins.len(),
{
    if pins.len() == 0 {
        0
    } else {
        let a = pin_addr(pins.drop_last(), lut, q);
        let t = pins.last();
        if t.0@ == lut && q.contains_key(t.2@) && q[t.2@] {
            a | (1u8 << t.1)
        } else {
            a
        }
    }
}

/// Output of LUT `lut` with the flip-flop values of `m` (an unknown LUT reads INIT 0).
pub open spec fn lut_out(m: SimModel, lut: Seq<char>) -> bool {
    let init: u64 = if m.luts.contains_key(lut) { m.luts[lut] } else { 0 };
    (init >> (pin_addr(m.pins, lut, m.ffq) as u64)) & 1 == 1
}

/// The state after one rising edge `delay` later.
/// The value each flip-flop of `ffd` loads on the edge, from the state `m`.
pub open spec fn edge_values(m: SimModel, ffd: Map<Seq<char>, String>) -> Map<Seq<char>, bool> {
    ffd.map_values(|l: String| lut_out(m, l@))
}

pub open spec fn sim_step(m: SimModel, delay: u64) -> SimModel {
    let nq = m.ffq.union_prefer_right(edge_values(m, m.ffd));
    SimModel {
        time: (m.time + delay) as u64,
        ffq: nq,
        led: match m.iob {
            Some(f) => nq.contains_key(f@) && nq[f@],
            None => false,
        },
        ..m
    }
}

/// The state after `n` edges 10 ps apart.
pub open spec fn sim_run(m: SimModel, n: nat) -> SimModel
    decreases n,
{
    if n == 0 {
        m
    } else {
        sim_step(sim_run(m, (n - 1) as nat), 10)
    }
}

/// LED after each of the first `n` edges.
pub open spec fn sim_wave(m: SimModel, n: nat) -> Seq<bool>
    decreases n,
{
    if n == 0 {
        Seq::empty()
    } else {
        sim_wave(m, (n - 1) as nat).push(sim_run(m, n).led)
    }
}

// ---------------------------------------------------------------------------
// The kernel
// ---------------------------------------------------------------------------

#[derive(Clone, Debug)]
pub struct Sim {
    pub time: u64,
    lut_init: Vec<(String, u64)>,
    lut_pins: Vec<(String, u8, String)>,
    ff_d_lut: Vec<(String, String)>,
    iob_from_ff: Option<String>,
    ff_q: Vec<(String, bool)>,
    pub led: bool,
}

impl View for Sim {
    type V = SimModel;

    closed spec fn view(&self) -> SimModel {
        SimModel {
            time: self.time,
            luts: amap(self.lut_init@),
            pins: self.lut_pins@,
            ffd: amap(self.ff_d_lut@),
            iob: self.iob_from_ff,
            ffq: amap(self.ff_q@),
            led: self.led,
        }
    }
}

fn first_pin_exec(eps: &Vec<Endpoint>, pin: &str) -> (r: Option<String>)
    ensures
        r == first_pin(eps@, pin@),
{
    let mut i: usize = 0;
    while i < eps.len()
        invariant
            i <= eps@.len(),
            first_pin(eps@, pin@) == first_pin_from(eps@, pin@, i as int),
        decreases eps@.len() - i,
    {
        if text::str_eq(eps[i].pin.as_str(), pin) {
            return Some(eps[i].cell.clone());
        }
        i = i + 1;
    }
    None
}

fn lut_pin_no_exec(p: &String) -> (r: Option<u8>)
    ensures
        r == lut_pin_no(p@),
{
    let v = text::chars_of(p.as_str());
    if v.len() > 0 && v[0] == 'I' {
        let rest = text::slice(&v, 1, v.len());
        assert(rest@ =~= v@.drop_first());
        match text::parse_uint(&rest, 255) {
            Some(n) => if n < 6 {
                Some(n as u8)
            } else {
                None
            },
            None => None,
        }
    } else {
        None
    }
}

fn iob_ff_exec(ns: &Vec<Net>, c: &Cell) -> (r: Option<String>)
    ensures
        r == iob_ff(ns@, *c),
{
    match c.kind {
        CellKind::IobOut => {},
        _ => {
            return None;
        },
    }
    let mut i: usize = 0;
    while i < ns.len()
        invariant
            i <= ns@.len(),
            c.kind is IobOut,
            input_net_from(ns@, c.name@, 0) == input_net_from(ns@, c.name@, i as int),
        decreases ns@.len() - i,
    {
        if crate::ir::net_has_endpoint(&ns[i], c.name.as_str(), "I") {
            return first_pin_exec(&ns[i].endpoints, "Q");
        }
        i = i + 1;
    }
    None
}

impl Sim {
    /// No name occurs twice in a table, and every LUT input is below 6.
    pub closed spec fn wf(&self) -> bool {
        &&& keys_unique(self.lut_init@)
        &&& keys_unique(self.ff_d_lut@)
        &&& keys_unique(self.ff_q@)
        &&& forall|i: int| 0 <= i < self.lut_pins@.len() ==> (#[trigger] self.lut_pins@[i]).1 < 6
    }

    pub fn new(d: &Design) -> (s: Sim)
        ensures
            s.wf(),
            s@ == sim_init(*d),
    {
        let mut lut_init: Vec<(String, u64)> = Vec::new();
        let mut ff_q: Vec<(String, bool)> = Vec::new();
        let mut i: usize = 0;
        while i < d.cells.len()
            invariant
                i <= d.cells@.len(),
                keys_unique(lut_init@),
                keys_unique(ff_q@),
                amap(lut_init@) == lut_inits(d.cells@.subrange(0, i as int)),
                amap(ff_q@) == ff_regs(d.cells@.subrange(0, i as int)),
            decreases d.cells@.len() - i,
        {
            assert(d.cells@.subrange(0, i + 1).drop_last() =~= d.cells@.subrange(0, i as int));
            let c = &d.cells[i];
            match c.kind {
                CellKind::Lut6 { init } => {
                    assoc_set(&mut lut_init, &c.name, init);
                },
                CellKind::Hff => {
                    assoc_set(&mut ff_q, &c.name, false);
                },
                _ => {},
            }
            i = i + 1;
        }
        assert(d.cells@.subrange(0, d.cells@.len() as int) =~= d.cells@);
        let mut lut_pins: Vec<(String, u8, String)> = Vec::new();
        let mut ff_d_lut: Vec<(String, String)> = Vec::new();
        let mut k: usize = 0;
        while k < d.nets.len()
            invariant
                k <= d.nets@.len(),
                keys_unique(ff_d_lut@),
                lut_pins@ == all_pins(d.nets@.subrange(0, k as int)),
                forall|q: int| 0 <= q < lut_pins@.len() ==> (#[trigger] lut_pins@[q]).1 < 6,
                amap(ff_d_lut@) == ff_luts(d.nets@.subrange(0, k as int)),
            decreases d.nets@.len() - k,
        {
            assert(d.nets@.subrange(0, k + 1).drop_last() =~= d.nets@.subrange(0, k as int));
            let n = &d.nets[k];
            let ghost before = lut_pins@;
            match first_pin_exec(&n.endpoints, "Q") {
                Some(q) => {
                    let mut j: usize = 0;
                    assert(n.endpoints@.subrange(0, 0) =~= Seq::<Endpoint>::empty());
                    while j < n.endpoints.len()
                        invariant
                            j <= n.endpoints@.len(),
                            lut_pins@ == before + eps_pins(n.endpoints@.subrange(0, j as int), q),
                            forall|q2: int| 0 <= q2 < lut_pins@.len() ==> (#[trigger] lut_pins@[q2]).1 < 6,
                        decreases n.endpoints@.len() - j,
                    {
                        assert(n.endpoints@.subrange(0, j + 1).drop_last() =~= n.endpoints@.subrange(0, j as int));
                        let e = &n.endpoints[j];
                        let ghost mid = lut_pins@;
                        match lut_pin_no_exec(&e.pin) {
                            Some(p) => {
                                lut_pins.push((e.cell.clone(), p, q.clone()));
                                assert(lut_pins@ =~= before + eps_pins(n.endpoints@.subrange(0, j + 1), q));
                            },
                            None => {
                                assert(lut_pins@ =~= before + eps_pins(n.endpoints@.subrange(0, j + 1), q));
                            },
                        }
                        j = j + 1;
                    }
                    assert(n.endpoints@.subrange(0, n.endpoints@.len() as int) =~= n.endpoints@);
                },
                None => {},
            }
            assert(lut_pins@ =~= all_pins(d.nets@.subrange(0, k + 1)));
            match (first_pin_exec(&n.endpoints, "O"), first_pin_exec(&n.endpoints, "D")) {
                (Some(l), Some(f)) => {
                    assoc_set(&mut ff_d_lut, &f, l);
                },
                _ => {},
            }
            k = k + 1;
        }
        assert(d.nets@.subrange(0, d.nets@.len() as int) =~= d.nets@);
        let mut iob: Option<String> = None;
        let mut c: usize = 0;
        while c < d.cells.len()
            invariant_except_break
                iob is None,
            invariant
                c <= d.cells@.len(),
                iob_from(d.nets@, d.cells@, 0) == iob_from(d.nets@, d.cells@, c as int),
            ensures
                iob == iob_from(d.nets@, d.cells@, 0),
            decreases d.cells@.len() - c,
        {
            let r = iob_ff_exec(&d.nets, &d.cells[c]);
            if r.is_some() {
                iob = r;
                break;
            }
            c = c + 1;
        }
        let s = Sim { time: 0, lut_init, lut_pins, ff_d_lut, iob_from_ff: iob, ff_q, led: false };
        assert(s@ =~= sim_init(*d));
        s
    }
}

impl Sim {
    fn lut_output(&self, lut: &String) -> (r: bool)
        requires
            self.wf(),
        ensures
            r == lut_out(self@, lut@),
    {
        let init: u64 = match assoc_get(&self.lut_init, lut) {
            Some(v) => v,
            None => 0,
        };
        let mut addr: u8 = 0;
        let mut k: usize = 0;
        while k < self.lut_pins.len()
            invariant
                k <= self.lut_pins@.len(),
                self.wf(),
                addr < 64,
                addr == pin_addr(self.lut_pins@.subrange(0, k as int), lut@, amap(self.ff_q@)),
            decreases self.lut_pins@.len() - k,
        {
            assert(self.lut_pins@.subrange(0, k + 1).drop_last() =~= self.lut_pins@.subrange(0, k as int));
            let t = &self.lut_pins[k];
            if t.0 == *lut {
                match assoc_get(&self.ff_q, &t.2) {
                    Some(true) => {
                        let p = t.1;
                        assert(p < 6);
                        assert((addr | (1u8 << p)) < 64) by (bit_vector)
                            requires
                                addr < 64,
                                p < 6,
                        ;
                        addr = addr | (1u8 << p);
                    },
                    _ => {},
                }
            }
            k = k + 1;
        }
        assert(self.lut_pins@.subrange(0, self.lut_pins@.len() as int) =~= self.lut_pins@);
        (init >> (addr as u64)) & 1 == 1
    }

    /// One rising edge `delay` later: every flip-flop loads its LUT's output
    /// (all read before any changes), then the LED follows its flip-flop.
    pub fn step_posedge(&mut self, delay: u64)
        requires
            old(self).wf(),
            old(self)@.time + delay <= u64::MAX,
        ensures
            final(self).wf(),
            final(self)@ == sim_step(old(self)@, delay),
    {
        let ghost m = self@;
        let mut next: Vec<(String, bool)> = Vec::new();
        let mut i: usize = 0;
        while i < self.ff_d_lut.len()
            invariant
                i <= self.ff_d_lut@.len(),
                self.wf(),
                self@ == m,
                amap(next@) == edge_values(m, amap(self.ff_d_lut@.subrange(0, i as int))),
            decreases self.ff_d_lut@.len() - i,
        {
            assert(self.ff_d_lut@.subrange(0, i + 1).drop_last() =~= self.ff_d_lut@.subrange(0, i as int));
            let o = self.lut_output(&self.ff_d_lut[i].1);
            let ghost before = next@;
            next.push((self.ff_d_lut[i].0.clone(), o));
            assert(next@.drop_last() =~= before);
            assert(amap(next@) =~= edge_values(m, amap(self.ff_d_lut@.subrange(0, i + 1))));
            i = i + 1;
        }
        assert(self.ff_d_lut@.subrange(0, self.ff_d_lut@.len() as int) =~= self.ff_d_lut@);
        self.time = self.time + delay;
        let mut j: usize = 0;
        assert(m.ffq.union_prefer_right(amap(next@.subrange(0, 0))) =~= m.ffq);
        while j < next.len()
            invariant
                j <= next@.len(),
                keys_unique(self.lut_init@),
                keys_unique(self.ff_d_lut@),
                keys_unique(self.ff_q@),
                forall|q: int| 0 <= q < self.lut_pins@.len() ==> (#[trigger] self.lut_pins@[q]).1 < 6,
                self.lut_init@ == old(self).lut_init@,
                self.lut_pins@ == old(self).lut_pins@,
                self.ff_d_lut@ == old(self).ff_d_lut@,
                self.iob_from_ff == old(self).iob_from_ff,
                self.time == old(self).time + delay,
                amap(self.ff_q@) == m.ffq.union_prefer_right(amap(next@.subrange(0, j as int))),
            decreases next@.len() - j,
        {
            assert(next@.subrange(0, j + 1).drop_last() =~= next@.subrange(0, j as int));
            assoc_set(&mut self.ff_q, &next[j].0, next[j].1);
            assert(amap(self.ff_q@) =~= m.ffq.union_prefer_right(amap(next@.subrange(0, j + 1))));
            j = j + 1;
        }
        assert(next@.subrange(0, next@.len() as int) =~= next@);
        let led = match &self.iob_from_ff {
            Some(f) => match assoc_get(&self.ff_q, f) {
                Some(b) => b,
                None => false,
            },
            None => false,
        };
        self.led = led;
        assert(self@ =~= sim_step(m, delay));
    }
}

/// The LED after each of `cycles` rising edges 10 ps apart.
pub fn run_tb(design: &Design, cycles: u32) -> (wave: Vec<bool>)
    ensures
        wave@ == sim_wave(sim_init(*design), cycles as nat),
{
    let mut s = Sim::new(design);
    let ghost m0 = s@;
    let mut wave: Vec<bool> = Vec::new();
    let mut k: u32 = 0;
    while k < cycles
        invariant
            k <= cycles,
            s.wf(),
            m0 == sim_init(*design),
            s@ == sim_run(m0, k as nat),
            s@.time == 10 * k,
            wave@ == sim_wave(m0, k as nat),
        decreases cycles - k,
    {
        s.step_posedge(10);
        wave.push(s.led);
        k = k + 1;
    }
    wave
}

// ---------------------------------------------------------------------------
// The Objects pane: LED and each flip-flop, flip-flops by name
// ---------------------------------------------------------------------------

/// `String` order: lexicographic by character.
pub open spec fn lex_lt(a: Seq<char>, b: Seq<char>) -> bool
    decreases a.len(),
{
    if a.len() == 0 {
        b.len() > 0
    } else if b.len() == 0 {
        false
    } else if a[0] != b[0] {
        a[0] < b[0]
    } else {
        lex_lt(a.drop_first(), b.drop_first())
    }
}

pub proof fn lemma_lex_irrefl(a: Seq<char>)
    ensures
        !lex_lt(a, a),
    decreases a.len(),
{
    if a.len() > 0 {
        lemma_lex_irrefl(a.drop_first());
    }
}

pub proof fn lemma_lex_trans(a: Seq<char>, b: Seq<char>, c: Seq<char>)
    requires
        lex_lt(a, b),
        lex_lt(b, c),
    ensures
        lex_lt(a, c),
    decreases a.len(),
{
    if a.len() > 0 && b.len() > 0 && c.len() > 0 && a[0] == b[0] && b[0] == c[0] {
        lemma_lex_trans(a.drop_first(), b.drop_first(), c.drop_first());
    }
}

pub proof fn lemma_lex_total(a: Seq<char>, b: Seq<char>)
    ensures
        a != b ==> lex_lt(a, b) || lex_lt(b, a),
    decreases a.len(),
{
    if a.len() > 0 && b.len() > 0 && a[0] == b[0] {
        lemma_lex_total(a.drop_first(), b.drop_first());
        if a.drop_first() == b.drop_first() {
            assert(a =~= seq![a[0]] + a.drop_first());
            assert(b =~= seq![b[0]] + b.drop_first());
        }
    } else if a.len() == 0 && b.len() == 0 {
        assert(a =~= b);
    }
}

pub(crate) fn lex_less(a: &Vec<char>, b: &Vec<char>) -> (r: bool)
    ensures
        r == lex_lt(a@, b@),
{
    let mut i: usize = 0;
    assert(a@.subrange(0, a@.len() as int) =~= a@);
    assert(b@.subrange(0, b@.len() as int) =~= b@);
    while i < a.len() && i < b.len() && a[i] == b[i]
        invariant
            i <= a@.len(),
            i <= b@.len(),
            lex_lt(a@, b@) == lex_lt(a@.subrange(i as int, a@.len() as int), b@.subrange(i as int, b@.len() as int)),
        decreases a@.len() - i,
    {
        assert(a@.subrange(i as int, a@.len() as int).drop_first() =~= a@.subrange(i + 1, a@.len() as int));
        assert(b@.subrange(i as int, b@.len() as int).drop_first() =~= b@.subrange(i + 1, b@.len() as int));
        i = i + 1;
    }
    if i >= a.len() {
        i < b.len()
    } else if i >= b.len() {
        false
    } else {
        a[i] < b[i]
    }
}

pub open spec fn bit_text(b: bool) -> Seq<char> {
    if b { "1"@ } else { "0"@ }
}

pub open spec fn names_sorted(v: Seq<(String, String)>) -> bool {
    forall|i: int, j: int| 0 <= i < j < v.len() ==> lex_lt(v[i].0@, v[j].0@)
}


/// Inserts `(name, v)` at its place in a list sorted by name.
pub(crate) fn insert_sorted(fs: &mut Vec<(String, String)>, name: &String, v: String) -> (p: usize)
    requires
        names_sorted(old(fs)@),
        forall|j: int| 0 <= j < old(fs)@.len() ==> (#[trigger] old(fs)@[j]).0@ != name@,
    ensures
        p <= old(fs)@.len(),
        final(fs)@ == old(fs)@.insert(p as int, (*name, v)),
        names_sorted(final(fs)@),
{
    let nm = text::chars_of(name.as_str());
    let mut p: usize = 0;
    while p < fs.len() && lex_less(&text::chars_of(fs[p].0.as_str()), &nm)
        invariant
            p <= fs@.len(),
            nm@ == name@,
            forall|j: int| 0 <= j < p ==> lex_lt((#[trigger] fs@[j]).0@, name@),
        decreases fs@.len() - p,
    {
        p = p + 1;
    }
    proof {
        assert forall|j: int| p <= j < fs@.len() implies lex_lt(name@, (#[trigger] fs@[j]).0@) by {
            lemma_lex_total(name@, fs@[p as int].0@);
            if j > p {
                lemma_lex_trans(name@, fs@[p as int].0@, fs@[j].0@);
            }
        }
    }
    let ghost before = fs@;
    fs.insert(p, (name.clone(), v));
    proof {
        assert(fs@ =~= before.insert(p as int, (*name, v)));
        assert forall|a: int, b: int| 0 <= a < b < fs@.len() implies lex_lt(fs@[a].0@, fs@[b].0@) by {
            if b < p {
            } else if a < p && b == p {
            } else if a < p && b > p {
                assert(fs@[b] == before[b - 1]);
            } else if a == p {
                assert(fs@[b] == before[b - 1]);
            } else {
                assert(fs@[a] == before[a - 1]);
                assert(fs@[b] == before[b - 1]);
            }
        }
    }
    p
}

impl Sim {
    /// Live probes: `led` first, then each flip-flop's `Q` by name.
    pub fn object_values(&self) -> (r: Vec<(String, String)>)
        requires
            self.wf(),
        ensures
            r@.len() >= 1,
            r@[0].0@ == "led"@ && r@[0].1@ == bit_text(self@.led),
            names_sorted(r@.drop_first()),
            forall|i: int| 1 <= i < r@.len() ==> self@.ffq.contains_key((#[trigger] r@[i]).0@) && r@[i].1@ == bit_text(
                self@.ffq[r@[i].0@],
            ),
            forall|k: Seq<char>| #[trigger] self@.ffq.contains_key(k) ==> exists|i: int| 1 <= i < r@.len() && (#[trigger] r@[i]).0@ == k,
    {
        let mut fs: Vec<(String, String)> = Vec::new();
        let mut i: usize = 0;
        while i < self.ff_q.len()
            invariant
                i <= self.ff_q@.len(),
                self.wf(),
                names_sorted(fs@),
                forall|j: int| 0 <= j < fs@.len() ==> exists|q: int| 0 <= q < i && (#[trigger] self.ff_q@[q]).0@ == (#[trigger] fs@[j]).0@
                    && fs@[j].1@ == bit_text(self.ff_q@[q].1),
                forall|q: int| 0 <= q < i ==> exists|j: int| 0 <= j < fs@.len() && (#[trigger] fs@[j]).0@ == (#[trigger] self.ff_q@[q]).0@,
            decreases self.ff_q@.len() - i,
        {
            let v = if self.ff_q[i].1 {
                text::owned("1")
            } else {
                text::owned("0")
            };
            let ghost before = fs@;
            proof {
                assert forall|j: int| 0 <= j < fs@.len() implies (#[trigger] fs@[j]).0@ != self.ff_q@[i as int].0@ by {
                    let q = choose|q: int| 0 <= q < i && (#[trigger] self.ff_q@[q]).0@ == fs@[j].0@ && fs@[j].1@ == bit_text(self.ff_q@[q].1);
                    assert(self.ff_q@[q].0@ != self.ff_q@[i as int].0@);
                }
            }
            let p = insert_sorted(&mut fs, &self.ff_q[i].0, v);
            proof {
                assert forall|j: int| 0 <= j < fs@.len() implies exists|q: int| 0 <= q < i + 1 && (#[trigger] self.ff_q@[q]).0@ == (#[trigger] fs@[j]).0@
                    && fs@[j].1@ == bit_text(self.ff_q@[q].1) by {
                    if j == p {
                        assert(self.ff_q@[i as int].0@ == fs@[j].0@);
                    } else if j < p {
                        assert(fs@[j] == before[j]);
                    } else {
                        assert(fs@[j] == before[j - 1]);
                    }
                }
                assert forall|q: int| 0 <= q < i + 1 implies exists|j: int| 0 <= j < fs@.len() && (#[trigger] fs@[j]).0@ == (#[trigger] self.ff_q@[q]).0@ by {
                    if q == i {
                        assert(fs@[p as int].0@ == self.ff_q@[q].0@);
                    } else {
                        let j = choose|j: int| 0 <= j < before.len() && (#[trigger] before[j]).0@ == self.ff_q@[q].0@;
                        if j < p {
                            assert(fs@[j] == before[j]);
                        } else {
                            assert(fs@[j + 1] == before[j]);
                        }
                    }
                }
            }
            i = i + 1;
        }
        let led = if self.led {
            text::owned("1")
        } else {
            text::owned("0")
        };
        let ghost fv = fs@;
        let mut r = fs;
        r.insert(0, (text::owned("led"), led));
        assert(r@ =~= fv.insert(0, r@[0]));
        assert forall|j: int| 0 <= j < fv.len() implies r@[j + 1] == fv[j] by {}
        proof {
            assert(r@.drop_first() =~= fv);
            assert forall|j: int| 1 <= j < r@.len() implies self@.ffq.contains_key((#[trigger] r@[j]).0@) && r@[j].1@ == bit_text(
                self@.ffq[r@[j].0@],
            ) by {
                assert(r@[j] == fv[j - 1]);
                let q = choose|q: int| 0 <= q < self.ff_q@.len() && (#[trigger] self.ff_q@[q]).0@ == fv[j - 1].0@ && fv[j - 1].1@ == bit_text(self.ff_q@[q].1);
                lemma_amap_at(self.ff_q@, q);
            }
            assert forall|key: Seq<char>| #[trigger] self@.ffq.contains_key(key) implies exists|j: int| 1 <= j < r@.len() && (#[trigger] r@[j]).0@ == key by {
                lemma_amap_dom(self.ff_q@, key);
                let q = choose|q: int| 0 <= q < self.ff_q@.len() && (#[trigger] self.ff_q@[q]).0@ == key;
                let j = choose|j: int| 0 <= j < fv.len() && (#[trigger] fv[j]).0@ == self.ff_q@[q].0@;
                assert(r@[j + 1] == fv[j]);
            }
        }
        r
    }
}

/// Strictly increasing names have no name twice.
pub proof fn lemma_sorted_unique(v: Seq<(String, String)>)
    requires
        names_sorted(v),
    ensures
        keys_unique(v),
{
    assert forall|i: int, j: int| 0 <= i < j < v.len() implies v[i].0@ != v[j].0@ by {
        if v[i].0@ == v[j].0@ {
            lemma_lex_irrefl(v[i].0@);
        }
    }
}

/// Inserting a new key anywhere adds it to the map.
pub proof fn lemma_amap_insert_fresh<V>(s: Seq<(String, V)>, p: int, x: (String, V))
    requires
        0 <= p <= s.len(),
        forall|i: int| 0 <= i < s.len() ==> (#[trigger] s[i]).0@ != x.0@,
    ensures
        amap(s.insert(p, x)) == amap(s).insert(x.0@, x.1),
    decreases s.len(),
{
    let t = s.insert(p, x);
    if p == s.len() {
        assert(t.drop_last() =~= s);
    } else {
        lemma_amap_insert_fresh(s.drop_last(), p, x);
        assert(t.drop_last() =~= s.drop_last().insert(p, x));
        assert(t.last() == s.last());
        assert(amap(t) =~= amap(s).insert(x.0@, x.1));
    }
}

} // verus!
