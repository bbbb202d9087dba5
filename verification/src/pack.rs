//! Pack logical cells into Helion site primitives (LUTFF + IOB + MAC27 + BRAM18).

use vstd::prelude::*;
use crate::text;
use crate::ir::{Design, CellKind, Cell, Port, pin_net, pin_net_exec, pin_map_ok, net_via, str_lt, chars_lt};
use vstd::hash_map::StringHashMap;
use vstd::hash_set::StringHashSet;
use crate::proj::{d_ff_from, d_ff_exec, contains_string};
use crate::ipxact::str_views;

verus! {

#[derive(Clone, Debug)]
pub struct Packed {
    pub lutffs: Vec<PackedLutFf>,
    pub iobs: Vec<PackedIob>,
    pub macs: Vec<PackedMac>,
    pub brams: Vec<PackedBram>,
}

#[derive(Clone, Debug)]
pub struct PackedBram {
    pub cell: String,
    /// INIT words from IR attr `INIT` (comma-separated hex).
    pub init: Vec<u64>,
}

#[derive(Clone, Debug)]
pub struct PackedLutFf {
    pub lut_cell: String,
    pub ff_cell: String,
    pub init: u64,
    /// LUT pin → FF cell whose Q drives it (local cluster).
    pub lut_pins: Vec<(u8, String)>,
    /// Q net of the packed FF (IOB matching).
    pub q_net: String,
}

#[derive(Clone, Debug)]
pub struct PackedIob {
    pub cell: String,
    pub from_net: String,
    /// Optional `IOB_XxYy` from IR port LOC.
    pub loc: Option<String>,
    /// I/O port `DRIVE` (mA), copied from the PAD port.
    pub drive: Option<String>,
    /// I/O port `SLEW`.
    pub slew: Option<String>,
    /// I/O port `PULLTYPE`.
    pub pulltype: Option<String>,
    /// I/O port `DIFF_TERM`.
    pub diff_term: Option<String>,
    /// I/O port `IN_TERM`.
    pub in_term: Option<String>,
}

#[derive(Clone, Debug)]
pub struct PackedMac {
    pub cell: String,
}

/// LUTFF occupancy per CLB site ID (`CLB_X2Y1` → N).
#[derive(Clone, Debug)]
pub struct PackingSummary {
    pub sites: Vec<(String, usize)>,
}

/// Count stored under the first entry named `id`, or 0.
pub open spec fn site_count(s: Seq<(String, usize)>, id: Seq<char>, i: int) -> usize
    decreases s.len() - i,
{
    if i < 0 || i >= s.len() {
        0
    } else if s[i].0@ == id {
        s[i].1
    } else {
        site_count(s, id, i + 1)
    }
}

/// Site ids strictly increasing.
pub open spec fn sites_sorted(s: Seq<(String, usize)>) -> bool {
    forall|i: int, j: int| 0 <= i < j < s.len() ==> str_lt((#[trigger] s[i]).0@, (#[trigger] s[j]).0@)
}

/// How many times `q` occurs in `ids`.
pub open spec fn id_count(ids: Seq<Seq<char>>, q: Seq<char>) -> nat
    decreases ids.len(),
{
    if ids.len() == 0 {
        0
    } else {
        id_count(ids.drop_last(), q) + if ids.last() == q { 1nat } else { 0nat }
    }
}

proof fn lemma_sites_unique(s: Seq<(String, usize)>, a: int, b: int)
    requires
        sites_sorted(s),
        0 <= a < s.len(),
        0 <= b < s.len(),
        a != b,
    ensures
        s[a].0@ != s[b].0@,
{
    if a < b {
        assert(str_lt(s[a].0@, s[b].0@));
        crate::ir::lemma_str_lt_irreflexive(s[a].0@);
    } else {
        assert(str_lt(s[b].0@, s[a].0@));
        crate::ir::lemma_str_lt_irreflexive(s[b].0@);
    }
}

proof fn lemma_site_count_found(s: Seq<(String, usize)>, q: Seq<char>, k: int, j: int)
    requires
        sites_sorted(s),
        0 <= j <= k < s.len(),
        s[k].0@ == q,
    ensures
        site_count(s, q, j) == s[k].1,
    decreases k - j,
{
    if j < k {
        lemma_sites_unique(s, j, k);
        lemma_site_count_found(s, q, k, j + 1);
    }
}

proof fn lemma_site_count_absent(s: Seq<(String, usize)>, q: Seq<char>, j: int)
    requires
        0 <= j,
        forall|i: int| j <= i < s.len() ==> (#[trigger] s[i]).0@ != q,
    ensures
        site_count(s, q, j) == 0,
    decreases s.len() - j,
{
    if j < s.len() {
        lemma_site_count_absent(s, q, j + 1);
    }
}

impl PackingSummary {
    /// Groups placed LUTFF clusters by the id of their site: one entry per
    /// id, ids in increasing order, each with how many clusters it holds.
    pub fn from_lutff_sites(ids: &Vec<String>) -> (r: PackingSummary)
        ensures
            sites_sorted(r.sites@),
            forall|i: int| 0 <= i < r.sites@.len() ==> (#[trigger] r.sites@[i]).1 > 0,
            forall|q: Seq<char>| #[trigger] site_count(r.sites@, q, 0) == id_count(str_views(ids@), q),
    {
        let ghost iv = str_views(ids@);
        let mut m: Vec<(String, usize)> = Vec::new();
        let mut n: usize = 0;
        while n < ids.len()
            invariant
                n <= ids@.len(),
                iv == str_views(ids@),
                sites_sorted(m@),
                forall|i: int| 0 <= i < m@.len() ==> 0 < (#[trigger] m@[i]).1 <= n,
                forall|q: Seq<char>| #[trigger] site_count(m@, q, 0) == id_count(iv.subrange(0, n as int), q),
            decreases ids@.len() - n,
        {
            let k = text::chars_of(ids[n].as_str());
            let ghost o = m@;
            let ghost kq = k@;
            proof {
                assert(iv.subrange(0, n + 1).drop_last() =~= iv.subrange(0, n as int));
                assert(iv.subrange(0, n + 1).last() == kq);
            }
            let mut p: usize = 0;
            while p < m.len() && chars_lt(&text::chars_of(m[p].0.as_str()), &k)
                invariant
                    p <= m@.len(),
                    m@ == o,
                    k@ == kq,
                    forall|x: int| 0 <= x < p ==> str_lt((#[trigger] o[x]).0@, kq),
                decreases m@.len() - p,
            {
                p = p + 1;
            }
            if p < m.len() && text::eq_chars(&text::chars_of(m[p].0.as_str()), &k) {
                let c = m[p].1;
                let key = text::string_of(k.as_slice());
                m.set(p, (key, c + 1));
                proof {
                    assert forall|a: int, b: int| 0 <= a < b < m@.len() implies str_lt((#[trigger] m@[a]).0@, (#[trigger] m@[b]).0@) by {
                        assert(m@[a].0@ == o[a].0@ && m@[b].0@ == o[b].0@);
                    }
                    assert forall|q: Seq<char>| #[trigger] site_count(m@, q, 0) == id_count(iv.subrange(0, n + 1), q) by {
                        if q == kq {
                            lemma_site_count_found(o, q, p as int, 0);
                            lemma_site_count_found(m@, q, p as int, 0);
                        } else if exists|x: int| 0 <= x < o.len() && (#[trigger] o[x]).0@ == q {
                            let x = choose|x: int| 0 <= x < o.len() && (#[trigger] o[x]).0@ == q;
                            assert(x != p);
                            assert(m@[x] == o[x]);
                            lemma_site_count_found(o, q, x, 0);
                            lemma_site_count_found(m@, q, x, 0);
                        } else {
                            lemma_site_count_absent(o, q, 0);
                            assert forall|i: int| 0 <= i < m@.len() implies (#[trigger] m@[i]).0@ != q by {
                                if i != p {
                                    assert(m@[i] == o[i]);
                                }
                            }
                            lemma_site_count_absent(m@, q, 0);
                        }
                    }
                }
            } else {
                proof {
                    if p < o.len() {
                        assert(!str_lt(o[p as int].0@, kq));
                        assert(o[p as int].0@ != kq);
                        crate::ir::lemma_str_lt_total(o[p as int].0@, kq);
                        assert forall|y: int| p < y < o.len() implies str_lt(kq, #[trigger] o[y].0@) by {
                            assert(str_lt(o[p as int].0@, o[y].0@));
                            crate::ir::lemma_str_lt_trans(kq, o[p as int].0@, o[y].0@);
                        }
                    }
                    assert forall|x: int| 0 <= x < o.len() implies (#[trigger] o[x]).0@ != kq by {
                        if x < p {
                            assert(str_lt(o[x].0@, kq));
                            crate::ir::lemma_str_lt_irreflexive(kq);
                        } else if x > p {
                            assert(str_lt(kq, o[x].0@));
                            crate::ir::lemma_str_lt_irreflexive(kq);
                        }
                    }
                }
                let key = text::string_of(k.as_slice());
                m.insert(p, (key, 1));
                proof {
                    assert forall|x: int| 0 <= x < p implies #[trigger] m@[x] == o[x] by {}
                    assert forall|x: int| p < x < m@.len() implies #[trigger] m@[x] == o[x - 1] by {}
                    assert(m@[p as int].0@ == kq);
                    assert forall|a: int, b: int| 0 <= a < b < m@.len() implies str_lt((#[trigger] m@[a]).0@, (#[trigger] m@[b]).0@) by {
                        if b < p {
                            assert(m@[a] == o[a] && m@[b] == o[b]);
                        } else if b == p {
                            assert(m@[a] == o[a]);
                        } else if a == p {
                            assert(m@[b] == o[b - 1]);
                        } else if a < p {
                            assert(m@[a] == o[a] && m@[b] == o[b - 1]);
                            if b - 1 != p {
                                assert(str_lt(o[a].0@, o[b - 1].0@));
                            } else {
                                assert(str_lt(o[a].0@, kq));
                                assert(str_lt(kq, o[b - 1].0@));
                                crate::ir::lemma_str_lt_trans(o[a].0@, kq, o[b - 1].0@);
                            }
                        } else {
                            assert(m@[a] == o[a - 1] && m@[b] == o[b - 1]);
                        }
                    }
                    assert forall|q: Seq<char>| #[trigger] site_count(m@, q, 0) == id_count(iv.subrange(0, n + 1), q) by {
                        if q == kq {
                            lemma_site_count_absent(o, q, 0);
                            lemma_site_count_found(m@, q, p as int, 0);
                        } else if exists|x: int| 0 <= x < o.len() && (#[trigger] o[x]).0@ == q {
                            let x = choose|x: int| 0 <= x < o.len() && (#[trigger] o[x]).0@ == q;
                            let y = if x < p { x } else { x + 1 };
                            assert(m@[y] == o[x]);
                            lemma_site_count_found(o, q, x, 0);
                            lemma_site_count_found(m@, q, y, 0);
                        } else {
                            lemma_site_count_absent(o, q, 0);
                            assert forall|i: int| 0 <= i < m@.len() implies (#[trigger] m@[i]).0@ != q by {
                                if i < p {
                                    assert(m@[i] == o[i]);
                                } else if i > p {
                                    assert(m@[i] == o[i - 1]);
                                }
                            }
                            lemma_site_count_absent(m@, q, 0);
                        }
                    }
                }
            }
            n = n + 1;
        }
        assert(iv.subrange(0, n as int) =~= iv);
        PackingSummary { sites: m }
    }

    pub fn lutff_in(&self, site_id: &str) -> (r: usize)
        ensures
            r == site_count(self.sites@, site_id@, 0),
    {
        let mut i: usize = 0;
        while i < self.sites.len()
            invariant
                i <= self.sites@.len(),
                site_count(self.sites@, site_id@, 0) == site_count(self.sites@, site_id@, i as int),
            decreases self.sites@.len() - i,
        {
            if text::str_eq(self.sites[i].0.as_str(), site_id) {
                return self.sites[i].1;
            }
            i = i + 1;
        }
        0
    }
}

// ---------------------------------------------------------------------------
// Packing as plain values
// ---------------------------------------------------------------------------

#[verifier::ext_equal]
pub struct LutFfModel {
    pub lut: Seq<char>,
    pub ff: Seq<char>,
    pub init: u64,
    pub pins: Seq<(u8, Seq<char>)>,
    pub q: Seq<char>,
}

#[verifier::ext_equal]
pub struct IobModel {
    pub cell: Seq<char>,
    pub from_net: Seq<char>,
    pub loc: Option<Seq<char>>,
    pub drive: Option<Seq<char>>,
    pub slew: Option<Seq<char>>,
    pub pulltype: Option<Seq<char>>,
    pub diff_term: Option<Seq<char>>,
    pub in_term: Option<Seq<char>>,
}

#[verifier::ext_equal]
pub struct PackedModel {
    pub lutffs: Seq<LutFfModel>,
    pub iobs: Seq<IobModel>,
    pub macs: Seq<Seq<char>>,
    pub brams: Seq<(Seq<char>, Seq<u64>)>,
}

/// The last flip-flop (among the first `k` cells) whose `Q` is on net `n`.
pub open spec fn q_ff_upto(d: Design, n: Seq<char>, k: int) -> Option<Seq<char>>
    decreases k,
{
    if k <= 0 || k > d.cells@.len() {
        None
    } else if d.cells@[k - 1].kind is Hff && pin_net(d.nets@, d.cells@[k - 1].name@, "Q"@) == Some(n) {
        Some(d.cells@[k - 1].name@)
    } else {
        q_ff_upto(d, n, k - 1)
    }
}

pub open spec fn q_driver(d: Design, n: Seq<char>) -> Option<Seq<char>> {
    q_ff_upto(d, n, d.cells@.len() as int)
}

/// Pin name `I<p>`.
pub open spec fn input_pin(p: nat) -> Seq<char> {
    seq!['I', text::digit_char(p)]
}

/// `(pin, source FF)` for the inputs `I0 .. I<k-1>` of LUT `cell` that a flip-flop drives.
pub open spec fn lut_sources(d: Design, cell: Seq<char>, k: nat) -> Seq<(u8, Seq<char>)>
    decreases k,
{
    if k == 0 {
        Seq::empty()
    } else {
        let p = (k - 1) as nat;
        lut_sources(d, cell, p) + match pin_net(d.nets@, cell, input_pin(p)) {
            Some(net) => match q_driver(d, net) {
                Some(src) => seq![(p as u8, src)],
                None => Seq::empty(),
            },
            None => Seq::empty(),
        }
    }
}

/// LUT clusters of the first `k` cells, and the flip-flops they took.
pub open spec fn lutff_fold(d: Design, k: int) -> (Seq<LutFfModel>, Set<Seq<char>>)
    decreases k,
{
    if k <= 0 || k > d.cells@.len() {
        (Seq::empty(), Set::empty())
    } else {
        let (ls, used) = lutff_fold(d, k - 1);
        let c = d.cells@[k - 1];
        match c.kind {
            CellKind::Lut6 { init } => match pin_net(d.nets@, c.name@, "O"@) {
                None => (ls, used),
                Some(o) => {
                    let ffn: Option<Seq<char>> = match d_ff_from(d, o, 0) {
                        Some(f) => if used.contains(f.name@) { None } else { Some(f.name@) },
                        None => None,
                    };
                    let m = LutFfModel {
                        lut: c.name@,
                        ff: match ffn {
                            Some(n) => n,
                            None => Seq::empty(),
                        },
                        init,
                        pins: lut_sources(d, c.name@, 6),
                        q: match ffn {
                            Some(n) => match pin_net(d.nets@, n, "Q"@) {
                                Some(q) => q,
                                None => Seq::empty(),
                            },
                            None => o,
                        },
                    };
                    (ls.push(m), match ffn {
                        Some(n) => used.insert(n),
                        None => used,
                    })
                },
            },
            _ => (ls, used),
        }
    }
}

/// The first port named `n`.
pub open spec fn port_named(ps: Seq<Port>, n: Seq<char>, i: int) -> Option<Port>
    decreases ps.len() - i,
{
    if i < 0 || i >= ps.len() {
        None
    } else if ps[i].name@ == n {
        Some(ps[i])
    } else {
        port_named(ps, n, i + 1)
    }
}

pub open spec fn port_attr(p: Option<Port>, k: Seq<char>) -> Option<Seq<char>> {
    match p {
        Some(p) => p.attrs.lookup(k),
        None => None,
    }
}

pub open spec fn or_empty(o: Option<Seq<char>>) -> Seq<char> {
    match o {
        Some(s) => s,
        None => Seq::empty(),
    }
}

/// The port on the `PAD` net of IOB `cell` (the first port of that name).
pub open spec fn pad_port(d: Design, cell: Seq<char>) -> Option<Port> {
    port_named(d.ports@, or_empty(pin_net(d.nets@, cell, "PAD"@)), 0)
}

/// Output IOBs of the first `k` cells; the first one without an `I` net is an error.
pub open spec fn iob_fold(d: Design, k: int) -> Result<Seq<IobModel>, Seq<char>>
    decreases k,
{
    if k <= 0 || k > d.cells@.len() {
        Ok(Seq::empty())
    } else {
        match iob_fold(d, k - 1) {
            Err(e) => Err(e),
            Ok(ls) => {
                let c = d.cells@[k - 1];
                if c.kind is IobOut {
                    match pin_net(d.nets@, c.name@, "I"@) {
                        None => Err("IOB "@ + c.name@ + " has no I net"@),
                        Some(net) => {
                            let port = pad_port(d, c.name@);
                            Ok(
                                ls.push(
                                    IobModel {
                                        cell: c.name@,
                                        from_net: net,
                                        loc: port_attr(port, "LOC"@),
                                        drive: port_attr(port, "DRIVE"@),
                                        slew: port_attr(port, "SLEW"@),
                                        pulltype: port_attr(port, "PULLTYPE"@),
                                        diff_term: port_attr(port, "DIFF_TERM"@),
                                        in_term: port_attr(port, "IN_TERM"@),
                                    },
                                ),
                            )
                        },
                    }
                } else {
                    Ok(ls)
                }
            },
        }
    }
}

/// Names of the MAC27 cells.
pub open spec fn mac_cells(cs: Seq<Cell>) -> Seq<Seq<char>>
    decreases cs.len(),
{
    if cs.len() == 0 {
        Seq::empty()
    } else {
        mac_cells(cs.drop_last()) + if cs.last().kind is Mac27 { seq![cs.last().name@] } else { Seq::empty() }
    }
}

/// `str::split(',')` of `s` from index `i` on.
pub open spec fn comma_fields(s: Seq<char>, i: int) -> Seq<Seq<char>>
    decreases s.len() + 1 - i,
{
    if i < 0 || i > s.len() {
        Seq::empty()
    } else {
        let j = text::find_char_from(s, ',', i);
        proof {
            text::lemma_find_char_ge(s, ',', i);
        }
        seq![s.subrange(i, j)] + comma_fields(s, j + 1)
    }
}

/// The words of a comma-separated hex list: empty fields skipped, a field
/// that does not parse reads 0.
pub open spec fn hex_words(fs: Seq<Seq<char>>) -> Seq<u64>
    decreases fs.len(),
{
    if fs.len() == 0 {
        Seq::empty()
    } else {
        let f = fs[0];
        (if f.len() == 0 {
            Seq::empty()
        } else {
            seq![
                match text::parse_hex_u64(text::trim(f)) {
                    Some(n) => n as u64,
                    None => 0u64,
                },
            ]
        }) + hex_words(fs.drop_first())
    }
}

pub open spec fn bram_init(c: Cell) -> Seq<u64> {
    hex_words(comma_fields(or_empty(c.attrs.lookup("INIT"@)), 0))
}

pub open spec fn bram_cells(cs: Seq<Cell>) -> Seq<(Seq<char>, Seq<u64>)>
    decreases cs.len(),
{
    if cs.len() == 0 {
        Seq::empty()
    } else {
        bram_cells(cs.drop_last()) + if cs.last().kind is Bram18 {
            seq![(cs.last().name@, bram_init(cs.last()))]
        } else {
            Seq::empty()
        }
    }
}

/// What `pack` gives for design `d`.
pub open spec fn pack_result(d: Design) -> Result<PackedModel, Seq<char>> {
    match iob_fold(d, d.cells@.len() as int) {
        Err(e) => Err(e),
        Ok(iobs) => Ok(
            PackedModel {
                lutffs: lutff_fold(d, d.cells@.len() as int).0,
                iobs,
                macs: mac_cells(d.cells@),
                brams: bram_cells(d.cells@),
            },
        ),
    }
}

pub open spec fn opt_str_view(o: Option<String>) -> Option<Seq<char>> {
    match o {
        Some(s) => Some(s@),
        None => None,
    }
}

pub open spec fn lutff_view(l: PackedLutFf) -> LutFfModel {
    LutFfModel {
        lut: l.lut_cell@,
        ff: l.ff_cell@,
        init: l.init,
        pins: l.lut_pins@.map_values(|p: (u8, String)| (p.0, p.1@)),
        q: l.q_net@,
    }
}

pub open spec fn iob_view(i: PackedIob) -> IobModel {
    IobModel {
        cell: i.cell@,
        from_net: i.from_net@,
        loc: opt_str_view(i.loc),
        drive: opt_str_view(i.drive),
        slew: opt_str_view(i.slew),
        pulltype: opt_str_view(i.pulltype),
        diff_term: opt_str_view(i.diff_term),
        in_term: opt_str_view(i.in_term),
    }
}

pub open spec fn packed_view(p: Packed) -> PackedModel {
    PackedModel {
        lutffs: p.lutffs@.map_values(|l: PackedLutFf| lutff_view(l)),
        iobs: p.iobs@.map_values(|i: PackedIob| iob_view(i)),
        macs: p.macs@.map_values(|m: PackedMac| m.cell@),
        brams: p.brams@.map_values(|b: PackedBram| (b.cell@, b.init@)),
    }
}

// ---------------------------------------------------------------------------
// The packer
// ---------------------------------------------------------------------------

fn opt_owned(o: Option<&str>) -> (r: Option<String>)
    ensures
        opt_str_view(r) == match o {
            Some(s) => Some(s@),
            None => None::<Seq<char>>,
        },
{
    match o {
        Some(s) => Some(text::owned(s)),
        None => None,
    }
}

/// Cell `k` is a flip-flop whose `D` is on net `n`.
pub open spec fn hff_d_on(d: Design, k: int, n: Seq<char>) -> bool {
    d.cells@[k].kind is Hff && pin_net(d.nets@, d.cells@[k].name@, "D"@) == Some(n)
}

proof fn lemma_d_ff_first(d: Design, n: Seq<char>, i: int, j: int)
    requires
        0 <= i <= j < d.cells@.len(),
        hff_d_on(d, j, n),
        forall|k: int| i <= k < j ==> !hff_d_on(d, k, n),
    ensures
        d_ff_from(d, n, i) == Some(d.cells@[j]),
    decreases j - i,
{
    if i < j {
        assert(!hff_d_on(d, i, n));
        lemma_d_ff_first(d, n, i + 1, j);
    } else {
        assert(hff_d_on(d, j, n));
    }
}

proof fn lemma_d_ff_none(d: Design, n: Seq<char>, i: int)
    requires
        0 <= i <= d.cells@.len(),
        forall|k: int| i <= k < d.cells@.len() ==> !hff_d_on(d, k, n),
    ensures
        d_ff_from(d, n, i) is None,
    decreases d.cells@.len() - i,
{
    if i < d.cells@.len() {
        assert(!hff_d_on(d, i, n));
        lemma_d_ff_none(d, n, i + 1);
    }
}

/// Net name → the first flip-flop whose `D` is on it.
fn d_driver_map(d: &Design, dmap: &StringHashMap<usize>) -> (dd: StringHashMap<usize>)
    requires
        pin_map_ok(dmap@, d.nets@, "D"@),
    ensures
        forall|n: Seq<char>|
            #![trigger dd@.contains_key(n)]
            (dd@.contains_key(n) <==> d_ff_from(*d, n, 0) is Some) && (dd@.contains_key(n) ==> dd@[n]
                < d.cells@.len() && d_ff_from(*d, n, 0) == Some(d.cells@[dd@[n] as int])),
{
    let mut dd: StringHashMap<usize> = StringHashMap::new();
    let mut k: usize = 0;
    while k < d.cells.len()
        invariant
            k <= d.cells@.len(),
            pin_map_ok(dmap@, d.nets@, "D"@),
            forall|n: Seq<char>|
                #![trigger dd@.contains_key(n)]
                (dd@.contains_key(n) <==> exists|q: int| 0 <= q < k && #[trigger] hff_d_on(*d, q, n)) && (
                dd@.contains_key(n) ==> dd@[n] < k && hff_d_on(*d, dd@[n] as int, n) && forall|q: int|
                    0 <= q < dd@[n] ==> !#[trigger] hff_d_on(*d, q, n)),
        decreases d.cells@.len() - k,
    {
        let c = &d.cells[k];
        match c.kind {
            CellKind::Hff => {
                match net_via(d, dmap, c.name.as_str(), Ghost("D"@)) {
                    Some(n) => {
                        if !dd.contains_key(n) {
                            dd.insert(text::owned(n), k);
                            proof {
                                assert(hff_d_on(*d, k as int, n@));
                            }
                        }
                    },
                    None => {},
                }
            },
            _ => {},
        }
        proof {
            assert forall|n: Seq<char>|
                #![trigger dd@.contains_key(n)]
                (dd@.contains_key(n) <==> exists|q: int| 0 <= q < k + 1 && #[trigger] hff_d_on(*d, q, n)) && (
                dd@.contains_key(n) ==> dd@[n] < k + 1 && hff_d_on(*d, dd@[n] as int, n) && forall|q: int|
                    0 <= q < dd@[n] ==> !#[trigger] hff_d_on(*d, q, n)) by {
                if exists|q: int| 0 <= q < k + 1 && #[trigger] hff_d_on(*d, q, n) {
                    let q = choose|q: int| 0 <= q < k + 1 && #[trigger] hff_d_on(*d, q, n);
                    if q < k {
                        assert(exists|q2: int| 0 <= q2 < k && #[trigger] hff_d_on(*d, q2, n));
                    }
                }
            }
        }
        k = k + 1;
    }
    proof {
        assert forall|n: Seq<char>|
            #![trigger dd@.contains_key(n)]
            (dd@.contains_key(n) <==> d_ff_from(*d, n, 0) is Some) && (dd@.contains_key(n) ==> dd@[n]
                < d.cells@.len() && d_ff_from(*d, n, 0) == Some(d.cells@[dd@[n] as int])) by {
            if dd@.contains_key(n) {
                lemma_d_ff_first(*d, n, 0, dd@[n] as int);
            } else {
                lemma_d_ff_none(*d, n, 0);
            }
        }
    }
    dd
}

/// Net name → the last flip-flop whose `Q` is on it.
fn q_driver_map(d: &Design, qmap: &StringHashMap<usize>) -> (qq: StringHashMap<usize>)
    requires
        pin_map_ok(qmap@, d.nets@, "Q"@),
    ensures
        forall|n: Seq<char>|
            #![trigger qq@.contains_key(n)]
            (qq@.contains_key(n) <==> q_driver(*d, n) is Some) && (qq@.contains_key(n) ==> qq@[n] < d.cells@.len()
                && q_driver(*d, n) == Some(d.cells@[qq@[n] as int].name@)),
{
    let mut qq: StringHashMap<usize> = StringHashMap::new();
    let mut k: usize = 0;
    while k < d.cells.len()
        invariant
            k <= d.cells@.len(),
            pin_map_ok(qmap@, d.nets@, "Q"@),
            forall|n: Seq<char>|
                #![trigger qq@.contains_key(n)]
                (qq@.contains_key(n) <==> q_ff_upto(*d, n, k as int) is Some) && (qq@.contains_key(n) ==> qq@[n] < k
                    && q_ff_upto(*d, n, k as int) == Some(d.cells@[qq@[n] as int].name@)),
        decreases d.cells@.len() - k,
    {
        let c = &d.cells[k];
        match c.kind {
            CellKind::Hff => {
                match net_via(d, qmap, c.name.as_str(), Ghost("Q"@)) {
                    Some(n) => {
                        qq.insert(text::owned(n), k);
                    },
                    None => {},
                }
            },
            _ => {},
        }
        proof {
            assert forall|n: Seq<char>|
                #![trigger qq@.contains_key(n)]
                (qq@.contains_key(n) <==> q_ff_upto(*d, n, k + 1) is Some) && (qq@.contains_key(n) ==> qq@[n] < k + 1
                    && q_ff_upto(*d, n, k + 1) == Some(d.cells@[qq@[n] as int].name@)) by {
                assert(q_ff_upto(*d, n, k + 1) == if d.cells@[k as int].kind is Hff && pin_net(
                    d.nets@,
                    d.cells@[k as int].name@,
                    "Q"@,
                ) == Some(n) {
                    Some(d.cells@[k as int].name@)
                } else {
                    q_ff_upto(*d, n, k as int)
                });
            }
        }
        k = k + 1;
    }
    qq
}

fn q_driver_via<'a>(d: &'a Design, qq: &StringHashMap<usize>, n: &str) -> (r: Option<&'a str>)
    requires
        forall|x: Seq<char>|
            #![trigger qq@.contains_key(x)]
            (qq@.contains_key(x) <==> q_driver(*d, x) is Some) && (qq@.contains_key(x) ==> qq@[x] < d.cells@.len()
                && q_driver(*d, x) == Some(d.cells@[qq@[x] as int].name@)),
    ensures
        match q_driver(*d, n@) {
            Some(c) => r matches Some(s) && s@ == c,
            None => r is None,
        },
{
    assert(qq@.contains_key(n@) <==> q_driver(*d, n@) is Some);
    match qq.get(n) {
        Some(ip) => Some(d.cells[*ip].name.as_str()),
        None => None,
    }
}

/// The six `I<p>` pin maps.
fn input_maps(d: &Design) -> (ms: Vec<StringHashMap<usize>>)
    ensures
        ms@.len() == 6,
        forall|p: int| 0 <= p < 6 ==> pin_map_ok(#[trigger] ms@[p]@, d.nets@, input_pin(p as nat)),
{
    let mut ms: Vec<StringHashMap<usize>> = Vec::new();
    let mut p: u8 = 0;
    while p < 6
        invariant
            p <= 6,
            ms@.len() == p,
            forall|q: int| 0 <= q < p ==> pin_map_ok(#[trigger] ms@[q]@, d.nets@, input_pin(q as nat)),
        decreases 6 - p,
    {
        let mut pn = text::chars_of("I");
        text::push_u64(&mut pn, p as u64);
        proof {
            reveal_strlit("I");
            assert(pn@ =~= input_pin(p as nat));
        }
        let pin = text::string_of(pn.as_slice());
        ms.push(d.pin_map(pin.as_str()));
        p = p + 1;
    }
    ms
}

fn lut_sources_exec(d: &Design, ms: &Vec<StringHashMap<usize>>, qq: &StringHashMap<usize>, cell: &str) -> (r: Vec<
    (u8, String),
>)
    requires
        ms@.len() == 6,
        forall|p: int| 0 <= p < 6 ==> pin_map_ok(#[trigger] ms@[p]@, d.nets@, input_pin(p as nat)),
        forall|x: Seq<char>|
            #![trigger qq@.contains_key(x)]
            (qq@.contains_key(x) <==> q_driver(*d, x) is Some) && (qq@.contains_key(x) ==> qq@[x] < d.cells@.len()
                && q_driver(*d, x) == Some(d.cells@[qq@[x] as int].name@)),
    ensures
        r@.map_values(|p: (u8, String)| (p.0, p.1@)) == lut_sources(*d, cell@, 6),
{
    let mut r: Vec<(u8, String)> = Vec::new();
    let mut p: u8 = 0;
    while p < 6
        invariant
            p <= 6,
            ms@.len() == 6,
            forall|q: int| 0 <= q < 6 ==> pin_map_ok(#[trigger] ms@[q]@, d.nets@, input_pin(q as nat)),
            forall|x: Seq<char>|
                #![trigger qq@.contains_key(x)]
                (qq@.contains_key(x) <==> q_driver(*d, x) is Some) && (qq@.contains_key(x) ==> qq@[x] < d.cells@.len()
                    && q_driver(*d, x) == Some(d.cells@[qq@[x] as int].name@)),
            r@.map_values(|x: (u8, String)| (x.0, x.1@)) == lut_sources(*d, cell@, p as nat),
        decreases 6 - p,
    {
        assert(pin_map_ok(ms@[p as int]@, d.nets@, input_pin(p as nat)));
        match net_via(d, &ms[p as usize], cell, Ghost(input_pin(p as nat))) {
            Some(net) => match q_driver_via(d, qq, net) {
                Some(src) => {
                    r.push((p, text::owned(src)));
                },
                None => {},
            },
            None => {},
        }
        assert(r@.map_values(|x: (u8, String)| (x.0, x.1@)) =~= lut_sources(*d, cell@, (p + 1) as nat));
        p = p + 1;
    }
    r
}

fn lutffs_exec(d: &Design) -> (r: Vec<PackedLutFf>)
    ensures
        r@.map_values(|l: PackedLutFf| lutff_view(l)) == lutff_fold(*d, d.cells@.len() as int).0,
{
    let omap = d.pin_map("O");
    let dmap = d.pin_map("D");
    let qmap = d.pin_map("Q");
    let dd = d_driver_map(d, &dmap);
    let qq = q_driver_map(d, &qmap);
    let ms = input_maps(d);
    let mut r: Vec<PackedLutFf> = Vec::new();
    let mut used = StringHashSet::new();
    let mut i: usize = 0;
    while i < d.cells.len()
        invariant
            i <= d.cells@.len(),
            pin_map_ok(omap@, d.nets@, "O"@),
            pin_map_ok(qmap@, d.nets@, "Q"@),
            forall|n: Seq<char>|
                #![trigger dd@.contains_key(n)]
                (dd@.contains_key(n) <==> d_ff_from(*d, n, 0) is Some) && (dd@.contains_key(n) ==> dd@[n]
                    < d.cells@.len() && d_ff_from(*d, n, 0) == Some(d.cells@[dd@[n] as int])),
            forall|x: Seq<char>|
                #![trigger qq@.contains_key(x)]
                (qq@.contains_key(x) <==> q_driver(*d, x) is Some) && (qq@.contains_key(x) ==> qq@[x] < d.cells@.len()
                    && q_driver(*d, x) == Some(d.cells@[qq@[x] as int].name@)),
            ms@.len() == 6,
            forall|p: int| 0 <= p < 6 ==> pin_map_ok(#[trigger] ms@[p]@, d.nets@, input_pin(p as nat)),
            r@.map_values(|l: PackedLutFf| lutff_view(l)) == lutff_fold(*d, i as int).0,
            used@ == lutff_fold(*d, i as int).1,
        decreases d.cells@.len() - i,
    {
        let c = &d.cells[i];
        let ghost before = r@;
        match c.kind {
            CellKind::Lut6 { init } => {
                match net_via(d, &omap, c.name.as_str(), Ghost("O"@)) {
                    Some(o) => {
                        assert(dd@.contains_key(o@) <==> d_ff_from(*d, o@, 0) is Some);
                        let ffn: Option<&str> = match dd.get(o) {
                            Some(fi) => {
                                let nm = d.cells[*fi].name.as_str();
                                if used.contains(nm) {
                                    None
                                } else {
                                    Some(nm)
                                }
                            },
                            None => None,
                        };
                        let pins = lut_sources_exec(d, &ms, &qq, c.name.as_str());
                        let (ff_cell, q_net) = match ffn {
                            Some(n) => {
                                let q = match net_via(d, &qmap, n, Ghost("Q"@)) {
                                    Some(q) => text::owned(q),
                                    None => String::new(),
                                };
                                used.insert(text::owned(n));
                                (text::owned(n), q)
                            },
                            None => (String::new(), text::owned(o)),
                        };
                        r.push(PackedLutFf { lut_cell: text::owned(c.name.as_str()), ff_cell, init, lut_pins: pins, q_net });
                        proof {
                            assert(r@.map_values(|l: PackedLutFf| lutff_view(l)) =~= before.map_values(
                                |l: PackedLutFf| lutff_view(l),
                            ).push(lutff_view(r@.last())));
                            assert(lutff_view(r@.last()) =~= lutff_fold(*d, i + 1).0.last());
                            assert(r@.map_values(|l: PackedLutFf| lutff_view(l)) =~= lutff_fold(*d, i + 1).0);
                        }
                    },
                    None => {},
                }
            },
            _ => {},
        }
        i = i + 1;
    }
    r
}

fn port_named_exec<'a>(d: &'a Design, n: &str) -> (r: Option<&'a Port>)
    ensures
        match port_named(d.ports@, n@, 0) {
            Some(p) => r matches Some(q) && *q == p,
            None => r is None,
        },
{
    let mut i: usize = 0;
    while i < d.ports.len()
        invariant
            i <= d.ports@.len(),
            port_named(d.ports@, n@, 0) == port_named(d.ports@, n@, i as int),
        decreases d.ports@.len() - i,
    {
        if text::str_eq(d.ports[i].name.as_str(), n) {
            return Some(&d.ports[i]);
        }
        i = i + 1;
    }
    None
}

fn port_attr_exec(p: Option<&Port>, k: &str) -> (r: Option<String>)
    ensures
        opt_str_view(r) == port_attr(
            match p {
                Some(q) => Some(*q),
                None => None,
            },
            k@,
        ),
{
    match p {
        Some(q) => opt_owned(q.attrs.get(k)),
        None => None,
    }
}

fn iob_error(name: &str) -> (r: String)
    ensures
        r@ == "IOB "@ + name@ + " has no I net"@,
{
    let mut v = text::chars_of("IOB ");
    text::push_str(&mut v, name);
    text::push_str(&mut v, " has no I net");
    text::string_of(v.as_slice())
}

fn iobs_exec(d: &Design) -> (r: Result<Vec<PackedIob>, String>)
    ensures
        match iob_fold(*d, d.cells@.len() as int) {
            Ok(m) => r matches Ok(v) && v@.map_values(|i: PackedIob| iob_view(i)) == m,
            Err(e) => r matches Err(x) && x@ == e,
        },
{
    let imap = d.pin_map("I");
    let padmap = d.pin_map("PAD");
    let mut r: Vec<PackedIob> = Vec::new();
    let mut i: usize = 0;
    assert(r@.map_values(|x: PackedIob| iob_view(x)) =~= Seq::<IobModel>::empty());
    while i < d.cells.len()
        invariant
            i <= d.cells@.len(),
            iob_fold(*d, i as int) == Ok::<Seq<IobModel>, Seq<char>>(r@.map_values(|x: PackedIob| iob_view(x))),
            pin_map_ok(imap@, d.nets@, "I"@),
            pin_map_ok(padmap@, d.nets@, "PAD"@),
        decreases d.cells@.len() - i,
    {
        let c = &d.cells[i];
        let ghost before = r@;
        match c.kind {
            CellKind::IobOut => {
                let net = match net_via(d, &imap, c.name.as_str(), Ghost("I"@)) {
                    Some(n) => n,
                    None => {
                        let e = iob_error(c.name.as_str());
                        proof {
                            lemma_iob_fold_err(*d, i + 1, e@);
                        }
                        return Err(e);
                    },
                };
                let pad = match net_via(d, &padmap, c.name.as_str(), Ghost("PAD"@)) {
                    Some(p) => p,
                    None => "",
                };
                proof {
                    reveal_strlit("");
                    assert(pad@ == or_empty(pin_net(d.nets@, c.name@, "PAD"@)));
                }
                let port = port_named_exec(d, pad);
                let ghost pp: Option<Port> = match port {
                    Some(q) => Some(*q),
                    None => None,
                };
                assert(pp == pad_port(*d, c.name@));
                r.push(
                    PackedIob {
                        cell: text::owned(c.name.as_str()),
                        from_net: text::owned(net),
                        loc: port_attr_exec(port, "LOC"),
                        drive: port_attr_exec(port, "DRIVE"),
                        slew: port_attr_exec(port, "SLEW"),
                        pulltype: port_attr_exec(port, "PULLTYPE"),
                        diff_term: port_attr_exec(port, "DIFF_TERM"),
                        in_term: port_attr_exec(port, "IN_TERM"),
                    },
                );
                proof {
                    assert(iob_view(r@.last()) =~= match iob_fold(*d, i + 1) {
                        Ok(m) => m.last(),
                        Err(_) => iob_view(r@.last()),
                    });
                    assert(r@.map_values(|x: PackedIob| iob_view(x)) =~= before.map_values(|x: PackedIob| iob_view(x)).push(
                        iob_view(r@.last()),
                    ));
                }
            },
            _ => {},
        }
        i = i + 1;
    }
    Ok(r)
}

/// Once an error is met, the fold keeps it.
proof fn lemma_iob_fold_err(d: Design, k: int, e: Seq<char>)
    requires
        1 <= k <= d.cells@.len(),
        iob_fold(d, k) == Err::<Seq<IobModel>, Seq<char>>(e),
    ensures
        iob_fold(d, d.cells@.len() as int) == Err::<Seq<IobModel>, Seq<char>>(e),
    decreases d.cells@.len() - k,
{
    if k < d.cells@.len() {
        lemma_iob_fold_err(d, k + 1, e);
    }
}

fn macs_exec(d: &Design) -> (r: Vec<PackedMac>)
    ensures
        r@.map_values(|m: PackedMac| m.cell@) == mac_cells(d.cells@),
{
    let mut r: Vec<PackedMac> = Vec::new();
    let mut i: usize = 0;
    while i < d.cells.len()
        invariant
            i <= d.cells@.len(),
            r@.map_values(|m: PackedMac| m.cell@) == mac_cells(d.cells@.subrange(0, i as int)),
        decreases d.cells@.len() - i,
    {
        assert(d.cells@.subrange(0, i + 1).drop_last() =~= d.cells@.subrange(0, i as int));
        let c = &d.cells[i];
        match c.kind {
            CellKind::Mac27 => {
                r.push(PackedMac { cell: text::owned(c.name.as_str()) });
            },
            _ => {},
        }
        assert(r@.map_values(|m: PackedMac| m.cell@) =~= mac_cells(d.cells@.subrange(0, i + 1)));
        i = i + 1;
    }
    assert(d.cells@.subrange(0, d.cells@.len() as int) =~= d.cells@);
    r
}

fn bram_init_exec(c: &Cell) -> (r: Vec<u64>)
    ensures
        r@ == bram_init(*c),
{
    let s = match c.attrs.get("INIT") {
        Some(v) => text::chars_of(v),
        None => Vec::new(),
    };
    assert(s@ == or_empty(c.attrs.lookup("INIT"@)));
    let ghost fs = comma_fields(s@, 0);
    let mut r: Vec<u64> = Vec::new();
    let mut i: usize = 0;
    loop
        invariant
            i <= s@.len(),
            fs == comma_fields(s@, 0),
            s@ == or_empty(c.attrs.lookup("INIT"@)),
            hex_words(fs) == r@ + hex_words(comma_fields(s@, i as int)),
        decreases s@.len() + 1 - i,
    {
        let j = text::find_char(&s, ',', i);
        proof {
            text::lemma_find_char_ge(s@, ',', i as int);
        }
        let f = text::slice(&s, i, j);
        let ghost rest = comma_fields(s@, j + 1);
        assert(comma_fields(s@, i as int) == seq![f@] + rest);
        assert((seq![f@] + rest).drop_first() =~= rest);
        if f.len() > 0 {
            let t = text::trim_chars(&f);
            let w = match text::parse_hex(&t) {
                Some(n) => n,
                None => 0,
            };
            r.push(w);
        }
        assert(hex_words(fs) =~= r@ + hex_words(rest));
        if j >= s.len() {
            assert(rest =~= Seq::<Seq<char>>::empty());
            assert(r@ + hex_words(rest) =~= r@);
            return r;
        }
        i = j + 1;
    }
}

fn brams_exec(d: &Design) -> (r: Vec<PackedBram>)
    ensures
        r@.map_values(|b: PackedBram| (b.cell@, b.init@)) == bram_cells(d.cells@),
{
    let mut r: Vec<PackedBram> = Vec::new();
    let mut i: usize = 0;
    while i < d.cells.len()
        invariant
            i <= d.cells@.len(),
            r@.map_values(|b: PackedBram| (b.cell@, b.init@)) == bram_cells(d.cells@.subrange(0, i as int)),
        decreases d.cells@.len() - i,
    {
        assert(d.cells@.subrange(0, i + 1).drop_last() =~= d.cells@.subrange(0, i as int));
        let c = &d.cells[i];
        match c.kind {
            CellKind::Bram18 => {
                let init = bram_init_exec(c);
                r.push(PackedBram { cell: text::owned(c.name.as_str()), init });
            },
            _ => {},
        }
        assert(r@.map_values(|b: PackedBram| (b.cell@, b.init@)) =~= bram_cells(d.cells@.subrange(0, i + 1)));
        i = i + 1;
    }
    assert(d.cells@.subrange(0, d.cells@.len() as int) =~= d.cells@);
    r
}

/// Packs `design`: each LUT with an output net becomes a LUTFF cluster
/// (taking the first not-yet-used flip-flop on that net's `D`, or none for a
/// combinational LUT), each output IOB takes the electrical attributes of its
/// PAD port, and MAC27 / BRAM18 cells map one to one. An output IOB without
/// an `I` net is an error.
pub fn pack(design: &Design) -> (r: Result<Packed, String>)
    ensures
        match pack_result(*design) {
            Ok(m) => r matches Ok(p) && packed_view(p) == m,
            Err(e) => r matches Err(x) && x@ == e,
        },
{
    let lutffs = lutffs_exec(design);
    let iobs = match iobs_exec(design) {
        Ok(v) => v,
        Err(e) => {
            return Err(e);
        },
    };
    let macs = macs_exec(design);
    let brams = brams_exec(design);
    let p = Packed { lutffs, iobs, macs, brams };
    assert(packed_view(p) =~= pack_result(*design)->Ok_0);
    Ok(p)
}

/// The port a map of ports by name (a later port wins) gives for `n`.
pub open spec fn last_port_named(ps: Seq<Port>, n: Seq<char>) -> Option<Port>
    decreases ps.len(),
{
    if ps.len() == 0 {
        None
    } else if ps.last().name@ == n {
        Some(ps.last())
    } else {
        last_port_named(ps.drop_last(), n)
    }
}

/// An IOB with the electrical attributes of port `p` when there is one.
pub open spec fn with_electrical(i: IobModel, p: Option<Port>) -> IobModel {
    match p {
        Some(_) => IobModel {
            drive: port_attr(p, "DRIVE"@),
            slew: port_attr(p, "SLEW"@),
            pulltype: port_attr(p, "PULLTYPE"@),
            diff_term: port_attr(p, "DIFF_TERM"@),
            in_term: port_attr(p, "IN_TERM"@),
            ..i
        },
        None => i,
    }
}

fn last_port_exec<'a>(d: &'a Design, n: &str) -> (r: Option<&'a Port>)
    ensures
        match last_port_named(d.ports@, n@) {
            Some(p) => r matches Some(q) && *q == p,
            None => r is None,
        },
{
    let mut k: usize = d.ports.len();
    assert(d.ports@.subrange(0, k as int) =~= d.ports@);
    while k > 0
        invariant
            k <= d.ports@.len(),
            last_port_named(d.ports@, n@) == last_port_named(d.ports@.subrange(0, k as int), n@),
        decreases k,
    {
        assert(d.ports@.subrange(0, k as int).drop_last() =~= d.ports@.subrange(0, k - 1));
        if text::str_eq(d.ports[k - 1].name.as_str(), n) {
            return Some(&d.ports[k - 1]);
        }
        k = k - 1;
    }
    None
}

/// Copy port DRIVE / SLEW / PULLTYPE / DIFF_TERM / IN_TERM onto packed IOBs
/// (post-pack `set_property`): each IOB takes them from the port named like
/// the net on its `PAD` pin.
pub fn apply_iob_electrical(design: &Design, iobs: &mut Vec<PackedIob>)
    ensures
        final(iobs)@.len() == old(iobs)@.len(),
        forall|k: int| 0 <= k < old(iobs)@.len() ==> iob_view(#[trigger] final(iobs)@[k]) == with_electrical(
            iob_view(old(iobs)@[k]),
            last_port_named(design.ports@, or_empty(pin_net(design.nets@, old(iobs)@[k].cell@, "PAD"@))),
        ),
{
    let ghost o = iobs@;
    let mut k: usize = 0;
    while k < iobs.len()
        invariant
            k <= iobs@.len(),
            iobs@.len() == o.len(),
            forall|q: int| k <= q < o.len() ==> iobs@[q] == o[q],
            forall|q: int| 0 <= q < k ==> iob_view(#[trigger] iobs@[q]) == with_electrical(
                iob_view(o[q]),
                last_port_named(design.ports@, or_empty(pin_net(design.nets@, o[q].cell@, "PAD"@))),
            ),
        decreases iobs@.len() - k,
    {
        let pad = match pin_net_exec(design, iobs[k].cell.as_str(), "PAD") {
            Some(p) => p,
            None => "",
        };
        proof {
            reveal_strlit("");
            assert(pad@ == or_empty(pin_net(design.nets@, o[k as int].cell@, "PAD"@)));
        }
        let ghost before = iobs@;
        match last_port_exec(design, pad) {
            Some(p) => {
                let ghost pp: Option<Port> = Some(*p);
                let drive = opt_owned(p.attrs.get("DRIVE"));
                let slew = opt_owned(p.attrs.get("SLEW"));
                let pulltype = opt_owned(p.attrs.get("PULLTYPE"));
                let diff_term = opt_owned(p.attrs.get("DIFF_TERM"));
                let in_term = opt_owned(p.attrs.get("IN_TERM"));
                iobs[k].drive = drive;
                iobs[k].slew = slew;
                iobs[k].pulltype = pulltype;
                iobs[k].diff_term = diff_term;
                iobs[k].in_term = in_term;
                assert(iob_view(iobs@[k as int]) =~= with_electrical(iob_view(o[k as int]), pp));
                assert forall|q: int| 0 <= q < iobs@.len() && q != k implies iobs@[q] == before[q] by {}
            },
            None => {},
        }
        k = k + 1;
    }
}


proof fn lemma_q_ff_upto(d: Design, n: Seq<char>, k: int, f: int)
    requires
        0 <= k <= d.cells@.len(),
        0 <= f < k,
        d.cells@[f].kind is Hff,
        pin_net(d.nets@, d.cells@[f].name@, "Q"@) == Some(n),
    ensures
        q_ff_upto(d, n, k) is Some,
    decreases k,
{
    if f < k - 1 {
        if !(d.cells@[k - 1].kind is Hff && pin_net(d.nets@, d.cells@[k - 1].name@, "Q"@) == Some(n)) {
            lemma_q_ff_upto(d, n, k - 1, f);
        }
    }
}

proof fn lemma_q_ff_upto_is_ff(d: Design, n: Seq<char>, k: int)
    requires
        0 <= k <= d.cells@.len(),
        q_ff_upto(d, n, k) is Some,
    ensures
        exists|g: int| 0 <= g < k && (#[trigger] d.cells@[g]).kind is Hff && d.cells@[g].name@ == q_ff_upto(d, n, k)->0
            && pin_net(d.nets@, d.cells@[g].name@, "Q"@) == Some(n),
    decreases k,
{
    if !(d.cells@[k - 1].kind is Hff && pin_net(d.nets@, d.cells@[k - 1].name@, "Q"@) == Some(n)) {
        lemma_q_ff_upto_is_ff(d, n, k - 1);
        let g = choose|g: int| 0 <= g < k - 1 && (#[trigger] d.cells@[g]).kind is Hff && d.cells@[g].name@ == q_ff_upto(d, n, k - 1)->0
            && pin_net(d.nets@, d.cells@[g].name@, "Q"@) == Some(n);
        assert(0 <= g < k);
    } else {
        assert(d.cells@[k - 1].name@ == q_ff_upto(d, n, k)->0);
    }
}

proof fn lemma_lut_sources_has(d: Design, cell: Seq<char>, k: nat, p: nat, src: Seq<char>)
    requires
        p < k,
        pin_net(d.nets@, cell, input_pin(p)) matches Some(net) && q_driver(d, net) == Some(src),
    ensures
        lut_sources(d, cell, k).contains((p as u8, src)),
    decreases k,
{
    let q = (k - 1) as nat;
    if p < q {
        lemma_lut_sources_has(d, cell, q, p, src);
        let prev = lut_sources(d, cell, q);
        let i = choose|i: int| 0 <= i < prev.len() && prev[i] == (p as u8, src);
        assert(lut_sources(d, cell, k)[i] == prev[i]);
    } else {
        let prev = lut_sources(d, cell, q);
        assert(lut_sources(d, cell, k)[prev.len() as int] == (p as u8, src));
    }
}

proof fn lemma_lutff_fold_pins(d: Design, k: int, j: int)
    requires
        0 <= j < lutff_fold(d, k).0.len(),
    ensures
        lutff_fold(d, k).0[j].pins == lut_sources(d, lutff_fold(d, k).0[j].lut, 6),
    decreases k,
{
    if 0 < k <= d.cells@.len() {
        let prev = lutff_fold(d, k - 1).0;
        if j < prev.len() {
            lemma_lutff_fold_pins(d, k - 1, j);
        }
    }
}

/// Packing keeps every flip-flop-driven LUT input: for each packed LUTFF
/// cluster and each of its LUT inputs `I0..I5` whose net is driven by the `Q`
/// of a flip-flop, the cluster lists that pin with a flip-flop whose `Q` is
/// on that net.
pub proof fn packed_lut_keeps_ff_inputs(d: Design, m: PackedModel, j: int, p: nat, f: int)
    requires
        pack_result(d) == Ok::<PackedModel, Seq<char>>(m),
        0 <= j < m.lutffs.len(),
        p < 6,
        0 <= f < d.cells@.len(),
        d.cells@[f].kind is Hff,
        pin_net(d.nets@, m.lutffs[j].lut, input_pin(p)) is Some,
        pin_net(d.nets@, d.cells@[f].name@, "Q"@) == pin_net(d.nets@, m.lutffs[j].lut, input_pin(p)),
    ensures
        exists|e: int| 0 <= e < m.lutffs[j].pins.len() && (#[trigger] m.lutffs[j].pins[e]).0 == p as u8
            && exists|g: int| 0 <= g < d.cells@.len() && (#[trigger] d.cells@[g]).kind is Hff
                && d.cells@[g].name@ == m.lutffs[j].pins[e].1
                && pin_net(d.nets@, d.cells@[g].name@, "Q"@) == pin_net(d.nets@, m.lutffs[j].lut, input_pin(p)),
{
    let lut = m.lutffs[j].lut;
    let net = pin_net(d.nets@, lut, input_pin(p))->Some_0;
    let n = d.cells@.len() as int;
    lemma_q_ff_upto(d, net, n, f);
    lemma_q_ff_upto_is_ff(d, net, n);
    let src = q_driver(d, net)->Some_0;
    lemma_lutff_fold_pins(d, n, j);
    lemma_lut_sources_has(d, lut, 6, p, src);
    let pins = m.lutffs[j].pins;
    let e = choose|e: int| 0 <= e < pins.len() && pins[e] == (p as u8, src);
    let g = choose|g: int| 0 <= g < n && (#[trigger] d.cells@[g]).kind is Hff && d.cells@[g].name@ == src
        && pin_net(d.nets@, d.cells@[g].name@, "Q"@) == Some(net);
    assert(0 <= e < pins.len() && pins[e].0 == p as u8);
}

} // verus!
