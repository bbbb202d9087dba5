//! Placement of packed clusters onto device sites.

use vstd::prelude::*;
use crate::text;
use crate::pack::{Packed, PackedIob, PackedLutFf};
use crate::route::Placed;

verus! {

/// The sites of a device that placement reads, as plain values.
#[derive(Clone, Debug)]
pub struct DeviceSites {
    pub clb: Vec<(u32, u32)>,
    pub iob: Vec<(u32, u32)>,
    pub dsp: Vec<(u32, u32)>,
    pub bram: Vec<(u32, u32)>,
    /// BLEs per CLB site.
    pub n_ble: u8,
}

/// BLEs per CLB, at least one.
pub open spec fn ble_count(d: DeviceSites) -> u8 {
    if d.n_ble < 1 { 1 } else { d.n_ble }
}

// ---------------------------------------------------------------------------
// IOB sites
// ---------------------------------------------------------------------------

/// The tile an `IOB_X<x>Y<y>` location names, if it parses.
pub open spec fn iob_loc_xy(loc: Seq<char>) -> Option<(u32, u32)> {
    let p = "IOB_X"@;
    if text::starts_with(loc, p) {
        let rest = loc.subrange(p.len() as int, loc.len() as int);
        let k = text::find_char_from(rest, 'Y', 0);
        if k < rest.len() {
            match (text::parse_unsigned(rest.subrange(0, k), u32::MAX as nat),
                   text::parse_unsigned(rest.subrange(k + 1, rest.len() as int), u32::MAX as nat)) {
                (Some(x), Some(y)) => Some((x as u32, y as u32)),
                _ => None,
            }
        } else {
            None
        }
    } else {
        None
    }
}

/// The IOB site of IOB `i`: its LOC when it names a device IOB site (else the
/// error), or the `i`-th device IOB site without a LOC.
pub open spec fn iob_site_for(iob: PackedIob, i: int, all: Seq<(u32, u32)>) -> Result<(u32, u32), Seq<char>> {
    match iob.loc {
        Some(l) => match iob_loc_xy(l@) {
            Some(p) => if all.contains(p) { Ok(p) } else { Err("LOC "@ + l@ + " is not an IOB site"@) },
            None => Err("LOC "@ + l@ + " is not an IOB site"@),
        },
        None => Ok(all[i]),
    }
}

/// The sites of the first `n` IOBs, or the first LOC error.
pub open spec fn iob_plan(iobs: Seq<PackedIob>, all: Seq<(u32, u32)>, n: int) -> Result<Seq<(u32, u32)>, Seq<char>>
    decreases n,
{
    if n <= 0 {
        Ok(Seq::empty())
    } else {
        match iob_plan(iobs, all, n - 1) {
            Err(e) => Err(e),
            Ok(acc) => match iob_site_for(iobs[n - 1], n - 1, all) {
                Err(e) => Err(e),
                Ok(s) => Ok(acc.push(s)),
            },
        }
    }
}

/// How many IOBs are placed: as many as the device has IOB sites for.
pub open spec fn iob_take(p: Packed, d: DeviceSites) -> int {
    if p.iobs@.len() < d.iob@.len() { p.iobs@.len() as int } else { d.iob@.len() as int }
}

proof fn lemma_iob_plan_err(iobs: Seq<PackedIob>, all: Seq<(u32, u32)>, n: int, m: int)
    requires
        0 <= n <= m,
        iob_plan(iobs, all, n) is Err,
    ensures
        iob_plan(iobs, all, m) == iob_plan(iobs, all, n),
    decreases m - n,
{
    if n < m {
        lemma_iob_plan_err(iobs, all, n, m - 1);
    }
}

fn contains_tile(v: &Vec<(u32, u32)>, p: (u32, u32)) -> (r: bool)
    ensures
        r == v@.contains(p),
{
    let mut i: usize = 0;
    while i < v.len()
        invariant
            i <= v@.len(),
            forall|j: int| 0 <= j < i ==> v@[j] != p,
        decreases v@.len() - i,
    {
        if v[i].0 == p.0 && v[i].1 == p.1 {
            return true;
        }
        i = i + 1;
    }
    false
}

fn parse_iob_loc(loc: &str) -> (r: Option<(u32, u32)>)
    ensures
        r == iob_loc_xy(loc@),
{
    proof {
        reveal_strlit("IOB_X");
    }
    let v = text::chars_of(loc);
    if !text::starts_with_str(&v, "IOB_X") {
        return None;
    }
    let rest = text::slice(&v, 5, v.len());
    let k = text::find_char(&rest, 'Y', 0);
    if k >= rest.len() {
        return None;
    }
    let xs = text::slice(&rest, 0, k);
    let ys = text::slice(&rest, k + 1, rest.len());
    let x = text::parse_uint(&xs, u32::MAX as u64);
    let y = text::parse_uint(&ys, u32::MAX as u64);
    match (x, y) {
        (Some(a), Some(b)) => Some((a as u32, b as u32)),
        _ => None,
    }
}

fn iob_site(iob: &PackedIob, i: usize, all: &Vec<(u32, u32)>) -> (r: Result<(u32, u32), String>)
    requires
        i < all@.len(),
    ensures
        match iob_site_for(*iob, i as int, all@) {
            Ok(s) => r == Ok::<(u32, u32), String>(s),
            Err(e) => r matches Err(m) && m@ == e,
        },
{
    match &iob.loc {
        Some(l) => {
            let xy = parse_iob_loc(l.as_str());
            if let Some(p) = xy {
                if contains_tile(all, p) {
                    return Ok(p);
                }
            }
            let mut e = text::chars_of("LOC ");
            text::push_str(&mut e, l.as_str());
            text::push_str(&mut e, " is not an IOB site");
            Err(text::string_of(e.as_slice()))
        },
        None => Ok(all[i]),
    }
}

// ---------------------------------------------------------------------------
// LUTFF slots
// ---------------------------------------------------------------------------

/// A (CLB site, BLE) slot of the device.
pub open spec fn slot_ok(d: DeviceSites, s: ((u32, u32), u8)) -> bool {
    d.clb@.contains(s.0) && s.1 < ble_count(d)
}

/// No two clusters share a (site, BLE) slot.
pub open spec fn slots_distinct(v: Seq<((u32, u32), u8)>) -> bool {
    forall|i: int, j: int| 0 <= i < j < v.len() ==> v[i] != v[j]
}

/// Every slot of the device is taken.
pub open spec fn slots_full(d: DeviceSites, v: Seq<((u32, u32), u8)>) -> bool {
    forall|s: (u32, u32), b: u8| d.clb@.contains(s) && b < ble_count(d) ==> #[trigger] v.contains((s, b))
}

fn slot_used(v: &Vec<((u32, u32), u8)>, s: (u32, u32), b: u8) -> (r: bool)
    ensures
        r == v@.contains((s, b)),
{
    let mut i: usize = 0;
    while i < v.len()
        invariant
            i <= v@.len(),
            forall|j: int| 0 <= j < i ==> v@[j] != (s, b),
        decreases v@.len() - i,
    {
        if v[i].0.0 == s.0 && v[i].0.1 == s.1 && v[i].1 == b {
            return true;
        }
        i = i + 1;
    }
    false
}

/// The first free BLE of site `s`.
fn free_ble(v: &Vec<((u32, u32), u8)>, s: (u32, u32), n: u8) -> (r: Option<u8>)
    ensures
        match r {
            Some(b) => b < n && !v@.contains((s, b)),
            None => forall|b: u8| b < n ==> #[trigger] v@.contains((s, b)),
        },
{
    let mut b: u8 = 0;
    while b < n
        invariant
            b <= n,
            forall|c: u8| c < b ==> #[trigger] v@.contains((s, c)),
        decreases n - b,
    {
        if !slot_used(v, s, b) {
            return Some(b);
        }
        b = b + 1;
    }
    None
}

/// The first free BLE of the CLB site at `(x, y)`, if the device has one there.
fn try_at(d: &DeviceSites, v: &Vec<((u32, u32), u8)>, n: u8, x: u32, y: u32) -> (r: Option<((u32, u32), u8)>)
    ensures
        match r {
            Some(s) => d.clb@.contains(s.0) && s.1 < n && !v@.contains(s) && s.0 == (x, y),
            None => d.clb@.contains((x, y)) ==> forall|b: u8| b < n ==> #[trigger] v@.contains(((x, y), b)),
        },
{
    if !contains_tile(&d.clb, (x, y)) {
        return None;
    }
    match free_ble(v, (x, y), n) {
        Some(b) => Some(((x, y), b)),
        None => None,
    }
}

/// The smallest `y >= lo` of a CLB site in column `x`.
fn next_y(d: &DeviceSites, x: u32, lo: u64) -> (r: Option<u32>)
    ensures
        match r {
            Some(y) => y >= lo && d.clb@.contains((x, y))
                && forall|k: int| 0 <= k < d.clb@.len() && (#[trigger] d.clb@[k]).0 == x && d.clb@[k].1 >= lo ==> d.clb@[k].1 >= y,
            None => forall|k: int| 0 <= k < d.clb@.len() && (#[trigger] d.clb@[k]).0 == x ==> d.clb@[k].1 < lo,
        },
{
    let mut best: Option<u32> = None;
    let mut i: usize = 0;
    while i < d.clb.len()
        invariant
            i <= d.clb@.len(),
            match best {
                Some(y) => y >= lo && d.clb@.contains((x, y))
                    && forall|k: int| 0 <= k < i && (#[trigger] d.clb@[k]).0 == x && d.clb@[k].1 >= lo ==> d.clb@[k].1 >= y,
                None => forall|k: int| 0 <= k < i && (#[trigger] d.clb@[k]).0 == x ==> d.clb@[k].1 < lo,
            },
        decreases d.clb@.len() - i,
    {
        let (sx, sy) = d.clb[i];
        if sx == x && sy as u64 >= lo {
            let better = match best {
                Some(b) => sy < b,
                None => true,
            };
            if better {
                proof {
                    assert(d.clb@[i as int] == (x, sy));
                }
                best = Some(sy);
            }
        }
        i = i + 1;
    }
    best
}

/// The smallest CLB column `x >= lo`.
fn next_x(d: &DeviceSites, lo: u64) -> (r: Option<u32>)
    ensures
        match r {
            Some(x) => x >= lo,
            None => true,
        },
{
    let mut best: Option<u32> = None;
    let mut i: usize = 0;
    while i < d.clb.len()
        invariant
            i <= d.clb@.len(),
            match best {
                Some(x) => x >= lo,
                None => true,
            },
        decreases d.clb@.len() - i,
    {
        let sx = d.clb[i].0;
        if sx as u64 >= lo {
            let better = match best {
                Some(b) => sx < b,
                None => true,
            };
            if better {
                best = Some(sx);
            }
        }
        i = i + 1;
    }
    best
}

/// Number of CLB sites in column `x` at row `y`.
fn sites_at(d: &DeviceSites, x: u32, y: u32) -> (r: usize) {
    let mut n: usize = 0;
    let mut i: usize = 0;
    while i < d.clb.len()
        invariant
            i <= d.clb@.len(),
            n <= i,
        decreases d.clb@.len() - i,
    {
        if d.clb[i].0 == x && d.clb[i].1 == y {
            n = n + 1;
        }
        i = i + 1;
    }
    n
}

/// The base row of column `x`: its southmost site, or its middle site (the
/// site at index len/2 when the column is sorted by row).
fn base_row(d: &DeviceSites, x: u32, south: bool) -> (r: Option<u32>)
    ensures
        r is None ==> forall|k: int| 0 <= k < d.clb@.len() ==> (#[trigger] d.clb@[k]).0 != x,
{
    let mut len: usize = 0;
    let mut i: usize = 0;
    while i < d.clb.len()
        invariant
            i <= d.clb@.len(),
            len <= i,
        decreases d.clb@.len() - i,
    {
        if d.clb[i].0 == x {
            len = len + 1;
        }
        i = i + 1;
    }
    let first = next_y(d, x, 0);
    if south || len == 0 {
        return first;
    }
    let half = len / 2;
    let mut seen: usize = 0;
    let mut lo: u64 = 0;
    while lo <= u32::MAX as u64
        invariant
            first is None ==> forall|k: int| 0 <= k < d.clb@.len() ==> (#[trigger] d.clb@[k]).0 != x,
        decreases u32::MAX as u64 + 1 - lo,
    {
        match next_y(d, x, lo) {
            None => {
                return first;
            },
            Some(y) => {
                let k = sites_at(d, x, y);
                if seen >= half || half - seen < k {
                    return Some(y);
                }
                seen = seen + k;
                lo = y as u64 + 1;
            },
        }
    }
    first
}

/// Rows to try first in column `col_x`, from the already placed drivers:
/// same column or one or two columns off: the driver row, +1, +2, -1, -2;
/// three columns off: the row, +1, -1.
fn affinity_rows(affinity: &Vec<(u32, u32)>, col_x: u32) -> (r: Vec<u32>) {
    let mut ys: Vec<u32> = Vec::new();
    let mut i: usize = 0;
    while i < affinity.len()
        invariant
            i <= affinity@.len(),
        decreases affinity@.len() - i,
    {
        let (sx, sy) = affinity[i];
        let dx: u32 = if sx >= col_x { sx - col_x } else { col_x - sx };
        if dx <= 2 {
            push_new_u32(&mut ys, sy);
            push_new_u32(&mut ys, sy.saturating_add(1));
            push_new_u32(&mut ys, sy.saturating_add(2));
            if sy > 0 {
                push_new_u32(&mut ys, sy - 1);
            }
            if sy > 1 {
                push_new_u32(&mut ys, sy - 2);
            }
        } else if dx == 3 {
            push_new_u32(&mut ys, sy);
            push_new_u32(&mut ys, sy.saturating_add(1));
            if sy > 0 {
                push_new_u32(&mut ys, sy - 1);
            }
        }
        i = i + 1;
    }
    ys
}

fn push_new_u32(v: &mut Vec<u32>, x: u32)
    ensures
        final(v)@ == if old(v)@.contains(x) { old(v)@ } else { old(v)@.push(x) },
{
    let mut i: usize = 0;
    while i < v.len()
        invariant
            i <= v@.len(),
            v@ == old(v)@,
            forall|j: int| 0 <= j < i ==> v@[j] != x,
        decreases v@.len() - i,
    {
        if v[i] == x {
            assert(old(v)@[i as int] == x);
            return;
        }
        i = i + 1;
    }
    v.push(x);
}

/// A free slot in column `col_x`: the affinity rows and the base row first,
/// then every row of the column from south to north.
fn try_column(
    d: &DeviceSites,
    v: &Vec<((u32, u32), u8)>,
    n: u8,
    affinity: &Vec<(u32, u32)>,
    col_x: u32,
    south: bool,
) -> (r: Option<((u32, u32), u8)>)
    ensures
        match r {
            Some(s) => d.clb@.contains(s.0) && s.1 < n && !v@.contains(s) && s.0.0 == col_x,
            None => forall|k: int, b: u8| 0 <= k < d.clb@.len() && d.clb@[k].0 == col_x && b < n
                ==> #[trigger] v@.contains((d.clb@[k], b)),
        },
{
    let base = match base_row(d, col_x, south) {
        Some(y) => y,
        None => {
            return None;
        },
    };
    let mut ys = affinity_rows(affinity, col_x);
    push_new_u32(&mut ys, base);
    let mut i: usize = 0;
    while i < ys.len()
        invariant
            i <= ys@.len(),
        decreases ys@.len() - i,
    {
        let hit = try_at(d, v, n, col_x, ys[i]);
        if hit.is_some() {
            return hit;
        }
        i = i + 1;
    }
    let mut lo: u64 = 0;
    while lo <= u32::MAX as u64
        invariant
            forall|k: int, b: u8| 0 <= k < d.clb@.len() && d.clb@[k].0 == col_x && d.clb@[k].1 < lo && b < n
                ==> #[trigger] v@.contains((d.clb@[k], b)),
        decreases u32::MAX as u64 + 1 - lo,
    {
        match next_y(d, col_x, lo) {
            None => {
                return None;
            },
            Some(y) => {
                let hit = try_at(d, v, n, col_x, y);
                if hit.is_some() {
                    return hit;
                }
                proof {
                    assert forall|k: int, b: u8| 0 <= k < d.clb@.len() && d.clb@[k].0 == col_x && d.clb@[k].1 < y + 1 && b < n
                        implies #[trigger] v@.contains((d.clb@[k], b)) by {
                        if d.clb@[k].1 >= lo {
                            assert(d.clb@[k] == (col_x, y));
                        }
                    }
                }
                lo = y as u64 + 1;
            },
        }
    }
    None
}

/// Any free slot, scanning the CLB sites in list order.
fn any_free_slot(d: &DeviceSites, v: &Vec<((u32, u32), u8)>, n: u8) -> (r: Option<((u32, u32), u8)>)
    ensures
        match r {
            Some(s) => d.clb@.contains(s.0) && s.1 < n && !v@.contains(s),
            None => forall|s: (u32, u32), b: u8| d.clb@.contains(s) && b < n ==> #[trigger] v@.contains((s, b)),
        },
{
    let mut i: usize = 0;
    while i < d.clb.len()
        invariant
            i <= d.clb@.len(),
            forall|k: int, b: u8| 0 <= k < i && b < n ==> #[trigger] v@.contains((d.clb@[k], b)),
        decreases d.clb@.len() - i,
    {
        let s = d.clb[i];
        match free_ble(v, s, n) {
            Some(b) => {
                return Some((s, b));
            },
            None => {},
        }
        i = i + 1;
    }
    proof {
        assert forall|s: (u32, u32), b: u8| d.clb@.contains(s) && b < n implies #[trigger] v@.contains((s, b)) by {
            let k = choose|k: int| 0 <= k < d.clb@.len() && d.clb@[k] == s;
            assert(v@.contains((d.clb@[k], b)));
        }
    }
    None
}


/// The site of the last placed cluster whose FF is `ff`.
/// Some placed cluster's FF is named `name`.
pub open spec fn ff_named(ff_at: Seq<(String, (u32, u32))>, name: Seq<char>) -> bool {
    exists|j: int| 0 <= j < ff_at.len() && (#[trigger] ff_at[j]).0@ == name
}

/// No LUT input of `lf` is driven by a placed cluster's FF.
pub open spec fn no_placed_driver(ff_at: Seq<(String, (u32, u32))>, lf: PackedLutFf) -> bool {
    forall|p: int| 0 <= p < lf.lut_pins@.len() ==> !ff_named(ff_at, (#[trigger] lf.lut_pins@[p]).1@)
}

/// Column `x` has a free (site, BLE) slot.
pub open spec fn column_has_free(d: DeviceSites, v: Seq<((u32, u32), u8)>, n: u8, x: u32) -> bool {
    exists|k: int, b: u8| 0 <= k < d.clb@.len() && d.clb@[k].0 == x && b < n && !(#[trigger] v.contains((d.clb@[k], b)))
}

fn ff_site(ff_at: &Vec<(String, (u32, u32))>, ff: &str) -> (r: Option<(u32, u32)>)
    ensures
        r is Some ==> ff_named(ff_at@, ff@),
{
    let mut i: usize = ff_at.len();
    while i > 0
        invariant
            i <= ff_at@.len(),
        decreases i,
    {
        i = i - 1;
        if text::str_eq(ff_at[i].0.as_str(), ff) {
            assert(ff_at@[i as int].0@ == ff@);
            return Some(ff_at[i].1);
        }
    }
    None
}

/// A slot for cluster `lf`: the columns of its placed drivers (and up to
/// three columns either side), its IOB column and the fallback IOB column
/// first, then every other column from west to east; a full search of all
/// slots when those find none.
fn pick_slot(
    d: &DeviceSites,
    v: &Vec<((u32, u32), u8)>,
    n: u8,
    ff_at: &Vec<(String, (u32, u32))>,
    lf: &PackedLutFf,
    preferred_x: u32,
    fallback_x: u32,
    south: bool,
) -> (r: Option<((u32, u32), u8)>)
    ensures
        match r {
            Some(s) => d.clb@.contains(s.0) && s.1 < n && !v@.contains(s),
            None => forall|s: (u32, u32), b: u8| d.clb@.contains(s) && b < n ==> #[trigger] v@.contains((s, b)),
        },
        no_placed_driver(ff_at@, *lf) && column_has_free(*d, v@, n, preferred_x) ==> (r matches Some(s) && s.0.0 == preferred_x),
{
    let mut affinity: Vec<(u32, u32)> = Vec::new();
    let mut i: usize = 0;
    while i < lf.lut_pins.len()
        invariant
            i <= lf.lut_pins@.len(),
            (forall|p: int| 0 <= p < i ==> !ff_named(ff_at@, (#[trigger] lf.lut_pins@[p]).1@)) ==> affinity@.len() == 0,
        decreases lf.lut_pins@.len() - i,
    {
        if let Some(s) = ff_site(ff_at, lf.lut_pins[i].1.as_str()) {
            affinity.push(s);
        }
        i = i + 1;
    }
    let mut xs: Vec<u32> = Vec::new();
    let mut i: usize = 0;
    while i < affinity.len()
        invariant
            i <= affinity@.len(),
            affinity@.len() == 0 ==> xs@.len() == 0,
        decreases affinity@.len() - i,
    {
        let sx = affinity[i].0;
        push_new_u32(&mut xs, sx);
        push_new_u32(&mut xs, sx.saturating_add(1));
        push_new_u32(&mut xs, sx.saturating_add(2));
        push_new_u32(&mut xs, sx.saturating_add(3));
        if sx > 0 {
            push_new_u32(&mut xs, sx - 1);
        }
        if sx > 1 {
            push_new_u32(&mut xs, sx - 2);
        }
        if sx > 2 {
            push_new_u32(&mut xs, sx - 3);
        }
        i = i + 1;
    }
    let ghost hyp = no_placed_driver(ff_at@, *lf) && column_has_free(*d, v@, n, preferred_x);
    push_new_u32(&mut xs, preferred_x);
    push_new_u32(&mut xs, fallback_x);
    assert(hyp ==> xs@.len() > 0 && xs@[0] == preferred_x);
    let mut i: usize = 0;
    while i < xs.len()
        invariant
            i <= xs@.len(),
            hyp ==> i == 0 && xs@.len() > 0 && xs@[0] == preferred_x,
            hyp == (no_placed_driver(ff_at@, *lf) && column_has_free(*d, v@, n, preferred_x)),
        decreases xs@.len() - i,
    {
        let hit = try_column(d, v, n, &affinity, xs[i], south);
        if hit.is_some() {
            return hit;
        }
        proof {
            if hyp {
                let (k, b) = choose|k: int, b: u8| 0 <= k < d.clb@.len() && d.clb@[k].0 == preferred_x && b < n
                    && !(#[trigger] v@.contains((d.clb@[k], b)));
                assert(v@.contains((d.clb@[k], b)));
            }
        }
        i = i + 1;
    }
    assert(!hyp);
    let mut lo: u64 = 0;
    while lo <= u32::MAX as u64
        invariant
            !hyp,
            hyp == (no_placed_driver(ff_at@, *lf) && column_has_free(*d, v@, n, preferred_x)),
        decreases u32::MAX as u64 + 1 - lo,
    {
        match next_x(d, lo) {
            None => {
                break;
            },
            Some(x) => {
                let mut primary = false;
                let mut k: usize = 0;
                while k < xs.len()
                    invariant
                        k <= xs@.len(),
                    decreases xs@.len() - k,
                {
                    if xs[k] == x {
                        primary = true;
                    }
                    k = k + 1;
                }
                if !primary {
                    let hit = try_column(d, v, n, &affinity, x, south);
                    if hit.is_some() {
                        return hit;
                    }
                }
                lo = x as u64 + 1;
            },
        }
    }
    any_free_slot(d, v, n)
}



/// Cluster `i` has no LUT input driven by the FF of an earlier cluster.
pub open spec fn drivers_unplaced(packed: Packed, i: int) -> bool {
    forall|p: int, k: int|
        #![trigger packed.lutffs@[i].lut_pins@[p], packed.lutffs@[k]]
        0 <= p < packed.lutffs@[i].lut_pins@.len() && 0 <= k < i
            ==> packed.lutffs@[k].ff_cell@ != packed.lutffs@[i].lut_pins@[p].1@
}

/// Some placed IOB (of the first `sites.len()` IOBs) takes net `q`, and every
/// placed IOB on `q` sits in column `x`.
pub open spec fn iob_column_of(iobs: Seq<PackedIob>, sites: Seq<(u32, u32)>, q: Seq<char>, x: u32) -> bool {
    &&& exists|ii: int| 0 <= ii < sites.len() && ii < iobs.len() && (#[trigger] iobs[ii]).from_net@ == q
    &&& forall|ii: int| 0 <= ii < sites.len() && ii < iobs.len() && (#[trigger] iobs[ii]).from_net@ == q ==> sites[ii].0 == x
}

/// Cluster `i` went to the column of the IOB its Q net drives, whenever it
/// had no placed driver and that column still had a free slot.
pub open spec fn follows_iob_column(packed: Packed, d: DeviceSites, iobs: Seq<(u32, u32)>, slots: Seq<((u32, u32), u8)>, i: int) -> bool {
    forall|x: u32|
        drivers_unplaced(packed, i) && #[trigger] iob_column_of(packed.iobs@, iobs, packed.lutffs@[i].q_net@, x)
            && column_has_free(d, slots.subrange(0, i), ble_count(d), x) ==> slots[i].0.0 == x
}

/// The column of the last placed IOB on net `q`, else `fallback`.
fn iob_col(iobs: &Vec<PackedIob>, sites: &Vec<(u32, u32)>, q: &str, fallback: u32) -> (r: u32)
    ensures
        forall|x: u32| #[trigger] iob_column_of(iobs@, sites@, q@, x) ==> r == x,
{
    let mut r = fallback;
    let mut ii: usize = sites.len();
    let mut found = false;
    while ii > 0 && !found
        invariant
            ii <= sites@.len(),
            found ==> ii < sites@.len() && ii < iobs@.len() && iobs@[ii as int].from_net@ == q@ && r == sites@[ii as int].0,
            !found ==> forall|jj: int| ii <= jj < sites@.len() && jj < iobs@.len() ==> (#[trigger] iobs@[jj]).from_net@ != q@,
        decreases ii,
    {
        ii = ii - 1;
        if ii < iobs.len() && text::str_eq(iobs[ii].from_net.as_str(), q) {
            r = sites[ii].0;
            found = true;
        }
    }
    r
}

// ---------------------------------------------------------------------------
// Placement
// ---------------------------------------------------------------------------

/// The first `n` items of `v` (clones).
fn prefix<T: Clone>(v: &Vec<T>, n: usize) -> (r: Vec<T>)
    ensures
        r@.len() == if n < v@.len() { n as int } else { v@.len() as int },
{
    let mut r: Vec<T> = Vec::new();
    let mut i: usize = 0;
    while i < n && i < v.len()
        invariant
            i <= v@.len(),
            i <= n,
            r@.len() == i,
        decreases v@.len() - i,
    {
        r.push(v[i].clone());
        i = i + 1;
    }
    r
}

/// The first `n` tiles of `v`.
fn tile_prefix(v: &Vec<(u32, u32)>, n: usize) -> (r: Vec<(u32, u32)>)
    ensures
        r@ == v@.take(if n < v@.len() { n as int } else { v@.len() as int }),
{
    let mut r: Vec<(u32, u32)> = Vec::new();
    let mut i: usize = 0;
    while i < n && i < v.len()
        invariant
            i <= v@.len(),
            i <= n,
            r@ == v@.take(i as int),
        decreases v@.len() - i,
    {
        r.push(v[i]);
        i = i + 1;
        assert(r@ =~= v@.take(i as int));
    }
    assert(r@ =~= v@.take(if n < v@.len() { n as int } else { v@.len() as int }));
    r
}

/// `min(a, b)` on lengths.
pub open spec fn min_len(a: int, b: int) -> int {
    if a < b { a } else { b }
}

/// What a placement of `packed` on `d` holds, given the IOB sites `iobs`:
/// every placed LUTFF cluster on its own (CLB site, BLE) slot of the device;
/// clusters left out only when every slot is taken; MACs and BRAMs on the
/// first DSP and BRAM sites; the packed lists cut to what was placed.
pub open spec fn placed_as(packed: Packed, d: DeviceSites, iobs: Seq<(u32, u32)>, p: Placed) -> bool {
    &&& p.iob_sites@ == iobs
    &&& p.lutff_sites@.len() <= packed.lutffs@.len()
    &&& forall|i: int| 0 <= i < p.lutff_sites@.len() ==> slot_ok(d, #[trigger] p.lutff_sites@[i])
    &&& slots_distinct(p.lutff_sites@)
    &&& p.lutff_sites@.len() < packed.lutffs@.len() ==> slots_full(d, p.lutff_sites@)
    &&& forall|i: int| 0 <= i < p.lutff_sites@.len() ==> follows_iob_column(packed, d, iobs, p.lutff_sites@, i)
    &&& p.mac_sites@ == d.dsp@.take(min_len(packed.macs@.len() as int, d.dsp@.len() as int))
    &&& p.bram_sites@ == d.bram@.take(min_len(packed.brams@.len() as int, d.bram@.len() as int))
    &&& p.packed.lutffs@.len() == p.lutff_sites@.len()
    &&& p.packed.iobs@.len() == p.iob_sites@.len()
    &&& p.packed.macs@.len() == p.mac_sites@.len()
    &&& p.packed.brams@.len() == p.bram_sites@.len()
}

/// The result of placing `packed` on `d`: a LOC that names no IOB site is
/// refused; LUTFF clusters need some IOB site for their column preference.
pub open spec fn place_result(packed: Packed, d: DeviceSites, r: Result<Placed, String>) -> bool {
    match iob_plan(packed.iobs@, d.iob@, iob_take(packed, d)) {
        Err(e) => r matches Err(m) && m@ == e,
        Ok(iobs) => if packed.lutffs@.len() > 0 && d.iob@.len() == 0 {
            r matches Err(m) && m@ == "need IOB column for LUTFF"@
        } else {
            r matches Ok(p) && placed_as(packed, d, iobs, p)
        },
    }
}

/// Places IOBs (by LOC, else in device order), then each LUTFF cluster in
/// order on a free slot near its placed drivers and its IOB column (the
/// southmost row first when `timing_driven`, else the column's middle row),
/// then MACs and BRAMs on the first DSP and BRAM sites.
pub fn place_with(packed: &Packed, d: &DeviceSites, timing_driven: bool) -> (r: Result<Placed, String>)
    ensures
        place_result(*packed, *d, r),
{
    let take: usize = if packed.iobs.len() < d.iob.len() { packed.iobs.len() } else { d.iob.len() };
    let mut iob_sites: Vec<(u32, u32)> = Vec::new();
    let mut i: usize = 0;
    while i < take
        invariant
            take as int == iob_take(*packed, *d),
            i <= take,
            iob_plan(packed.iobs@, d.iob@, i as int) == Ok::<Seq<(u32, u32)>, Seq<char>>(iob_sites@),
        decreases take - i,
    {
        match iob_site(&packed.iobs[i], i, &d.iob) {
            Ok(s) => {
                iob_sites.push(s);
            },
            Err(e) => {
                proof {
                    lemma_iob_plan_err(packed.iobs@, d.iob@, i as int + 1, take as int);
                }
                return Err(e);
            },
        }
        i = i + 1;
    }
    let n: u8 = if d.n_ble < 1 { 1 } else { d.n_ble };
    let mut lutff_sites: Vec<((u32, u32), u8)> = Vec::new();
    if packed.lutffs.len() > 0 {
        let fallback = if iob_sites.len() > 0 {
            iob_sites[0]
        } else if d.iob.len() > 0 {
            d.iob[0]
        } else {
            return Err(text::string_of(text::chars_of("need IOB column for LUTFF").as_slice()));
        };
        let mut ff_at: Vec<(String, (u32, u32))> = Vec::new();
        let ghost mut owner: Seq<int> = Seq::empty();
        let mut k: usize = 0;
        let mut full = false;
        while k < packed.lutffs.len() && !full
            invariant
                full ==> slots_full(*d, lutff_sites@),
                iob_plan(packed.iobs@, d.iob@, iob_take(*packed, *d)) == Ok::<Seq<(u32, u32)>, Seq<char>>(iob_sites@),
                n == ble_count(*d),
                k <= packed.lutffs@.len(),
                lutff_sites@.len() == k,
                forall|j: int| 0 <= j < lutff_sites@.len() ==> slot_ok(*d, #[trigger] lutff_sites@[j]),
                slots_distinct(lutff_sites@),
                forall|j: int| 0 <= j < lutff_sites@.len() ==> follows_iob_column(*packed, *d, iob_sites@, lutff_sites@, j),
                owner.len() == ff_at@.len(),
                forall|j: int| 0 <= j < ff_at@.len() ==> 0 <= #[trigger] owner[j] < k && packed.lutffs@[owner[j]].ff_cell@ == ff_at@[j].0@,
            decreases packed.lutffs@.len() - k + (if full { 0int } else { 1int }),
        {
            let lf = &packed.lutffs[k];
            let preferred_x = iob_col(&packed.iobs, &iob_sites, lf.q_net.as_str(), fallback.0);
            proof {
                if drivers_unplaced(*packed, k as int) {
                    assert forall|p: int| 0 <= p < lf.lut_pins@.len() implies !ff_named(ff_at@, (#[trigger] lf.lut_pins@[p]).1@) by {
                        if ff_named(ff_at@, lf.lut_pins@[p].1@) {
                            let j = choose|j: int| 0 <= j < ff_at@.len() && (#[trigger] ff_at@[j]).0@ == lf.lut_pins@[p].1@;
                            let q = owner[j];
                            assert(packed.lutffs@[k as int].lut_pins@[p] == lf.lut_pins@[p]);
                            assert(packed.lutffs@[q].ff_cell@ != packed.lutffs@[k as int].lut_pins@[p].1@);
                        }
                    }
                }
            }
            let hit = pick_slot(d, &lutff_sites, n, &ff_at, lf, preferred_x, fallback.0, timing_driven);
            match hit {
                None => {
                    proof {
                        assert forall|s: (u32, u32), b: u8| d.clb@.contains(s) && b < ble_count(*d) implies #[trigger] lutff_sites@.contains((s, b)) by {}
                    }
                    full = true;
                        },
                Some(slot) => {
                    let ghost before = lutff_sites@;
                    lutff_sites.push(slot);
                    proof {
                        assert(lutff_sites@.subrange(0, k as int) =~= before);
                        assert forall|j: int| 0 <= j < lutff_sites@.len() implies follows_iob_column(*packed, *d, iob_sites@, lutff_sites@, j) by {
                            if j < before.len() {
                                assert(lutff_sites@.subrange(0, j) =~= before.subrange(0, j));
                                assert(lutff_sites@[j] == before[j]);
                                assert(follows_iob_column(*packed, *d, iob_sites@, before, j));
                            }
                        }
                        assert forall|a: int, b: int| 0 <= a < b < lutff_sites@.len() implies lutff_sites@[a] != lutff_sites@[b] by {
                            if b == before.len() {
                                assert(before[a] == lutff_sites@[a]);
                                if before[a] == slot {
                                    assert(before.contains(slot));
                                }
                            } else {
                                assert(before[a] == lutff_sites@[a]);
                                assert(before[b] == lutff_sites@[b]);
                            }
                        }
                    }
                    let ghost fa = ff_at@;
                    if !lf.ff_cell.as_str().is_empty() {
                        ff_at.push((lf.ff_cell.clone(), slot.0));
                    }
                    proof {
                        if ff_at@.len() > fa.len() {
                            owner = owner.push(k as int);
                        }
                        assert forall|j: int| 0 <= j < ff_at@.len() implies 0 <= #[trigger] owner[j] < k + 1
                            && packed.lutffs@[owner[j]].ff_cell@ == ff_at@[j].0@ by {
                            if j < fa.len() {
                                assert(ff_at@[j] == fa[j]);
                            }
                        }
                    }
                    k = k + 1;
                        },
            }
        }
    }
    let mac_n: usize = if packed.macs.len() < d.dsp.len() { packed.macs.len() } else { d.dsp.len() };
    let bram_n: usize = if packed.brams.len() < d.bram.len() { packed.brams.len() } else { d.bram.len() };
    let mac_sites = tile_prefix(&d.dsp, mac_n);
    let bram_sites = tile_prefix(&d.bram, bram_n);
    let cut = Packed {
        lutffs: prefix(&packed.lutffs, lutff_sites.len()),
        iobs: prefix(&packed.iobs, iob_sites.len()),
        macs: prefix(&packed.macs, mac_n),
        brams: prefix(&packed.brams, bram_n),
    };
    let p = Placed { packed: cut, lutff_sites, iob_sites, mac_sites, bram_sites };
    proof {
        assert(iob_plan(packed.iobs@, d.iob@, iob_take(*packed, *d)) == Ok::<Seq<(u32, u32)>, Seq<char>>(p.iob_sites@));
        assert(p.lutff_sites@.len() <= packed.lutffs@.len());
        assert(p.lutff_sites@.len() < packed.lutffs@.len() ==> slots_full(*d, p.lutff_sites@));
        assert(forall|i: int| 0 <= i < p.lutff_sites@.len() ==> slot_ok(*d, #[trigger] p.lutff_sites@[i]));
        assert(slots_distinct(p.lutff_sites@));
        assert(p.mac_sites@ == d.dsp@.take(min_len(packed.macs@.len() as int, d.dsp@.len() as int)));
        assert(p.bram_sites@ == d.bram@.take(min_len(packed.brams@.len() as int, d.bram@.len() as int)));
        assert(p.packed.lutffs@.len() == p.lutff_sites@.len());
        lemma_iob_plan_len(packed.iobs@, d.iob@, iob_take(*packed, *d));
        assert(p.packed.iobs@.len() == p.iob_sites@.len());
        assert(p.packed.macs@.len() == p.mac_sites@.len());
        assert(p.packed.brams@.len() == p.bram_sites@.len());
        assert(placed_as(*packed, *d, p.iob_sites@, p));
    }
    Ok(p)
}

/// Placing with the default options (wirelength-driven).
pub fn place(packed: &Packed, d: &DeviceSites) -> (r: Result<Placed, String>)
    ensures
        place_result(*packed, *d, r),
{
    place_with(packed, d, false)
}

proof fn lemma_iob_plan_ok(iobs: Seq<PackedIob>, all: Seq<(u32, u32)>, n: int, i: int)
    requires
        0 <= i < n,
        iob_plan(iobs, all, n) is Ok,
    ensures
        iob_plan(iobs, all, n)->Ok_0.len() == n,
        iob_site_for(iobs[i], i, all) == Ok::<(u32, u32), Seq<char>>(iob_plan(iobs, all, n)->Ok_0[i]),
    decreases n,
{
    if i < n - 1 {
        lemma_iob_plan_ok(iobs, all, n - 1, i);
    } else if n - 1 > 0 {
        lemma_iob_plan_len(iobs, all, n - 1);
    }
}

proof fn lemma_iob_plan_len(iobs: Seq<PackedIob>, all: Seq<(u32, u32)>, n: int)
    requires
        0 <= n,
        iob_plan(iobs, all, n) is Ok,
    ensures
        iob_plan(iobs, all, n)->Ok_0.len() == n,
    decreases n,
{
    if n > 0 {
        lemma_iob_plan_len(iobs, all, n - 1);
    }
}

/// A placed IOB with a LOC sits exactly on the site its LOC names, and that
/// site is one of the device's IOB sites; one without a LOC takes the device
/// IOB site of its own index.
pub proof fn placed_iob_follows_loc(packed: Packed, d: DeviceSites, p: Placed, i: int)
    requires
        place_result(packed, d, Ok(p)),
        0 <= i < p.iob_sites@.len(),
    ensures
        match packed.iobs@[i].loc {
            Some(l) => iob_loc_xy(l@) == Some(p.iob_sites@[i]) && d.iob@.contains(p.iob_sites@[i]),
            None => p.iob_sites@[i] == d.iob@[i],
        },
{
    let n = iob_take(packed, d);
    lemma_iob_plan_len(packed.iobs@, d.iob@, n);
    lemma_iob_plan_ok(packed.iobs@, d.iob@, n, i);
}

/// Every placed LUTFF cluster has a (CLB site, BLE) slot of the device, and no
/// two clusters share one.
pub proof fn placed_slots_are_distinct(packed: Packed, d: DeviceSites, p: Placed, i: int, j: int)
    requires
        place_result(packed, d, Ok(p)),
        0 <= i < j < p.lutff_sites@.len(),
    ensures
        slot_ok(d, p.lutff_sites@[i]),
        slot_ok(d, p.lutff_sites@[j]),
        p.lutff_sites@[i] != p.lutff_sites@[j],
{
}


/// The index of the first cluster of `prev` whose LUT cell is `name`, or -1.
pub open spec fn prev_lut_index(prev: Placed, name: Seq<char>, j: int) -> int
    decreases prev.packed.lutffs@.len() - j,
{
    if j < 0 || j >= prev.packed.lutffs@.len() {
        -1
    } else if prev.packed.lutffs@[j].lut_cell@ == name {
        j
    } else {
        prev_lut_index(prev, name, j + 1)
    }
}

/// The index of the first IOB of `prev` whose cell is `name`, or -1.
pub open spec fn prev_iob_index(prev: Placed, name: Seq<char>, j: int) -> int
    decreases prev.packed.iobs@.len() - j,
{
    if j < 0 || j >= prev.packed.iobs@.len() {
        -1
    } else if prev.packed.iobs@[j].cell@ == name {
        j
    } else {
        prev_iob_index(prev, name, j + 1)
    }
}

/// How many of the first `n` clusters of `lutffs` kept their LUT cell name from `prev`.
pub open spec fn reuse_count(lutffs: Seq<PackedLutFf>, prev: Placed, n: int) -> nat
    decreases n,
{
    if n <= 0 {
        0
    } else {
        reuse_count(lutffs, prev, n - 1) + if prev_lut_index(prev, lutffs[n - 1].lut_cell@, 0) >= 0 { 1nat } else { 0nat }
    }
}

proof fn lemma_prev_lut_index(prev: Placed, name: Seq<char>, j: int)
    requires
        0 <= j,
    ensures
        prev_lut_index(prev, name, j) >= 0 ==> j <= prev_lut_index(prev, name, j) < prev.packed.lutffs@.len(),
        prev_lut_index(prev, name, j) < 0 ==> prev_lut_index(prev, name, j) == -1,
    decreases prev.packed.lutffs@.len() - j,
{
    if j < prev.packed.lutffs@.len() && prev.packed.lutffs@[j].lut_cell@ != name {
        lemma_prev_lut_index(prev, name, j + 1);
    }
}

proof fn lemma_prev_iob_index(prev: Placed, name: Seq<char>, j: int)
    requires
        0 <= j,
    ensures
        prev_iob_index(prev, name, j) >= 0 ==> j <= prev_iob_index(prev, name, j) < prev.packed.iobs@.len(),
        prev_iob_index(prev, name, j) < 0 ==> prev_iob_index(prev, name, j) == -1,
    decreases prev.packed.iobs@.len() - j,
{
    if j < prev.packed.iobs@.len() && prev.packed.iobs@[j].cell@ != name {
        lemma_prev_iob_index(prev, name, j + 1);
    }
}

fn find_prev_lut(prev: &Placed, name: &str) -> (r: Option<usize>)
    ensures
        match r {
            Some(j) => j as int == prev_lut_index(*prev, name@, 0),
            None => prev_lut_index(*prev, name@, 0) < 0,
        },
{
    let mut j: usize = 0;
    while j < prev.packed.lutffs.len()
        invariant
            j <= prev.packed.lutffs@.len(),
            prev_lut_index(*prev, name@, 0) == prev_lut_index(*prev, name@, j as int),
        decreases prev.packed.lutffs@.len() - j,
    {
        if text::str_eq(prev.packed.lutffs[j].lut_cell.as_str(), name) {
            return Some(j);
        }
        j = j + 1;
    }
    None
}

fn find_prev_iob(prev: &Placed, name: &str) -> (r: Option<usize>)
    ensures
        match r {
            Some(j) => j as int == prev_iob_index(*prev, name@, 0),
            None => prev_iob_index(*prev, name@, 0) < 0,
        },
{
    let mut j: usize = 0;
    while j < prev.packed.iobs.len()
        invariant
            j <= prev.packed.iobs@.len(),
            prev_iob_index(*prev, name@, 0) == prev_iob_index(*prev, name@, j as int),
        decreases prev.packed.iobs@.len() - j,
    {
        if text::str_eq(prev.packed.iobs[j].cell.as_str(), name) {
            return Some(j);
        }
        j = j + 1;
    }
    None
}

/// Incremental placement: a fresh placement in which every placed cluster
/// whose LUT cell name occurs in `prev` takes that cluster's previous slot
/// again, and every IOB whose cell name occurs in `prev` its previous site;
/// also returns how many clusters were reused.
pub fn place_incremental(packed: &Packed, d: &DeviceSites, prev: &Placed, timing_driven: bool) -> (r: Result<(Placed, usize), String>)
    requires
        prev.lutff_sites@.len() == prev.packed.lutffs@.len(),
        prev.iob_sites@.len() == prev.packed.iobs@.len(),
    ensures
        match r {
            Err(m) => place_result(*packed, *d, Err(m)),
            Ok((p, reused)) => {
                &&& p.lutff_sites@.len() <= packed.lutffs@.len()
                &&& reused == reuse_count(packed.lutffs@, *prev, p.lutff_sites@.len() as int)
                &&& forall|i: int| 0 <= i < p.lutff_sites@.len() ==> {
                    let j = prev_lut_index(*prev, packed.lutffs@[i].lut_cell@, 0);
                    if j >= 0 {
                        #[trigger] p.lutff_sites@[i] == prev.lutff_sites@[j]
                    } else {
                        slot_ok(*d, p.lutff_sites@[i])
                    }
                }
                &&& p.iob_sites@.len() == iob_take(*packed, *d)
                &&& forall|i: int| 0 <= i < p.iob_sites@.len() ==> {
                    let j = prev_iob_index(*prev, packed.iobs@[i].cell@, 0);
                    if j >= 0 {
                        #[trigger] p.iob_sites@[i] == prev.iob_sites@[j]
                    } else {
                        iob_site_for(packed.iobs@[i], i, d.iob@) == Ok::<(u32, u32), Seq<char>>(p.iob_sites@[i])
                    }
                }
            },
        },
{
    let mut placed = match place_with(packed, d, timing_driven) {
        Ok(p) => p,
        Err(e) => {
            return Err(e);
        },
    };
    proof {
        lemma_iob_plan_len(packed.iobs@, d.iob@, iob_take(*packed, *d));
        assert forall|i: int| 0 <= i < placed.iob_sites@.len() implies
            iob_site_for(packed.iobs@[i], i, d.iob@) == Ok::<(u32, u32), Seq<char>>(#[trigger] placed.iob_sites@[i]) by {
            lemma_iob_plan_ok(packed.iobs@, d.iob@, iob_take(*packed, *d), i);
        }
    }
    let ghost base = placed;
    let n = placed.lutff_sites.len();
    let mut reused: usize = 0;
    let mut i: usize = 0;
    while i < n
        invariant
            n == placed.lutff_sites@.len(),
            n == base.lutff_sites@.len(),
            n <= packed.lutffs@.len(),
            i <= n,
            reused <= i,
            reused == reuse_count(packed.lutffs@, *prev, i as int),
            prev.lutff_sites@.len() == prev.packed.lutffs@.len(),
            prev.iob_sites@.len() == prev.packed.iobs@.len(),
            placed.iob_sites@ == base.iob_sites@,
            base.iob_sites@.len() == iob_take(*packed, *d),
            forall|k: int| 0 <= k < base.iob_sites@.len() ==>
                iob_site_for(packed.iobs@[k], k, d.iob@) == Ok::<(u32, u32), Seq<char>>(#[trigger] base.iob_sites@[k]),
            forall|k: int| 0 <= k < n ==> slot_ok(*d, #[trigger] base.lutff_sites@[k]),
            forall|k: int| 0 <= k < n ==> {
                let j = prev_lut_index(*prev, packed.lutffs@[k].lut_cell@, 0);
                if k < i && j >= 0 {
                    #[trigger] placed.lutff_sites@[k] == prev.lutff_sites@[j]
                } else {
                    placed.lutff_sites@[k] == base.lutff_sites@[k]
                }
            },
        decreases n - i,
    {
        match find_prev_lut(prev, packed.lutffs[i].lut_cell.as_str()) {
            Some(j) => {
                proof {
                    lemma_prev_lut_index(*prev, packed.lutffs@[i as int].lut_cell@, 0);
                }
                let site = prev.lutff_sites[j];
                placed.lutff_sites.set(i, site);
                reused = reused + 1;
            },
            None => {},
        }
        i = i + 1;
    }
    let m = placed.iob_sites.len();
    let ghost base_iobs = placed.iob_sites@;
    let ghost mid = placed.lutff_sites@;
    assert(forall|i: int| 0 <= i < mid.len() ==> {
        let j = prev_lut_index(*prev, packed.lutffs@[i].lut_cell@, 0);
        if j >= 0 {
            #[trigger] mid[i] == prev.lutff_sites@[j]
        } else {
            slot_ok(*d, mid[i])
        }
    });
    let mut i: usize = 0;
    while i < m
        invariant
            m == placed.iob_sites@.len(),
            m == base_iobs.len(),
            m <= packed.iobs@.len(),
            i <= m,
            prev.iob_sites@.len() == prev.packed.iobs@.len(),
            placed.lutff_sites@ == mid,
            mid.len() <= packed.lutffs@.len(),
            forall|i: int| 0 <= i < mid.len() ==> {
                let j = prev_lut_index(*prev, packed.lutffs@[i].lut_cell@, 0);
                if j >= 0 {
                    #[trigger] mid[i] == prev.lutff_sites@[j]
                } else {
                    slot_ok(*d, mid[i])
                }
            },
            forall|k: int| 0 <= k < m ==>
                iob_site_for(packed.iobs@[k], k, d.iob@) == Ok::<(u32, u32), Seq<char>>(#[trigger] base_iobs[k]),
            forall|k: int| 0 <= k < m ==> {
                let j = prev_iob_index(*prev, packed.iobs@[k].cell@, 0);
                if k < i && j >= 0 {
                    #[trigger] placed.iob_sites@[k] == prev.iob_sites@[j]
                } else {
                    placed.iob_sites@[k] == base_iobs[k]
                }
            },
        decreases m - i,
    {
        match find_prev_iob(prev, packed.iobs[i].cell.as_str()) {
            Some(j) => {
                proof {
                    lemma_prev_iob_index(*prev, packed.iobs@[i as int].cell@, 0);
                }
                let site = prev.iob_sites[j];
                placed.iob_sites.set(i, site);
            },
            None => {},
        }
        i = i + 1;
    }
    assert(placed.lutff_sites@.len() <= packed.lutffs@.len());
    assert(placed.iob_sites@.len() == iob_take(*packed, *d));
    assert(forall|i: int| 0 <= i < placed.lutff_sites@.len() ==> {
        let j = prev_lut_index(*prev, packed.lutffs@[i].lut_cell@, 0);
        if j >= 0 {
            #[trigger] placed.lutff_sites@[i] == prev.lutff_sites@[j]
        } else {
            slot_ok(*d, placed.lutff_sites@[i])
        }
    });
    Ok((placed, reused))
}


/// A LUTFF cluster whose Q net drives a placed IOB goes to that IOB's column:
/// when it has no placed driver and every placed IOB on its net sits in
/// column `x` that still has a free slot, the cluster lands in column `x`.
pub proof fn cluster_follows_its_iob_column(packed: Packed, d: DeviceSites, p: Placed, i: int, x: u32)
    requires
        place_result(packed, d, Ok(p)),
        0 <= i < p.lutff_sites@.len(),
        drivers_unplaced(packed, i),
        iob_column_of(packed.iobs@, p.iob_sites@, packed.lutffs@[i].q_net@, x),
        column_has_free(d, p.lutff_sites@.subrange(0, i), ble_count(d), x),
    ensures
        p.lutff_sites@[i].0.0 == x,
{
    assert(follows_iob_column(packed, d, p.iob_sites@, p.lutff_sites@, i));
}

} // verus!
