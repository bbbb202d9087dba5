//! Routing options and route records shared by the router and timing.

use vstd::prelude::*;
use crate::text;
use crate::pack::Packed;

verus! {

/// Delay of one routing hop in ps.
pub const HOP_DELAY_PS: i64 = 40;

/// An IOB route: CLB to IOB through PathFinder tiles.
#[derive(Debug)]
pub struct IobRoute {
    pub iob: (u32, u32),
    pub clb: (u32, u32),
    pub ble: u8,
    pub hops: u32,
    /// Path delay in ps (hops × HOP_DELAY_PS). Used by STA.
    pub delay_ps: i64,
    /// PathFinder tiles from CLB to IOB (inclusive). Extra hops are delay-only.
    pub path: Vec<(u32, u32)>,
    /// Packed IOB `from_net` this route drives.
    pub net: String,
}

/// An input-mux selection at a tile.
#[derive(Clone, Copy, Debug)]
pub struct ImuxRoute {
    pub x: u32,
    pub y: u32,
    pub mux: u32,
    pub sel: u8,
}

/// Router options.
#[derive(Clone, Copy, Debug)]
pub struct RouteOpts {
    pub max_iters: u32,
    /// Added to every IOB route after PathFinder (directed delay).
    pub extra_hops: u32,
}

impl Default for RouteOpts {
    fn default() -> (r: Self)
        ensures
            r.max_iters == 8,
            r.extra_hops == 0,
    {
        RouteOpts { max_iters: 8, extra_hops: 0 }
    }
}


// ---------------------------------------------------------------------------
// The routing grid
// ---------------------------------------------------------------------------

/// The routing tiles of a device, as plain values: the IOB row just south of
/// the CLB array (`interior_cols` tiles from `clb_x0`) and the CLB tiles.
#[derive(Clone, Debug)]
pub struct RouteGrid {
    pub clb_x0: u32,
    pub clb_y0: u32,
    pub interior_cols: u32,
    pub clb_tiles: Vec<(u32, u32)>,
}

/// Coordinates stay below 2^31 - 1, so that one step in any direction is
/// still a valid `i32` (the grid walk adds in `i32`).
pub open spec fn small(p: (u32, u32)) -> bool {
    p.0 < 0x7fff_fffe && p.1 < 0x7fff_fffe
}

pub open spec fn grid_small(g: RouteGrid) -> bool {
    &&& g.clb_x0 + g.interior_cols < 0x7fff_fffe
    &&& g.clb_y0 < 0x7fff_fffe
    &&& forall|i: int| 0 <= i < g.clb_tiles@.len() ==> small(#[trigger] g.clb_tiles@[i])
}

/// The y of the IOB row.
pub open spec fn iob_row(g: RouteGrid) -> u32 {
    if g.clb_y0 == 0 { 0 } else { (g.clb_y0 - 1) as u32 }
}

/// `p` is a routing tile.
pub open spec fn on_grid(g: RouteGrid, p: (u32, u32)) -> bool {
    ||| (p.1 == iob_row(g) && g.clb_x0 <= p.0 && p.0 < g.clb_x0 + g.interior_cols)
    ||| g.clb_tiles@.contains(p)
}

/// `s` followed by `p` when `p` is a routing tile.
pub open spec fn push_tile(g: RouteGrid, s: Seq<(u32, u32)>, p: (u32, u32)) -> Seq<(u32, u32)> {
    if on_grid(g, p) { s.push(p) } else { s }
}

/// The routing tiles next to `p`: north, south, east, west, in that order.
pub open spec fn neighbors(g: RouteGrid, p: (u32, u32)) -> Seq<(u32, u32)> {
    let (x, y) = p;
    let a = push_tile(g, Seq::empty(), (x, (y + 1) as u32));
    let b = if y > 0 { push_tile(g, a, (x, (y - 1) as u32)) } else { a };
    let c = push_tile(g, b, ((x + 1) as u32, y));
    if x > 0 { push_tile(g, c, ((x - 1) as u32, y)) } else { c }
}

/// `path` walks from tile to neighboring tile.
pub open spec fn grid_walk(g: RouteGrid, path: Seq<(u32, u32)>) -> bool {
    forall|i: int| 0 <= i < path.len() - 1 ==> neighbors(g, #[trigger] path[i]).contains(path[i + 1])
}

fn on_grid_exec(g: &RouteGrid, p: (u32, u32)) -> (r: bool)
    requires
        grid_small(*g),
    ensures
        r == on_grid(*g, p),
{
    let iy = if g.clb_y0 == 0 { 0 } else { g.clb_y0 - 1 };
    if p.1 == iy && g.clb_x0 <= p.0 && p.0 < g.clb_x0 + g.interior_cols {
        return true;
    }
    let mut i: usize = 0;
    while i < g.clb_tiles.len()
        invariant
            i <= g.clb_tiles@.len(),
            forall|k: int| 0 <= k < i ==> g.clb_tiles@[k] != p,
        decreases g.clb_tiles@.len() - i,
    {
        if g.clb_tiles[i].0 == p.0 && g.clb_tiles[i].1 == p.1 {
            assert(g.clb_tiles@[i as int] == p);
            return true;
        }
        i = i + 1;
    }
    false
}

fn neighbors_exec(g: &RouteGrid, p: (u32, u32)) -> (r: Vec<(u32, u32)>)
    requires
        grid_small(*g),
        small(p),
    ensures
        r@ == neighbors(*g, p),
{
    let (x, y) = p;
    let mut v: Vec<(u32, u32)> = Vec::new();
    if on_grid_exec(g, (x, y + 1)) {
        v.push((x, y + 1));
    }
    if y > 0 && on_grid_exec(g, (x, y - 1)) {
        v.push((x, y - 1));
    }
    if on_grid_exec(g, (x + 1, y)) {
        v.push((x + 1, y));
    }
    if x > 0 && on_grid_exec(g, (x - 1, y)) {
        v.push((x - 1, y));
    }
    v
}


// ---------------------------------------------------------------------------
// A* search on the grid
// ---------------------------------------------------------------------------

/// The value stored under tile `p` in `m` (the first entry), or 0.
pub open spec fn tile_cost(m: Seq<((u32, u32), u32)>, p: (u32, u32)) -> u32
    decreases m.len(),
{
    if m.len() == 0 {
        0
    } else if m[0].0 == p {
        m[0].1
    } else {
        tile_cost(m.drop_first(), p)
    }
}

fn tile_cost_exec(m: &Vec<((u32, u32), u32)>, p: (u32, u32)) -> (r: u32)
    ensures
        r == tile_cost(m@, p),
{
    let mut i: usize = 0;
    assert(m@.subrange(0, m@.len() as int) =~= m@);
    while i < m.len()
        invariant
            i <= m@.len(),
            tile_cost(m@, p) == tile_cost(m@.subrange(i as int, m@.len() as int), p),
        decreases m@.len() - i,
    {
        let ghost rest = m@.subrange(i as int, m@.len() as int);
        assert(rest.drop_first() =~= m@.subrange(i + 1, m@.len() as int));
        if m[i].0.0 == p.0 && m[i].0.1 == p.1 {
            return m[i].1;
        }
        i = i + 1;
    }
    0
}

/// `(x, y)`, as `{:?}` writes a tile.
pub open spec fn tile_text(p: (u32, u32)) -> Seq<char> {
    "("@ + text::dec(p.0 as nat) + ", "@ + text::dec(p.1 as nat) + ")"@
}

fn push_tile_text(out: &mut Vec<char>, p: (u32, u32))
    ensures
        final(out)@ == old(out)@ + tile_text(p),
{
    text::push_str(out, "(");
    text::push_u64(out, p.0 as u64);
    text::push_str(out, ", ");
    text::push_u64(out, p.1 as u64);
    text::push_str(out, ")");
}

/// Number of `true` entries.
pub open spec fn count_true(s: Seq<bool>) -> nat
    decreases s.len(),
{
    if s.len() == 0 { 0 } else { count_true(s.drop_last()) + if s.last() { 1nat } else { 0nat } }
}

proof fn lemma_count_true_le(s: Seq<bool>)
    ensures
        count_true(s) <= s.len(),
    decreases s.len(),
{
    if s.len() > 0 {
        lemma_count_true_le(s.drop_last());
    }
}

proof fn lemma_count_true_set(s: Seq<bool>, i: int)
    requires
        0 <= i < s.len(),
        !s[i],
    ensures
        count_true(s.update(i, true)) == count_true(s) + 1,
    decreases s.len(),
{
    if i < s.len() - 1 {
        assert(s.update(i, true).drop_last() =~= s.drop_last().update(i, true));
        lemma_count_true_set(s.drop_last(), i);
    } else {
        assert(s.update(i, true).drop_last() =~= s.drop_last());
    }
}

proof fn lemma_neighbor_on_grid(g: RouteGrid, p: (u32, u32), q: (u32, u32))
    requires
        neighbors(g, p).contains(q),
    ensures
        on_grid(g, q),
{
    let (x, y) = p;
    let a = push_tile(g, Seq::empty(), (x, (y + 1) as u32));
    let b = if y > 0 { push_tile(g, a, (x, (y - 1) as u32)) } else { a };
    let c = push_tile(g, b, ((x + 1) as u32, y));
    let d = if x > 0 { push_tile(g, c, ((x - 1) as u32, y)) } else { c };
    assert forall|t: (u32, u32)| a.contains(t) implies on_grid(g, t) by {
        if on_grid(g, (x, (y + 1) as u32)) {
            assert(a == seq![(x, (y + 1) as u32)]);
        } else {
            assert(a =~= Seq::<(u32, u32)>::empty());
        }
    }
    assert forall|t: (u32, u32)| b.contains(t) implies on_grid(g, t) by {
        if y > 0 && on_grid(g, (x, (y - 1) as u32)) && !a.contains(t) {
            let k = choose|k: int| 0 <= k < b.len() && b[k] == t;
            assert(k == a.len());
        }
    }
    assert forall|t: (u32, u32)| c.contains(t) implies on_grid(g, t) by {
        if on_grid(g, ((x + 1) as u32, y)) && !b.contains(t) {
            let k = choose|k: int| 0 <= k < c.len() && c[k] == t;
            assert(k == b.len());
        }
    }
    assert forall|t: (u32, u32)| d.contains(t) implies on_grid(g, t) by {
        if x > 0 && on_grid(g, ((x - 1) as u32, y)) && !c.contains(t) {
            let k = choose|k: int| 0 <= k < d.len() && d[k] == t;
            assert(k == c.len());
        }
    }
}

fn find_tile(nodes: &Vec<(u32, u32)>, p: (u32, u32)) -> (r: Option<usize>)
    ensures
        match r {
            Some(i) => i < nodes@.len() && nodes@[i as int] == p,
            None => !nodes@.contains(p),
        },
{
    let mut i: usize = 0;
    while i < nodes.len()
        invariant
            i <= nodes@.len(),
            forall|k: int| 0 <= k < i ==> nodes@[k] != p,
        decreases nodes@.len() - i,
    {
        if nodes[i].0 == p.0 && nodes[i].1 == p.1 {
            assert(nodes@[i as int] == p);
            return Some(i);
        }
        i = i + 1;
    }
    None
}

/// Tile distance.
fn manhattan(a: (u32, u32), b: (u32, u32)) -> (r: u64)
    ensures
        r < 0x1_0000_0000 * 2,
{
    let dx: u64 = if a.0 > b.0 { (a.0 - b.0) as u64 } else { (b.0 - a.0) as u64 };
    let dy: u64 = if a.1 > b.1 { (a.1 - b.1) as u64 } else { (b.1 - a.1) as u64 };
    dx + dy
}

fn sat_i64(x: i128) -> (r: i64)
    requires
        x >= 0,
    ensures
        r == (if x > i64::MAX { i64::MAX as int } else { x as int }),
{
    if x > i64::MAX as i128 { i64::MAX } else { x as i64 }
}

/// The tiles to search: `src`, the IOB row and the CLB tiles.
fn grid_nodes(g: &RouteGrid, src: (u32, u32)) -> (r: Vec<(u32, u32)>)
    requires
        grid_small(*g),
        small(src),
    ensures
        r@.len() > 0,
        r@[0] == src,
        forall|i: int| 0 <= i < r@.len() ==> small(#[trigger] r@[i]),
        forall|p: (u32, u32)| on_grid(*g, p) ==> r@.contains(p),
{
    let mut v: Vec<(u32, u32)> = Vec::new();
    v.push(src);
    let iy = if g.clb_y0 == 0 { 0 } else { g.clb_y0 - 1 };
    let mut k: u32 = 0;
    while k < g.interior_cols
        invariant
            grid_small(*g),
            small(src),
            iy == iob_row(*g),
            k <= g.interior_cols,
            v@.len() > 0,
            v@[0] == src,
            forall|i: int| 0 <= i < v@.len() ==> small(#[trigger] v@[i]),
            forall|x: u32| g.clb_x0 <= x < g.clb_x0 + k ==> v@.contains((x, iy)),
        decreases g.interior_cols - k,
    {
        let ghost before = v@;
        v.push((g.clb_x0 + k, iy));
        proof {
            assert forall|x: u32| g.clb_x0 <= x < g.clb_x0 + k + 1 implies v@.contains((x, iy)) by {
                if x == g.clb_x0 + k {
                    assert(v@[v@.len() - 1] == (x, iy));
                } else {
                    assert(before.contains((x, iy)));
                    let j = choose|j: int| 0 <= j < before.len() && before[j] == (x, iy);
                    assert(v@[j] == before[j]);
                }
            }
        }
        k = k + 1;
    }
    let row_len = v.len();
    let mut t: usize = 0;
    while t < g.clb_tiles.len()
        invariant
            grid_small(*g),
            iy == iob_row(*g),
            t <= g.clb_tiles@.len(),
            v@.len() > 0,
            v@[0] == src,
            forall|i: int| 0 <= i < v@.len() ==> small(#[trigger] v@[i]),
            forall|x: u32| g.clb_x0 <= x < g.clb_x0 + g.interior_cols ==> v@.contains((x, iy)),
            forall|j: int| 0 <= j < t ==> v@.contains(#[trigger] g.clb_tiles@[j]),
        decreases g.clb_tiles@.len() - t,
    {
        let ghost before = v@;
        v.push(g.clb_tiles[t]);
        proof {
            assert(small(g.clb_tiles@[t as int]));
            assert forall|x: u32| g.clb_x0 <= x < g.clb_x0 + g.interior_cols implies v@.contains((x, iy)) by {
                assert(before.contains((x, iy)));
                let j = choose|j: int| 0 <= j < before.len() && before[j] == (x, iy);
                assert(v@[j] == before[j]);
            }
            assert forall|j: int| 0 <= j < t + 1 implies v@.contains(#[trigger] g.clb_tiles@[j]) by {
                if j == t {
                    assert(v@[v@.len() - 1] == g.clb_tiles@[j]);
                } else {
                    let q = choose|q: int| 0 <= q < before.len() && before[q] == g.clb_tiles@[j];
                    assert(v@[q] == before[q]);
                }
            }
        }
        t = t + 1;
    }
    proof {
        assert forall|p: (u32, u32)| on_grid(*g, p) implies v@.contains(p) by {
            if !(p.1 == iob_row(*g) && g.clb_x0 <= p.0 && p.0 < g.clb_x0 + g.interior_cols) {
                let j = choose|j: int| 0 <= j < g.clb_tiles@.len() && g.clb_tiles@[j] == p;
                assert(v@.contains(g.clb_tiles@[j]));
            }
        }
    }
    v
}

/// A* from `src` to `dst` over the grid, each step costing the hop delay plus
/// the history cost `hist` and the present use `pres` times `pres_fac`
/// (sums saturate at `i64::MAX`); the open list yields a lowest-cost entry
/// first. A path found walks tile to neighboring tile from `src` to `dst`.
pub fn astar(
    g: &RouteGrid,
    src: (u32, u32),
    dst: (u32, u32),
    hist: &Vec<((u32, u32), u32)>,
    pres: &Vec<((u32, u32), u32)>,
    pres_fac: i64,
) -> (r: Result<Vec<(u32, u32)>, String>)
    requires
        grid_small(*g),
        small(src),
        small(dst),
        pres_fac >= 0,
    ensures
        match r {
            Ok(path) => path@.len() > 0 && path@[0] == src && path@.last() == dst && grid_walk(*g, path@),
            Err(e) => e@ == "PathFinder: no path "@ + tile_text(src) + " → "@ + tile_text(dst),
        },
{
    let nodes = grid_nodes(g, src);
    let n = nodes.len();
    let mut seen: Vec<bool> = Vec::new();
    let mut gs: Vec<i64> = Vec::new();
    let mut came: Vec<Option<usize>> = Vec::new();
    let mut k: usize = 0;
    while k < n
        invariant
            n == nodes@.len(),
            k <= n,
            seen@.len() == k,
            gs@.len() == k,
            came@.len() == k,
            forall|i: int| 0 <= i < k ==> !(#[trigger] seen@[i]),
            forall|i: int| 0 <= i < k ==> (#[trigger] gs@[i]) == (if i == 0 { 0i64 } else { i64::MAX }),
            forall|i: int| 0 <= i < k ==> (#[trigger] came@[i]) is None,
        decreases n - k,
    {
        seen.push(false);
        gs.push(if k == 0 { 0 } else { i64::MAX });
        came.push(None);
        k = k + 1;
    }
    proof {
        assert(seen@ =~= Seq::new(n as nat, |i: int| false));
        lemma_count_false(n as nat);
    }
    let mut nseen: usize = 0;
    let mut open: Vec<(i64, usize)> = Vec::new();
    let h0 = manhattan(src, dst) as i64;
    open.push((h0, 0));
    while open.len() > 0
        invariant
            grid_small(*g),
            small(dst),
            pres_fac >= 0,
            n == nodes@.len(),
            n > 0,
            nodes@[0] == src,
            forall|i: int| 0 <= i < n ==> small(#[trigger] nodes@[i]),
            forall|p: (u32, u32)| on_grid(*g, p) ==> nodes@.contains(p),
            seen@.len() == n,
            gs@.len() == n,
            came@.len() == n,
            gs@[0] == 0,
            forall|i: int| 0 <= i < n ==> (#[trigger] gs@[i]) >= 0,
            forall|i: int| 0 <= i < n && i != 0 && gs@[i] != i64::MAX ==> (#[trigger] came@[i]) is Some,
            forall|i: int| 0 <= i < n && (#[trigger] came@[i]) is Some ==> {
                let p = came@[i]->0;
                &&& p < n
                &&& gs@[p as int] < gs@[i]
                &&& neighbors(*g, nodes@[p as int]).contains(nodes@[i])
            },
            forall|k: int| 0 <= k < open@.len() ==> (#[trigger] open@[k]).1 < n && gs@[open@[k].1 as int] != i64::MAX,
            nseen == count_true(seen@),
        decreases 4 * (n - count_true(seen@)) + open@.len(),
    {
        proof {
            lemma_count_true_le(seen@);
        }
        let mut best: usize = 0;
        let mut j: usize = 1;
        while j < open.len()
            invariant
                1 <= j <= open@.len(),
                best < open@.len(),
            decreases open@.len() - j,
        {
            if open[j].0 < open[best].0 {
                best = j;
            }
            j = j + 1;
        }
        let item = open.remove(best);
        let x = item.1;
        assert(gs@[x as int] != i64::MAX);
        if seen[x] {
            continue;
        }
        proof {
            lemma_count_true_set(seen@, x as int);
            lemma_count_true_le(seen@.update(x as int, true));
        }
        seen.set(x, true);
        nseen = nseen + 1;
        let here = nodes[x];
        if here.0 == dst.0 && here.1 == dst.1 {
            let mut rev: Vec<(u32, u32)> = Vec::new();
            rev.push(here);
            let mut cur = x;
            while cur != 0
                invariant
                    n == nodes@.len(),
                    cur < n,
                    came@.len() == n,
                    gs@.len() == n,
                    gs@[0] == 0,
                    gs@[cur as int] != i64::MAX,
                    forall|i: int| 0 <= i < n ==> (#[trigger] gs@[i]) >= 0,
                    forall|i: int| 0 <= i < n && i != 0 && gs@[i] != i64::MAX ==> (#[trigger] came@[i]) is Some,
                    forall|i: int| 0 <= i < n && (#[trigger] came@[i]) is Some ==> {
                        let p = came@[i]->0;
                        &&& p < n
                        &&& gs@[p as int] < gs@[i]
                        &&& neighbors(*g, nodes@[p as int]).contains(nodes@[i])
                    },
                    rev@.len() > 0,
                    rev@[0] == dst,
                    rev@.last() == nodes@[cur as int],
                    forall|i: int| 0 <= i < rev@.len() - 1 ==> neighbors(*g, #[trigger] rev@[i + 1]).contains(rev@[i]),
                decreases gs@[cur as int],
            {
                let p = came[cur].unwrap();
                let ghost before = rev@;
                rev.push(nodes[p]);
                proof {
                    assert forall|i: int| 0 <= i < rev@.len() - 1 implies neighbors(*g, #[trigger] rev@[i + 1]).contains(rev@[i]) by {
                        if i < before.len() - 1 {
                            assert(rev@[i] == before[i] && rev@[i + 1] == before[i + 1]);
                        }
                    }
                }
                cur = p;
            }
            let mut path: Vec<(u32, u32)> = Vec::new();
            let mut m = rev.len();
            while m > 0
                invariant
                    m <= rev@.len(),
                    rev@.len() > 0,
                    path@.len() == rev@.len() - m,
                    forall|i: int| 0 <= i < path@.len() ==> (#[trigger] path@[i]) == rev@[rev@.len() - 1 - i],
                decreases m,
            {
                m = m - 1;
                path.push(rev[m]);
            }
            proof {
                let l = rev@.len() as int;
                assert(path@[0] == rev@[l - 1]);
                assert(path@.last() == rev@[0]);
                assert forall|i: int| 0 <= i < path@.len() - 1 implies neighbors(*g, #[trigger] path@[i]).contains(path@[i + 1]) by {
                    let jj = l - 2 - i;
                    assert(path@[i] == rev@[jj + 1]);
                    assert(path@[i + 1] == rev@[jj]);
                }
            }
            return Ok(path);
        }
        let gc = gs[x];
        let nbs = neighbors_exec(g, here);
        proof {
            lemma_neighbors_len(*g, here);
        }
        let mut q: usize = 0;
        let ghost open_len0 = open@.len();
        while q < nbs.len()
            invariant
                grid_small(*g),
                small(dst),
                pres_fac >= 0,
                n == nodes@.len(),
                x < n,
                here == nodes@[x as int],
                gc == gs@[x as int],
                gc != i64::MAX,
                nbs@ == neighbors(*g, here),
                q <= nbs@.len(),
                forall|i: int| 0 <= i < n ==> small(#[trigger] nodes@[i]),
                forall|p: (u32, u32)| on_grid(*g, p) ==> nodes@.contains(p),
                seen@.len() == n,
                gs@.len() == n,
                came@.len() == n,
                gs@[0] == 0,
                forall|i: int| 0 <= i < n ==> (#[trigger] gs@[i]) >= 0,
                forall|i: int| 0 <= i < n && i != 0 && gs@[i] != i64::MAX ==> (#[trigger] came@[i]) is Some,
                forall|i: int| 0 <= i < n && (#[trigger] came@[i]) is Some ==> {
                    let p = came@[i]->0;
                    &&& p < n
                    &&& gs@[p as int] < gs@[i]
                    &&& neighbors(*g, nodes@[p as int]).contains(nodes@[i])
                },
                forall|k: int| 0 <= k < open@.len() ==> (#[trigger] open@[k]).1 < n && gs@[open@[k].1 as int] != i64::MAX,
                open@.len() <= open_len0 + q,
                nseen == count_true(seen@),
            decreases nbs@.len() - q,
        {
            let nb = nbs[q];
            proof {
                assert(nbs@.contains(nb));
                lemma_neighbor_on_grid(*g, here, nb);
            }
            match find_tile(&nodes, nb) {
                Some(ni) => {
                    let h = tile_cost_exec(hist, nb) as i128;
                    let pr = tile_cost_exec(pres, nb) as i128;
                    let pf = pres_fac as i128;
                    assert(0 <= pr * pf <= 0xffff_ffff * 0x7fff_ffff_ffff_ffff) by (nonlinear_arith)
                        requires
                            0 <= pr <= 0xffff_ffff,
                            0 <= pf <= 0x7fff_ffff_ffff_ffff,
                    ;
                    let step = sat_i64(40 + h + pr * pf);
                    let ng = sat_i64(gc as i128 + step as i128);
                    if ng < gs[ni] {
                        assert(ni != 0);
                        gs.set(ni, ng);
                        came.set(ni, Some(x));
                        let f = sat_i64(ng as i128 + manhattan(nb, dst) as i128);
                        open.push((f, ni));
                    }
                },
                None => {},
            }
            q = q + 1;
        }
        assert(nbs@.len() <= 4);
    }
    let mut e = text::chars_of("PathFinder: no path ");
    push_tile_text(&mut e, src);
    text::push_str(&mut e, " → ");
    push_tile_text(&mut e, dst);
    Err(text::string_of(e.as_slice()))
}

proof fn lemma_neighbors_len(g: RouteGrid, p: (u32, u32))
    ensures
        neighbors(g, p).len() <= 4,
{
}

proof fn lemma_count_false(j: nat)
    ensures
        count_true(Seq::new(j, |i: int| false)) == 0,
    decreases j,
{
    if j > 0 {
        assert(Seq::new(j, |i: int| false).drop_last() =~= Seq::new((j - 1) as nat, |i: int| false));
        lemma_count_false((j - 1) as nat);
    }
}


// ---------------------------------------------------------------------------
// Routing a placement
// ---------------------------------------------------------------------------

/// A placement as plain values: each LUTFF cluster's CLB tile and BLE, each
/// IOB's tile, and the MAC and BRAM tiles.
#[derive(Clone, Debug)]
pub struct Placed {
    pub packed: Packed,
    pub lutff_sites: Vec<((u32, u32), u8)>,
    pub iob_sites: Vec<(u32, u32)>,
    pub mac_sites: Vec<(u32, u32)>,
    pub bram_sites: Vec<(u32, u32)>,
}

/// A routed placement.
#[derive(Debug)]
pub struct Routed {
    pub placed: Placed,
    /// IOB routes, one per IOB driven by a LUTFF cluster.
    pub iob_src: Vec<IobRoute>,
    pub imux: Vec<ImuxRoute>,
    pub pathfinder_iters: u32,
    pub overused: u32,
}

/// What routing can rely on: one site per LUTFF cluster, BLE numbers small
/// enough for the selector sums, and tiles in the grid's coordinate range.
pub open spec fn placed_ok(pl: Placed) -> bool {
    &&& pl.lutff_sites@.len() == pl.packed.lutffs@.len()
    &&& forall|i: int| 0 <= i < pl.lutff_sites@.len() ==> (#[trigger] pl.lutff_sites@[i]).1 < 240 && small(pl.lutff_sites@[i].0)
    &&& forall|i: int| 0 <= i < pl.iob_sites@.len() ==> small(#[trigger] pl.iob_sites@[i])
}

/// The index of the first LUTFF cluster whose FF is `ff`, if any.
pub open spec fn lutff_index(pl: Placed, ff: Seq<char>, i: int) -> int
    decreases pl.packed.lutffs@.len() - i,
{
    if i < 0 || i >= pl.packed.lutffs@.len() {
        -1
    } else if pl.packed.lutffs@[i].ff_cell@ == ff {
        i
    } else {
        lutff_index(pl, ff, i + 1)
    }
}

/// The input-mux selector from a driver at `from` (BLE `dble`) to a sink at
/// `to`: same CLB 16 + BLE, driver south BLE, driver north 8 + BLE.
pub open spec fn imux_sel_of(from: (u32, u32), to: (u32, u32), dble: u8) -> Result<u8, Seq<char>> {
    if from.0 == to.0 && from.1 == to.1 {
        Ok((16 + dble) as u8)
    } else if from.0 == to.0 && from.1 + 1 == to.1 {
        Ok(dble)
    } else if from.0 == to.0 && to.1 + 1 == from.1 {
        Ok((8 + dble) as u8)
    } else {
        Err("IMUX: no local/N-S encoding from CLB_X"@ + text::dec(from.0 as nat) + "Y"@ + text::dec(from.1 as nat)
            + " BLE"@ + text::dec(dble as nat) + " to CLB_X"@ + text::dec(to.0 as nat) + "Y"@ + text::dec(to.1 as nat))
    }
}

fn imux_sel(from: (u32, u32), to: (u32, u32), dble: u8) -> (r: Result<u8, String>)
    requires
        dble < 240,
    ensures
        match imux_sel_of(from, to, dble) {
            Ok(v) => r == Ok::<u8, String>(v),
            Err(e) => r matches Err(m) && m@ == e,
        },
{
    if from.0 == to.0 && from.1 == to.1 {
        return Ok(16 + dble);
    }
    if from.0 == to.0 && from.1 as u64 + 1 == to.1 as u64 {
        return Ok(dble);
    }
    if from.0 == to.0 && to.1 as u64 + 1 == from.1 as u64 {
        return Ok(8 + dble);
    }
    let mut e = text::chars_of("IMUX: no local/N-S encoding from CLB_X");
    text::push_u64(&mut e, from.0 as u64);
    text::push_str(&mut e, "Y");
    text::push_u64(&mut e, from.1 as u64);
    text::push_str(&mut e, " BLE");
    text::push_u64(&mut e, dble as u64);
    text::push_str(&mut e, " to CLB_X");
    text::push_u64(&mut e, to.0 as u64);
    text::push_str(&mut e, "Y");
    text::push_u64(&mut e, to.1 as u64);
    Err(text::string_of(e.as_slice()))
}

/// The input-mux entries of the first `k` pins of cluster `i`, or the first error.
pub open spec fn pin_imux(pl: Placed, i: int, k: int) -> Result<Seq<ImuxRoute>, Seq<char>>
    decreases k,
{
    if k <= 0 {
        Ok(Seq::empty())
    } else {
        match pin_imux(pl, i, k - 1) {
            Err(e) => Err(e),
            Ok(acc) => {
                let (site, ble) = pl.lutff_sites@[i];
                let (pin, driver) = pl.packed.lutffs@[i].lut_pins@[k - 1];
                let d = lutff_index(pl, driver@, 0);
                if d < 0 {
                    Err("driver FF "@ + driver@ + " not placed"@)
                } else {
                    let (dsite, dble) = pl.lutff_sites@[d];
                    match imux_sel_of(dsite, site, dble) {
                        Err(e) => Err(e),
                        Ok(sel) => Ok(acc.push(ImuxRoute { x: site.0, y: site.1, mux: (ble * 8 + pin) as u32, sel })),
                    }
                }
            },
        }
    }
}

/// The input-mux entries of the first `n` clusters: a cluster without LUT
/// pins gets one entry selecting its own FF (16 + BLE); every other LUT pin
/// gets the selector of its driving FF.
pub open spec fn imux_of(pl: Placed, n: int) -> Result<Seq<ImuxRoute>, Seq<char>>
    decreases n,
{
    if n <= 0 {
        Ok(Seq::empty())
    } else {
        match imux_of(pl, n - 1) {
            Err(e) => Err(e),
            Ok(acc) => {
                let i = n - 1;
                let (site, ble) = pl.lutff_sites@[i];
                if pl.packed.lutffs@[i].lut_pins@.len() == 0 {
                    Ok(acc.push(ImuxRoute { x: site.0, y: site.1, mux: (ble * 8) as u32, sel: (16 + ble) as u8 }))
                } else {
                    match pin_imux(pl, i, pl.packed.lutffs@[i].lut_pins@.len() as int) {
                        Err(e) => Err(e),
                        Ok(more) => Ok(acc + more),
                    }
                }
            },
        }
    }
}

/// The slot of the first placed cluster whose FF cell is `ff`.
pub fn lutff_of(pl: &Placed, ff: &str) -> (r: Option<((u32, u32), u8)>)
    requires
        placed_ok(*pl),
    ensures
        match r {
            Some(v) => lutff_index(*pl, ff@, 0) >= 0 && v == pl.lutff_sites@[lutff_index(*pl, ff@, 0)],
            None => lutff_index(*pl, ff@, 0) < 0,
        },
{
    let mut i: usize = 0;
    while i < pl.packed.lutffs.len()
        invariant
            placed_ok(*pl),
            i <= pl.packed.lutffs@.len(),
            lutff_index(*pl, ff@, 0) == lutff_index(*pl, ff@, i as int),
        decreases pl.packed.lutffs@.len() - i,
    {
        if text::str_eq(pl.packed.lutffs[i].ff_cell.as_str(), ff) {
            return Some(pl.lutff_sites[i]);
        }
        i = i + 1;
    }
    None
}

fn imux_routes(pl: &Placed) -> (r: Result<Vec<ImuxRoute>, String>)
    requires
        placed_ok(*pl),
    ensures
        match imux_of(*pl, pl.packed.lutffs@.len() as int) {
            Ok(v) => r matches Ok(x) && x@ == v,
            Err(e) => r matches Err(m) && m@ == e,
        },
{
    let mut imux: Vec<ImuxRoute> = Vec::new();
    let mut i: usize = 0;
    while i < pl.packed.lutffs.len()
        invariant
            placed_ok(*pl),
            i <= pl.packed.lutffs@.len(),
            imux_of(*pl, i as int) == Ok::<Seq<ImuxRoute>, Seq<char>>(imux@),
        decreases pl.packed.lutffs@.len() - i,
    {
        let (site, ble) = pl.lutff_sites[i];
        let lf = &pl.packed.lutffs[i];
        if lf.lut_pins.len() == 0 {
            imux.push(ImuxRoute { x: site.0, y: site.1, mux: ble as u32 * 8, sel: 16 + ble });
        } else {
            let ghost acc = imux@;
            proof {
                assert(imux@.subrange(acc.len() as int, imux@.len() as int) =~= Seq::<ImuxRoute>::empty());
                assert(imux@.subrange(0, acc.len() as int) =~= acc);
            }
            let mut k: usize = 0;
            while k < lf.lut_pins.len()
                invariant
                    placed_ok(*pl),
                    i < pl.packed.lutffs@.len(),
                    *lf == pl.packed.lutffs@[i as int],
                    (site, ble) == pl.lutff_sites@[i as int],
                    k <= lf.lut_pins@.len(),
                    imux_of(*pl, i as int) == Ok::<Seq<ImuxRoute>, Seq<char>>(acc),
                    pin_imux(*pl, i as int, k as int) == Ok::<Seq<ImuxRoute>, Seq<char>>(imux@.subrange(acc.len() as int, imux@.len() as int)),
                    acc.len() <= imux@.len(),
                    imux@.subrange(0, acc.len() as int) == acc,
                decreases lf.lut_pins@.len() - k,
            {
                let pin = lf.lut_pins[k].0;
                let driver = lf.lut_pins[k].1.as_str();
                let (dsite, dble) = match lutff_of(pl, driver) {
                    Some(v) => v,
                    None => {
                        let mut e = text::chars_of("driver FF ");
                        text::push_str(&mut e, driver);
                        text::push_str(&mut e, " not placed");
                        proof {
                            lemma_imux_pin_err(*pl, i as int, k as int + 1, lf.lut_pins@.len() as int);
                            lemma_imux_err(*pl, i as int + 1, pl.packed.lutffs@.len() as int);
                        }
                        return Err(text::string_of(e.as_slice()));
                    },
                };
                proof {
                    let d = lutff_index(*pl, driver@, 0);
                    lemma_lutff_index_range(*pl, driver@, 0);
                    assert(pl.lutff_sites@[d].1 < 240);
                }
                let sel = match imux_sel(dsite, site, dble) {
                    Ok(v) => v,
                    Err(e) => {
                        proof {
                            lemma_imux_pin_err(*pl, i as int, k as int + 1, lf.lut_pins@.len() as int);
                            lemma_imux_err(*pl, i as int + 1, pl.packed.lutffs@.len() as int);
                        }
                        return Err(e);
                    },
                };
                let ghost before = imux@;
                imux.push(ImuxRoute { x: site.0, y: site.1, mux: ble as u32 * 8 + pin as u32, sel });
                proof {
                    assert(imux@.subrange(acc.len() as int, imux@.len() as int) =~= before.subrange(acc.len() as int, before.len() as int).push(imux@.last()));
                    assert(imux@.subrange(0, acc.len() as int) =~= before.subrange(0, acc.len() as int));
                }
                k = k + 1;
            }
            proof {
                assert(imux@ =~= acc + imux@.subrange(acc.len() as int, imux@.len() as int));
            }
        }
        i = i + 1;
    }
    Ok(imux)
}

proof fn lemma_lutff_index_range(pl: Placed, ff: Seq<char>, i: int)
    requires
        0 <= i,
    ensures
        lutff_index(pl, ff, i) >= 0 ==> i <= lutff_index(pl, ff, i) < pl.packed.lutffs@.len()
            && pl.packed.lutffs@[lutff_index(pl, ff, i)].ff_cell@ == ff,
        lutff_index(pl, ff, i) < 0 ==> lutff_index(pl, ff, i) == -1,
    decreases pl.packed.lutffs@.len() - i,
{
    if i < pl.packed.lutffs@.len() && pl.packed.lutffs@[i].ff_cell@ != ff {
        lemma_lutff_index_range(pl, ff, i + 1);
    }
}

proof fn lemma_imux_pin_err(pl: Placed, i: int, k: int, m: int)
    requires
        0 <= k <= m,
        pin_imux(pl, i, k) is Err,
    ensures
        pin_imux(pl, i, m) == pin_imux(pl, i, k),
    decreases m - k,
{
    if k < m {
        lemma_imux_pin_err(pl, i, k, m - 1);
    }
}

proof fn lemma_imux_err(pl: Placed, n: int, m: int)
    requires
        0 <= n <= m,
        imux_of(pl, n) is Err,
    ensures
        imux_of(pl, m) == imux_of(pl, n),
    decreases m - n,
{
    if n < m {
        lemma_imux_err(pl, n, m - 1);
    }
}


/// The index of the first LUTFF cluster (from `i` on) whose Q net is `net`, or -1.
pub open spec fn qnet_index(pl: Placed, net: Seq<char>, i: int) -> int
    decreases pl.packed.lutffs@.len() - i,
{
    if i < 0 || i >= pl.packed.lutffs@.len() {
        -1
    } else if pl.packed.lutffs@[i].q_net@ == net {
        i
    } else {
        qnet_index(pl, net, i + 1)
    }
}

/// The cluster that drives IOB `ii`: the first one whose Q net is the IOB's
/// `from_net`, else the first cluster.
pub open spec fn iob_driver(pl: Placed, ii: int) -> int {
    if 0 <= ii < pl.packed.iobs@.len() {
        let d = qnet_index(pl, pl.packed.iobs@[ii].from_net@, 0);
        if d < 0 { 0 } else { d }
    } else {
        0
    }
}

/// The CLB-to-IOB nets of the first `n` IOB sites: (CLB tile, IOB tile, BLE),
/// or the error for an IOB not south of its driving CLB.
pub open spec fn nets_upto(pl: Placed, n: int) -> Result<Seq<((u32, u32), (u32, u32), u8)>, Seq<char>>
    decreases n,
{
    if n <= 0 {
        Ok(Seq::empty())
    } else {
        match nets_upto(pl, n - 1) {
            Err(e) => Err(e),
            Ok(acc) => {
                let (clb, ble) = pl.lutff_sites@[iob_driver(pl, n - 1)];
                let iob = pl.iob_sites@[n - 1];
                if clb.1 <= iob.1 {
                    Err("CLB must be north of IOB"@)
                } else {
                    Ok(acc.push((clb, iob, ble)))
                }
            },
        }
    }
}

/// The nets PathFinder routes: none without LUTFF clusters, else one per IOB site.
pub open spec fn route_nets(pl: Placed) -> Result<Seq<((u32, u32), (u32, u32), u8)>, Seq<char>> {
    if pl.packed.lutffs@.len() == 0 {
        Ok(Seq::empty())
    } else {
        nets_upto(pl, pl.iob_sites@.len() as int)
    }
}

proof fn lemma_qnet_index_range(pl: Placed, net: Seq<char>, i: int)
    requires
        0 <= i,
    ensures
        qnet_index(pl, net, i) >= 0 ==> i <= qnet_index(pl, net, i) < pl.packed.lutffs@.len(),
        qnet_index(pl, net, i) < 0 ==> qnet_index(pl, net, i) == -1,
    decreases pl.packed.lutffs@.len() - i,
{
    if i < pl.packed.lutffs@.len() && pl.packed.lutffs@[i].q_net@ != net {
        lemma_qnet_index_range(pl, net, i + 1);
    }
}

proof fn lemma_nets_err(pl: Placed, n: int, m: int)
    requires
        0 <= n <= m,
        nets_upto(pl, n) is Err,
    ensures
        nets_upto(pl, m) == nets_upto(pl, n),
    decreases m - n,
{
    if n < m {
        lemma_nets_err(pl, n, m - 1);
    }
}

fn driver_of_iob(pl: &Placed, ii: usize) -> (r: usize)
    requires
        placed_ok(*pl),
        pl.packed.lutffs@.len() > 0,
    ensures
        r == iob_driver(*pl, ii as int),
        r < pl.packed.lutffs@.len(),
{
    if ii >= pl.packed.iobs.len() {
        return 0;
    }
    let net = pl.packed.iobs[ii].from_net.as_str();
    let mut i: usize = 0;
    while i < pl.packed.lutffs.len()
        invariant
            placed_ok(*pl),
            i <= pl.packed.lutffs@.len(),
            ii < pl.packed.iobs@.len(),
            net@ == pl.packed.iobs@[ii as int].from_net@,
            qnet_index(*pl, net@, 0) == qnet_index(*pl, net@, i as int),
        decreases pl.packed.lutffs@.len() - i,
    {
        if text::str_eq(pl.packed.lutffs[i].q_net.as_str(), net) {
            return i;
        }
        i = i + 1;
    }
    0
}

fn nets_of(pl: &Placed) -> (r: Result<Vec<((u32, u32), (u32, u32), u8)>, String>)
    requires
        placed_ok(*pl),
    ensures
        match route_nets(*pl) {
            Ok(v) => r matches Ok(x) && x@ == v,
            Err(e) => r matches Err(m) && m@ == e,
        },
{
    let mut nets: Vec<((u32, u32), (u32, u32), u8)> = Vec::new();
    if pl.packed.lutffs.len() == 0 {
        return Ok(nets);
    }
    let mut ii: usize = 0;
    while ii < pl.iob_sites.len()
        invariant
            placed_ok(*pl),
            pl.packed.lutffs@.len() > 0,
            ii <= pl.iob_sites@.len(),
            nets_upto(*pl, ii as int) == Ok::<Seq<((u32, u32), (u32, u32), u8)>, Seq<char>>(nets@),
        decreases pl.iob_sites@.len() - ii,
    {
        let d = driver_of_iob(pl, ii);
        let (clb, ble) = pl.lutff_sites[d];
        let iob = pl.iob_sites[ii];
        if clb.1 <= iob.1 {
            proof {
                lemma_nets_err(*pl, ii as int + 1, pl.iob_sites@.len() as int);
            }
            return Err(text::string_of(text::chars_of("CLB must be north of IOB").as_slice()));
        }
        nets.push((clb, iob, ble));
        ii = ii + 1;
    }
    Ok(nets)
}


/// How often tile `q` occurs in `s`.
pub open spec fn occ(s: Seq<(u32, u32)>, q: (u32, u32)) -> nat
    decreases s.len(),
{
    if s.len() == 0 {
        0
    } else {
        occ(s.drop_last(), q) + if s.last() == q { 1nat } else { 0nat }
    }
}

/// How often tile `q` is used over all of `ps`.
pub open spec fn uses(ps: Seq<Seq<(u32, u32)>>, q: (u32, u32)) -> nat
    decreases ps.len(),
{
    if ps.len() == 0 {
        0
    } else {
        uses(ps.drop_last(), q) + occ(ps.last(), q)
    }
}

/// The tile sequences of a list of paths.
pub open spec fn path_views(ps: Seq<Vec<(u32, u32)>>) -> Seq<Seq<(u32, u32)>> {
    ps.map_values(|p: Vec<(u32, u32)>| p@)
}

/// `n`, saturated at `u32::MAX`.
pub open spec fn sat_u32(n: int) -> u32 {
    if n > u32::MAX { u32::MAX } else if n < 0 { 0 } else { n as u32 }
}

proof fn lemma_tile_cost_update(m: Seq<((u32, u32), u32)>, i: int, t: (u32, u32), v: u32, q: (u32, u32))
    requires
        0 <= i < m.len(),
        m[i].0 == t,
        forall|j: int| 0 <= j < i ==> (#[trigger] m[j]).0 != t,
    ensures
        tile_cost(m.update(i, (t, v)), q) == if q == t { v } else { tile_cost(m, q) },
    decreases i,
{
    let m2 = m.update(i, (t, v));
    if i == 0 {
        assert(m2.drop_first() =~= m.drop_first());
    } else {
        assert(m2.drop_first() =~= m.drop_first().update(i - 1, (t, v)));
        assert forall|j: int| 0 <= j < i - 1 implies (#[trigger] m.drop_first()[j]).0 != t by {
            assert(m.drop_first()[j] == m[j + 1]);
        }
        lemma_tile_cost_update(m.drop_first(), i - 1, t, v, q);
    }
}

proof fn lemma_tile_cost_push(m: Seq<((u32, u32), u32)>, t: (u32, u32), v: u32, q: (u32, u32))
    requires
        forall|j: int| 0 <= j < m.len() ==> (#[trigger] m[j]).0 != t,
    ensures
        tile_cost(m.push((t, v)), q) == if q == t { v } else { tile_cost(m, q) },
        tile_cost(m, t) == 0,
    decreases m.len(),
{
    if m.len() > 0 {
        assert(m.push((t, v)).drop_first() =~= m.drop_first().push((t, v)));
        assert forall|j: int| 0 <= j < m.len() - 1 implies (#[trigger] m.drop_first()[j]).0 != t by {
            assert(m.drop_first()[j] == m[j + 1]);
        }
        lemma_tile_cost_push(m.drop_first(), t, v, q);
    } else {
        assert(m.push((t, v)).drop_first() =~= m);
    }
}

proof fn lemma_tile_cost_le_one(m: Seq<((u32, u32), u32)>, q: (u32, u32))
    requires
        forall|j: int| 0 <= j < m.len() ==> (#[trigger] m[j]).1 <= 1,
    ensures
        tile_cost(m, q) <= 1,
    decreases m.len(),
{
    if m.len() > 0 {
        assert forall|j: int| 0 <= j < m.len() - 1 implies (#[trigger] m.drop_first()[j]).1 <= 1 by {
            assert(m.drop_first()[j] == m[j + 1]);
        }
        lemma_tile_cost_le_one(m.drop_first(), q);
    }
}

/// Adds one use of tile `t` (saturating).
fn bump(m: &mut Vec<((u32, u32), u32)>, t: (u32, u32))
    ensures
        forall|q: (u32, u32)| #[trigger] tile_cost(final(m)@, q) == if q == t { sat_u32(tile_cost(old(m)@, q) + 1) } else { tile_cost(old(m)@, q) },
{
    let mut i: usize = 0;
    while i < m.len()
        invariant
            i <= m@.len(),
            m@ == old(m)@,
            forall|j: int| 0 <= j < i ==> (#[trigger] m@[j]).0 != t,
        decreases m@.len() - i,
    {
        if m[i].0.0 == t.0 && m[i].0.1 == t.1 {
            let c = m[i].1;
            let v: u32 = if c == u32::MAX { c } else { c + 1 };
            let ghost old_m = m@;
            m.set(i, (t, v));
            proof {
                assert forall|q: (u32, u32)| #[trigger] tile_cost(m@, q) == if q == t { sat_u32(tile_cost(old_m, q) + 1) } else { tile_cost(old_m, q) } by {
                    lemma_tile_cost_update(old_m, i as int, t, v, q);
                    lemma_tile_cost_update(old_m, i as int, t, c, t);
                    assert(old_m.update(i as int, (t, c)) =~= old_m);
                }
            }
            return;
        }
        i = i + 1;
    }
    let ghost old_m = m@;
    m.push((t, 1));
    proof {
        assert forall|q: (u32, u32)| #[trigger] tile_cost(m@, q) == if q == t { sat_u32(tile_cost(old_m, q) + 1) } else { tile_cost(old_m, q) } by {
            lemma_tile_cost_push(old_m, t, 1, q);
        }
    }
}


/// The PathFinder error for a net with no path.
pub open spec fn no_path_text(a: (u32, u32), b: (u32, u32)) -> Seq<char> {
    "PathFinder: no path "@ + tile_text(a) + " → "@ + tile_text(b)
}

/// The packed net an IOB route names: the `from_net` of IOB `i`, or empty.
pub open spec fn iob_net_name(pl: Placed, i: int) -> Seq<char> {
    if 0 <= i < pl.packed.iobs@.len() { pl.packed.iobs@[i].from_net@ } else { Seq::empty() }
}

/// An IOB route for net `n` (CLB tile, IOB tile, BLE): a grid walk from the
/// CLB to the IOB, hops = steps + `extra` (saturating), delay = hops × hop delay.
pub open spec fn iob_route_ok(r: IobRoute, n: ((u32, u32), (u32, u32), u8), g: RouteGrid, extra: u32, name: Seq<char>) -> bool {
    &&& r.clb == n.0
    &&& r.iob == n.1
    &&& r.ble == n.2
    &&& r.path@.len() > 0
    &&& r.path@[0] == n.0
    &&& r.path@.last() == n.1
    &&& grid_walk(g, r.path@)
    &&& r.hops == sat_u32(r.path@.len() - 1 + extra)
    &&& r.delay_ps == r.hops * HOP_DELAY_PS
    &&& r.net@ == name
}

/// The tile sequences of a list of IOB routes.
pub open spec fn route_paths(rs: Seq<IobRoute>) -> Seq<Seq<(u32, u32)>> {
    rs.map_values(|r: IobRoute| r.path@)
}

/// The PathFinder iteration limit: `max_iters`, at least 1.
pub open spec fn iter_limit(opts: RouteOpts) -> u32 {
    if opts.max_iters < 1 { 1 } else { opts.max_iters }
}

fn copy_path(p: &Vec<(u32, u32)>) -> (r: Vec<(u32, u32)>)
    ensures
        r@ == p@,
{
    let mut r: Vec<(u32, u32)> = Vec::new();
    let mut i: usize = 0;
    while i < p.len()
        invariant
            i <= p@.len(),
            r@ == p@.subrange(0, i as int),
        decreases p@.len() - i,
    {
        r.push(p[i]);
        i = i + 1;
        assert(r@ =~= p@.subrange(0, i as int));
    }
    assert(r@ =~= p@);
    r
}

/// Path-walks of the given nets: net `j` joins `nets[j].0` to `nets[j].1`.
pub open spec fn walks_for(g: RouteGrid, nets: Seq<((u32, u32), (u32, u32), u8)>, ps: Seq<Vec<(u32, u32)>>) -> bool {
    &&& ps.len() == nets.len()
    &&& forall|j: int| 0 <= j < ps.len() ==> {
        let p = (#[trigger] ps[j])@;
        &&& p.len() > 0
        &&& p[0] == nets[j].0
        &&& p.last() == nets[j].1
        &&& grid_walk(g, p)
    }
}

/// One PathFinder pass: every net routed by A* against the history costs,
/// with present use counted as the nets are routed in order.
fn pathfinder_pass(
    g: &RouteGrid,
    nets: &Vec<((u32, u32), (u32, u32), u8)>,
    hist: &Vec<((u32, u32), u32)>,
    pres_fac: i64,
) -> (r: Result<(Vec<Vec<(u32, u32)>>, Vec<((u32, u32), u32)>), String>)
    requires
        grid_small(*g),
        pres_fac >= 0,
        forall|j: int| 0 <= j < nets@.len() ==> small((#[trigger] nets@[j]).0) && small(nets@[j].1),
    ensures
        match r {
            Ok((ps, pres)) => walks_for(*g, nets@, ps@)
                && forall|q: (u32, u32)| #[trigger] tile_cost(pres@, q) == sat_u32(uses(path_views(ps@), q) as int),
            Err(m) => exists|j: int| 0 <= j < nets@.len() && m@ == no_path_text(nets@[j].0, nets@[j].1),
        },
{
    let mut pres: Vec<((u32, u32), u32)> = Vec::new();
    let mut paths: Vec<Vec<(u32, u32)>> = Vec::new();
    let mut ni: usize = 0;
    assert(path_views(paths@) =~= Seq::<Seq<(u32, u32)>>::empty());
    while ni < nets.len()
        invariant
            grid_small(*g),
            pres_fac >= 0,
            forall|j: int| 0 <= j < nets@.len() ==> small((#[trigger] nets@[j]).0) && small(nets@[j].1),
            ni <= nets@.len(),
            walks_for(*g, nets@.subrange(0, ni as int), paths@),
            forall|q: (u32, u32)| #[trigger] tile_cost(pres@, q) == sat_u32(uses(path_views(paths@), q) as int),
        decreases nets@.len() - ni,
    {
        let (src, dst, _) = nets[ni];
        let path = match astar(g, src, dst, hist, &pres, pres_fac) {
            Ok(p) => p,
            Err(e) => {
                return Err(e);
            },
        };
        let mut j: usize = 0;
        while j < path.len()
            invariant
                j <= path@.len(),
                forall|q: (u32, u32)| #[trigger] tile_cost(pres@, q)
                    == sat_u32((uses(path_views(paths@), q) + occ(path@.subrange(0, j as int), q)) as int),
            decreases path@.len() - j,
        {
            let t = path[j];
            let ghost before = pres@;
            bump(&mut pres, t);
            proof {
                assert forall|q: (u32, u32)| #[trigger] tile_cost(pres@, q)
                    == sat_u32((uses(path_views(paths@), q) + occ(path@.subrange(0, j + 1), q)) as int) by {
                    assert(path@.subrange(0, j + 1).drop_last() =~= path@.subrange(0, j as int));
                    assert(tile_cost(before, q) == sat_u32((uses(path_views(paths@), q) + occ(path@.subrange(0, j as int), q)) as int));
                }
            }
            j = j + 1;
        }
        let ghost old_paths = paths@;
        paths.push(path);
        proof {
            assert(path@.subrange(0, path@.len() as int) =~= path@);
            assert(path_views(paths@) =~= path_views(old_paths).push(path@));
            assert(path_views(paths@).drop_last() =~= path_views(old_paths));
            assert forall|q: (u32, u32)| #[trigger] tile_cost(pres@, q) == sat_u32(uses(path_views(paths@), q) as int) by {
                assert(uses(path_views(paths@), q) == uses(path_views(old_paths), q) + occ(path@, q));
            }
            assert(nets@.subrange(0, ni + 1).drop_last() =~= nets@.subrange(0, ni as int));
            assert forall|k: int| 0 <= k < paths@.len() implies {
                let p = (#[trigger] paths@[k])@;
                &&& p.len() > 0
                &&& p[0] == nets@.subrange(0, ni + 1)[k].0
                &&& p.last() == nets@.subrange(0, ni + 1)[k].1
                &&& grid_walk(*g, p)
            } by {
                if k < ni {
                    assert(paths@[k] == old_paths[k]);
                }
            }
        }
        ni = ni + 1;
    }
    assert(nets@.subrange(0, nets@.len() as int) =~= nets@);
    Ok((paths, pres))
}


/// The number of tiles used more than once (saturating); zero exactly when
/// every entry counts at most one use.
fn count_overused(pres: &Vec<((u32, u32), u32)>) -> (r: u32)
    ensures
        r == 0 <==> forall|j: int| 0 <= j < pres@.len() ==> (#[trigger] pres@[j]).1 <= 1,
{
    let mut n: u32 = 0;
    let mut i: usize = 0;
    while i < pres.len()
        invariant
            i <= pres@.len(),
            n == 0 <==> forall|j: int| 0 <= j < i ==> (#[trigger] pres@[j]).1 <= 1,
        decreases pres@.len() - i,
    {
        if pres[i].1 > 1 {
            n = if n == u32::MAX { n } else { n + 1 };
        }
        i = i + 1;
    }
    n
}

/// What routing a placement gives: the input-mux error, the net error, a
/// no-path error for one of the nets, or the routes of every net.
pub open spec fn routed_as(pl: Placed, g: RouteGrid, opts: RouteOpts, r: Result<Routed, String>) -> bool {
    match imux_of(pl, pl.packed.lutffs@.len() as int) {
        Err(e) => r matches Err(m) && m@ == e,
        Ok(v) => match route_nets(pl) {
            Err(e) => r matches Err(m) && m@ == e,
            Ok(nets) => match r {
                Err(m) => exists|j: int| 0 <= j < nets.len() && m@ == no_path_text(nets[j].0, nets[j].1),
                Ok(x) => {
                    &&& x.imux@ == v
                    &&& x.iob_src@.len() == nets.len()
                    &&& forall|j: int| 0 <= j < nets.len() ==> iob_route_ok(#[trigger] x.iob_src@[j], nets[j], g, opts.extra_hops, iob_net_name(pl, j))
                    &&& nets.len() == 0 ==> x.pathfinder_iters == 0 && x.overused == 0
                    &&& nets.len() > 0 ==> 1 <= x.pathfinder_iters <= iter_limit(opts)
                    &&& x.overused > 0 ==> x.pathfinder_iters == iter_limit(opts)
                    &&& x.overused == 0 ==> forall|q: (u32, u32)| #[trigger] uses(route_paths(x.iob_src@), q) <= 1
                },
            },
        },
    }
}

/// Negotiated routing of a placement: the input muxes of every LUTFF
/// cluster, then PathFinder over the CLB-to-IOB nets (at most
/// `max(max_iters, 1)` passes, stopping at the first pass that uses no tile
/// twice; tiles used twice raise their history cost for the next pass).
pub fn route_with(pl: &Placed, g: &RouteGrid, opts: RouteOpts) -> (r: Result<Routed, String>)
    requires
        placed_ok(*pl),
        grid_small(*g),
    ensures
        routed_as(*pl, *g, opts, r),

{
    let imux = match imux_routes(pl) {
        Ok(v) => v,
        Err(e) => {
            return Err(e);
        },
    };
    let nets = match nets_of(pl) {
        Ok(v) => v,
        Err(e) => {
            return Err(e);
        },
    };
    if nets.len() == 0 {
        return Ok(Routed { placed: pl.clone(), iob_src: Vec::new(), imux, pathfinder_iters: 0, overused: 0 });
    }
    proof {
        assert forall|j: int| 0 <= j < nets@.len() implies small((#[trigger] nets@[j]).0) && small(nets@[j].1) by {
            lemma_nets_facts(*pl, pl.iob_sites@.len() as int, j);
        }
    }
    let max_iters: u32 = if opts.max_iters < 1 { 1 } else { opts.max_iters };
    let mut hist: Vec<((u32, u32), u32)> = Vec::new();
    let mut last_paths: Vec<Vec<(u32, u32)>> = Vec::new();
    let mut overused: u32 = 0;
    let mut iter: u32 = 0;
    let mut done = false;
    while iter < max_iters && !done
        invariant
            grid_small(*g),
            max_iters == iter_limit(opts),
            iter <= max_iters,
            forall|j: int| 0 <= j < nets@.len() ==> small((#[trigger] nets@[j]).0) && small(nets@[j].1),
            iter > 0 ==> walks_for(*g, nets@, last_paths@),
            iter > 0 ==> (overused == 0 ==> forall|q: (u32, u32)| #[trigger] uses(path_views(last_paths@), q) <= 1),
            done ==> overused == 0 && iter > 0,
            !done && iter > 0 ==> overused > 0,
            placed_ok(*pl),
            imux_of(*pl, pl.packed.lutffs@.len() as int) == Ok::<Seq<ImuxRoute>, Seq<char>>(imux@),
            route_nets(*pl) == Ok::<Seq<((u32, u32), (u32, u32), u8)>, Seq<char>>(nets@),
        decreases max_iters - iter,
    {
        let pres_fac: i64 = 1 + iter as i64;
        let (paths, pres) = match pathfinder_pass(g, &nets, &hist, pres_fac) {
            Ok(v) => v,
            Err(e) => {
                proof {
                    let j = choose|j: int| 0 <= j < nets@.len() && e@ == no_path_text(nets@[j].0, nets@[j].1);
                    assert(0 <= j < nets@.len() && e@ == no_path_text(nets@[j].0, nets@[j].1));
                    assert(route_nets(*pl) is Ok);
                    assert(route_nets(*pl)->Ok_0 == nets@);
                    assert(imux_of(*pl, pl.packed.lutffs@.len() as int) is Ok);
                    assert(exists|j: int| 0 <= j < route_nets(*pl)->Ok_0.len() && e@ == no_path_text(route_nets(*pl)->Ok_0[j].0, route_nets(*pl)->Ok_0[j].1));
                }
                return Err(e);
            },
        };
        overused = count_overused(&pres);
        if overused == 0 {
            proof {
                assert forall|q: (u32, u32)| #[trigger] uses(path_views(paths@), q) <= 1 by {
                    lemma_tile_cost_le_one(pres@, q);
                    assert(tile_cost(pres@, q) == sat_u32(uses(path_views(paths@), q) as int));
                }
            }
            done = true;
        } else {
            let mut k: usize = 0;
            while k < pres.len()
                invariant
                    k <= pres@.len(),
                decreases pres@.len() - k,
            {
                if pres[k].1 > 1 {
                    bump(&mut hist, pres[k].0);
                }
                k = k + 1;
            }
        }
        last_paths = paths;
        iter = iter + 1;
    }
    let mut iob_src: Vec<IobRoute> = Vec::new();
    let mut i: usize = 0;
    while i < nets.len()
        invariant
            i <= nets@.len(),
            walks_for(*g, nets@, last_paths@),
            iob_src@.len() == i,
            forall|j: int| 0 <= j < i ==> iob_route_ok(#[trigger] iob_src@[j], nets@[j], *g, opts.extra_hops, iob_net_name(*pl, j)),
            forall|j: int| 0 <= j < i ==> (#[trigger] iob_src@[j]).path@ == last_paths@[j]@,
            placed_ok(*pl),
        decreases nets@.len() - i,
    {
        let (src, dst, ble) = nets[i];
        let path = copy_path(&last_paths[i]);
        let steps: u128 = (path.len() - 1) as u128 + opts.extra_hops as u128;
        let hops: u32 = if steps > u32::MAX as u128 { u32::MAX } else { steps as u32 };
        let net = if i < pl.packed.iobs.len() { pl.packed.iobs[i].from_net.clone() } else { String::new() };
        iob_src.push(IobRoute { iob: dst, clb: src, ble, hops, delay_ps: hops as i64 * HOP_DELAY_PS, path, net });
        i = i + 1;
    }
    proof {
        assert(route_paths(iob_src@) =~= path_views(last_paths@));
    }
    Ok(Routed { placed: pl.clone(), iob_src, imux, pathfinder_iters: iter, overused })
}

/// Routing with the default options.
pub fn route(pl: &Placed, g: &RouteGrid) -> (r: Result<Routed, String>)
    requires
        placed_ok(*pl),
        grid_small(*g),
    ensures
        routed_as(*pl, *g, RouteOpts { max_iters: 8, extra_hops: 0 }, r),
{
    route_with(pl, g, RouteOpts::default())
}

proof fn lemma_nets_facts(pl: Placed, n: int, j: int)
    requires
        placed_ok(pl),
        pl.packed.lutffs@.len() > 0,
        0 <= n <= pl.iob_sites@.len(),
        nets_upto(pl, n) is Ok,
        0 <= j < nets_upto(pl, n)->Ok_0.len(),
    ensures
        small(nets_upto(pl, n)->Ok_0[j].0),
        small(nets_upto(pl, n)->Ok_0[j].1),
    decreases n,
{
    let acc = nets_upto(pl, n - 1)->Ok_0;
    let d = iob_driver(pl, n - 1);
    if n - 1 < pl.packed.iobs@.len() {
        lemma_qnet_index_range(pl, pl.packed.iobs@[n - 1].from_net@, 0);
    }
    assert(0 <= d < pl.lutff_sites@.len());
    assert(small(pl.lutff_sites@[d].0));
    if j < acc.len() {
        lemma_nets_facts(pl, n - 1, j);
    }
}


proof fn lemma_occ_contains(s: Seq<(u32, u32)>, k: int)
    requires
        0 <= k < s.len(),
    ensures
        occ(s, s[k]) >= 1,
    decreases s.len(),
{
    if k < s.len() - 1 {
        lemma_occ_contains(s.drop_last(), k);
        assert(s.drop_last()[k] == s[k]);
    }
}

proof fn lemma_uses_ge_one(ps: Seq<Seq<(u32, u32)>>, k: int, q: (u32, u32))
    requires
        0 <= k < ps.len(),
    ensures
        uses(ps, q) >= occ(ps[k], q),
    decreases ps.len(),
{
    if k < ps.len() - 1 {
        lemma_uses_ge_one(ps.drop_last(), k, q);
        assert(ps.drop_last()[k] == ps[k]);
    }
}

proof fn lemma_uses_ge_two(ps: Seq<Seq<(u32, u32)>>, i: int, j: int, q: (u32, u32))
    requires
        0 <= i < j < ps.len(),
    ensures
        uses(ps, q) >= occ(ps[i], q) + occ(ps[j], q),
    decreases ps.len(),
{
    if j == ps.len() - 1 {
        lemma_uses_ge_one(ps.drop_last(), i, q);
        assert(ps.drop_last()[i] == ps[i]);
    } else {
        lemma_uses_ge_two(ps.drop_last(), i, j, q);
        assert(ps.drop_last()[i] == ps[i]);
        assert(ps.drop_last()[j] == ps[j]);
    }
}

/// When routing ends with no overused tile, no tile lies on the routes of two
/// different nets.
pub proof fn routes_share_no_tile(pl: Placed, g: RouteGrid, opts: RouteOpts, r: Routed, i: int, j: int, q: (u32, u32))
    requires
        routed_as(pl, g, opts, Ok(r)),
        r.overused == 0,
        0 <= i < j < r.iob_src@.len(),
    ensures
        !(r.iob_src@[i].path@.contains(q) && r.iob_src@[j].path@.contains(q)),
{
    let ps = route_paths(r.iob_src@);
    assert(uses(ps, q) <= 1);
    if r.iob_src@[i].path@.contains(q) && r.iob_src@[j].path@.contains(q) {
        let a = choose|k: int| 0 <= k < r.iob_src@[i].path@.len() && r.iob_src@[i].path@[k] == q;
        let b = choose|k: int| 0 <= k < r.iob_src@[j].path@.len() && r.iob_src@[j].path@[k] == q;
        lemma_occ_contains(r.iob_src@[i].path@, a);
        lemma_occ_contains(r.iob_src@[j].path@, b);
        lemma_uses_ge_two(ps, i, j, q);
        assert(ps[i] == r.iob_src@[i].path@);
        assert(ps[j] == r.iob_src@[j].path@);
    }
}

} // verus!
