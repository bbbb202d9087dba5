//! Helion netlist IR (HNF): structural cells, nets, ports, attributes,
//! hierarchy, and the line-oriented HNF text format.

use vstd::prelude::*;
use vstd::hash_map::StringHashMap;
use crate::text;

verus! {

// ---------------------------------------------------------------------------
// Attributes
// ---------------------------------------------------------------------------

/// Key/value attributes with unique keys, kept in key order.
#[derive(Debug)]
pub struct Attrs {
    map: Vec<(String, String)>,
}

/// The text view of stored pairs.
pub open spec fn kv(m: Seq<(String, String)>) -> Seq<(Seq<char>, Seq<char>)> {
    m.map_values(|e: (String, String)| (e.0@, e.1@))
}

/// Index holding key `k` in `m` (meaningful when present).
pub open spec fn pairs_index_of(m: Seq<(Seq<char>, Seq<char>)>, k: Seq<char>) -> int {
    choose|i: int| 0 <= i < m.len() && (#[trigger] m[i]).0 == k
}

/// Keys of `m` are unique.
pub open spec fn pairs_unique(m: Seq<(Seq<char>, Seq<char>)>) -> bool {
    forall|i: int, j: int|
        0 <= i < m.len() && 0 <= j < m.len() && i != j ==> (#[trigger] m[i]).0 != (#[trigger] m[j]).0
}

/// Value stored under `k` in `m`, if any.
pub open spec fn pairs_lookup(m: Seq<(Seq<char>, Seq<char>)>, k: Seq<char>) -> Option<Seq<char>> {
    if exists|i: int| 0 <= i < m.len() && (#[trigger] m[i]).0 == k {
        Some(m[pairs_index_of(m, k)].1)
    } else {
        None
    }
}

pub proof fn lemma_pairs_lookup_at(m: Seq<(Seq<char>, Seq<char>)>, i: int)
    requires
        pairs_unique(m),
        0 <= i < m.len(),
    ensures
        pairs_lookup(m, m[i].0) == Some(m[i].1),
{
    let k = m[i].0;
    assert(m[i].0 == k);
    let j = pairs_index_of(m, k);
    assert(m[j].0 == k);
}

proof fn lemma_pairs_lookup_update(
    m: Seq<(Seq<char>, Seq<char>)>,
    o: Seq<(Seq<char>, Seq<char>)>,
    i: int,
    q: Seq<char>,
)
    requires
        pairs_unique(m),
        pairs_unique(o),
        m.len() == o.len(),
        0 <= i < m.len(),
        m[i].0 == o[i].0,
        forall|x: int| 0 <= x < m.len() && x != i ==> m[x] == o[x],
        q != m[i].0,
    ensures
        pairs_lookup(m, q) == pairs_lookup(o, q),
{
    if exists|x: int| 0 <= x < o.len() && (#[trigger] o[x]).0 == q {
        let x = choose|x: int| 0 <= x < o.len() && (#[trigger] o[x]).0 == q;
        assert(m[x] == o[x]);
        lemma_pairs_lookup_at(o, x);
        lemma_pairs_lookup_at(m, x);
    } else if exists|x: int| 0 <= x < m.len() && (#[trigger] m[x]).0 == q {
        let x = choose|x: int| 0 <= x < m.len() && (#[trigger] m[x]).0 == q;
        assert(o[x].0 == q);
    }
}

/// `a` sorts before `b`: the order of `String`, char by char.
pub open spec fn str_lt(a: Seq<char>, b: Seq<char>) -> bool
    decreases a.len(),
{
    if b.len() == 0 {
        false
    } else if a.len() == 0 {
        true
    } else if a[0] != b[0] {
        (a[0] as int) < (b[0] as int)
    } else {
        str_lt(a.drop_first(), b.drop_first())
    }
}

/// Keys of `m` strictly increasing.
pub open spec fn pairs_sorted(m: Seq<(Seq<char>, Seq<char>)>) -> bool {
    forall|i: int, j: int| 0 <= i < j < m.len() ==> str_lt((#[trigger] m[i]).0, (#[trigger] m[j]).0)
}

pub proof fn lemma_str_lt_irreflexive(a: Seq<char>)
    ensures
        !str_lt(a, a),
    decreases a.len(),
{
    if a.len() > 0 {
        lemma_str_lt_irreflexive(a.drop_first());
    }
}

pub proof fn lemma_str_lt_total(a: Seq<char>, b: Seq<char>)
    requires
        a != b,
    ensures
        str_lt(a, b) || str_lt(b, a),
    decreases a.len(),
{
    if a.len() > 0 && b.len() > 0 && a[0] == b[0] {
        if a.drop_first() == b.drop_first() {
            assert(a =~= seq![a[0]] + a.drop_first());
            assert(b =~= seq![b[0]] + b.drop_first());
        }
        lemma_str_lt_total(a.drop_first(), b.drop_first());
    } else if a.len() > 0 && b.len() > 0 {
        assert((a[0] as int) != (b[0] as int));
    } else if a.len() == 0 && b.len() == 0 {
        assert(a =~= b);
    }
}

pub proof fn lemma_str_lt_trans(a: Seq<char>, b: Seq<char>, c: Seq<char>)
    requires
        str_lt(a, b),
        str_lt(b, c),
    ensures
        str_lt(a, c),
    decreases a.len(),
{
    if a.len() > 0 && a[0] == b[0] && b[0] == c[0] {
        lemma_str_lt_trans(a.drop_first(), b.drop_first(), c.drop_first());
    }
}

pub proof fn lemma_sorted_unique(m: Seq<(Seq<char>, Seq<char>)>)
    requires
        pairs_sorted(m),
    ensures
        pairs_unique(m),
{
    assert forall|i: int, j: int| 0 <= i < m.len() && 0 <= j < m.len() && i != j implies (#[trigger] m[i]).0 != (#[trigger] m[j]).0 by {
        if i < j {
            assert(str_lt(m[i].0, m[j].0));
            lemma_str_lt_irreflexive(m[i].0);
        } else {
            assert(str_lt(m[j].0, m[i].0));
            lemma_str_lt_irreflexive(m[j].0);
        }
    }
}

/// Whether `a` sorts before `b`.
pub fn chars_lt(a: &Vec<char>, b: &Vec<char>) -> (r: bool)
    ensures
        r == str_lt(a@, b@),
{
    let mut i: usize = 0;
    assert(a@.subrange(0, a@.len() as int) =~= a@);
    assert(b@.subrange(0, b@.len() as int) =~= b@);
    while i < a.len() && i < b.len() && a[i] == b[i]
        invariant
            i <= a@.len(),
            i <= b@.len(),
            str_lt(a@, b@) == str_lt(a@.subrange(i as int, a@.len() as int), b@.subrange(i as int, b@.len() as int)),
        decreases a@.len() - i,
    {
        let ghost x = a@.subrange(i as int, a@.len() as int);
        let ghost y = b@.subrange(i as int, b@.len() as int);
        assert(x.drop_first() =~= a@.subrange(i + 1, a@.len() as int));
        assert(y.drop_first() =~= b@.subrange(i + 1, b@.len() as int));
        i = i + 1;
    }
    let ghost x = a@.subrange(i as int, a@.len() as int);
    let ghost y = b@.subrange(i as int, b@.len() as int);
    if i >= b.len() {
        false
    } else if i >= a.len() {
        true
    } else {
        assert(x[0] == a@[i as int] && y[0] == b@[i as int]);
        a[i] < b[i]
    }
}

/// Insert or overwrite `k` in a key-sorted pair list, keeping it sorted.
fn pairs_set(m: &mut Vec<(String, String)>, k: &str, v: &str)
    requires
        pairs_sorted(kv(old(m)@)),
    ensures
        pairs_sorted(kv(final(m)@)),
        pairs_unique(kv(final(m)@)),
        pairs_lookup(kv(final(m)@), k@) == Some(v@),
        forall|q: Seq<char>| q != k@ ==> pairs_lookup(kv(final(m)@), q) == pairs_lookup(kv(old(m)@), q),
{
    let ghost o = kv(m@);
    proof {
        lemma_sorted_unique(o);
    }
    let kc = text::chars_of(k);
    let mut i: usize = 0;
    while i < m.len() && chars_lt(&text::chars_of(m[i].0.as_str()), &kc)
        invariant
            i <= m@.len(),
            m@ == old(m)@,
            o == kv(m@),
            kc@ == k@,
            forall|x: int| 0 <= x < i ==> str_lt((#[trigger] o[x]).0, k@),
        decreases m@.len() - i,
    {
        i = i + 1;
    }
    if i < m.len() && text::eq_chars(&text::chars_of(m[i].0.as_str()), &kc) {
        assert(o[i as int].0 == k@);
        let key = text::owned(k);
        m.set(i, (key, text::owned(v)));
        proof {
            let n = kv(m@);
            assert forall|a: int, b: int| 0 <= a < b < n.len() implies str_lt((#[trigger] n[a]).0, (#[trigger] n[b]).0) by {
                assert(o[a].0 == n[a].0);
                assert(o[b].0 == n[b].0);
            }
            lemma_sorted_unique(n);
            lemma_pairs_lookup_at(n, i as int);
            assert forall|q: Seq<char>| q != k@ implies pairs_lookup(n, q) == pairs_lookup(o, q) by {
                assert forall|x: int| 0 <= x < n.len() && x != i implies n[x] == o[x] by {}
                lemma_pairs_lookup_update(n, o, i as int, q);
            }
        }
        return;
    }
    proof {
        if i < o.len() {
            assert(!str_lt(o[i as int].0, k@));
            assert(o[i as int].0 != k@);
            lemma_str_lt_total(o[i as int].0, k@);
            assert forall|y: int| i < y < o.len() implies str_lt(k@, #[trigger] o[y].0) by {
                assert(str_lt(o[i as int].0, o[y].0));
                lemma_str_lt_trans(k@, o[i as int].0, o[y].0);
            }
        }
    }
    m.insert(i, (text::owned(k), text::owned(v)));
    proof {
        let n = kv(m@);
        assert(n.len() == o.len() + 1);
        assert forall|x: int| 0 <= x < i implies #[trigger] n[x] == o[x] by {}
        assert forall|x: int| i < x < n.len() implies #[trigger] n[x] == o[x - 1] by {}
        assert(n[i as int] == (k@, v@));
        assert forall|a: int, b: int| 0 <= a < b < n.len() implies str_lt((#[trigger] n[a]).0, (#[trigger] n[b]).0) by {
            if b < i {
                assert(n[a] == o[a] && n[b] == o[b]);
            } else if b == i {
                assert(n[a] == o[a]);
            } else if a == i {
                assert(n[b] == o[b - 1]);
            } else if a < i {
                assert(n[a] == o[a] && n[b] == o[b - 1]);
                assert(str_lt(o[a].0, k@));
                if b - 1 == i {
                } else {
                    assert(str_lt(o[a].0, o[b - 1].0));
                }
            } else {
                assert(n[a] == o[a - 1] && n[b] == o[b - 1]);
            }
        }
        lemma_sorted_unique(n);
        lemma_pairs_lookup_at(n, i as int);
        assert forall|q: Seq<char>| q != k@ implies pairs_lookup(n, q) == pairs_lookup(o, q) by {
            if exists|x: int| 0 <= x < o.len() && (#[trigger] o[x]).0 == q {
                let x = choose|x: int| 0 <= x < o.len() && (#[trigger] o[x]).0 == q;
                let y = if x < i { x } else { x + 1 };
                assert(n[y] == o[x]);
                lemma_pairs_lookup_at(o, x);
                lemma_pairs_lookup_at(n, y);
            }
            if exists|x: int| 0 <= x < n.len() && (#[trigger] n[x]).0 == q {
                let x = choose|x: int| 0 <= x < n.len() && (#[trigger] n[x]).0 == q;
                assert(x != i);
                if x < i {
                    assert(o[x].0 == q);
                } else {
                    assert(o[x - 1].0 == q);
                }
            }
        }
    }
}

/// A copy of `m` with the same text view.
fn pairs_copy(m: &Vec<(String, String)>) -> (r: Vec<(String, String)>)
    ensures
        kv(r@) == kv(m@),
{
    let mut r: Vec<(String, String)> = Vec::new();
    let mut i: usize = 0;
    while i < m.len()
        invariant
            i <= m@.len(),
            kv(r@) == kv(m@).subrange(0, i as int),
        decreases m@.len() - i,
    {
        let ghost old_r = r@;
        assert(kv(old_r).len() == i);
        assert(old_r.len() == i);
        let a = text::owned(m[i].0.as_str());
        let b = text::owned(m[i].1.as_str());
        r.push((a, b));
        proof {
            assert(r@ == old_r.push((a, b)));
            assert forall|j: int| 0 <= j < i implies kv(r@)[j] == kv(old_r)[j] by {
                assert(r@[j] == old_r[j]);
            }
            assert(kv(r@)[i as int] == (a@, b@));
        }
        i = i + 1;
        assert(kv(r@) =~= kv(m@).subrange(0, i as int));
    }
    assert(kv(m@).subrange(0, m@.len() as int) =~= kv(m@));
    r
}

impl Attrs {
    /// The stored `(key, value)` pairs, in key order.
    pub closed spec fn pairs(&self) -> Seq<(Seq<char>, Seq<char>)> {
        kv(self.map@)
    }

    #[verifier::type_invariant]
    closed spec fn inv(&self) -> bool {
        pairs_sorted(kv(self.map@))
    }

    /// Value stored under `k`, if any.
    pub open spec fn lookup(&self, k: Seq<char>) -> Option<Seq<char>> {
        pairs_lookup(self.pairs(), k)
    }

    /// The stored `(key, value)` pairs, in key order.
    pub fn entries(&self) -> (r: &Vec<(String, String)>)
        ensures
            kv(r@) == self.pairs(),
            pairs_unique(kv(r@)),
            pairs_sorted(kv(r@)),
    {
        proof {
            use_type_invariant(self);
            lemma_sorted_unique(kv(self.map@));
        }
        &self.map
    }

    pub fn new() -> (a: Attrs)
        ensures
            a.pairs().len() == 0,
            forall|q: Seq<char>| a.lookup(q) is None,
    {
        Attrs { map: Vec::new() }
    }

    /// Insert or overwrite `k`.
    pub fn set(&mut self, k: &str, v: &str)
        ensures
            final(self).lookup(k@) == Some(v@),
            forall|q: Seq<char>| q != k@ ==> final(self).lookup(q) == old(self).lookup(q),
    {
        proof {
            use_type_invariant(&*self);
        }
        let mut m: Vec<(String, String)> = Vec::new();
        std::mem::swap(&mut m, &mut self.map);
        pairs_set(&mut m, k, v);
        self.map = m;
    }

    /// Value under `k`.
    pub fn get(&self, k: &str) -> (r: Option<&str>)
        ensures
            match self.lookup(k@) {
                Some(v) => r matches Some(s) && s@ == v,
                None => r is None,
            },
    {
        proof {
            use_type_invariant(self);
            lemma_sorted_unique(kv(self.map@));
        }
        let kc = text::chars_of(k);
        let mut i: usize = 0;
        while i < self.map.len()
            invariant
                i <= self.map@.len(),
                pairs_unique(kv(self.map@)),
                kc@ == k@,
                forall|x: int| 0 <= x < i ==> (#[trigger] self.map@[x]).0@ != k@,
            decreases self.map@.len() - i,
        {
            let kk = text::chars_of(self.map[i].0.as_str());
            if text::eq_chars(&kk, &kc) {
                proof {
                    lemma_pairs_lookup_at(kv(self.map@), i as int);
                }
                return Some(self.map[i].1.as_str());
            }
            i = i + 1;
        }
        None
    }

    /// `get(k)` is one of `1`, `true`, `TRUE`, `yes`.
    pub fn flag(&self, k: &str) -> (r: bool)
        ensures
            r == (self.lookup(k@) matches Some(v) && is_flag_true(v)),
    {
        match self.get(k) {
            Some(v) => {
                let w = text::chars_of(v);
                text::eq_str(&w, "1") || text::eq_str(&w, "true") || text::eq_str(&w, "TRUE")
                    || text::eq_str(&w, "yes")
            },
            None => false,
        }
    }
}

impl Clone for Attrs {
    fn clone(&self) -> (r: Attrs)
        ensures
            r.pairs() == self.pairs(),
    {
        proof {
            use_type_invariant(self);
        }
        Attrs { map: pairs_copy(&self.map) }
    }
}

/// The values `Attrs::flag` reads as set.
pub open spec fn is_flag_true(v: Seq<char>) -> bool {
    v == "1"@ || v == "true"@ || v == "TRUE"@ || v == "yes"@
}

// ---------------------------------------------------------------------------
// Netlist data
// ---------------------------------------------------------------------------

#[derive(Clone, Copy, Debug, PartialEq, Eq)]
pub enum PortDir {
    In,
    Out,
    Inout,
}

#[derive(Clone, Debug)]
pub struct Port {
    pub name: String,
    pub dir: PortDir,
    pub attrs: Attrs,
}

#[derive(Clone, Debug)]
pub enum CellKind {
    /// Logical LUT6. Bit `addr` of `init` is the output for inputs `{I5..I0}` as `addr`.
    Lut6 { init: u64 },
    /// Logical flip-flop (HELIONLIB HFF).
    Hff,
    /// Output IOB driving a top port.
    IobOut,
    /// DSP MAC27 (pre-add * mul + acc). Site primitive.
    Mac27,
    /// Inserted ILA core capturing `net`.
    Ila { net: String },
    /// Block RAM 18Kb (true dual-port primitive).
    Bram18,
    /// Hierarchical black box (unelaborated IP / DFX partition).
    BlackBox { module: String },
}

#[derive(Clone, Debug)]
pub struct Cell {
    pub name: String,
    pub kind: CellKind,
    pub attrs: Attrs,
}

#[derive(Clone, Debug)]
pub struct Endpoint {
    pub cell: String,
    pub pin: String,
}

#[derive(Clone, Debug)]
pub struct Net {
    pub name: String,
    pub endpoints: Vec<Endpoint>,
    pub attrs: Attrs,
}

#[derive(Clone, Debug)]
pub struct Instance {
    pub name: String,
    pub module: String,
    pub conns: Vec<(String, String)>,
    pub attrs: Attrs,
}

impl Endpoint {
    pub open spec fn is(&self, cell: Seq<char>, pin: Seq<char>) -> bool {
        self.cell@ == cell && self.pin@ == pin
    }
}

impl Net {
    /// Some endpoint of this net is `cell/pin`.
    pub open spec fn has_endpoint(&self, cell: Seq<char>, pin: Seq<char>) -> bool {
        exists|j: int| 0 <= j < self.endpoints@.len() && (#[trigger] self.endpoints@[j]).is(cell, pin)
    }
}

/// Index of the first net holding `cell/pin` (from `k` on), or the length.
pub open spec fn first_ep_net(ns: Seq<Net>, cell: Seq<char>, pin: Seq<char>, k: int) -> int
    decreases ns.len() - k,
{
    if k < 0 || k >= ns.len() {
        ns.len() as int
    } else if ns[k].has_endpoint(cell, pin) {
        k
    } else {
        first_ep_net(ns, cell, pin, k + 1)
    }
}

proof fn lemma_first_ep_range(ns: Seq<Net>, cell: Seq<char>, pin: Seq<char>, k: int)
    requires
        0 <= k,
    ensures
        k <= first_ep_net(ns, cell, pin, k) <= ns.len() || first_ep_net(ns, cell, pin, k) == ns.len(),
        0 <= first_ep_net(ns, cell, pin, k) <= ns.len(),
        first_ep_net(ns, cell, pin, k) < ns.len() ==> ns[first_ep_net(ns, cell, pin, k)].has_endpoint(cell, pin),
    decreases ns.len() - k,
{
    if k < ns.len() && !ns[k].has_endpoint(cell, pin) {
        lemma_first_ep_range(ns, cell, pin, k + 1);
    }
}

proof fn lemma_first_ep_none(ns: Seq<Net>, cell: Seq<char>, pin: Seq<char>, k: int)
    requires
        0 <= k,
        forall|m: int| k <= m < ns.len() ==> !(#[trigger] ns[m]).has_endpoint(cell, pin),
    ensures
        first_ep_net(ns, cell, pin, k) == ns.len(),
    decreases ns.len() - k,
{
    if k < ns.len() {
        lemma_first_ep_none(ns, cell, pin, k + 1);
    }
}

/// Index key of a cell pin.
pub open spec fn pin_key(cell: Seq<char>, pin: Seq<char>) -> Seq<char> {
    cell + seq!['/'] + pin
}

fn pin_key_exec(cell: &str, pin: &str) -> (r: String)
    ensures
        r@ == pin_key(cell@, pin@),
{
    let mut v = text::chars_of(cell);
    v.push('/');
    text::push_str(&mut v, pin);
    text::string_of(v.as_slice())
}

/// Gold INIT words for a 4-bit incrementer with I0=q0 .. Ii=qi (I0 = LSB of addr).
/// bit0: ~I0; bit1: I1^I0; bit2: I2^(I1&I0); bit3: I3^(I2&I1&I0).
pub const INC4_INIT: [u64; 4] = [
    0x5555_5555_5555_5555,
    0x6666_6666_6666_6666,
    0x7878_7878_7878_7878,
    0x7F80_7F80_7F80_7F80,
];

/// Structural netlist with name indexes for cells, nets and pins.
pub struct Design {
    pub name: String,
    pub ports: Vec<Port>,
    pub cells: Vec<Cell>,
    pub nets: Vec<Net>,
    pub instances: Vec<Instance>,
    pub attrs: Attrs,
    /// Name lookup tables (kept in step by the mutating methods).
    pub index: NameIndex,
}

/// Name → position tables of a [`Design`].
pub struct NameIndex {
    /// Net name → an index in `nets` (covers every net name).
    net_ix: StringHashMap<usize>,
    /// `cell/pin` → an index in `nets` (covers every endpoint).
    pin_ix: StringHashMap<usize>,
    /// Cell name → an index in `cells` (covers every cell name).
    cell_ix: StringHashMap<usize>,
}

impl NameIndex {
    /// No name is held in any of the three tables.
    pub closed spec fn holds_no_names(&self) -> bool {
        &&& self.net_ix@ == Map::<Seq<char>, usize>::empty()
        &&& self.pin_ix@ == Map::<Seq<char>, usize>::empty()
        &&& self.cell_ix@ == Map::<Seq<char>, usize>::empty()
    }

    pub fn new() -> (r: NameIndex)
        ensures
            r.holds_no_names(),
    {
        NameIndex {
            net_ix: StringHashMap::new(),
            pin_ix: StringHashMap::new(),
            cell_ix: StringHashMap::new(),
        }
    }
}

impl Design {
    /// Some net is named `n`.
    pub open spec fn has_net(&self, n: Seq<char>) -> bool {
        exists|i: int| 0 <= i < self.nets@.len() && (#[trigger] self.nets@[i]).name@ == n
    }

    /// Some cell is named `n`.
    pub open spec fn has_cell(&self, n: Seq<char>) -> bool {
        exists|i: int| 0 <= i < self.cells@.len() && (#[trigger] self.cells@[i]).name@ == n
    }

    /// Some net has endpoint `cell/pin`.
    pub open spec fn pin_connected(&self, cell: Seq<char>, pin: Seq<char>) -> bool {
        exists|i: int| 0 <= i < self.nets@.len() && (#[trigger] self.nets@[i]).has_endpoint(cell, pin)
    }

    /// The net the pin index names for `cell/pin` (the one that pin was last
    /// connected or merged to), when that net still holds the pin.
    pub closed spec fn indexed_pin_net(&self, cell: Seq<char>, pin: Seq<char>) -> Option<int> {
        let key = pin_key(cell, pin);
        if self.index.pin_ix@.contains_key(key) && self.index.pin_ix@[key] < self.nets@.len()
            && self.nets@[self.index.pin_ix@[key] as int].has_endpoint(cell, pin) {
            Some(self.index.pin_ix@[key] as int)
        } else {
            None
        }
    }

    /// Name of the net reported for `cell/pin`: the indexed net, or else the
    /// first net holding the pin.
    pub open spec fn pin_net_name(&self, cell: Seq<char>, pin: Seq<char>) -> Option<Seq<char>> {
        match self.indexed_pin_net(cell, pin) {
            Some(i) => Some(self.nets@[i].name@),
            None => {
                let k = first_ep_net(self.nets@, cell, pin, 0);
                if k < self.nets@.len() { Some(self.nets@[k].name@) } else { None }
            },
        }
    }

    /// The name indexes cover every net, endpoint and cell.
    pub closed spec fn wf(&self) -> bool {
        &&& forall|i: int|
            0 <= i < self.nets@.len() ==> self.index.net_ix@.contains_key(
                (#[trigger] self.nets@[i]).name@,
            )
        &&& forall|i: int, j: int|
            0 <= i < self.nets@.len() && 0 <= j < self.nets@[i].endpoints@.len()
                ==> self.index.pin_ix@.contains_key(
                pin_key(
                    (#[trigger] self.nets@[i].endpoints@[j]).cell@,
                    self.nets@[i].endpoints@[j].pin@,
                ),
            )
        &&& forall|i: int|
            0 <= i < self.cells@.len() ==> self.index.cell_ix@.contains_key(
                (#[trigger] self.cells@[i]).name@,
            )
    }

    pub fn new(name: &str) -> (d: Design)
        ensures
            d.wf(),
            d.name@ == name@,
            d.ports@.len() == 0,
            d.cells@.len() == 0,
            d.nets@.len() == 0,
            d.instances@.len() == 0,
            d.attrs.pairs().len() == 0,
    {
        Design {
            name: text::owned(name),
            ports: Vec::new(),
            cells: Vec::new(),
            nets: Vec::new(),
            instances: Vec::new(),
            attrs: Attrs::new(),
            index: NameIndex::new(),
        }
    }

    /// Rebuild the name indexes after bulk edits of `cells` / `nets`.
    pub fn rebuild_indexes(&mut self)
        ensures
            final(self).wf(),
            final(self).name == old(self).name,
            final(self).ports == old(self).ports,
            final(self).cells == old(self).cells,
            final(self).nets == old(self).nets,
            final(self).instances == old(self).instances,
            final(self).attrs == old(self).attrs,
    {
        self.rebuild_net_ix();
        self.rebuild_cell_ix();
    }

    fn rebuild_net_ix(&mut self)
        ensures
            final(self).nets == old(self).nets,
            final(self).cells == old(self).cells,
            final(self).index.cell_ix == old(self).index.cell_ix,
            final(self).name == old(self).name,
            final(self).ports == old(self).ports,
            final(self).instances == old(self).instances,
            final(self).attrs == old(self).attrs,
            forall|i: int|
                0 <= i < final(self).nets@.len() ==> final(self).index.net_ix@.contains_key(
                    (#[trigger] final(self).nets@[i]).name@,
                ),
            forall|i: int, j: int|
                0 <= i < final(self).nets@.len() && 0 <= j < final(self).nets@[i].endpoints@.len()
                    ==> final(self).index.pin_ix@.contains_key(
                    pin_key(
                        (#[trigger] final(self).nets@[i].endpoints@[j]).cell@,
                        final(self).nets@[i].endpoints@[j].pin@,
                    ),
                ),
    {
        let mut net_ix: StringHashMap<usize> = StringHashMap::new();
        let mut pin_ix: StringHashMap<usize> = StringHashMap::new();
        let mut i: usize = 0;
        while i < self.nets.len()
            invariant
                i <= self.nets@.len(),
                forall|a: int| 0 <= a < i ==> net_ix@.contains_key((#[trigger] self.nets@[a]).name@),
                forall|a: int, b: int|
                    0 <= a < i && 0 <= b < self.nets@[a].endpoints@.len() ==> pin_ix@.contains_key(
                        pin_key(
                            (#[trigger] self.nets@[a].endpoints@[b]).cell@,
                            self.nets@[a].endpoints@[b].pin@,
                        ),
                    ),
            decreases self.nets@.len() - i,
        {
            let n = &self.nets[i];
            net_ix.insert(text::owned(n.name.as_str()), i);
            let mut j: usize = 0;
            while j < n.endpoints.len()
                invariant
                    i < self.nets@.len(),
                    n == self.nets@[i as int],
                    j <= n.endpoints@.len(),
                    forall|a: int| 0 <= a <= i ==> net_ix@.contains_key((#[trigger] self.nets@[a]).name@),
                    forall|a: int, b: int|
                        0 <= a < i && 0 <= b < self.nets@[a].endpoints@.len() ==> pin_ix@.contains_key(
                            pin_key(
                                (#[trigger] self.nets@[a].endpoints@[b]).cell@,
                                self.nets@[a].endpoints@[b].pin@,
                            ),
                        ),
                    forall|b: int|
                        0 <= b < j ==> pin_ix@.contains_key(
                            pin_key(
                                (#[trigger] n.endpoints@[b]).cell@,
                                n.endpoints@[b].pin@,
                            ),
                        ),
                decreases n.endpoints@.len() - j,
            {
                let e = &n.endpoints[j];
                pin_ix.insert(pin_key_exec(e.cell.as_str(), e.pin.as_str()), i);
                j = j + 1;
            }
            i = i + 1;
        }
        self.index.net_ix = net_ix;
        self.index.pin_ix = pin_ix;
    }

    fn rebuild_cell_ix(&mut self)
        ensures
            final(self).nets == old(self).nets,
            final(self).cells == old(self).cells,
            final(self).index.net_ix == old(self).index.net_ix,
            final(self).index.pin_ix == old(self).index.pin_ix,
            final(self).name == old(self).name,
            final(self).ports == old(self).ports,
            final(self).instances == old(self).instances,
            final(self).attrs == old(self).attrs,
            forall|i: int|
                0 <= i < final(self).cells@.len() ==> final(self).index.cell_ix@.contains_key(
                    (#[trigger] final(self).cells@[i]).name@,
                ),
    {
        let mut cell_ix: StringHashMap<usize> = StringHashMap::new();
        let mut i: usize = 0;
        while i < self.cells.len()
            invariant
                i <= self.cells@.len(),
                forall|a: int| 0 <= a < i ==> cell_ix@.contains_key((#[trigger] self.cells@[a]).name@),
            decreases self.cells@.len() - i,
        {
            cell_ix.insert(text::owned(self.cells[i].name.as_str()), i);
            i = i + 1;
        }
        self.index.cell_ix = cell_ix;
    }
}

/// `new` is `old` with endpoint `cell/pin` appended.
pub open spec fn endpoint_added(old: Net, new: Net, cell: Seq<char>, pin: Seq<char>) -> bool {
    &&& new.name == old.name
    &&& new.attrs == old.attrs
    &&& new.endpoints@.len() == old.endpoints@.len() + 1
    &&& forall|k: int| 0 <= k < old.endpoints@.len() ==> new.endpoints@[k] == old.endpoints@[k]
    &&& new.endpoints@.last().is(cell, pin)
}

/// Scans `n` for endpoint `cell/pin`.
pub fn net_has_endpoint(n: &Net, cell: &str, pin: &str) -> (r: bool)
    ensures
        r == n.has_endpoint(cell@, pin@),
{
    let mut j: usize = 0;
    while j < n.endpoints.len()
        invariant
            j <= n.endpoints@.len(),
            forall|k: int| 0 <= k < j ==> !(#[trigger] n.endpoints@[k]).is(cell@, pin@),
        decreases n.endpoints@.len() - j,
    {
        let e = &n.endpoints[j];
        if text::str_eq(e.cell.as_str(), cell) && text::str_eq(e.pin.as_str(), pin) {
            assert(n.endpoints@[j as int].is(cell@, pin@));
            return true;
        }
        j = j + 1;
    }
    false
}

impl Design {
    /// Position of a net named `name`.
    fn find_net(&self, name: &str) -> (r: Option<usize>)
        requires
            self.wf(),
        ensures
            r matches Some(i) ==> i < self.nets@.len() && self.nets@[i as int].name@ == name@,
            r is None ==> !self.has_net(name@),
    {
        match self.index.net_ix.get(name) {
            Some(ip) => {
                let i = *ip;
                if i < self.nets.len() && text::str_eq(self.nets[i].name.as_str(), name) {
                    return Some(i);
                }
            },
            None => {
                return None;
            },
        }
        let mut k: usize = 0;
        while k < self.nets.len()
            invariant
                k <= self.nets@.len(),
                forall|m: int| 0 <= m < k ==> (#[trigger] self.nets@[m]).name@ != name@,
            decreases self.nets@.len() - k,
        {
            if text::str_eq(self.nets[k].name.as_str(), name) {
                return Some(k);
            }
            k = k + 1;
        }
        None
    }

    /// Position of a cell named `name`.
    fn find_cell(&self, name: &str) -> (r: Option<usize>)
        requires
            self.wf(),
        ensures
            r matches Some(i) ==> i < self.cells@.len() && self.cells@[i as int].name@ == name@,
            r is None ==> !self.has_cell(name@),
    {
        match self.index.cell_ix.get(name) {
            Some(ip) => {
                let i = *ip;
                if i < self.cells.len() && text::str_eq(self.cells[i].name.as_str(), name) {
                    return Some(i);
                }
            },
            None => {
                return None;
            },
        }
        let mut k: usize = 0;
        while k < self.cells.len()
            invariant
                k <= self.cells@.len(),
                forall|m: int| 0 <= m < k ==> (#[trigger] self.cells@[m]).name@ != name@,
            decreases self.cells@.len() - k,
        {
            if text::str_eq(self.cells[k].name.as_str(), name) {
                return Some(k);
            }
            k = k + 1;
        }
        None
    }

    /// Position of a net holding endpoint `cell/pin`.
    fn find_pin(&self, cell: &str, pin: &str) -> (r: Option<usize>)
        requires
            self.wf(),
        ensures
            r matches Some(i) ==> i < self.nets@.len() && self.nets@[i as int].has_endpoint(
                cell@,
                pin@,
            ),
            r is None ==> !self.pin_connected(cell@, pin@),
            match self.indexed_pin_net(cell@, pin@) {
                Some(i) => r == Some(i as usize),
                None => if first_ep_net(self.nets@, cell@, pin@, 0) < self.nets@.len() {
                    r == Some(first_ep_net(self.nets@, cell@, pin@, 0) as usize)
                } else {
                    r is None
                },
            },
    {
        let key = pin_key_exec(cell, pin);
        match self.index.pin_ix.get(key.as_str()) {
            Some(ip) => {
                let i = *ip;
                if i < self.nets.len() && net_has_endpoint(&self.nets[i], cell, pin) {
                    return Some(i);
                }
            },
            None => {
                proof {
                    assert forall|i: int| 0 <= i < self.nets@.len() implies !(#[trigger] self.nets@[i]).has_endpoint(cell@, pin@) by {
                        if self.nets@[i].has_endpoint(cell@, pin@) {
                            let j = choose|j: int| 0 <= j < self.nets@[i].endpoints@.len() && (#[trigger] self.nets@[i].endpoints@[j]).is(cell@, pin@);
                            assert(self.index.pin_ix@.contains_key(pin_key(self.nets@[i].endpoints@[j].cell@, self.nets@[i].endpoints@[j].pin@)));
                        }
                    }
                    lemma_first_ep_none(self.nets@, cell@, pin@, 0);
                }
                return None;
            },
        }
        let mut k: usize = 0;
        while k < self.nets.len()
            invariant
                k <= self.nets@.len(),
                self.indexed_pin_net(cell@, pin@) is None,
                first_ep_net(self.nets@, cell@, pin@, 0) == first_ep_net(self.nets@, cell@, pin@, k as int),
                forall|m: int| 0 <= m < k ==> !(#[trigger] self.nets@[m]).has_endpoint(cell@, pin@),
            decreases self.nets@.len() - k,
        {
            if net_has_endpoint(&self.nets[k], cell, pin) {
                return Some(k);
            }
            k = k + 1;
        }
        None
    }

    /// Name of the net on `cell/pin`, if any.
    pub fn net_on(&self, cell: &str, pin: &str) -> (r: Option<&str>)
        requires
            self.wf(),
        ensures
            r matches Some(n) ==> exists|i: int|
                0 <= i < self.nets@.len() && (#[trigger] self.nets@[i]).name@ == n@
                    && self.nets@[i].has_endpoint(cell@, pin@),
            r is None <==> !self.pin_connected(cell@, pin@),
            match self.pin_net_name(cell@, pin@) {
                Some(n) => r matches Some(x) && x@ == n,
                None => r is None,
            },
    {
        let _nl = self.nets.len();
        proof {
            lemma_first_ep_range(self.nets@, cell@, pin@, 0);
        }
        match self.find_pin(cell, pin) {
            Some(i) => {
                assert(self.nets@[i as int].has_endpoint(cell@, pin@));
                let r = self.nets[i].name.as_str();
                assert(r@ == self.nets@[i as int].name@);
                proof {
                    match self.indexed_pin_net(cell@, pin@) {
                        Some(j) => {
                            assert(0 <= j < self.nets@.len());
                            assert(j == i as int);
                        },
                        None => {
                            assert(first_ep_net(self.nets@, cell@, pin@, 0) == i as int);
                        },
                    }
                }
                assert(self.pin_net_name(cell@, pin@) == Some(self.nets@[i as int].name@));
                Some(r)
            },
            None => {
                assert(self.pin_net_name(cell@, pin@) is None);
                None
            },
        }
    }

    /// The cell named `name`.
    pub fn cell(&self, name: &str) -> (r: Option<&Cell>)
        requires
            self.wf(),
        ensures
            r matches Some(c) ==> c.name@ == name@ && exists|i: int|
                0 <= i < self.cells@.len() && self.cells@[i] == *c,
            r is None <==> !self.has_cell(name@),
    {
        match self.find_cell(name) {
            Some(i) => Some(&self.cells[i]),
            None => None,
        }
    }

    /// The net named `name`.
    pub fn net(&self, name: &str) -> (r: Option<&Net>)
        requires
            self.wf(),
        ensures
            r matches Some(n) ==> n.name@ == name@ && exists|i: int|
                0 <= i < self.nets@.len() && self.nets@[i] == *n,
            r is None <==> !self.has_net(name@),
    {
        match self.find_net(name) {
            Some(i) => Some(&self.nets[i]),
            None => None,
        }
    }

    /// The cell named `name`, for change in place. Renaming it through the
    /// reference leaves the name index stale, so well-formedness is kept only
    /// when the name stays.
    pub fn cell_mut(&mut self, name: &str) -> (r: Option<&mut Cell>)
        requires
            old(self).wf(),
        ensures
            r is None <==> !old(self).has_cell(name@),
            r is None ==> *final(self) == *old(self),
            r matches Some(c) ==> c.name@ == name@ && exists|i: int|
                0 <= i < old(self).cells@.len() && old(self).cells@[i] == *c
                    && final(self).cells@ == old(self).cells@.update(i, *final(c)),
            r is Some ==> final(self).name == old(self).name && final(self).ports == old(self).ports
                && final(self).nets == old(self).nets && final(self).instances == old(self).instances
                && final(self).attrs == old(self).attrs,
            r matches Some(c) ==> (final(c).name == c.name ==> final(self).wf()),
    {
        match self.find_cell(name) {
            Some(i) => {
                Some(&mut self.cells[i])
            },
            None => None,
        }
    }

    /// The net named `name`, for change in place; well-formedness is kept
    /// when its name and endpoints stay.
    #[verifier::spinoff_prover]
    pub fn net_mut(&mut self, name: &str) -> (r: Option<&mut Net>)
        requires
            old(self).wf(),
        ensures
            r is None <==> !old(self).has_net(name@),
            r is None ==> *final(self) == *old(self),
            r matches Some(n) ==> n.name@ == name@ && exists|i: int|
                0 <= i < old(self).nets@.len() && old(self).nets@[i] == *n
                    && final(self).nets@ == old(self).nets@.update(i, *final(n)),
            r is Some ==> final(self).name == old(self).name && final(self).ports == old(self).ports
                && final(self).cells == old(self).cells && final(self).instances == old(self).instances
                && final(self).attrs == old(self).attrs,
            r matches Some(n) ==> (final(n).name == n.name && final(n).endpoints == n.endpoints
                ==> final(self).wf()),
    {
        match self.find_net(name) {
            Some(i) => {
                Some(&mut self.nets[i])
            },
            None => None,
        }
    }

    /// The first port named `name`, for change in place.
    pub fn port_mut(&mut self, name: &str) -> (r: Option<&mut Port>)
        requires
            old(self).wf(),
        ensures
            r is None <==> forall|i: int| 0 <= i < old(self).ports@.len() ==> (#[trigger] old(self).ports@[i]).name@ != name@,
            r is None ==> *final(self) == *old(self),
            r matches Some(p) ==> exists|i: int|
                0 <= i < old(self).ports@.len() && old(self).ports@[i] == *p && p.name@ == name@
                    && (forall|k: int| 0 <= k < i ==> (#[trigger] old(self).ports@[k]).name@ != name@)
                    && final(self).ports@ == old(self).ports@.update(i, *final(p)),
            r is Some ==> final(self).name == old(self).name && final(self).cells == old(self).cells
                && final(self).nets == old(self).nets && final(self).instances == old(self).instances
                && final(self).attrs == old(self).attrs && final(self).index == old(self).index,
            final(self).wf(),
    {
        let mut k: usize = 0;
        while k < self.ports.len()
            invariant
                k <= self.ports@.len(),
                *self == *old(self),
                old(self).wf(),
                forall|m: int| 0 <= m < k ==> (#[trigger] self.ports@[m]).name@ != name@,
            decreases self.ports@.len() - k,
        {
            if text::str_eq(self.ports[k].name.as_str(), name) {
                return Some(&mut self.ports[k]);
            }
            k = k + 1;
        }
        None
    }

    pub fn add_port(&mut self, name: &str, dir: PortDir)
        requires
            old(self).wf(),
        ensures
            final(self).wf(),
            final(self).name == old(self).name,
            final(self).cells == old(self).cells,
            final(self).nets == old(self).nets,
            final(self).instances == old(self).instances,
            final(self).attrs == old(self).attrs,
            final(self).ports@.len() == old(self).ports@.len() + 1,
            forall|k: int| 0 <= k < old(self).ports@.len() ==> final(self).ports@[k] == old(self).ports@[k],
            final(self).ports@.last().name@ == name@,
            final(self).ports@.last().dir == dir,
            final(self).ports@.last().attrs.pairs().len() == 0,
            design_model(*final(self)) == (DesignModel {
                ports: design_model(*old(self)).ports.push(PortModel { name: name@, dir, attrs: Map::empty() }),
                ..design_model(*old(self))
            }),
    {
        let a = Attrs::new();
        proof {
            lemma_attr_map_new(a);
        }
        self.ports.push(Port { name: text::owned(name), dir, attrs: a });
        assert(self.ports@.map_values(|p: Port| port_model(p)) =~= old(self).ports@.map_values(|p: Port| port_model(p)).push(
            PortModel { name: name@, dir, attrs: Map::empty() },
        ));
        assert(design_model(*self) =~= DesignModel {
            ports: design_model(*old(self)).ports.push(PortModel { name: name@, dir, attrs: Map::empty() }),
            ..design_model(*old(self))
        });
    }

    /// Removes and returns every cell.
    pub fn take_cells(&mut self) -> (r: Vec<Cell>)
        requires
            old(self).wf(),
        ensures
            final(self).wf(),
            r@ == old(self).cells@,
            final(self).cells@.len() == 0,
            final(self).name == old(self).name,
            final(self).ports == old(self).ports,
            final(self).nets == old(self).nets,
            final(self).instances == old(self).instances,
            final(self).attrs == old(self).attrs,
    {
        let mut cells: Vec<Cell> = Vec::new();
        std::mem::swap(&mut cells, &mut self.cells);
        cells
    }

    /// Append a fully built cell, keeping the cell index in step.
    pub fn push_cell(&mut self, cell: Cell)
        requires
            old(self).wf(),
        ensures
            final(self).wf(),
            final(self).name == old(self).name,
            final(self).ports == old(self).ports,
            final(self).nets == old(self).nets,
            final(self).instances == old(self).instances,
            final(self).attrs == old(self).attrs,
            final(self).cells@ == old(self).cells@.push(cell),
    {
        let n = self.cells.len();
        self.index.cell_ix.insert(text::owned(cell.name.as_str()), n);
        self.cells.push(cell);
    }

    pub fn add_cell(&mut self, name: &str, kind: CellKind)
        requires
            old(self).wf(),
        ensures
            final(self).wf(),
            final(self).name == old(self).name,
            final(self).ports == old(self).ports,
            final(self).nets == old(self).nets,
            final(self).instances == old(self).instances,
            final(self).attrs == old(self).attrs,
            final(self).cells@.len() == old(self).cells@.len() + 1,
            forall|k: int| 0 <= k < old(self).cells@.len() ==> final(self).cells@[k] == old(self).cells@[k],
            final(self).cells@.last().name@ == name@,
            final(self).cells@.last().kind == kind,
            final(self).cells@.last().attrs.pairs().len() == 0,
            design_model(*final(self)) == (DesignModel {
                cells: design_model(*old(self)).cells.push(CellModel { name: name@, kind: kind_model(kind), attrs: Map::empty() }),
                ..design_model(*old(self))
            }),
    {
        let ghost km = kind_model(kind);
        let a = Attrs::new();
        proof {
            lemma_attr_map_new(a);
        }
        self.push_cell(Cell { name: text::owned(name), kind, attrs: a });
        assert(self.cells@.map_values(|c: Cell| cell_model(c)) =~= old(self).cells@.map_values(|c: Cell| cell_model(c)).push(
            CellModel { name: name@, kind: km, attrs: Map::empty() },
        ));
        assert(design_model(*self) =~= DesignModel {
            cells: design_model(*old(self)).cells.push(CellModel { name: name@, kind: km, attrs: Map::empty() }),
            ..design_model(*old(self))
        });
    }

    pub fn add_instance(&mut self, name: &str, module: &str)
        requires
            old(self).wf(),
        ensures
            final(self).wf(),
            final(self).name == old(self).name,
            final(self).ports == old(self).ports,
            final(self).cells == old(self).cells,
            final(self).nets == old(self).nets,
            final(self).attrs == old(self).attrs,
            final(self).instances@.len() == old(self).instances@.len() + 1,
            forall|k: int| 0 <= k < old(self).instances@.len() ==> final(self).instances@[k] == old(self).instances@[k],
            final(self).instances@.last().name@ == name@,
            final(self).instances@.last().module@ == module@,
            final(self).instances@.last().conns@.len() == 0,
    {
        self.instances.push(Instance {
            name: text::owned(name),
            module: text::owned(module),
            conns: Vec::new(),
            attrs: Attrs::new(),
        });
    }

    /// Attach endpoint `cell/pin` to net `net`, creating the net when absent.
    #[verifier::spinoff_prover]
    pub fn connect(&mut self, net: &str, cell: &str, pin: &str)
        requires
            old(self).wf(),
        ensures
            final(self).wf(),
            final(self).name == old(self).name,
            final(self).ports == old(self).ports,
            final(self).cells == old(self).cells,
            final(self).instances == old(self).instances,
            final(self).attrs == old(self).attrs,
            old(self).has_net(net@) ==> exists|i: int|
                0 <= i < old(self).nets@.len() && (#[trigger] old(self).nets@[i]).name@ == net@
                    && final(self).nets@ == old(self).nets@.update(i, final(self).nets@[i])
                    && endpoint_added(old(self).nets@[i], final(self).nets@[i], cell@, pin@),
            !old(self).has_net(net@) ==> {
                &&& final(self).nets@.len() == old(self).nets@.len() + 1
                &&& forall|k: int| 0 <= k < old(self).nets@.len() ==> final(self).nets@[k] == old(self).nets@[k]
                &&& final(self).nets@.last().name@ == net@
                &&& final(self).nets@.last().endpoints@.len() == 1
                &&& final(self).nets@.last().endpoints@[0].is(cell@, pin@)
                &&& final(self).nets@.last().attrs.pairs().len() == 0
            },
            net_names_unique(old(self).nets@) ==> net_names_unique(final(self).nets@) && design_model(*final(self))
                == with_nets(design_model(*old(self)), connect_model(design_model(*old(self)).nets, net@, cell@, pin@)),
            final(self).indexed_pin_net(cell@, pin@) matches Some(i) && final(self).nets@[i].name@ == net@,
            final(self).pin_net_name(cell@, pin@) == Some(net@),
    {
        let ghost m = design_model(*self);
        let ghost ns0 = self.nets@;
        let ghost had = self.has_net(net@);
        let ep = Endpoint { cell: text::owned(cell), pin: text::owned(pin) };
        let key = pin_key_exec(cell, pin);
        match self.find_net(net) {
            Some(i) => {
                let ghost old_nets = self.nets@;
                self.index.pin_ix.insert(key, i);
                self.nets[i].endpoints.push(ep);
                proof {
                    let last = self.nets@[i as int].endpoints@.len() - 1;
                    assert(self.nets@[i as int].endpoints@[last].is(cell@, pin@));
                    assert(self.nets@[i as int].has_endpoint(cell@, pin@));
                    assert(endpoint_added(old_nets[i as int], self.nets@[i as int], cell@, pin@));
                    assert(self.nets@ == old_nets.update(i as int, self.nets@[i as int]));
                    assert forall|a: int, b: int|
                        0 <= a < self.nets@.len() && 0 <= b < self.nets@[a].endpoints@.len()
                            implies self.index.pin_ix@.contains_key(
                            pin_key(
                                (#[trigger] self.nets@[a].endpoints@[b]).cell@,
                                self.nets@[a].endpoints@[b].pin@,
                            ),
                        ) by {
                        if a != i || b < old_nets[a].endpoints@.len() {
                            assert(self.nets@[a].endpoints@[b] == old_nets[a].endpoints@[b]);
                        }
                    }
                    assert forall|a: int| 0 <= a < self.nets@.len() implies self.index.net_ix@.contains_key((#[trigger] self.nets@[a]).name@) by {
                        assert(self.nets@[a].name == old_nets[a].name);
                    }
                }
            },
            None => {
                let n = self.nets.len();
                self.index.net_ix.insert(text::owned(net), n);
                self.index.pin_ix.insert(key, n);
                let mut eps: Vec<Endpoint> = Vec::new();
                eps.push(ep);
                self.nets.push(Net { name: text::owned(net), endpoints: eps, attrs: Attrs::new() });
                assert(self.nets@[n as int].endpoints@[0].is(cell@, pin@));
                assert(self.nets@[n as int].has_endpoint(cell@, pin@));
            },
        }
        proof {
            if net_names_unique(ns0) {
                if had {
                    let i = choose|i: int|
                        0 <= i < ns0.len() && (#[trigger] ns0[i]).name@ == net@
                            && self.nets@ == ns0.update(i, self.nets@[i])
                            && endpoint_added(ns0[i], self.nets@[i], cell@, pin@);
                    lemma_first_net_unique(ns0, net@, i);
                    assert(ep_views(self.nets@[i].endpoints@) =~= ep_views(ns0[i].endpoints@).push((cell@, pin@)));
                    assert(self.nets@.map_values(|q: Net| net_model(q)) =~= connect_model(m.nets, net@, cell@, pin@));
                    assert forall|a: int, b: int| 0 <= a < b < self.nets@.len() implies self.nets@[a].name@ != self.nets@[b].name@ by {
                        assert(self.nets@[a].name == ns0[a].name);
                        assert(self.nets@[b].name == ns0[b].name);
                    }
                } else {
                    assert forall|q: int| 0 <= q < ns0.len() implies (#[trigger] ns0[q]).name@ != net@ by {}
                    lemma_first_net_none(ns0, net@, 0);
                    let last = self.nets@.last();
                    assert forall|q: Seq<char>| last.attrs.lookup(q) is None by {}
                    lemma_attr_map_new(last.attrs);
                    assert(ep_views(last.endpoints@) =~= seq![(cell@, pin@)]);
                    assert(self.nets@ =~= ns0.push(last));
                    assert(self.nets@.map_values(|q: Net| net_model(q)) =~= connect_model(m.nets, net@, cell@, pin@));
                }
                assert(design_model(*self) =~= with_nets(m, connect_model(m.nets, net@, cell@, pin@)));
            }
        }
    }

    /// Merge `net` into this design by name: endpoints join an existing net of
    /// that name, otherwise the net is appended.
    pub fn merge_net(&mut self, net: Net)
        requires
            old(self).wf(),
        ensures
            final(self).wf(),
            final(self).name == old(self).name,
            final(self).ports == old(self).ports,
            final(self).cells == old(self).cells,
            final(self).instances == old(self).instances,
            final(self).attrs == old(self).attrs,
            old(self).has_net(net.name@) ==> exists|i: int|
                0 <= i < old(self).nets@.len() && (#[trigger] old(self).nets@[i]).name@ == net.name@
                    && final(self).nets@ == old(self).nets@.update(i, final(self).nets@[i])
                    && final(self).nets@[i].name == old(self).nets@[i].name
                    && final(self).nets@[i].attrs == old(self).nets@[i].attrs
                    && final(self).nets@[i].endpoints@ == old(self).nets@[i].endpoints@ + net.endpoints@,
            !old(self).has_net(net.name@) ==> final(self).nets@ == old(self).nets@.push(net),
            forall|b: int| 0 <= b < net.endpoints@.len() ==> (final(self).indexed_pin_net(
                (#[trigger] net.endpoints@[b]).cell@,
                net.endpoints@[b].pin@,
            ) matches Some(i) && final(self).nets@[i].name@ == net.name@),
            forall|b: int| 0 <= b < net.endpoints@.len() ==> final(self).pin_net_name(
                (#[trigger] net.endpoints@[b]).cell@,
                net.endpoints@[b].pin@,
            ) == Some(net.name@),
            net_names_unique(old(self).nets@) ==> net_names_unique(final(self).nets@)
                && final(self).nets@.map_values(|q: Net| net_model(q)) == merge_model(
                old(self).nets@.map_values(|q: Net| net_model(q)),
                net_model(net),
            ),
    {
        let ghost ns0 = self.nets@;
        let ghost had = self.has_net(net.name@);
        let ghost netg = net;
        match self.find_net(net.name.as_str()) {
            Some(i) => {
                let ghost old_nets = self.nets@;
                let mut j: usize = 0;
                while j < net.endpoints.len()
                    invariant
                        j <= net.endpoints@.len(),
                        i < old_nets.len(),
                        old_nets == old(self).nets@,
                        old_nets[i as int].name@ == net.name@,
                        self.name == old(self).name,
                        self.ports == old(self).ports,
                        self.cells == old(self).cells,
                        self.nets == old(self).nets,
                        self.instances == old(self).instances,
                        self.attrs == old(self).attrs,
                        self.index.net_ix == old(self).index.net_ix,
                        self.index.cell_ix == old(self).index.cell_ix,
                        forall|a: int, b: int|
                            0 <= a < old_nets.len() && 0 <= b < old_nets[a].endpoints@.len()
                                ==> self.index.pin_ix@.contains_key(
                                pin_key(
                                    (#[trigger] old_nets[a].endpoints@[b]).cell@,
                                    old_nets[a].endpoints@[b].pin@,
                                ),
                            ),
                        forall|b: int|
                            0 <= b < j ==> self.index.pin_ix@.contains_key(
                                pin_key((#[trigger] net.endpoints@[b]).cell@, net.endpoints@[b].pin@),
                            ),
                        forall|b: int|
                            0 <= b < j ==> self.index.pin_ix@[pin_key((#[trigger] net.endpoints@[b]).cell@, net.endpoints@[b].pin@)] == i,
                    decreases net.endpoints@.len() - j,
                {
                    let e = &net.endpoints[j];
                    self.index.pin_ix.insert(pin_key_exec(e.cell.as_str(), e.pin.as_str()), i);
                    j = j + 1;
                }
                let mut eps = net.endpoints;
                self.nets[i].endpoints.append(&mut eps);
                proof {
                    assert forall|a: int, b: int|
                        0 <= a < self.nets@.len() && 0 <= b < self.nets@[a].endpoints@.len()
                            implies self.index.pin_ix@.contains_key(
                            pin_key(
                                (#[trigger] self.nets@[a].endpoints@[b]).cell@,
                                self.nets@[a].endpoints@[b].pin@,
                            ),
                        ) by {
                        if a != i || b < old_nets[a].endpoints@.len() {
                            assert(self.nets@[a].endpoints@[b] == old_nets[a].endpoints@[b]);
                        } else {
                            assert(self.nets@[a].endpoints@[b] == net.endpoints@[b - old_nets[a].endpoints@.len()]);
                        }
                    }
                    assert forall|a: int| 0 <= a < self.nets@.len() implies self.index.net_ix@.contains_key((#[trigger] self.nets@[a]).name@) by {
                        assert(self.nets@[a].name == old_nets[a].name);
                    }
                    assert(self.nets@ == old_nets.update(i as int, self.nets@[i as int]));
                    let ol = old_nets[i as int].endpoints@.len();
                    assert forall|b: int| 0 <= b < net.endpoints@.len() implies (self.indexed_pin_net(
                        (#[trigger] net.endpoints@[b]).cell@,
                        net.endpoints@[b].pin@,
                    ) matches Some(q) && self.nets@[q].name@ == net.name@) by {
                        assert(self.nets@[i as int].endpoints@[ol + b] == net.endpoints@[b]);
                        assert(self.nets@[i as int].endpoints@[ol + b].is(net.endpoints@[b].cell@, net.endpoints@[b].pin@));
                        assert(self.nets@[i as int].has_endpoint(net.endpoints@[b].cell@, net.endpoints@[b].pin@));
                    }
                }
            },
            None => {
                let n = self.nets.len();
                self.index.net_ix.insert(text::owned(net.name.as_str()), n);
                let mut j: usize = 0;
                while j < net.endpoints.len()
                    invariant
                        j <= net.endpoints@.len(),
                        n == self.nets@.len(),
                        self.index.net_ix@.contains_key(net.name@),
                        forall|a: int| 0 <= a < self.nets@.len() ==> self.index.net_ix@.contains_key((#[trigger] self.nets@[a]).name@),
                        forall|a: int| 0 <= a < self.cells@.len() ==> self.index.cell_ix@.contains_key((#[trigger] self.cells@[a]).name@),
                        self.name == old(self).name,
                        self.ports == old(self).ports,
                        self.cells == old(self).cells,
                        self.nets == old(self).nets,
                        self.instances == old(self).instances,
                        self.attrs == old(self).attrs,
                        forall|a: int, b: int|
                            0 <= a < self.nets@.len() && 0 <= b < self.nets@[a].endpoints@.len()
                                ==> self.index.pin_ix@.contains_key(
                                pin_key(
                                    (#[trigger] self.nets@[a].endpoints@[b]).cell@,
                                    self.nets@[a].endpoints@[b].pin@,
                                ),
                            ),
                        forall|b: int|
                            0 <= b < j ==> self.index.pin_ix@.contains_key(
                                pin_key((#[trigger] net.endpoints@[b]).cell@, net.endpoints@[b].pin@),
                            ),
                        forall|b: int|
                            0 <= b < j ==> self.index.pin_ix@[pin_key((#[trigger] net.endpoints@[b]).cell@, net.endpoints@[b].pin@)] == n,
                    decreases net.endpoints@.len() - j,
                {
                    let e = &net.endpoints[j];
                    self.index.pin_ix.insert(pin_key_exec(e.cell.as_str(), e.pin.as_str()), n);
                    j = j + 1;
                }
                let ghost ng = net;
                self.nets.push(net);
                proof {
                    assert forall|b: int| 0 <= b < ng.endpoints@.len() implies (self.indexed_pin_net(
                        (#[trigger] ng.endpoints@[b]).cell@,
                        ng.endpoints@[b].pin@,
                    ) matches Some(q) && self.nets@[q].name@ == ng.name@) by {
                        assert(self.nets@[n as int] == ng);
                        assert(ng.endpoints@[b].is(ng.endpoints@[b].cell@, ng.endpoints@[b].pin@));
                        assert(self.nets@[n as int].has_endpoint(ng.endpoints@[b].cell@, ng.endpoints@[b].pin@));
                    }
                }
            },
        }
        proof {
            let m0 = ns0.map_values(|q: Net| net_model(q));
            if net_names_unique(ns0) {
                if had {
                    let i = choose|i: int|
                        0 <= i < ns0.len() && (#[trigger] ns0[i]).name@ == netg.name@
                            && self.nets@ == ns0.update(i, self.nets@[i])
                            && self.nets@[i].name == ns0[i].name
                            && self.nets@[i].attrs == ns0[i].attrs
                            && self.nets@[i].endpoints@ == ns0[i].endpoints@ + netg.endpoints@;
                    lemma_first_net_unique(ns0, netg.name@, i);
                    assert(ep_views(self.nets@[i].endpoints@) =~= ep_views(ns0[i].endpoints@) + ep_views(netg.endpoints@));
                    assert(self.nets@.map_values(|q: Net| net_model(q)) =~= merge_model(m0, net_model(netg)));
                    assert forall|a: int, b: int| 0 <= a < b < self.nets@.len() implies self.nets@[a].name@ != self.nets@[b].name@ by {
                        assert(self.nets@[a].name == ns0[a].name);
                        assert(self.nets@[b].name == ns0[b].name);
                    }
                } else {
                    assert forall|q: int| 0 <= q < ns0.len() implies (#[trigger] ns0[q]).name@ != netg.name@ by {}
                    lemma_first_net_none(ns0, netg.name@, 0);
                    assert(self.nets@.map_values(|q: Net| net_model(q)) =~= merge_model(m0, net_model(netg)));
                    assert forall|a: int, b: int| 0 <= a < b < self.nets@.len() implies self.nets@[a].name@ != self.nets@[b].name@ by {
                        if b == ns0.len() {
                            assert(ns0[a].name@ != netg.name@);
                        }
                    }
                }
            }
        }
    }
}

/// Attribute `k` set to `v` on the first port named `port` (as plain
/// values), or `no port <port>` with the design unchanged.
pub open spec fn port_attr_done(old: Design, new: Design, port: Seq<char>, k: Seq<char>, v: Seq<char>, r: Result<(), String>) -> bool {
    let m = design_model(old);
    let i = first_port(m.ports, port, 0);
    if i < m.ports.len() {
        &&& r is Ok
        &&& design_model(new) == (DesignModel {
            ports: m.ports.update(i, PortModel { attrs: m.ports[i].attrs.insert(k, v), ..m.ports[i] }),
            ..m
        })
    } else {
        &&& r matches Err(e) && e@ == "no port "@ + port
        &&& new == old
    }
}

/// With distinct net names: attribute `k` set to `v` on the net named `net`
/// (as plain values), or `no net <net>` with the design unchanged.
pub open spec fn net_attr_done(old: Design, new: Design, net: Seq<char>, k: Seq<char>, v: Seq<char>, r: Result<(), String>) -> bool {
    let m = design_model(old);
    let i = first_net(m.nets, net, 0);
    net_names_unique(old.nets@) ==> if i < m.nets.len() {
        &&& r is Ok
        &&& net_names_unique(new.nets@)
        &&& design_model(new) == (DesignModel {
            nets: m.nets.update(i, NetModel { attrs: m.nets[i].attrs.insert(k, v), ..m.nets[i] }),
            ..m
        })
    } else {
        &&& r matches Err(e) && e@ == "no net "@ + net
        &&& new == old
    }
}

/// Attribute `k` set to `v` on a cell named `cell` (the one the name index
/// holds), the rest of the design unchanged; or `no cell <cell>` and the
/// design unchanged.
pub open spec fn cell_attr_done(old: Design, new: Design, cell: Seq<char>, k: Seq<char>, v: Seq<char>, r: Result<(), String>) -> bool {
    &&& new.wf()
    &&& (r is Ok <==> old.has_cell(cell))
    &&& (r matches Err(e) ==> e@ == "no cell "@ + cell && new == old)
    &&& (r is Ok ==> {
        &&& new.name == old.name
        &&& new.ports == old.ports
        &&& new.nets == old.nets
        &&& new.instances == old.instances
        &&& new.attrs == old.attrs
        &&& exists|i: int|
            0 <= i < old.cells@.len() && (#[trigger] old.cells@[i]).name@ == cell && new.cells@ == old.cells@.update(
                i,
                new.cells@[i],
            ) && new.cells@[i].name == old.cells@[i].name && new.cells@[i].kind == old.cells@[i].kind && attr_updated(
                old.cells@[i].attrs,
                new.cells@[i].attrs,
                k,
                v,
            )
    })
}

/// Attribute `k` set to `v` on a net named `net`, the rest of the design
/// unchanged (exactly the first such net when net names are distinct); or
/// `no net <net>` and the design unchanged.
pub open spec fn net_attr_set(old: Design, new: Design, net: Seq<char>, k: Seq<char>, v: Seq<char>, r: Result<(), String>) -> bool {
    &&& new.wf()
    &&& (r is Ok <==> old.has_net(net))
    &&& (r matches Err(e) ==> e@ == "no net "@ + net && new == old)
    &&& (r is Ok ==> {
        &&& new.name == old.name
        &&& new.ports == old.ports
        &&& new.cells == old.cells
        &&& new.instances == old.instances
        &&& new.attrs == old.attrs
        &&& exists|i: int|
            0 <= i < old.nets@.len() && (#[trigger] old.nets@[i]).name@ == net && new.nets@ == old.nets@.update(
                i,
                new.nets@[i],
            ) && new.nets@[i].name == old.nets@[i].name && new.nets@[i].endpoints == old.nets@[i].endpoints
                && attr_updated(old.nets@[i].attrs, new.nets@[i].attrs, k, v)
    })
    &&& net_attr_done(old, new, net, k, v, r)
}

/// `new` is `old` with `k` set to `v` and every other key unchanged.
pub open spec fn attr_updated(old: Attrs, new: Attrs, k: Seq<char>, v: Seq<char>) -> bool {
    &&& new.lookup(k) == Some(v)
    &&& forall|q: Seq<char>| q != k ==> new.lookup(q) == old.lookup(q)
}

/// `prefix + s` as a `String`.
fn prefixed(pfx: &str, s: &str) -> (r: String)
    ensures
        r@ == pfx@ + s@,
{
    let mut v = text::chars_of(pfx);
    text::push_str(&mut v, s);
    text::string_of(v.as_slice())
}

/// The message `<what> <name>` used for unknown objects.
fn missing(what: &str, name: &str) -> (r: String)
    ensures
        r@ == what@ + seq![' '] + name@,
{
    let mut v = text::chars_of(what);
    v.push(' ');
    text::push_str(&mut v, name);
    text::string_of(v.as_slice())
}

/// INIT words of the LUT6 cells among `cells`, in order.
pub open spec fn lut_inits_of(cells: Seq<Cell>) -> Seq<u64>
    decreases cells.len(),
{
    if cells.len() == 0 {
        Seq::empty()
    } else {
        lut_inits_of(cells.drop_last()) + match cells.last().kind {
            CellKind::Lut6 { init } => seq![init],
            _ => Seq::empty(),
        }
    }
}

/// Names of the nets among `nets` whose `mark_debug` flag is set, in order.
pub open spec fn debug_nets_of(nets: Seq<Net>) -> Seq<Seq<char>>
    decreases nets.len(),
{
    if nets.len() == 0 {
        Seq::empty()
    } else {
        debug_nets_of(nets.drop_last()) + if nets.last().attrs.lookup("mark_debug"@) matches Some(
            v,
        ) && is_flag_true(v) {
            seq![nets.last().name@]
        } else {
            Seq::empty()
        }
    }
}

/// Text views of a list of strings.
pub open spec fn views(v: Seq<String>) -> Seq<Seq<char>> {
    v.map_values(|s: String| s@)
}

/// Read-only pin lookup over a design.
pub struct PinIndex<'a> {
    pub design: &'a Design,
}

impl<'a> PinIndex<'a> {
    /// Name of the net on `cell/pin`, if any.
    pub fn net_on(&self, cell: &str, pin: &str) -> (r: Option<&'a str>)
        requires
            self.design.wf(),
        ensures
            r matches Some(n) ==> exists|i: int|
                0 <= i < self.design.nets@.len() && (#[trigger] self.design.nets@[i]).name@ == n@
                    && self.design.nets@[i].has_endpoint(cell@, pin@),
            r is None <==> !self.design.pin_connected(cell@, pin@),
            match self.design.pin_net_name(cell@, pin@) {
                Some(n) => r matches Some(x) && x@ == n,
                None => r is None,
            },
    {
        self.design.net_on(cell, pin)
    }
}

impl Design {
    /// A lookup handle for repeated `net_on` queries.
    pub fn pin_index(&self) -> (r: PinIndex<'_>)
        ensures
            r.design == self,
    {
        PinIndex { design: self }
    }

    /// Set attribute `k` on cell `cell`.
    pub fn set_cell_attr(&mut self, cell: &str, k: &str, v: &str) -> (r: Result<(), String>)
        requires
            old(self).wf(),
        ensures
            final(self).wf(),
            final(self).name == old(self).name,
            final(self).ports == old(self).ports,
            final(self).nets == old(self).nets,
            final(self).instances == old(self).instances,
            final(self).attrs == old(self).attrs,
            r is Ok <==> old(self).has_cell(cell@),
            r matches Err(e) ==> e@ == "no cell"@ + seq![' '] + cell@ && final(self).cells
                == old(self).cells,
            r is Ok ==> exists|i: int|
                0 <= i < old(self).cells@.len() && (#[trigger] old(self).cells@[i]).name@ == cell@
                    && final(self).cells@ == old(self).cells@.update(i, final(self).cells@[i])
                    && final(self).cells@[i].name == old(self).cells@[i].name
                    && final(self).cells@[i].kind == old(self).cells@[i].kind
                    && attr_updated(old(self).cells@[i].attrs, final(self).cells@[i].attrs, k@, v@),
            cell_attr_done(*old(self), *final(self), cell@, k@, v@, r),
    {
        proof {
            reveal_strlit("no cell");
            reveal_strlit("no cell ");
            assert("no cell"@ + seq![' '] =~= "no cell "@);
        }
        match self.find_cell(cell) {
            Some(i) => {
                let ghost old_cells = self.cells@;
                self.cells[i].attrs.set(k, v);
                proof {
                    assert(self.cells@ == old_cells.update(i as int, self.cells@[i as int]));
                    assert forall|a: int| 0 <= a < self.cells@.len() implies self.index.cell_ix@.contains_key((#[trigger] self.cells@[a]).name@) by {
                        assert(self.cells@[a].name == old_cells[a].name);
                    }
                }
                Ok(())
            },
            None => Err(missing("no cell", cell)),
        }
    }

    /// Set attribute `k` on net `net`.
    pub fn set_net_attr(&mut self, net: &str, k: &str, v: &str) -> (r: Result<(), String>)
        requires
            old(self).wf(),
        ensures
            final(self).wf(),
            final(self).name == old(self).name,
            final(self).ports == old(self).ports,
            final(self).cells == old(self).cells,
            final(self).instances == old(self).instances,
            final(self).attrs == old(self).attrs,
            r is Ok <==> old(self).has_net(net@),
            r matches Err(e) ==> e@ == "no net"@ + seq![' '] + net@ && final(self).nets
                == old(self).nets,
            r is Ok ==> exists|i: int|
                0 <= i < old(self).nets@.len() && (#[trigger] old(self).nets@[i]).name@ == net@
                    && final(self).nets@ == old(self).nets@.update(i, final(self).nets@[i])
                    && final(self).nets@[i].name == old(self).nets@[i].name
                    && final(self).nets@[i].endpoints == old(self).nets@[i].endpoints
                    && attr_updated(old(self).nets@[i].attrs, final(self).nets@[i].attrs, k@, v@),
            net_attr_set(*old(self), *final(self), net@, k@, v@, r),
    {
        proof {
            reveal_strlit("no net");
            reveal_strlit("no net ");
            assert("no net"@ + seq![' '] =~= "no net "@);
        }
        let ghost m = design_model(*self);
        let ghost ns0 = self.nets@;
        match self.find_net(net) {
            Some(i) => {
                let ghost old_nets = self.nets@;
                let ghost a0 = self.nets@[i as int].attrs;
                self.nets[i].attrs.set(k, v);
                proof {
                    if net_names_unique(ns0) {
                        lemma_first_net_unique(ns0, net@, i as int);
                        lemma_attr_map_set(a0, self.nets@[i as int].attrs, k@, v@);
                        assert(self.nets@.map_values(|q: Net| net_model(q)) =~= m.nets.update(
                            i as int,
                            NetModel { attrs: m.nets[i as int].attrs.insert(k@, v@), ..m.nets[i as int] },
                        ));
                        assert(design_model(*self) =~= DesignModel {
                            nets: m.nets.update(i as int, NetModel { attrs: m.nets[i as int].attrs.insert(k@, v@), ..m.nets[i as int] }),
                            ..m
                        });
                        assert forall|a: int, b: int| 0 <= a < b < self.nets@.len() implies self.nets@[a].name@ != self.nets@[b].name@ by {
                            assert(self.nets@[a].name == ns0[a].name);
                            assert(self.nets@[b].name == ns0[b].name);
                        }
                    }
                    assert(self.nets@ == old_nets.update(i as int, self.nets@[i as int]));
                    assert forall|a: int| 0 <= a < self.nets@.len() implies self.index.net_ix@.contains_key((#[trigger] self.nets@[a]).name@) by {
                        assert(self.nets@[a].name == old_nets[a].name);
                    }
                    assert forall|a: int, b: int|
                        0 <= a < self.nets@.len() && 0 <= b < self.nets@[a].endpoints@.len()
                            implies self.index.pin_ix@.contains_key(
                            pin_key(
                                (#[trigger] self.nets@[a].endpoints@[b]).cell@,
                                self.nets@[a].endpoints@[b].pin@,
                            ),
                        ) by {
                        assert(self.nets@[a].endpoints == old_nets[a].endpoints);
                    }
                }
                Ok(())
            },
            None => {
                proof {
                    assert forall|q: int| 0 <= q < ns0.len() implies (#[trigger] ns0[q]).name@ != net@ by {}
                    lemma_first_net_none(ns0, net@, 0);
                }
                Err(missing("no net", net))
            },
        }
    }

    /// Set attribute `k` on the first port named `port`.
    pub fn set_port_attr(&mut self, port: &str, k: &str, v: &str) -> (r: Result<(), String>)
        requires
            old(self).wf(),
        ensures
            final(self).wf(),
            final(self).name == old(self).name,
            final(self).cells == old(self).cells,
            final(self).nets == old(self).nets,
            final(self).instances == old(self).instances,
            final(self).attrs == old(self).attrs,
            r is Ok <==> exists|i: int| 0 <= i < old(self).ports@.len() && (#[trigger] old(self).ports@[i]).name@ == port@,
            r matches Err(e) ==> e@ == "no port"@ + seq![' '] + port@ && final(self).ports
                == old(self).ports,
            r is Ok ==> exists|i: int|
                0 <= i < old(self).ports@.len() && (#[trigger] old(self).ports@[i]).name@ == port@
                    && (forall|m: int| 0 <= m < i ==> old(self).ports@[m].name@ != port@)
                    && final(self).ports@ == old(self).ports@.update(i, final(self).ports@[i])
                    && final(self).ports@[i].name == old(self).ports@[i].name
                    && final(self).ports@[i].dir == old(self).ports@[i].dir
                    && attr_updated(old(self).ports@[i].attrs, final(self).ports@[i].attrs, k@, v@),
            port_attr_done(*old(self), *final(self), port@, k@, v@, r),
    {
        proof {
            reveal_strlit("no port");
            reveal_strlit("no port ");
            assert("no port"@ + seq![' '] =~= "no port "@);
        }
        let ghost m = design_model(*self);
        let ghost ps0 = self.ports@;
        let mut i: usize = 0;
        while i < self.ports.len()
            invariant
                i <= self.ports@.len(),
                *self == *old(self),
                self.wf(),
                ps0 == old(self).ports@,
                m == design_model(*old(self)),
                forall|q: int| 0 <= q < i ==> (#[trigger] self.ports@[q]).name@ != port@,
            decreases self.ports@.len() - i,
        {
            if text::str_eq(self.ports[i].name.as_str(), port) {
                let ghost old_ports = self.ports@;
                let ghost a0 = self.ports@[i as int].attrs;
                self.ports[i].attrs.set(k, v);
                assert(self.ports@ == old_ports.update(i as int, self.ports@[i as int]));
                proof {
                    lemma_first_port(ps0, port@, i as int, 0);
                    lemma_attr_map_set(a0, self.ports@[i as int].attrs, k@, v@);
                    assert(self.ports@.map_values(|p: Port| port_model(p)) =~= m.ports.update(
                        i as int,
                        PortModel { attrs: m.ports[i as int].attrs.insert(k@, v@), ..m.ports[i as int] },
                    ));
                    assert(design_model(*self) =~= DesignModel {
                        ports: m.ports.update(i as int, PortModel { attrs: m.ports[i as int].attrs.insert(k@, v@), ..m.ports[i as int] }),
                        ..m
                    });
                }
                return Ok(());
            }
            i = i + 1;
        }
        proof {
            lemma_first_port_none(ps0, port@, 0);
        }
        Err(missing("no port", port))
    }

    pub fn mark_debug(&mut self, net: &str) -> (r: Result<(), String>)
        requires
            old(self).wf(),
        ensures
            final(self).wf(),
            r is Ok <==> old(self).has_net(net@),
            final(self).cells == old(self).cells,
            final(self).ports == old(self).ports,
            r is Ok ==> exists|i: int|
                0 <= i < old(self).nets@.len() && (#[trigger] old(self).nets@[i]).name@ == net@
                    && final(self).nets@ == old(self).nets@.update(i, final(self).nets@[i])
                    && final(self).nets@[i].name == old(self).nets@[i].name
                    && attr_updated(old(self).nets@[i].attrs, final(self).nets@[i].attrs, "mark_debug"@, "true"@),
            r is Err ==> final(self).nets == old(self).nets,
            net_attr_set(*old(self), *final(self), net@, "mark_debug"@, "true"@, r),
    {
        self.set_net_attr(net, "mark_debug", "true")
    }

    pub fn dont_touch(&mut self, cell: &str) -> (r: Result<(), String>)
        requires
            old(self).wf(),
        ensures
            final(self).wf(),
            r is Ok <==> old(self).has_cell(cell@),
            final(self).nets == old(self).nets,
            final(self).ports == old(self).ports,
            r is Ok ==> exists|i: int|
                0 <= i < old(self).cells@.len() && (#[trigger] old(self).cells@[i]).name@ == cell@
                    && final(self).cells@ == old(self).cells@.update(i, final(self).cells@[i])
                    && final(self).cells@[i].name == old(self).cells@[i].name
                    && attr_updated(old(self).cells@[i].attrs, final(self).cells@[i].attrs, "DONT_TOUCH"@, "true"@),
            r is Err ==> final(self).cells == old(self).cells,
            cell_attr_done(*old(self), *final(self), cell@, "DONT_TOUCH"@, "true"@, r),
    {
        self.set_cell_attr(cell, "DONT_TOUCH", "true")
    }

    pub fn set_loc(&mut self, port: &str, site: &str) -> (r: Result<(), String>)
        requires
            old(self).wf(),
        ensures
            final(self).wf(),
            final(self).cells == old(self).cells,
            final(self).nets == old(self).nets,
            r is Ok <==> exists|i: int| 0 <= i < old(self).ports@.len() && (#[trigger] old(self).ports@[i]).name@ == port@,
            r is Ok ==> exists|i: int|
                0 <= i < old(self).ports@.len() && (#[trigger] old(self).ports@[i]).name@ == port@
                    && final(self).ports@ == old(self).ports@.update(i, final(self).ports@[i])
                    && final(self).ports@[i].name == old(self).ports@[i].name
                    && attr_updated(old(self).ports@[i].attrs, final(self).ports@[i].attrs, "LOC"@, site@),
            r is Err ==> final(self).ports == old(self).ports,
            port_attr_done(*old(self), *final(self), port@, "LOC"@, site@, r),
    {
        self.set_port_attr(port, "LOC", site)
    }

    pub fn set_iostandard(&mut self, port: &str, std: &str) -> (r: Result<(), String>)
        requires
            old(self).wf(),
        ensures
            final(self).wf(),
            final(self).cells == old(self).cells,
            final(self).nets == old(self).nets,
            r is Ok <==> exists|i: int| 0 <= i < old(self).ports@.len() && (#[trigger] old(self).ports@[i]).name@ == port@,
            r is Ok ==> exists|i: int|
                0 <= i < old(self).ports@.len() && (#[trigger] old(self).ports@[i]).name@ == port@
                    && final(self).ports@ == old(self).ports@.update(i, final(self).ports@[i])
                    && final(self).ports@[i].name == old(self).ports@[i].name
                    && attr_updated(old(self).ports@[i].attrs, final(self).ports@[i].attrs, "IOSTANDARD"@, std@),
            r is Err ==> final(self).ports == old(self).ports,
            port_attr_done(*old(self), *final(self), port@, "IOSTANDARD"@, std@, r),
    {
        self.set_port_attr(port, "IOSTANDARD", std)
    }

    pub fn set_drive(&mut self, port: &str, ma: &str) -> (r: Result<(), String>)
        requires
            old(self).wf(),
        ensures
            final(self).wf(),
            final(self).cells == old(self).cells,
            final(self).nets == old(self).nets,
            r is Ok <==> exists|i: int| 0 <= i < old(self).ports@.len() && (#[trigger] old(self).ports@[i]).name@ == port@,
            r is Ok ==> exists|i: int|
                0 <= i < old(self).ports@.len() && (#[trigger] old(self).ports@[i]).name@ == port@
                    && final(self).ports@ == old(self).ports@.update(i, final(self).ports@[i])
                    && final(self).ports@[i].name == old(self).ports@[i].name
                    && attr_updated(old(self).ports@[i].attrs, final(self).ports@[i].attrs, "DRIVE"@, ma@),
            r is Err ==> final(self).ports == old(self).ports,
            port_attr_done(*old(self), *final(self), port@, "DRIVE"@, ma@, r),
    {
        self.set_port_attr(port, "DRIVE", ma)
    }

    pub fn set_slew(&mut self, port: &str, slew: &str) -> (r: Result<(), String>)
        requires
            old(self).wf(),
        ensures
            final(self).wf(),
            final(self).cells == old(self).cells,
            final(self).nets == old(self).nets,
            r is Ok <==> exists|i: int| 0 <= i < old(self).ports@.len() && (#[trigger] old(self).ports@[i]).name@ == port@,
            r is Ok ==> exists|i: int|
                0 <= i < old(self).ports@.len() && (#[trigger] old(self).ports@[i]).name@ == port@
                    && final(self).ports@ == old(self).ports@.update(i, final(self).ports@[i])
                    && final(self).ports@[i].name == old(self).ports@[i].name
                    && attr_updated(old(self).ports@[i].attrs, final(self).ports@[i].attrs, "SLEW"@, slew@),
            r is Err ==> final(self).ports == old(self).ports,
            port_attr_done(*old(self), *final(self), port@, "SLEW"@, slew@, r),
    {
        self.set_port_attr(port, "SLEW", slew)
    }

    pub fn set_pulltype(&mut self, port: &str, pull: &str) -> (r: Result<(), String>)
        requires
            old(self).wf(),
        ensures
            final(self).wf(),
            final(self).cells == old(self).cells,
            final(self).nets == old(self).nets,
            r is Ok <==> exists|i: int| 0 <= i < old(self).ports@.len() && (#[trigger] old(self).ports@[i]).name@ == port@,
            r is Ok ==> exists|i: int|
                0 <= i < old(self).ports@.len() && (#[trigger] old(self).ports@[i]).name@ == port@
                    && final(self).ports@ == old(self).ports@.update(i, final(self).ports@[i])
                    && final(self).ports@[i].name == old(self).ports@[i].name
                    && attr_updated(old(self).ports@[i].attrs, final(self).ports@[i].attrs, "PULLTYPE"@, pull@),
            r is Err ==> final(self).ports == old(self).ports,
            port_attr_done(*old(self), *final(self), port@, "PULLTYPE"@, pull@, r),
    {
        self.set_port_attr(port, "PULLTYPE", pull)
    }

    pub fn set_diff_term(&mut self, port: &str, term: &str) -> (r: Result<(), String>)
        requires
            old(self).wf(),
        ensures
            final(self).wf(),
            final(self).cells == old(self).cells,
            final(self).nets == old(self).nets,
            r is Ok <==> exists|i: int| 0 <= i < old(self).ports@.len() && (#[trigger] old(self).ports@[i]).name@ == port@,
            r is Ok ==> exists|i: int|
                0 <= i < old(self).ports@.len() && (#[trigger] old(self).ports@[i]).name@ == port@
                    && final(self).ports@ == old(self).ports@.update(i, final(self).ports@[i])
                    && final(self).ports@[i].name == old(self).ports@[i].name
                    && attr_updated(old(self).ports@[i].attrs, final(self).ports@[i].attrs, "DIFF_TERM"@, term@),
            r is Err ==> final(self).ports == old(self).ports,
            port_attr_done(*old(self), *final(self), port@, "DIFF_TERM"@, term@, r),
    {
        self.set_port_attr(port, "DIFF_TERM", term)
    }

    pub fn set_in_term(&mut self, port: &str, term: &str) -> (r: Result<(), String>)
        requires
            old(self).wf(),
        ensures
            final(self).wf(),
            final(self).cells == old(self).cells,
            final(self).nets == old(self).nets,
            r is Ok <==> exists|i: int| 0 <= i < old(self).ports@.len() && (#[trigger] old(self).ports@[i]).name@ == port@,
            r is Ok ==> exists|i: int|
                0 <= i < old(self).ports@.len() && (#[trigger] old(self).ports@[i]).name@ == port@
                    && final(self).ports@ == old(self).ports@.update(i, final(self).ports@[i])
                    && final(self).ports@[i].name == old(self).ports@[i].name
                    && attr_updated(old(self).ports@[i].attrs, final(self).ports@[i].attrs, "IN_TERM"@, term@),
            r is Err ==> final(self).ports == old(self).ports,
            port_attr_done(*old(self), *final(self), port@, "IN_TERM"@, term@, r),
    {
        self.set_port_attr(port, "IN_TERM", term)
    }

    /// INIT words of every LUT6 cell, in cell order.
    pub fn lut_inits(&self) -> (r: Vec<u64>)
        ensures
            r@ == lut_inits_of(self.cells@),
    {
        let mut r: Vec<u64> = Vec::new();
        let mut i: usize = 0;
        while i < self.cells.len()
            invariant
                i <= self.cells@.len(),
                r@ == lut_inits_of(self.cells@.subrange(0, i as int)),
            decreases self.cells@.len() - i,
        {
            proof {
                assert(self.cells@.subrange(0, i + 1).drop_last() =~= self.cells@.subrange(0, i as int));
            }
            match self.cells[i].kind {
                CellKind::Lut6 { init } => {
                    r.push(init);
                },
                _ => {},
            }
            i = i + 1;
            assert(r@ =~= lut_inits_of(self.cells@.subrange(0, i as int)));
        }
        assert(self.cells@.subrange(0, i as int) =~= self.cells@);
        r
    }

    /// Names of nets whose `mark_debug` flag is set, in net order.
    pub fn marked_debug_nets(&self) -> (r: Vec<String>)
        ensures
            views(r@) == debug_nets_of(self.nets@),
    {
        let mut r: Vec<String> = Vec::new();
        let mut i: usize = 0;
        while i < self.nets.len()
            invariant
                i <= self.nets@.len(),
                views(r@) == debug_nets_of(self.nets@.subrange(0, i as int)),
            decreases self.nets@.len() - i,
        {
            proof {
                assert(self.nets@.subrange(0, i + 1).drop_last() =~= self.nets@.subrange(0, i as int));
            }
            let ghost old_r = r@;
            if self.nets[i].attrs.flag("mark_debug") {
                r.push(text::owned(self.nets[i].name.as_str()));
            }
            i = i + 1;
            assert(views(r@) =~= debug_nets_of(self.nets@.subrange(0, i as int)));
        }
        assert(self.nets@.subrange(0, i as int) =~= self.nets@);
        r
    }
}

impl Design {
    /// Move every cell of `cells` into this design, keeping the cell index in step.
    #[verifier::spinoff_prover]
    pub fn append_cells(&mut self, cells: &mut Vec<Cell>)
        requires
            old(self).wf(),
        ensures
            final(self).wf(),
            final(self).name == old(self).name,
            final(self).ports == old(self).ports,
            final(self).nets == old(self).nets,
            final(self).instances == old(self).instances,
            final(self).attrs == old(self).attrs,
            final(self).cells@ == old(self).cells@ + old(cells)@,
            final(cells)@.len() == 0,
    {
        let mut moved: Vec<Cell> = Vec::new();
        std::mem::swap(&mut moved, cells);
        let base_len = self.cells.len();
        let mut i: usize = 0;
        while i < moved.len()
            invariant
                i <= moved@.len(),
                moved@ == old(cells)@,
                base_len == self.cells@.len(),
                forall|a: int| 0 <= a < self.cells@.len() ==> self.index.cell_ix@.contains_key((#[trigger] self.cells@[a]).name@),
                forall|a: int| 0 <= a < i ==> self.index.cell_ix@.contains_key((#[trigger] moved@[a]).name@),
                forall|a: int| 0 <= a < self.nets@.len() ==> self.index.net_ix@.contains_key((#[trigger] self.nets@[a]).name@),
                forall|a: int, b: int|
                    0 <= a < self.nets@.len() && 0 <= b < self.nets@[a].endpoints@.len()
                        ==> self.index.pin_ix@.contains_key(
                        pin_key(
                            (#[trigger] self.nets@[a].endpoints@[b]).cell@,
                            self.nets@[a].endpoints@[b].pin@,
                        ),
                    ),
                self.name == old(self).name,
                self.ports == old(self).ports,
                self.cells == old(self).cells,
                self.nets == old(self).nets,
                self.instances == old(self).instances,
                self.attrs == old(self).attrs,
            decreases moved@.len() - i,
        {
            if base_len <= usize::MAX - i {
                self.index.cell_ix.insert(text::owned(moved[i].name.as_str()), base_len + i);
            } else {
                self.index.cell_ix.insert(text::owned(moved[i].name.as_str()), 0);
            }
            i = i + 1;
        }
        let ghost base = self.cells@;
        self.cells.append(&mut moved);
        assert forall|a: int| 0 <= a < self.cells@.len() implies self.index.cell_ix@.contains_key((#[trigger] self.cells@[a]).name@) by {
            if a >= base.len() {
                assert(self.cells@[a] == old(cells)@[a - base.len()]);
            } else {
                assert(self.cells@[a] == base[a]);
            }
        }
    }

    /// A copy of ports, cells, nets, instances and attributes.
    pub fn clone_data(&self) -> (r: Design)
        requires
            self.wf(),
        ensures
            r.wf(),
            r.name@ == self.name@,
            r.ports@.len() == self.ports@.len(),
            r.cells@.len() == self.cells@.len(),
            r.nets@.len() == self.nets@.len(),
            r.instances@.len() == self.instances@.len(),
            forall|i: int| 0 <= i < self.cells@.len() ==> (#[trigger] r.cells@[i]).same(self.cells@[i]),
            forall|i: int| 0 <= i < self.nets@.len() ==> (#[trigger] r.nets@[i]).same(self.nets@[i]),
            forall|i: int| 0 <= i < self.ports@.len() ==> (#[trigger] r.ports@[i]).same(self.ports@[i]),
            forall|i: int| 0 <= i < self.instances@.len() ==> (#[trigger] r.instances@[i]).same(self.instances@[i]),
            r.attrs.pairs() == self.attrs.pairs(),
    {
        let mut ports: Vec<Port> = Vec::new();
        let mut i: usize = 0;
        while i < self.ports.len()
            invariant
                i <= self.ports@.len(),
                ports@.len() == i,
                forall|k: int| 0 <= k < i ==> (#[trigger] ports@[k]).same(self.ports@[k]),
            decreases self.ports@.len() - i,
        {
            ports.push(self.ports[i].clone_port());
            i = i + 1;
        }
        let mut cells: Vec<Cell> = Vec::new();
        let mut i: usize = 0;
        while i < self.cells.len()
            invariant
                i <= self.cells@.len(),
                cells@.len() == i,
                forall|k: int| 0 <= k < i ==> (#[trigger] cells@[k]).same(self.cells@[k]),
            decreases self.cells@.len() - i,
        {
            cells.push(self.cells[i].clone_cell());
            i = i + 1;
        }
        let mut nets: Vec<Net> = Vec::new();
        let mut i: usize = 0;
        while i < self.nets.len()
            invariant
                i <= self.nets@.len(),
                nets@.len() == i,
                forall|k: int| 0 <= k < i ==> (#[trigger] nets@[k]).same(self.nets@[k]),
            decreases self.nets@.len() - i,
        {
            nets.push(self.nets[i].clone_net());
            i = i + 1;
        }
        let mut instances: Vec<Instance> = Vec::new();
        let mut i: usize = 0;
        while i < self.instances.len()
            invariant
                i <= self.instances@.len(),
                instances@.len() == i,
                forall|k: int| 0 <= k < i ==> (#[trigger] instances@[k]).same(self.instances@[k]),
            decreases self.instances@.len() - i,
        {
            instances.push(self.instances[i].clone_instance());
            i = i + 1;
        }
        let mut d = Design {
            name: text::owned(self.name.as_str()),
            ports,
            cells,
            nets,
            instances,
            attrs: self.attrs.clone(),
            index: NameIndex::new(),
        };
        d.rebuild_indexes();
        d
    }
}

impl CellKind {
    /// Same variant with the same field text.
    pub open spec fn same(&self, o: CellKind) -> bool {
        match (*self, o) {
            (CellKind::Lut6 { init: a }, CellKind::Lut6 { init: b }) => a == b,
            (CellKind::Hff, CellKind::Hff) => true,
            (CellKind::IobOut, CellKind::IobOut) => true,
            (CellKind::Mac27, CellKind::Mac27) => true,
            (CellKind::Ila { net: a }, CellKind::Ila { net: b }) => a@ == b@,
            (CellKind::Bram18, CellKind::Bram18) => true,
            (CellKind::BlackBox { module: a }, CellKind::BlackBox { module: b }) => a@ == b@,
            _ => false,
        }
    }

    pub fn clone_kind(&self) -> (r: CellKind)
        ensures
            r.same(*self),
    {
        match self {
            CellKind::Lut6 { init } => CellKind::Lut6 { init: *init },
            CellKind::Hff => CellKind::Hff,
            CellKind::IobOut => CellKind::IobOut,
            CellKind::Mac27 => CellKind::Mac27,
            CellKind::Ila { net } => CellKind::Ila { net: text::owned(net.as_str()) },
            CellKind::Bram18 => CellKind::Bram18,
            CellKind::BlackBox { module } => CellKind::BlackBox { module: text::owned(module.as_str()) },
        }
    }
}

impl Cell {
    /// Same name, kind and attributes.
    pub open spec fn same(&self, o: Cell) -> bool {
        self.name@ == o.name@ && self.kind.same(o.kind) && self.attrs.pairs() == o.attrs.pairs()
    }

    pub fn clone_cell(&self) -> (r: Cell)
        ensures
            r.same(*self),
    {
        Cell { name: text::owned(self.name.as_str()), kind: self.kind.clone_kind(), attrs: self.attrs.clone() }
    }
}

impl Port {
    pub open spec fn same(&self, o: Port) -> bool {
        self.name@ == o.name@ && self.dir == o.dir && self.attrs.pairs() == o.attrs.pairs()
    }

    pub fn clone_port(&self) -> (r: Port)
        ensures
            r.same(*self),
    {
        Port { name: text::owned(self.name.as_str()), dir: self.dir, attrs: self.attrs.clone() }
    }
}

/// Text views of endpoints.
pub open spec fn ep_views(e: Seq<Endpoint>) -> Seq<(Seq<char>, Seq<char>)> {
    e.map_values(|x: Endpoint| (x.cell@, x.pin@))
}

impl Net {
    pub open spec fn same(&self, o: Net) -> bool {
        self.name@ == o.name@ && ep_views(self.endpoints@) == ep_views(o.endpoints@)
            && self.attrs.pairs() == o.attrs.pairs()
    }

    pub fn clone_net(&self) -> (r: Net)
        ensures
            r.same(*self),
    {
        let mut eps: Vec<Endpoint> = Vec::new();
        let mut j: usize = 0;
        while j < self.endpoints.len()
            invariant
                j <= self.endpoints@.len(),
                ep_views(eps@) =~= ep_views(self.endpoints@.subrange(0, j as int)),
            decreases self.endpoints@.len() - j,
        {
            let e = &self.endpoints[j];
            let ghost old_eps = eps@;
            assert(ep_views(old_eps).len() == j);
            let ne = Endpoint { cell: text::owned(e.cell.as_str()), pin: text::owned(e.pin.as_str()) };
            eps.push(ne);
            proof {
                assert forall|k: int| 0 <= k < j implies ep_views(eps@)[k] == ep_views(old_eps)[k] by {
                    assert(eps@[k] == old_eps[k]);
                }
                assert(ep_views(eps@)[j as int] == (ne.cell@, ne.pin@));
                assert(ne.cell@ == self.endpoints@[j as int].cell@);
                let t = ep_views(self.endpoints@.subrange(0, j + 1));
                assert forall|k: int| 0 <= k <= j implies ep_views(eps@)[k] == t[k] by {
                    if k < j {
                        assert(ep_views(old_eps)[k] == ep_views(self.endpoints@.subrange(0, j as int))[k]);
                    }
                }
                assert(ep_views(eps@) =~= t);
            }
            j = j + 1;
        }
        assert(self.endpoints@.subrange(0, j as int) =~= self.endpoints@);
        Net { name: text::owned(self.name.as_str()), endpoints: eps, attrs: self.attrs.clone() }
    }
}

impl Instance {
    pub open spec fn same(&self, o: Instance) -> bool {
        self.name@ == o.name@ && self.module@ == o.module@ && kv(self.conns@) == kv(o.conns@)
            && self.attrs.pairs() == o.attrs.pairs()
    }

    pub fn clone_instance(&self) -> (r: Instance)
        ensures
            r.same(*self),
    {
        Instance {
            name: text::owned(self.name.as_str()),
            module: text::owned(self.module.as_str()),
            conns: pairs_copy(&self.conns),
            attrs: self.attrs.clone(),
        }
    }
}

/// Text view of nets: name and endpoint list.
pub open spec fn net_views(nets: Seq<Net>) -> Seq<(Seq<char>, Seq<(Seq<char>, Seq<char>)>)> {
    nets.map_values(|n: Net| (n.name@, ep_views(n.endpoints@)))
}

/// View of cells: name and kind.
pub open spec fn cell_views(cells: Seq<Cell>) -> Seq<(Seq<char>, CellKind)> {
    cells.map_values(|c: Cell| (c.name@, c.kind))
}

/// View of ports: name and direction.
pub open spec fn port_views(ports: Seq<Port>) -> Seq<(Seq<char>, PortDir)> {
    ports.map_values(|p: Port| (p.name@, p.dir))
}

/// Nets of [`Design::structural_blinky`].
pub open spec fn blinky_nets() -> Seq<(Seq<char>, Seq<(Seq<char>, Seq<char>)>)> {
    seq![
            ("clk"@, seq![("u_ff"@, "CLK"@)]),
            ("d"@, seq![("u_lut"@, "O"@), ("u_ff"@, "D"@)]),
            ("q"@, seq![("u_ff"@, "Q"@), ("u_lut"@, "I0"@), ("u_iob"@, "I"@)]),
            ("led"@, seq![("u_iob"@, "PAD"@)]),
    ]
}

/// Cells of [`Design::structural_blinky`].
pub open spec fn blinky_cells() -> Seq<(Seq<char>, CellKind)> {
    seq![
            ("u_lut"@, CellKind::Lut6 { init: 0x5555_5555_5555_5555 }),
            ("u_ff"@, CellKind::Hff),
            ("u_iob"@, CellKind::IobOut),
    ]
}

/// Nets of [`Design::structural_counter`].
pub open spec fn counter_nets() -> Seq<(Seq<char>, Seq<(Seq<char>, Seq<char>)>)> {
    seq![
            ("clk"@, seq![("u_ff0"@, "CLK"@), ("u_ff1"@, "CLK"@), ("u_ff2"@, "CLK"@), ("u_ff3"@, "CLK"@)]),
            ("d0"@, seq![("u_lut0"@, "O"@), ("u_ff0"@, "D"@)]),
            ("q0"@, seq![("u_ff0"@, "Q"@), ("u_lut0"@, "I0"@), ("u_lut1"@, "I0"@), ("u_lut2"@, "I0"@), ("u_lut3"@, "I0"@)]),
            ("d1"@, seq![("u_lut1"@, "O"@), ("u_ff1"@, "D"@)]),
            ("q1"@, seq![("u_ff1"@, "Q"@), ("u_lut1"@, "I1"@), ("u_lut2"@, "I1"@), ("u_lut3"@, "I1"@)]),
            ("d2"@, seq![("u_lut2"@, "O"@), ("u_ff2"@, "D"@)]),
            ("q2"@, seq![("u_ff2"@, "Q"@), ("u_lut2"@, "I2"@), ("u_lut3"@, "I2"@)]),
            ("d3"@, seq![("u_lut3"@, "O"@), ("u_ff3"@, "D"@)]),
            ("q3"@, seq![("u_ff3"@, "Q"@), ("u_lut3"@, "I3"@), ("u_iob"@, "I"@)]),
            ("led"@, seq![("u_iob"@, "PAD"@)]),
    ]
}

/// Cells of [`Design::structural_counter`].
pub open spec fn counter_cells() -> Seq<(Seq<char>, CellKind)> {
    seq![
            ("u_lut0"@, CellKind::Lut6 { init: INC4_INIT[0] }),
            ("u_ff0"@, CellKind::Hff),
            ("u_lut1"@, CellKind::Lut6 { init: INC4_INIT[1] }),
            ("u_ff1"@, CellKind::Hff),
            ("u_lut2"@, CellKind::Lut6 { init: INC4_INIT[2] }),
            ("u_ff2"@, CellKind::Hff),
            ("u_lut3"@, CellKind::Lut6 { init: INC4_INIT[3] }),
            ("u_ff3"@, CellKind::Hff),
            ("u_iob"@, CellKind::IobOut),
    ]
}

/// A net with no endpoints and no attributes.
fn mk_net(name: &str) -> (n: Net)
    ensures
        n.name@ == name@,
        n.endpoints@.len() == 0,
        ep_views(n.endpoints@) == Seq::<(Seq<char>, Seq<char>)>::empty(),
        n.attrs.pairs().len() == 0,
{
    let n = Net { name: text::owned(name), endpoints: Vec::new(), attrs: Attrs::new() };
    assert(ep_views(n.endpoints@) =~= Seq::<(Seq<char>, Seq<char>)>::empty());
    n
}

/// Appends endpoint `cell/pin` to `n`.
fn add_ep(n: &mut Net, cell: &str, pin: &str)
    ensures
        final(n).name == old(n).name,
        final(n).attrs == old(n).attrs,
        ep_views(final(n).endpoints@) == ep_views(old(n).endpoints@).push((cell@, pin@)),
{
    let ghost o = n.endpoints@;
    n.endpoints.push(Endpoint { cell: text::owned(cell), pin: text::owned(pin) });
    assert(ep_views(n.endpoints@) =~= ep_views(o).push((cell@, pin@))) by {
        assert forall|k: int| 0 <= k < o.len() implies ep_views(n.endpoints@)[k] == ep_views(o)[k] by {
            assert(n.endpoints@[k] == o[k]);
        }
    }
}

fn mk_port(name: &str, dir: PortDir) -> (p: Port)
    ensures
        p.name@ == name@,
        p.dir == dir,
        p.attrs.pairs().len() == 0,
{
    Port { name: text::owned(name), dir, attrs: Attrs::new() }
}

impl Design {
    /// Structural inverter-FF blinky: LED toggles each user clock.
    /// LUT INIT = 0x5555… so O = ~I0; I0 driven by Q.
    pub fn structural_blinky() -> (d: Design)
        ensures
            d.wf(),
            d.name@ == "blinky"@,
            port_views(d.ports@) == seq![("clk"@, PortDir::In), ("led"@, PortDir::Out)],
            cell_views(d.cells@) == blinky_cells(),
            net_views(d.nets@) == blinky_nets(),
            d.instances@.len() == 0,
    {
        let mut ports: Vec<Port> = Vec::new();
        ports.push(mk_port("clk", PortDir::In));
        ports.push(mk_port("led", PortDir::Out));
        let mut cells: Vec<Cell> = Vec::new();
        cells.push(Cell { name: text::owned("u_lut"), kind: CellKind::Lut6 { init: 0x5555_5555_5555_5555 }, attrs: Attrs::new() });
        cells.push(Cell { name: text::owned("u_ff"), kind: CellKind::Hff, attrs: Attrs::new() });
        cells.push(Cell { name: text::owned("u_iob"), kind: CellKind::IobOut, attrs: Attrs::new() });
        let mut nets: Vec<Net> = Vec::new();
        let mut n = mk_net("clk");
        add_ep(&mut n, "u_ff", "CLK");
        assert(ep_views(n.endpoints@) =~= seq![("u_ff"@, "CLK"@)]);
        let ghost before = nets@;
        nets.push(n);
        assert(net_views(nets@) =~= net_views(before).push((n.name@, ep_views(n.endpoints@))));
        let mut n = mk_net("d");
        add_ep(&mut n, "u_lut", "O");
        add_ep(&mut n, "u_ff", "D");
        assert(ep_views(n.endpoints@) =~= seq![("u_lut"@, "O"@), ("u_ff"@, "D"@)]);
        let ghost before = nets@;
        nets.push(n);
        assert(net_views(nets@) =~= net_views(before).push((n.name@, ep_views(n.endpoints@))));
        let mut n = mk_net("q");
        add_ep(&mut n, "u_ff", "Q");
        add_ep(&mut n, "u_lut", "I0");
        add_ep(&mut n, "u_iob", "I");
        assert(ep_views(n.endpoints@) =~= seq![("u_ff"@, "Q"@), ("u_lut"@, "I0"@), ("u_iob"@, "I"@)]);
        let ghost before = nets@;
        nets.push(n);
        assert(net_views(nets@) =~= net_views(before).push((n.name@, ep_views(n.endpoints@))));
        let mut n = mk_net("led");
        add_ep(&mut n, "u_iob", "PAD");
        assert(ep_views(n.endpoints@) =~= seq![("u_iob"@, "PAD"@)]);
        let ghost before = nets@;
        nets.push(n);
        assert(net_views(nets@) =~= net_views(before).push((n.name@, ep_views(n.endpoints@))));
        let mut d = Design {
            name: text::owned("blinky"),
            ports,
            cells,
            nets,
            instances: Vec::new(),
            attrs: Attrs::new(),
            index: NameIndex::new(),
        };
        d.rebuild_indexes();
        assert(port_views(d.ports@) =~= seq![("clk"@, PortDir::In), ("led"@, PortDir::Out)]);
        assert(cell_views(d.cells@) =~= blinky_cells());
        assert(net_views(d.nets@) =~= blinky_nets());
        d
    }

    /// 4-bit incrementer, LED = cnt[3]. Gold for synth + fabric.
    pub fn structural_counter() -> (d: Design)
        ensures
            d.wf(),
            d.name@ == "counter"@,
            port_views(d.ports@) == seq![("clk"@, PortDir::In), ("led"@, PortDir::Out)],
            cell_views(d.cells@) == counter_cells(),
            net_views(d.nets@) == counter_nets(),
            d.instances@.len() == 0,
    {
        let mut ports: Vec<Port> = Vec::new();
        ports.push(mk_port("clk", PortDir::In));
        ports.push(mk_port("led", PortDir::Out));
        let mut cells: Vec<Cell> = Vec::new();
        cells.push(Cell { name: text::owned("u_lut0"), kind: CellKind::Lut6 { init: INC4_INIT[0] }, attrs: Attrs::new() });
        cells.push(Cell { name: text::owned("u_ff0"), kind: CellKind::Hff, attrs: Attrs::new() });
        cells.push(Cell { name: text::owned("u_lut1"), kind: CellKind::Lut6 { init: INC4_INIT[1] }, attrs: Attrs::new() });
        cells.push(Cell { name: text::owned("u_ff1"), kind: CellKind::Hff, attrs: Attrs::new() });
        cells.push(Cell { name: text::owned("u_lut2"), kind: CellKind::Lut6 { init: INC4_INIT[2] }, attrs: Attrs::new() });
        cells.push(Cell { name: text::owned("u_ff2"), kind: CellKind::Hff, attrs: Attrs::new() });
        cells.push(Cell { name: text::owned("u_lut3"), kind: CellKind::Lut6 { init: INC4_INIT[3] }, attrs: Attrs::new() });
        cells.push(Cell { name: text::owned("u_ff3"), kind: CellKind::Hff, attrs: Attrs::new() });
        cells.push(Cell { name: text::owned("u_iob"), kind: CellKind::IobOut, attrs: Attrs::new() });
        let mut nets: Vec<Net> = Vec::new();
        let mut n = mk_net("clk");
        add_ep(&mut n, "u_ff0", "CLK");
        add_ep(&mut n, "u_ff1", "CLK");
        add_ep(&mut n, "u_ff2", "CLK");
        add_ep(&mut n, "u_ff3", "CLK");
        assert(ep_views(n.endpoints@) =~= seq![("u_ff0"@, "CLK"@), ("u_ff1"@, "CLK"@), ("u_ff2"@, "CLK"@), ("u_ff3"@, "CLK"@)]);
        let ghost before = nets@;
        nets.push(n);
        assert(net_views(nets@) =~= net_views(before).push((n.name@, ep_views(n.endpoints@))));
        let mut n = mk_net("d0");
        add_ep(&mut n, "u_lut0", "O");
        add_ep(&mut n, "u_ff0", "D");
        assert(ep_views(n.endpoints@) =~= seq![("u_lut0"@, "O"@), ("u_ff0"@, "D"@)]);
        let ghost before = nets@;
        nets.push(n);
        assert(net_views(nets@) =~= net_views(before).push((n.name@, ep_views(n.endpoints@))));
        let mut n = mk_net("q0");
        add_ep(&mut n, "u_ff0", "Q");
        add_ep(&mut n, "u_lut0", "I0");
        add_ep(&mut n, "u_lut1", "I0");
        add_ep(&mut n, "u_lut2", "I0");
        add_ep(&mut n, "u_lut3", "I0");
        assert(ep_views(n.endpoints@) =~= seq![("u_ff0"@, "Q"@), ("u_lut0"@, "I0"@), ("u_lut1"@, "I0"@), ("u_lut2"@, "I0"@), ("u_lut3"@, "I0"@)]);
        let ghost before = nets@;
        nets.push(n);
        assert(net_views(nets@) =~= net_views(before).push((n.name@, ep_views(n.endpoints@))));
        let mut n = mk_net("d1");
        add_ep(&mut n, "u_lut1", "O");
        add_ep(&mut n, "u_ff1", "D");
        assert(ep_views(n.endpoints@) =~= seq![("u_lut1"@, "O"@), ("u_ff1"@, "D"@)]);
        let ghost before = nets@;
        nets.push(n);
        assert(net_views(nets@) =~= net_views(before).push((n.name@, ep_views(n.endpoints@))));
        let mut n = mk_net("q1");
        add_ep(&mut n, "u_ff1", "Q");
        add_ep(&mut n, "u_lut1", "I1");
        add_ep(&mut n, "u_lut2", "I1");
        add_ep(&mut n, "u_lut3", "I1");
        assert(ep_views(n.endpoints@) =~= seq![("u_ff1"@, "Q"@), ("u_lut1"@, "I1"@), ("u_lut2"@, "I1"@), ("u_lut3"@, "I1"@)]);
        let ghost before = nets@;
        nets.push(n);
        assert(net_views(nets@) =~= net_views(before).push((n.name@, ep_views(n.endpoints@))));
        let mut n = mk_net("d2");
        add_ep(&mut n, "u_lut2", "O");
        add_ep(&mut n, "u_ff2", "D");
        assert(ep_views(n.endpoints@) =~= seq![("u_lut2"@, "O"@), ("u_ff2"@, "D"@)]);
        let ghost before = nets@;
        nets.push(n);
        assert(net_views(nets@) =~= net_views(before).push((n.name@, ep_views(n.endpoints@))));
        let mut n = mk_net("q2");
        add_ep(&mut n, "u_ff2", "Q");
        add_ep(&mut n, "u_lut2", "I2");
        add_ep(&mut n, "u_lut3", "I2");
        assert(ep_views(n.endpoints@) =~= seq![("u_ff2"@, "Q"@), ("u_lut2"@, "I2"@), ("u_lut3"@, "I2"@)]);
        let ghost before = nets@;
        nets.push(n);
        assert(net_views(nets@) =~= net_views(before).push((n.name@, ep_views(n.endpoints@))));
        let mut n = mk_net("d3");
        add_ep(&mut n, "u_lut3", "O");
        add_ep(&mut n, "u_ff3", "D");
        assert(ep_views(n.endpoints@) =~= seq![("u_lut3"@, "O"@), ("u_ff3"@, "D"@)]);
        let ghost before = nets@;
        nets.push(n);
        assert(net_views(nets@) =~= net_views(before).push((n.name@, ep_views(n.endpoints@))));
        let mut n = mk_net("q3");
        add_ep(&mut n, "u_ff3", "Q");
        add_ep(&mut n, "u_lut3", "I3");
        add_ep(&mut n, "u_iob", "I");
        assert(ep_views(n.endpoints@) =~= seq![("u_ff3"@, "Q"@), ("u_lut3"@, "I3"@), ("u_iob"@, "I"@)]);
        let ghost before = nets@;
        nets.push(n);
        assert(net_views(nets@) =~= net_views(before).push((n.name@, ep_views(n.endpoints@))));
        let mut n = mk_net("led");
        add_ep(&mut n, "u_iob", "PAD");
        assert(ep_views(n.endpoints@) =~= seq![("u_iob"@, "PAD"@)]);
        let ghost before = nets@;
        nets.push(n);
        assert(net_views(nets@) =~= net_views(before).push((n.name@, ep_views(n.endpoints@))));
        let mut d = Design {
            name: text::owned("counter"),
            ports,
            cells,
            nets,
            instances: Vec::new(),
            attrs: Attrs::new(),
            index: NameIndex::new(),
        };
        d.rebuild_indexes();
        assert(port_views(d.ports@) =~= seq![("clk"@, PortDir::In), ("led"@, PortDir::Out)]);
        assert(cell_views(d.cells@) =~= counter_cells());
        assert(net_views(d.nets@) =~= counter_nets());
        d
    }
}

// ---------------------------------------------------------------------------
// SOFT diagnostics
// ---------------------------------------------------------------------------

/// Source location for a SOFT diagnostic. Prefer file+line; columns optional.
#[derive(Clone, Debug, PartialEq, Eq)]
pub struct SoftSpan {
    pub file: Option<String>,
    pub line: Option<u32>,
    pub column: Option<u32>,
    pub end_line: Option<u32>,
}

impl SoftSpan {
    pub fn file_line(file: &str, line: u32) -> (r: SoftSpan)
        ensures
            r.file matches Some(f) && f@ == file@,
            r.line == Some(line),
            r.column is None,
            r.end_line is None,
    {
        SoftSpan { file: Some(text::owned(file)), line: Some(line), column: None, end_line: None }
    }

    /// No location known.
    pub fn unknown() -> (r: SoftSpan)
        ensures
            r.file is None,
            r.line is None,
            r.column is None,
            r.end_line is None,
    {
        SoftSpan { file: None, line: None, column: None, end_line: None }
    }
}

/// First-class incomplete-map entry (a SOFT diagnostic, never a PASS).
#[derive(Debug)]
pub struct SoftDiag {
    pub name: String,
    pub module: String,
    pub detail: Option<String>,
    pub span: SoftSpan,
    /// Nested child diagnostics, in insertion order.
    pub children: SoftChildren,
}

/// An ordered list of nested SOFT diagnostics.
#[derive(Debug)]
pub enum SoftChildren {
    Nil,
    Cons(Box<SoftDiag>, Box<SoftChildren>),
}

impl SoftChildren {
    pub open spec fn len(&self) -> nat
        decreases self,
    {
        match self {
            SoftChildren::Nil => 0,
            SoftChildren::Cons(_, rest) => 1 + rest.len(),
        }
    }

    /// The children as a sequence.
    pub open spec fn items(&self) -> Seq<SoftDiag>
        decreases self,
    {
        match self {
            SoftChildren::Nil => Seq::empty(),
            SoftChildren::Cons(d, rest) => seq![**d] + rest.items(),
        }
    }

    fn push(&mut self, d: SoftDiag)
        ensures
            final(self).items() == old(self).items().push(d),
            final(self).len() == old(self).len() + 1,
        decreases *old(self),
    {
        match self {
            SoftChildren::Nil => {
                let nil = SoftChildren::Nil;
                assert(nil.items() =~= Seq::<SoftDiag>::empty());
                assert(nil.len() == 0);
                *self = SoftChildren::Cons(Box::new(d), Box::new(nil));
                assert(self.items() =~= Seq::<SoftDiag>::empty().push(d));
            },
            SoftChildren::Cons(_, rest) => {
                rest.push(d);
                assert(self.items() =~= old(self).items().push(d));
            },
        }
    }

    fn count(&self) -> (r: u64)
        requires
            self.len() < u64::MAX,
        ensures
            r == self.len(),
        decreases self,
    {
        match self {
            SoftChildren::Nil => 0,
            SoftChildren::Cons(_, rest) => 1 + rest.count(),
        }
    }
}

/// The ` span=...` part of a table row.
pub open spec fn span_text(sp: SoftSpan) -> Seq<char> {
    match (sp.file, sp.line) {
        (Some(f), Some(l)) => " span="@ + f@ + ":"@ + text::dec(l as nat) + match sp.column {
            Some(c) => ":"@ + text::dec(c as nat),
            None => Seq::empty(),
        },
        (_, Some(l)) => " span=:"@ + text::dec(l as nat),
        _ => Seq::empty(),
    }
}

/// One table row of a SOFT diagnostic.
pub open spec fn soft_line(d: SoftDiag) -> Seq<char> {
    "soft name="@ + d.name@ + " module="@ + d.module@ + match d.detail {
        Some(x) => " detail="@ + x@,
        None => Seq::empty(),
    } + span_text(d.span) + if d.children.len() > 0 {
        " children="@ + text::dec(d.children.len())
    } else {
        Seq::empty()
    }
}

impl SoftDiag {
    pub fn new(name: &str, module: &str) -> (r: SoftDiag)
        ensures
            r.name@ == name@,
            r.module@ == module@,
            r.detail is None,
            r.span.file is None,
            r.span.line is None,
            r.span.column is None,
            r.span.end_line is None,
            r.children.len() == 0,
    {
        SoftDiag {
            name: text::owned(name),
            module: text::owned(module),
            detail: None,
            span: SoftSpan::unknown(),
            children: SoftChildren::Nil,
        }
    }

    pub fn with_detail(self, detail: &str) -> (r: SoftDiag)
        ensures
            r.name == self.name,
            r.module == self.module,
            r.detail matches Some(d) && d@ == detail@,
            r.span == self.span,
            r.children == self.children,
    {
        let mut s = self;
        s.detail = Some(text::owned(detail));
        s
    }

    pub fn with_span(self, span: SoftSpan) -> (r: SoftDiag)
        ensures
            r.name == self.name,
            r.module == self.module,
            r.detail == self.detail,
            r.span == span,
            r.children == self.children,
    {
        let mut s = self;
        s.span = span;
        s
    }

    pub fn push_child(&mut self, child: SoftDiag)
        ensures
            final(self).name == old(self).name,
            final(self).module == old(self).module,
            final(self).detail == old(self).detail,
            final(self).span == old(self).span,
            final(self).children.items() == old(self).children.items().push(child),
            final(self).children.len() == old(self).children.len() + 1,
    {
        self.children.push(child);
    }

    /// One-line table row (headless / reports).
    #[verifier::spinoff_prover]
    #[verifier::rlimit(40)]
    pub fn table_line(&self) -> (r: String)
        requires
            self.children.len() < u64::MAX,
        ensures
            r@ == soft_line(*self),
    {
        let mut s: Vec<char> = Vec::new();
        text::push_str(&mut s, "soft name=");
        text::push_str(&mut s, self.name.as_str());
        text::push_str(&mut s, " module=");
        text::push_str(&mut s, self.module.as_str());
        match &self.detail {
            Some(d) => {
                text::push_str(&mut s, " detail=");
                text::push_str(&mut s, d.as_str());
            },
            None => {},
        }
        let ghost before_span = s@;
        match (&self.span.file, self.span.line) {
            (Some(f), Some(l)) => {
                text::push_str(&mut s, " span=");
                text::push_str(&mut s, f.as_str());
                text::push_str(&mut s, ":");
                text::push_u64(&mut s, l as u64);
                match self.span.column {
                    Some(c) => {
                        text::push_str(&mut s, ":");
                        text::push_u64(&mut s, c as u64);
                    },
                    None => {},
                }
            },
            (_, Some(l)) => {
                text::push_str(&mut s, " span=:");
                text::push_u64(&mut s, l as u64);
            },
            _ => {},
        }
        assert(s@ =~= before_span + span_text(self.span));
        let n = self.children.count();
        if n > 0 {
            text::push_str(&mut s, " children=");
            text::push_u64(&mut s, n);
        }
        assert(s@ =~= soft_line(*self));
        text::string_of(s.as_slice())
    }
}

/// Table rows of `d` and its nested children, depth first.
pub open spec fn soft_rows(d: SoftDiag) -> Seq<Seq<char>>
    decreases d,
{
    seq![soft_line(d)] + soft_rows_children(d.children)
}

/// Table rows of a child list, in order.
pub open spec fn soft_rows_children(c: SoftChildren) -> Seq<Seq<char>>
    decreases c,
{
    match c {
        SoftChildren::Nil => Seq::empty(),
        SoftChildren::Cons(d, rest) => soft_rows(*d) + soft_rows_children(*rest),
    }
}

/// Table rows of a list of diagnostics, in order.
pub open spec fn soft_rows_list(ds: Seq<SoftDiag>) -> Seq<Seq<char>>
    decreases ds.len(),
{
    if ds.len() == 0 {
        Seq::empty()
    } else {
        soft_rows_list(ds.drop_last()) + soft_rows(ds.last())
    }
}

/// Bounded child counts along the whole tree (so every row can be printed).
pub open spec fn soft_small(d: SoftDiag) -> bool
    decreases d,
{
    d.children.len() < u64::MAX && soft_small_children(d.children)
}

pub open spec fn soft_small_children(c: SoftChildren) -> bool
    decreases c,
{
    match c {
        SoftChildren::Nil => true,
        SoftChildren::Cons(d, rest) => soft_small(*d) && soft_small_children(*rest),
    }
}

fn walk_soft(d: &SoftDiag, out: &mut Vec<String>)
    requires
        soft_small(*d),
    ensures
        views(final(out)@) == views(old(out)@) + soft_rows(*d),
    decreases d,
{
    let ghost o = out@;
    out.push(d.table_line());
    assert(views(out@) =~= views(o) + seq![soft_line(*d)]);
    walk_children(&d.children, out);
    assert(views(out@) =~= views(o) + soft_rows(*d));
}

fn walk_children(c: &SoftChildren, out: &mut Vec<String>)
    requires
        soft_small_children(*c),
    ensures
        views(final(out)@) == views(old(out)@) + soft_rows_children(*c),
    decreases c,
{
    match c {
        SoftChildren::Nil => {
            assert(views(out@) =~= views(out@) + Seq::<Seq<char>>::empty());
        },
        SoftChildren::Cons(d, rest) => {
            let ghost o = out@;
            walk_soft(d, out);
            walk_children(rest, out);
            assert(views(out@) =~= views(o) + soft_rows_children(*c));
        },
    }
}

/// Post-map elaborator result: design cells plus the first-class SOFT table.
pub struct MapResult {
    pub design: Design,
    pub softs: Vec<SoftDiag>,
}

impl MapResult {
    pub fn from_design(design: Design) -> (r: MapResult)
        ensures
            r.design == design,
            r.softs@.len() == 0,
    {
        MapResult { design, softs: Vec::new() }
    }

    /// Table rows of every SOFT diagnostic, children after their parent.
    pub fn soft_table_lines(&self) -> (r: Vec<String>)
        requires
            forall|i: int| 0 <= i < self.softs@.len() ==> soft_small(#[trigger] self.softs@[i]),
        ensures
            views(r@) == soft_rows_list(self.softs@),
    {
        let mut out: Vec<String> = Vec::new();
        let mut i: usize = 0;
        while i < self.softs.len()
            invariant
                i <= self.softs@.len(),
                forall|k: int| 0 <= k < self.softs@.len() ==> soft_small(#[trigger] self.softs@[k]),
                views(out@) == soft_rows_list(self.softs@.subrange(0, i as int)),
            decreases self.softs@.len() - i,
        {
            walk_soft(&self.softs[i], &mut out);
            proof {
                assert(self.softs@.subrange(0, i + 1).drop_last() =~= self.softs@.subrange(0, i as int));
            }
            i = i + 1;
        }
        assert(self.softs@.subrange(0, i as int) =~= self.softs@);
        out
    }

    /// True when any SOFT diagnostic is present.
    pub fn has_softs(&self) -> (r: bool)
        ensures
            r == (self.softs@.len() > 0),
    {
        self.softs.len() > 0
    }
}

// ---------------------------------------------------------------------------
// HNF text
// ---------------------------------------------------------------------------

/// `<tag> <owner> <k> <v>\n` lines for each attribute pair (`owner` may be empty
/// for design attributes, giving `<tag> <k> <v>\n`).
pub open spec fn attr_lines(tag: Seq<char>, owner: Option<Seq<char>>, pairs: Seq<(Seq<char>, Seq<char>)>) -> Seq<char>
    decreases pairs.len(),
{
    if pairs.len() == 0 {
        Seq::empty()
    } else {
        attr_lines(tag, owner, pairs.drop_last()) + tag + " "@ + match owner {
            Some(o) => o + " "@,
            None => Seq::empty(),
        } + pairs.last().0 + " "@ + pairs.last().1 + "\n"@
    }
}

pub open spec fn dir_text(d: PortDir) -> Seq<char> {
    match d {
        PortDir::In => "in"@,
        PortDir::Out => "out"@,
        PortDir::Inout => "inout"@,
    }
}

pub open spec fn port_text(p: Port) -> Seq<char> {
    "port "@ + p.name@ + " "@ + dir_text(p.dir) + "\n"@ + attr_lines("pattr"@, Some(p.name@), p.attrs.pairs())
}

pub open spec fn kind_text(k: CellKind) -> Seq<char> {
    match k {
        CellKind::Lut6 { init } => "Lut6 0x"@ + text::hex(init as nat),
        CellKind::Hff => "Hff"@,
        CellKind::IobOut => "IobOut"@,
        CellKind::Mac27 => "Mac27"@,
        CellKind::Ila { net } => "Ila "@ + net@,
        CellKind::Bram18 => "Bram18"@,
        CellKind::BlackBox { module } => "BlackBox "@ + module@,
    }
}

pub open spec fn cell_text(c: Cell) -> Seq<char> {
    "cell "@ + c.name@ + " "@ + kind_text(c.kind) + "\n"@ + attr_lines("cattr"@, Some(c.name@), c.attrs.pairs())
}

/// `cell/pin` items joined by single spaces.
pub open spec fn eps_text(e: Seq<(Seq<char>, Seq<char>)>) -> Seq<char>
    decreases e.len(),
{
    if e.len() == 0 {
        Seq::empty()
    } else if e.len() == 1 {
        e[0].0 + "/"@ + e[0].1
    } else {
        eps_text(e.drop_last()) + " "@ + e.last().0 + "/"@ + e.last().1
    }
}

pub open spec fn net_text(n: Net) -> Seq<char> {
    "net "@ + n.name@ + " "@ + eps_text(ep_views(n.endpoints@)) + "\n"@ + attr_lines("nattr"@, Some(n.name@), n.attrs.pairs())
}

/// `port:net` items joined by commas.
pub open spec fn conns_text(c: Seq<(Seq<char>, Seq<char>)>) -> Seq<char>
    decreases c.len(),
{
    if c.len() == 0 {
        Seq::empty()
    } else if c.len() == 1 {
        c[0].0 + ":"@ + c[0].1
    } else {
        conns_text(c.drop_last()) + ","@ + c.last().0 + ":"@ + c.last().1
    }
}

pub open spec fn inst_text(i: Instance) -> Seq<char> {
    "inst "@ + i.name@ + " "@ + i.module@ + " "@ + conns_text(kv(i.conns@)) + "\n"@ + attr_lines(
        "iattr"@,
        Some(i.name@),
        i.attrs.pairs(),
    )
}

pub open spec fn ports_text(ps: Seq<Port>) -> Seq<char>
    decreases ps.len(),
{
    if ps.len() == 0 { Seq::empty() } else { ports_text(ps.drop_last()) + port_text(ps.last()) }
}

pub open spec fn cells_text(cs: Seq<Cell>) -> Seq<char>
    decreases cs.len(),
{
    if cs.len() == 0 { Seq::empty() } else { cells_text(cs.drop_last()) + cell_text(cs.last()) }
}

pub open spec fn nets_text(ns: Seq<Net>) -> Seq<char>
    decreases ns.len(),
{
    if ns.len() == 0 { Seq::empty() } else { nets_text(ns.drop_last()) + net_text(ns.last()) }
}

pub open spec fn insts_text(is: Seq<Instance>) -> Seq<char>
    decreases is.len(),
{
    if is.len() == 0 { Seq::empty() } else { insts_text(is.drop_last()) + inst_text(is.last()) }
}

/// The HNF text of a design.
pub open spec fn hnf_text(d: Design) -> Seq<char> {
    "HNF 1\ndesign "@ + d.name@ + "\n"@ + attr_lines("dattr"@, None, d.attrs.pairs()) + ports_text(d.ports@)
        + cells_text(d.cells@) + nets_text(d.nets@) + insts_text(d.instances@)
}

fn push_attr_lines(out: &mut Vec<char>, tag: &str, owner: Option<&str>, a: &Attrs)
    ensures
        final(out)@ == old(out)@ + attr_lines(tag@, match owner { Some(o) => Some(o@), None => None }, a.pairs()),
        pairs_unique(a.pairs()),
{
    let ghost o = out@;
    let ghost ow = match owner { Some(x) => Some(x@), None => None::<Seq<char>> };
    let m = a.entries();
    let mut i: usize = 0;
    while i < m.len()
        invariant
            i <= m@.len(),
            kv(m@) == a.pairs(),
            ow == match owner { Some(x) => Some(x@), None => None::<Seq<char>> },
            out@ == o + attr_lines(tag@, ow, kv(m@).subrange(0, i as int)),
        decreases m@.len() - i,
    {
        let ghost before = out@;
        text::push_str(out, tag);
        text::push_str(out, " ");
        match owner {
            Some(x) => {
                text::push_str(out, x);
                text::push_str(out, " ");
            },
            None => {},
        }
        text::push_str(out, m[i].0.as_str());
        text::push_str(out, " ");
        text::push_str(out, m[i].1.as_str());
        text::push_str(out, "\n");
        proof {
            let pre = kv(m@).subrange(0, i + 1);
            assert(pre.drop_last() =~= kv(m@).subrange(0, i as int));
            assert(pre.last() == (m@[i as int].0@, m@[i as int].1@));
            assert(out@ =~= o + attr_lines(tag@, ow, pre));
        }
        i = i + 1;
    }
    assert(kv(m@).subrange(0, i as int) =~= a.pairs());
}

fn push_port_text(s: &mut Vec<char>, p: &Port)
    ensures
        final(s)@ == old(s)@ + port_text(*p),
        pairs_unique(p.attrs.pairs()),
{
    let ghost o = s@;
    text::push_str(s, "port ");
    text::push_str(s, p.name.as_str());
    text::push_str(s, " ");
    match p.dir {
        PortDir::In => text::push_str(s, "in"),
        PortDir::Out => text::push_str(s, "out"),
        PortDir::Inout => text::push_str(s, "inout"),
    }
    text::push_str(s, "\n");
    push_attr_lines(s, "pattr", Some(p.name.as_str()), &p.attrs);
    assert(s@ =~= o + port_text(*p));
}

fn push_cell_text(s: &mut Vec<char>, c: &Cell)
    ensures
        final(s)@ == old(s)@ + cell_text(*c),
        pairs_unique(c.attrs.pairs()),
{
    let ghost o = s@;
    text::push_str(s, "cell ");
    text::push_str(s, c.name.as_str());
    text::push_str(s, " ");
    let ghost k0 = s@;
    match &c.kind {
        CellKind::Lut6 { init } => {
            text::push_str(s, "Lut6 0x");
            text::push_hex(s, *init);
        },
        CellKind::Hff => text::push_str(s, "Hff"),
        CellKind::IobOut => text::push_str(s, "IobOut"),
        CellKind::Mac27 => text::push_str(s, "Mac27"),
        CellKind::Ila { net } => {
            text::push_str(s, "Ila ");
            text::push_str(s, net.as_str());
        },
        CellKind::Bram18 => text::push_str(s, "Bram18"),
        CellKind::BlackBox { module } => {
            text::push_str(s, "BlackBox ");
            text::push_str(s, module.as_str());
        },
    }
    assert(s@ =~= k0 + kind_text(c.kind));
    text::push_str(s, "\n");
    push_attr_lines(s, "cattr", Some(c.name.as_str()), &c.attrs);
    assert(s@ =~= o + cell_text(*c));
}

fn push_net_text(s: &mut Vec<char>, n: &Net)
    ensures
        final(s)@ == old(s)@ + net_text(*n),
        pairs_unique(n.attrs.pairs()),
{
    let ghost o = s@;
    text::push_str(s, "net ");
    text::push_str(s, n.name.as_str());
    text::push_str(s, " ");
    let ghost e0 = s@;
    let mut j: usize = 0;
    while j < n.endpoints.len()
        invariant
            j <= n.endpoints@.len(),
            s@ == e0 + eps_text(ep_views(n.endpoints@).subrange(0, j as int)),
        decreases n.endpoints@.len() - j,
    {
        if j > 0 {
            text::push_str(s, " ");
        }
        text::push_str(s, n.endpoints[j].cell.as_str());
        text::push_str(s, "/");
        text::push_str(s, n.endpoints[j].pin.as_str());
        proof {
            let pre = ep_views(n.endpoints@).subrange(0, j + 1);
            assert(pre.drop_last() =~= ep_views(n.endpoints@).subrange(0, j as int));
            if j == 0 {
                assert(ep_views(n.endpoints@).subrange(0, 0) =~= Seq::<(Seq<char>, Seq<char>)>::empty());
            }
        }
        j = j + 1;
        assert(s@ =~= e0 + eps_text(ep_views(n.endpoints@).subrange(0, j as int)));
    }
    assert(ep_views(n.endpoints@).subrange(0, j as int) =~= ep_views(n.endpoints@));
    text::push_str(s, "\n");
    push_attr_lines(s, "nattr", Some(n.name.as_str()), &n.attrs);
    assert(s@ =~= o + net_text(*n));
}

fn push_inst_text(s: &mut Vec<char>, it: &Instance)
    ensures
        final(s)@ == old(s)@ + inst_text(*it),
        pairs_unique(it.attrs.pairs()),
{
    let ghost o = s@;
    text::push_str(s, "inst ");
    text::push_str(s, it.name.as_str());
    text::push_str(s, " ");
    text::push_str(s, it.module.as_str());
    text::push_str(s, " ");
    let ghost c0 = s@;
    let mut j: usize = 0;
    while j < it.conns.len()
        invariant
            j <= it.conns@.len(),
            s@ == c0 + conns_text(kv(it.conns@).subrange(0, j as int)),
        decreases it.conns@.len() - j,
    {
        if j > 0 {
            text::push_str(s, ",");
        }
        text::push_str(s, it.conns[j].0.as_str());
        text::push_str(s, ":");
        text::push_str(s, it.conns[j].1.as_str());
        proof {
            let pre = kv(it.conns@).subrange(0, j + 1);
            assert(pre.drop_last() =~= kv(it.conns@).subrange(0, j as int));
        }
        j = j + 1;
        assert(s@ =~= c0 + conns_text(kv(it.conns@).subrange(0, j as int)));
    }
    assert(kv(it.conns@).subrange(0, j as int) =~= kv(it.conns@));
    text::push_str(s, "\n");
    push_attr_lines(s, "iattr", Some(it.name.as_str()), &it.attrs);
    assert(s@ =~= o + inst_text(*it));
}

impl Design {
    /// Helion Netlist Format text (round-trips through [`Design::from_hnf`]).
    pub fn to_hnf(&self) -> (r: String)
        ensures
            r@ == hnf_text(*self),
            crate::hnf::attrs_distinct(*self),
            crate::hnf::hnf_ready(*self) ==> hnf_result(r@) == Ok::<DesignModel, Seq<char>>(design_model(*self)),
    {
        let mut s: Vec<char> = Vec::new();
        text::push_str(&mut s, "HNF 1\ndesign ");
        text::push_str(&mut s, self.name.as_str());
        text::push_str(&mut s, "\n");
        push_attr_lines(&mut s, "dattr", None, &self.attrs);
        let ghost h0 = s@;
        let mut i: usize = 0;
        while i < self.ports.len()
            invariant
                i <= self.ports@.len(),
                s@ == h0 + ports_text(self.ports@.subrange(0, i as int)),
                forall|k: int| 0 <= k < i ==> pairs_unique((#[trigger] self.ports@[k]).attrs.pairs()),
            decreases self.ports@.len() - i,
        {
            push_port_text(&mut s, &self.ports[i]);
            proof {
                assert(self.ports@.subrange(0, i + 1).drop_last() =~= self.ports@.subrange(0, i as int));
            }
            i = i + 1;
        }
        assert(self.ports@.subrange(0, i as int) =~= self.ports@);
        let ghost h1 = s@;
        let mut i: usize = 0;
        while i < self.cells.len()
            invariant
                i <= self.cells@.len(),
                s@ == h1 + cells_text(self.cells@.subrange(0, i as int)),
                forall|k: int| 0 <= k < self.ports@.len() ==> pairs_unique((#[trigger] self.ports@[k]).attrs.pairs()),
                forall|k: int| 0 <= k < i ==> pairs_unique((#[trigger] self.cells@[k]).attrs.pairs()),
            decreases self.cells@.len() - i,
        {
            push_cell_text(&mut s, &self.cells[i]);
            proof {
                assert(self.cells@.subrange(0, i + 1).drop_last() =~= self.cells@.subrange(0, i as int));
            }
            i = i + 1;
        }
        assert(self.cells@.subrange(0, i as int) =~= self.cells@);
        let ghost h2 = s@;
        let mut i: usize = 0;
        while i < self.nets.len()
            invariant
                i <= self.nets@.len(),
                s@ == h2 + nets_text(self.nets@.subrange(0, i as int)),
                forall|k: int| 0 <= k < self.ports@.len() ==> pairs_unique((#[trigger] self.ports@[k]).attrs.pairs()),
                forall|k: int| 0 <= k < self.cells@.len() ==> pairs_unique((#[trigger] self.cells@[k]).attrs.pairs()),
                forall|k: int| 0 <= k < i ==> pairs_unique((#[trigger] self.nets@[k]).attrs.pairs()),
            decreases self.nets@.len() - i,
        {
            push_net_text(&mut s, &self.nets[i]);
            proof {
                assert(self.nets@.subrange(0, i + 1).drop_last() =~= self.nets@.subrange(0, i as int));
            }
            i = i + 1;
        }
        assert(self.nets@.subrange(0, i as int) =~= self.nets@);
        let ghost h3 = s@;
        let mut i: usize = 0;
        while i < self.instances.len()
            invariant
                i <= self.instances@.len(),
                s@ == h3 + insts_text(self.instances@.subrange(0, i as int)),
                pairs_unique(self.attrs.pairs()),
                forall|k: int| 0 <= k < self.ports@.len() ==> pairs_unique((#[trigger] self.ports@[k]).attrs.pairs()),
                forall|k: int| 0 <= k < self.cells@.len() ==> pairs_unique((#[trigger] self.cells@[k]).attrs.pairs()),
                forall|k: int| 0 <= k < self.nets@.len() ==> pairs_unique((#[trigger] self.nets@[k]).attrs.pairs()),
                forall|k: int| 0 <= k < i ==> pairs_unique((#[trigger] self.instances@[k]).attrs.pairs()),
            decreases self.instances@.len() - i,
        {
            push_inst_text(&mut s, &self.instances[i]);
            proof {
                assert(self.instances@.subrange(0, i + 1).drop_last() =~= self.instances@.subrange(0, i as int));
            }
            i = i + 1;
        }
        assert(self.instances@.subrange(0, i as int) =~= self.instances@);
        assert(s@ =~= hnf_text(*self));
        proof {
            if crate::hnf::hnf_ready(*self) {
                crate::hnf::hnf_round_trip(*self);
            }
        }
        text::string_of(s.as_slice())
    }
}

/// Words `from..` of `w` joined by single spaces.
pub open spec fn join_words(w: Seq<Seq<char>>) -> Seq<char>
    decreases w.len(),
{
    if w.len() == 0 {
        Seq::empty()
    } else if w.len() == 1 {
        w[0]
    } else {
        join_words(w.drop_last()) + seq![' '] + w.last()
    }
}

pub fn join_from(w: &Vec<Vec<char>>, from: usize) -> (r: Vec<char>)
    requires
        from <= w@.len(),
    ensures
        r@ == join_words(w@.map_values(|x: Vec<char>| x@).subrange(from as int, w@.len() as int)),
{
    let ghost wv = w@.map_values(|x: Vec<char>| x@);
    let mut r: Vec<char> = Vec::new();
    if from >= w.len() {
        assert(wv.subrange(from as int, w@.len() as int) =~= Seq::<Seq<char>>::empty());
        return r;
    }
    let mut i = from;
    while i < w.len()
        invariant
            from <= i <= w@.len(),
            from < w@.len(),
            wv == w@.map_values(|x: Vec<char>| x@),
            r@ == join_words(wv.subrange(from as int, i as int)),
        decreases w@.len() - i,
    {
        if i > from {
            r.push(' ');
        }
        let ghost before = r@;
        text::push_chars(&mut r, &w[i]);
        proof {
            let pre = wv.subrange(from as int, i + 1);
            assert(pre.drop_last() =~= wv.subrange(from as int, i as int));
            if i == from {
                assert(wv.subrange(from as int, i as int) =~= Seq::<Seq<char>>::empty());
                assert(pre.len() == 1);
            }
        }
        i = i + 1;
        assert(r@ =~= join_words(wv.subrange(from as int, i as int)));
    }
    r
}

/// `s` with every leading repetition of `p` removed (`str::trim_start_matches`).
pub open spec fn strip_all(s: Seq<char>, p: Seq<char>) -> Seq<char>
    decreases s.len(),
{
    if p.len() > 0 && text::starts_with(s, p) {
        strip_all(s.subrange(p.len() as int, s.len() as int), p)
    } else {
        s
    }
}

fn strip_all_exec(v: &Vec<char>, p: &str) -> (r: Vec<char>)
    ensures
        r@ == strip_all(v@, p@),
    decreases v@.len(),
{
    let pc = text::chars_of(p);
    if pc.len() > 0 && text::starts_with_str(v, p) {
        let rest = text::slice(v, pc.len(), v.len());
        strip_all_exec(&rest, p)
    } else {
        text::slice(v, 0, v.len())
    }
}

/// Position of the first `c` in `v`, as `str::split_once` uses it.
fn split_at_char(v: &Vec<char>, c: char) -> (r: Option<(Vec<char>, Vec<char>)>)
    ensures
        match r {
            Some((a, b)) => {
                let k = text::find_char_from(v@, c, 0);
                k < v@.len() && a@ == v@.subrange(0, k) && b@ == v@.subrange(k + 1, v@.len() as int)
            },
            None => text::find_char_from(v@, c, 0) == v@.len(),
        },
{
    let k = text::find_char(v, c, 0);
    if k >= v.len() {
        None
    } else {
        Some((text::slice(v, 0, k), text::slice(v, k + 1, v.len())))
    }
}

fn str_err(s: &str) -> (r: Result<(), String>)
    ensures
        r matches Err(e) && e@ == s@,
{
    Err(text::owned(s))
}

fn chars_err(pfx: &str, w: &Vec<char>) -> (r: Result<(), String>)
    ensures
        r matches Err(e) && e@ == pfx@ + w@,
{
    let mut v = text::chars_of(pfx);
    text::push_chars(&mut v, w);
    Err(text::string_of(v.as_slice()))
}

/// Parses a Lut6 INIT field: trimmed, `0x`/`0X` prefixes removed, base 16,
/// 0 when unparseable.
pub open spec fn lut_init_of(rest: Seq<char>) -> u64 {
    match text::parse_hex_u64(strip_all(strip_all(text::trim(rest), "0x"@), "0X"@)) {
        Some(n) => n as u64,
        None => 0,
    }
}

fn lut_init_exec(rest: &Vec<char>) -> (r: u64)
    ensures
        r == lut_init_of(rest@),
{
    let t = text::trim_chars(rest);
    let a = strip_all_exec(&t, "0x");
    let b = strip_all_exec(&a, "0X");
    match text::parse_hex(&b) {
        Some(n) => n,
        None => 0,
    }
}

/// The model of a design being read, if the `design` line has been seen.
pub open spec fn opt_model(d: Option<Design>) -> Option<DesignModel> {
    match d {
        None => None,
        Some(x) => Some(design_model(x)),
    }
}

pub open spec fn opt_holds(d: Option<Design>) -> bool {
    match d {
        None => true,
        Some(x) => hnf_holds(x, design_model(x)),
    }
}

/// Applies one trimmed HNF line to the design read so far.
#[verifier::spinoff_prover]
#[verifier::rlimit(40)]
fn hnf_apply(d: &mut Option<Design>, line: &Vec<char>) -> (r: Result<(), String>)
    requires
        opt_holds(*old(d)),
    ensures
        match hnf_step(opt_model(*old(d)), line@) {
            Err(e) => r matches Err(x) && x@ == e,
            Ok(st) => r is Ok && opt_holds(*final(d)) && opt_model(*final(d)) == st,
        },
{
    if line.len() == 0 || line[0] == '#' || text::starts_with_str(line, "HNF") {
        return Ok(());
    }
    let w = text::split_words(line);
    let ghost wv = text::words(line@);
    assert(w@.map_values(|t: Vec<char>| t@) =~= wv);
    if w.len() == 0 {
        return str_err("empty");
    }
    let cmd = &w[0];
    if text::eq_str(cmd, "design") {
        let nd = if w.len() > 1 {
            let nm = text::string_of(w[1].as_slice());
            Design::new(nm.as_str())
        } else {
            Design::new("top")
        };
        proof {
            assert forall|q: Seq<char>| nd.attrs.lookup(q) is None by {}
            lemma_attr_map_new(nd.attrs);
            assert(design_model(nd) =~= empty_model(nd.name@));
        }
        *d = Some(nd);
        return Ok(());
    }
    if text::eq_str(cmd, "dattr") {
        if w.len() < 2 {
            return str_err("dattr k");
        }
        let v = join_from(&w, 2);
        return match d {
            Some(x) => {
                hnf_dattr(x, &w[1], &v);
                Ok(())
            },
            None => str_err("no design"),
        };
    }
    if text::eq_str(cmd, "port") {
        if w.len() < 2 {
            return str_err("port");
        }
        let dir = if w.len() > 2 && text::eq_str(&w[2], "out") {
            PortDir::Out
        } else if w.len() > 2 && text::eq_str(&w[2], "inout") {
            PortDir::Inout
        } else {
            PortDir::In
        };
        return match d {
            Some(x) => {
                hnf_port(x, &w[1], dir);
                Ok(())
            },
            None => str_err("no design"),
        };
    }
    if text::eq_str(cmd, "pattr") || text::eq_str(cmd, "cattr") || text::eq_str(cmd, "nattr") || text::eq_str(cmd, "iattr") {
        if w.len() < 2 {
            return Err(text::string_of(cmd.as_slice()));
        }
        if w.len() < 3 {
            let mut m = text::slice(cmd, 0, cmd.len());
            text::push_str(&mut m, " k");
            assert(m@ =~= cmd@ + " k"@);
            return Err(text::string_of(m.as_slice()));
        }
        let v = join_from(&w, 3);
        return match d {
            Some(x) => {
                if text::eq_str(cmd, "pattr") {
                    hnf_pattr(x, &w[1], &w[2], &v)
                } else if text::eq_str(cmd, "cattr") {
                    hnf_cattr(x, &w[1], &w[2], &v)
                } else if text::eq_str(cmd, "nattr") {
                    hnf_nattr(x, &w[1], &w[2], &v)
                } else {
                    hnf_iattr(x, &w[1], &w[2], &v)
                }
            },
            None => str_err("no design"),
        };
    }
    if text::eq_str(cmd, "cell") {
        if w.len() < 2 {
            return str_err("cell");
        }
        if w.len() < 3 {
            return str_err("kind");
        }
        let kind = &w[2];
        let rest = join_from(&w, 3);
        let ck = if text::eq_str(kind, "Lut6") {
            CellKind::Lut6 { init: lut_init_exec(&rest) }
        } else if text::eq_str(kind, "Hff") {
            CellKind::Hff
        } else if text::eq_str(kind, "IobOut") {
            CellKind::IobOut
        } else if text::eq_str(kind, "Mac27") {
            CellKind::Mac27
        } else if text::eq_str(kind, "Ila") {
            CellKind::Ila { net: text::string_of(rest.as_slice()) }
        } else if text::eq_str(kind, "Bram18") {
            CellKind::Bram18
        } else if text::eq_str(kind, "BlackBox") {
            CellKind::BlackBox { module: text::string_of(rest.as_slice()) }
        } else {
            return chars_err("unknown kind ", kind);
        };
        assert(hnf_kind(wv[2], rest_words(wv, 3)) == Some(kind_model(ck)));
        return match d {
            Some(x) => {
                hnf_cell(x, &w[1], ck);
                Ok(())
            },
            None => str_err("no design"),
        };
    }
    if text::eq_str(cmd, "net") {
        if w.len() < 2 {
            return str_err("net");
        }
        return match d {
            Some(x) => hnf_net(x, &w),
            None => str_err("no design"),
        };
    }
    if text::eq_str(cmd, "inst") {
        if w.len() < 2 {
            return str_err("inst");
        }
        if w.len() < 3 {
            return str_err("imod");
        }
        return match d {
            Some(x) => {
                hnf_inst(x, &w);
                Ok(())
            },
            None => str_err("no design"),
        };
    }
    chars_err("hnf cmd ", cmd)
}

impl Design {
    /// Parses HNF text (the format of [`Design::to_hnf`]).
    pub fn from_hnf(text_in: &str) -> (r: Result<Design, String>)
        ensures
            match hnf_result(text_in@) {
                Ok(m) => r matches Ok(d) && d.wf() && design_model(d) == m,
                Err(e) => r matches Err(x) && x@ == e,
            },
            r matches Ok(d) ==> d.wf(),
    {
        let all = text::chars_of(text_in);
        let lines = text::split_lines(&all);
        let ghost lv = text::lines(text_in@);
        let mut d: Option<Design> = None;
        let mut li: usize = 0;
        assert(lv.subrange(0, lv.len() as int) =~= lv);
        while li < lines.len()
            invariant
                li <= lines@.len(),
                lines@.len() == lv.len(),
                forall|k: int| 0 <= k < lines@.len() ==> (#[trigger] lines@[k])@ == lv[k],
                lv == text::lines(text_in@),
                opt_holds(d),
                hnf_fold(None, lv) == hnf_fold(opt_model(d), lv.subrange(li as int, lv.len() as int)),
            decreases lines@.len() - li,
        {
            let line = text::trim_chars(&lines[li]);
            proof {
                let rest = lv.subrange(li as int, lv.len() as int);
                assert(rest.drop_first() =~= lv.subrange(li + 1, lv.len() as int));
                assert(rest[0] == lv[li as int]);
            }
            match hnf_apply(&mut d, &line) {
                Ok(()) => {},
                Err(e) => {
                    return Err(e);
                },
            }
            li = li + 1;
        }
        assert(lv.subrange(li as int, lv.len() as int) =~= Seq::<Seq<char>>::empty());
        match d {
            Some(x) => Ok(x),
            None => Err(text::owned("no design")),
        }
    }
}

/// The pieces of `v` between occurrences of `c` (`str::split(c)`).
pub open spec fn split_char_from(s: Seq<char>, c: char, i: int) -> Seq<Seq<char>>
    decreases s.len() + 1 - i,
{
    if i < 0 || i > s.len() {
        Seq::empty()
    } else {
        let j = text::find_char_from(s, c, i);
        proof {
            text::lemma_find_char_ge(s, c, i);
        }
        if j >= s.len() {
            seq![s.subrange(i, s.len() as int)]
        } else {
            seq![s.subrange(i, j)] + split_char_from(s, c, j + 1)
        }
    }
}

pub fn split_on(v: &Vec<char>, c: char) -> (r: Vec<Vec<char>>)
    ensures
        r@.map_values(|x: Vec<char>| x@) == split_char_from(v@, c, 0),
{
    let mut r: Vec<Vec<char>> = Vec::new();
    let mut i: usize = 0;
    let ghost acc: Seq<Seq<char>> = Seq::empty();
    loop
        invariant
            i <= v@.len(),
            r@.map_values(|x: Vec<char>| x@) == acc,
            acc + split_char_from(v@, c, i as int) == split_char_from(v@, c, 0),
        decreases v@.len() - i,
    {
        let j = text::find_char(v, c, i);
        let piece = text::slice(v, i, j);
        proof {
            acc = acc.push(piece@);
        }
        r.push(piece);
        assert(r@.map_values(|x: Vec<char>| x@) =~= acc);
        if j >= v.len() {
            assert(acc =~= split_char_from(v@, c, 0));
            return r;
        }
        assert(acc + split_char_from(v@, c, j + 1) =~= split_char_from(v@, c, 0));
        i = j + 1;
    }
}

impl Design {
    /// Prefix all cell, net, endpoint-cell and instance names (hierarchy flatten).
    pub fn prefix(&mut self, pfx: &str)
        ensures
            final(self).wf(),
            final(self).name == old(self).name,
            final(self).ports == old(self).ports,
            final(self).attrs == old(self).attrs,
            final(self).cells@.len() == old(self).cells@.len(),
            forall|k: int| 0 <= k < old(self).cells@.len() ==> {
                &&& (#[trigger] final(self).cells@[k]).name@ == pfx@ + old(self).cells@[k].name@
                &&& final(self).cells@[k].kind == old(self).cells@[k].kind
                &&& final(self).cells@[k].attrs == old(self).cells@[k].attrs
            },
            final(self).nets@.len() == old(self).nets@.len(),
            forall|k: int| 0 <= k < old(self).nets@.len() ==> {
                &&& (#[trigger] final(self).nets@[k]).name@ == pfx@ + old(self).nets@[k].name@
                &&& final(self).nets@[k].attrs == old(self).nets@[k].attrs
                &&& final(self).nets@[k].endpoints@.len() == old(self).nets@[k].endpoints@.len()
                &&& forall|j: int| 0 <= j < old(self).nets@[k].endpoints@.len() ==>
                    (#[trigger] final(self).nets@[k].endpoints@[j]).cell@ == pfx@ + old(self).nets@[k].endpoints@[j].cell@
                    && final(self).nets@[k].endpoints@[j].pin == old(self).nets@[k].endpoints@[j].pin
            },
            final(self).instances@.len() == old(self).instances@.len(),
            forall|k: int| 0 <= k < old(self).instances@.len() ==> {
                &&& (#[trigger] final(self).instances@[k]).name@ == pfx@ + old(self).instances@[k].name@
                &&& final(self).instances@[k].module == old(self).instances@[k].module
                &&& final(self).instances@[k].conns == old(self).instances@[k].conns
            },
    {
        let mut i: usize = 0;
        while i < self.cells.len()
            invariant
                i <= self.cells@.len(),
                self.cells@.len() == old(self).cells@.len(),
                self.nets == old(self).nets,
                self.instances == old(self).instances,
                self.name == old(self).name,
                self.ports == old(self).ports,
                self.attrs == old(self).attrs,
                forall|k: int| 0 <= k < i ==> {
                    &&& (#[trigger] self.cells@[k]).name@ == pfx@ + old(self).cells@[k].name@
                    &&& self.cells@[k].kind == old(self).cells@[k].kind
                    &&& self.cells@[k].attrs == old(self).cells@[k].attrs
                },
                forall|k: int| i <= k < self.cells@.len() ==> self.cells@[k] == old(self).cells@[k],
            decreases self.cells@.len() - i,
        {
            let nm = prefixed(pfx, self.cells[i].name.as_str());
            self.cells[i].name = nm;
            i = i + 1;
        }
        let mut i: usize = 0;
        while i < self.nets.len()
            invariant
                i <= self.nets@.len(),
                self.nets@.len() == old(self).nets@.len(),
                self.instances == old(self).instances,
                self.name == old(self).name,
                self.ports == old(self).ports,
                self.attrs == old(self).attrs,
                self.cells@.len() == old(self).cells@.len(),
                forall|k: int| 0 <= k < old(self).cells@.len() ==> {
                    &&& (#[trigger] self.cells@[k]).name@ == pfx@ + old(self).cells@[k].name@
                    &&& self.cells@[k].kind == old(self).cells@[k].kind
                    &&& self.cells@[k].attrs == old(self).cells@[k].attrs
                },
                forall|k: int| 0 <= k < i ==> {
                    &&& (#[trigger] self.nets@[k]).name@ == pfx@ + old(self).nets@[k].name@
                    &&& self.nets@[k].attrs == old(self).nets@[k].attrs
                    &&& self.nets@[k].endpoints@.len() == old(self).nets@[k].endpoints@.len()
                    &&& forall|j: int| 0 <= j < old(self).nets@[k].endpoints@.len() ==>
                        (#[trigger] self.nets@[k].endpoints@[j]).cell@ == pfx@ + old(self).nets@[k].endpoints@[j].cell@
                        && self.nets@[k].endpoints@[j].pin == old(self).nets@[k].endpoints@[j].pin
                },
                forall|k: int| i <= k < self.nets@.len() ==> self.nets@[k] == old(self).nets@[k],
            decreases self.nets@.len() - i,
        {
            let nm = prefixed(pfx, self.nets[i].name.as_str());
            self.nets[i].name = nm;
            let mut j: usize = 0;
            while j < self.nets[i].endpoints.len()
                invariant
                    i < self.nets@.len(),
                    j <= self.nets@[i as int].endpoints@.len(),
                    self.nets@.len() == old(self).nets@.len(),
                    self.instances == old(self).instances,
                    self.name == old(self).name,
                    self.ports == old(self).ports,
                    self.attrs == old(self).attrs,
                    self.cells@.len() == old(self).cells@.len(),
                    forall|k: int| 0 <= k < old(self).cells@.len() ==> {
                        &&& (#[trigger] self.cells@[k]).name@ == pfx@ + old(self).cells@[k].name@
                        &&& self.cells@[k].kind == old(self).cells@[k].kind
                        &&& self.cells@[k].attrs == old(self).cells@[k].attrs
                    },
                    forall|k: int| 0 <= k < i ==> {
                        &&& (#[trigger] self.nets@[k]).name@ == pfx@ + old(self).nets@[k].name@
                        &&& self.nets@[k].attrs == old(self).nets@[k].attrs
                        &&& self.nets@[k].endpoints@.len() == old(self).nets@[k].endpoints@.len()
                        &&& forall|j: int| 0 <= j < old(self).nets@[k].endpoints@.len() ==>
                            (#[trigger] self.nets@[k].endpoints@[j]).cell@ == pfx@ + old(self).nets@[k].endpoints@[j].cell@
                            && self.nets@[k].endpoints@[j].pin == old(self).nets@[k].endpoints@[j].pin
                    },
                    self.nets@[i as int].name@ == pfx@ + old(self).nets@[i as int].name@,
                    self.nets@[i as int].attrs == old(self).nets@[i as int].attrs,
                    self.nets@[i as int].endpoints@.len() == old(self).nets@[i as int].endpoints@.len(),
                    forall|m: int| 0 <= m < j ==>
                        (#[trigger] self.nets@[i as int].endpoints@[m]).cell@ == pfx@ + old(self).nets@[i as int].endpoints@[m].cell@
                        && self.nets@[i as int].endpoints@[m].pin == old(self).nets@[i as int].endpoints@[m].pin,
                    forall|m: int| j <= m < self.nets@[i as int].endpoints@.len() ==>
                        self.nets@[i as int].endpoints@[m] == old(self).nets@[i as int].endpoints@[m],
                    forall|k: int| i < k < self.nets@.len() ==> self.nets@[k] == old(self).nets@[k],
                decreases self.nets@[i as int].endpoints@.len() - j,
            {
                let c = prefixed(pfx, self.nets[i].endpoints[j].cell.as_str());
                self.nets[i].endpoints[j].cell = c;
                j = j + 1;
            }
            i = i + 1;
        }
        let mut i: usize = 0;
        while i < self.instances.len()
            invariant
                i <= self.instances@.len(),
                self.instances@.len() == old(self).instances@.len(),
                self.name == old(self).name,
                self.ports == old(self).ports,
                self.attrs == old(self).attrs,
                self.cells@.len() == old(self).cells@.len(),
                forall|k: int| 0 <= k < old(self).cells@.len() ==> {
                    &&& (#[trigger] self.cells@[k]).name@ == pfx@ + old(self).cells@[k].name@
                    &&& self.cells@[k].kind == old(self).cells@[k].kind
                    &&& self.cells@[k].attrs == old(self).cells@[k].attrs
                },
                self.nets@.len() == old(self).nets@.len(),
                forall|k: int| 0 <= k < old(self).nets@.len() ==> {
                    &&& (#[trigger] self.nets@[k]).name@ == pfx@ + old(self).nets@[k].name@
                    &&& self.nets@[k].attrs == old(self).nets@[k].attrs
                    &&& self.nets@[k].endpoints@.len() == old(self).nets@[k].endpoints@.len()
                    &&& forall|j: int| 0 <= j < old(self).nets@[k].endpoints@.len() ==>
                        (#[trigger] self.nets@[k].endpoints@[j]).cell@ == pfx@ + old(self).nets@[k].endpoints@[j].cell@
                        && self.nets@[k].endpoints@[j].pin == old(self).nets@[k].endpoints@[j].pin
                },
                forall|k: int| 0 <= k < i ==> {
                    &&& (#[trigger] self.instances@[k]).name@ == pfx@ + old(self).instances@[k].name@
                    &&& self.instances@[k].module == old(self).instances@[k].module
                    &&& self.instances@[k].conns == old(self).instances@[k].conns
                },
                forall|k: int| i <= k < self.instances@.len() ==> self.instances@[k] == old(self).instances@[k],
            decreases self.instances@.len() - i,
        {
            let nm = prefixed(pfx, self.instances[i].name.as_str());
            self.instances[i].name = nm;
            i = i + 1;
        }
        self.rebuild_indexes();
    }
}

impl Design {
    /// Inline `child` as instance `inst`: child names get the prefix `inst_`,
    /// child nets named `inst_<port>` are renamed to the parent net that
    /// `conns` maps `<port>` to, and child nets merge into parent nets by name.
    pub fn instantiate(&mut self, inst: &str, child: Design, conns: &Vec<(String, String)>)
        requires
            old(self).wf(),
        ensures
            final(self).wf(),
            final(self).name == old(self).name,
            final(self).ports == old(self).ports,
            final(self).attrs == old(self).attrs,
            final(self).cells@.len() == old(self).cells@.len() + child.cells@.len(),
            forall|k: int| 0 <= k < old(self).cells@.len() ==> final(self).cells@[k] == old(self).cells@[k],
            forall|k: int| 0 <= k < child.cells@.len() ==> {
                &&& (#[trigger] final(self).cells@[old(self).cells@.len() + k]).name@ == inst@ + "_"@ + child.cells@[k].name@
                &&& final(self).cells@[old(self).cells@.len() + k].kind == child.cells@[k].kind
                &&& final(self).cells@[old(self).cells@.len() + k].attrs == child.cells@[k].attrs
            },
            forall|k: int| 0 <= k < old(self).nets@.len() ==> final(self).has_net((#[trigger] old(self).nets@[k]).name@),
            net_names_unique(old(self).nets@) ==> net_names_unique(final(self).nets@)
                && final(self).nets@.map_values(|q: Net| net_model(q)) == merge_all(
                old(self).nets@.map_values(|q: Net| net_model(q)),
                child.nets@.map_values(|n: Net| child_net_in(n, inst@ + "_"@, kv(conns@))),
            ),
            final(self).instances@.len() == old(self).instances@.len() + 1,
            forall|k: int| 0 <= k < old(self).instances@.len() ==> final(self).instances@[k] == old(self).instances@[k],
            final(self).instances@.last().name@ == inst@,
            final(self).instances@.last().module@ == child.name@,
            kv(final(self).instances@.last().conns@) == kv(conns@),
            final(self).instances@.last().attrs.pairs().len() == 0,
    {
        let ghost orig = child.nets@;
        let ghost ocells = child.cells@;
        let mut child = child;
        let mut pv = text::chars_of(inst);
        text::push_str(&mut pv, "_");
        let pfx = text::string_of(pv.as_slice());
        let ghost p = pfx@;
        let ghost cv = kv(conns@);
        let ghost target = orig.map_values(|n: Net| child_net_in(n, p, cv));
        let ghost cn = child.name@;
        child.prefix(pfx.as_str());
        let ghost pc = child.cells@;
        proof {
            assert forall|q: int| 0 <= q < orig.len() implies net_model(#[trigger] child.nets@[q]) == (NetModel {
                name: renamed(p + orig[q].name@, p, cv.subrange(0, 0)),
                ..target[q]
            }) by {
                assert(ep_views(child.nets@[q].endpoints@) =~= ep_views(orig[q].endpoints@).map_values(
                    |e: (Seq<char>, Seq<char>)| (p + e.0, e.1),
                ));
                assert(cv.subrange(0, 0).len() == 0);
            }
        }
        let mut ci: usize = 0;
        while ci < conns.len()
            invariant
                child.cells@ == pc,
                child.name@ == cn,
                ci <= conns@.len(),
                p == pfx@,
                cv == kv(conns@),
                target == orig.map_values(|n: Net| child_net_in(n, p, cv)),
                child.nets@.len() == orig.len(),
                forall|q: int| 0 <= q < orig.len() ==> net_model(#[trigger] child.nets@[q]) == (NetModel {
                    name: renamed(p + orig[q].name@, p, cv.subrange(0, ci as int)),
                    ..target[q]
                }),
            decreases conns@.len() - ci,
        {
            let cname = prefixed(pfx.as_str(), conns[ci].0.as_str());
            proof {
                assert forall|x: Seq<char>| #[trigger] renamed(x, p, cv.subrange(0, ci + 1)) == (if renamed(
                    x,
                    p,
                    cv.subrange(0, ci as int),
                ) == p + cv[ci as int].0 {
                    cv[ci as int].1
                } else {
                    renamed(x, p, cv.subrange(0, ci as int))
                }) by {
                    assert(cv.subrange(0, ci + 1).drop_last() =~= cv.subrange(0, ci as int));
                }
            }
            let mut k: usize = 0;
            while k < child.nets.len()
                invariant
                    child.cells@ == pc,
                    child.name@ == cn,
                    ci < conns@.len(),
                    p == pfx@,
                    cv == kv(conns@),
                    cname@ == p + cv[ci as int].0,
                    k <= child.nets@.len(),
                    child.nets@.len() == orig.len(),
                    forall|x: Seq<char>| #[trigger] renamed(x, p, cv.subrange(0, ci + 1)) == (if renamed(
                        x,
                        p,
                        cv.subrange(0, ci as int),
                    ) == p + cv[ci as int].0 {
                        cv[ci as int].1
                    } else {
                        renamed(x, p, cv.subrange(0, ci as int))
                    }),
                    forall|q: int| 0 <= q < k ==> net_model(#[trigger] child.nets@[q]) == (NetModel {
                        name: renamed(p + orig[q].name@, p, cv.subrange(0, ci + 1)),
                        ..target[q]
                    }),
                    forall|q: int| k <= q < orig.len() ==> net_model(#[trigger] child.nets@[q]) == (NetModel {
                        name: renamed(p + orig[q].name@, p, cv.subrange(0, ci as int)),
                        ..target[q]
                    }),
                decreases child.nets@.len() - k,
            {
                let ghost before = child.nets@;
                let ghost x = p + orig[k as int].name@;
                assert(net_model(child.nets@[k as int]).name == renamed(x, p, cv.subrange(0, ci as int)));
                if text::str_eq(child.nets[k].name.as_str(), cname.as_str()) {
                    child.nets[k].name = text::owned(conns[ci].1.as_str());
                }
                proof {
                    assert forall|q: int| 0 <= q < orig.len() && q != k implies child.nets@[q] == before[q] by {}
                    assert(net_model(child.nets@[k as int]) == (NetModel {
                        name: renamed(x, p, cv.subrange(0, ci + 1)),
                        ..target[k as int]
                    }));
                }
                k = k + 1;
            }
            ci = ci + 1;
        }
        proof {
            assert(cv.subrange(0, cv.len() as int) =~= cv);
        }
        let module = text::owned(child.name.as_str());
        let ghost old_cells = self.cells@;
        self.append_cells(&mut child.cells);
        assert forall|m: int| 0 <= m < old(self).nets@.len() implies self.has_net((#[trigger] old(self).nets@[m]).name@) by {
            assert(self.nets@[m] == old(self).nets@[m]);
        }
        let ghost m0 = old(self).nets@.map_values(|q: Net| net_model(q));
        let ghost uniq = net_names_unique(old(self).nets@);
        proof {
            assert(target.subrange(0, 0) =~= Seq::<NetModel>::empty());
            assert(self.nets@ == old(self).nets@);
            assert forall|q: int| 0 <= q < orig.len() implies net_model(#[trigger] child.nets@[q]) == target[q] by {}
        }
        let mut k: usize = 0;
        while k < child.nets.len()
            invariant
                self.wf(),
                self.name == old(self).name,
                self.ports == old(self).ports,
                self.attrs == old(self).attrs,
                self.instances == old(self).instances,
                self.cells@ == old_cells + pc,
                forall|m: int| 0 <= m < old(self).nets@.len() ==> self.has_net((#[trigger] old(self).nets@[m]).name@),
                k <= child.nets@.len(),
                child.nets@.len() == orig.len(),
                target.len() == orig.len(),
                m0 == old(self).nets@.map_values(|q: Net| net_model(q)),
                uniq == net_names_unique(old(self).nets@),
                forall|q: int| k <= q < orig.len() ==> net_model(#[trigger] child.nets@[q]) == target[q],
                uniq ==> net_names_unique(self.nets@) && self.nets@.map_values(|q: Net| net_model(q)) == merge_all(
                    m0,
                    target.subrange(0, k as int),
                ),
            decreases child.nets@.len() - k,
        {
            let mut n = mk_net("");
            let ghost cbefore = child.nets@;
            std::mem::swap(&mut n, &mut child.nets[k]);
            assert(n == cbefore[k as int]);
            assert forall|q: int| k < q < orig.len() implies child.nets@[q] == cbefore[q] by {}
            let ghost before = self.nets@;
            let ghost prev = self.nets@.map_values(|q: Net| net_model(q));
            self.merge_net(n);
            proof {
                assert forall|m: int| 0 <= m < old(self).nets@.len() implies self.has_net((#[trigger] old(self).nets@[m]).name@) by {
                    let nm = old(self).nets@[m].name@;
                    let w = choose|w: int| 0 <= w < before.len() && (#[trigger] before[w]).name@ == nm;
                    if before.len() < self.nets@.len() {
                        assert(self.nets@[w] == before[w]);
                    } else {
                        assert(self.nets@[w].name == before[w].name);
                    }
                }
                if uniq {
                    assert(target.subrange(0, k + 1).drop_last() =~= target.subrange(0, k as int));
                    assert(target.subrange(0, k + 1).last() == target[k as int]);
                }
            }
            k = k + 1;
        }
        proof {
            assert(target.subrange(0, orig.len() as int) =~= target);
        }
        let ghost nets_now = self.nets@;
        let a = Attrs::new();
        self.instances.push(Instance {
            name: text::owned(inst),
            module,
            conns: pairs_copy(conns),
            attrs: a,
        });
        assert(self.nets@ == nets_now);
        assert forall|m: int| 0 <= m < old(self).nets@.len() implies self.has_net((#[trigger] old(self).nets@[m]).name@) by {
            let nm = old(self).nets@[m].name@;
            assert(exists|w: int| 0 <= w < nets_now.len() && (#[trigger] nets_now[w]).name@ == nm);
        }
        proof {
            assert forall|q: int| 0 <= q < ocells.len() implies self.cells@[old(self).cells@.len() + q].attrs == ocells[q].attrs by {
                assert(self.cells@[old(self).cells@.len() + q] == pc[q]);
            }
        }
    }
}

/// Name of the last net holding endpoint `cell/pin`.
pub open spec fn pin_net(ns: Seq<Net>, cell: Seq<char>, pin: Seq<char>) -> Option<Seq<char>>
    decreases ns.len(),
{
    if ns.len() == 0 {
        None
    } else if ns.last().has_endpoint(cell, pin) {
        Some(ns.last().name@)
    } else {
        pin_net(ns.drop_last(), cell, pin)
    }
}

/// The last net holding endpoint `cell/pin`.
pub fn pin_net_exec<'a>(d: &'a Design, cell: &str, pin: &str) -> (r: Option<&'a str>)
    ensures
        match pin_net(d.nets@, cell@, pin@) {
            Some(n) => r matches Some(s) && s@ == n,
            None => r is None,
        },
{
    let mut k: usize = d.nets.len();
    assert(d.nets@.subrange(0, k as int) =~= d.nets@);
    while k > 0
        invariant
            k <= d.nets@.len(),
            pin_net(d.nets@, cell@, pin@) == pin_net(d.nets@.subrange(0, k as int), cell@, pin@),
        decreases k,
    {
        assert(d.nets@.subrange(0, k as int).drop_last() =~= d.nets@.subrange(0, k - 1));
        assert(d.nets@.subrange(0, k as int).last() == d.nets@[k - 1]);
        if net_has_endpoint(&d.nets[k - 1], cell, pin) {
            return Some(d.nets[k - 1].name.as_str());
        }
        k = k - 1;
    }
    None
}

/// Index of the last net holding endpoint `cell/pin`, or -1.
pub open spec fn last_net_idx(ns: Seq<Net>, cell: Seq<char>, pin: Seq<char>) -> int
    decreases ns.len(),
{
    if ns.len() == 0 {
        -1
    } else if ns.last().has_endpoint(cell, pin) {
        ns.len() - 1
    } else {
        last_net_idx(ns.drop_last(), cell, pin)
    }
}

pub proof fn lemma_last_net_idx(ns: Seq<Net>, cell: Seq<char>, pin: Seq<char>)
    ensures
        -1 <= last_net_idx(ns, cell, pin) < ns.len(),
        last_net_idx(ns, cell, pin) >= 0 ==> pin_net(ns, cell, pin) == Some(ns[last_net_idx(ns, cell, pin)].name@),
        last_net_idx(ns, cell, pin) < 0 ==> pin_net(ns, cell, pin) is None,
    decreases ns.len(),
{
    if ns.len() > 0 && !ns.last().has_endpoint(cell, pin) {
        lemma_last_net_idx(ns.drop_last(), cell, pin);
        let k = last_net_idx(ns.drop_last(), cell, pin);
        if k >= 0 {
            assert(ns.drop_last()[k] == ns[k]);
        }
    }
}

/// The index of pin `pin`: cell name → the last net holding `cell/pin`.
pub open spec fn pin_map_ok(m: Map<Seq<char>, usize>, ns: Seq<Net>, pin: Seq<char>) -> bool {
    forall|c: Seq<char>|
        #![trigger m.contains_key(c)]
        #![trigger last_net_idx(ns, c, pin)]
        (m.contains_key(c) <==> last_net_idx(ns, c, pin) >= 0) && (m.contains_key(c) ==> m[c] == last_net_idx(
            ns,
            c,
            pin,
        ))
}

impl Design {
    /// For pin `pin`, each cell name mapped to the last net holding `cell/pin`.
    pub fn pin_map(&self, pin: &str) -> (m: StringHashMap<usize>)
        ensures
            pin_map_ok(m@, self.nets@, pin@),
    {
        let mut m: StringHashMap<usize> = StringHashMap::new();
        let mut i: usize = 0;
        assert(self.nets@.subrange(0, 0) =~= Seq::<Net>::empty());
        while i < self.nets.len()
            invariant
                i <= self.nets@.len(),
                pin_map_ok(m@, self.nets@.subrange(0, i as int), pin@),
            decreases self.nets@.len() - i,
        {
            let ghost pre = self.nets@.subrange(0, i as int);
            let ghost m0 = m@;
            let n = &self.nets[i];
            let mut j: usize = 0;
            while j < n.endpoints.len()
                invariant
                    j <= n.endpoints@.len(),
                    n == self.nets@[i as int],
                    pin_map_ok(m0, pre, pin@),
                    forall|c: Seq<char>|
                        #![trigger m@.contains_key(c)]
                        (m@.contains_key(c) <==> (m0.contains_key(c) || exists|e: int|
                            0 <= e < j && (#[trigger] n.endpoints@[e]).is(c, pin@))) && (m@.contains_key(c) ==> m@[c]
                            == if (exists|e: int| 0 <= e < j && (#[trigger] n.endpoints@[e]).is(c, pin@)) {
                            i
                        } else {
                            m0[c]
                        }),
                decreases n.endpoints@.len() - j,
            {
                let e = &n.endpoints[j];
                if text::str_eq(e.pin.as_str(), pin) {
                    m.insert(text::owned(e.cell.as_str()), i);
                    proof {
                        assert(n.endpoints@[j as int].is(e.cell@, pin@));
                        assert forall|c: Seq<char>| #![trigger m@.contains_key(c)]
                            (m@.contains_key(c) <==> (m0.contains_key(c) || exists|e2: int|
                                0 <= e2 < j + 1 && (#[trigger] n.endpoints@[e2]).is(c, pin@))) && (m@.contains_key(c)
                                ==> m@[c] == if (exists|e2: int| 0 <= e2 < j + 1 && (#[trigger] n.endpoints@[e2]).is(c, pin@)) {
                                i
                            } else {
                                m0[c]
                            }) by {
                            if c == e.cell@ {
                                assert(n.endpoints@[j as int].is(c, pin@));
                            } else {
                                if exists|e2: int| 0 <= e2 < j + 1 && (#[trigger] n.endpoints@[e2]).is(c, pin@) {
                                    let e2 = choose|e2: int| 0 <= e2 < j + 1 && (#[trigger] n.endpoints@[e2]).is(c, pin@);
                                    assert(e2 < j);
                                }
                            }
                        }
                    }
                } else {
                    proof {
                        assert forall|c: Seq<char>| #![trigger m@.contains_key(c)]
                            (m@.contains_key(c) <==> (m0.contains_key(c) || exists|e2: int|
                                0 <= e2 < j + 1 && (#[trigger] n.endpoints@[e2]).is(c, pin@))) && (m@.contains_key(c)
                                ==> m@[c] == if (exists|e2: int| 0 <= e2 < j + 1 && (#[trigger] n.endpoints@[e2]).is(c, pin@)) {
                                i
                            } else {
                                m0[c]
                            }) by {
                            if exists|e2: int| 0 <= e2 < j + 1 && (#[trigger] n.endpoints@[e2]).is(c, pin@) {
                                let e2 = choose|e2: int| 0 <= e2 < j + 1 && (#[trigger] n.endpoints@[e2]).is(c, pin@);
                                assert(e2 < j);
                            }
                        }
                    }
                }
                j = j + 1;
            }
            proof {
                let post = self.nets@.subrange(0, i + 1);
                assert(post.drop_last() =~= pre);
                assert(post.last() == *n);
                assert forall|c: Seq<char>|
                    #![trigger m@.contains_key(c)]
                    #![trigger last_net_idx(post, c, pin@)]
                    (m@.contains_key(c) <==> last_net_idx(post, c, pin@) >= 0) && (m@.contains_key(c) ==> m@[c]
                        == last_net_idx(post, c, pin@)) by {
                    assert(m0.contains_key(c) <==> last_net_idx(pre, c, pin@) >= 0);
                    if n.has_endpoint(c, pin@) {
                        let e2 = choose|e2: int| 0 <= e2 < n.endpoints@.len() && (#[trigger] n.endpoints@[e2]).is(c, pin@);
                    }
                }
            }
            i = i + 1;
        }
        assert(self.nets@.subrange(0, self.nets@.len() as int) =~= self.nets@);
        m
    }
}

/// The net named by entry `c` of a pin map.
pub fn net_via<'a>(d: &'a Design, m: &StringHashMap<usize>, cell: &str, Ghost(pin): Ghost<Seq<char>>) -> (r: Option<&'a str>)
    requires
        pin_map_ok(m@, d.nets@, pin),
    ensures
        match pin_net(d.nets@, cell@, pin) {
            Some(n) => r matches Some(s) && s@ == n,
            None => r is None,
        },
{
    proof {
        lemma_last_net_idx(d.nets@, cell@, pin);
        assert(m@.contains_key(cell@) <==> last_net_idx(d.nets@, cell@, pin) >= 0);
    }
    match m.get(cell) {
        Some(ip) => {
            let i = *ip;
            Some(d.nets[i].name.as_str())
        },
        None => None,
    }
}

// ---------------------------------------------------------------------------
// Reading HNF, as plain values
// ---------------------------------------------------------------------------

/// Attributes by key.
pub open spec fn attr_map(a: Attrs) -> Map<Seq<char>, Seq<char>> {
    Map::new(|q: Seq<char>| a.lookup(q) is Some, |q: Seq<char>| a.lookup(q)->0)
}

#[verifier::ext_equal]
pub struct PortModel {
    pub name: Seq<char>,
    pub dir: PortDir,
    pub attrs: Map<Seq<char>, Seq<char>>,
}

pub enum KindModel {
    Lut6(u64),
    Hff,
    IobOut,
    Mac27,
    Ila(Seq<char>),
    Bram18,
    BlackBox(Seq<char>),
}

pub open spec fn kind_model(k: CellKind) -> KindModel {
    match k {
        CellKind::Lut6 { init } => KindModel::Lut6(init),
        CellKind::Hff => KindModel::Hff,
        CellKind::IobOut => KindModel::IobOut,
        CellKind::Mac27 => KindModel::Mac27,
        CellKind::Ila { net } => KindModel::Ila(net@),
        CellKind::Bram18 => KindModel::Bram18,
        CellKind::BlackBox { module } => KindModel::BlackBox(module@),
    }
}

#[verifier::ext_equal]
pub struct CellModel {
    pub name: Seq<char>,
    pub kind: KindModel,
    pub attrs: Map<Seq<char>, Seq<char>>,
}

#[verifier::ext_equal]
pub struct NetModel {
    pub name: Seq<char>,
    pub eps: Seq<(Seq<char>, Seq<char>)>,
    pub attrs: Map<Seq<char>, Seq<char>>,
}

#[verifier::ext_equal]
pub struct InstModel {
    pub name: Seq<char>,
    pub module: Seq<char>,
    pub conns: Seq<(Seq<char>, Seq<char>)>,
    pub attrs: Map<Seq<char>, Seq<char>>,
}

/// A netlist as plain values (attributes by key).
#[verifier::ext_equal]
pub struct DesignModel {
    pub name: Seq<char>,
    pub attrs: Map<Seq<char>, Seq<char>>,
    pub ports: Seq<PortModel>,
    pub cells: Seq<CellModel>,
    pub nets: Seq<NetModel>,
    pub insts: Seq<InstModel>,
}

pub open spec fn port_model(p: Port) -> PortModel {
    PortModel { name: p.name@, dir: p.dir, attrs: attr_map(p.attrs) }
}

pub open spec fn cell_model(c: Cell) -> CellModel {
    CellModel { name: c.name@, kind: kind_model(c.kind), attrs: attr_map(c.attrs) }
}

pub open spec fn net_model(n: Net) -> NetModel {
    NetModel { name: n.name@, eps: ep_views(n.endpoints@), attrs: attr_map(n.attrs) }
}

pub open spec fn inst_model(i: Instance) -> InstModel {
    InstModel { name: i.name@, module: i.module@, conns: kv(i.conns@), attrs: attr_map(i.attrs) }
}

pub open spec fn design_model(d: Design) -> DesignModel {
    DesignModel {
        name: d.name@,
        attrs: attr_map(d.attrs),
        ports: d.ports@.map_values(|p: Port| port_model(p)),
        cells: d.cells@.map_values(|c: Cell| cell_model(c)),
        nets: d.nets@.map_values(|n: Net| net_model(n)),
        insts: d.instances@.map_values(|i: Instance| inst_model(i)),
    }
}

pub open spec fn empty_model(name: Seq<char>) -> DesignModel {
    DesignModel {
        name,
        attrs: Map::empty(),
        ports: Seq::empty(),
        cells: Seq::empty(),
        nets: Seq::empty(),
        insts: Seq::empty(),
    }
}

/// Index of the first port named `n` (from `i` on), or the length.
pub open spec fn first_port(ps: Seq<PortModel>, n: Seq<char>, i: int) -> int
    decreases ps.len() - i,
{
    if i < 0 || i >= ps.len() {
        ps.len() as int
    } else if ps[i].name == n {
        i
    } else {
        first_port(ps, n, i + 1)
    }
}

/// Index of the last cell named `n` below `k`, or -1.
pub open spec fn last_cell(cs: Seq<CellModel>, n: Seq<char>, k: int) -> int
    decreases k,
{
    if k <= 0 || k > cs.len() {
        -1
    } else if cs[k - 1].name == n {
        k - 1
    } else {
        last_cell(cs, n, k - 1)
    }
}

/// Index of the last instance named `n` below `k`, or -1.
pub open spec fn last_inst(is: Seq<InstModel>, n: Seq<char>, k: int) -> int
    decreases k,
{
    if k <= 0 || k > is.len() {
        -1
    } else if is[k - 1].name == n {
        k - 1
    } else {
        last_inst(is, n, k - 1)
    }
}

/// Index of the first net named `n` (from `i` on), or the length.
pub open spec fn first_net(ns: Seq<NetModel>, n: Seq<char>, i: int) -> int
    decreases ns.len() - i,
{
    if i < 0 || i >= ns.len() {
        ns.len() as int
    } else if ns[i].name == n {
        i
    } else {
        first_net(ns, n, i + 1)
    }
}

/// The kind a `cell` line names, with the rest of the line as its argument.
pub open spec fn hnf_kind(kind: Seq<char>, rest: Seq<char>) -> Option<KindModel> {
    if kind == "Lut6"@ {
        Some(KindModel::Lut6(lut_init_of(rest)))
    } else if kind == "Hff"@ {
        Some(KindModel::Hff)
    } else if kind == "IobOut"@ {
        Some(KindModel::IobOut)
    } else if kind == "Mac27"@ {
        Some(KindModel::Mac27)
    } else if kind == "Ila"@ {
        Some(KindModel::Ila(rest))
    } else if kind == "Bram18"@ {
        Some(KindModel::Bram18)
    } else if kind == "BlackBox"@ {
        Some(KindModel::BlackBox(rest))
    } else {
        None
    }
}

/// `(a, b)` for each comma-separated `a:b` piece (pieces without `:` skipped).
pub open spec fn hnf_conns(ps: Seq<Seq<char>>) -> Seq<(Seq<char>, Seq<char>)>
    decreases ps.len(),
{
    if ps.len() == 0 {
        Seq::empty()
    } else {
        let p = ps.last();
        let k = text::find_char_from(p, ':', 0);
        hnf_conns(ps.drop_last()) + if k < p.len() {
            seq![(p.subrange(0, k), p.subrange(k + 1, p.len() as int))]
        } else {
            Seq::empty()
        }
    }
}

/// `net` endpoint `cell/pin` added to net `n` (created when missing).
pub open spec fn connect_model(ns: Seq<NetModel>, n: Seq<char>, cell: Seq<char>, pin: Seq<char>) -> Seq<NetModel> {
    let i = first_net(ns, n, 0);
    if i < ns.len() {
        ns.update(i, NetModel { eps: ns[i].eps.push((cell, pin)), ..ns[i] })
    } else {
        ns.push(NetModel { name: n, eps: seq![(cell, pin)], attrs: Map::empty() })
    }
}

/// `n` merged into `ns` by name: its endpoints join the first net of that
/// name, otherwise it is appended.
pub open spec fn merge_model(ns: Seq<NetModel>, n: NetModel) -> Seq<NetModel> {
    let i = first_net(ns, n.name, 0);
    if i < ns.len() {
        ns.update(i, NetModel { eps: ns[i].eps + n.eps, ..ns[i] })
    } else {
        ns.push(n)
    }
}

/// The nets `xs` merged into `ns` one after the other.
pub open spec fn merge_all(ns: Seq<NetModel>, xs: Seq<NetModel>) -> Seq<NetModel>
    decreases xs.len(),
{
    if xs.len() == 0 {
        ns
    } else {
        merge_model(merge_all(ns, xs.drop_last()), xs.last())
    }
}

/// A child net name after the port renames of `c`, in order: a name equal
/// to `pfx` + port becomes the parent net that `c` maps the port to.
pub open spec fn renamed(name: Seq<char>, pfx: Seq<char>, c: Seq<(Seq<char>, Seq<char>)>) -> Seq<char>
    decreases c.len(),
{
    if c.len() == 0 {
        name
    } else {
        let n0 = renamed(name, pfx, c.drop_last());
        if n0 == pfx + c.last().0 { c.last().1 } else { n0 }
    }
}

/// How child net `n` enters the parent: name, endpoint cells and the net
/// itself prefixed with `pfx`, then renamed through `c`.
pub open spec fn child_net_in(n: Net, pfx: Seq<char>, c: Seq<(Seq<char>, Seq<char>)>) -> NetModel {
    NetModel {
        name: renamed(pfx + n.name@, pfx, c),
        eps: ep_views(n.endpoints@).map_values(|e: (Seq<char>, Seq<char>)| (pfx + e.0, e.1)),
        attrs: attr_map(n.attrs),
    }
}

/// The endpoint words of a `net` line from word `k` on, each `cell/pin`.
pub open spec fn net_eps_fold(ns: Seq<NetModel>, n: Seq<char>, w: Seq<Seq<char>>, k: int) -> Option<Seq<NetModel>>
    decreases w.len() - k,
{
    if k < 0 || k >= w.len() {
        Some(ns)
    } else {
        let t = w[k];
        let j = text::find_char_from(t, '/', 0);
        if j >= t.len() {
            None
        } else {
            net_eps_fold(connect_model(ns, n, t.subrange(0, j), t.subrange(j + 1, t.len() as int)), n, w, k + 1)
        }
    }
}

/// The words of `w` from index `k` on, joined by single spaces.
pub open spec fn rest_words(w: Seq<Seq<char>>, k: int) -> Seq<char> {
    join_words(w.subrange(k, w.len() as int))
}

/// The effect of one trimmed HNF line on the design read so far (`None`
/// before the `design` line).
pub open spec fn hnf_step(st: Option<DesignModel>, line: Seq<char>) -> Result<Option<DesignModel>, Seq<char>> {
    if line.len() == 0 || line[0] == '#' || text::starts_with(line, "HNF"@) {
        Ok(st)
    } else {
        let w = text::words(line);
        if w.len() == 0 {
            Err("empty"@)
        } else {
            let cmd = w[0];
            if cmd == "design"@ {
                Ok(Some(empty_model(if w.len() > 1 { w[1] } else { "top"@ })))
            } else if cmd == "dattr"@ {
                if w.len() < 2 {
                    Err("dattr k"@)
                } else {
                    match st {
                        None => Err("no design"@),
                        Some(m) => Ok(Some(DesignModel { attrs: m.attrs.insert(w[1], rest_words(w, 2)), ..m })),
                    }
                }
            } else if cmd == "port"@ {
                if w.len() < 2 {
                    Err("port"@)
                } else {
                    let dir = if w.len() > 2 && w[2] == "out"@ {
                        PortDir::Out
                    } else if w.len() > 2 && w[2] == "inout"@ {
                        PortDir::Inout
                    } else {
                        PortDir::In
                    };
                    match st {
                        None => Err("no design"@),
                        Some(m) => Ok(
                            Some(DesignModel { ports: m.ports.push(PortModel { name: w[1], dir, attrs: Map::empty() }), ..m }),
                        ),
                    }
                }
            } else if cmd == "pattr"@ || cmd == "cattr"@ || cmd == "nattr"@ || cmd == "iattr"@ {
                if w.len() < 2 {
                    Err(cmd)
                } else if w.len() < 3 {
                    Err(cmd + " k"@)
                } else {
                    let n = w[1];
                    let k = w[2];
                    let v = rest_words(w, 3);
                    match st {
                        None => Err("no design"@),
                        Some(m) => if cmd == "pattr"@ {
                            let i = first_port(m.ports, n, 0);
                            if i < m.ports.len() {
                                Ok(Some(DesignModel {
                                    ports: m.ports.update(i, PortModel { attrs: m.ports[i].attrs.insert(k, v), ..m.ports[i] }),
                                    ..m
                                }))
                            } else {
                                Err("no port "@ + n)
                            }
                        } else if cmd == "cattr"@ {
                            let i = last_cell(m.cells, n, m.cells.len() as int);
                            if i >= 0 {
                                Ok(Some(DesignModel {
                                    cells: m.cells.update(i, CellModel { attrs: m.cells[i].attrs.insert(k, v), ..m.cells[i] }),
                                    ..m
                                }))
                            } else {
                                Err("no cell "@ + n)
                            }
                        } else if cmd == "nattr"@ {
                            let i = first_net(m.nets, n, 0);
                            if i < m.nets.len() {
                                Ok(Some(DesignModel {
                                    nets: m.nets.update(i, NetModel { attrs: m.nets[i].attrs.insert(k, v), ..m.nets[i] }),
                                    ..m
                                }))
                            } else {
                                Err("no net "@ + n)
                            }
                        } else {
                            let i = last_inst(m.insts, n, m.insts.len() as int);
                            if i >= 0 {
                                Ok(Some(DesignModel {
                                    insts: m.insts.update(i, InstModel { attrs: m.insts[i].attrs.insert(k, v), ..m.insts[i] }),
                                    ..m
                                }))
                            } else {
                                Err("no instance "@ + n)
                            }
                        },
                    }
                }
            } else if cmd == "cell"@ {
                if w.len() < 2 {
                    Err("cell"@)
                } else if w.len() < 3 {
                    Err("kind"@)
                } else {
                    match hnf_kind(w[2], rest_words(w, 3)) {
                        None => Err("unknown kind "@ + w[2]),
                        Some(kind) => match st {
                            None => Err("no design"@),
                            Some(m) => Ok(
                                Some(DesignModel { cells: m.cells.push(CellModel { name: w[1], kind, attrs: Map::empty() }), ..m }),
                            ),
                        },
                    }
                }
            } else if cmd == "net"@ {
                if w.len() < 2 {
                    Err("net"@)
                } else {
                    match st {
                        None => Err("no design"@),
                        Some(m) => match net_eps_fold(m.nets, w[1], w, 2) {
                            None => Err("ep"@),
                            Some(ns) => Ok(Some(DesignModel {
                                nets: if first_net(ns, w[1], 0) < ns.len() {
                                    ns
                                } else {
                                    ns.push(NetModel { name: w[1], eps: Seq::empty(), attrs: Map::empty() })
                                },
                                ..m
                            })),
                        },
                    }
                }
            } else if cmd == "inst"@ {
                if w.len() < 2 {
                    Err("inst"@)
                } else if w.len() < 3 {
                    Err("imod"@)
                } else {
                    let conns = if w.len() > 3 { hnf_conns(split_char_from(w[3], ',', 0)) } else { Seq::empty() };
                    match st {
                        None => Err("no design"@),
                        Some(m) => Ok(Some(DesignModel {
                            insts: m.insts.push(InstModel { name: w[1], module: w[2], conns, attrs: Map::empty() }),
                            ..m
                        })),
                    }
                }
            } else {
                Err("hnf cmd "@ + cmd)
            }
        }
    }
}

/// Applies the (trimmed) lines `ls` in order, stopping at the first error.
pub open spec fn hnf_fold(st: Option<DesignModel>, ls: Seq<Seq<char>>) -> Result<Option<DesignModel>, Seq<char>>
    decreases ls.len(),
{
    if ls.len() == 0 {
        Ok(st)
    } else {
        match hnf_step(st, text::trim(ls[0])) {
            Err(e) => Err(e),
            Ok(st2) => hnf_fold(st2, ls.drop_first()),
        }
    }
}

/// The design an HNF text describes, or the error reading it.
pub open spec fn hnf_result(t: Seq<char>) -> Result<DesignModel, Seq<char>> {
    match hnf_fold(None, text::lines(t)) {
        Err(e) => Err(e),
        Ok(None) => Err("no design"@),
        Ok(Some(m)) => Ok(m),
    }
}

pub open spec fn net_names_unique(ns: Seq<Net>) -> bool {
    forall|i: int, j: int| 0 <= i < j < ns.len() ==> ns[i].name@ != ns[j].name@
}

/// A design being read and the model it stands for.
pub open spec fn hnf_holds(d: Design, m: DesignModel) -> bool {
    d.wf() && design_model(d) == m && net_names_unique(d.nets@)
}

proof fn lemma_attr_map_set(a: Attrs, b: Attrs, k: Seq<char>, v: Seq<char>)
    requires
        b.lookup(k) == Some(v),
        forall|q: Seq<char>| q != k ==> b.lookup(q) == a.lookup(q),
    ensures
        attr_map(b) == attr_map(a).insert(k, v),
{
    assert(attr_map(b) =~= attr_map(a).insert(k, v));
}

proof fn lemma_attr_map_new(a: Attrs)
    requires
        forall|q: Seq<char>| a.lookup(q) is None,
    ensures
        attr_map(a) == Map::<Seq<char>, Seq<char>>::empty(),
{
    assert(attr_map(a) =~= Map::<Seq<char>, Seq<char>>::empty());
}

proof fn lemma_first_net_unique(ns: Seq<Net>, n: Seq<char>, i: int)
    requires
        net_names_unique(ns),
        0 <= i < ns.len(),
        ns[i].name@ == n,
    ensures
        first_net(ns.map_values(|x: Net| net_model(x)), n, 0) == i,
{
    let ms = ns.map_values(|x: Net| net_model(x));
    assert forall|j: int| 0 <= j <= i implies first_net(ms, n, j) == i by {
        lemma_first_net_from(ns, n, i, j);
    }
}

proof fn lemma_first_net_from(ns: Seq<Net>, n: Seq<char>, i: int, j: int)
    requires
        net_names_unique(ns),
        0 <= j <= i < ns.len(),
        ns[i].name@ == n,
    ensures
        first_net(ns.map_values(|x: Net| net_model(x)), n, j) == i,
    decreases i - j,
{
    if j < i {
        assert(ns[j].name@ != ns[i].name@);
        lemma_first_net_from(ns, n, i, j + 1);
    }
}

proof fn lemma_first_net_none(ns: Seq<Net>, n: Seq<char>, j: int)
    requires
        0 <= j <= ns.len(),
        forall|q: int| j <= q < ns.len() ==> (#[trigger] ns[q]).name@ != n,
    ensures
        first_net(ns.map_values(|x: Net| net_model(x)), n, j) == ns.len(),
    decreases ns.len() - j,
{
    if j < ns.len() {
        lemma_first_net_none(ns, n, j + 1);
    }
}

proof fn lemma_first_port(ps: Seq<Port>, n: Seq<char>, i: int, j: int)
    requires
        0 <= j <= i < ps.len(),
        ps[i].name@ == n,
        forall|m: int| 0 <= m < i ==> ps[m].name@ != n,
    ensures
        first_port(ps.map_values(|x: Port| port_model(x)), n, j) == i,
    decreases i - j,
{
    if j < i {
        lemma_first_port(ps, n, i, j + 1);
    }
}

proof fn lemma_first_port_none(ps: Seq<Port>, n: Seq<char>, j: int)
    requires
        0 <= j <= ps.len(),
        forall|q: int| j <= q < ps.len() ==> (#[trigger] ps[q]).name@ != n,
    ensures
        first_port(ps.map_values(|x: Port| port_model(x)), n, j) == ps.len(),
    decreases ps.len() - j,
{
    if j < ps.len() {
        lemma_first_port_none(ps, n, j + 1);
    }
}

impl Design {
    /// Set attribute `k` on the last cell named `cell` (the one a name lookup finds).
    #[verifier::spinoff_prover]
    pub fn set_last_cell_attr(&mut self, cell: &str, k: &str, v: &str) -> (r: Result<(), String>)
        requires
            old(self).wf(),
        ensures
            final(self).wf(),
            final(self).name == old(self).name,
            final(self).ports == old(self).ports,
            final(self).nets == old(self).nets,
            final(self).instances == old(self).instances,
            final(self).attrs == old(self).attrs,
            ({
                let cm = old(self).cells@.map_values(|c: Cell| cell_model(c));
                let i = last_cell(cm, cell@, cm.len() as int);
                if i >= 0 {
                    &&& r is Ok
                    &&& final(self).cells@.map_values(|c: Cell| cell_model(c)) == cm.update(
                        i,
                        CellModel { attrs: cm[i].attrs.insert(k@, v@), ..cm[i] },
                    )
                } else {
                    &&& r matches Err(e) && e@ == "no cell"@ + seq![' '] + cell@
                    &&& final(self).cells == old(self).cells
                }
            }),
    {
        let ghost cm = self.cells@.map_values(|c: Cell| cell_model(c));
        let mut k2: usize = self.cells.len();
        while k2 > 0
            invariant
                k2 <= self.cells@.len(),
                *self == *old(self),
                old(self).wf(),
                cm == self.cells@.map_values(|c: Cell| cell_model(c)),
                last_cell(cm, cell@, cm.len() as int) == last_cell(cm, cell@, k2 as int),
            decreases k2,
        {
            if text::str_eq(self.cells[k2 - 1].name.as_str(), cell) {
                let i = k2 - 1;
                let ghost old_cells = self.cells@;
                let ghost a0 = self.cells@[i as int].attrs;
                self.cells[i].attrs.set(k, v);
                proof {
                    lemma_attr_map_set(a0, self.cells@[i as int].attrs, k@, v@);
                    assert(self.cells@ == old_cells.update(i as int, self.cells@[i as int]));
                    assert forall|a: int| 0 <= a < self.cells@.len() implies self.index.cell_ix@.contains_key((#[trigger] self.cells@[a]).name@) by {
                        assert(self.cells@[a].name == old_cells[a].name);
                        assert(self.index.cell_ix@.contains_key(old_cells[a].name@));
                    }
                    assert(self.cells@.map_values(|c: Cell| cell_model(c)) =~= cm.update(
                        i as int,
                        CellModel { attrs: cm[i as int].attrs.insert(k@, v@), ..cm[i as int] },
                    ));
                }
                return Ok(());
            }
            k2 = k2 - 1;
        }
        Err(missing("no cell", cell))
    }
}

/// The model with `f` applied to its attributes, ports, cells or nets.
pub open spec fn with_nets(m: DesignModel, ns: Seq<NetModel>) -> DesignModel {
    DesignModel { nets: ns, ..m }
}

fn hnf_dattr(x: &mut Design, k: &Vec<char>, v: &Vec<char>)
    requires
        hnf_holds(*old(x), design_model(*old(x))),
    ensures
        hnf_holds(*final(x), design_model(*final(x))),
        design_model(*final(x)) == (DesignModel {
            attrs: design_model(*old(x)).attrs.insert(k@, v@),
            ..design_model(*old(x))
        }),
{
    let ghost a0 = x.attrs;
    let ks = text::string_of(k.as_slice());
    let vs = text::string_of(v.as_slice());
    x.attrs.set(ks.as_str(), vs.as_str());
    proof {
        lemma_attr_map_set(a0, x.attrs, k@, v@);
    }
    assert(design_model(*x) =~= DesignModel { attrs: design_model(*old(x)).attrs.insert(k@, v@), ..design_model(*old(x)) });
}

fn hnf_port(x: &mut Design, n: &Vec<char>, dir: PortDir)
    requires
        hnf_holds(*old(x), design_model(*old(x))),
    ensures
        hnf_holds(*final(x), design_model(*final(x))),
        design_model(*final(x)) == (DesignModel {
            ports: design_model(*old(x)).ports.push(PortModel { name: n@, dir, attrs: Map::empty() }),
            ..design_model(*old(x))
        }),
{
    let ns = text::string_of(n.as_slice());
    x.add_port(ns.as_str(), dir);
}

fn hnf_cell(x: &mut Design, n: &Vec<char>, kind: CellKind)
    requires
        hnf_holds(*old(x), design_model(*old(x))),
    ensures
        hnf_holds(*final(x), design_model(*final(x))),
        design_model(*final(x)) == (DesignModel {
            cells: design_model(*old(x)).cells.push(CellModel { name: n@, kind: kind_model(kind), attrs: Map::empty() }),
            ..design_model(*old(x))
        }),
{
    let ns = text::string_of(n.as_slice());
    x.add_cell(ns.as_str(), kind);
}

fn hnf_pattr(x: &mut Design, n: &Vec<char>, k: &Vec<char>, v: &Vec<char>) -> (r: Result<(), String>)
    requires
        hnf_holds(*old(x), design_model(*old(x))),
    ensures
        ({
            let m = design_model(*old(x));
            let i = first_port(m.ports, n@, 0);
            if i < m.ports.len() {
                &&& r is Ok
                &&& hnf_holds(*final(x), design_model(*final(x)))
                &&& design_model(*final(x)) == (DesignModel {
                    ports: m.ports.update(i, PortModel { attrs: m.ports[i].attrs.insert(k@, v@), ..m.ports[i] }),
                    ..m
                })
            } else {
                r matches Err(e) && e@ == "no port "@ + n@
            }
        }),
{
    let ns = text::string_of(n.as_slice());
    let ks = text::string_of(k.as_slice());
    let vs = text::string_of(v.as_slice());
    x.set_port_attr(ns.as_str(), ks.as_str(), vs.as_str())
}

fn hnf_cattr(x: &mut Design, n: &Vec<char>, k: &Vec<char>, v: &Vec<char>) -> (r: Result<(), String>)
    requires
        hnf_holds(*old(x), design_model(*old(x))),
    ensures
        ({
            let m = design_model(*old(x));
            let i = last_cell(m.cells, n@, m.cells.len() as int);
            if i >= 0 {
                &&& r is Ok
                &&& hnf_holds(*final(x), design_model(*final(x)))
                &&& design_model(*final(x)) == (DesignModel {
                    cells: m.cells.update(i, CellModel { attrs: m.cells[i].attrs.insert(k@, v@), ..m.cells[i] }),
                    ..m
                })
            } else {
                r matches Err(e) && e@ == "no cell "@ + n@
            }
        }),
{
    let ghost m = design_model(*x);
    let ns = text::string_of(n.as_slice());
    let ks = text::string_of(k.as_slice());
    let vs = text::string_of(v.as_slice());
    let r = x.set_last_cell_attr(ns.as_str(), ks.as_str(), vs.as_str());
    proof {
        reveal_strlit("no cell");
        reveal_strlit("no cell ");
        assert("no cell"@ + seq![' '] =~= "no cell "@);
        let i = last_cell(m.cells, n@, m.cells.len() as int);
        if i >= 0 {
            assert(design_model(*x) =~= DesignModel {
                cells: m.cells.update(i, CellModel { attrs: m.cells[i].attrs.insert(k@, v@), ..m.cells[i] }),
                ..m
            });
        }
    }
    r
}

fn hnf_nattr(x: &mut Design, n: &Vec<char>, k: &Vec<char>, v: &Vec<char>) -> (r: Result<(), String>)
    requires
        hnf_holds(*old(x), design_model(*old(x))),
    ensures
        ({
            let m = design_model(*old(x));
            let i = first_net(m.nets, n@, 0);
            if i < m.nets.len() {
                &&& r is Ok
                &&& hnf_holds(*final(x), design_model(*final(x)))
                &&& design_model(*final(x)) == (DesignModel {
                    nets: m.nets.update(i, NetModel { attrs: m.nets[i].attrs.insert(k@, v@), ..m.nets[i] }),
                    ..m
                })
            } else {
                r matches Err(e) && e@ == "no net "@ + n@
            }
        }),
{
    let ns = text::string_of(n.as_slice());
    let ks = text::string_of(k.as_slice());
    let vs = text::string_of(v.as_slice());
    x.set_net_attr(ns.as_str(), ks.as_str(), vs.as_str())
}

fn hnf_connect(x: &mut Design, n: &Vec<char>, c: &Vec<char>, p: &Vec<char>)
    requires
        hnf_holds(*old(x), design_model(*old(x))),
    ensures
        hnf_holds(*final(x), design_model(*final(x))),
        design_model(*final(x)) == with_nets(
            design_model(*old(x)),
            connect_model(design_model(*old(x)).nets, n@, c@, p@),
        ),
{
    let nn = text::string_of(n.as_slice());
    let cs = text::string_of(c.as_slice());
    let ps = text::string_of(p.as_slice());
    x.connect(nn.as_str(), cs.as_str(), ps.as_str());
}

fn hnf_net(x: &mut Design, w: &Vec<Vec<char>>) -> (r: Result<(), String>)
    requires
        hnf_holds(*old(x), design_model(*old(x))),
        w@.len() >= 2,
    ensures
        ({
            let m = design_model(*old(x));
            let wv = w@.map_values(|t: Vec<char>| t@);
            match net_eps_fold(m.nets, wv[1], wv, 2) {
                None => r matches Err(e) && e@ == "ep"@,
                Some(ns) => {
                    &&& r is Ok
                    &&& hnf_holds(*final(x), design_model(*final(x)))
                    &&& design_model(*final(x)) == with_nets(
                        m,
                        if first_net(ns, wv[1], 0) < ns.len() {
                            ns
                        } else {
                            ns.push(NetModel { name: wv[1], eps: Seq::empty(), attrs: Map::empty() })
                        },
                    )
                },
            }
        }),
{
    let ghost m = design_model(*x);
    let ghost wv = w@.map_values(|t: Vec<char>| t@);
    let n = &w[1];
    let mut k: usize = 2;
    while k < w.len()
        invariant
            2 <= k <= w@.len(),
            wv == w@.map_values(|t: Vec<char>| t@),
            n@ == wv[1],
            m == design_model(*old(x)),
            hnf_holds(*x, design_model(*x)),
            design_model(*x) == with_nets(m, design_model(*x).nets),
            net_eps_fold(m.nets, wv[1], wv, 2) == net_eps_fold(design_model(*x).nets, wv[1], wv, k as int),
        decreases w@.len() - k,
    {
        match split_at_char(&w[k], '/') {
            Some((c, p)) => {
                hnf_connect(x, n, &c, &p);
            },
            None => {
                assert(w@[k as int]@ == wv[k as int]);
                return Err(text::owned("ep"));
            },
        }
        k = k + 1;
    }
    let nn = text::string_of(n.as_slice());
    let ghost ns = design_model(*x).nets;
    let ghost nv = x.nets@;
    proof {
        if x.has_net(n@) {
            let i = choose|i: int| 0 <= i < nv.len() && (#[trigger] nv[i]).name@ == n@;
            lemma_first_net_unique(nv, n@, i);
        } else {
            assert forall|q: int| 0 <= q < nv.len() implies (#[trigger] nv[q]).name@ != n@ by {}
            lemma_first_net_none(nv, n@, 0);
        }
    }
    if x.net(nn.as_str()).is_none() {
        let a = Attrs::new();
        let net = Net { name: nn, endpoints: Vec::new(), attrs: a };
        let ghost netg = net;
        x.merge_net(net);
        proof {
            lemma_attr_map_new(netg.attrs);
            assert(x.nets@ == nv.push(netg));
            assert(ep_views(netg.endpoints@) =~= Seq::<(Seq<char>, Seq<char>)>::empty());
            assert(net_model(netg) == NetModel { name: wv[1], eps: Seq::empty(), attrs: Map::empty() });
            assert(x.nets@.map_values(|q: Net| net_model(q)) =~= ns.push(
                NetModel { name: wv[1], eps: Seq::empty(), attrs: Map::empty() },
            ));
            assert forall|a: int, b: int| 0 <= a < b < x.nets@.len() implies x.nets@[a].name@ != x.nets@[b].name@ by {
                if b == nv.len() {
                    assert(nv[a].name@ != n@);
                }
            }
        }
    }
    assert(design_model(*x) =~= with_nets(
        m,
        if first_net(ns, wv[1], 0) < ns.len() {
            ns
        } else {
            ns.push(NetModel { name: wv[1], eps: Seq::empty(), attrs: Map::empty() })
        },
    ));
    Ok(())
}

fn hnf_iattr(x: &mut Design, n: &Vec<char>, k: &Vec<char>, v: &Vec<char>) -> (r: Result<(), String>)
    requires
        hnf_holds(*old(x), design_model(*old(x))),
    ensures
        ({
            let m = design_model(*old(x));
            let i = last_inst(m.insts, n@, m.insts.len() as int);
            if i >= 0 {
                &&& r is Ok
                &&& hnf_holds(*final(x), design_model(*final(x)))
                &&& design_model(*final(x)) == (DesignModel {
                    insts: m.insts.update(i, InstModel { attrs: m.insts[i].attrs.insert(k@, v@), ..m.insts[i] }),
                    ..m
                })
            } else {
                r matches Err(e) && e@ == "no instance "@ + n@
            }
        }),
{
    let ghost m = design_model(*x);
    let ks = text::string_of(k.as_slice());
    let vs = text::string_of(v.as_slice());
    assert(ks@ == k@ && vs@ == v@);
    let kr = ks.as_str();
    let vr = vs.as_str();
    assert(kr@ == k@ && vr@ == v@);
    let mut j: usize = x.instances.len();
    while j > 0
        invariant
            j <= x.instances@.len(),
            *x == *old(x),
            m == design_model(*x),
            kr@ == k@,
            vr@ == v@,
            hnf_holds(*old(x), design_model(*old(x))),
            last_inst(m.insts, n@, m.insts.len() as int) == last_inst(m.insts, n@, j as int),
        decreases j,
    {
        let c = text::chars_of(x.instances[j - 1].name.as_str());
        if text::eq_chars(&c, n) {
            assert(m.insts[j - 1].name == n@);
            let ghost old_is = x.instances@;
            let ghost a0 = x.instances@[j - 1].attrs;
            let ghost x0 = *x;
            x.instances[j - 1].attrs.set(kr, vr);
            assert(x.nets == x0.nets && x.cells == x0.cells && x.index == x0.index);
            assert(x.instances@ == old_is.update(j - 1, x.instances@[j - 1]));
            proof {
                lemma_attr_map_set(a0, x.instances@[j - 1].attrs, k@, v@);
                let i = j - 1;
                assert(x.instances@.map_values(|q: Instance| inst_model(q)) =~= m.insts.update(
                    i as int,
                    InstModel { attrs: m.insts[i as int].attrs.insert(k@, v@), ..m.insts[i as int] },
                ));
                assert(design_model(*x) =~= DesignModel {
                    insts: m.insts.update(i as int, InstModel { attrs: m.insts[i as int].attrs.insert(k@, v@), ..m.insts[i as int] }),
                    ..m
                });
                assert(last_inst(m.insts, n@, j as int) == i);
            }
            return Ok(());
        }
        j = j - 1;
    }
    chars_err("no instance ", n)
}

fn hnf_inst(x: &mut Design, w: &Vec<Vec<char>>)
    requires
        hnf_holds(*old(x), design_model(*old(x))),
        w@.len() >= 3,
    ensures
        hnf_holds(*final(x), design_model(*final(x))),
        ({
            let m = design_model(*old(x));
            let wv = w@.map_values(|t: Vec<char>| t@);
            design_model(*final(x)) == (DesignModel {
                insts: m.insts.push(
                    InstModel {
                        name: wv[1],
                        module: wv[2],
                        conns: if wv.len() > 3 {
                            hnf_conns(split_char_from(wv[3], ',', 0))
                        } else {
                            Seq::empty()
                        },
                        attrs: Map::empty(),
                    },
                ),
                ..m
            })
        }),
{
    let ghost m = design_model(*x);
    let ghost wv = w@.map_values(|t: Vec<char>| t@);
    let mut conns: Vec<(String, String)> = Vec::new();
    if w.len() > 3 {
        let pairs = split_on(&w[3], ',');
        let ghost pv = pairs@.map_values(|t: Vec<char>| t@);
        let mut k: usize = 0;
        while k < pairs.len()
            invariant
                k <= pairs@.len(),
                pv == pairs@.map_values(|t: Vec<char>| t@),
                kv(conns@) == hnf_conns(pv.subrange(0, k as int)),
            decreases pairs@.len() - k,
        {
            proof {
                assert(pv.subrange(0, k + 1).drop_last() =~= pv.subrange(0, k as int));
            }
            match split_at_char(&pairs[k], ':') {
                Some((a, b)) => {
                    conns.push((text::string_of(a.as_slice()), text::string_of(b.as_slice())));
                },
                None => {},
            }
            k = k + 1;
            assert(kv(conns@) =~= hnf_conns(pv.subrange(0, k as int)));
        }
        assert(pv.subrange(0, pv.len() as int) =~= pv);
    } else {
        assert(kv(conns@) =~= Seq::<(Seq<char>, Seq<char>)>::empty());
    }
    let a = Attrs::new();
    proof {
        lemma_attr_map_new(a);
    }
    let inst = Instance {
        name: text::string_of(w[1].as_slice()),
        module: text::string_of(w[2].as_slice()),
        conns,
        attrs: a,
    };
    x.instances.push(inst);
    assert(x.instances@.map_values(|i: Instance| inst_model(i)) =~= m.insts.push(inst_model(inst)));
    assert(design_model(*x) =~= DesignModel { insts: m.insts.push(inst_model(inst)), ..m });
}

} // verus!
