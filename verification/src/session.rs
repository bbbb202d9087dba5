//! Netlist edits a CAD session makes through its Tcl commands, on the
//! session's synthesized netlist (if there is one): `set_property` and the
//! ECO LUT insertion.

use vstd::prelude::*;
use crate::text;
use crate::ir::{
    self, CellKind, CellModel, Design, DesignModel, KindModel, PortDir, PortModel,
};

verus! {

/// Where a `set_property` key lands, with the attribute it writes.
pub enum PropTarget {
    Cell(Seq<char>),
    Net(Seq<char>),
    Port(Seq<char>),
}

/// The attribute a `set_property` key (case-insensitive) writes: `DONT_TOUCH`
/// / `keep` on a cell, `mark_debug` on a net, `LOC` / `PACKAGE_PIN` and the
/// electrical keys on a port, any other key as that cell attribute.
pub open spec fn prop_target(key: Seq<char>) -> PropTarget {
    if text::eq_ignore_case(key, "DONT_TOUCH"@) || text::eq_ignore_case(key, "keep"@) {
        PropTarget::Cell("DONT_TOUCH"@)
    } else if text::eq_ignore_case(key, "mark_debug"@) {
        PropTarget::Net("mark_debug"@)
    } else if text::eq_ignore_case(key, "LOC"@) || text::eq_ignore_case(key, "PACKAGE_PIN"@) {
        PropTarget::Port("LOC"@)
    } else if text::eq_ignore_case(key, "IOSTANDARD"@) {
        PropTarget::Port("IOSTANDARD"@)
    } else if text::eq_ignore_case(key, "DRIVE"@) {
        PropTarget::Port("DRIVE"@)
    } else if text::eq_ignore_case(key, "SLEW"@) {
        PropTarget::Port("SLEW"@)
    } else if text::eq_ignore_case(key, "PULLTYPE"@) {
        PropTarget::Port("PULLTYPE"@)
    } else if text::eq_ignore_case(key, "DIFF_TERM"@) {
        PropTarget::Port("DIFF_TERM"@)
    } else if text::eq_ignore_case(key, "IN_TERM"@) {
        PropTarget::Port("IN_TERM"@)
    } else {
        PropTarget::Cell(key)
    }
}

/// `set_property <key> <val> <obj>` on the session's netlist.
pub fn set_property(design: &mut Option<Design>, key: &str, val: &str, obj: &str) -> (r: Result<(), String>)
    requires
        *old(design) matches Some(d) ==> d.wf(),
    ensures
        match *old(design) {
            None => r matches Err(e) && e@ == "set_property: no design"@ && *final(design) is None,
            Some(d0) => *final(design) matches Some(d1) && match prop_target(key@) {
                PropTarget::Cell(k) => ir::cell_attr_done(d0, d1, obj@, k, val@, r),
                PropTarget::Net(k) => ir::net_attr_set(d0, d1, obj@, k, val@, r),
                PropTarget::Port(k) => d1.wf() && ir::port_attr_done(d0, d1, obj@, k, val@, r),
            },
        },
{
    match design {
        None => Err(text::owned("set_property: no design")),
        Some(d) => {
            let kv = text::chars_of(key);
            if text::eq_ignore_case_str(&kv, "DONT_TOUCH") || text::eq_ignore_case_str(&kv, "keep") {
                d.set_cell_attr(obj, "DONT_TOUCH", val)
            } else if text::eq_ignore_case_str(&kv, "mark_debug") {
                d.set_net_attr(obj, "mark_debug", val)
            } else if text::eq_ignore_case_str(&kv, "LOC") || text::eq_ignore_case_str(&kv, "PACKAGE_PIN") {
                d.set_loc(obj, val)
            } else if text::eq_ignore_case_str(&kv, "IOSTANDARD") {
                d.set_iostandard(obj, val)
            } else if text::eq_ignore_case_str(&kv, "DRIVE") {
                d.set_drive(obj, val)
            } else if text::eq_ignore_case_str(&kv, "SLEW") {
                d.set_slew(obj, val)
            } else if text::eq_ignore_case_str(&kv, "PULLTYPE") {
                d.set_pulltype(obj, val)
            } else if text::eq_ignore_case_str(&kv, "DIFF_TERM") {
                d.set_diff_term(obj, val)
            } else if text::eq_ignore_case_str(&kv, "IN_TERM") {
                d.set_in_term(obj, val)
            } else {
                d.set_cell_attr(obj, key, val)
            }
        },
    }
}


/// The netlist after inserting the ECO LUT `name` with `init`: a LUT6 and its
/// flip-flop `<name>_ff`, an input port `clk` when there is none, and the
/// connections `clk` → FF CLK, LUT O → `<name>_d` → FF D, FF Q → `<name>_q`.
pub open spec fn eco_model(m: DesignModel, name: Seq<char>, init: u64) -> DesignModel {
    let ff = name + "_ff"@;
    let d = name + "_d"@;
    let q = name + "_q"@;
    let cells = m.cells.push(CellModel { name, kind: KindModel::Lut6(init), attrs: Map::empty() }).push(
        CellModel { name: ff, kind: KindModel::Hff, attrs: Map::empty() },
    );
    let ports = if ir::first_port(m.ports, "clk"@, 0) < m.ports.len() {
        m.ports
    } else {
        m.ports.push(PortModel { name: "clk"@, dir: PortDir::In, attrs: Map::empty() })
    };
    let n1 = ir::connect_model(m.nets, "clk"@, ff, "CLK"@);
    let n2 = ir::connect_model(n1, d, name, "O"@);
    let n3 = ir::connect_model(n2, d, ff, "D"@);
    let n4 = ir::connect_model(n3, q, ff, "Q"@);
    DesignModel { cells, ports, nets: n4, ..m }
}

fn with_suffix(name: &str, sfx: &str) -> (r: String)
    ensures
        r@ == name@ + sfx@,
{
    let mut v = text::chars_of(name);
    text::push_str(&mut v, sfx);
    text::string_of(v.as_slice())
}

fn has_cell_named(d: &Design, name: &str) -> (r: bool)
    ensures
        r == d.has_cell(name@),
{
    let mut i: usize = 0;
    while i < d.cells.len()
        invariant
            i <= d.cells@.len(),
            forall|q: int| 0 <= q < i ==> (#[trigger] d.cells@[q]).name@ != name@,
        decreases d.cells@.len() - i,
    {
        if text::str_eq(d.cells[i].name.as_str(), name) {
            assert(d.cells@[i as int].name@ == name@);
            return true;
        }
        i = i + 1;
    }
    false
}

fn has_port_named(d: &Design, name: &str) -> (r: bool)
    ensures
        r == (ir::first_port(ir::design_model(*d).ports, name@, 0) < d.ports@.len()),
{
    let ghost ps = ir::design_model(*d).ports;
    proof {
        crate::hnf::lemma_first_port_range(ps, name@, 0);
    }
    let mut i: usize = 0;
    while i < d.ports.len()
        invariant
            i <= d.ports@.len(),
            ps == ir::design_model(*d).ports,
            ps.len() == d.ports@.len(),
            forall|q: int| 0 <= q < i ==> (#[trigger] d.ports@[q]).name@ != name@,
            forall|q: int| 0 <= q < ir::first_port(ps, name@, 0) ==> (#[trigger] ps[q]).name != name@,
            ir::first_port(ps, name@, 0) < ps.len() ==> ps[ir::first_port(ps, name@, 0)].name == name@,
        decreases d.ports@.len() - i,
    {
        if text::str_eq(d.ports[i].name.as_str(), name) {
            assert(ps[i as int].name == name@);
            return true;
        }
        i = i + 1;
    }
    proof {
        let f = ir::first_port(ps, name@, 0);
        if f < ps.len() {
            assert(ps[f].name == d.ports@[f].name@);
        }
    }
    false
}

/// `insert_eco_lut <name> <init>` on the session's netlist: refused when a
/// cell `name` exists; otherwise the LUT, its flip-flop and their nets.
#[verifier::spinoff_prover]
#[verifier::rlimit(40)]
pub fn insert_eco_lut(design: &mut Option<Design>, name: &str, init: u64) -> (r: Result<String, String>)
    requires
        *old(design) matches Some(d) ==> d.wf(),
    ensures
        match *old(design) {
            None => r matches Err(e) && e@ == "insert_eco_lut: no design"@ && *final(design) is None,
            Some(d0) => *final(design) matches Some(d1) && d1.wf() && if d0.has_cell(name@) {
                r matches Err(e) && e@ == "insert_eco_lut: "@ + name@ + " exists"@ && d1 == d0
            } else {
                &&& r matches Ok(s) && s@ == "insert_eco_lut "@ + name@ + " init=0x"@ + text::hex(init as nat)
                &&& ir::net_names_unique(d0.nets@) ==> ir::design_model(d1) == eco_model(ir::design_model(d0), name@, init)
            },
        },
{
    match design {
        None => Err(text::owned("insert_eco_lut: no design")),
        Some(d) => {
            if has_cell_named(d, name) {
                let mut m = text::chars_of("insert_eco_lut: ");
                text::push_str(&mut m, name);
                text::push_str(&mut m, " exists");
                assert(m@ =~= "insert_eco_lut: "@ + name@ + " exists"@);
                return Err(text::string_of(m.as_slice()));
            }
            let ghost m0 = ir::design_model(*d);
            let ghost u0 = ir::net_names_unique(d.nets@);
            let ff = with_suffix(name, "_ff");
            let dn = with_suffix(name, "_d");
            let qn = with_suffix(name, "_q");
            d.add_cell(name, CellKind::Lut6 { init });
            d.add_cell(ff.as_str(), CellKind::Hff);
            let ghost m2 = ir::design_model(*d);
            let has_clk = has_port_named(d, "clk");
            if !has_clk {
                d.add_port("clk", PortDir::In);
            }
            let ghost m3 = ir::design_model(*d);
            proof {
                assert(m3.ports == (if ir::first_port(m0.ports, "clk"@, 0) < m0.ports.len() {
                    m0.ports
                } else {
                    m0.ports.push(PortModel { name: "clk"@, dir: PortDir::In, attrs: Map::empty() })
                }));
            }
            d.connect("clk", ff.as_str(), "CLK");
            d.connect(dn.as_str(), name, "O");
            d.connect(dn.as_str(), ff.as_str(), "D");
            d.connect(qn.as_str(), ff.as_str(), "Q");
            proof {
                if u0 {
                    assert(ir::design_model(*d) =~= eco_model(m0, name@, init));
                }
            }
            let mut msg = text::chars_of("insert_eco_lut ");
            text::push_str(&mut msg, name);
            text::push_str(&mut msg, " init=0x");
            text::push_hex(&mut msg, init);
            assert(msg@ =~= "insert_eco_lut "@ + name@ + " init=0x"@ + text::hex(init as nat));
            Ok(text::string_of(msg.as_slice()))
        },
    }
}
} // verus!
