//! HELIONLIB: the toolchain's own primitive library (not UNISIM), and the
//! mapping of a multiply-add onto its DSP primitive.

use vstd::prelude::*;
use crate::ir::{Design, CellKind};

verus! {

pub const LUT6: &'static str = "
module LUT6 #(parameter [63:0] INIT = 64'h0) (
  input I0, I1, I2, I3, I4, I5, output O
);
  assign O = INIT[{I5,I4,I3,I2,I1,I0}];
endmodule
";

pub const HFF: &'static str = "
module HFF (input D, CLK, CE, SR, output reg Q);
  always @(posedge CLK) if (SR) Q <= 1'b0; else if (CE) Q <= D;
endmodule
";

pub const MAC27: &'static str = "
module MAC27 (input clk, input [26:0] a, b, input [47:0] c, output reg [47:0] p);
  always @(posedge clk) p <= (a * b) + c;
endmodule
";

/// The primitive names of HELIONLIB.
pub open spec fn helionlib_names() -> Seq<Seq<char>> {
    seq![
        "LUT6"@,
        "HFF"@,
        "HCARRY"@,
        "MAC27"@,
        "BRAM18"@,
        "HIDDR"@,
        "HODDR"@,
        "HBUFQ"@,
        "HSTARTUP"@,
    ]
}

pub fn cell_names() -> (r: [&'static str; 9])
    ensures
        forall|k: int| 0 <= k < 9 ==> r@[k]@ == helionlib_names()[k],
{
    ["LUT6", "HFF", "HCARRY", "MAC27", "BRAM18", "HIDDR", "HODDR", "HBUFQ", "HSTARTUP"]
}

/// Map `p <= a * b + c` onto HELIONLIB MAC27 (site primitive).
pub fn map_muladd_to_mac27() -> (k: CellKind)
    ensures
        k == CellKind::Mac27,
{
    CellKind::Mac27
}

/// A design holding one MAC27, `u_mac`.
pub fn muladd_design() -> (d: Design)
    ensures
        d.wf(),
        d.name@ == "muladd"@,
        d.ports@.len() == 0 && d.nets@.len() == 0 && d.instances@.len() == 0,
        d.attrs.pairs().len() == 0,
        d.cells@.len() == 1,
        d.cells@[0].name@ == "u_mac"@,
        d.cells@[0].kind == CellKind::Mac27,
        d.cells@[0].attrs.pairs().len() == 0,
{
    let mut d = Design::new("muladd");
    d.add_cell("u_mac", map_muladd_to_mac27());
    d
}

} // verus!
