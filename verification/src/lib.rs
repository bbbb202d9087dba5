//! Helion FPGA toolchain core: netlist IR, IP packaging, timing, project
//! files and the JTAG/MPSSE programming protocol, with verified contracts.

pub mod text;
pub mod ir;
pub mod ipxact;
pub mod hw;
pub mod mpsse;
pub mod native_usb;
pub mod sta;
pub mod route;
pub mod place;
pub mod xdc;
pub mod proj;
pub mod stage;
pub mod sim;
pub mod cells;
pub mod pack;
pub mod hnf;
pub mod prj_file;
pub mod hckp;
pub mod session;
