use helion::hckp::{checkpoint, restore, restore_with_ir};
use helion::ir::Design;
use helion::proj::Mode;

#[test]
fn hckp_checkpoint_restores_mode_hash_and_netlist() {
    let d = Design::structural_blinky();
    let ck = checkpoint(Mode::Project, 0x1234_5678, Some(&d));
    assert_eq!(&ck[0..4], b"HCKP");
    assert_eq!(ck[4], 1);
    assert_eq!(&ck[5..9], &[0x78, 0x56, 0x34, 0x12]);
    let (mode, h) = restore(&ck).unwrap();
    assert_eq!(mode, Mode::Project);
    assert_eq!(h, 0x1234_5678);
    let (_, _, ir) = restore_with_ir(&ck).unwrap();
    let ir = ir.expect("checkpoint must embed HNF");
    assert_eq!(ir.name, "blinky");
    assert_eq!(ir.lut_inits(), d.lut_inits());
    assert_eq!(ir.to_hnf(), d.to_hnf());
}

#[test]
fn hckp_without_design_has_header_only() {
    let ck = checkpoint(Mode::NonProject, 7, None);
    assert_eq!(ck.len(), 9);
    let (mode, h, ir) = restore_with_ir(&ck).unwrap();
    assert_eq!(mode, Mode::NonProject);
    assert_eq!(h, 7);
    assert!(ir.is_none());
}

#[test]
fn hckp_restore_refuses_bad_input() {
    assert_eq!(restore(b"HCK").err(), Some("bad hckp".to_string()));
    assert_eq!(restore(b"XXXX\x01\0\0\0\0").err(), Some("bad hckp".to_string()));
    assert_eq!(restore(b"HCKP\x03\0\0\0\0").err(), Some("bad mode".to_string()));
    let mut short = b"HCKP\x01\x05\0\0\0".to_vec();
    short.extend_from_slice(&[100, 0, 0, 0, b'a', b'b']);
    let (mode, h, ir) = restore_with_ir(&short).unwrap();
    assert_eq!((mode, h), (Mode::Project, 5));
    assert!(ir.is_none());
    let mut bad_utf8 = b"HCKP\x02\0\0\0\0".to_vec();
    bad_utf8.extend_from_slice(&[1, 0, 0, 0, 0xff]);
    let want = std::str::from_utf8(&[0xffu8]).unwrap_err().to_string();
    assert_eq!(restore_with_ir(&bad_utf8).err(), Some(want));
    let mut bad_hnf = b"HCKP\x02\0\0\0\0".to_vec();
    bad_hnf.extend_from_slice(&[1, 0, 0, 0, b'x']);
    assert_eq!(restore(&bad_hnf).err(), Some("hnf cmd x".to_string()));
}
