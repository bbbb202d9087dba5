//! `.hckp` session checkpoints: `HCKP`, the session mode, the bitstream hash
//! and, when there is a netlist, its HNF text (byte length first, UTF-8).

use vstd::prelude::*;
use vstd::utf8::{decode_utf8, encode_utf8, valid_utf8};
use crate::ir::{self, Design, DesignModel};
use crate::proj::Mode;
use crate::text;

verus! {

/// The mode byte of a checkpoint.
pub open spec fn mode_byte(m: Mode) -> u8 {
    match m {
        Mode::Project => 1,
        Mode::NonProject => 2,
    }
}

/// `x` as four little-endian bytes (its low 32 bits).
pub open spec fn le32(x: nat) -> Seq<u8> {
    seq![(x % 256) as u8, ((x / 256) % 256) as u8, ((x / 65536) % 256) as u8, ((x / 16777216) % 256) as u8]
}

/// The little-endian number in bytes `i..i+4` of `b`.
pub open spec fn le32_at(b: Seq<u8>, i: int) -> nat {
    (b[i] + 256 * b[i + 1] + 65536 * b[i + 2] + 16777216 * b[i + 3]) as nat
}

pub open spec fn magic() -> Seq<u8> {
    seq![72u8, 67u8, 75u8, 80u8]
}

/// The bytes of a checkpoint with mode `mode`, hash `hash` and, if given, the
/// HNF text `hnf`.
pub open spec fn hckp_bytes(mode: Mode, hash: u32, hnf: Option<Seq<char>>) -> Seq<u8> {
    magic() + seq![mode_byte(mode)] + le32(hash as nat) + match hnf {
        Some(t) => le32(encode_utf8(t).len() % 0x1_0000_0000) + encode_utf8(t),
        None => Seq::empty(),
    }
}

/// The message of `std::str::Utf8Error` for bytes that are not UTF-8.
pub uninterp spec fn utf8_error_text(b: Seq<u8>) -> Seq<char>;

/// What a checkpoint reads back as: its mode, its hash and, when the bytes
/// hold a complete HNF text, the design that text describes.
pub open spec fn hckp_result(b: Seq<u8>) -> Result<(Mode, u32, Option<DesignModel>), Seq<char>> {
    if b.len() < 9 || b.subrange(0, 4) != magic() {
        Err("bad hckp"@)
    } else if b[4] != 1 && b[4] != 2 {
        Err("bad mode"@)
    } else {
        let mode = if b[4] == 1 { Mode::Project } else { Mode::NonProject };
        let hash = le32_at(b, 5) as u32;
        if b.len() >= 13 && b.len() >= 13 + le32_at(b, 9) {
            let t = b.subrange(13, 13 + le32_at(b, 9) as int);
            if !valid_utf8(t) {
                Err(utf8_error_text(t))
            } else {
                match ir::hnf_result(decode_utf8(t)) {
                    Err(e) => Err(e),
                    Ok(m) => Ok((mode, hash, Some(m))),
                }
            }
        } else {
            Ok((mode, hash, None))
        }
    }
}

/// `std::str::from_utf8`, the text copied into a `String`. Claimed: `Ok`
/// exactly when the bytes are valid UTF-8, holding the text whose UTF-8
/// encoding they are; otherwise the `Utf8Error` message, a function of the
/// bytes alone.
#[verifier::external_body]
fn text_from_utf8(v: &[u8]) -> (r: Result<String, String>)
    ensures
        match r {
            Ok(s) => valid_utf8(v@) && encode_utf8(s@) == v@,
            Err(e) => !valid_utf8(v@) && e@ == utf8_error_text(v@),
        },
{
    match std::str::from_utf8(v) {
        Ok(s) => Ok(s.to_string()),
        Err(e) => Err(e.to_string()),
    }
}

fn push_le32(v: &mut Vec<u8>, x: u32)
    ensures
        final(v)@ == old(v)@ + le32(x as nat),
{
    v.push((x % 256) as u8);
    v.push(((x / 256) % 256) as u8);
    v.push(((x / 65536) % 256) as u8);
    v.push(((x / 16777216) % 256) as u8);
    assert(v@ =~= old(v)@ + le32(x as nat));
}

fn read_le32(b: &[u8], i: usize) -> (r: u32)
    requires
        i + 4 <= b@.len(),
    ensures
        r as nat == le32_at(b@, i as int),
{
    (b[i] as u32) + 256 * (b[i + 1] as u32) + 65536 * (b[i + 2] as u32) + 16777216 * (b[i + 3] as u32)
}

pub proof fn lemma_le32(x: nat)
    requires
        x <= u32::MAX,
    ensures
        le32_at(le32(x), 0) == x,
{
    let b = le32(x);
    assert(b[0] == x % 256);
    assert(b[1] == (x / 256) % 256);
    assert(b[2] == (x / 65536) % 256);
    assert(b[3] == (x / 16777216) % 256);
    assert(x == x % 256 + 256 * ((x / 256) % 256) + 65536 * ((x / 65536) % 256) + 16777216 * ((x / 16777216) % 256))
        by (nonlinear_arith)
        requires
            x <= 0xffff_ffff,
    ;
}

/// The `.hckp` bytes of a session (`Session::checkpoint`): mode, bitstream
/// hash (0 without a bitstream) and the HNF of `design`, when there is one.
pub fn checkpoint(mode: Mode, hash: u32, design: Option<&Design>) -> (r: Vec<u8>)
    ensures
        r@ == hckp_bytes(mode, hash, match design {
            Some(d) => Some(ir::hnf_text(*d)),
            None => None,
        }),
        match design {
            Some(d) => crate::hnf::hnf_ready(*d) && encode_utf8(ir::hnf_text(*d)).len() <= u32::MAX ==> hckp_result(r@)
                == Ok::<(Mode, u32, Option<DesignModel>), Seq<char>>((mode, hash, Some(ir::design_model(*d)))),
            None => hckp_result(r@) == Ok::<(Mode, u32, Option<DesignModel>), Seq<char>>((mode, hash, None)),
        },
{
    let mut v: Vec<u8> = Vec::new();
    v.push(72u8);
    v.push(67u8);
    v.push(75u8);
    v.push(80u8);
    v.push(
        match mode {
            Mode::Project => 1u8,
            Mode::NonProject => 2u8,
        },
    );
    push_le32(&mut v, hash);
    let ghost head = v@;
    assert(head =~= magic() + seq![mode_byte(mode)] + le32(hash as nat));
    match design {
        Some(d) => {
            let t = d.to_hnf();
            let b = t.as_str().as_bytes();
            let n: u64 = b.len() as u64;
            assert(n == b@.len());
            assert((n as u32) as nat == n % 0x1_0000_0000) by (bit_vector);
            push_le32(&mut v, n as u32);
            let ghost mid = v@;
            let mut i: usize = 0;
            while i < b.len()
                invariant
                    i <= b@.len(),
                    v@ == mid + b@.subrange(0, i as int),
                decreases b@.len() - i,
            {
                v.push(b[i]);
                assert(b@.subrange(0, i + 1) =~= b@.subrange(0, i as int).push(b@[i as int]));
                i = i + 1;
            }
            assert(b@.subrange(0, i as int) =~= b@);
            proof {
                assert(b@ == encode_utf8(ir::hnf_text(*d)));
                assert(v@ =~= hckp_bytes(mode, hash, Some(ir::hnf_text(*d))));
                if crate::hnf::hnf_ready(*d) && encode_utf8(ir::hnf_text(*d)).len() <= u32::MAX {
                    lemma_hckp_round_trip(mode, hash, *d);
                }
            }
        },
        None => {
            proof {
                assert(v@ =~= hckp_bytes(mode, hash, None));
                lemma_hckp_empty(mode, hash);
            }
        },
    }
    v
}

proof fn lemma_hckp_head(mode: Mode, hash: u32, rest: Seq<u8>)
    ensures
        ({
            let b = magic() + seq![mode_byte(mode)] + le32(hash as nat) + rest;
            &&& b.len() == 9 + rest.len()
            &&& b.subrange(0, 4) == magic()
            &&& b[4] == mode_byte(mode)
            &&& le32_at(b, 5) == hash
            &&& b.subrange(9, b.len() as int) == rest
        }),
{
    let b = magic() + seq![mode_byte(mode)] + le32(hash as nat) + rest;
    assert(b.subrange(0, 4) =~= magic());
    lemma_le32(hash as nat);
    let h = le32(hash as nat);
    assert(b[5] == h[0] && b[6] == h[1] && b[7] == h[2] && b[8] == h[3]);
    assert(b.subrange(9, b.len() as int) =~= rest);
}

proof fn lemma_hckp_empty(mode: Mode, hash: u32)
    ensures
        hckp_result(hckp_bytes(mode, hash, None)) == Ok::<(Mode, u32, Option<DesignModel>), Seq<char>>((mode, hash, None)),
{
    lemma_hckp_head(mode, hash, Seq::empty());
    assert(hckp_bytes(mode, hash, None) =~= magic() + seq![mode_byte(mode)] + le32(hash as nat) + Seq::<u8>::empty());
}

/// A checkpoint of a design that HNF carries reads back as its mode, its
/// hash and that design.
pub proof fn lemma_hckp_round_trip(mode: Mode, hash: u32, d: Design)
    requires
        crate::hnf::hnf_ready(d),
        crate::hnf::attrs_distinct(d),
        encode_utf8(ir::hnf_text(d)).len() <= u32::MAX,
    ensures
        hckp_result(hckp_bytes(mode, hash, Some(ir::hnf_text(d)))) == Ok::<(Mode, u32, Option<DesignModel>), Seq<char>>(
            (mode, hash, Some(ir::design_model(d))),
        ),
{
    let t = ir::hnf_text(d);
    let e = encode_utf8(t);
    let rest = le32(e.len() % 0x1_0000_0000) + e;
    assert(e.len() % 0x1_0000_0000 == e.len());
    lemma_hckp_head(mode, hash, rest);
    let b = hckp_bytes(mode, hash, Some(t));
    assert(b =~= magic() + seq![mode_byte(mode)] + le32(hash as nat) + rest);
    lemma_le32(e.len());
    assert(b[9] == rest[0] && b[10] == rest[1] && b[11] == rest[2] && b[12] == rest[3]);
    assert(le32_at(b, 9) == le32_at(le32(e.len() % 0x1_0000_0000), 0));
    assert(b.subrange(13, 13 + e.len() as int) =~= e);
    vstd::utf8::encode_utf8_valid_utf8(t);
    vstd::utf8::encode_utf8_decode_utf8(t);
    crate::hnf::hnf_round_trip(d);
}

/// Reads a checkpoint back (`Session::restore_with_ir`): `bad hckp` without
/// the `HCKP` header, `bad mode` for a mode other than 1 or 2; the design is
/// read when a complete HNF text follows, and its errors are the result's.
pub fn restore_with_ir(bytes: &[u8]) -> (r: Result<(Mode, u32, Option<Design>), String>)
    ensures
        match hckp_result(bytes@) {
            Ok((m, h, dm)) => r matches Ok((m2, h2, d2)) && m2 == m && h2 == h && match dm {
                None => d2 is None,
                Some(x) => d2 matches Some(dd) && dd.wf() && ir::design_model(dd) == x,
            },
            Err(e) => r matches Err(x) && x@ == e,
        },
{
    if bytes.len() < 9 || !(bytes[0] == 72u8 && bytes[1] == 67u8 && bytes[2] == 75u8 && bytes[3] == 80u8) {
        proof {
            if bytes@.len() >= 9 {
                if bytes@.subrange(0, 4) == magic() {
                    assert(bytes@.subrange(0, 4)[0] == bytes@[0]);
                    assert(bytes@.subrange(0, 4)[1] == bytes@[1]);
                    assert(bytes@.subrange(0, 4)[2] == bytes@[2]);
                    assert(bytes@.subrange(0, 4)[3] == bytes@[3]);
                }
            }
        }
        return Err(text::owned("bad hckp"));
    }
    assert(bytes@.subrange(0, 4) =~= magic());
    let mode = if bytes[4] == 1u8 {
        Mode::Project
    } else if bytes[4] == 2u8 {
        Mode::NonProject
    } else {
        return Err(text::owned("bad mode"));
    };
    let hash = read_le32(bytes, 5);
    if bytes.len() >= 13 {
        let n = read_le32(bytes, 9);
        if n as usize <= bytes.len() - 13 {
            let end = 13 + n as usize;
            let slice = &bytes[13..end];
            assert(slice@ =~= bytes@.subrange(13, 13 + le32_at(bytes@, 9) as int));
            match text_from_utf8(slice) {
                Err(e) => return Err(e),
                Ok(s) => {
                    proof {
                        vstd::utf8::encode_utf8_decode_utf8(s@);
                    }
                    match Design::from_hnf(s.as_str()) {
                        Err(e) => return Err(e),
                        Ok(d) => return Ok((mode, hash, Some(d))),
                    }
                },
            }
        }
    }
    Ok((mode, hash, None))
}

/// The mode and hash of a checkpoint (`Session::restore`); fails where
/// [`restore_with_ir`] does.
pub fn restore(bytes: &[u8]) -> (r: Result<(Mode, u32), String>)
    ensures
        match hckp_result(bytes@) {
            Ok((m, h, _)) => r == Ok::<(Mode, u32), String>((m, h)),
            Err(e) => r matches Err(x) && x@ == e,
        },
{
    match restore_with_ir(bytes) {
        Ok((m, h, _)) => Ok((m, h)),
        Err(e) => Err(e),
    }
}

} // verus!
