//! Reading back what [`format_prj`](crate::proj::format_prj) writes: the
//! round trip through [`load_prj`](crate::proj::load_prj).

use vstd::prelude::*;
use crate::text;
use crate::ir::join_words;
use crate::hnf::{self, is_token, all_tokens, lacks, spaced, nl_join};
use crate::proj::{self, PrjModel, PblockModel};

verus! {

// ---------------------------------------------------------------------------
// Words and lines of a project file
// ---------------------------------------------------------------------------

/// A word that survives a project line: no whitespace, no `#`.
pub open spec fn word(t: Seq<char>) -> bool {
    is_token(t) && lacks(t, '#')
}

proof fn lemma_join_lacks(ts: Seq<Seq<char>>, c: char)
    requires
        c != ' ',
        forall|i: int| 0 <= i < ts.len() ==> lacks(#[trigger] ts[i], c),
    ensures
        lacks(join_words(ts), c),
    decreases ts.len(),
{
    if ts.len() > 1 {
        let d = ts.drop_last();
        assert forall|i: int| 0 <= i < d.len() implies lacks(#[trigger] d[i], c) by {
            assert(d[i] == ts[i]);
        }
        lemma_join_lacks(d, c);
        let j = join_words(d);
        let s = j + seq![' '] + ts.last();
        assert(lacks(ts[ts.len() - 1], c));
        assert forall|i: int| 0 <= i < s.len() implies (#[trigger] s[i]) != c by {
            if i < j.len() {
                assert(s[i] == j[i]);
            } else if i > j.len() {
                assert(s[i] == ts.last()[i - j.len() - 1]);
            }
        }
    } else if ts.len() == 1 {
        assert(join_words(ts) == ts[0]);
    }
}

/// A project line made of words, as the reader sees it.
pub proof fn lemma_prj_line(ts: Seq<Seq<char>>)
    requires
        all_tokens(ts),
        ts.len() > 0,
        lacks(join_words(ts), '#'),
    ensures
        text::clean_line(join_words(ts)) == join_words(ts),
        text::words(join_words(ts)) == ts,
        spaced(join_words(ts)),
{
    let j = join_words(ts);
    hnf::lemma_line(ts, false);
    assert(hnf::line_words(ts, false) =~= j);
    text::lemma_find_char_ge(j, '#', 0);
    let f = text::find_char_from(j, '#', 0);
    if f < j.len() {
        assert(j[f] == '#');
    }
    assert(text::before_char(j, '#') =~= j);
}

pub proof fn lemma_words_lack(ts: Seq<Seq<char>>)
    requires
        forall|i: int| 0 <= i < ts.len() ==> word(#[trigger] ts[i]),
    ensures
        all_tokens(ts),
        lacks(join_words(ts), '#'),
{
    assert forall|i: int| 0 <= i < ts.len() implies lacks(#[trigger] ts[i], '#') by {
        assert(word(ts[i]));
    }
    lemma_join_lacks(ts, '#');
}

/// Reading `a` then `b` is reading `a + b`.
pub proof fn lemma_fold_append(m: PrjModel, a: Seq<Seq<char>>, b: Seq<Seq<char>>)
    ensures
        proj::prj_fold(m, a + b) == match proj::prj_fold(m, a) {
            Err(e) => Err(e),
            Ok(m2) => proj::prj_fold(m2, b),
        },
    decreases a.len(),
{
    if a.len() == 0 {
        assert(a + b =~= b);
    } else {
        assert((a + b).drop_first() =~= a.drop_first() + b);
        assert((a + b)[0] == a[0]);
        match proj::prj_step(m, text::clean_line(a[0])) {
            Err(e) => {},
            Ok(m2) => {
                lemma_fold_append(m2, a.drop_first(), b);
            },
        }
    }
}

pub proof fn lemma_fold_one(m: PrjModel, l: Seq<char>)
    ensures
        proj::prj_fold(m, seq![l]) == proj::prj_step(m, text::clean_line(l)),
{
    assert(seq![l].drop_first() =~= Seq::<Seq<char>>::empty());
    match proj::prj_step(m, text::clean_line(l)) {
        Err(e) => {},
        Ok(m2) => {
            assert(proj::prj_fold(m2, Seq::<Seq<char>>::empty()) == Ok::<PrjModel, Seq<char>>(m2));
        },
    }
}

// ---------------------------------------------------------------------------
// Numbers
// ---------------------------------------------------------------------------

proof fn lemma_digit_char(d: nat)
    requires
        d < 10,
    ensures
        text::digit_val(text::digit_char(d)) == d,
        text::is_digit(text::digit_char(d)),
{
    assert(text::digit_char(d) as u32 == 48 + d);
}

/// Decimal digits read back as the number they render.
pub proof fn lemma_dec_digits(n: nat)
    ensures
        text::dec(n).len() > 0,
        text::all_digits(text::dec(n)),
        text::digits_val(text::dec(n)) == n,
    decreases n,
{
    if n < 10 {
        lemma_digit_char(n);
        assert(text::dec(n).drop_last() =~= Seq::<char>::empty());
        assert(text::digits_val(Seq::<char>::empty()) == 0);
        assert(text::digits_val(text::dec(n)) == text::digits_val(text::dec(n).drop_last()) * 10 + text::digit_val(text::dec(n).last()));
    } else {
        lemma_dec_digits(n / 10);
        lemma_digit_char(n % 10);
        let h = text::dec(n);
        assert(h.drop_last() =~= text::dec(n / 10));
        assert(h.last() == text::digit_char(n % 10));
        assert(text::digits_val(h) == text::digits_val(h.drop_last()) * 10 + text::digit_val(h.last()));
        assert(n == (n / 10) * 10 + n % 10);
        assert forall|i: int| 0 <= i < h.len() implies text::is_digit(#[trigger] h[i]) by {
            if i < h.len() - 1 {
                assert(h[i] == text::dec(n / 10)[i]);
            }
        }
    }
}

pub proof fn lemma_parse_dec(n: nat, max: nat)
    requires
        n <= max,
    ensures
        text::parse_unsigned(text::dec(n), max) == Some(n),
{
    lemma_dec_digits(n);
    assert(text::is_digit(text::dec(n)[0]));
    assert(text::unsigned_body(text::dec(n)) == text::dec(n));
}


// ---------------------------------------------------------------------------
// The lines `format_prj` writes
// ---------------------------------------------------------------------------

pub open spec fn part_line(m: PrjModel) -> Seq<char> {
    "part "@ + (if m.part.len() > 0 { m.part } else { "HL10T-C32-1"@ })
}

pub open spec fn top_lines(m: PrjModel) -> Seq<Seq<char>> {
    match m.top {
        Some(t) => seq!["top "@ + t],
        None => Seq::empty(),
    }
}

pub open spec fn source_line(s: Seq<char>) -> Seq<char> {
    proj::source_cmd(s) + seq![' '] + s
}

pub open spec fn source_seq(xs: Seq<Seq<char>>) -> Seq<Seq<char>> {
    xs.map_values(|s: Seq<char>| source_line(s))
}

pub open spec fn cmd_seq(head: Seq<char>, xs: Seq<Seq<char>>) -> Seq<Seq<char>> {
    xs.map_values(|x: Seq<char>| head + x)
}

pub open spec fn resize_line(b: PblockModel) -> Seq<char> {
    "resize_pblock "@ + b.name + " -add {"@ + proj::range_text_of(b) + "}"@
}

pub open spec fn pblock_seq(b: PblockModel) -> Seq<Seq<char>> {
    seq!["create_pblock "@ + b.name] + (if b.ranged { seq![resize_line(b)] } else { Seq::empty() }) + cmd_seq(
        "add_cells_to_pblock "@ + b.name + seq![' '],
        b.cells,
    )
}

pub open spec fn pblocks_seq(bs: Seq<PblockModel>) -> Seq<Seq<char>>
    decreases bs.len(),
{
    if bs.len() == 0 { Seq::empty() } else { pblocks_seq(bs.drop_last()) + pblock_seq(bs.last()) }
}

pub open spec fn run_line(r: (Seq<char>, Seq<char>)) -> Seq<char> {
    "create_run "@ + r.0 + " -strategy "@ + (if r.1.len() == 0 { "Default"@ } else { r.1 })
}

pub open spec fn runs_seq(rs: Seq<(Seq<char>, Seq<char>)>) -> Seq<Seq<char>> {
    rs.map_values(|r: (Seq<char>, Seq<char>)| run_line(r))
}

pub open spec fn ckpt_lines(m: PrjModel) -> Seq<Seq<char>> {
    match m.checkpoint {
        Some(c) => seq!["write_checkpoint "@ + c],
        None => Seq::empty(),
    }
}

/// The lines of `format_prj`'s text.
pub open spec fn prj_lines(m: PrjModel) -> Seq<Seq<char>> {
    seq![part_line(m)] + top_lines(m) + source_seq(m.sources) + cmd_seq("read_ip "@, m.ip_packages) + cmd_seq(
        "read_xdc "@,
        m.constraint_files,
    ) + m.sdc + pblocks_seq(m.pblocks) + runs_seq(m.runs) + ckpt_lines(m)
}

proof fn lemma_cmd_text(head: Seq<char>, xs: Seq<Seq<char>>)
    ensures
        proj::cmd_lines(head, xs) == nl_join(cmd_seq(head, xs)),
    decreases xs.len(),
{
    if xs.len() > 0 {
        lemma_cmd_text(head, xs.drop_last());
        assert(cmd_seq(head, xs).drop_last() =~= cmd_seq(head, xs.drop_last()));
        assert(proj::cmd_lines(head, xs) =~= nl_join(cmd_seq(head, xs)));
    } else {
        assert(cmd_seq(head, xs) =~= Seq::<Seq<char>>::empty());
    }
}

proof fn lemma_source_text(xs: Seq<Seq<char>>)
    ensures
        proj::source_lines(xs) == nl_join(source_seq(xs)),
    decreases xs.len(),
{
    if xs.len() > 0 {
        lemma_source_text(xs.drop_last());
        assert(source_seq(xs).drop_last() =~= source_seq(xs.drop_last()));
        assert(proj::source_lines(xs) =~= nl_join(source_seq(xs)));
    } else {
        assert(source_seq(xs) =~= Seq::<Seq<char>>::empty());
    }
}

proof fn lemma_sdc_text(xs: Seq<Seq<char>>)
    requires
        forall|i: int| 0 <= i < xs.len() ==> (#[trigger] xs[i]).len() > 0 && xs[i].last() != '\n',
    ensures
        proj::sdc_lines(xs) == nl_join(xs),
    decreases xs.len(),
{
    if xs.len() > 0 {
        assert forall|i: int| 0 <= i < xs.drop_last().len() implies (#[trigger] xs.drop_last()[i]).len() > 0
            && xs.drop_last()[i].last() != '\n' by {
            assert(xs.drop_last()[i] == xs[i]);
        }
        lemma_sdc_text(xs.drop_last());
        assert(xs.last() == xs[xs.len() - 1]);
    }
}

proof fn lemma_runs_text(rs: Seq<(Seq<char>, Seq<char>)>)
    ensures
        proj::runs_text(rs) == nl_join(runs_seq(rs)),
    decreases rs.len(),
{
    if rs.len() > 0 {
        lemma_runs_text(rs.drop_last());
        assert(runs_seq(rs).drop_last() =~= runs_seq(rs.drop_last()));
        assert(proj::runs_text(rs) =~= nl_join(runs_seq(rs)));
    } else {
        assert(runs_seq(rs) =~= Seq::<Seq<char>>::empty());
    }
}

proof fn lemma_pblock_text(b: PblockModel)
    ensures
        proj::pblock_text(b) == nl_join(pblock_seq(b)),
{
    reveal_strlit("}\n");
    reveal_strlit("}");
    reveal_strlit("\n");
    let head = "create_pblock "@ + b.name;
    let mid: Seq<Seq<char>> = if b.ranged { seq![resize_line(b)] } else { Seq::empty() };
    let tail = cmd_seq("add_cells_to_pblock "@ + b.name + seq![' '], b.cells);
    lemma_cmd_text("add_cells_to_pblock "@ + b.name + seq![' '], b.cells);
    hnf::lemma_nl_join_append(seq![head] + mid, tail);
    hnf::lemma_nl_join_append(seq![head], mid);
    hnf::lemma_nl_one(head);
    if b.ranged {
        hnf::lemma_nl_one(resize_line(b));
    } else {
        assert(nl_join(mid) == Seq::<char>::empty());
    }
    assert(proj::pblock_text(b) =~= nl_join(pblock_seq(b)));
}

proof fn lemma_pblocks_text(bs: Seq<PblockModel>)
    ensures
        proj::pblocks_text(bs) == nl_join(pblocks_seq(bs)),
    decreases bs.len(),
{
    if bs.len() > 0 {
        lemma_pblocks_text(bs.drop_last());
        lemma_pblock_text(bs.last());
        hnf::lemma_nl_join_append(pblocks_seq(bs.drop_last()), pblock_seq(bs.last()));
    }
}

pub proof fn lemma_prj_text(m: PrjModel)
    requires
        forall|i: int| 0 <= i < m.sdc.len() ==> (#[trigger] m.sdc[i]).len() > 0 && m.sdc[i].last() != '\n',
    ensures
        proj::prj_text(m) == nl_join(prj_lines(m)),
{
    reveal_strlit("\n");
    let a = seq![part_line(m)];
    let b = top_lines(m);
    let c = source_seq(m.sources);
    let d = cmd_seq("read_ip "@, m.ip_packages);
    let e = cmd_seq("read_xdc "@, m.constraint_files);
    let f = m.sdc;
    let g = pblocks_seq(m.pblocks);
    let h = runs_seq(m.runs);
    let k = ckpt_lines(m);
    hnf::lemma_nl_one(part_line(m));
    match m.top {
        Some(t) => hnf::lemma_nl_one("top "@ + t),
        None => {},
    }
    match m.checkpoint {
        Some(x) => hnf::lemma_nl_one("write_checkpoint "@ + x),
        None => {},
    }
    lemma_source_text(m.sources);
    lemma_cmd_text("read_ip "@, m.ip_packages);
    lemma_cmd_text("read_xdc "@, m.constraint_files);
    lemma_sdc_text(m.sdc);
    lemma_pblocks_text(m.pblocks);
    lemma_runs_text(m.runs);
    hnf::lemma_nl_join_append(a, b);
    hnf::lemma_nl_join_append(a + b, c);
    hnf::lemma_nl_join_append(a + b + c, d);
    hnf::lemma_nl_join_append(a + b + c + d, e);
    hnf::lemma_nl_join_append(a + b + c + d + e, f);
    hnf::lemma_nl_join_append(a + b + c + d + e + f, g);
    hnf::lemma_nl_join_append(a + b + c + d + e + f + g, h);
    hnf::lemma_nl_join_append(a + b + c + d + e + f + g + h, k);
    assert(proj::prj_text(m) =~= nl_join(prj_lines(m)));
}

// ---------------------------------------------------------------------------
// Reading the simple lines
// ---------------------------------------------------------------------------

/// The command words the reader tells apart, by length, and the pairs of
/// equal length by a differing character.
pub proof fn lemma_prj_cmds()
    ensures
        "part"@.len() == 4,
        "read_sv"@.len() == 7,
        "read_vhdl"@.len() == 9,
        "read_c"@.len() == 6,
        "read_verilog"@.len() == 12,
        "sv"@.len() == 2,
        "vhdl"@.len() == 4,
        "c"@.len() == 1,
        "read_xdc"@.len() == 8,
        "read_sdc"@.len() == 8,
        "xdc"@.len() == 3,
        "sdc"@.len() == 3,
        "read_ip"@.len() == 7,
        "ip"@.len() == 2,
        "top"@.len() == 3,
        "create_clock"@.len() == 12,
        "set_property"@.len() == 12,
        "create_pblock"@.len() == 13,
        "resize_pblock"@.len() == 13,
        "add_cells_to_pblock"@.len() == 19,
        "create_run"@.len() == 10,
        "launch_runs"@.len() == 11,
        "write_checkpoint"@.len() == 16,
        "read_ip"@ != "read_sv"@,
        "create_clock"@ != "read_verilog"@,
        "resize_pblock"@ != "create_pblock"@,
        "top"@ != "xdc"@,
        "top"@ != "sdc"@,
{
    reveal_strlit("part");
    reveal_strlit("read_sv");
    reveal_strlit("read_vhdl");
    reveal_strlit("read_c");
    reveal_strlit("read_verilog");
    reveal_strlit("sv");
    reveal_strlit("vhdl");
    reveal_strlit("c");
    reveal_strlit("read_xdc");
    reveal_strlit("read_sdc");
    reveal_strlit("xdc");
    reveal_strlit("sdc");
    reveal_strlit("read_ip");
    reveal_strlit("ip");
    reveal_strlit("top");
    reveal_strlit("create_clock");
    reveal_strlit("set_property");
    reveal_strlit("create_pblock");
    reveal_strlit("resize_pblock");
    reveal_strlit("add_cells_to_pblock");
    reveal_strlit("create_run");
    reveal_strlit("launch_runs");
    reveal_strlit("write_checkpoint");
    assert("read_ip"@[5] != "read_sv"@[5]);
    assert("create_clock"@[0] != "read_verilog"@[0]);
    assert("resize_pblock"@[0] != "create_pblock"@[0]);
    assert("top"@[0] != "xdc"@[0]);
    assert("top"@[0] != "sdc"@[0]);
}

/// `kw x`, a command with one argument.
pub proof fn lemma_kw_line(kw: Seq<char>, x: Seq<char>)
    requires
        word(kw),
        word(x),
    ensures
        kw + seq![' '] + x == join_words(seq![kw, x]),
        text::clean_line(kw + seq![' '] + x) == kw + seq![' '] + x,
        text::words(kw + seq![' '] + x) == seq![kw, x],
        spaced(kw + seq![' '] + x),
{
    hnf::lemma_join2(kw, x);
    let ts = seq![kw, x];
    assert forall|i: int| 0 <= i < ts.len() implies word(#[trigger] ts[i]) by {}
    lemma_words_lack(ts);
    lemma_prj_line(ts);
}

proof fn lemma_word_lit(kw: Seq<char>)
    requires
        kw.len() > 0,
        forall|i: int| 0 <= i < kw.len() ==> 'a' <= #[trigger] kw[i] <= 'z' || kw[i] == '_',
    ensures
        word(kw),
{
    assert forall|i: int| 0 <= i < kw.len() implies !text::is_ws(#[trigger] kw[i]) && kw[i] != '#' by {}
}

pub proof fn lemma_part_step(m: PrjModel, part: Seq<char>)
    requires
        word(part),
    ensures
        proj::prj_step(m, text::clean_line("part "@ + part)) == Ok::<PrjModel, Seq<char>>(PrjModel { part, ..m }),
        spaced("part "@ + part),
{
    reveal_strlit("part ");
    reveal_strlit("part");
    lemma_word_lit("part"@);
    assert("part "@ =~= "part"@ + seq![' ']);
    lemma_kw_line("part"@, part);
}

pub proof fn lemma_top_step(m: PrjModel, t: Seq<char>)
    requires
        word(t),
    ensures
        proj::prj_step(m, text::clean_line("top "@ + t)) == Ok::<PrjModel, Seq<char>>(PrjModel { top: Some(t), ..m }),
        spaced("top "@ + t),
{
    reveal_strlit("top ");
    reveal_strlit("top");
    lemma_prj_cmds();
    lemma_word_lit("top"@);
    assert("top "@ =~= "top"@ + seq![' ']);
    lemma_kw_line("top"@, t);
}

pub proof fn lemma_source_step(m: PrjModel, x: Seq<char>)
    requires
        word(x),
    ensures
        proj::prj_step(m, text::clean_line(source_line(x))) == Ok::<PrjModel, Seq<char>>(
            PrjModel { sources: m.sources.push(x), ..m },
        ),
        spaced(source_line(x)),
{
    reveal_strlit("read_sv");
    reveal_strlit("read_vhdl");
    reveal_strlit("read_c");
    lemma_prj_cmds();
    let kw = proj::source_cmd(x);
    lemma_word_lit(kw);
    lemma_kw_line(kw, x);
}

pub proof fn lemma_ip_step(m: PrjModel, x: Seq<char>)
    requires
        word(x),
    ensures
        proj::prj_step(m, text::clean_line("read_ip "@ + x)) == Ok::<PrjModel, Seq<char>>(
            PrjModel { ip_packages: m.ip_packages.push(x), ..m },
        ),
        spaced("read_ip "@ + x),
{
    reveal_strlit("read_ip ");
    reveal_strlit("read_ip");
    lemma_prj_cmds();
    lemma_word_lit("read_ip"@);
    assert("read_ip "@ =~= "read_ip"@ + seq![' ']);
    lemma_kw_line("read_ip"@, x);
}

pub proof fn lemma_xdc_step(m: PrjModel, x: Seq<char>)
    requires
        word(x),
    ensures
        proj::prj_step(m, text::clean_line("read_xdc "@ + x)) == Ok::<PrjModel, Seq<char>>(
            PrjModel { constraint_files: m.constraint_files.push(x), ..m },
        ),
        spaced("read_xdc "@ + x),
{
    reveal_strlit("read_xdc ");
    reveal_strlit("read_xdc");
    lemma_prj_cmds();
    lemma_word_lit("read_xdc"@);
    assert("read_xdc "@ =~= "read_xdc"@ + seq![' ']);
    lemma_kw_line("read_xdc"@, x);
}

pub proof fn lemma_ckpt_step(m: PrjModel, x: Seq<char>)
    requires
        word(x),
        x[0] != '-',
    ensures
        proj::prj_step(m, text::clean_line("write_checkpoint "@ + x)) == Ok::<PrjModel, Seq<char>>(
            PrjModel { checkpoint: Some(x), ..m },
        ),
        spaced("write_checkpoint "@ + x),
{
    reveal_strlit("write_checkpoint ");
    reveal_strlit("write_checkpoint");
    reveal_strlit("-");
    lemma_prj_cmds();
    lemma_word_lit("write_checkpoint"@);
    assert("write_checkpoint "@ =~= "write_checkpoint"@ + seq![' ']);
    lemma_kw_line("write_checkpoint"@, x);
    let t = seq!["write_checkpoint"@, x];
    assert(!text::starts_with(t[1], "-"@)) by {
        if text::starts_with(t[1], "-"@) {
            assert(t[1].subrange(0, 1)[0] == t[1][0]);
        }
    }
    assert(proj::last_plain(t, 2) == Some(x));
}

/// An inline constraint line: words that read back, the first `create_clock`.
pub open spec fn sdc_ready(x: Seq<char>) -> bool {
    &&& hnf::plain(x)
    &&& lacks(x, '#')
    &&& text::words(x).len() > 0
    &&& text::words(x)[0] == "create_clock"@
}

pub proof fn lemma_sdc_step(m: PrjModel, x: Seq<char>)
    requires
        sdc_ready(x),
    ensures
        proj::prj_step(m, text::clean_line(x)) == Ok::<PrjModel, Seq<char>>(PrjModel { sdc: m.sdc.push(x), ..m }),
        spaced(x),
        x.len() > 0,
        x.last() != '\n',
{
    lemma_prj_cmds();
    let ws = text::words(x);
    hnf::lemma_words_tokens(x, 0);
    assert(x == join_words(ws));
    lemma_prj_line(ws);
    hnf::lemma_join_ends(ws);
    assert(hnf::is_token(ws.last()));
    assert(ws.last()[ws.last().len() - 1] == ws.last().last());
}

pub open spec fn all_words(xs: Seq<Seq<char>>) -> bool {
    forall|i: int| 0 <= i < xs.len() ==> word(#[trigger] xs[i])
}

proof fn lemma_all_words_prefix(xs: Seq<Seq<char>>)
    requires
        all_words(xs),
        xs.len() > 0,
    ensures
        all_words(xs.drop_last()),
        word(xs.last()),
{
    assert forall|i: int| 0 <= i < xs.drop_last().len() implies word(#[trigger] xs.drop_last()[i]) by {
        assert(xs.drop_last()[i] == xs[i]);
    }
    assert(xs.last() == xs[xs.len() - 1]);
}

proof fn lemma_spaced_push(a: Seq<Seq<char>>, l: Seq<char>)
    requires
        hnf::all_spaced(a),
        spaced(l),
    ensures
        hnf::all_spaced(a.push(l)),
{
    assert forall|i: int| 0 <= i < a.push(l).len() implies spaced(#[trigger] a.push(l)[i]) by {
        if i < a.len() {
            assert(a.push(l)[i] == a[i]);
        }
    }
}

pub proof fn lemma_sources_fold(m: PrjModel, xs: Seq<Seq<char>>)
    requires
        all_words(xs),
    ensures
        proj::prj_fold(m, source_seq(xs)) == Ok::<PrjModel, Seq<char>>(PrjModel { sources: m.sources + xs, ..m }),
        hnf::all_spaced(source_seq(xs)),
    decreases xs.len(),
{
    if xs.len() == 0 {
        assert(source_seq(xs) =~= Seq::<Seq<char>>::empty());
        assert(m.sources + xs =~= m.sources);
        assert(PrjModel { sources: m.sources, ..m } == m);
    } else {
        lemma_all_words_prefix(xs);
        lemma_sources_fold(m, xs.drop_last());
        let l = source_line(xs.last());
        assert(source_seq(xs) =~= source_seq(xs.drop_last()) + seq![l]);
        lemma_fold_append(m, source_seq(xs.drop_last()), seq![l]);
        let m1 = PrjModel { sources: m.sources + xs.drop_last(), ..m };
        lemma_fold_one(m1, l);
        lemma_source_step(m1, xs.last());
        assert(m1.sources.push(xs.last()) =~= m.sources + xs);
        lemma_spaced_push(source_seq(xs.drop_last()), l);
        assert(source_seq(xs.drop_last()).push(l) =~= source_seq(xs));
    }
}

pub proof fn lemma_ips_fold(m: PrjModel, xs: Seq<Seq<char>>)
    requires
        all_words(xs),
    ensures
        proj::prj_fold(m, cmd_seq("read_ip "@, xs)) == Ok::<PrjModel, Seq<char>>(
            PrjModel { ip_packages: m.ip_packages + xs, ..m },
        ),
        hnf::all_spaced(cmd_seq("read_ip "@, xs)),
    decreases xs.len(),
{
    if xs.len() == 0 {
        assert(cmd_seq("read_ip "@, xs) =~= Seq::<Seq<char>>::empty());
        assert(m.ip_packages + xs =~= m.ip_packages);
        assert(PrjModel { ip_packages: m.ip_packages, ..m } == m);
    } else {
        lemma_all_words_prefix(xs);
        lemma_ips_fold(m, xs.drop_last());
        let l = "read_ip "@ + xs.last();
        assert(cmd_seq("read_ip "@, xs) =~= cmd_seq("read_ip "@, xs.drop_last()) + seq![l]);
        lemma_fold_append(m, cmd_seq("read_ip "@, xs.drop_last()), seq![l]);
        let m1 = PrjModel { ip_packages: m.ip_packages + xs.drop_last(), ..m };
        lemma_fold_one(m1, l);
        lemma_ip_step(m1, xs.last());
        assert(m1.ip_packages.push(xs.last()) =~= m.ip_packages + xs);
        lemma_spaced_push(cmd_seq("read_ip "@, xs.drop_last()), l);
        assert(cmd_seq("read_ip "@, xs.drop_last()).push(l) =~= cmd_seq("read_ip "@, xs));
    }
}

pub proof fn lemma_xdcs_fold(m: PrjModel, xs: Seq<Seq<char>>)
    requires
        all_words(xs),
    ensures
        proj::prj_fold(m, cmd_seq("read_xdc "@, xs)) == Ok::<PrjModel, Seq<char>>(
            PrjModel { constraint_files: m.constraint_files + xs, ..m },
        ),
        hnf::all_spaced(cmd_seq("read_xdc "@, xs)),
    decreases xs.len(),
{
    if xs.len() == 0 {
        assert(cmd_seq("read_xdc "@, xs) =~= Seq::<Seq<char>>::empty());
        assert(m.constraint_files + xs =~= m.constraint_files);
        assert(PrjModel { constraint_files: m.constraint_files, ..m } == m);
    } else {
        lemma_all_words_prefix(xs);
        lemma_xdcs_fold(m, xs.drop_last());
        let l = "read_xdc "@ + xs.last();
        assert(cmd_seq("read_xdc "@, xs) =~= cmd_seq("read_xdc "@, xs.drop_last()) + seq![l]);
        lemma_fold_append(m, cmd_seq("read_xdc "@, xs.drop_last()), seq![l]);
        let m1 = PrjModel { constraint_files: m.constraint_files + xs.drop_last(), ..m };
        lemma_fold_one(m1, l);
        lemma_xdc_step(m1, xs.last());
        assert(m1.constraint_files.push(xs.last()) =~= m.constraint_files + xs);
        lemma_spaced_push(cmd_seq("read_xdc "@, xs.drop_last()), l);
        assert(cmd_seq("read_xdc "@, xs.drop_last()).push(l) =~= cmd_seq("read_xdc "@, xs));
    }
}

pub proof fn lemma_sdcs_fold(m: PrjModel, xs: Seq<Seq<char>>)
    requires
        forall|i: int| 0 <= i < xs.len() ==> sdc_ready(#[trigger] xs[i]),
    ensures
        proj::prj_fold(m, xs) == Ok::<PrjModel, Seq<char>>(PrjModel { sdc: m.sdc + xs, ..m }),
        hnf::all_spaced(xs),
        forall|i: int| 0 <= i < xs.len() ==> (#[trigger] xs[i]).len() > 0 && xs[i].last() != '\n',
    decreases xs.len(),
{
    if xs.len() == 0 {
        assert(m.sdc + xs =~= m.sdc);
        assert(PrjModel { sdc: m.sdc, ..m } == m);
    } else {
        let a = xs.drop_last();
        let l = xs.last();
        assert forall|i: int| 0 <= i < a.len() implies sdc_ready(#[trigger] a[i]) by {
            assert(a[i] == xs[i]);
        }
        lemma_sdcs_fold(m, a);
        assert(xs =~= a + seq![l]);
        lemma_fold_append(m, a, seq![l]);
        let m1 = PrjModel { sdc: m.sdc + a, ..m };
        lemma_fold_one(m1, l);
        assert(sdc_ready(xs[xs.len() - 1]));
        lemma_sdc_step(m1, l);
        assert(m1.sdc.push(l) =~= m.sdc + xs);
        lemma_spaced_push(a, l);
        assert(a.push(l) =~= xs);
        assert forall|i: int| 0 <= i < xs.len() implies (#[trigger] xs[i]).len() > 0 && xs[i].last() != '\n' by {
            if i < a.len() {
                assert(xs[i] == a[i]);
            }
        }
    }
}

// ---------------------------------------------------------------------------
// Pblocks and runs
// ---------------------------------------------------------------------------

/// No bracket character (`{`, `}`, `[`, `]`) in `t`.
pub open spec fn bracket_free(t: Seq<char>) -> bool {
    lacks(t, '{') && lacks(t, '}') && lacks(t, '[') && lacks(t, ']')
}

/// A pblock, run or cell name that reads back: a word without brackets,
/// not one of the helper words the reader skips.
pub open spec fn name_ready(n: Seq<char>) -> bool {
    &&& word(n)
    &&& bracket_free(n)
    &&& !proj::is_helper(n)
}

proof fn lemma_not_brace(c: char)
    requires
        c != '{' && c != '}' && c != '[' && c != ']',
    ensures
        !proj::braces().contains(c),
{
    reveal_strlit("{}[]");
    assert forall|i: int| 0 <= i < proj::braces().len() implies proj::braces()[i] != c by {}
}

proof fn lemma_trim_braces(t: Seq<char>)
    requires
        t.len() > 0,
        t[0] != '{' && t[0] != '}' && t[0] != '[' && t[0] != ']',
        t.last() != '{' && t.last() != '}' && t.last() != '[' && t.last() != ']',
    ensures
        proj::trim_set(t, proj::braces()) == t,
{
    lemma_not_brace(t[0]);
    lemma_not_brace(t.last());
    assert(proj::skip_set_from(t, proj::braces(), 0) == 0);
    assert(t[t.len() - 1] == t.last());
    assert(proj::trim_set_end(t, proj::braces(), t.len() as int) == t.len());
    assert(t.subrange(0, t.len() as int) =~= t);
}

proof fn lemma_name_trim(n: Seq<char>)
    requires
        name_ready(n),
    ensures
        proj::trim_set(n, proj::braces()) == n,
{
    assert(n[0] != '{' && n[0] != '}' && n[0] != '[' && n[0] != ']');
    assert(n[n.len() - 1] != '{' && n[n.len() - 1] != '}' && n[n.len() - 1] != '[' && n[n.len() - 1] != ']');
    lemma_trim_braces(n);
}

proof fn lemma_no_dash(n: Seq<char>)
    requires
        n.len() > 0,
        n[0] != '-',
    ensures
        !text::starts_with(n, "-"@),
        n != "-add"@,
        n != "-strategy"@,
        n != "-strat"@,
{
    reveal_strlit("-");
    reveal_strlit("-add");
    reveal_strlit("-strategy");
    reveal_strlit("-strat");
    if text::starts_with(n, "-"@) {
        assert(n.subrange(0, 1)[0] == n[0]);
    }
    assert("-add"@[0] == '-');
    assert("-strategy"@[0] == '-');
    assert("-strat"@[0] == '-');
}

pub open spec fn pb_at(ps: Seq<PblockModel>, n: Seq<char>) -> bool {
    &&& ps.len() > 0
    &&& ps.last().name == n
    &&& forall|q: int| 0 <= q < ps.len() - 1 ==> (#[trigger] ps[q]).name != n
}

proof fn lemma_pb_index_range(ps: Seq<PblockModel>, n: Seq<char>, j: int)
    requires
        0 <= j,
    ensures
        0 <= proj::pb_index(ps, n, j) <= ps.len(),
        proj::pb_index(ps, n, j) < ps.len() ==> ps[proj::pb_index(ps, n, j)].name == n,
        forall|q: int| j <= q < proj::pb_index(ps, n, j) ==> (#[trigger] ps[q]).name != n,
    decreases ps.len() - j,
{
    if j < ps.len() && ps[j].name != n {
        lemma_pb_index_range(ps, n, j + 1);
    }
}

proof fn lemma_pb_last(ps: Seq<PblockModel>, n: Seq<char>)
    requires
        pb_at(ps, n),
    ensures
        proj::pb_index(ps, n, 0) == ps.len() - 1,
        proj::ensure_pb(ps, n) == ps,
{
    lemma_pb_index_range(ps, n, 0);
    let f = proj::pb_index(ps, n, 0);
    assert(ps[ps.len() - 1].name == n);
    if f < ps.len() - 1 {
        assert(ps[f].name == n);
    }
}

proof fn lemma_pb_absent(ps: Seq<PblockModel>, n: Seq<char>)
    requires
        forall|q: int| 0 <= q < ps.len() ==> (#[trigger] ps[q]).name != n,
    ensures
        proj::pb_index(ps, n, 0) == ps.len(),
        proj::ensure_pb(ps, n) == ps.push(proj::new_pblock(n)),
{
    lemma_pb_index_range(ps, n, 0);
    let f = proj::pb_index(ps, n, 0);
    if f < ps.len() {
        assert(ps[f].name == n);
    }
}

/// `kw a b ...`: a line of words.
proof fn lemma_words_line(ts: Seq<Seq<char>>)
    requires
        ts.len() > 0,
        all_words(ts),
    ensures
        text::clean_line(join_words(ts)) == join_words(ts),
        text::words(join_words(ts)) == ts,
        spaced(join_words(ts)),
{
    lemma_words_lack(ts);
    lemma_prj_line(ts);
}

pub proof fn lemma_create_pblock_step(m: PrjModel, n: Seq<char>)
    requires
        name_ready(n),
        n[0] != '-',
        forall|q: int| 0 <= q < m.pblocks.len() ==> (#[trigger] m.pblocks[q]).name != n,
    ensures
        proj::prj_step(m, text::clean_line("create_pblock "@ + n)) == Ok::<PrjModel, Seq<char>>(
            PrjModel { pblocks: m.pblocks.push(proj::new_pblock(n)), ..m },
        ),
        spaced("create_pblock "@ + n),
{
    reveal_strlit("create_pblock ");
    reveal_strlit("create_pblock");
    lemma_prj_cmds();
    lemma_word_lit("create_pblock"@);
    assert("create_pblock "@ =~= "create_pblock"@ + seq![' ']);
    lemma_kw_line("create_pblock"@, n);
    let t = seq!["create_pblock"@, n];
    lemma_no_dash(n);
    lemma_name_trim(n);
    assert(proj::cp_scan(t, 2, n, None) == (n, None::<Seq<char>>));
    assert(proj::cp_scan(t, 1, Seq::empty(), None) == (n, None::<Seq<char>>));
    lemma_pb_absent(m.pblocks, n);
}

proof fn lemma_range_token(x0: u32, y0: u32) -> (a: Seq<char>)
    ensures
        a == "CLB_X"@ + text::dec(x0 as nat) + seq!['Y'] + text::dec(y0 as nat),
        proj::clb_xy(a) == Some((x0, y0)),
        lacks(a, ':'),
        lacks(a, '#'),
        hnf::ws_free(a),
        a.len() > 0,
        a[0] == 'C',
        text::is_digit(a.last()),
        bracket_free(a),
{
    reveal_strlit("CLB_X");
    reveal_strlit("SLICE_X");
    reveal_strlit("{}[]");
    let dx = text::dec(x0 as nat);
    let dy = text::dec(y0 as nat);
    lemma_dec_digits(x0 as nat);
    lemma_dec_digits(y0 as nat);
    lemma_parse_dec(x0 as nat, 0xffff_ffff);
    lemma_parse_dec(y0 as nat, 0xffff_ffff);
    let a = "CLB_X"@ + dx + seq!['Y'] + dy;
    assert forall|i: int| 0 <= i < a.len() implies {
        &&& (#[trigger] a[i]) != ':'
        &&& a[i] != '#'
        &&& !text::is_ws(a[i])
        &&& a[i] != '{' && a[i] != '}' && a[i] != '[' && a[i] != ']'
    } by {
        if 5 <= i < 5 + dx.len() {
            assert(a[i] == dx[i - 5]);
            assert(text::is_digit(dx[i - 5]));
        } else if i > 5 + dx.len() {
            assert(a[i] == dy[i - 6 - dx.len()]);
            assert(text::is_digit(dy[i - 6 - dx.len()]));
        }
    }
    assert(a.last() == dy.last());
    assert(text::is_digit(dy[dy.len() - 1]));
    // reading it
    assert(all_tokens(seq![a])) by {
        assert(is_token(a));
    }
    hnf::lemma_trim_join(seq![a], Seq::<char>::empty());
    assert(join_words(seq![a]) == a);
    assert(a + Seq::<char>::empty() =~= a);
    lemma_trim_braces(a);
    assert(text::starts_with(a, "CLB_X"@)) by {
        assert(a.subrange(0, 5) =~= "CLB_X"@);
    }
    let r = a.subrange(5, a.len() as int);
    assert(r =~= dx + (seq!['Y'] + dy));
    assert forall|i: int| 0 <= i < dx.len() implies (#[trigger] dx[i]) != 'Y' by {
        assert(text::is_digit(dx[i]));
    }
    hnf::lemma_find_before(dx, 'Y', seq!['Y'] + dy, 0);
    assert(r.subrange(0, dx.len() as int) =~= dx);
    assert(r.subrange(dx.len() as int + 1, r.len() as int) =~= dy);
    a
}

/// The range text of a ranged pblock reads back as its corners.
pub proof fn lemma_range_text(b: PblockModel)
    requires
        b.ranged,
        b.x0 <= b.x1,
        b.y0 <= b.y1,
    ensures
        proj::clb_range(proj::range_text_of(b)) == Some((b.x0, b.y0, b.x1, b.y1)),
        is_token(proj::range_text_of(b)),
        lacks(proj::range_text_of(b), '#'),
        bracket_free(proj::range_text_of(b)),
        proj::range_text_of(b)[0] == 'C',
        text::is_digit(proj::range_text_of(b).last()),
{
    reveal_strlit(":CLB_X");
    reveal_strlit("CLB_X");
    reveal_strlit("{}[]");
    let a = lemma_range_token(b.x0, b.y0);
    let c = lemma_range_token(b.x1, b.y1);
    let r = proj::range_text_of(b);
    assert(r =~= a + (seq![':'] + c));
    assert forall|i: int| 0 <= i < r.len() implies !text::is_ws(#[trigger] r[i]) && r[i] != '{' && r[i] != '}'
        && r[i] != '[' && r[i] != ']' && r[i] != '#' by {
        if i < a.len() {
            assert(r[i] == a[i]);
        } else if i > a.len() {
            assert(r[i] == c[i - a.len() - 1]);
        }
    }
    assert(r.last() == c.last());
    assert(all_tokens(seq![r])) by {
        assert(is_token(r));
    }
    hnf::lemma_trim_join(seq![r], Seq::<char>::empty());
    assert(join_words(seq![r]) == r);
    assert(r + Seq::<char>::empty() =~= r);
    assert(c[c.len() - 1] == c.last());
    lemma_trim_braces(r);
    hnf::lemma_find_before(a, ':', seq![':'] + c, 0);
    assert(r.subrange(0, a.len() as int) =~= a);
    assert(r.subrange(a.len() as int + 1, r.len() as int) =~= c);
}

proof fn lemma_join4(a: Seq<char>, b: Seq<char>, c: Seq<char>, d: Seq<char>)
    ensures
        join_words(seq![a, b, c, d]) == a + seq![' '] + b + seq![' '] + c + seq![' '] + d,
{
    assert(seq![a, b, c, d].drop_last() =~= seq![a, b, c]);
    hnf::lemma_join3(a, b, c);
    assert(seq![a, b, c, d].last() == d);
}

proof fn lemma_not_helper_range(r: Seq<char>)
    requires
        r.len() > 0,
        r[0] == 'C',
    ensures
        !proj::is_helper(r),
{
    reveal_strlit("get_cells");
    reveal_strlit("get_pblocks");
    reveal_strlit("get_runs");
    reveal_strlit("-cells");
    reveal_strlit("-add");
    reveal_strlit("-force");
    assert("get_cells"@[0] != r[0]);
    assert("get_pblocks"@[0] != r[0]);
    assert("get_runs"@[0] != r[0]);
    assert("-cells"@[0] != r[0]);
    assert("-add"@[0] != r[0]);
    assert("-force"@[0] != r[0]);
}

/// A pblock that `format_prj` writes and `load_prj` reads back as itself.
pub open spec fn pblock_ready(b: PblockModel) -> bool {
    &&& name_ready(b.name)
    &&& b.name[0] != '-'
    &&& lacks(b.name, ':')
    &&& (b.ranged ==> b.x0 <= b.x1 && b.y0 <= b.y1)
    &&& (!b.ranged ==> b.x0 == 0 && b.y0 == 0 && b.x1 == 0 && b.y1 == 0)
    &&& forall|i: int| 0 <= i < b.cells.len() ==> name_ready(#[trigger] b.cells[i])
    &&& forall|i: int, j: int| 0 <= i < j < b.cells.len() ==> b.cells[i] != b.cells[j]
}

/// Pblock `b` with only its first `k` cells.
pub open spec fn pb_upto(b: PblockModel, k: int) -> PblockModel {
    PblockModel { cells: b.cells.subrange(0, k), ..b }
}

pub proof fn lemma_resize_step(m: PrjModel, ps: Seq<PblockModel>, b: PblockModel)
    requires
        pblock_ready(b),
        b.ranged,
        m.pblocks == ps.push(proj::new_pblock(b.name)),
        forall|q: int| 0 <= q < ps.len() ==> (#[trigger] ps[q]).name != b.name,
    ensures
        proj::prj_step(m, text::clean_line(resize_line(b))) == Ok::<PrjModel, Seq<char>>(
            PrjModel { pblocks: ps.push(pb_upto(b, 0)), ..m },
        ),
        spaced(resize_line(b)),
{
    reveal_strlit("resize_pblock ");
    reveal_strlit("resize_pblock");
    reveal_strlit(" -add {");
    reveal_strlit("-add");
    reveal_strlit("}");
    reveal_strlit("{}[]");
    lemma_prj_cmds();
    let n = b.name;
    let r = proj::range_text_of(b);
    lemma_range_text(b);
    let bb = seq!['{'] + r + seq!['}'];
    assert forall|i: int| 0 <= i < bb.len() implies !text::is_ws(#[trigger] bb[i]) && bb[i] != '#' by {
        if 0 < i < bb.len() - 1 {
            assert(bb[i] == r[i - 1]);
        }
    }
    assert(word(bb));
    lemma_word_lit("resize_pblock"@);
    assert(word("-add"@)) by {
        assert forall|i: int| 0 <= i < "-add"@.len() implies !text::is_ws(#[trigger] "-add"@[i]) && "-add"@[i] != '#' by {}
    }
    let t = seq!["resize_pblock"@, n, "-add"@, bb];
    lemma_join4("resize_pblock"@, n, "-add"@, bb);
    assert(resize_line(b) =~= join_words(t));
    assert forall|i: int| 0 <= i < t.len() implies word(#[trigger] t[i]) by {}
    lemma_words_line(t);
    // the scan of the arguments
    lemma_no_dash(n);
    lemma_name_trim(n);
    hnf::lemma_find_before(n, ':', Seq::<char>::empty(), 0);
    assert(n + Seq::<char>::empty() =~= n);
    assert(!crate::hw::has_char(n, ':'));
    assert(bb[0] == '{');
    assert(bb[1] == r[0]);
    assert(bb[bb.len() - 2] == r.last());
    lemma_not_brace(r[0]);
    lemma_not_brace(r.last());
    assert(proj::braces().contains('{')) by {
        assert(proj::braces()[0] == '{');
    }
    assert(proj::braces().contains('}')) by {
        assert(proj::braces()[1] == '}');
    }
    assert(proj::skip_set_from(bb, proj::braces(), 1) == 1);
    assert(proj::skip_set_from(bb, proj::braces(), 0) == 1);
    assert(proj::trim_set_end(bb, proj::braces(), bb.len() - 1) == bb.len() - 1);
    assert(proj::trim_set_end(bb, proj::braces(), bb.len() as int) == bb.len() - 1);
    assert(bb.subrange(1, bb.len() - 1) =~= r);
    assert(proj::trim_set(bb, proj::braces()) == r);
    assert(bb != "-add"@) by {
        assert(bb[0] != "-add"@[0]);
    }
    lemma_not_helper_range(r);
    assert(proj::rp_scan(t, 4, n, r) == (n, r));
    assert(proj::rp_scan(t, 3, n, Seq::empty()) == (n, r));
    assert(proj::rp_scan(t, 2, n, Seq::empty()) == (n, r));
    assert(proj::rp_scan(t, 1, Seq::empty(), Seq::empty()) == (n, r));
    let qs = ps.push(proj::new_pblock(n));
    lemma_pb_last(qs, n);
    assert(b.cells.subrange(0, 0) =~= Seq::<Seq<char>>::empty());
    assert((PblockModel { x0: b.x0, y0: b.y0, x1: b.x1, y1: b.y1, ranged: true, ..qs[ps.len() as int] }) =~= pb_upto(b, 0));
    assert(qs.update(ps.len() as int, PblockModel {
        x0: b.x0,
        y0: b.y0,
        x1: b.x1,
        y1: b.y1,
        ranged: true,
        ..qs[ps.len() as int]
    }) =~= ps.push(pb_upto(b, 0)));
}

pub proof fn lemma_add_cell_step(m: PrjModel, ps: Seq<PblockModel>, b: PblockModel, k: int)
    requires
        pblock_ready(b),
        0 <= k < b.cells.len(),
        m.pblocks == ps.push(pb_upto(b, k)),
        forall|q: int| 0 <= q < ps.len() ==> (#[trigger] ps[q]).name != b.name,
    ensures
        proj::prj_step(m, text::clean_line("add_cells_to_pblock "@ + b.name + seq![' '] + b.cells[k])) == Ok::<
            PrjModel,
            Seq<char>,
        >(PrjModel { pblocks: ps.push(pb_upto(b, k + 1)), ..m }),
        spaced("add_cells_to_pblock "@ + b.name + seq![' '] + b.cells[k]),
{
    reveal_strlit("add_cells_to_pblock ");
    reveal_strlit("add_cells_to_pblock");
    lemma_prj_cmds();
    let n = b.name;
    let c = b.cells[k];
    assert(name_ready(c));
    lemma_word_lit("add_cells_to_pblock"@);
    let t = seq!["add_cells_to_pblock"@, n, c];
    hnf::lemma_join3("add_cells_to_pblock"@, n, c);
    assert("add_cells_to_pblock "@ + n + seq![' '] + c =~= join_words(t));
    assert forall|i: int| 0 <= i < t.len() implies word(#[trigger] t[i]) by {}
    lemma_words_line(t);
    lemma_name_trim(n);
    lemma_name_trim(c);
    assert(proj::cell_toks(t, 3) == Seq::<Seq<char>>::empty());
    assert(proj::cell_toks(t, 2) =~= seq![c]);
    assert(proj::cell_toks(t, 1) =~= seq![n, c]);
    let qs = ps.push(pb_upto(b, k));
    lemma_pb_last(qs, n);
    let cells = b.cells.subrange(0, k);
    assert(!cells.contains(c)) by {
        if cells.contains(c) {
            let j = choose|j: int| 0 <= j < cells.len() && cells[j] == c;
            assert(b.cells[j] == b.cells[k]);
        }
    }
    assert(seq![n, c].subrange(1, 2) =~= seq![c]);
    assert(seq![c].drop_first() =~= Seq::<Seq<char>>::empty());
    assert(seq![c][0] == c);
    assert(proj::add_unique(cells.push(c), Seq::<Seq<char>>::empty()) == cells.push(c));
    assert(proj::add_unique(cells, seq![c]) == cells.push(c));
    assert(cells.push(c) =~= b.cells.subrange(0, k + 1));
    assert(qs.update(ps.len() as int, PblockModel { cells: cells.push(c), ..qs[ps.len() as int] }) =~= ps.push(
        pb_upto(b, k + 1),
    ));
}

proof fn lemma_cells_fold(m: PrjModel, ps: Seq<PblockModel>, b: PblockModel, k: int)
    requires
        pblock_ready(b),
        0 <= k <= b.cells.len(),
        forall|q: int| 0 <= q < ps.len() ==> (#[trigger] ps[q]).name != b.name,
    ensures
        ({
            let head = "add_cells_to_pblock "@ + b.name + seq![' '];
            &&& proj::prj_fold(
                PrjModel { pblocks: ps.push(pb_upto(b, 0)), ..m },
                cmd_seq(head, b.cells.subrange(0, k)),
            ) == Ok::<PrjModel, Seq<char>>(PrjModel { pblocks: ps.push(pb_upto(b, k)), ..m })
            &&& hnf::all_spaced(cmd_seq(head, b.cells.subrange(0, k)))
        }),
    decreases k,
{
    let head = "add_cells_to_pblock "@ + b.name + seq![' '];
    let m0 = PrjModel { pblocks: ps.push(pb_upto(b, 0)), ..m };
    if k == 0 {
        assert(cmd_seq(head, b.cells.subrange(0, 0)) =~= Seq::<Seq<char>>::empty());
    } else {
        lemma_cells_fold(m, ps, b, k - 1);
        let l = head + b.cells[k - 1];
        assert(cmd_seq(head, b.cells.subrange(0, k)) =~= cmd_seq(head, b.cells.subrange(0, k - 1)) + seq![l]);
        lemma_fold_append(m0, cmd_seq(head, b.cells.subrange(0, k - 1)), seq![l]);
        let m1 = PrjModel { pblocks: ps.push(pb_upto(b, k - 1)), ..m };
        lemma_fold_one(m1, l);
        lemma_add_cell_step(m1, ps, b, k - 1);
        assert(PrjModel { pblocks: ps.push(pb_upto(b, k)), ..m1 } == PrjModel { pblocks: ps.push(pb_upto(b, k)), ..m });
        lemma_spaced_push(cmd_seq(head, b.cells.subrange(0, k - 1)), l);
        assert(cmd_seq(head, b.cells.subrange(0, k - 1)).push(l) =~= cmd_seq(head, b.cells.subrange(0, k)));
    }
}

pub proof fn lemma_pblock_fold(m: PrjModel, b: PblockModel)
    requires
        pblock_ready(b),
        forall|q: int| 0 <= q < m.pblocks.len() ==> (#[trigger] m.pblocks[q]).name != b.name,
    ensures
        proj::prj_fold(m, pblock_seq(b)) == Ok::<PrjModel, Seq<char>>(PrjModel { pblocks: m.pblocks.push(b), ..m }),
        hnf::all_spaced(pblock_seq(b)),
{
    let ps = m.pblocks;
    let n = b.name;
    let first = seq!["create_pblock "@ + n];
    let mid: Seq<Seq<char>> = if b.ranged { seq![resize_line(b)] } else { Seq::empty() };
    let head = "add_cells_to_pblock "@ + n + seq![' '];
    let tail = cmd_seq(head, b.cells);
    lemma_fold_append(m, first + mid, tail);
    lemma_fold_append(m, first, mid);
    lemma_fold_one(m, "create_pblock "@ + n);
    lemma_create_pblock_step(m, n);
    let m1 = PrjModel { pblocks: ps.push(proj::new_pblock(n)), ..m };
    let m2 = PrjModel { pblocks: ps.push(pb_upto(b, 0)), ..m };
    assert(b.cells.subrange(0, 0) =~= Seq::<Seq<char>>::empty());
    if b.ranged {
        lemma_fold_one(m1, resize_line(b));
        lemma_resize_step(m1, ps, b);
        assert(PrjModel { pblocks: ps.push(pb_upto(b, 0)), ..m1 } == m2);
    } else {
        assert(pb_upto(b, 0) =~= proj::new_pblock(n));
        assert(mid =~= Seq::<Seq<char>>::empty());
        assert(proj::prj_fold(m1, mid) == Ok::<PrjModel, Seq<char>>(m1));
    }
    lemma_cells_fold(m, ps, b, b.cells.len() as int);
    assert(b.cells.subrange(0, b.cells.len() as int) =~= b.cells);
    assert(pb_upto(b, b.cells.len() as int) =~= b);
    // the lines are spaced
    assert(spaced("create_pblock "@ + n));
    assert(hnf::all_spaced(first));
    if b.ranged {
        assert(hnf::all_spaced(mid));
    }
    hnf::lemma_spaced_append(first, mid);
    hnf::lemma_spaced_append(first + mid, tail);
}

pub proof fn lemma_pblocks_fold(m: PrjModel, bs: Seq<PblockModel>)
    requires
        m.pblocks.len() == 0,
        forall|i: int| 0 <= i < bs.len() ==> pblock_ready(#[trigger] bs[i]),
        forall|i: int, j: int| 0 <= i < j < bs.len() ==> bs[i].name != bs[j].name,
    ensures
        proj::prj_fold(m, pblocks_seq(bs)) == Ok::<PrjModel, Seq<char>>(PrjModel { pblocks: bs, ..m }),
        hnf::all_spaced(pblocks_seq(bs)),
    decreases bs.len(),
{
    if bs.len() == 0 {
        assert(m.pblocks =~= bs);
        assert(PrjModel { pblocks: m.pblocks, ..m } == m);
    } else {
        let a = bs.drop_last();
        let b = bs.last();
        assert forall|i: int| 0 <= i < a.len() implies pblock_ready(#[trigger] a[i]) by {
            assert(a[i] == bs[i]);
        }
        assert forall|i: int, j: int| 0 <= i < j < a.len() implies a[i].name != a[j].name by {
            assert(a[i] == bs[i]);
            assert(a[j] == bs[j]);
        }
        lemma_pblocks_fold(m, a);
        lemma_fold_append(m, pblocks_seq(a), pblock_seq(b));
        let m1 = PrjModel { pblocks: a, ..m };
        assert(pblock_ready(bs[bs.len() - 1]));
        assert forall|q: int| 0 <= q < m1.pblocks.len() implies (#[trigger] m1.pblocks[q]).name != b.name by {
            assert(a[q] == bs[q]);
        }
        lemma_pblock_fold(m1, b);
        assert(a.push(b) =~= bs);
        hnf::lemma_spaced_append(pblocks_seq(a), pblock_seq(b));
    }
}

/// A run that reads back: a name as for pblocks, a non-empty strategy word.
pub open spec fn run_ready(r: (Seq<char>, Seq<char>)) -> bool {
    &&& name_ready(r.0)
    &&& r.0[0] != '-'
    &&& word(r.1)
}

proof fn lemma_run_index_absent(rs: Seq<(Seq<char>, Seq<char>)>, n: Seq<char>, j: int)
    requires
        0 <= j <= rs.len(),
        forall|q: int| 0 <= q < rs.len() ==> (#[trigger] rs[q]).0 != n,
    ensures
        proj::run_index(rs, n, j) == rs.len(),
    decreases rs.len() - j,
{
    if j < rs.len() {
        lemma_run_index_absent(rs, n, j + 1);
    }
}

pub proof fn lemma_run_step(m: PrjModel, r: (Seq<char>, Seq<char>))
    requires
        run_ready(r),
        forall|q: int| 0 <= q < m.runs.len() ==> (#[trigger] m.runs[q]).0 != r.0,
    ensures
        proj::prj_step(m, text::clean_line(run_line(r))) == Ok::<PrjModel, Seq<char>>(
            PrjModel { runs: m.runs.push(r), ..m },
        ),
        spaced(run_line(r)),
{
    reveal_strlit("create_run ");
    reveal_strlit("create_run");
    reveal_strlit(" -strategy ");
    reveal_strlit("-strategy");
    reveal_strlit("-strat");
    reveal_strlit("Default");
    lemma_prj_cmds();
    let n = r.0;
    let st = r.1;
    lemma_word_lit("create_run"@);
    assert(word("-strategy"@)) by {
        assert forall|i: int| 0 <= i < "-strategy"@.len() implies !text::is_ws(#[trigger] "-strategy"@[i]) && "-strategy"@[i]
            != '#' by {}
    }
    let t = seq!["create_run"@, n, "-strategy"@, st];
    lemma_join4("create_run"@, n, "-strategy"@, st);
    assert(run_line(r) =~= join_words(t));
    assert forall|i: int| 0 <= i < t.len() implies word(#[trigger] t[i]) by {}
    lemma_words_line(t);
    lemma_no_dash(n);
    lemma_name_trim(n);
    assert(proj::cr_scan(t, 4, n, st) == (n, st));
    assert(proj::cr_scan(t, 2, n, "Default"@) == (n, st));
    assert(proj::cr_scan(t, 1, Seq::empty(), "Default"@) == (n, st));
    lemma_run_index_absent(m.runs, n, 0);
}

pub proof fn lemma_runs_fold(m: PrjModel, rs: Seq<(Seq<char>, Seq<char>)>)
    requires
        m.runs.len() == 0,
        forall|i: int| 0 <= i < rs.len() ==> run_ready(#[trigger] rs[i]),
        forall|i: int, j: int| 0 <= i < j < rs.len() ==> rs[i].0 != rs[j].0,
    ensures
        proj::prj_fold(m, runs_seq(rs)) == Ok::<PrjModel, Seq<char>>(PrjModel { runs: rs, ..m }),
        hnf::all_spaced(runs_seq(rs)),
    decreases rs.len(),
{
    if rs.len() == 0 {
        assert(runs_seq(rs) =~= Seq::<Seq<char>>::empty());
        assert(m.runs =~= rs);
        assert(PrjModel { runs: m.runs, ..m } == m);
    } else {
        let a = rs.drop_last();
        let r = rs.last();
        assert forall|i: int| 0 <= i < a.len() implies run_ready(#[trigger] a[i]) by {
            assert(a[i] == rs[i]);
        }
        assert forall|i: int, j: int| 0 <= i < j < a.len() implies a[i].0 != a[j].0 by {
            assert(a[i] == rs[i]);
            assert(a[j] == rs[j]);
        }
        lemma_runs_fold(m, a);
        let l = run_line(r);
        assert(runs_seq(rs) =~= runs_seq(a) + seq![l]);
        lemma_fold_append(m, runs_seq(a), seq![l]);
        let m1 = PrjModel { runs: a, ..m };
        lemma_fold_one(m1, l);
        assert(run_ready(rs[rs.len() - 1]));
        assert forall|q: int| 0 <= q < m1.runs.len() implies (#[trigger] m1.runs[q]).0 != r.0 by {
            assert(a[q] == rs[q]);
        }
        lemma_run_step(m1, r);
        assert(a.push(r) =~= rs);
        lemma_spaced_push(runs_seq(a), l);
        assert(runs_seq(a).push(l) =~= runs_seq(rs));
    }
}

// ---------------------------------------------------------------------------
// The round trip
// ---------------------------------------------------------------------------

/// A project whose `.prj` text reads back as itself: the part, top, source,
/// IP and constraint paths and the checkpoint are words without `#` (the
/// checkpoint not starting with `-`); inline constraints are `create_clock`
/// lines of single-spaced words without `#`; pblocks and runs have distinct
/// names that are words without brackets or a leading `-`, not one of the
/// helper words (a pblock name also without `:`); a ranged pblock has its
/// corners in order and an unranged one all corners zero; pblock cells are
/// distinct words without brackets; every run names a strategy; and there is
/// a source or an IP package.
pub open spec fn prj_ready(m: PrjModel) -> bool {
    &&& word(m.part)
    &&& (m.top matches Some(t) ==> word(t))
    &&& all_words(m.sources)
    &&& all_words(m.ip_packages)
    &&& all_words(m.constraint_files)
    &&& forall|i: int| 0 <= i < m.sdc.len() ==> sdc_ready(#[trigger] m.sdc[i])
    &&& forall|i: int| 0 <= i < m.pblocks.len() ==> pblock_ready(#[trigger] m.pblocks[i])
    &&& forall|i: int, j: int| 0 <= i < j < m.pblocks.len() ==> m.pblocks[i].name != m.pblocks[j].name
    &&& forall|i: int| 0 <= i < m.runs.len() ==> run_ready(#[trigger] m.runs[i])
    &&& forall|i: int, j: int| 0 <= i < j < m.runs.len() ==> m.runs[i].0 != m.runs[j].0
    &&& (m.checkpoint matches Some(c) ==> word(c) && c[0] != '-')
    &&& (m.sources.len() > 0 || m.ip_packages.len() > 0)
}

/// Writing a project as `.prj` text and reading it back gives the same
/// project, except the seven pin-property tables, which the text does not
/// carry and which come back empty.
pub proof fn prj_round_trip(m: PrjModel)
    requires
        prj_ready(m),
    ensures
        proj::prj_result(proj::prj_text(m)) == Ok::<PrjModel, Seq<char>>(PrjModel { props: proj::prj_init().props, ..m }),
{
    let m0 = proj::prj_init();
    let a = seq![part_line(m)];
    let b = top_lines(m);
    let c = source_seq(m.sources);
    let d = cmd_seq("read_ip "@, m.ip_packages);
    let e = cmd_seq("read_xdc "@, m.constraint_files);
    let f = m.sdc;
    let g = pblocks_seq(m.pblocks);
    let h = runs_seq(m.runs);
    let k = ckpt_lines(m);
    // part
    assert(part_line(m) == "part "@ + m.part);
    lemma_fold_one(m0, part_line(m));
    lemma_part_step(m0, m.part);
    let m1 = PrjModel { part: m.part, ..m0 };
    // top
    let m2 = PrjModel { top: m.top, ..m1 };
    match m.top {
        Some(t) => {
            lemma_fold_one(m1, "top "@ + t);
            lemma_top_step(m1, t);
        },
        None => {
            assert(proj::prj_fold(m1, b) == Ok::<PrjModel, Seq<char>>(m1));
            assert(m2 == m1);
        },
    }
    // paths and inline constraints
    lemma_sources_fold(m2, m.sources);
    assert(m2.sources + m.sources =~= m.sources);
    let m3 = PrjModel { sources: m.sources, ..m2 };
    lemma_ips_fold(m3, m.ip_packages);
    assert(m3.ip_packages + m.ip_packages =~= m.ip_packages);
    let m4 = PrjModel { ip_packages: m.ip_packages, ..m3 };
    lemma_xdcs_fold(m4, m.constraint_files);
    assert(m4.constraint_files + m.constraint_files =~= m.constraint_files);
    let m5 = PrjModel { constraint_files: m.constraint_files, ..m4 };
    lemma_sdcs_fold(m5, m.sdc);
    assert(m5.sdc + m.sdc =~= m.sdc);
    let m6 = PrjModel { sdc: m.sdc, ..m5 };
    // pblocks and runs
    lemma_pblocks_fold(m6, m.pblocks);
    let m7 = PrjModel { pblocks: m.pblocks, ..m6 };
    lemma_runs_fold(m7, m.runs);
    let m8 = PrjModel { runs: m.runs, ..m7 };
    // checkpoint
    let m9 = PrjModel { checkpoint: m.checkpoint, ..m8 };
    match m.checkpoint {
        Some(x) => {
            lemma_fold_one(m8, "write_checkpoint "@ + x);
            lemma_ckpt_step(m8, x);
        },
        None => {
            assert(proj::prj_fold(m8, k) == Ok::<PrjModel, Seq<char>>(m8));
            assert(m9 == m8);
        },
    }
    assert(m9 == PrjModel { props: proj::prj_init().props, ..m });
    // the whole text
    lemma_fold_append(m0, a, b);
    lemma_fold_append(m0, a + b, c);
    lemma_fold_append(m0, a + b + c, d);
    lemma_fold_append(m0, a + b + c + d, e);
    lemma_fold_append(m0, a + b + c + d + e, f);
    lemma_fold_append(m0, a + b + c + d + e + f, g);
    lemma_fold_append(m0, a + b + c + d + e + f + g, h);
    lemma_fold_append(m0, a + b + c + d + e + f + g + h, k);
    assert(prj_lines(m) == a + b + c + d + e + f + g + h + k);
    // the lines of the text
    lemma_prj_text(m);
    assert(hnf::all_spaced(a));
    assert(hnf::all_spaced(b));
    assert(hnf::all_spaced(k));
    hnf::lemma_spaced_append(a, b);
    hnf::lemma_spaced_append(a + b, c);
    hnf::lemma_spaced_append(a + b + c, d);
    hnf::lemma_spaced_append(a + b + c + d, e);
    hnf::lemma_spaced_append(a + b + c + d + e, f);
    hnf::lemma_spaced_append(a + b + c + d + e + f, g);
    hnf::lemma_spaced_append(a + b + c + d + e + f + g, h);
    hnf::lemma_spaced_append(a + b + c + d + e + f + g + h, k);
    hnf::lemma_lines_nl_join(prj_lines(m));
}
} // verus!
