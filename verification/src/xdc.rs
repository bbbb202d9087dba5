//! XDC / SDC command lines: the line structure and the clock and false-path
//! commands, with numbers in ns already scaled to ps by the caller.

use vstd::prelude::*;
use crate::text;
use crate::ir::{join_words, join_from};
use crate::sta::{CaseAnalysis, Clock, ClockLatency, ClockSense, DataCheck, InputJitter, MaxTimeBorrow, is_name_char_exec, ClockUncertainty, DisableTiming, MaxDelay, MinDelay, MulticyclePath, clock_index, sat_u64, opt_view, create_generated_clock, create_clock, is_primary_clock, tcl_name, tcl_name_of};

verus! {

// ---------------------------------------------------------------------------
// Command lines
// ---------------------------------------------------------------------------

/// The command lines of `ls`: each line cut at `#` and trimmed, empty ones left out.
pub open spec fn kept_lines(ls: Seq<Seq<char>>) -> Seq<Seq<char>>
    decreases ls.len(),
{
    if ls.len() == 0 {
        Seq::empty()
    } else {
        let rest = kept_lines(ls.drop_last());
        let l = text::clean_line(ls.last());
        if l.len() == 0 { rest } else { rest.push(l) }
    }
}

/// The command lines of an XDC / SDC text.
pub open spec fn xdc_lines(t: Seq<char>) -> Seq<Seq<char>> {
    kept_lines(text::lines(t))
}

/// The command lines of `text`, in order.
pub fn xdc_command_lines(t: &str) -> (r: Vec<Vec<char>>)
    ensures
        r@.len() == xdc_lines(t@).len(),
        forall|k: int| 0 <= k < r@.len() ==> (#[trigger] r@[k])@ == xdc_lines(t@)[k],
{
    let v = text::chars_of(t);
    let ls = text::split_lines(&v);
    let ghost lv = text::lines(t@);
    let mut r: Vec<Vec<char>> = Vec::new();
    let mut i: usize = 0;
    while i < ls.len()
        invariant
            i <= ls@.len(),
            ls@.len() == lv.len(),
            lv == text::lines(t@),
            forall|k: int| 0 <= k < ls@.len() ==> (#[trigger] ls@[k])@ == lv[k],
            r@.len() == kept_lines(lv.subrange(0, i as int)).len(),
            forall|k: int| 0 <= k < r@.len() ==> (#[trigger] r@[k])@ == kept_lines(lv.subrange(0, i as int))[k],
        decreases ls@.len() - i,
    {
        let l = text::clean(&ls[i]);
        proof {
            assert(lv.subrange(0, i + 1).drop_last() =~= lv.subrange(0, i as int));
            assert(lv.subrange(0, i + 1).last() == lv[i as int]);
        }
        if l.len() > 0 {
            r.push(l);
        }
        i = i + 1;
    }
    assert(lv.subrange(0, lv.len() as int) =~= lv);
    r
}

// ---------------------------------------------------------------------------
// Numbers
// ---------------------------------------------------------------------------

/// The value in ps (or thousandths) the caller gives for the numeric word `w`:
/// the first entry for `w`; a word without an entry is not a number.
pub open spec fn number_of(nums: Seq<(String, i64)>, w: Seq<char>) -> Option<i64>
    decreases nums.len(),
{
    if nums.len() == 0 {
        None
    } else if nums[0].0@ == w {
        Some(nums[0].1)
    } else {
        number_of(nums.drop_first(), w)
    }
}

fn number_exec(nums: &Vec<(String, i64)>, w: &Vec<char>) -> (r: Option<i64>)
    ensures
        r == number_of(nums@, w@),
{
    let mut i: usize = 0;
    assert(nums@.subrange(0, nums@.len() as int) =~= nums@);
    while i < nums.len()
        invariant
            i <= nums@.len(),
            number_of(nums@, w@) == number_of(nums@.subrange(i as int, nums@.len() as int), w@),
        decreases nums@.len() - i,
    {
        assert(nums@.subrange(i as int, nums@.len() as int).drop_first() =~= nums@.subrange(i + 1, nums@.len() as int));
        let s = text::chars_of(nums[i].0.as_str());
        if text::eq_chars(&s, w) {
            return Some(nums[i].1);
        }
        i = i + 1;
    }
    None
}

fn word_is(w: &Vec<char>, s: &str) -> (r: bool)
    ensures
        r == (w@ == s@),
{
    text::eq_str(w, s)
}

/// The words of the command lines' tokens as sequences.
pub open spec fn word_views(t: Seq<Vec<char>>) -> Seq<Seq<char>> {
    t.map_values(|x: Vec<char>| x@)
}

// ---------------------------------------------------------------------------
// create_clock
// ---------------------------------------------------------------------------

/// The options of `create_clock` read from token `i` on: the last `-period`
/// (its value, or none when the next word is no number), the last `-name`
/// (`clk` when nothing follows it), and the source port: the first
/// `get_ports` name in the rest of the line, read at each other token.
pub open spec fn clock_scan(t: Seq<Seq<char>>, nums: Seq<(String, i64)>, i: int, period: Option<i64>, name: Seq<char>, src: Seq<char>) -> (Option<i64>, Seq<char>, Seq<char>)
    decreases t.len() + 1 - i,
{
    if i < 1 || i >= t.len() {
        (period, name, src)
    } else if t[i] == "-period"@ {
        clock_scan(t, nums, i + 2, if i + 1 < t.len() { number_of(nums, t[i + 1]) } else { None }, name, src)
    } else if t[i] == "-name"@ {
        clock_scan(t, nums, i + 2, period, if i + 1 < t.len() { t[i + 1] } else { "clk"@ }, src)
    } else {
        let s2 = match tcl_name_of(join_words(t.subrange(i, t.len() as int)), "get_ports"@) {
            Some(n) => n,
            None => src,
        };
        clock_scan(t, nums, i + 1, period, name, s2)
    }
}

/// A period in ps as `create_clock` takes it: negative values read as 0, and
/// at least 1.
pub open spec fn clock_period(v: i64) -> u64 {
    if v < 1 { 1 } else { v as u64 }
}

/// `create_clock` on the tokens `t` of `line`: the clock named by `-name`
/// (else after its source port, `clk` by default) with the `-period`, or the
/// error for a missing period.
pub open spec fn create_clock_done(t: Seq<Seq<char>>, line: Seq<char>, nums: Seq<(String, i64)>, before: Seq<Clock>, after: Seq<Clock>, r: Result<(), String>) -> bool {
    let (p, nm, src) = clock_scan(t, nums, 1, None, Seq::empty(), "clk"@);
    match p {
        None => r matches Err(m) && m@ == "create_clock missing -period: "@ + line && after == before,
        Some(v) => {
            &&& r is Ok
            &&& after.len() == before.len() + 1
            &&& after.subrange(0, before.len() as int) == before
            &&& is_primary_clock(after.last(), if nm.len() == 0 { src } else { nm }, clock_period(v), src)
        },
    }
}

/// `create_clock`: see [`create_clock_done`].
pub fn xdc_create_clock(clocks: &mut Vec<Clock>, line: &Vec<char>, t: &Vec<Vec<char>>, nums: &Vec<(String, i64)>) -> (r: Result<(), String>)
    ensures
        create_clock_done(word_views(t@), line@, nums@, old(clocks)@, final(clocks)@, r),
{
    let ghost tv = word_views(t@);
    let mut period: Option<i64> = None;
    let mut name: Vec<char> = Vec::new();
    let mut source: Vec<char> = text::chars_of("clk");
    let mut i: usize = 1;
    while i < t.len()
        invariant
            tv == word_views(t@),
            1 <= i,
            clock_scan(tv, nums@, 1, None, Seq::empty(), "clk"@) == clock_scan(tv, nums@, i as int, period, name@, source@),
        decreases t@.len() + 1 - i,
    {
        assert(tv[i as int] == t@[i as int]@);
        let ghost (gp, gn, gs, gi) = (period, name@, source@, i as int);
        assert(tv.len() == t@.len());
        if word_is(&t[i], "-period") {
            period = if i + 1 < t.len() {
                assert(tv[i + 1] == t@[i + 1]@);
                number_exec(nums, &t[i + 1])
            } else {
                None
            };
            i = if i + 1 < t.len() { i + 2 } else { t.len() };
            assert(clock_scan(tv, nums@, gi, gp, gn, gs) == clock_scan(tv, nums@, gi + 2, period, gn, gs));
            assert(clock_scan(tv, nums@, gi + 2, period, gn, gs) == clock_scan(tv, nums@, i as int, period, gn, gs));
        } else if word_is(&t[i], "-name") {
            if i + 1 < t.len() {
                assert(tv[i + 1] == t@[i + 1]@);
                name = text::slice(&t[i + 1], 0, t[i + 1].len());
                assert(name@ =~= tv[i + 1]);
            } else {
                name = text::chars_of("clk");
            }
            i = if i + 1 < t.len() { i + 2 } else { t.len() };
            assert(clock_scan(tv, nums@, gi, gp, gn, gs) == clock_scan(tv, nums@, gi + 2, gp, name@, gs));
            assert(clock_scan(tv, nums@, gi + 2, gp, name@, gs) == clock_scan(tv, nums@, i as int, gp, name@, gs));
        } else {
            let joined = join_from(t, i);
            assert(tv.subrange(i as int, tv.len() as int) =~= t@.map_values(|x: Vec<char>| x@).subrange(i as int, t@.len() as int));
            match tcl_name(&joined, "get_ports") {
                Some(n) => {
                    source = n;
                },
                None => {},
            }
            i = i + 1;
            assert(clock_scan(tv, nums@, gi, gp, gn, gs) == clock_scan(tv, nums@, i as int, gp, gn, source@));
        }
    }
    match period {
        None => {
            let mut e = text::chars_of("create_clock missing -period: ");
            text::push_chars(&mut e, line);
            Err(text::string_of(e.as_slice()))
        },
        Some(v) => {
            let ps: u64 = if v < 1 { 1 } else { v as u64 };
            if name.len() == 0 {
                name = text::slice(&source, 0, source.len());
                assert(name@ =~= source@);
            }
            let nm = text::string_of(name.as_slice());
            let sc = text::string_of(source.as_slice());
            create_clock(clocks, nm.as_str(), ps, sc.as_str());
            Ok(())
        },
    }
}

// ---------------------------------------------------------------------------
// set_false_path
// ---------------------------------------------------------------------------

/// The false path a `set_false_path` line names: the first `get_ports`,
/// `get_pins` or `get_cells` name, else the whole command.
pub open spec fn false_path_of(t: Seq<Seq<char>>) -> Seq<char> {
    let j = join_words(t);
    match tcl_name_of(j, "get_ports"@) {
        Some(n) => n,
        None => match tcl_name_of(j, "get_pins"@) {
            Some(n) => n,
            None => match tcl_name_of(j, "get_cells"@) {
                Some(n) => n,
                None => j,
            },
        },
    }
}

/// `set_false_path`: appends the path it names.
pub fn xdc_false_path(paths: &mut Vec<String>, t: &Vec<Vec<char>>)
    ensures
        final(paths)@.len() == old(paths)@.len() + 1,
        final(paths)@.subrange(0, old(paths)@.len() as int) == old(paths)@,
        final(paths)@.last()@ == false_path_of(word_views(t@)),
{
    let joined = join_from(t, 0);
    assert(word_views(t@) =~= t@.map_values(|x: Vec<char>| x@).subrange(0, t@.len() as int));
    let n = match tcl_name(&joined, "get_ports") {
        Some(n) => n,
        None => match tcl_name(&joined, "get_pins") {
            Some(n) => n,
            None => match tcl_name(&joined, "get_cells") {
                Some(n) => n,
                None => joined,
            },
        },
    };
    let ghost before = paths@;
    paths.push(text::string_of(n.as_slice()));
    assert(paths@.subrange(0, before.len() as int) =~= before);
}

// ---------------------------------------------------------------------------
// SDC clocks
// ---------------------------------------------------------------------------

/// The clocks an SDC read adds: `found` is appended, and the SDC is refused
/// when the list is still empty.
pub fn sdc_take_clocks(clocks: &mut Vec<Clock>, found: Vec<Clock>) -> (r: Result<(), String>)
    ensures
        final(clocks)@ == old(clocks)@ + found@,
        r is Err <==> final(clocks)@.len() == 0,
        r matches Err(m) ==> m@ == "SDC contained no create_clock"@,
{
    let mut found = found;
    let ghost want = old(clocks)@ + found@;
    let ghost f0 = found@;
    let mut rev: Vec<Clock> = Vec::new();
    while found.len() > 0
        invariant
            rev@.len() + found@.len() == f0.len(),
            forall|k: int| 0 <= k < found@.len() ==> found@[k] == f0[k],
            forall|k: int| 0 <= k < rev@.len() ==> rev@[k] == f0[f0.len() - 1 - k],
        decreases found@.len(),
    {
        let c = found.pop().unwrap();
        rev.push(c);
    }
    while rev.len() > 0
        invariant
            clocks@.len() >= old(clocks)@.len(),
            clocks@.len() - old(clocks)@.len() + rev@.len() == f0.len(),
            forall|k: int| 0 <= k < clocks@.len() ==> clocks@[k] == want[k],
            forall|k: int| 0 <= k < rev@.len() ==> rev@[k] == f0[f0.len() - 1 - k],
            want == old(clocks)@ + f0,
        decreases rev@.len(),
    {
        let c = rev.pop().unwrap();
        clocks.push(c);
    }
    assert(clocks@ =~= want);
    if clocks.len() == 0 {
        return Err(text::string_of(text::chars_of("SDC contained no create_clock").as_slice()));
    }
    Ok(())
}


// ---------------------------------------------------------------------------
// set_input_delay / set_output_delay
// ---------------------------------------------------------------------------

/// The delay and port of an I/O delay command read from token `i` on:
/// `-clock` and its argument are skipped, the first number is the delay, and
/// at each other token the first `get_ports` name in the rest of the line
/// becomes the port.
pub open spec fn delay_scan(t: Seq<Seq<char>>, nums: Seq<(String, i64)>, i: int, delay: Option<i64>, port: Seq<char>) -> (Option<i64>, Seq<char>)
    decreases t.len() + 1 - i,
{
    if i < 1 || i >= t.len() {
        (delay, port)
    } else if t[i] == "-clock"@ {
        delay_scan(t, nums, i + 2, delay, port)
    } else if delay is None && number_of(nums, t[i]) is Some {
        delay_scan(t, nums, i + 1, number_of(nums, t[i]), port)
    } else {
        let p2 = match tcl_name_of(join_words(t.subrange(i, t.len() as int)), "get_ports"@) {
            Some(n) => n,
            None => port,
        };
        delay_scan(t, nums, i + 1, delay, p2)
    }
}

/// The (port, delay in ps) an I/O delay command sets, or its error.
pub open spec fn io_delay_of(t: Seq<Seq<char>>, line: Seq<char>, nums: Seq<(String, i64)>) -> Result<(Seq<char>, i64), Seq<char>> {
    let (d, p) = delay_scan(t, nums, 1, None, Seq::empty());
    match d {
        None => Err(line + ": missing delay"@),
        Some(v) => if p.len() == 0 { Err(line + ": missing port"@) } else { Ok((p, v)) },
    }
}

/// `set_input_delay` / `set_output_delay`: the port and its delay in ps.
pub fn xdc_io_delay(line: &Vec<char>, t: &Vec<Vec<char>>, nums: &Vec<(String, i64)>) -> (r: Result<(String, i64), String>)
    ensures
        match io_delay_of(word_views(t@), line@, nums@) {
            Ok((p, v)) => r matches Ok((q, w)) && q@ == p && w == v,
            Err(e) => r matches Err(m) && m@ == e,
        },
{
    let ghost tv = word_views(t@);
    let mut delay: Option<i64> = None;
    let mut port: Vec<char> = Vec::new();
    let mut i: usize = 1;
    while i < t.len()
        invariant
            tv == word_views(t@),
            1 <= i,
            delay_scan(tv, nums@, 1, None, Seq::empty()) == delay_scan(tv, nums@, i as int, delay, port@),
        decreases t@.len() + 1 - i,
    {
        assert(tv[i as int] == t@[i as int]@);
        let ghost (gd, gp, gi) = (delay, port@, i as int);
        assert(tv.len() == t@.len());
        if word_is(&t[i], "-clock") {
            i = if i + 1 < t.len() { i + 2 } else { t.len() };
            assert(delay_scan(tv, nums@, gi, gd, gp) == delay_scan(tv, nums@, gi + 2, gd, gp));
            assert(delay_scan(tv, nums@, gi + 2, gd, gp) == delay_scan(tv, nums@, i as int, gd, gp));
        } else {
            let num = if delay.is_none() { number_exec(nums, &t[i]) } else { None };
            if num.is_some() {
                delay = num;
            } else {
                let joined = join_from(t, i);
                assert(tv.subrange(i as int, tv.len() as int) =~= t@.map_values(|x: Vec<char>| x@).subrange(i as int, t@.len() as int));
                match tcl_name(&joined, "get_ports") {
                    Some(n) => {
                        port = n;
                    },
                    None => {},
                }
            }
            i = i + 1;
        }
    }
    match delay {
        None => {
            let mut e = text::slice(line, 0, line.len());
            text::push_str(&mut e, ": missing delay");
            assert(e@ =~= line@ + ": missing delay"@);
            Err(text::string_of(e.as_slice()))
        },
        Some(v) => {
            if port.len() == 0 {
                let mut e = text::slice(line, 0, line.len());
                text::push_str(&mut e, ": missing port");
                assert(e@ =~= line@ + ": missing port"@);
                Err(text::string_of(e.as_slice()))
            } else {
                Ok((text::string_of(port.as_slice()), v))
            }
        },
    }
}


// ---------------------------------------------------------------------------
// Object names and -from / -to
// ---------------------------------------------------------------------------

/// The first `get_ports`, `get_pins`, `get_cells`, `get_clocks` or `get_nets`
/// name in `j`.
pub open spec fn object_name_of(j: Seq<char>) -> Option<Seq<char>> {
    match tcl_name_of(j, "get_ports"@) {
        Some(n) => Some(n),
        None => match tcl_name_of(j, "get_pins"@) {
            Some(n) => Some(n),
            None => match tcl_name_of(j, "get_cells"@) {
                Some(n) => Some(n),
                None => match tcl_name_of(j, "get_clocks"@) {
                    Some(n) => Some(n),
                    None => tcl_name_of(j, "get_nets"@),
                },
            },
        },
    }
}

fn object_name(j: &Vec<char>) -> (r: Option<Vec<char>>)
    ensures
        match object_name_of(j@) {
            Some(n) => r matches Some(v) && v@ == n,
            None => r is None,
        },
{
    match tcl_name(j, "get_ports") {
        Some(n) => Some(n),
        None => match tcl_name(j, "get_pins") {
            Some(n) => Some(n),
            None => match tcl_name(j, "get_cells") {
                Some(n) => Some(n),
                None => match tcl_name(j, "get_clocks") {
                    Some(n) => Some(n),
                    None => tcl_name(j, "get_nets"),
                },
            },
        },
    }
}

/// The object named after the first `key` in `j`, or empty.
pub open spec fn named_after(j: Seq<char>, key: Seq<char>) -> Seq<char> {
    match text::find_from(j, key, 0) {
        Some(i) => match object_name_of(j.subrange(i + key.len(), j.len() as int)) {
            Some(n) => n,
            None => Seq::empty(),
        },
        None => Seq::empty(),
    }
}

fn named_after_exec(j: &Vec<char>, key: &str) -> (r: Vec<char>)
    ensures
        r@ == named_after(j@, key@),
{
    let k = text::chars_of(key);
    match text::find(j, &k, 0) {
        None => Vec::new(),
        Some(i) => {
            let kl = k.len();
            assert(i + kl <= j.len()) by {
                text::lemma_find_from_some(j@, k@, 0);
            }
            let rest = text::slice(j, i + kl, j.len());
            match object_name(&rest) {
                Some(n) => n,
                None => Vec::new(),
            }
        },
    }
}

// ---------------------------------------------------------------------------
// set_clock_uncertainty
// ---------------------------------------------------------------------------

/// The options of `set_clock_uncertainty` from token `i` on: `-setup` and
/// `-hold` (each may carry the value), other options skipped, and the first
/// number as the value otherwise.
pub open spec fn unc_scan(t: Seq<Seq<char>>, nums: Seq<(String, i64)>, i: int, setup: bool, hold: bool, v: Option<i64>) -> (bool, bool, Option<i64>)
    decreases t.len() + 1 - i,
{
    if i < 1 || i >= t.len() {
        (setup, hold, v)
    } else if t[i] == "-setup"@ || t[i] == "-hold"@ {
        let s2 = setup || t[i] == "-setup"@;
        let h2 = hold || t[i] == "-hold"@;
        if i + 1 < t.len() && number_of(nums, t[i + 1]) is Some {
            unc_scan(t, nums, i + 2, s2, h2, number_of(nums, t[i + 1]))
        } else {
            unc_scan(t, nums, i + 1, s2, h2, v)
        }
    } else if t[i].len() > 0 && t[i][0] == '-' {
        unc_scan(t, nums, i + 1, setup, hold, v)
    } else if v is None && number_of(nums, t[i]) is Some {
        unc_scan(t, nums, i + 1, setup, hold, number_of(nums, t[i]))
    } else {
        unc_scan(t, nums, i + 1, setup, hold, v)
    }
}

/// The uncertainty a `set_clock_uncertainty` line sets: the value goes to
/// setup only with `-setup` alone, to hold only with `-hold` alone, else to
/// both; `-from` / `-to` name the clocks, else the named object is the `to`.
pub open spec fn uncertainty_of(t: Seq<Seq<char>>, line: Seq<char>, nums: Seq<(String, i64)>) -> Result<(Seq<char>, Seq<char>, i64, i64), Seq<char>> {
    let (s, h, v) = unc_scan(t, nums, 1, false, false, None);
    match v {
        None => Err(line + ": missing uncertainty"@),
        Some(ps) => {
            let j = join_words(t);
            let from = named_after(j, "-from"@);
            let to0 = named_after(j, "-to"@);
            let to = if from.len() == 0 && to0.len() == 0 {
                match object_name_of(j) { Some(n) => n, None => to0 }
            } else {
                to0
            };
            let (su, ho) = if h && !s { (0i64, ps) } else if s && !h { (ps, 0i64) } else { (ps, ps) };
            Ok((from, to, su, ho))
        },
    }
}

/// `set_clock_uncertainty`: appends the uncertainty the line sets.
pub fn xdc_clock_uncertainty(us: &mut Vec<ClockUncertainty>, line: &Vec<char>, t: &Vec<Vec<char>>, nums: &Vec<(String, i64)>) -> (r: Result<(), String>)
    ensures
        match uncertainty_of(word_views(t@), line@, nums@) {
            Ok((f, to, su, ho)) => {
                &&& r is Ok
                &&& final(us)@.len() == old(us)@.len() + 1
                &&& final(us)@.subrange(0, old(us)@.len() as int) == old(us)@
                &&& final(us)@.last().from@ == f
                &&& final(us)@.last().to@ == to
                &&& final(us)@.last().setup_ps == su
                &&& final(us)@.last().hold_ps == ho
            },
            Err(e) => r matches Err(m) && m@ == e && final(us)@ == old(us)@,
        },
{
    let ghost tv = word_views(t@);
    let mut setup = false;
    let mut hold = false;
    let mut v: Option<i64> = None;
    let mut i: usize = 1;
    while i < t.len()
        invariant
            tv == word_views(t@),
            1 <= i,
            unc_scan(tv, nums@, 1, false, false, None) == unc_scan(tv, nums@, i as int, setup, hold, v),
        decreases t@.len() + 1 - i,
    {
        assert(tv[i as int] == t@[i as int]@);
        assert(tv.len() == t@.len());
        let ghost (gs, gh, gv, gi) = (setup, hold, v, i as int);
        let is_setup = word_is(&t[i], "-setup");
        let is_hold = word_is(&t[i], "-hold");
        if is_setup || is_hold {
            setup = setup || is_setup;
            hold = hold || is_hold;
            let next = if i + 1 < t.len() {
                assert(tv[i + 1] == t@[i + 1]@);
                number_exec(nums, &t[i + 1])
            } else {
                None
            };
            if next.is_some() {
                v = next;
                i = i + 2;
            } else {
                i = i + 1;
            }
        } else if t[i].len() > 0 && t[i][0] == '-' {
            i = i + 1;
        } else {
            if v.is_none() {
                let num = number_exec(nums, &t[i]);
                if num.is_some() {
                    v = num;
                }
            }
            i = i + 1;
        }
    }
    match v {
        None => {
            let mut e = text::slice(line, 0, line.len());
            text::push_str(&mut e, ": missing uncertainty");
            assert(e@ =~= line@ + ": missing uncertainty"@);
            Err(text::string_of(e.as_slice()))
        },
        Some(ps) => {
            let j = join_from(t, 0);
            assert(tv =~= t@.map_values(|x: Vec<char>| x@).subrange(0, t@.len() as int));
            let from = named_after_exec(&j, "-from");
            let mut to = named_after_exec(&j, "-to");
            if from.len() == 0 && to.len() == 0 {
                match object_name(&j) {
                    Some(n) => {
                        to = n;
                    },
                    None => {},
                }
            }
            let (su, ho): (i64, i64) = if hold && !setup { (0, ps) } else if setup && !hold { (ps, 0) } else { (ps, ps) };
            let ghost before = us@;
            us.push(ClockUncertainty {
                from: text::string_of(from.as_slice()),
                to: text::string_of(to.as_slice()),
                setup_ps: su,
                hold_ps: ho,
            });
            assert(us@.subrange(0, before.len() as int) =~= before);
            Ok(())
        },
    }
}


// ---------------------------------------------------------------------------
// set_max_delay / set_min_delay
// ---------------------------------------------------------------------------

/// `-datapath_only` and the first number of a path-delay command, from token `i` on.
pub open spec fn bound_scan(t: Seq<Seq<char>>, nums: Seq<(String, i64)>, i: int, dp: bool, v: Option<i64>) -> (bool, Option<i64>)
    decreases t.len() + 1 - i,
{
    if i < 1 || i >= t.len() {
        (dp, v)
    } else if t[i] == "-datapath_only"@ {
        bound_scan(t, nums, i + 1, true, v)
    } else if t[i].len() > 0 && t[i][0] == '-' {
        bound_scan(t, nums, i + 1, dp, v)
    } else if v is None && number_of(nums, t[i]) is Some {
        bound_scan(t, nums, i + 1, dp, number_of(nums, t[i]))
    } else {
        bound_scan(t, nums, i + 1, dp, v)
    }
}

/// The (from, to, delay in ps, datapath only) of a `set_max_delay` or
/// `set_min_delay` line, or its error.
pub open spec fn path_delay_of(t: Seq<Seq<char>>, line: Seq<char>, nums: Seq<(String, i64)>) -> Result<(Seq<char>, Seq<char>, i64, bool), Seq<char>> {
    let (dp, v) = bound_scan(t, nums, 1, false, None);
    match v {
        None => Err(line + ": missing delay"@),
        Some(ps) => {
            let j = join_words(t);
            Ok((named_after(j, "-from"@), named_after(j, "-to"@), ps, dp))
        },
    }
}

fn path_delay(line: &Vec<char>, t: &Vec<Vec<char>>, nums: &Vec<(String, i64)>) -> (r: Result<(Vec<char>, Vec<char>, i64, bool), String>)
    ensures
        match path_delay_of(word_views(t@), line@, nums@) {
            Ok((f, to, ps, dp)) => r matches Ok((a, b, c, d)) && a@ == f && b@ == to && c == ps && d == dp,
            Err(e) => r matches Err(m) && m@ == e,
        },
{
    let ghost tv = word_views(t@);
    let mut dp = false;
    let mut v: Option<i64> = None;
    let mut i: usize = 1;
    while i < t.len()
        invariant
            tv == word_views(t@),
            1 <= i,
            bound_scan(tv, nums@, 1, false, None) == bound_scan(tv, nums@, i as int, dp, v),
        decreases t@.len() + 1 - i,
    {
        assert(tv[i as int] == t@[i as int]@);
        if word_is(&t[i], "-datapath_only") {
            dp = true;
        } else if t[i].len() > 0 && t[i][0] == '-' {
        } else if v.is_none() {
            let num = number_exec(nums, &t[i]);
            if num.is_some() {
                v = num;
            }
        }
        i = i + 1;
    }
    match v {
        None => {
            let mut e = text::slice(line, 0, line.len());
            text::push_str(&mut e, ": missing delay");
            assert(e@ =~= line@ + ": missing delay"@);
            Err(text::string_of(e.as_slice()))
        },
        Some(ps) => {
            let j = join_from(t, 0);
            assert(tv =~= t@.map_values(|x: Vec<char>| x@).subrange(0, t@.len() as int));
            Ok((named_after_exec(&j, "-from"), named_after_exec(&j, "-to"), ps, dp))
        },
    }
}

/// `set_max_delay`: appends the bound the line sets.
pub fn xdc_max_delay(v: &mut Vec<MaxDelay>, line: &Vec<char>, t: &Vec<Vec<char>>, nums: &Vec<(String, i64)>) -> (r: Result<(), String>)
    ensures
        match path_delay_of(word_views(t@), line@, nums@) {
            Ok((f, to, ps, dp)) => {
                &&& r is Ok
                &&& final(v)@.len() == old(v)@.len() + 1
                &&& final(v)@.subrange(0, old(v)@.len() as int) == old(v)@
                &&& final(v)@.last().from@ == f && final(v)@.last().to@ == to
                &&& final(v)@.last().delay_ps == ps && final(v)@.last().datapath_only == dp
            },
            Err(e) => r matches Err(m) && m@ == e && final(v)@ == old(v)@,
        },
{
    match path_delay(line, t, nums) {
        Err(e) => Err(e),
        Ok((f, to, ps, dp)) => {
            let ghost before = v@;
            v.push(MaxDelay { from: text::string_of(f.as_slice()), to: text::string_of(to.as_slice()), delay_ps: ps, datapath_only: dp });
            assert(v@.subrange(0, before.len() as int) =~= before);
            Ok(())
        },
    }
}

/// `set_min_delay`: appends the bound the line sets.
pub fn xdc_min_delay(v: &mut Vec<MinDelay>, line: &Vec<char>, t: &Vec<Vec<char>>, nums: &Vec<(String, i64)>) -> (r: Result<(), String>)
    ensures
        match path_delay_of(word_views(t@), line@, nums@) {
            Ok((f, to, ps, dp)) => {
                &&& r is Ok
                &&& final(v)@.len() == old(v)@.len() + 1
                &&& final(v)@.subrange(0, old(v)@.len() as int) == old(v)@
                &&& final(v)@.last().from@ == f && final(v)@.last().to@ == to
                &&& final(v)@.last().delay_ps == ps && final(v)@.last().datapath_only == dp
            },
            Err(e) => r matches Err(m) && m@ == e && final(v)@ == old(v)@,
        },
{
    match path_delay(line, t, nums) {
        Err(e) => Err(e),
        Ok((f, to, ps, dp)) => {
            let ghost before = v@;
            v.push(MinDelay { from: text::string_of(f.as_slice()), to: text::string_of(to.as_slice()), delay_ps: ps, datapath_only: dp });
            assert(v@.subrange(0, before.len() as int) =~= before);
            Ok(())
        },
    }
}

// ---------------------------------------------------------------------------
// set_multicycle_path
// ---------------------------------------------------------------------------

/// `str::parse::<u32>` of a word.
pub open spec fn u32_of(w: Seq<char>) -> Option<u32> {
    match text::parse_unsigned(w, u32::MAX as nat) {
        Some(n) => Some(n as u32),
        None => None,
    }
}

/// What `set_multicycle_path` reads, from token `i` on.
pub struct McScan {
    pub want_setup: bool,
    pub want_hold: bool,
    pub setup_n: Option<u32>,
    pub hold_n: Option<u32>,
    pub bare: Option<u32>,
    pub start: bool,
    pub end: bool,
}

/// The options of `set_multicycle_path` from token `i` on: `-setup` / `-hold`
/// (each may carry its multiplier), `-start`, `-end`, other options skipped,
/// and the first plain multiplier.
pub open spec fn mc_scan(t: Seq<Seq<char>>, i: int, m: McScan) -> McScan
    decreases t.len() + 1 - i,
{
    if i < 1 || i >= t.len() {
        m
    } else if t[i] == "-setup"@ {
        let n = if i + 1 < t.len() { u32_of(t[i + 1]) } else { None };
        let m2 = McScan { want_setup: true, setup_n: if n is Some { n } else { m.setup_n }, ..m };
        mc_scan(t, if n is Some { i + 2 } else { i + 1 }, m2)
    } else if t[i] == "-hold"@ {
        let n = if i + 1 < t.len() { u32_of(t[i + 1]) } else { None };
        let m2 = McScan { want_hold: true, hold_n: if n is Some { n } else { m.hold_n }, ..m };
        mc_scan(t, if n is Some { i + 2 } else { i + 1 }, m2)
    } else if t[i] == "-start"@ {
        mc_scan(t, i + 1, McScan { start: true, ..m })
    } else if t[i] == "-end"@ {
        mc_scan(t, i + 1, McScan { end: true, ..m })
    } else if t[i].len() > 0 && t[i][0] == '-' {
        mc_scan(t, i + 1, m)
    } else if m.bare is None && u32_of(t[i]) is Some {
        mc_scan(t, i + 1, McScan { bare: u32_of(t[i]), ..m })
    } else {
        mc_scan(t, i + 1, m)
    }
}

pub open spec fn or_else(a: Option<u32>, b: Option<u32>) -> Option<u32> {
    if a is Some { a } else { b }
}

pub open spec fn or_default(a: Option<u32>, d: u32) -> u32 {
    match a {
        Some(v) => v,
        None => d,
    }
}

/// The multicycle path a `set_multicycle_path` line sets: (from, to, setup
/// multiplier (at least 1), hold multiplier, -start, -end), or its error.
pub open spec fn multicycle_of(t: Seq<Seq<char>>, line: Seq<char>) -> Result<(Seq<char>, Seq<char>, u32, u32, bool, bool), Seq<char>> {
    let m = mc_scan(t, 1, McScan { want_setup: false, want_hold: false, setup_n: None, hold_n: None, bare: None, start: false, end: false });
    if m.setup_n is None && m.hold_n is None && m.bare is None {
        Err(line + ": missing path multiplier"@)
    } else {
        let j = join_words(t);
        let (su, ho) = if m.want_hold && !m.want_setup {
            (1u32, or_default(or_else(m.hold_n, m.bare), 0))
        } else if m.want_setup && m.want_hold {
            (or_default(or_else(m.setup_n, m.bare), 1), or_default(m.hold_n, 0))
        } else if m.want_setup {
            (or_default(or_else(m.setup_n, m.bare), 1), 0u32)
        } else {
            (or_default(m.bare, 1), 0u32)
        };
        Ok((named_after(j, "-from"@), named_after(j, "-to"@), if su < 1 { 1u32 } else { su }, ho, m.start, m.end))
    }
}

fn u32_exec(w: &Vec<char>) -> (r: Option<u32>)
    ensures
        r == u32_of(w@),
{
    match text::parse_uint(w, u32::MAX as u64) {
        Some(n) => Some(n as u32),
        None => None,
    }
}

/// `set_multicycle_path`: appends the path multipliers the line sets.
pub fn xdc_multicycle(v: &mut Vec<MulticyclePath>, line: &Vec<char>, t: &Vec<Vec<char>>) -> (r: Result<(), String>)
    ensures
        match multicycle_of(word_views(t@), line@) {
            Ok((f, to, su, ho, st, en)) => {
                &&& r is Ok
                &&& final(v)@.len() == old(v)@.len() + 1
                &&& final(v)@.subrange(0, old(v)@.len() as int) == old(v)@
                &&& final(v)@.last().from@ == f && final(v)@.last().to@ == to
                &&& final(v)@.last().setup_mult == su && final(v)@.last().hold_mult == ho
                &&& final(v)@.last().start == st && final(v)@.last().end == en
            },
            Err(e) => r matches Err(m) && m@ == e && final(v)@ == old(v)@,
        },
{
    let ghost tv = word_views(t@);
    let ghost m0 = McScan { want_setup: false, want_hold: false, setup_n: None, hold_n: None, bare: None, start: false, end: false };
    let mut want_setup = false;
    let mut want_hold = false;
    let mut setup_n: Option<u32> = None;
    let mut hold_n: Option<u32> = None;
    let mut bare: Option<u32> = None;
    let mut start = false;
    let mut end = false;
    let mut i: usize = 1;
    while i < t.len()
        invariant
            tv == word_views(t@),
            1 <= i,
            mc_scan(tv, 1, m0) == mc_scan(tv, i as int, McScan { want_setup, want_hold, setup_n, hold_n, bare, start, end }),
        decreases t@.len() + 1 - i,
    {
        assert(tv[i as int] == t@[i as int]@);
        assert(tv.len() == t@.len());
        let is_setup = word_is(&t[i], "-setup");
        let is_hold = word_is(&t[i], "-hold");
        if is_setup || is_hold {
            let n = if i + 1 < t.len() {
                assert(tv[i + 1] == t@[i + 1]@);
                u32_exec(&t[i + 1])
            } else {
                None
            };
            if is_setup {
                want_setup = true;
                if n.is_some() {
                    setup_n = n;
                }
            } else {
                want_hold = true;
                if n.is_some() {
                    hold_n = n;
                }
            }
            if n.is_some() {
                i = i + 2;
            } else {
                i = i + 1;
            }
        } else if word_is(&t[i], "-start") {
            start = true;
            i = i + 1;
        } else if word_is(&t[i], "-end") {
            end = true;
            i = i + 1;
        } else if t[i].len() > 0 && t[i][0] == '-' {
            i = i + 1;
        } else {
            if bare.is_none() {
                let n = u32_exec(&t[i]);
                if n.is_some() {
                    bare = n;
                }
            }
            i = i + 1;
        }
    }
    if setup_n.is_none() && hold_n.is_none() && bare.is_none() {
        let mut e = text::slice(line, 0, line.len());
        text::push_str(&mut e, ": missing path multiplier");
        assert(e@ =~= line@ + ": missing path multiplier"@);
        return Err(text::string_of(e.as_slice()));
    }
    let j = join_from(t, 0);
    assert(tv =~= t@.map_values(|x: Vec<char>| x@).subrange(0, t@.len() as int));
    let or_u32 = |a: Option<u32>, b: Option<u32>| -> (r: Option<u32>)
        ensures r == or_else(a, b),
    { if a.is_some() { a } else { b } };
    let dflt = |a: Option<u32>, d: u32| -> (r: u32)
        ensures r == or_default(a, d),
    { match a { Some(x) => x, None => d } };
    let (su, ho): (u32, u32) = if want_hold && !want_setup {
        (1, dflt(or_u32(hold_n, bare), 0))
    } else if want_setup && want_hold {
        (dflt(or_u32(setup_n, bare), 1), dflt(hold_n, 0))
    } else if want_setup {
        (dflt(or_u32(setup_n, bare), 1), 0)
    } else {
        (dflt(bare, 1), 0)
    };
    let ghost before = v@;
    v.push(MulticyclePath {
        from: text::string_of(named_after_exec(&j, "-from").as_slice()),
        to: text::string_of(named_after_exec(&j, "-to").as_slice()),
        setup_mult: if su < 1 { 1 } else { su },
        hold_mult: ho,
        start,
        end,
    });
    assert(v@.subrange(0, before.len() as int) =~= before);
    Ok(())
}


// ---------------------------------------------------------------------------
// create_generated_clock
// ---------------------------------------------------------------------------

/// The options of `create_generated_clock` from token `i` on: `-name`,
/// `-divide_by` (2 when its word is no `u32`), `-source` (the master: the
/// first `get_ports`, else `get_pins`, name of the rest of the line), and at
/// each other token the first `get_pins`, else `get_ports`, name as the source.
pub open spec fn gen_scan(t: Seq<Seq<char>>, i: int, name: Seq<char>, master: Seq<char>, div: u32, src: Seq<char>) -> (Seq<char>, Seq<char>, u32, Seq<char>)
    decreases t.len() + 1 - i,
{
    if i < 1 || i >= t.len() {
        (name, master, div, src)
    } else if t[i] == "-name"@ {
        gen_scan(t, i + 2, if i + 1 < t.len() { t[i + 1] } else { "genclk"@ }, master, div, src)
    } else if t[i] == "-divide_by"@ {
        let d = if i + 1 < t.len() { or_default(u32_of(t[i + 1]), 2) } else { 2u32 };
        gen_scan(t, i + 2, name, master, d, src)
    } else {
        let j = join_words(t.subrange(i, t.len() as int));
        if t[i] == "-source"@ {
            let m2 = match tcl_name_of(j, "get_ports"@) {
                Some(n) => n,
                None => match tcl_name_of(j, "get_pins"@) { Some(n) => n, None => master },
            };
            gen_scan(t, i + 1, name, m2, div, src)
        } else {
            let s2 = match tcl_name_of(j, "get_pins"@) {
                Some(n) => n,
                None => match tcl_name_of(j, "get_ports"@) { Some(n) => n, None => src },
            };
            gen_scan(t, i + 1, name, master, div, s2)
        }
    }
}

/// The (name, master, divider, source) `create_generated_clock` uses: the
/// master defaults to the first clock (`clk` without clocks) and falls back to
/// it when no clock has the given name; the source defaults to the name.
pub open spec fn gen_args(t: Seq<Seq<char>>, before: Seq<Clock>) -> (Seq<char>, Seq<char>, u32, Seq<char>) {
    let m0 = if before.len() > 0 { before[0].name@ } else { "clk"@ };
    let (n, m, d, s) = gen_scan(t, 1, "genclk"@, m0, 2, Seq::empty());
    let s2 = if s.len() == 0 { n } else { s };
    let m2 = if clock_index(before, m, 0) >= before.len() && before.len() > 0 { before[0].name@ } else { m };
    (n, m2, d, s2)
}

/// A generated clock `name` from `master` divided by `divide_by` (at least 1)
/// appended, or the unknown-master error with the clocks unchanged.
pub open spec fn generated_clock_added(before: Seq<Clock>, after: Seq<Clock>, r: Result<(), String>, name: Seq<char>, master: Seq<char>, divide_by: u32, source: Seq<char>) -> bool {
    if clock_index(before, master, 0) >= before.len() {
        &&& r matches Err(e) && e@ == "unknown master clock "@ + master
        &&& after == before
    } else {
        let m = before[clock_index(before, master, 0)];
        let div: u32 = if divide_by > 1 { divide_by } else { 1 };
        &&& r is Ok
        &&& after.len() == before.len() + 1
        &&& after.subrange(0, before.len() as int) == before
        &&& after.last().name@ == name
        &&& after.last().period_ps == sat_u64(m.period_ps * div)
        &&& after.last().source@ == source
        &&& after.last().generated
        &&& opt_view(after.last().master) == Some(master)
        &&& after.last().divide_by == div
    }
}

/// `create_generated_clock`: see [`gen_args`] and [`generated_clock_added`].
pub fn xdc_generated_clock(clocks: &mut Vec<Clock>, t: &Vec<Vec<char>>) -> (r: Result<(), String>)
    ensures
        ({
            let (n, m, d, s) = gen_args(word_views(t@), old(clocks)@);
            generated_clock_added(old(clocks)@, final(clocks)@, r, n, m, d, s)
        }),
{
    let ghost tv = word_views(t@);
    let mut name: Vec<char> = text::chars_of("genclk");
    let mut master: Vec<char> = if clocks.len() > 0 { text::chars_of(clocks[0].name.as_str()) } else { text::chars_of("clk") };
    let mut div: u32 = 2;
    let mut source: Vec<char> = Vec::new();
    let ghost m0 = master@;
    let mut i: usize = 1;
    while i < t.len()
        invariant
            tv == word_views(t@),
            1 <= i,
            gen_scan(tv, 1, "genclk"@, m0, 2, Seq::empty()) == gen_scan(tv, i as int, name@, master@, div, source@),
        decreases t@.len() + 1 - i,
    {
        assert(tv[i as int] == t@[i as int]@);
        assert(tv.len() == t@.len());
        let ghost (gn, gm, gd, gs, gi) = (name@, master@, div, source@, i as int);
        if word_is(&t[i], "-name") {
            if i + 1 < t.len() {
                assert(tv[i + 1] == t@[i + 1]@);
                name = text::slice(&t[i + 1], 0, t[i + 1].len());
                assert(name@ =~= tv[i + 1]);
            } else {
                name = text::chars_of("genclk");
            }
            i = if i + 1 < t.len() { i + 2 } else { t.len() };
            assert(gen_scan(tv, gi, gn, gm, gd, gs) == gen_scan(tv, gi + 2, name@, gm, gd, gs));
            assert(gen_scan(tv, gi + 2, name@, gm, gd, gs) == gen_scan(tv, i as int, name@, gm, gd, gs));
        } else if word_is(&t[i], "-divide_by") {
            div = if i + 1 < t.len() {
                assert(tv[i + 1] == t@[i + 1]@);
                match u32_exec(&t[i + 1]) {
                    Some(d) => d,
                    None => 2,
                }
            } else {
                2
            };
            i = if i + 1 < t.len() { i + 2 } else { t.len() };
            assert(gen_scan(tv, gi, gn, gm, gd, gs) == gen_scan(tv, gi + 2, gn, gm, div, gs));
            assert(gen_scan(tv, gi + 2, gn, gm, div, gs) == gen_scan(tv, i as int, gn, gm, div, gs));
        } else {
            let joined = join_from(t, i);
            assert(tv.subrange(i as int, tv.len() as int) =~= t@.map_values(|x: Vec<char>| x@).subrange(i as int, t@.len() as int));
            if word_is(&t[i], "-source") {
                match tcl_name(&joined, "get_ports") {
                    Some(n) => {
                        master = n;
                    },
                    None => match tcl_name(&joined, "get_pins") {
                        Some(n) => {
                            master = n;
                        },
                        None => {},
                    },
                }
            } else {
                match tcl_name(&joined, "get_pins") {
                    Some(n) => {
                        source = n;
                    },
                    None => match tcl_name(&joined, "get_ports") {
                        Some(n) => {
                            source = n;
                        },
                        None => {},
                    },
                }
            }
            i = i + 1;
        }
    }
    if source.len() == 0 {
        source = text::slice(&name, 0, name.len());
        assert(source@ =~= name@);
    }
    let ms = text::string_of(master.as_slice());
    let mut known = false;
    let mut k: usize = 0;
    while k < clocks.len()
        invariant
            k <= clocks@.len(),
            known <==> exists|q: int| 0 <= q < k && (#[trigger] clocks@[q]).name@ == ms@,
        decreases clocks@.len() - k,
    {
        if text::str_eq(clocks[k].name.as_str(), ms.as_str()) {
            known = true;
        }
        k = k + 1;
    }
    proof {
        lemma_clock_index_range(clocks@, ms@, 0);
    }
    let master_name = if !known && clocks.len() > 0 {
        text::string_of(text::chars_of(clocks[0].name.as_str()).as_slice())
    } else {
        ms
    };
    let nm = text::string_of(name.as_slice());
    let sc = text::string_of(source.as_slice());
    create_generated_clock(clocks, nm.as_str(), master_name.as_str(), div, sc.as_str())
}

proof fn lemma_clock_index_range(cs: Seq<Clock>, n: Seq<char>, i: int)
    requires
        0 <= i <= cs.len(),
    ensures
        clock_index(cs, n, i) < cs.len() <==> exists|q: int| i <= q < cs.len() && (#[trigger] cs[q]).name@ == n,
    decreases cs.len() - i,
{
    if i < cs.len() {
        lemma_clock_index_range(cs, n, i + 1);
    }
}

// ---------------------------------------------------------------------------
// set_clock_latency / set_disable_timing
// ---------------------------------------------------------------------------

/// `-source`, `-early`, `-late` and the first number of `set_clock_latency`,
/// from token `i` on.
pub open spec fn lat_scan(t: Seq<Seq<char>>, nums: Seq<(String, i64)>, i: int, src: bool, early: bool, late: bool, v: Option<i64>) -> (bool, bool, bool, Option<i64>)
    decreases t.len() + 1 - i,
{
    if i < 1 || i >= t.len() {
        (src, early, late, v)
    } else if t[i] == "-source"@ {
        lat_scan(t, nums, i + 1, true, early, late, v)
    } else if t[i] == "-early"@ {
        lat_scan(t, nums, i + 1, src, true, late, v)
    } else if t[i] == "-late"@ {
        lat_scan(t, nums, i + 1, src, early, true, v)
    } else if t[i].len() > 0 && t[i][0] == '-' {
        lat_scan(t, nums, i + 1, src, early, late, v)
    } else if v is None && number_of(nums, t[i]) is Some {
        lat_scan(t, nums, i + 1, src, early, late, number_of(nums, t[i]))
    } else {
        lat_scan(t, nums, i + 1, src, early, late, v)
    }
}

/// The (clock, late, early, source) a `set_clock_latency` line sets: the value
/// goes to late only with `-late` alone, to early only with `-early` alone,
/// else to both; the clock is the named object.
pub open spec fn latency_of(t: Seq<Seq<char>>, line: Seq<char>, nums: Seq<(String, i64)>) -> Result<(Seq<char>, i64, i64, bool), Seq<char>> {
    let (src, early, late, v) = lat_scan(t, nums, 1, false, false, false, None);
    match v {
        None => Err(line + ": missing latency"@),
        Some(ps) => {
            let clock = match object_name_of(join_words(t)) { Some(n) => n, None => Seq::empty() };
            let (l, e) = if late && !early { (ps, 0i64) } else if early && !late { (0i64, ps) } else { (ps, ps) };
            Ok((clock, l, e, src))
        },
    }
}

/// `set_clock_latency`: appends the latency the line sets.
pub fn xdc_clock_latency(v: &mut Vec<ClockLatency>, line: &Vec<char>, t: &Vec<Vec<char>>, nums: &Vec<(String, i64)>) -> (r: Result<(), String>)
    ensures
        match latency_of(word_views(t@), line@, nums@) {
            Ok((c, l, e, s)) => {
                &&& r is Ok
                &&& final(v)@.len() == old(v)@.len() + 1
                &&& final(v)@.subrange(0, old(v)@.len() as int) == old(v)@
                &&& final(v)@.last().clock@ == c
                &&& final(v)@.last().late_ps == l && final(v)@.last().early_ps == e
                &&& final(v)@.last().source == s
            },
            Err(e) => r matches Err(m) && m@ == e && final(v)@ == old(v)@,
        },
{
    let ghost tv = word_views(t@);
    let mut src = false;
    let mut early = false;
    let mut late = false;
    let mut val: Option<i64> = None;
    let mut i: usize = 1;
    while i < t.len()
        invariant
            tv == word_views(t@),
            1 <= i,
            lat_scan(tv, nums@, 1, false, false, false, None) == lat_scan(tv, nums@, i as int, src, early, late, val),
        decreases t@.len() + 1 - i,
    {
        assert(tv[i as int] == t@[i as int]@);
        if word_is(&t[i], "-source") {
            src = true;
        } else if word_is(&t[i], "-early") {
            early = true;
        } else if word_is(&t[i], "-late") {
            late = true;
        } else if t[i].len() > 0 && t[i][0] == '-' {
        } else if val.is_none() {
            let num = number_exec(nums, &t[i]);
            if num.is_some() {
                val = num;
            }
        }
        i = i + 1;
    }
    match val {
        None => {
            let mut e = text::slice(line, 0, line.len());
            text::push_str(&mut e, ": missing latency");
            assert(e@ =~= line@ + ": missing latency"@);
            Err(text::string_of(e.as_slice()))
        },
        Some(ps) => {
            let j = join_from(t, 0);
            assert(tv =~= t@.map_values(|x: Vec<char>| x@).subrange(0, t@.len() as int));
            let clock = match object_name(&j) {
                Some(n) => n,
                None => Vec::new(),
            };
            let (l, e): (i64, i64) = if late && !early { (ps, 0) } else if early && !late { (0, ps) } else { (ps, ps) };
            let ghost before = v@;
            v.push(ClockLatency { clock: text::string_of(clock.as_slice()), late_ps: l, early_ps: e, source: src });
            assert(v@.subrange(0, before.len() as int) =~= before);
            Ok(())
        },
    }
}

/// The (from, to, object) a `set_disable_timing` line names, or its error
/// when it names none of them.
pub open spec fn disable_of(t: Seq<Seq<char>>, line: Seq<char>) -> Result<(Seq<char>, Seq<char>, Seq<char>), Seq<char>> {
    let j = join_words(t);
    let from = named_after(j, "-from"@);
    let to = named_after(j, "-to"@);
    let object = match object_name_of(j) { Some(n) => n, None => Seq::empty() };
    if from.len() == 0 && to.len() == 0 && object.len() == 0 {
        Err(line + ": set_disable_timing needs -from/-to or a cell/pin"@)
    } else {
        Ok((from, to, object))
    }
}

/// `set_disable_timing`: appends the arc the line disables.
pub fn xdc_disable_timing(v: &mut Vec<DisableTiming>, line: &Vec<char>, t: &Vec<Vec<char>>) -> (r: Result<(), String>)
    ensures
        match disable_of(word_views(t@), line@) {
            Ok((f, to, o)) => {
                &&& r is Ok
                &&& final(v)@.len() == old(v)@.len() + 1
                &&& final(v)@.subrange(0, old(v)@.len() as int) == old(v)@
                &&& final(v)@.last().from@ == f && final(v)@.last().to@ == to && final(v)@.last().object@ == o
            },
            Err(e) => r matches Err(m) && m@ == e && final(v)@ == old(v)@,
        },
{
    let j = join_from(t, 0);
    assert(word_views(t@) =~= t@.map_values(|x: Vec<char>| x@).subrange(0, t@.len() as int));
    let from = named_after_exec(&j, "-from");
    let to = named_after_exec(&j, "-to");
    let object = match object_name(&j) {
        Some(n) => n,
        None => Vec::new(),
    };
    if from.len() == 0 && to.len() == 0 && object.len() == 0 {
        let mut e = text::slice(line, 0, line.len());
        text::push_str(&mut e, ": set_disable_timing needs -from/-to or a cell/pin");
        assert(e@ =~= line@ + ": set_disable_timing needs -from/-to or a cell/pin"@);
        return Err(text::string_of(e.as_slice()));
    }
    let ghost before = v@;
    v.push(DisableTiming {
        from: text::string_of(from.as_slice()),
        to: text::string_of(to.as_slice()),
        object: text::string_of(object.as_slice()),
    });
    assert(v@.subrange(0, before.len() as int) =~= before);
    Ok(())
}


// ---------------------------------------------------------------------------
// set_propagated_clock / set_clock_sense
// ---------------------------------------------------------------------------

/// The clock a `set_propagated_clock` line names: the named object, else `*`
/// for `all_clocks`, else the error.
pub open spec fn propagated_of(t: Seq<Seq<char>>, line: Seq<char>) -> Result<Seq<char>, Seq<char>> {
    let j = join_words(t);
    match object_name_of(j) {
        Some(n) => if n.len() == 0 { Err(line + ": set_propagated_clock needs a clock/port/pin"@) } else { Ok(n) },
        None => if text::contains(j, "all_clocks"@) { Ok("*"@) } else { Err(line + ": set_propagated_clock needs a clock/port/pin"@) },
    }
}

/// `set_propagated_clock`: adds the clock it names, once.
pub fn xdc_propagated_clock(v: &mut Vec<String>, line: &Vec<char>, t: &Vec<Vec<char>>) -> (r: Result<(), String>)
    ensures
        match propagated_of(word_views(t@), line@) {
            Ok(n) => r is Ok && (if exists|k: int| 0 <= k < old(v)@.len() && (#[trigger] old(v)@[k])@ == n {
                final(v)@ == old(v)@
            } else {
                final(v)@.len() == old(v)@.len() + 1 && final(v)@.subrange(0, old(v)@.len() as int) == old(v)@
                    && final(v)@.last()@ == n
            }),
            Err(e) => r matches Err(m) && m@ == e && final(v)@ == old(v)@,
        },
{
    let j = join_from(t, 0);
    assert(word_views(t@) =~= t@.map_values(|x: Vec<char>| x@).subrange(0, t@.len() as int));
    let name: Vec<char> = match object_name(&j) {
        Some(n) => n,
        None => {
            if text::contains_str(&j, "all_clocks") {
                text::chars_of("*")
            } else {
                Vec::new()
            }
        },
    };
    if name.len() == 0 {
        let mut e = text::slice(line, 0, line.len());
        text::push_str(&mut e, ": set_propagated_clock needs a clock/port/pin");
        assert(e@ =~= line@ + ": set_propagated_clock needs a clock/port/pin"@);
        proof {
            reveal_strlit("*");
        }
        return Err(text::string_of(e.as_slice()));
    }
    assert(propagated_of(word_views(t@), line@) == Ok::<Seq<char>, Seq<char>>(name@));
    let mut k: usize = 0;
    while k < v.len()
        invariant
            k <= v@.len(),
            v@ == old(v)@,
            propagated_of(word_views(t@), line@) == Ok::<Seq<char>, Seq<char>>(name@),
            forall|q: int| 0 <= q < k ==> (#[trigger] v@[q])@ != name@,
        decreases v@.len() - k,
    {
        let s = text::chars_of(v[k].as_str());
        if text::eq_chars(&s, &name) {
            assert(old(v)@[k as int]@ == name@);
            return Ok(());
        }
        k = k + 1;
    }
    let ghost before = v@;
    v.push(text::string_of(name.as_slice()));
    assert(v@.subrange(0, before.len() as int) =~= before);
    Ok(())
}

/// The sense `set_clock_sense` options set from token `i` on (the last one
/// wins; `-pulse` skips its argument).
pub open spec fn sense_scan(t: Seq<Seq<char>>, i: int, sense: Seq<char>) -> Seq<char>
    decreases t.len() + 1 - i,
{
    if i < 1 || i >= t.len() {
        sense
    } else if t[i] == "-positive"@ || t[i] == "-pos"@ {
        sense_scan(t, i + 1, "positive"@)
    } else if t[i] == "-negative"@ || t[i] == "-neg"@ {
        sense_scan(t, i + 1, "negative"@)
    } else if t[i] == "-stop_propagation"@ || t[i] == "-stop"@ {
        sense_scan(t, i + 1, "stop"@)
    } else if t[i] == "-pulse"@ {
        sense_scan(t, i + 2, sense)
    } else {
        sense_scan(t, i + 1, sense)
    }
}

/// The (object, sense) a `set_clock_sense` line sets, or its error.
pub open spec fn sense_of(t: Seq<Seq<char>>, line: Seq<char>) -> Result<(Seq<char>, Seq<char>), Seq<char>> {
    let sense = sense_scan(t, 1, Seq::empty());
    let object = match object_name_of(join_words(t)) { Some(n) => n, None => Seq::empty() };
    if sense.len() == 0 {
        Err(line + ": set_clock_sense needs -positive/-negative/-stop_propagation"@)
    } else if object.len() == 0 {
        Err(line + ": set_clock_sense missing pin/port"@)
    } else {
        Ok((object, sense))
    }
}

/// `set_clock_sense`: appends the sense the line sets.
pub fn xdc_clock_sense(v: &mut Vec<ClockSense>, line: &Vec<char>, t: &Vec<Vec<char>>) -> (r: Result<(), String>)
    ensures
        match sense_of(word_views(t@), line@) {
            Ok((o, s)) => {
                &&& r is Ok
                &&& final(v)@.len() == old(v)@.len() + 1
                &&& final(v)@.subrange(0, old(v)@.len() as int) == old(v)@
                &&& final(v)@.last().object@ == o && final(v)@.last().sense@ == s
            },
            Err(e) => r matches Err(m) && m@ == e && final(v)@ == old(v)@,
        },
{
    let ghost tv = word_views(t@);
    let mut sense: Vec<char> = Vec::new();
    let mut i: usize = 1;
    while i < t.len()
        invariant
            tv == word_views(t@),
            1 <= i,
            sense_scan(tv, 1, Seq::empty()) == sense_scan(tv, i as int, sense@),
        decreases t@.len() + 1 - i,
    {
        assert(tv[i as int] == t@[i as int]@);
        assert(tv.len() == t@.len());
        let ghost (gs, gi) = (sense@, i as int);
        if word_is(&t[i], "-positive") || word_is(&t[i], "-pos") {
            sense = text::chars_of("positive");
            i = i + 1;
        } else if word_is(&t[i], "-negative") || word_is(&t[i], "-neg") {
            sense = text::chars_of("negative");
            i = i + 1;
        } else if word_is(&t[i], "-stop_propagation") || word_is(&t[i], "-stop") {
            sense = text::chars_of("stop");
            i = i + 1;
        } else if word_is(&t[i], "-pulse") {
            i = if i + 1 < t.len() { i + 2 } else { t.len() };
            assert(sense_scan(tv, gi, gs) == sense_scan(tv, gi + 2, gs));
            assert(sense_scan(tv, gi + 2, gs) == sense_scan(tv, i as int, gs));
        } else {
            i = i + 1;
        }
    }
    let j = join_from(t, 0);
    assert(tv =~= t@.map_values(|x: Vec<char>| x@).subrange(0, t@.len() as int));
    let object = match object_name(&j) {
        Some(n) => n,
        None => Vec::new(),
    };
    if sense.len() == 0 {
        let mut e = text::slice(line, 0, line.len());
        text::push_str(&mut e, ": set_clock_sense needs -positive/-negative/-stop_propagation");
        assert(e@ =~= line@ + ": set_clock_sense needs -positive/-negative/-stop_propagation"@);
        return Err(text::string_of(e.as_slice()));
    }
    if object.len() == 0 {
        let mut e = text::slice(line, 0, line.len());
        text::push_str(&mut e, ": set_clock_sense missing pin/port");
        assert(e@ =~= line@ + ": set_clock_sense missing pin/port"@);
        return Err(text::string_of(e.as_slice()));
    }
    let ghost before = v@;
    v.push(ClockSense { object: text::string_of(object.as_slice()), sense: text::string_of(sense.as_slice()) });
    assert(v@.subrange(0, before.len() as int) =~= before);
    Ok(())
}


// ---------------------------------------------------------------------------
// set_system_jitter / set_max_time_borrow
// ---------------------------------------------------------------------------

/// The first number among the words from `i` on that are no options.
pub open spec fn first_number(t: Seq<Seq<char>>, nums: Seq<(String, i64)>, i: int) -> Option<i64>
    decreases t.len() + 1 - i,
{
    if i < 1 || i >= t.len() {
        None
    } else if t[i].len() > 0 && t[i][0] == '-' {
        first_number(t, nums, i + 1)
    } else if number_of(nums, t[i]) is Some {
        number_of(nums, t[i])
    } else {
        first_number(t, nums, i + 1)
    }
}

fn first_number_exec(t: &Vec<Vec<char>>, nums: &Vec<(String, i64)>) -> (r: Option<i64>)
    ensures
        r == first_number(word_views(t@), nums@, 1),
{
    let ghost tv = word_views(t@);
    let mut i: usize = 1;
    while i < t.len()
        invariant
            tv == word_views(t@),
            1 <= i,
            first_number(tv, nums@, 1) == first_number(tv, nums@, i as int),
        decreases t@.len() + 1 - i,
    {
        assert(tv[i as int] == t@[i as int]@);
        if !(t[i].len() > 0 && t[i][0] == '-') {
            let n = number_exec(nums, &t[i]);
            if n.is_some() {
                return n;
            }
        }
        i = i + 1;
    }
    None
}

/// `set_system_jitter`: the first number of the line, or the error.
pub fn xdc_system_jitter(line: &Vec<char>, t: &Vec<Vec<char>>, nums: &Vec<(String, i64)>) -> (r: Result<i64, String>)
    ensures
        match first_number(word_views(t@), nums@, 1) {
            Some(v) => r == Ok::<i64, String>(v),
            None => r matches Err(m) && m@ == line@ + ": missing system jitter"@,
        },
{
    match first_number_exec(t, nums) {
        Some(v) => Ok(v),
        None => {
            let mut e = text::slice(line, 0, line.len());
            text::push_str(&mut e, ": missing system jitter");
            assert(e@ =~= line@ + ": missing system jitter"@);
            Err(text::string_of(e.as_slice()))
        },
    }
}

/// `set_max_time_borrow`: appends the borrow limit (the first number) of the
/// named object.
pub fn xdc_max_time_borrow(v: &mut Vec<MaxTimeBorrow>, line: &Vec<char>, t: &Vec<Vec<char>>, nums: &Vec<(String, i64)>) -> (r: Result<(), String>)
    ensures
        match first_number(word_views(t@), nums@, 1) {
            Some(ps) => {
                &&& r is Ok
                &&& final(v)@.len() == old(v)@.len() + 1
                &&& final(v)@.subrange(0, old(v)@.len() as int) == old(v)@
                &&& final(v)@.last().borrow_ps == ps
                &&& final(v)@.last().object@ == match object_name_of(join_words(word_views(t@))) { Some(n) => n, None => Seq::empty() }
            },
            None => r matches Err(m) && m@ == line@ + ": missing time borrow"@ && final(v)@ == old(v)@,
        },
{
    match first_number_exec(t, nums) {
        None => {
            let mut e = text::slice(line, 0, line.len());
            text::push_str(&mut e, ": missing time borrow");
            assert(e@ =~= line@ + ": missing time borrow"@);
            Err(text::string_of(e.as_slice()))
        },
        Some(ps) => {
            let j = join_from(t, 0);
            assert(word_views(t@) =~= t@.map_values(|x: Vec<char>| x@).subrange(0, t@.len() as int));
            let object = match object_name(&j) {
                Some(n) => n,
                None => Vec::new(),
            };
            let ghost before = v@;
            v.push(MaxTimeBorrow { object: text::string_of(object.as_slice()), borrow_ps: ps });
            assert(v@.subrange(0, before.len() as int) =~= before);
            Ok(())
        },
    }
}


// ---------------------------------------------------------------------------
// set_data_check
// ---------------------------------------------------------------------------

/// First index from `i` holding a name character, or the length.
pub open spec fn lead_from(w: Seq<char>, i: int) -> int
    decreases w.len() - i,
{
    if i < 0 || i >= w.len() {
        w.len() as int
    } else if text::is_name_char(w[i]) {
        i
    } else {
        lead_from(w, i + 1)
    }
}

/// One past the last index below `j` holding a name character, or 0.
pub open spec fn trail_from(w: Seq<char>, j: int) -> int
    decreases j,
{
    if j <= 0 || j > w.len() {
        0
    } else if text::is_name_char(w[j - 1]) {
        j
    } else {
        trail_from(w, j - 1)
    }
}

/// `w` with the characters other than ASCII letters, digits and `_` trimmed
/// from both ends.
pub open spec fn trim_name(w: Seq<char>) -> Seq<char> {
    let a = lead_from(w, 0);
    let b = trail_from(w, w.len() as int);
    if a >= b { Seq::empty() } else { w.subrange(a, b) }
}

proof fn lemma_trail_range(w: Seq<char>, j: int)
    requires
        0 <= j <= w.len(),
    ensures
        0 <= trail_from(w, j) <= j,
    decreases j,
{
    if j > 0 && !text::is_name_char(w[j - 1]) {
        lemma_trail_range(w, j - 1);
    }
}

proof fn lemma_lead_range(w: Seq<char>, i: int)
    requires
        0 <= i <= w.len(),
    ensures
        i <= lead_from(w, i) <= w.len(),
    decreases w.len() - i,
{
    if i < w.len() && !text::is_name_char(w[i]) {
        lemma_lead_range(w, i + 1);
    }
}

fn trim_name_exec(w: &Vec<char>) -> (r: Vec<char>)
    ensures
        r@ == trim_name(w@),
{
    let mut a: usize = 0;
    while a < w.len() && !is_name_char_exec(w[a])
        invariant
            a <= w@.len(),
            lead_from(w@, 0) == lead_from(w@, a as int),
        decreases w@.len() - a,
    {
        a = a + 1;
    }
    let mut b: usize = w.len();
    while b > 0 && !is_name_char_exec(w[b - 1])
        invariant
            b <= w@.len(),
            trail_from(w@, w@.len() as int) == trail_from(w@, b as int),
        decreases b,
    {
        b = b - 1;
    }
    proof {
        lemma_lead_range(w@, a as int);
        lemma_trail_range(w@, b as int);
    }
    if a >= b {
        Vec::new()
    } else {
        text::slice(w, a, b)
    }
}

/// What `set_data_check` reads from token `i` on: `-setup` / `-hold` (each may
/// carry the value), `-clock` (the named object of the rest of the line, else
/// its argument trimmed to a name; skips the argument), other options skipped,
/// and the first number as the value otherwise.
pub open spec fn dc_scan(t: Seq<Seq<char>>, nums: Seq<(String, i64)>, i: int, ws: bool, wh: bool, v: Option<i64>, clock: Seq<char>) -> (bool, bool, Option<i64>, Seq<char>)
    decreases t.len() + 1 - i,
{
    if i < 1 || i >= t.len() {
        (ws, wh, v, clock)
    } else if t[i] == "-setup"@ || t[i] == "-hold"@ {
        let ws2 = ws || t[i] == "-setup"@;
        let wh2 = wh || t[i] == "-hold"@;
        if i + 1 < t.len() && number_of(nums, t[i + 1]) is Some {
            dc_scan(t, nums, i + 2, ws2, wh2, number_of(nums, t[i + 1]), clock)
        } else {
            dc_scan(t, nums, i + 1, ws2, wh2, v, clock)
        }
    } else if t[i] == "-clock"@ {
        let c2 = match object_name_of(join_words(t.subrange(i, t.len() as int))) {
            Some(n) => n,
            None => if i + 1 < t.len() { trim_name(t[i + 1]) } else { clock },
        };
        dc_scan(t, nums, i + 2, ws, wh, v, c2)
    } else if t[i].len() > 0 && t[i][0] == '-' {
        dc_scan(t, nums, i + 1, ws, wh, v, clock)
    } else if v is None && number_of(nums, t[i]) is Some {
        dc_scan(t, nums, i + 1, ws, wh, number_of(nums, t[i]), clock)
    } else {
        dc_scan(t, nums, i + 1, ws, wh, v, clock)
    }
}

/// The (from, to, setup, hold, clock) a `set_data_check` line sets, or its error.
pub open spec fn data_check_of(t: Seq<Seq<char>>, line: Seq<char>, nums: Seq<(String, i64)>) -> Result<(Seq<char>, Seq<char>, i64, i64, Seq<char>), Seq<char>> {
    let (ws, wh, v, clock) = dc_scan(t, nums, 1, false, false, None, Seq::empty());
    let j = join_words(t);
    let from = named_after(j, "-from"@);
    let to = named_after(j, "-to"@);
    match v {
        None => Err(line + ": missing data check"@),
        Some(ps) => if from.len() == 0 && to.len() == 0 {
            Err(line + ": set_data_check needs -from/-to"@)
        } else {
            let (su, ho) = if wh && !ws { (0i64, ps) } else if ws && !wh { (ps, 0i64) } else { (ps, ps) };
            Ok((from, to, su, ho, clock))
        },
    }
}

/// `set_data_check`: appends the check the line sets.
pub fn xdc_data_check(v: &mut Vec<DataCheck>, line: &Vec<char>, t: &Vec<Vec<char>>, nums: &Vec<(String, i64)>) -> (r: Result<(), String>)
    ensures
        match data_check_of(word_views(t@), line@, nums@) {
            Ok((f, to, su, ho, c)) => {
                &&& r is Ok
                &&& final(v)@.len() == old(v)@.len() + 1
                &&& final(v)@.subrange(0, old(v)@.len() as int) == old(v)@
                &&& final(v)@.last().from@ == f && final(v)@.last().to@ == to
                &&& final(v)@.last().setup_ps == su && final(v)@.last().hold_ps == ho
                &&& final(v)@.last().clock@ == c
            },
            Err(e) => r matches Err(m) && m@ == e && final(v)@ == old(v)@,
        },
{
    let ghost tv = word_views(t@);
    let mut ws = false;
    let mut wh = false;
    let mut val: Option<i64> = None;
    let mut clock: Vec<char> = Vec::new();
    let mut i: usize = 1;
    while i < t.len()
        invariant
            tv == word_views(t@),
            1 <= i,
            dc_scan(tv, nums@, 1, false, false, None, Seq::empty()) == dc_scan(tv, nums@, i as int, ws, wh, val, clock@),
        decreases t@.len() + 1 - i,
    {
        assert(tv[i as int] == t@[i as int]@);
        assert(tv.len() == t@.len());
        let ghost (gws, gwh, gv, gc, gi) = (ws, wh, val, clock@, i as int);
        let is_setup = word_is(&t[i], "-setup");
        let is_hold = word_is(&t[i], "-hold");
        if is_setup || is_hold {
            ws = ws || is_setup;
            wh = wh || is_hold;
            let next = if i + 1 < t.len() {
                assert(tv[i + 1] == t@[i + 1]@);
                number_exec(nums, &t[i + 1])
            } else {
                None
            };
            if next.is_some() {
                val = next;
                i = i + 2;
            } else {
                i = i + 1;
            }
        } else if word_is(&t[i], "-clock") {
            let joined = join_from(t, i);
            assert(tv.subrange(i as int, tv.len() as int) =~= t@.map_values(|x: Vec<char>| x@).subrange(i as int, t@.len() as int));
            match object_name(&joined) {
                Some(n) => {
                    clock = n;
                },
                None => {
                    if i + 1 < t.len() {
                        assert(tv[i + 1] == t@[i + 1]@);
                        clock = trim_name_exec(&t[i + 1]);
                    }
                },
            }
            i = if i + 1 < t.len() { i + 2 } else { t.len() };
            assert(dc_scan(tv, nums@, gi, gws, gwh, gv, gc) == dc_scan(tv, nums@, gi + 2, gws, gwh, gv, clock@));
            assert(dc_scan(tv, nums@, gi + 2, gws, gwh, gv, clock@) == dc_scan(tv, nums@, i as int, gws, gwh, gv, clock@));
        } else if t[i].len() > 0 && t[i][0] == '-' {
            i = i + 1;
        } else {
            if val.is_none() {
                let num = number_exec(nums, &t[i]);
                if num.is_some() {
                    val = num;
                }
            }
            i = i + 1;
        }
    }
    let j = join_from(t, 0);
    assert(tv =~= t@.map_values(|x: Vec<char>| x@).subrange(0, t@.len() as int));
    let from = named_after_exec(&j, "-from");
    let to = named_after_exec(&j, "-to");
    match val {
        None => {
            let mut e = text::slice(line, 0, line.len());
            text::push_str(&mut e, ": missing data check");
            assert(e@ =~= line@ + ": missing data check"@);
            Err(text::string_of(e.as_slice()))
        },
        Some(ps) => {
            if from.len() == 0 && to.len() == 0 {
                let mut e = text::slice(line, 0, line.len());
                text::push_str(&mut e, ": set_data_check needs -from/-to");
                assert(e@ =~= line@ + ": set_data_check needs -from/-to"@);
                return Err(text::string_of(e.as_slice()));
            }
            let (su, ho): (i64, i64) = if wh && !ws { (0, ps) } else if ws && !wh { (ps, 0) } else { (ps, ps) };
            let ghost before = v@;
            v.push(DataCheck {
                from: text::string_of(from.as_slice()),
                to: text::string_of(to.as_slice()),
                setup_ps: su,
                hold_ps: ho,
                clock: text::string_of(clock.as_slice()),
            });
            assert(v@.subrange(0, before.len() as int) =~= before);
            Ok(())
        },
    }
}


// ---------------------------------------------------------------------------
// set_case_analysis / set_input_jitter
// ---------------------------------------------------------------------------

pub open spec fn is_brace(c: char) -> bool {
    c == '{' || c == '}'
}

/// First index from `i` holding no brace, or the length.
pub open spec fn brace_lead(w: Seq<char>, i: int) -> int
    decreases w.len() - i,
{
    if i < 0 || i >= w.len() {
        w.len() as int
    } else if !is_brace(w[i]) {
        i
    } else {
        brace_lead(w, i + 1)
    }
}

/// One past the last index below `j` holding no brace, or 0.
pub open spec fn brace_trail(w: Seq<char>, j: int) -> int
    decreases j,
{
    if j <= 0 || j > w.len() {
        0
    } else if !is_brace(w[j - 1]) {
        j
    } else {
        brace_trail(w, j - 1)
    }
}

/// `w` with braces trimmed from both ends.
pub open spec fn trim_braces(w: Seq<char>) -> Seq<char> {
    let a = brace_lead(w, 0);
    let b = brace_trail(w, w.len() as int);
    if a >= b { Seq::empty() } else { w.subrange(a, b) }
}

proof fn lemma_brace_ranges(w: Seq<char>, i: int, j: int)
    requires
        0 <= i <= w.len(),
        0 <= j <= w.len(),
    ensures
        i <= brace_lead(w, i) <= w.len(),
        0 <= brace_trail(w, j) <= j,
    decreases w.len() - i + j,
{
    if i < w.len() && is_brace(w[i]) {
        lemma_brace_ranges(w, i + 1, j);
    } else if j > 0 && is_brace(w[j - 1]) {
        lemma_brace_ranges(w, i, j - 1);
    }
}

fn trim_braces_exec(w: &Vec<char>) -> (r: Vec<char>)
    ensures
        r@ == trim_braces(w@),
{
    let mut a: usize = 0;
    while a < w.len() && (w[a] == '{' || w[a] == '}')
        invariant
            a <= w@.len(),
            brace_lead(w@, 0) == brace_lead(w@, a as int),
        decreases w@.len() - a,
    {
        a = a + 1;
    }
    let mut b: usize = w.len();
    while b > 0 && (w[b - 1] == '{' || w[b - 1] == '}')
        invariant
            b <= w@.len(),
            brace_trail(w@, w@.len() as int) == brace_trail(w@, b as int),
        decreases b,
    {
        b = b - 1;
    }
    proof {
        lemma_brace_ranges(w@, a as int, b as int);
    }
    if a >= b {
        Vec::new()
    } else {
        text::slice(w, a, b)
    }
}

/// The case value a word names: `0`/`zero`, `1`/`one`, `rising`, `falling`
/// (any case, braces and surrounding whitespace ignored).
pub open spec fn case_value(w: Seq<char>) -> Option<Seq<char>> {
    let k = text::lower(trim_braces(text::trim(w)));
    if k == "0"@ || k == "zero"@ {
        Some("0"@)
    } else if k == "1"@ || k == "one"@ {
        Some("1"@)
    } else if k == "rising"@ {
        Some("rising"@)
    } else if k == "falling"@ {
        Some("falling"@)
    } else {
        None
    }
}

fn case_value_exec(w: &Vec<char>) -> (r: Option<Vec<char>>)
    ensures
        match case_value(w@) {
            Some(v) => r matches Some(x) && x@ == v,
            None => r is None,
        },
{
    let k = text::lower_chars(&trim_braces_exec(&text::trim_chars(w)));
    if text::eq_str(&k, "0") || text::eq_str(&k, "zero") {
        Some(text::chars_of("0"))
    } else if text::eq_str(&k, "1") || text::eq_str(&k, "one") {
        Some(text::chars_of("1"))
    } else if text::eq_str(&k, "rising") {
        Some(text::chars_of("rising"))
    } else if text::eq_str(&k, "falling") {
        Some(text::chars_of("falling"))
    } else {
        None
    }
}

/// The case value of a `set_case_analysis` line from token `i` on: the first
/// word (other than `-quiet` / `-verbose`) that names one.
pub open spec fn case_scan(t: Seq<Seq<char>>, i: int, v: Seq<char>) -> Seq<char>
    decreases t.len() + 1 - i,
{
    if i < 1 || i >= t.len() {
        v
    } else if t[i] == "-quiet"@ || t[i] == "-verbose"@ {
        case_scan(t, i + 1, v)
    } else if v.len() == 0 && case_value(t[i]) is Some {
        case_scan(t, i + 1, case_value(t[i])->0)
    } else {
        case_scan(t, i + 1, v)
    }
}

/// The (value, object) a `set_case_analysis` line sets, or its error.
pub open spec fn case_of(t: Seq<Seq<char>>, line: Seq<char>) -> Result<(Seq<char>, Seq<char>), Seq<char>> {
    let v = case_scan(t, 1, Seq::empty());
    let object = match object_name_of(join_words(t)) { Some(n) => n, None => Seq::empty() };
    if v.len() == 0 {
        Err(line + ": set_case_analysis missing 0/1/rising/falling"@)
    } else if object.len() == 0 {
        Err(line + ": set_case_analysis missing pin/port"@)
    } else {
        Ok((v, object))
    }
}

/// `set_case_analysis`: appends the constant the line sets.
pub fn xdc_case_analysis(v: &mut Vec<CaseAnalysis>, line: &Vec<char>, t: &Vec<Vec<char>>) -> (r: Result<(), String>)
    ensures
        match case_of(word_views(t@), line@) {
            Ok((val, o)) => {
                &&& r is Ok
                &&& final(v)@.len() == old(v)@.len() + 1
                &&& final(v)@.subrange(0, old(v)@.len() as int) == old(v)@
                &&& final(v)@.last().value@ == val && final(v)@.last().object@ == o
            },
            Err(e) => r matches Err(m) && m@ == e && final(v)@ == old(v)@,
        },
{
    let ghost tv = word_views(t@);
    let mut value: Vec<char> = Vec::new();
    let mut i: usize = 1;
    while i < t.len()
        invariant
            tv == word_views(t@),
            1 <= i,
            case_scan(tv, 1, Seq::empty()) == case_scan(tv, i as int, value@),
        decreases t@.len() + 1 - i,
    {
        assert(tv[i as int] == t@[i as int]@);
        if word_is(&t[i], "-quiet") || word_is(&t[i], "-verbose") {
        } else if value.len() == 0 {
            match case_value_exec(&t[i]) {
                Some(x) => {
                    value = x;
                },
                None => {},
            }
        }
        i = i + 1;
    }
    let j = join_from(t, 0);
    assert(tv =~= t@.map_values(|x: Vec<char>| x@).subrange(0, t@.len() as int));
    let object = match object_name(&j) {
        Some(n) => n,
        None => Vec::new(),
    };
    if value.len() == 0 {
        let mut e = text::slice(line, 0, line.len());
        text::push_str(&mut e, ": set_case_analysis missing 0/1/rising/falling");
        assert(e@ =~= line@ + ": set_case_analysis missing 0/1/rising/falling"@);
        return Err(text::string_of(e.as_slice()));
    }
    if object.len() == 0 {
        let mut e = text::slice(line, 0, line.len());
        text::push_str(&mut e, ": set_case_analysis missing pin/port");
        assert(e@ =~= line@ + ": set_case_analysis missing pin/port"@);
        return Err(text::string_of(e.as_slice()));
    }
    let ghost before = v@;
    v.push(CaseAnalysis { value: text::string_of(value.as_slice()), object: text::string_of(object.as_slice()) });
    assert(v@.subrange(0, before.len() as int) =~= before);
    Ok(())
}

/// What `set_input_jitter` reads from token `i` on: options skipped, the first
/// number as the jitter, and the first other word that trims to a name other
/// than `get_clocks` as the clock.
pub open spec fn jitter_scan(t: Seq<Seq<char>>, nums: Seq<(String, i64)>, i: int, v: Option<i64>, clock: Seq<char>) -> (Option<i64>, Seq<char>)
    decreases t.len() + 1 - i,
{
    if i < 1 || i >= t.len() {
        (v, clock)
    } else if t[i].len() > 0 && t[i][0] == '-' {
        jitter_scan(t, nums, i + 1, v, clock)
    } else if number_of(nums, t[i]) is Some {
        jitter_scan(t, nums, i + 1, if v is None { number_of(nums, t[i]) } else { v }, clock)
    } else if clock.len() == 0 && trim_name(t[i]).len() > 0 && trim_name(t[i]) != "get_clocks"@ {
        jitter_scan(t, nums, i + 1, v, trim_name(t[i]))
    } else {
        jitter_scan(t, nums, i + 1, v, clock)
    }
}

/// The (clock, jitter) a `set_input_jitter` line sets (the clock falls back to
/// the named object), or its error.
pub open spec fn jitter_of(t: Seq<Seq<char>>, line: Seq<char>, nums: Seq<(String, i64)>) -> Result<(Seq<char>, i64), Seq<char>> {
    let (v, c) = jitter_scan(t, nums, 1, None, Seq::empty());
    let clock = if c.len() == 0 {
        match object_name_of(join_words(t)) { Some(n) => n, None => c }
    } else {
        c
    };
    match v {
        None => Err(line + ": missing input jitter"@),
        Some(ps) => Ok((clock, ps)),
    }
}

/// `set_input_jitter`: appends the jitter the line sets.
pub fn xdc_input_jitter(v: &mut Vec<InputJitter>, line: &Vec<char>, t: &Vec<Vec<char>>, nums: &Vec<(String, i64)>) -> (r: Result<(), String>)
    ensures
        match jitter_of(word_views(t@), line@, nums@) {
            Ok((c, ps)) => {
                &&& r is Ok
                &&& final(v)@.len() == old(v)@.len() + 1
                &&& final(v)@.subrange(0, old(v)@.len() as int) == old(v)@
                &&& final(v)@.last().clock@ == c && final(v)@.last().jitter_ps == ps
            },
            Err(e) => r matches Err(m) && m@ == e && final(v)@ == old(v)@,
        },
{
    let ghost tv = word_views(t@);
    let mut val: Option<i64> = None;
    let mut clock: Vec<char> = Vec::new();
    let mut i: usize = 1;
    while i < t.len()
        invariant
            tv == word_views(t@),
            1 <= i,
            jitter_scan(tv, nums@, 1, None, Seq::empty()) == jitter_scan(tv, nums@, i as int, val, clock@),
        decreases t@.len() + 1 - i,
    {
        assert(tv[i as int] == t@[i as int]@);
        if t[i].len() > 0 && t[i][0] == '-' {
        } else {
            let n = number_exec(nums, &t[i]);
            if n.is_some() {
                if val.is_none() {
                    val = n;
                }
            } else if clock.len() == 0 {
                let c = trim_name_exec(&t[i]);
                if c.len() > 0 && !text::eq_str(&c, "get_clocks") {
                    clock = c;
                }
            }
        }
        i = i + 1;
    }
    if clock.len() == 0 {
        let j = join_from(t, 0);
        assert(tv =~= t@.map_values(|x: Vec<char>| x@).subrange(0, t@.len() as int));
        match object_name(&j) {
            Some(n) => {
                clock = n;
            },
            None => {},
        }
    }
    match val {
        None => {
            let mut e = text::slice(line, 0, line.len());
            text::push_str(&mut e, ": missing input jitter");
            assert(e@ =~= line@ + ": missing input jitter"@);
            Err(text::string_of(e.as_slice()))
        },
        Some(ps) => {
            let ghost before = v@;
            v.push(InputJitter { clock: text::string_of(clock.as_slice()), jitter_ps: ps });
            assert(v@.subrange(0, before.len() as int) =~= before);
            Ok(())
        },
    }
}


// ---------------------------------------------------------------------------
// set_property on ports
// ---------------------------------------------------------------------------

/// The port properties an XDC `set_property` line can set.
#[derive(Clone, Copy, Debug, PartialEq, Eq, Structural)]
pub enum PortProperty {
    PackagePin,
    IoStandard,
    Drive,
    Slew,
    PullType,
    DiffTerm,
    InTerm,
}

/// The port property a key names (any case), if any.
pub open spec fn property_kind(k: Seq<char>) -> Option<PortProperty> {
    if text::eq_ignore_case(k, "PACKAGE_PIN"@) {
        Some(PortProperty::PackagePin)
    } else if text::eq_ignore_case(k, "IOSTANDARD"@) {
        Some(PortProperty::IoStandard)
    } else if text::eq_ignore_case(k, "DRIVE"@) {
        Some(PortProperty::Drive)
    } else if text::eq_ignore_case(k, "SLEW"@) {
        Some(PortProperty::Slew)
    } else if text::eq_ignore_case(k, "PULLTYPE"@) {
        Some(PortProperty::PullType)
    } else if text::eq_ignore_case(k, "DIFF_TERM"@) {
        Some(PortProperty::DiffTerm)
    } else if text::eq_ignore_case(k, "IN_TERM"@) {
        Some(PortProperty::InTerm)
    } else {
        None
    }
}

/// The (property, port, value) a `set_property` line sets on a port: the port
/// is the `get_ports` name after the value (for all but `PACKAGE_PIN` also the
/// fourth word trimmed to a name); nothing without a key, value and port.
pub open spec fn port_property_of(t: Seq<Seq<char>>) -> Option<(PortProperty, Seq<char>, Seq<char>)> {
    if t.len() < 3 {
        None
    } else {
        match property_kind(t[1]) {
            None => None,
            Some(k) => {
                let j = join_words(t.subrange(3, t.len() as int));
                let port = match tcl_name_of(j, "get_ports"@) {
                    Some(n) => n,
                    None => if k != PortProperty::PackagePin && t.len() > 3 { trim_name(t[3]) } else { Seq::empty() },
                };
                if port.len() == 0 { None } else { Some((k, port, t[2])) }
            },
        }
    }
}

fn property_kind_exec(k: &Vec<char>) -> (r: Option<PortProperty>)
    ensures
        r == property_kind(k@),
{
    if text::eq_ignore_case_str(k, "PACKAGE_PIN") {
        Some(PortProperty::PackagePin)
    } else if text::eq_ignore_case_str(k, "IOSTANDARD") {
        Some(PortProperty::IoStandard)
    } else if text::eq_ignore_case_str(k, "DRIVE") {
        Some(PortProperty::Drive)
    } else if text::eq_ignore_case_str(k, "SLEW") {
        Some(PortProperty::Slew)
    } else if text::eq_ignore_case_str(k, "PULLTYPE") {
        Some(PortProperty::PullType)
    } else if text::eq_ignore_case_str(k, "DIFF_TERM") {
        Some(PortProperty::DiffTerm)
    } else if text::eq_ignore_case_str(k, "IN_TERM") {
        Some(PortProperty::InTerm)
    } else {
        None
    }
}

/// `set_property` on a port: the property, port and value it sets, if any.
pub fn xdc_port_property(t: &Vec<Vec<char>>) -> (r: Option<(PortProperty, String, String)>)
    ensures
        match port_property_of(word_views(t@)) {
            Some((k, p, v)) => r matches Some((k2, p2, v2)) && k2 == k && p2@ == p && v2@ == v,
            None => r is None,
        },
{
    let ghost tv = word_views(t@);
    if t.len() < 3 {
        return None;
    }
    assert(tv[1] == t@[1]@ && tv[2] == t@[2]@);
    let k = match property_kind_exec(&t[1]) {
        Some(k) => k,
        None => {
            return None;
        },
    };
    let j = join_from(t, 3);
    assert(tv.subrange(3, tv.len() as int) =~= t@.map_values(|x: Vec<char>| x@).subrange(3, t@.len() as int));
    let port = match tcl_name(&j, "get_ports") {
        Some(n) => n,
        None => {
            let pin = match k {
                PortProperty::PackagePin => true,
                _ => false,
            };
            if !pin && t.len() > 3 {
                assert(tv[3] == t@[3]@);
                trim_name_exec(&t[3])
            } else {
                Vec::new()
            }
        },
    };
    if port.len() == 0 {
        return None;
    }
    Some((k, text::string_of(port.as_slice()), text::string_of(t[2].as_slice())))
}

} // verus!
