//! Reading back what [`Design::to_hnf`](crate::ir::Design::to_hnf) writes:
//! the text forms HNF is made of (space-separated words, newline-ended
//! lines) and the round trip through [`Design::from_hnf`](crate::ir::Design::from_hnf).

use vstd::prelude::*;
use crate::text;
use crate::ir::{self, join_words};

verus! {

// ---------------------------------------------------------------------------
// Words and lines
// ---------------------------------------------------------------------------

/// No whitespace in `t`.
pub open spec fn ws_free(t: Seq<char>) -> bool {
    forall|i: int| 0 <= i < t.len() ==> !text::is_ws(#[trigger] t[i])
}

/// A word as `split_whitespace` yields it: non-empty, no whitespace.
pub open spec fn is_token(t: Seq<char>) -> bool {
    t.len() > 0 && ws_free(t)
}

pub open spec fn all_tokens(ts: Seq<Seq<char>>) -> bool {
    forall|i: int| 0 <= i < ts.len() ==> is_token(#[trigger] ts[i])
}

/// Every whitespace character of `l` is a plain space.
pub open spec fn spaced(l: Seq<char>) -> bool {
    forall|i: int| 0 <= i < l.len() ==> (#[trigger] l[i]) == ' ' || !text::is_ws(l[i])
}

/// A value that reads back as itself after splitting into words and joining
/// them with single spaces.
pub open spec fn plain(v: Seq<char>) -> bool {
    join_words(text::words(v)) == v
}

/// Lines, each followed by a newline.
pub open spec fn nl_join(ls: Seq<Seq<char>>) -> Seq<char>
    decreases ls.len(),
{
    if ls.len() == 0 {
        Seq::empty()
    } else {
        nl_join(ls.drop_last()) + ls.last() + seq!['\n']
    }
}

proof fn lemma_skip_ws_shift(p: Seq<char>, s: Seq<char>, i: int)
    requires
        0 <= i,
    ensures
        text::skip_ws_from(p + s, p.len() + i) == p.len() + text::skip_ws_from(s, i),
    decreases s.len() - i,
{
    if i < s.len() {
        assert((p + s)[p.len() + i] == s[i]);
        if text::is_ws(s[i]) {
            lemma_skip_ws_shift(p, s, i + 1);
        }
    }
}

proof fn lemma_find_ws_shift(p: Seq<char>, s: Seq<char>, i: int)
    requires
        0 <= i,
    ensures
        text::find_ws_from(p + s, p.len() + i) == p.len() + text::find_ws_from(s, i),
    decreases s.len() - i,
{
    if i < s.len() {
        assert((p + s)[p.len() + i] == s[i]);
        if !text::is_ws(s[i]) {
            lemma_find_ws_shift(p, s, i + 1);
        }
    }
}

pub proof fn lemma_find_char_shift(p: Seq<char>, s: Seq<char>, c: char, i: int)
    requires
        0 <= i,
    ensures
        text::find_char_from(p + s, c, p.len() + i) == p.len() + text::find_char_from(s, c, i),
    decreases s.len() - i,
{
    if i < s.len() {
        assert((p + s)[p.len() + i] == s[i]);
        if s[i] != c {
            lemma_find_char_shift(p, s, c, i + 1);
        }
    }
}

proof fn lemma_words_shift(p: Seq<char>, s: Seq<char>, i: int)
    requires
        0 <= i,
    ensures
        text::words_from(p + s, p.len() + i) == text::words_from(s, i),
    decreases s.len() - i,
{
    lemma_skip_ws_shift(p, s, i);
    let k = text::skip_ws_from(s, i);
    if k < s.len() {
        text::lemma_skip_ws_ge(s, i);
        text::lemma_find_ws_ge(s, k);
        lemma_find_ws_shift(p, s, k);
        let f = text::find_ws_from(s, k);
        assert((p + s).subrange(p.len() + k, p.len() + f) =~= s.subrange(k, f));
        lemma_words_shift(p, s, f);
    } else {
        text::lemma_skip_ws_ge(s, i);
    }
}

/// A leading whitespace character does not change the words.
proof fn lemma_words_skip_one(s: Seq<char>)
    requires
        s.len() > 0,
        text::is_ws(s[0]),
    ensures
        text::words(s) == text::words(s.drop_first()),
{
    assert(text::skip_ws_from(s, 0) == text::skip_ws_from(s, 1));
    assert(s =~= seq![s[0]] + s.drop_first());
    lemma_words_shift(seq![s[0]], s.drop_first(), 0);
    lemma_skip_ws_shift(seq![s[0]], s.drop_first(), 0);
    text::lemma_skip_ws_ge(s, 1);
    if text::skip_ws_from(s, 1) < s.len() {
        text::lemma_find_ws_ge(s, text::skip_ws_from(s, 1));
    }
}

proof fn lemma_find_ws_token(t: Seq<char>, s: Seq<char>, i: int)
    requires
        ws_free(t),
        0 <= i <= t.len(),
        s.len() == 0 || text::is_ws(s[0]),
    ensures
        text::find_ws_from(t + s, i) == t.len(),
    decreases t.len() - i,
{
    if i < t.len() {
        assert((t + s)[i] == t[i]);
        lemma_find_ws_token(t, s, i + 1);
    } else if s.len() > 0 {
        assert((t + s)[i] == s[0]);
    }
}

/// The words of a word followed by whitespace or nothing, then more text.
proof fn lemma_words_token_first(t: Seq<char>, s: Seq<char>)
    requires
        is_token(t),
        s.len() == 0 || text::is_ws(s[0]),
    ensures
        text::words(t + s) == seq![t] + text::words(s),
{
    assert((t + s)[0] == t[0]);
    assert(text::skip_ws_from(t + s, 0) == 0);
    lemma_find_ws_token(t, s, 0);
    assert((t + s).subrange(0, t.len() as int) =~= t);
    lemma_words_shift(t, s, 0);
}

proof fn lemma_words_all_ws(s: Seq<char>)
    requires
        forall|i: int| 0 <= i < s.len() ==> text::is_ws(#[trigger] s[i]),
    ensures
        text::words(s) == Seq::<Seq<char>>::empty(),
{
    assert forall|j: int| 0 <= j <= s.len() implies text::skip_ws_from(s, j) == s.len() by {
        lemma_skip_all(s, j);
    }
}

proof fn lemma_skip_all(s: Seq<char>, j: int)
    requires
        forall|i: int| 0 <= i < s.len() ==> text::is_ws(#[trigger] s[i]),
        0 <= j <= s.len(),
    ensures
        text::skip_ws_from(s, j) == s.len(),
    decreases s.len() - j,
{
    if j < s.len() {
        lemma_skip_all(s, j + 1);
    }
}

/// `join_words` seen from the front.
pub proof fn lemma_join_front(ts: Seq<Seq<char>>)
    requires
        ts.len() >= 2,
    ensures
        join_words(ts) == ts[0] + seq![' '] + join_words(ts.drop_first()),
    decreases ts.len(),
{
    if ts.len() > 2 {
        lemma_join_front(ts.drop_last());
        assert(ts.drop_last().drop_first() =~= ts.drop_first().drop_last());
        assert(ts.drop_first().last() == ts.last());
        assert(ts.drop_last()[0] == ts[0]);
        let a = join_words(ts.drop_first().drop_last());
        assert(join_words(ts.drop_first()) == a + seq![' '] + ts.last());
        assert(join_words(ts.drop_last()) == ts[0] + seq![' '] + a);
        assert(join_words(ts) == join_words(ts.drop_last()) + seq![' '] + ts.last());
        assert(ts[0] + seq![' '] + a + seq![' '] + ts.last() =~= ts[0] + seq![' '] + (a + seq![' '] + ts.last()));
    } else {
        assert(ts.drop_first() =~= seq![ts[1]]);
        assert(ts.drop_last() =~= seq![ts[0]]);
        assert(join_words(ts.drop_first()) == ts[1]);
        assert(join_words(ts.drop_last()) == ts[0]);
    }
}

/// Words joined by single spaces, with trailing whitespace, split back into
/// the same words.
pub proof fn lemma_words_join(ts: Seq<Seq<char>>, pad: Seq<char>)
    requires
        all_tokens(ts),
        forall|i: int| 0 <= i < pad.len() ==> text::is_ws(#[trigger] pad[i]),
    ensures
        text::words(join_words(ts) + pad) == ts,
    decreases ts.len(),
{
    if ts.len() == 0 {
        assert(join_words(ts) + pad =~= pad);
        lemma_words_all_ws(pad);
    } else if ts.len() == 1 {
        assert(join_words(ts) == ts[0]);
        assert(is_token(ts[0]));
        lemma_words_token_first(ts[0], pad);
        lemma_words_all_ws(pad);
        assert(seq![ts[0]] + Seq::<Seq<char>>::empty() =~= ts);
    } else {
        lemma_join_front(ts);
        let rest = join_words(ts.drop_first()) + pad;
        assert(join_words(ts) + pad =~= ts[0] + (seq![' '] + rest));
        assert(is_token(ts[0]));
        lemma_words_token_first(ts[0], seq![' '] + rest);
        lemma_words_skip_one(seq![' '] + rest);
        assert((seq![' '] + rest).drop_first() =~= rest);
        assert forall|i: int| 0 <= i < ts.drop_first().len() implies is_token(#[trigger] ts.drop_first()[i]) by {
            assert(is_token(ts[i + 1]));
        }
        lemma_words_join(ts.drop_first(), pad);
        assert(seq![ts[0]] + ts.drop_first() =~= ts);
    }
}


/// First and last characters of words joined by spaces.
pub proof fn lemma_join_ends(ts: Seq<Seq<char>>)
    requires
        all_tokens(ts),
        ts.len() > 0,
    ensures
        join_words(ts).len() > 0,
        join_words(ts)[0] == ts[0][0],
        join_words(ts).last() == ts.last().last(),
        spaced(join_words(ts)),
    decreases ts.len(),
{
    assert(is_token(ts[0]));
    assert(is_token(ts.last()));
    if ts.len() > 1 {
        let d = ts.drop_last();
        assert forall|i: int| 0 <= i < d.len() implies is_token(#[trigger] d[i]) by {
            assert(d[i] == ts[i]);
        }
        lemma_join_ends(d);
        let j = join_words(d);
        let s = j + seq![' '] + ts.last();
        assert(join_words(ts) == s);
        assert(s[0] == j[0]);
        assert forall|i: int| 0 <= i < s.len() implies (#[trigger] s[i]) == ' ' || !text::is_ws(s[i]) by {
            if i < j.len() {
                assert(s[i] == j[i]);
            } else if i > j.len() {
                assert(s[i] == ts.last()[i - j.len() - 1]);
            }
        }
    } else {
        assert(join_words(ts) == ts[0]);
    }
}

/// Trimming words joined by spaces, with or without one trailing space.
pub proof fn lemma_trim_join(ts: Seq<Seq<char>>, pad: Seq<char>)
    requires
        all_tokens(ts),
        ts.len() > 0,
        pad == Seq::<char>::empty() || pad == seq![' '],
    ensures
        text::trim(join_words(ts) + pad) == join_words(ts),
{
    lemma_join_ends(ts);
    let j = join_words(ts);
    let s = j + pad;
    assert(is_token(ts[0]));
    assert(is_token(ts.last()));
    assert(!text::is_ws(ts[0][0]));
    assert(!text::is_ws(ts.last()[ts.last().len() - 1]));
    assert(s[0] == j[0]);
    assert(text::skip_ws_from(s, 0) == 0);
    assert(s[j.len() - 1] == j.last());
    if pad.len() == 1 {
        assert(s[s.len() - 1] == ' ');
        assert(text::trim_end_from(s, s.len() as int) == text::trim_end_from(s, j.len() as int));
    }
    assert(text::trim_end_from(s, j.len() as int) == j.len());
    assert(s.subrange(0, j.len() as int) =~= j);
}

/// `spaced` text has no line break in it.
proof fn lemma_spaced_no_nl(l: Seq<char>, i: int)
    requires
        spaced(l),
        0 <= i <= l.len(),
    ensures
        text::find_char_from(l + seq!['\n'], '\n', i) == l.len(),
    decreases l.len() - i,
{
    if i < l.len() {
        assert((l + seq!['\n'])[i] == l[i]);
        assert(l[i] != '\n');
        lemma_spaced_no_nl(l, i + 1);
    } else {
        assert((l + seq!['\n'])[i] == '\n');
    }
}

pub proof fn lemma_nl_join_append(a: Seq<Seq<char>>, b: Seq<Seq<char>>)
    ensures
        nl_join(a + b) == nl_join(a) + nl_join(b),
    decreases b.len(),
{
    if b.len() == 0 {
        assert(a + b =~= a);
        assert(nl_join(a) + nl_join(b) =~= nl_join(a));
    } else {
        assert((a + b).drop_last() =~= a + b.drop_last());
        lemma_nl_join_append(a, b.drop_last());
        assert((a + b).last() == b.last());
        assert(nl_join(a) + nl_join(b) =~= nl_join(a) + nl_join(b.drop_last()) + b.last() + seq!['\n']);
    }
}

proof fn lemma_lines_shift(p: Seq<char>, s: Seq<char>, i: int)
    requires
        0 <= i,
    ensures
        text::lines_from(p + s, p.len() + i) == text::lines_from(s, i),
    decreases s.len() + 1 - i,
{
    if i < s.len() {
        lemma_find_char_shift(p, s, '\n', i);
        text::lemma_find_char_ge(s, '\n', i);
        let j = text::find_char_from(s, '\n', i);
        assert((p + s).subrange(p.len() + i, p.len() + j) =~= s.subrange(i, j));
        assert(text::line_at(p + s, p.len() + i) =~= text::line_at(s, i));
        lemma_lines_shift(p, s, j + 1);
    }
}

/// Newline-ended lines read back as the same lines.
pub proof fn lemma_lines_nl_join(ls: Seq<Seq<char>>)
    requires
        forall|i: int| 0 <= i < ls.len() ==> spaced(#[trigger] ls[i]),
    ensures
        text::lines(nl_join(ls)) == ls,
    decreases ls.len(),
{
    if ls.len() > 0 {
        let l = ls[0];
        let rest = ls.drop_first();
        assert(ls =~= seq![l] + rest);
        lemma_nl_join_append(seq![l], rest);
        assert(seq![l].drop_last() =~= Seq::<Seq<char>>::empty());
        let h = l + seq!['\n'];
        assert(nl_join(Seq::<Seq<char>>::empty()) == Seq::<char>::empty());
        assert(seq![l].last() == l);
        assert(nl_join(seq![l]) == nl_join(seq![l].drop_last()) + seq![l].last() + seq!['\n']);
        assert(nl_join(seq![l]) =~= h);
        let s = nl_join(ls);
        assert(s == h + nl_join(rest));
        assert(spaced(l));
        lemma_spaced_no_nl(l, 0);
        lemma_find_char_shift(Seq::<char>::empty(), s, '\n', 0);
        lemma_find_char_prefix(h, nl_join(rest), 0);
        assert(text::find_char_from(s, '\n', 0) == l.len());
        assert(s.subrange(0, l.len() as int) =~= l);
        if l.len() > 0 {
            assert(l.last() == l[l.len() - 1]);
            assert(l[l.len() - 1] != '\r');
        }
        assert(text::line_at(s, 0) == l);
        lemma_lines_shift(h, nl_join(rest), 0);
        assert forall|i: int| 0 <= i < rest.len() implies spaced(#[trigger] rest[i]) by {
            assert(rest[i] == ls[i + 1]);
        }
        lemma_lines_nl_join(rest);
        assert(text::lines(s) =~= seq![l] + rest);
    } else {
        assert(text::lines(nl_join(ls)) =~= ls);
    }
}

/// A search that ends inside `h` does not look past it.
proof fn lemma_find_char_prefix(h: Seq<char>, t: Seq<char>, i: int)
    requires
        0 <= i <= h.len(),
        text::find_char_from(h, '\n', i) < h.len(),
    ensures
        text::find_char_from(h + t, '\n', i) == text::find_char_from(h, '\n', i),
    decreases h.len() - i,
{
    assert((h + t)[i] == h[i]);
    if h[i] != '\n' {
        lemma_find_char_prefix(h, t, i + 1);
    }
}

// ---------------------------------------------------------------------------
// Reading lines
// ---------------------------------------------------------------------------

/// Reading `a` then `b` is reading `a + b`.
pub proof fn lemma_fold_append(st: Option<ir::DesignModel>, a: Seq<Seq<char>>, b: Seq<Seq<char>>)
    ensures
        ir::hnf_fold(st, a + b) == match ir::hnf_fold(st, a) {
            Err(e) => Err(e),
            Ok(s2) => ir::hnf_fold(s2, b),
        },
    decreases a.len(),
{
    if a.len() == 0 {
        assert(a + b =~= b);
    } else {
        assert((a + b).drop_first() =~= a.drop_first() + b);
        assert((a + b)[0] == a[0]);
        match ir::hnf_step(st, text::trim(a[0])) {
            Err(e) => {},
            Ok(s2) => {
                lemma_fold_append(s2, a.drop_first(), b);
            },
        }
    }
}

/// Reading one more line.
pub proof fn lemma_fold_push(st: Option<ir::DesignModel>, a: Seq<Seq<char>>, l: Seq<char>)
    ensures
        ir::hnf_fold(st, a.push(l)) == match ir::hnf_fold(st, a) {
            Err(e) => Err(e),
            Ok(s2) => ir::hnf_step(s2, text::trim(l)),
        },
{
    lemma_fold_append(st, a, seq![l]);
    assert(a + seq![l] =~= a.push(l));
    assert(seq![l].drop_first() =~= Seq::<Seq<char>>::empty());
    match ir::hnf_fold(st, a) {
        Err(e) => {},
        Ok(s2) => {
            match ir::hnf_step(s2, text::trim(l)) {
                Err(e) => {},
                Ok(s3) => {
                    assert(ir::hnf_fold(s3, Seq::<Seq<char>>::empty()) == Ok::<Option<ir::DesignModel>, Seq<char>>(s3));
                },
            }
        },
    }
}

/// A line of words: what `hnf_step` sees of it.
pub open spec fn line_words(ts: Seq<Seq<char>>, pad: bool) -> Seq<char> {
    join_words(ts) + if pad { seq![' '] } else { Seq::<char>::empty() }
}

pub proof fn lemma_line(ts: Seq<Seq<char>>, pad: bool)
    requires
        all_tokens(ts),
        ts.len() > 0,
    ensures
        text::trim(line_words(ts, pad)) == join_words(ts),
        text::words(join_words(ts)) == ts,
        join_words(ts).len() > 0,
        join_words(ts)[0] == ts[0][0],
        spaced(line_words(ts, pad)),
        text::starts_with(join_words(ts), "HNF"@) ==> ts[0][0] == 'H',
{
    let p = if pad { seq![' '] } else { Seq::<char>::empty() };
    lemma_trim_join(ts, p);
    lemma_words_join(ts, Seq::<char>::empty());
    assert(join_words(ts) + Seq::<char>::empty() =~= join_words(ts));
    lemma_join_ends(ts);
    let l = line_words(ts, pad);
    assert forall|i: int| 0 <= i < l.len() implies (#[trigger] l[i]) == ' ' || !text::is_ws(l[i]) by {
        if i < join_words(ts).len() {
            assert(l[i] == join_words(ts)[i]);
        }
    }
    reveal_strlit("HNF");
    if text::starts_with(join_words(ts), "HNF"@) {
        assert(join_words(ts).subrange(0, 3)[0] == join_words(ts)[0]);
    }
}

pub proof fn lemma_join_append(a: Seq<Seq<char>>, b: Seq<Seq<char>>)
    requires
        a.len() > 0,
        b.len() > 0,
    ensures
        join_words(a + b) == join_words(a) + seq![' '] + join_words(b),
    decreases b.len(),
{
    if b.len() == 1 {
        assert((a + b).drop_last() =~= a);
        assert(join_words(b) == b[0]);
    } else {
        assert((a + b).drop_last() =~= a + b.drop_last());
        lemma_join_append(a, b.drop_last());
        assert(join_words(a) + seq![' '] + join_words(b) =~= join_words(a) + seq![' '] + join_words(b.drop_last()) + seq![' '] + b.last());
    }
}

pub proof fn lemma_join2(a: Seq<char>, b: Seq<char>)
    ensures
        join_words(seq![a, b]) == a + seq![' '] + b,
{
    assert(seq![a, b].drop_last() =~= seq![a]);
    assert(join_words(seq![a]) == a);
    assert(seq![a, b].last() == b);
}

pub proof fn lemma_join3(a: Seq<char>, b: Seq<char>, c: Seq<char>)
    ensures
        join_words(seq![a, b, c]) == a + seq![' '] + b + seq![' '] + c,
{
    assert(seq![a, b, c].drop_last() =~= seq![a, b]);
    lemma_join2(a, b);
}

/// The words of any text are words.
pub proof fn lemma_words_tokens(s: Seq<char>, i: int)
    requires
        0 <= i,
    ensures
        all_tokens(text::words_from(s, i)),
    decreases s.len() - i,
{
    let k = text::skip_ws_from(s, i);
    if k < s.len() {
        text::lemma_skip_ws_ge(s, i);
        text::lemma_find_ws_ge(s, k);
        let f = text::find_ws_from(s, k);
        lemma_words_tokens(s, f);
        let t = s.subrange(k, f);
        assert(is_token(t));
        let ws = text::words_from(s, i);
        assert(ws == seq![t] + text::words_from(s, f));
        assert forall|j: int| 0 <= j < ws.len() implies is_token(#[trigger] ws[j]) by {
            if j > 0 {
                assert(ws[j] == text::words_from(s, f)[j - 1]);
            }
        }
    }
}

/// A plain value as a line tail: its words, and whether the line ends in a space.
pub proof fn lemma_tail(head: Seq<Seq<char>>, v: Seq<char>)
    requires
        plain(v),
        head.len() > 0,
    ensures
        all_tokens(text::words(v)),
        join_words(head) + seq![' '] + v == line_words(head + text::words(v), text::words(v).len() == 0),
        (head + text::words(v)).subrange(head.len() as int, (head + text::words(v)).len() as int) == text::words(v),
{
    let vs = text::words(v);
    lemma_words_tokens(v, 0);
    assert((head + vs).subrange(head.len() as int, (head + vs).len() as int) =~= vs);
    if vs.len() == 0 {
        assert(v == join_words(vs));
        assert(v =~= Seq::<char>::empty());
        assert(head + vs =~= head);
        assert(join_words(head) + seq![' '] + v =~= line_words(head, true));
    } else {
        lemma_join_append(head, vs);
        assert(join_words(head) + seq![' '] + v =~= line_words(head + vs, false));
    }
}

// ---------------------------------------------------------------------------
// The lines of an HNF text
// ---------------------------------------------------------------------------

pub open spec fn attr_line(tag: Seq<char>, owner: Option<Seq<char>>, k: Seq<char>, v: Seq<char>) -> Seq<char> {
    tag + " "@ + match owner {
        Some(o) => o + " "@,
        None => Seq::empty(),
    } + k + " "@ + v
}

pub open spec fn attr_seq(tag: Seq<char>, owner: Option<Seq<char>>, ps: Seq<(Seq<char>, Seq<char>)>) -> Seq<Seq<char>> {
    ps.map_values(|p: (Seq<char>, Seq<char>)| attr_line(tag, owner, p.0, p.1))
}

pub open spec fn port_line(p: ir::Port) -> Seq<char> {
    "port "@ + p.name@ + " "@ + ir::dir_text(p.dir)
}

pub open spec fn port_seq(p: ir::Port) -> Seq<Seq<char>> {
    seq![port_line(p)] + attr_seq("pattr"@, Some(p.name@), p.attrs.pairs())
}

pub open spec fn cell_line(c: ir::Cell) -> Seq<char> {
    "cell "@ + c.name@ + " "@ + ir::kind_text(c.kind)
}

pub open spec fn cell_seq(c: ir::Cell) -> Seq<Seq<char>> {
    seq![cell_line(c)] + attr_seq("cattr"@, Some(c.name@), c.attrs.pairs())
}

pub open spec fn net_line(n: ir::Net) -> Seq<char> {
    "net "@ + n.name@ + " "@ + ir::eps_text(ir::ep_views(n.endpoints@))
}

pub open spec fn net_seq(n: ir::Net) -> Seq<Seq<char>> {
    seq![net_line(n)] + attr_seq("nattr"@, Some(n.name@), n.attrs.pairs())
}

pub open spec fn inst_line(i: ir::Instance) -> Seq<char> {
    "inst "@ + i.name@ + " "@ + i.module@ + " "@ + ir::conns_text(ir::kv(i.conns@))
}

pub open spec fn inst_seq(i: ir::Instance) -> Seq<Seq<char>> {
    seq![inst_line(i)] + attr_seq("iattr"@, Some(i.name@), i.attrs.pairs())
}

pub open spec fn ports_seq(ps: Seq<ir::Port>) -> Seq<Seq<char>>
    decreases ps.len(),
{
    if ps.len() == 0 { Seq::empty() } else { ports_seq(ps.drop_last()) + port_seq(ps.last()) }
}

pub open spec fn cells_seq(cs: Seq<ir::Cell>) -> Seq<Seq<char>>
    decreases cs.len(),
{
    if cs.len() == 0 { Seq::empty() } else { cells_seq(cs.drop_last()) + cell_seq(cs.last()) }
}

pub open spec fn nets_seq(ns: Seq<ir::Net>) -> Seq<Seq<char>>
    decreases ns.len(),
{
    if ns.len() == 0 { Seq::empty() } else { nets_seq(ns.drop_last()) + net_seq(ns.last()) }
}

pub open spec fn insts_seq(is: Seq<ir::Instance>) -> Seq<Seq<char>>
    decreases is.len(),
{
    if is.len() == 0 { Seq::empty() } else { insts_seq(is.drop_last()) + inst_seq(is.last()) }
}

/// The lines of `to_hnf`'s text.
pub open spec fn hnf_seq(d: ir::Design) -> Seq<Seq<char>> {
    seq!["HNF 1"@, "design "@ + d.name@] + attr_seq("dattr"@, None, d.attrs.pairs()) + ports_seq(d.ports@)
        + cells_seq(d.cells@) + nets_seq(d.nets@) + insts_seq(d.instances@)
}

pub proof fn lemma_nl_one(l: Seq<char>)
    ensures
        nl_join(seq![l]) == l + "\n"@,
{
    reveal_strlit("\n");
    assert(seq![l].drop_last() =~= Seq::<Seq<char>>::empty());
    assert(nl_join(Seq::<Seq<char>>::empty()) == Seq::<char>::empty());
    assert(nl_join(seq![l]) =~= l + "\n"@);
}

pub proof fn lemma_attr_text(tag: Seq<char>, owner: Option<Seq<char>>, ps: Seq<(Seq<char>, Seq<char>)>)
    ensures
        ir::attr_lines(tag, owner, ps) == nl_join(attr_seq(tag, owner, ps)),
    decreases ps.len(),
{
    if ps.len() > 0 {
        lemma_attr_text(tag, owner, ps.drop_last());
        let l = attr_line(tag, owner, ps.last().0, ps.last().1);
        assert(attr_seq(tag, owner, ps) =~= attr_seq(tag, owner, ps.drop_last()).push(l));
        lemma_nl_join_append(attr_seq(tag, owner, ps.drop_last()), seq![l]);
        assert(attr_seq(tag, owner, ps.drop_last()) + seq![l] =~= attr_seq(tag, owner, ps.drop_last()).push(l));
        lemma_nl_one(l);
        assert(ir::attr_lines(tag, owner, ps) =~= nl_join(attr_seq(tag, owner, ps.drop_last())) + (l + "\n"@));
    } else {
        assert(attr_seq(tag, owner, ps) =~= Seq::<Seq<char>>::empty());
    }
}

proof fn lemma_item_text(head: Seq<char>, rest: Seq<Seq<char>>)
    ensures
        head + "\n"@ + nl_join(rest) == nl_join(seq![head] + rest),
{
    lemma_nl_join_append(seq![head], rest);
    lemma_nl_one(head);
}

pub proof fn lemma_ports_text(ps: Seq<ir::Port>)
    ensures
        ir::ports_text(ps) == nl_join(ports_seq(ps)),
    decreases ps.len(),
{
    if ps.len() > 0 {
        let p = ps.last();
        lemma_ports_text(ps.drop_last());
        lemma_attr_text("pattr"@, Some(p.name@), p.attrs.pairs());
        lemma_item_text(port_line(p), attr_seq("pattr"@, Some(p.name@), p.attrs.pairs()));
        lemma_nl_join_append(ports_seq(ps.drop_last()), port_seq(p));
        assert(ir::port_text(p) =~= port_line(p) + "\n"@ + ir::attr_lines("pattr"@, Some(p.name@), p.attrs.pairs()));
    }
}

pub proof fn lemma_cells_text(cs: Seq<ir::Cell>)
    ensures
        ir::cells_text(cs) == nl_join(cells_seq(cs)),
    decreases cs.len(),
{
    if cs.len() > 0 {
        let c = cs.last();
        lemma_cells_text(cs.drop_last());
        lemma_attr_text("cattr"@, Some(c.name@), c.attrs.pairs());
        lemma_item_text(cell_line(c), attr_seq("cattr"@, Some(c.name@), c.attrs.pairs()));
        lemma_nl_join_append(cells_seq(cs.drop_last()), cell_seq(c));
        assert(ir::cell_text(c) =~= cell_line(c) + "\n"@ + ir::attr_lines("cattr"@, Some(c.name@), c.attrs.pairs()));
    }
}

pub proof fn lemma_nets_text(ns: Seq<ir::Net>)
    ensures
        ir::nets_text(ns) == nl_join(nets_seq(ns)),
    decreases ns.len(),
{
    if ns.len() > 0 {
        let n = ns.last();
        lemma_nets_text(ns.drop_last());
        lemma_attr_text("nattr"@, Some(n.name@), n.attrs.pairs());
        lemma_item_text(net_line(n), attr_seq("nattr"@, Some(n.name@), n.attrs.pairs()));
        lemma_nl_join_append(nets_seq(ns.drop_last()), net_seq(n));
        assert(ir::net_text(n) =~= net_line(n) + "\n"@ + ir::attr_lines("nattr"@, Some(n.name@), n.attrs.pairs()));
    }
}

pub proof fn lemma_insts_text(is: Seq<ir::Instance>)
    ensures
        ir::insts_text(is) == nl_join(insts_seq(is)),
    decreases is.len(),
{
    if is.len() > 0 {
        let i = is.last();
        lemma_insts_text(is.drop_last());
        lemma_attr_text("iattr"@, Some(i.name@), i.attrs.pairs());
        lemma_item_text(inst_line(i), attr_seq("iattr"@, Some(i.name@), i.attrs.pairs()));
        lemma_nl_join_append(insts_seq(is.drop_last()), inst_seq(i));
        assert(ir::inst_text(i) =~= inst_line(i) + "\n"@ + ir::attr_lines("iattr"@, Some(i.name@), i.attrs.pairs()));
    }
}

pub proof fn lemma_hnf_text(d: ir::Design)
    ensures
        ir::hnf_text(d) == nl_join(hnf_seq(d)),
{
    reveal_strlit("HNF 1\ndesign ");
    reveal_strlit("HNF 1");
    reveal_strlit("design ");
    reveal_strlit("\n");
    let head = seq!["HNF 1"@, "design "@ + d.name@];
    assert(head.drop_last() =~= seq!["HNF 1"@]);
    lemma_nl_one("HNF 1"@);
    assert(nl_join(head) =~= "HNF 1\ndesign "@ + d.name@ + "\n"@);
    let a = attr_seq("dattr"@, None, d.attrs.pairs());
    lemma_attr_text("dattr"@, None, d.attrs.pairs());
    lemma_ports_text(d.ports@);
    lemma_cells_text(d.cells@);
    lemma_nets_text(d.nets@);
    lemma_insts_text(d.instances@);
    let p = ports_seq(d.ports@);
    let c = cells_seq(d.cells@);
    let n = nets_seq(d.nets@);
    let i = insts_seq(d.instances@);
    lemma_nl_join_append(head, a);
    lemma_nl_join_append(head + a, p);
    lemma_nl_join_append(head + a + p, c);
    lemma_nl_join_append(head + a + p + c, n);
    lemma_nl_join_append(head + a + p + c + n, i);
    assert(ir::hnf_text(d) =~= nl_join(head) + nl_join(a) + nl_join(p) + nl_join(c) + nl_join(n) + nl_join(i));
}

// ---------------------------------------------------------------------------
// Attribute lines
// ---------------------------------------------------------------------------

/// `m` with the pairs `ps` inserted in order.
pub open spec fn ins_all(m: Map<Seq<char>, Seq<char>>, ps: Seq<(Seq<char>, Seq<char>)>) -> Map<Seq<char>, Seq<char>>
    decreases ps.len(),
{
    if ps.len() == 0 {
        m
    } else {
        ins_all(m, ps.drop_last()).insert(ps.last().0, ps.last().1)
    }
}

/// Keys that are words and values that read back as themselves.
pub open spec fn attrs_ready(ps: Seq<(Seq<char>, Seq<char>)>) -> bool {
    forall|i: int| 0 <= i < ps.len() ==> is_token((#[trigger] ps[i]).0) && plain(ps[i].1)
}

proof fn lemma_attrs_ready_prefix(ps: Seq<(Seq<char>, Seq<char>)>)
    requires
        attrs_ready(ps),
        ps.len() > 0,
    ensures
        attrs_ready(ps.drop_last()),
        is_token(ps.last().0),
        plain(ps.last().1),
{
    assert forall|i: int| 0 <= i < ps.drop_last().len() implies is_token((#[trigger] ps.drop_last()[i]).0) && plain(ps.drop_last()[i].1) by {
        assert(ps.drop_last()[i] == ps[i]);
    }
    assert(ps.last() == ps[ps.len() - 1]);
}

/// The words an attribute line is read as.
proof fn lemma_attr_words(tag: Seq<char>, owner: Option<Seq<char>>, k: Seq<char>, v: Seq<char>) -> (w: Seq<Seq<char>>)
    requires
        is_token(tag),
        is_token(k),
        plain(v),
        owner matches Some(o) ==> is_token(o),
    ensures
        text::trim(attr_line(tag, owner, k, v)) == join_words(w),
        spaced(attr_line(tag, owner, k, v)),
        text::words(join_words(w)) == w,
        join_words(w).len() > 0,
        join_words(w)[0] == tag[0],
        text::starts_with(join_words(w), "HNF"@) ==> tag[0] == 'H',
        w[0] == tag,
        match owner {
            None => w.len() >= 2 && w[1] == k && ir::rest_words(w, 2) == v,
            Some(o) => w.len() >= 3 && w[1] == o && w[2] == k && ir::rest_words(w, 3) == v,
        },
{
    reveal_strlit(" ");
    let head = match owner {
        None => seq![tag, k],
        Some(o) => seq![tag, o, k],
    };
    match owner {
        None => {
            lemma_join2(tag, k);
            assert(attr_line(tag, owner, k, v) =~= join_words(head) + seq![' '] + v);
        },
        Some(o) => {
            lemma_join3(tag, o, k);
            assert(attr_line(tag, owner, k, v) =~= join_words(head) + seq![' '] + v);
        },
    }
    lemma_tail(head, v);
    let vs = text::words(v);
    let w = head + vs;
    assert forall|i: int| 0 <= i < w.len() implies is_token(#[trigger] w[i]) by {
        if i >= head.len() {
            assert(w[i] == vs[i - head.len()]);
        }
    }
    lemma_line(w, vs.len() == 0);
    assert(w[0] == tag);
    w
}

pub proof fn lemma_dattr_step(m: ir::DesignModel, k: Seq<char>, v: Seq<char>)
    requires
        is_token(k),
        plain(v),
    ensures
        ir::hnf_step(Some(m), text::trim(attr_line("dattr"@, None, k, v))) == Ok::<Option<ir::DesignModel>, Seq<char>>(
            Some(ir::DesignModel { attrs: m.attrs.insert(k, v), ..m }),
        ),
{
    reveal_strlit("dattr");
    reveal_strlit("design");
    reveal_strlit("HNF");
    let w = lemma_attr_words("dattr"@, None, k, v);
}

pub proof fn lemma_pattr_step(m: ir::DesignModel, n: Seq<char>, k: Seq<char>, v: Seq<char>)
    requires
        is_token(n),
        is_token(k),
        plain(v),
        ir::first_port(m.ports, n, 0) < m.ports.len(),
    ensures
        ({
            let i = ir::first_port(m.ports, n, 0);
            ir::hnf_step(Some(m), text::trim(attr_line("pattr"@, Some(n), k, v))) == Ok::<Option<ir::DesignModel>, Seq<char>>(
                Some(ir::DesignModel {
                    ports: m.ports.update(i, ir::PortModel { attrs: m.ports[i].attrs.insert(k, v), ..m.ports[i] }),
                    ..m
                }),
            )
        }),
{
    reveal_strlit("pattr");
    reveal_strlit("design");
    reveal_strlit("dattr");
    reveal_strlit("port");
    reveal_strlit("HNF");
    let w = lemma_attr_words("pattr"@, Some(n), k, v);
}

pub proof fn lemma_cattr_step(m: ir::DesignModel, n: Seq<char>, k: Seq<char>, v: Seq<char>)
    requires
        is_token(n),
        is_token(k),
        plain(v),
        ir::last_cell(m.cells, n, m.cells.len() as int) >= 0,
    ensures
        ({
            let i = ir::last_cell(m.cells, n, m.cells.len() as int);
            ir::hnf_step(Some(m), text::trim(attr_line("cattr"@, Some(n), k, v))) == Ok::<Option<ir::DesignModel>, Seq<char>>(
                Some(ir::DesignModel {
                    cells: m.cells.update(i, ir::CellModel { attrs: m.cells[i].attrs.insert(k, v), ..m.cells[i] }),
                    ..m
                }),
            )
        }),
{
    reveal_strlit("cattr");
    reveal_strlit("pattr");
    reveal_strlit("design");
    reveal_strlit("dattr");
    reveal_strlit("port");
    reveal_strlit("HNF");
    let w = lemma_attr_words("cattr"@, Some(n), k, v);
}

pub proof fn lemma_nattr_step(m: ir::DesignModel, n: Seq<char>, k: Seq<char>, v: Seq<char>)
    requires
        is_token(n),
        is_token(k),
        plain(v),
        ir::first_net(m.nets, n, 0) < m.nets.len(),
    ensures
        ({
            let i = ir::first_net(m.nets, n, 0);
            ir::hnf_step(Some(m), text::trim(attr_line("nattr"@, Some(n), k, v))) == Ok::<Option<ir::DesignModel>, Seq<char>>(
                Some(ir::DesignModel {
                    nets: m.nets.update(i, ir::NetModel { attrs: m.nets[i].attrs.insert(k, v), ..m.nets[i] }),
                    ..m
                }),
            )
        }),
{
    reveal_strlit("nattr");
    reveal_strlit("iattr");
    reveal_strlit("cattr");
    reveal_strlit("pattr");
    reveal_strlit("design");
    reveal_strlit("dattr");
    reveal_strlit("port");
    reveal_strlit("HNF");
    let w = lemma_attr_words("nattr"@, Some(n), k, v);
}

pub proof fn lemma_first_port_range(a: Seq<ir::PortModel>, n: Seq<char>, j: int)
    requires
        0 <= j,
    ensures
        j <= ir::first_port(a, n, j) || ir::first_port(a, n, j) == a.len(),
        0 <= ir::first_port(a, n, j) <= a.len(),
        ir::first_port(a, n, j) < a.len() ==> a[ir::first_port(a, n, j)].name == n,
        forall|q: int| j <= q < ir::first_port(a, n, j) ==> (#[trigger] a[q]).name != n,
    decreases a.len() - j,
{
    if j < a.len() && a[j].name != n {
        lemma_first_port_range(a, n, j + 1);
    }
}

pub proof fn lemma_first_net_range(a: Seq<ir::NetModel>, n: Seq<char>, j: int)
    requires
        0 <= j,
    ensures
        0 <= ir::first_net(a, n, j) <= a.len(),
        ir::first_net(a, n, j) < a.len() ==> a[ir::first_net(a, n, j)].name == n,
        forall|q: int| j <= q < ir::first_net(a, n, j) ==> (#[trigger] a[q]).name != n,
    decreases a.len() - j,
{
    if j < a.len() && a[j].name != n {
        lemma_first_net_range(a, n, j + 1);
    }
}

pub proof fn lemma_last_cell_range(a: Seq<ir::CellModel>, n: Seq<char>, k: int)
    ensures
        -1 <= ir::last_cell(a, n, k) < a.len(),
        0 <= k ==> ir::last_cell(a, n, k) < k,
        ir::last_cell(a, n, k) >= 0 ==> a[ir::last_cell(a, n, k)].name == n,
    decreases k,
{
    if 0 < k <= a.len() && a[k - 1].name != n {
        lemma_last_cell_range(a, n, k - 1);
    }
}

proof fn lemma_first_port_names(a: Seq<ir::PortModel>, b: Seq<ir::PortModel>, n: Seq<char>, j: int)
    requires
        a.len() == b.len(),
        forall|q: int| 0 <= q < a.len() ==> (#[trigger] a[q]).name == b[q].name,
    ensures
        ir::first_port(a, n, j) == ir::first_port(b, n, j),
    decreases a.len() - j,
{
    if 0 <= j < a.len() {
        assert(a[j].name == b[j].name);
        lemma_first_port_names(a, b, n, j + 1);
    }
}

proof fn lemma_last_cell_names(a: Seq<ir::CellModel>, b: Seq<ir::CellModel>, n: Seq<char>, k: int)
    requires
        a.len() == b.len(),
        forall|q: int| 0 <= q < a.len() ==> (#[trigger] a[q]).name == b[q].name,
    ensures
        ir::last_cell(a, n, k) == ir::last_cell(b, n, k),
    decreases k,
{
    if 0 < k <= a.len() {
        assert(a[k - 1].name == b[k - 1].name);
        lemma_last_cell_names(a, b, n, k - 1);
    }
}

proof fn lemma_first_net_names(a: Seq<ir::NetModel>, b: Seq<ir::NetModel>, n: Seq<char>, j: int)
    requires
        a.len() == b.len(),
        forall|q: int| 0 <= q < a.len() ==> (#[trigger] a[q]).name == b[q].name,
    ensures
        ir::first_net(a, n, j) == ir::first_net(b, n, j),
    decreases a.len() - j,
{
    if 0 <= j < a.len() {
        assert(a[j].name == b[j].name);
        lemma_first_net_names(a, b, n, j + 1);
    }
}

pub proof fn lemma_dattr_fold(m: ir::DesignModel, ps: Seq<(Seq<char>, Seq<char>)>)
    requires
        attrs_ready(ps),
    ensures
        ir::hnf_fold(Some(m), attr_seq("dattr"@, None, ps)) == Ok::<Option<ir::DesignModel>, Seq<char>>(
            Some(ir::DesignModel { attrs: ins_all(m.attrs, ps), ..m }),
        ),
    decreases ps.len(),
{
    if ps.len() > 0 {
        lemma_attrs_ready_prefix(ps);
        lemma_dattr_fold(m, ps.drop_last());
        let x = ps.last();
        let l = attr_line("dattr"@, None, x.0, x.1);
        assert(attr_seq("dattr"@, None, ps) =~= attr_seq("dattr"@, None, ps.drop_last()).push(l));
        lemma_fold_push(Some(m), attr_seq("dattr"@, None, ps.drop_last()), l);
        let m1 = ir::DesignModel { attrs: ins_all(m.attrs, ps.drop_last()), ..m };
        lemma_dattr_step(m1, x.0, x.1);
    } else {
        assert(attr_seq("dattr"@, None, ps) =~= Seq::<Seq<char>>::empty());
    }
}

pub proof fn lemma_pattr_fold(m: ir::DesignModel, n: Seq<char>, ps: Seq<(Seq<char>, Seq<char>)>)
    requires
        attrs_ready(ps),
        is_token(n),
        ir::first_port(m.ports, n, 0) < m.ports.len(),
    ensures
        ({
            let i = ir::first_port(m.ports, n, 0);
            ir::hnf_fold(Some(m), attr_seq("pattr"@, Some(n), ps)) == Ok::<Option<ir::DesignModel>, Seq<char>>(
                Some(ir::DesignModel {
                    ports: m.ports.update(i, ir::PortModel { attrs: ins_all(m.ports[i].attrs, ps), ..m.ports[i] }),
                    ..m
                }),
            )
        }),
    decreases ps.len(),
{
    let i = ir::first_port(m.ports, n, 0);
    lemma_first_port_range(m.ports, n, 0);
    if ps.len() > 0 {
        lemma_attrs_ready_prefix(ps);
        lemma_pattr_fold(m, n, ps.drop_last());
        let x = ps.last();
        let l = attr_line("pattr"@, Some(n), x.0, x.1);
        assert(attr_seq("pattr"@, Some(n), ps) =~= attr_seq("pattr"@, Some(n), ps.drop_last()).push(l));
        lemma_fold_push(Some(m), attr_seq("pattr"@, Some(n), ps.drop_last()), l);
        let p1 = m.ports.update(i, ir::PortModel { attrs: ins_all(m.ports[i].attrs, ps.drop_last()), ..m.ports[i] });
        let m1 = ir::DesignModel { ports: p1, ..m };
        lemma_first_port_names(m.ports, p1, n, 0);
        lemma_pattr_step(m1, n, x.0, x.1);
        assert(p1.update(i, ir::PortModel { attrs: p1[i].attrs.insert(x.0, x.1), ..p1[i] }) =~= m.ports.update(
            i,
            ir::PortModel { attrs: ins_all(m.ports[i].attrs, ps), ..m.ports[i] },
        ));
    } else {
        assert(attr_seq("pattr"@, Some(n), ps) =~= Seq::<Seq<char>>::empty());
        assert(m.ports.update(i, ir::PortModel { attrs: ins_all(m.ports[i].attrs, ps), ..m.ports[i] }) =~= m.ports);
    }
}

pub proof fn lemma_cattr_fold(m: ir::DesignModel, n: Seq<char>, ps: Seq<(Seq<char>, Seq<char>)>)
    requires
        attrs_ready(ps),
        is_token(n),
        ir::last_cell(m.cells, n, m.cells.len() as int) >= 0,
    ensures
        ({
            let i = ir::last_cell(m.cells, n, m.cells.len() as int);
            ir::hnf_fold(Some(m), attr_seq("cattr"@, Some(n), ps)) == Ok::<Option<ir::DesignModel>, Seq<char>>(
                Some(ir::DesignModel {
                    cells: m.cells.update(i, ir::CellModel { attrs: ins_all(m.cells[i].attrs, ps), ..m.cells[i] }),
                    ..m
                }),
            )
        }),
    decreases ps.len(),
{
    let i = ir::last_cell(m.cells, n, m.cells.len() as int);
    lemma_last_cell_range(m.cells, n, m.cells.len() as int);
    if ps.len() > 0 {
        lemma_attrs_ready_prefix(ps);
        lemma_cattr_fold(m, n, ps.drop_last());
        let x = ps.last();
        let l = attr_line("cattr"@, Some(n), x.0, x.1);
        assert(attr_seq("cattr"@, Some(n), ps) =~= attr_seq("cattr"@, Some(n), ps.drop_last()).push(l));
        lemma_fold_push(Some(m), attr_seq("cattr"@, Some(n), ps.drop_last()), l);
        let c1 = m.cells.update(i, ir::CellModel { attrs: ins_all(m.cells[i].attrs, ps.drop_last()), ..m.cells[i] });
        let m1 = ir::DesignModel { cells: c1, ..m };
        lemma_last_cell_names(m.cells, c1, n, m.cells.len() as int);
        lemma_cattr_step(m1, n, x.0, x.1);
        assert(c1.update(i, ir::CellModel { attrs: c1[i].attrs.insert(x.0, x.1), ..c1[i] }) =~= m.cells.update(
            i,
            ir::CellModel { attrs: ins_all(m.cells[i].attrs, ps), ..m.cells[i] },
        ));
    } else {
        assert(attr_seq("cattr"@, Some(n), ps) =~= Seq::<Seq<char>>::empty());
        assert(m.cells.update(i, ir::CellModel { attrs: ins_all(m.cells[i].attrs, ps), ..m.cells[i] }) =~= m.cells);
    }
}

pub proof fn lemma_nattr_fold(m: ir::DesignModel, n: Seq<char>, ps: Seq<(Seq<char>, Seq<char>)>)
    requires
        attrs_ready(ps),
        is_token(n),
        ir::first_net(m.nets, n, 0) < m.nets.len(),
    ensures
        ({
            let i = ir::first_net(m.nets, n, 0);
            ir::hnf_fold(Some(m), attr_seq("nattr"@, Some(n), ps)) == Ok::<Option<ir::DesignModel>, Seq<char>>(
                Some(ir::DesignModel {
                    nets: m.nets.update(i, ir::NetModel { attrs: ins_all(m.nets[i].attrs, ps), ..m.nets[i] }),
                    ..m
                }),
            )
        }),
    decreases ps.len(),
{
    let i = ir::first_net(m.nets, n, 0);
    lemma_first_net_range(m.nets, n, 0);
    if ps.len() > 0 {
        lemma_attrs_ready_prefix(ps);
        lemma_nattr_fold(m, n, ps.drop_last());
        let x = ps.last();
        let l = attr_line("nattr"@, Some(n), x.0, x.1);
        assert(attr_seq("nattr"@, Some(n), ps) =~= attr_seq("nattr"@, Some(n), ps.drop_last()).push(l));
        lemma_fold_push(Some(m), attr_seq("nattr"@, Some(n), ps.drop_last()), l);
        let n1 = m.nets.update(i, ir::NetModel { attrs: ins_all(m.nets[i].attrs, ps.drop_last()), ..m.nets[i] });
        let m1 = ir::DesignModel { nets: n1, ..m };
        lemma_first_net_names(m.nets, n1, n, 0);
        lemma_nattr_step(m1, n, x.0, x.1);
        assert(n1.update(i, ir::NetModel { attrs: n1[i].attrs.insert(x.0, x.1), ..n1[i] }) =~= m.nets.update(
            i,
            ir::NetModel { attrs: ins_all(m.nets[i].attrs, ps), ..m.nets[i] },
        ));
    } else {
        assert(attr_seq("nattr"@, Some(n), ps) =~= Seq::<Seq<char>>::empty());
        assert(m.nets.update(i, ir::NetModel { attrs: ins_all(m.nets[i].attrs, ps), ..m.nets[i] }) =~= m.nets);
    }
}

// ---------------------------------------------------------------------------
// Hex numbers
// ---------------------------------------------------------------------------

proof fn lemma_hex_char(d: nat)
    requires
        d < 16,
    ensures
        text::hex_val(text::hex_char(d)) == d,
        text::is_hex_digit(text::hex_char(d)),
        !text::is_ws(text::hex_char(d)),
        text::hex_char(d) != 'x',
        text::hex_char(d) != 'X',
        text::hex_char(d) != '+',
{
    let c = text::hex_char(d);
    if d < 10 {
        assert(c as u32 == 48 + d);
    } else {
        assert(c as u32 == 97 + d - 10);
    }
}

pub proof fn lemma_hex_digits(n: nat)
    ensures
        text::hex(n).len() > 0,
        text::hexes_val(text::hex(n)) == n,
        forall|i: int|
            0 <= i < text::hex(n).len() ==> {
                let c = #[trigger] text::hex(n)[i];
                &&& text::is_hex_digit(c)
                &&& !text::is_ws(c)
                &&& c != 'x'
                &&& c != 'X'
                &&& c != '+'
            },
    decreases n,
{
    if n < 16 {
        lemma_hex_char(n);
        assert(text::hex(n) =~= seq![text::hex_char(n)]);
        assert(text::hex(n).drop_last() =~= Seq::<char>::empty());
        assert(text::hexes_val(Seq::<char>::empty()) == 0);
        assert(text::hexes_val(text::hex(n)) == text::hexes_val(text::hex(n).drop_last()) * 16 + (text::hex_val(text::hex(n).last()) as nat));
    } else {
        lemma_hex_digits(n / 16);
        lemma_hex_char(n % 16);
        let h = text::hex(n);
        assert(h == text::hex(n / 16) + seq![text::hex_char(n % 16)]);
        assert(h.drop_last() =~= text::hex(n / 16));
        assert(h.last() == text::hex_char(n % 16));
        assert(text::hexes_val(h) == text::hexes_val(h.drop_last()) * 16 + (text::hex_val(h.last()) as nat));
        assert(n == (n / 16) * 16 + n % 16);
        assert forall|i: int| 0 <= i < h.len() implies {
            let c = #[trigger] h[i];
            &&& text::is_hex_digit(c)
            &&& !text::is_ws(c)
            &&& c != 'x'
            &&& c != 'X'
            &&& c != '+'
        } by {
            if i < h.len() - 1 {
                assert(h[i] == text::hex(n / 16)[i]);
            }
        }
    }
}

proof fn lemma_no_prefix(h: Seq<char>, p: Seq<char>)
    requires
        p.len() == 2,
        p[1] == 'x' || p[1] == 'X',
        forall|i: int| 0 <= i < h.len() ==> (#[trigger] h[i]) != 'x' && h[i] != 'X',
    ensures
        ir::strip_all(h, p) == h,
{
    if h.len() >= 2 && text::starts_with(h, p) {
        assert(h.subrange(0, 2)[1] == h[1]);
    }
}

/// A Lut6 INIT written as `0x` and hex digits reads back as the same number.
pub proof fn lemma_lut_init(n: u64)
    ensures
        ir::lut_init_of("0x"@ + text::hex(n as nat)) == n,
        is_token("0x"@ + text::hex(n as nat)),
{
    reveal_strlit("0x");
    reveal_strlit("0X");
    let h = text::hex(n as nat);
    lemma_hex_digits(n as nat);
    let t = "0x"@ + h;
    assert forall|i: int| 0 <= i < t.len() implies !text::is_ws(#[trigger] t[i]) by {
        if i >= 2 {
            assert(t[i] == h[i - 2]);
        }
    }
    assert(all_tokens(seq![t]));
    lemma_trim_join(seq![t], Seq::<char>::empty());
    assert(join_words(seq![t]) == t);
    assert(t + Seq::<char>::empty() =~= t);
    assert(text::starts_with(t, "0x"@)) by {
        assert(t.subrange(0, 2) =~= "0x"@);
    }
    assert(t.subrange(2, t.len() as int) =~= h);
    lemma_no_prefix(h, "0x"@);
    assert(ir::strip_all(t, "0x"@) == h);
    lemma_no_prefix(h, "0X"@);
    assert(text::unsigned_body(h) == h);
}

// ---------------------------------------------------------------------------
// Attributes as maps
// ---------------------------------------------------------------------------

proof fn lemma_ins_all_pairs(ps: Seq<(Seq<char>, Seq<char>)>)
    requires
        ir::pairs_unique(ps),
    ensures
        ins_all(Map::empty(), ps) == Map::new(
            |q: Seq<char>| ir::pairs_lookup(ps, q) is Some,
            |q: Seq<char>| ir::pairs_lookup(ps, q)->0,
        ),
    decreases ps.len(),
{
    let target = Map::new(
        |q: Seq<char>| ir::pairs_lookup(ps, q) is Some,
        |q: Seq<char>| ir::pairs_lookup(ps, q)->0,
    );
    if ps.len() == 0 {
        assert(ins_all(Map::empty(), ps) =~= target);
    } else {
        let a = ps.drop_last();
        let x = ps.last();
        assert(ir::pairs_unique(a)) by {
            assert forall|i: int, j: int|
                0 <= i < a.len() && 0 <= j < a.len() && i != j implies (#[trigger] a[i]).0 != (#[trigger] a[j]).0 by {
                assert(a[i] == ps[i]);
                assert(a[j] == ps[j]);
            }
        }
        lemma_ins_all_pairs(a);
        ir::lemma_pairs_lookup_at(ps, ps.len() - 1);
        assert forall|q: Seq<char>| q != x.0 implies ir::pairs_lookup(ps, q) == ir::pairs_lookup(a, q) by {
            if exists|i: int| 0 <= i < a.len() && (#[trigger] a[i]).0 == q {
                let i = choose|i: int| 0 <= i < a.len() && (#[trigger] a[i]).0 == q;
                assert(ps[i] == a[i]);
                ir::lemma_pairs_lookup_at(ps, i);
                ir::lemma_pairs_lookup_at(a, i);
            } else {
                assert forall|i: int| 0 <= i < ps.len() implies (#[trigger] ps[i]).0 != q by {
                    if i < a.len() {
                        assert(ps[i] == a[i]);
                    }
                }
            }
        }
        assert(ins_all(Map::empty(), ps) =~= target);
    }
}

/// With distinct keys, inserting the pairs in order gives the attribute map.
pub proof fn lemma_ins_all_attrs(a: ir::Attrs)
    requires
        ir::pairs_unique(a.pairs()),
    ensures
        ins_all(Map::empty(), a.pairs()) == ir::attr_map(a),
{
    lemma_ins_all_pairs(a.pairs());
    assert(ins_all(Map::empty(), a.pairs()) =~= ir::attr_map(a));
}

// ---------------------------------------------------------------------------
// Ports
// ---------------------------------------------------------------------------

pub proof fn lemma_fold_one(st: Option<ir::DesignModel>, l: Seq<char>)
    ensures
        ir::hnf_fold(st, seq![l]) == ir::hnf_step(st, text::trim(l)),
{
    lemma_fold_push(st, Seq::<Seq<char>>::empty(), l);
    assert(Seq::<Seq<char>>::empty().push(l) =~= seq![l]);
}

pub proof fn lemma_port_step(m: ir::DesignModel, p: ir::Port)
    requires
        is_token(p.name@),
    ensures
        ir::hnf_step(Some(m), text::trim(port_line(p))) == Ok::<Option<ir::DesignModel>, Seq<char>>(
            Some(ir::DesignModel {
                ports: m.ports.push(ir::PortModel { name: p.name@, dir: p.dir, attrs: Map::empty() }),
                ..m
            }),
        ),
        spaced(port_line(p)),
{
    reveal_strlit("port ");
    reveal_strlit("port");
    reveal_strlit(" ");
    reveal_strlit("in");
    reveal_strlit("out");
    reveal_strlit("inout");
    reveal_strlit("design");
    reveal_strlit("dattr");
    let w = seq!["port"@, p.name@, ir::dir_text(p.dir)];
    lemma_join3("port"@, p.name@, ir::dir_text(p.dir));
    assert(port_line(p) =~= line_words(w, false));
    assert(all_tokens(w)) by {
        assert(is_token(w[0]));
        assert(is_token(w[2]));
    }
    lemma_line(w, false);
}

pub proof fn lemma_port_fold(m: ir::DesignModel, p: ir::Port)
    requires
        is_token(p.name@),
        attrs_ready(p.attrs.pairs()),
        ir::pairs_unique(p.attrs.pairs()),
        p.attrs.pairs().len() > 0 ==> forall|j: int| 0 <= j < m.ports.len() ==> (#[trigger] m.ports[j]).name != p.name@,
    ensures
        ir::hnf_fold(Some(m), port_seq(p)) == Ok::<Option<ir::DesignModel>, Seq<char>>(
            Some(ir::DesignModel { ports: m.ports.push(ir::port_model(p)), ..m }),
        ),
{
    let ps = p.attrs.pairs();
    let m1 = ir::DesignModel {
        ports: m.ports.push(ir::PortModel { name: p.name@, dir: p.dir, attrs: Map::empty() }),
        ..m
    };
    lemma_fold_append(Some(m), seq![port_line(p)], attr_seq("pattr"@, Some(p.name@), ps));
    lemma_fold_one(Some(m), port_line(p));
    lemma_port_step(m, p);
    lemma_ins_all_attrs(p.attrs);
    if ps.len() > 0 {
        lemma_first_port_range(m1.ports, p.name@, 0);
        let fp = ir::first_port(m1.ports, p.name@, 0);
        if fp < m.ports.len() {
            assert(m1.ports[fp] == m.ports[fp]);
        }
        assert(m1.ports[m.ports.len() as int].name == p.name@);
        assert(fp == m.ports.len());
        lemma_pattr_fold(m1, p.name@, ps);
        assert(m1.ports.update(fp, ir::PortModel { attrs: ins_all(m1.ports[fp].attrs, ps), ..m1.ports[fp] }) =~= m.ports.push(
            ir::port_model(p),
        ));
    } else {
        assert(attr_seq("pattr"@, Some(p.name@), ps) =~= Seq::<Seq<char>>::empty());
        assert(ins_all(Map::empty(), ps) == Map::<Seq<char>, Seq<char>>::empty());
        assert(m1.ports =~= m.ports.push(ir::port_model(p)));
    }
}

/// Port `i` of `ps` can be written and read back.
pub open spec fn port_ready(ps: Seq<ir::Port>, i: int) -> bool {
    let p = ps[i];
    &&& is_token(p.name@)
    &&& attrs_ready(p.attrs.pairs())
    &&& (p.attrs.pairs().len() > 0 ==> forall|j: int| 0 <= j < i ==> (#[trigger] ps[j]).name@ != p.name@)
}

pub proof fn lemma_ports_fold(m: ir::DesignModel, ps: Seq<ir::Port>)
    requires
        m.ports.len() == 0,
        forall|i: int| 0 <= i < ps.len() ==> port_ready(ps, i) && ir::pairs_unique((#[trigger] ps[i]).attrs.pairs()),
    ensures
        ir::hnf_fold(Some(m), ports_seq(ps)) == Ok::<Option<ir::DesignModel>, Seq<char>>(
            Some(ir::DesignModel { ports: ps.map_values(|p: ir::Port| ir::port_model(p)), ..m }),
        ),
    decreases ps.len(),
{
    if ps.len() == 0 {
        assert(ps.map_values(|p: ir::Port| ir::port_model(p)) =~= m.ports);
        assert(ir::DesignModel { ports: m.ports, ..m } == m);
    } else {
        let a = ps.drop_last();
        let p = ps.last();
        assert forall|i: int| 0 <= i < a.len() implies port_ready(a, i) && ir::pairs_unique((#[trigger] a[i]).attrs.pairs()) by {
            assert(a[i] == ps[i]);
            assert(port_ready(ps, i));
            assert forall|j: int| 0 <= j < i implies (#[trigger] a[j]) == ps[j] by {}
        }
        lemma_ports_fold(m, a);
        let m1 = ir::DesignModel { ports: a.map_values(|q: ir::Port| ir::port_model(q)), ..m };
        lemma_fold_append(Some(m), ports_seq(a), port_seq(p));
        assert(port_ready(ps, ps.len() - 1));
        assert(ir::pairs_unique(ps[ps.len() - 1].attrs.pairs()));
        assert forall|j: int| 0 <= j < m1.ports.len() implies (#[trigger] m1.ports[j]).name == ir::port_model(a[j]).name by {}
        if p.attrs.pairs().len() > 0 {
            assert forall|j: int| 0 <= j < m1.ports.len() implies (#[trigger] m1.ports[j]).name != p.name@ by {
                assert(ps[j] == a[j]);
            }
        }
        lemma_port_fold(m1, p);
        assert(m1.ports.push(ir::port_model(p)) =~= ps.map_values(|q: ir::Port| ir::port_model(q)));
    }
}

// ---------------------------------------------------------------------------
// Cells
// ---------------------------------------------------------------------------

/// The kind word of a cell line.
pub open spec fn kind_word(k: ir::CellKind) -> Seq<char> {
    match k {
        ir::CellKind::Lut6 { .. } => "Lut6"@,
        ir::CellKind::Hff => "Hff"@,
        ir::CellKind::IobOut => "IobOut"@,
        ir::CellKind::Mac27 => "Mac27"@,
        ir::CellKind::Ila { .. } => "Ila"@,
        ir::CellKind::Bram18 => "Bram18"@,
        ir::CellKind::BlackBox { .. } => "BlackBox"@,
    }
}

/// The argument after the kind word, if the kind has one.
pub open spec fn kind_arg(k: ir::CellKind) -> Option<Seq<char>> {
    match k {
        ir::CellKind::Lut6 { init } => Some("0x"@ + text::hex(init as nat)),
        ir::CellKind::Ila { net } => Some(net@),
        ir::CellKind::BlackBox { module } => Some(module@),
        _ => None,
    }
}

/// A kind whose text argument reads back as itself.
pub open spec fn kind_ready(k: ir::CellKind) -> bool {
    match k {
        ir::CellKind::Ila { net } => plain(net@),
        ir::CellKind::BlackBox { module } => plain(module@),
        _ => true,
    }
}

/// The argument text after the kind word (empty when there is none).
pub open spec fn kind_arg_text(k: ir::CellKind) -> Seq<char> {
    match kind_arg(k) {
        Some(a) => a,
        None => Seq::empty(),
    }
}

#[verifier::spinoff_prover]
proof fn lemma_kind_text(k: ir::CellKind)
    requires
        kind_ready(k),
    ensures
        is_token(kind_word(k)),
        kind_arg(k) matches Some(a) ==> plain(a) && ir::kind_text(k) == kind_word(k) + seq![' '] + a,
        kind_arg(k) is None ==> ir::kind_text(k) == kind_word(k),
        ir::hnf_kind(kind_word(k), kind_arg_text(k)) == Some(ir::kind_model(k)),
{
    reveal_strlit("Lut6 0x");
    reveal_strlit("0x");
    reveal_strlit("Lut6");
    reveal_strlit("Hff");
    reveal_strlit("IobOut");
    reveal_strlit("Mac27");
    reveal_strlit("Ila");
    reveal_strlit("Ila ");
    reveal_strlit("Bram18");
    reveal_strlit("BlackBox");
    reveal_strlit("BlackBox ");
    assert("Ila"@[0] != "Hff"@[0]);
    assert("Bram18"@[0] != "IobOut"@[0]);
    assert("Ila"@ != "Hff"@);
    assert("Bram18"@ != "IobOut"@);
    match k {
        ir::CellKind::Lut6 { init } => {
            lemma_lut_init(init);
            let t = "0x"@ + text::hex(init as nat);
            assert(all_tokens(seq![t]));
            lemma_words_join(seq![t], Seq::<char>::empty());
            assert(join_words(seq![t]) == t);
            assert(join_words(seq![t]) + Seq::<char>::empty() =~= t);
            assert(ir::kind_text(k) =~= kind_word(k) + seq![' '] + t);
            assert(kind_arg(k) == Some(t));
            assert(kind_word(k) == "Lut6"@);
            assert(ir::lut_init_of(t) == init);
            assert(ir::hnf_kind("Lut6"@, t) == Some(ir::KindModel::Lut6(ir::lut_init_of(t))));
            assert(kind_arg_text(k) == t);
        },
        ir::CellKind::Ila { net } => {
            assert(ir::kind_text(k) =~= kind_word(k) + seq![' '] + net@);
            assert(ir::hnf_kind(kind_word(k), kind_arg_text(k)) == Some(ir::kind_model(k)));
        },
        ir::CellKind::BlackBox { module } => {
            assert(ir::kind_text(k) =~= kind_word(k) + seq![' '] + module@);
            assert(ir::hnf_kind(kind_word(k), kind_arg_text(k)) == Some(ir::kind_model(k)));
        },
        ir::CellKind::Hff => {
            assert(ir::hnf_kind(kind_word(k), kind_arg_text(k)) == Some(ir::kind_model(k)));
        },
        ir::CellKind::IobOut => {
            assert(ir::hnf_kind(kind_word(k), kind_arg_text(k)) == Some(ir::kind_model(k)));
        },
        ir::CellKind::Mac27 => {
            assert(ir::hnf_kind(kind_word(k), kind_arg_text(k)) == Some(ir::kind_model(k)));
        },
        ir::CellKind::Bram18 => {
            assert(ir::hnf_kind(kind_word(k), kind_arg_text(k)) == Some(ir::kind_model(k)));
        },
    }
}

pub proof fn lemma_cell_step(m: ir::DesignModel, c: ir::Cell)
    requires
        is_token(c.name@),
        kind_ready(c.kind),
    ensures
        ir::hnf_step(Some(m), text::trim(cell_line(c))) == Ok::<Option<ir::DesignModel>, Seq<char>>(
            Some(ir::DesignModel {
                cells: m.cells.push(ir::CellModel { name: c.name@, kind: ir::kind_model(c.kind), attrs: Map::empty() }),
                ..m
            }),
        ),
        spaced(cell_line(c)),
{
    reveal_strlit("cell ");
    reveal_strlit("cell");
    reveal_strlit(" ");
    reveal_strlit("design");
    reveal_strlit("dattr");
    reveal_strlit("port");
    reveal_strlit("pattr");
    reveal_strlit("cattr");
    reveal_strlit("nattr");
    reveal_strlit("iattr");
    lemma_kind_text(c.kind);
    let head = seq!["cell"@, c.name@, kind_word(c.kind)];
    lemma_join3("cell"@, c.name@, kind_word(c.kind));
    assert(all_tokens(head)) by {
        assert(is_token(head[0]));
    }
    match kind_arg(c.kind) {
        Some(a) => {
            assert(cell_line(c) =~= join_words(head) + seq![' '] + a);
            lemma_tail(head, a);
            let w = head + text::words(a);
            assert forall|i: int| 0 <= i < w.len() implies is_token(#[trigger] w[i]) by {
                if i >= 3 {
                    assert(w[i] == text::words(a)[i - 3]);
                }
            }
            lemma_line(w, text::words(a).len() == 0);
            assert(w.subrange(3, w.len() as int) == text::words(a));
            assert(ir::rest_words(w, 3) == a);
        },
        None => {
            assert(cell_line(c) =~= line_words(head, false));
            lemma_line(head, false);
            assert(head.subrange(3, 3) =~= Seq::<Seq<char>>::empty());
        },
    }
}

pub proof fn lemma_cell_fold(m: ir::DesignModel, c: ir::Cell)
    requires
        is_token(c.name@),
        kind_ready(c.kind),
        attrs_ready(c.attrs.pairs()),
        ir::pairs_unique(c.attrs.pairs()),
    ensures
        ir::hnf_fold(Some(m), cell_seq(c)) == Ok::<Option<ir::DesignModel>, Seq<char>>(
            Some(ir::DesignModel { cells: m.cells.push(ir::cell_model(c)), ..m }),
        ),
{
    let ps = c.attrs.pairs();
    let m1 = ir::DesignModel {
        cells: m.cells.push(ir::CellModel { name: c.name@, kind: ir::kind_model(c.kind), attrs: Map::empty() }),
        ..m
    };
    lemma_fold_append(Some(m), seq![cell_line(c)], attr_seq("cattr"@, Some(c.name@), ps));
    lemma_fold_one(Some(m), cell_line(c));
    lemma_cell_step(m, c);
    lemma_ins_all_attrs(c.attrs);
    let i = m.cells.len() as int;
    assert(ir::last_cell(m1.cells, c.name@, m1.cells.len() as int) == i);
    lemma_cattr_fold(m1, c.name@, ps);
    assert(m1.cells.update(i, ir::CellModel { attrs: ins_all(m1.cells[i].attrs, ps), ..m1.cells[i] }) =~= m.cells.push(
        ir::cell_model(c),
    ));
}

pub open spec fn cell_ready(c: ir::Cell) -> bool {
    &&& is_token(c.name@)
    &&& kind_ready(c.kind)
    &&& attrs_ready(c.attrs.pairs())
}

pub proof fn lemma_cells_fold(m: ir::DesignModel, cs: Seq<ir::Cell>)
    requires
        m.cells.len() == 0,
        forall|i: int| 0 <= i < cs.len() ==> cell_ready(#[trigger] cs[i]) && ir::pairs_unique(cs[i].attrs.pairs()),
    ensures
        ir::hnf_fold(Some(m), cells_seq(cs)) == Ok::<Option<ir::DesignModel>, Seq<char>>(
            Some(ir::DesignModel { cells: cs.map_values(|c: ir::Cell| ir::cell_model(c)), ..m }),
        ),
    decreases cs.len(),
{
    if cs.len() == 0 {
        assert(cs.map_values(|c: ir::Cell| ir::cell_model(c)) =~= m.cells);
        assert(ir::DesignModel { cells: m.cells, ..m } == m);
    } else {
        let a = cs.drop_last();
        let c = cs.last();
        assert forall|i: int| 0 <= i < a.len() implies cell_ready(#[trigger] a[i]) && ir::pairs_unique(a[i].attrs.pairs()) by {
            assert(a[i] == cs[i]);
        }
        lemma_cells_fold(m, a);
        let m1 = ir::DesignModel { cells: a.map_values(|q: ir::Cell| ir::cell_model(q)), ..m };
        lemma_fold_append(Some(m), cells_seq(a), cell_seq(c));
        assert(cell_ready(cs[cs.len() - 1]) && ir::pairs_unique(cs[cs.len() - 1].attrs.pairs()));
        lemma_cell_fold(m1, c);
        assert(m1.cells.push(ir::cell_model(c)) =~= cs.map_values(|q: ir::Cell| ir::cell_model(q)));
    }
}

// ---------------------------------------------------------------------------
// Nets
// ---------------------------------------------------------------------------

/// `c` does not occur in `t`.
pub open spec fn lacks(t: Seq<char>, c: char) -> bool {
    forall|i: int| 0 <= i < t.len() ==> (#[trigger] t[i]) != c
}

/// An endpoint `cell/pin` that reads back: no whitespace, no `/` in the cell.
pub open spec fn ep_ready(e: (Seq<char>, Seq<char>)) -> bool {
    ws_free(e.0) && ws_free(e.1) && lacks(e.0, '/')
}

pub open spec fn ep_word(e: (Seq<char>, Seq<char>)) -> Seq<char> {
    e.0 + "/"@ + e.1
}

pub open spec fn ep_words(es: Seq<(Seq<char>, Seq<char>)>) -> Seq<Seq<char>> {
    es.map_values(|e: (Seq<char>, Seq<char>)| ep_word(e))
}

proof fn lemma_ep_word(e: (Seq<char>, Seq<char>))
    requires
        ep_ready(e),
    ensures
        is_token(ep_word(e)),
        text::find_char_from(ep_word(e), '/', 0) == e.0.len(),
        ep_word(e).subrange(0, e.0.len() as int) == e.0,
        ep_word(e).subrange(e.0.len() as int + 1, ep_word(e).len() as int) == e.1,
{
    reveal_strlit("/");
    let t = ep_word(e);
    assert forall|i: int| 0 <= i < t.len() implies !text::is_ws(#[trigger] t[i]) by {
        if i < e.0.len() {
            assert(t[i] == e.0[i]);
        } else if i > e.0.len() {
            assert(t[i] == e.1[i - e.0.len() - 1]);
        }
    }
    assert forall|j: int| 0 <= j <= e.0.len() implies text::find_char_from(t, '/', j) == e.0.len() by {
        lemma_find_slash(e, j);
    }
    assert(t.subrange(0, e.0.len() as int) =~= e.0);
    assert(t.subrange(e.0.len() as int + 1, t.len() as int) =~= e.1);
}

proof fn lemma_find_slash(e: (Seq<char>, Seq<char>), j: int)
    requires
        ep_ready(e),
        0 <= j <= e.0.len(),
    ensures
        text::find_char_from(ep_word(e), '/', j) == e.0.len(),
    decreases e.0.len() - j,
{
    reveal_strlit("/");
    let t = ep_word(e);
    if j < e.0.len() {
        assert(t[j] == e.0[j]);
        lemma_find_slash(e, j + 1);
    } else {
        assert(t[j] == '/');
    }
}

proof fn lemma_eps_text(es: Seq<(Seq<char>, Seq<char>)>)
    ensures
        ir::eps_text(es) == join_words(ep_words(es)),
    decreases es.len(),
{
    reveal_strlit("/");
    reveal_strlit(" ");
    if es.len() > 1 {
        lemma_eps_text(es.drop_last());
        assert(ep_words(es).drop_last() =~= ep_words(es.drop_last()));
        assert(ir::eps_text(es) =~= join_words(ep_words(es)));
    } else if es.len() == 1 {
        assert(ir::eps_text(es) =~= ep_word(es[0]));
    }
}

/// A net that is not yet there, with its endpoints added one by one.
pub open spec fn net_so_far(ns: Seq<ir::NetModel>, n: Seq<char>, es: Seq<(Seq<char>, Seq<char>)>, j: int) -> Seq<ir::NetModel> {
    if j == 0 {
        ns
    } else {
        ns.push(ir::NetModel { name: n, eps: es.subrange(0, j), attrs: Map::empty() })
    }
}

proof fn lemma_first_net_last(a: Seq<ir::NetModel>, n: Seq<char>)
    requires
        a.len() > 0,
        a.last().name == n,
        forall|q: int| 0 <= q < a.len() - 1 ==> (#[trigger] a[q]).name != n,
    ensures
        ir::first_net(a, n, 0) == a.len() - 1,
{
    lemma_first_net_range(a, n, 0);
    let f = ir::first_net(a, n, 0);
    assert(a[a.len() - 1].name == n);
    if f < a.len() - 1 {
        assert(a[f].name == n);
    }
}

proof fn lemma_first_net_absent(a: Seq<ir::NetModel>, n: Seq<char>)
    requires
        forall|q: int| 0 <= q < a.len() ==> (#[trigger] a[q]).name != n,
    ensures
        ir::first_net(a, n, 0) == a.len(),
{
    lemma_first_net_range(a, n, 0);
    let f = ir::first_net(a, n, 0);
    if f < a.len() {
        assert(a[f].name == n);
    }
}

proof fn lemma_eps_fold(ns: Seq<ir::NetModel>, n: Seq<char>, w: Seq<Seq<char>>, es: Seq<(Seq<char>, Seq<char>)>, j: int)
    requires
        forall|q: int| 0 <= q < ns.len() ==> (#[trigger] ns[q]).name != n,
        w.len() == 2 + es.len(),
        forall|i: int| 0 <= i < es.len() ==> w[2 + i] == ep_word(#[trigger] es[i]) && ep_ready(es[i]),
        0 <= j <= es.len(),
    ensures
        ir::net_eps_fold(net_so_far(ns, n, es, j), n, w, 2 + j) == Some(net_so_far(ns, n, es, es.len() as int)),
    decreases es.len() - j,
{
    reveal_strlit("/");
    if j < es.len() {
        let e = es[j];
        lemma_ep_word(e);
        let t = w[2 + j];
        let cur = net_so_far(ns, n, es, j);
        if j == 0 {
            lemma_first_net_absent(ns, n);
            assert(es.subrange(0, 1) =~= seq![(e.0, e.1)]);
        } else {
            lemma_first_net_last(cur, n);
            assert(es.subrange(0, j).push((e.0, e.1)) =~= es.subrange(0, j + 1));
            assert(cur.update(ns.len() as int, ir::NetModel { eps: cur[ns.len() as int].eps.push((e.0, e.1)), ..cur[ns.len() as int] })
                =~= net_so_far(ns, n, es, j + 1));
        }
        assert(ir::connect_model(cur, n, e.0, e.1) == net_so_far(ns, n, es, j + 1));
        assert(t == ep_word(e));
        lemma_eps_fold(ns, n, w, es, j + 1);
    }
}

pub proof fn lemma_net_step(m: ir::DesignModel, net: ir::Net)
    requires
        is_token(net.name@),
        forall|i: int| 0 <= i < net.endpoints@.len() ==> ep_ready(#[trigger] ir::ep_views(net.endpoints@)[i]),
        forall|q: int| 0 <= q < m.nets.len() ==> (#[trigger] m.nets[q]).name != net.name@,
    ensures
        ir::hnf_step(Some(m), text::trim(net_line(net))) == Ok::<Option<ir::DesignModel>, Seq<char>>(
            Some(ir::DesignModel {
                nets: m.nets.push(ir::NetModel { name: net.name@, eps: ir::ep_views(net.endpoints@), attrs: Map::empty() }),
                ..m
            }),
        ),
        spaced(net_line(net)),
{
    reveal_strlit("net ");
    reveal_strlit("net");
    reveal_strlit(" ");
    reveal_strlit("design");
    reveal_strlit("dattr");
    reveal_strlit("port");
    reveal_strlit("pattr");
    reveal_strlit("cattr");
    reveal_strlit("nattr");
    reveal_strlit("iattr");
    reveal_strlit("cell");
    let n = net.name@;
    let es = ir::ep_views(net.endpoints@);
    let ew = ep_words(es);
    assert(all_tokens(ew)) by {
        assert forall|i: int| 0 <= i < ew.len() implies is_token(#[trigger] ew[i]) by {
            lemma_ep_word(es[i]);
        }
    }
    lemma_eps_text(es);
    let v = join_words(ew);
    lemma_words_join(ew, Seq::<char>::empty());
    assert(v + Seq::<char>::empty() =~= v);
    assert(plain(v));
    let head = seq!["net"@, n];
    lemma_join2("net"@, n);
    assert(all_tokens(head)) by {
        assert(is_token(head[0]));
    }
    assert(net_line(net) =~= join_words(head) + seq![' '] + v);
    lemma_tail(head, v);
    let w = head + ew;
    assert forall|i: int| 0 <= i < w.len() implies is_token(#[trigger] w[i]) by {
        if i >= 2 {
            assert(w[i] == ew[i - 2]);
        }
    }
    lemma_line(w, ew.len() == 0);
    assert forall|i: int| 0 <= i < es.len() implies w[2 + i] == ep_word(#[trigger] es[i]) && ep_ready(es[i]) by {
        assert(w[2 + i] == ew[i]);
    }
    lemma_eps_fold(m.nets, n, w, es, 0);
    let fin = net_so_far(m.nets, n, es, es.len() as int);
    let full = m.nets.push(ir::NetModel { name: n, eps: es, attrs: Map::empty() });
    if es.len() == 0 {
        lemma_first_net_absent(m.nets, n);
        assert(es =~= Seq::<(Seq<char>, Seq<char>)>::empty());
        assert(fin == m.nets);
    } else {
        assert(es.subrange(0, es.len() as int) =~= es);
        assert(fin == full);
        lemma_first_net_last(full, n);
    }
}

pub proof fn lemma_net_fold(m: ir::DesignModel, net: ir::Net)
    requires
        is_token(net.name@),
        forall|i: int| 0 <= i < net.endpoints@.len() ==> ep_ready(#[trigger] ir::ep_views(net.endpoints@)[i]),
        forall|q: int| 0 <= q < m.nets.len() ==> (#[trigger] m.nets[q]).name != net.name@,
        attrs_ready(net.attrs.pairs()),
        ir::pairs_unique(net.attrs.pairs()),
    ensures
        ir::hnf_fold(Some(m), net_seq(net)) == Ok::<Option<ir::DesignModel>, Seq<char>>(
            Some(ir::DesignModel { nets: m.nets.push(ir::net_model(net)), ..m }),
        ),
{
    let ps = net.attrs.pairs();
    let m1 = ir::DesignModel {
        nets: m.nets.push(ir::NetModel { name: net.name@, eps: ir::ep_views(net.endpoints@), attrs: Map::empty() }),
        ..m
    };
    lemma_fold_append(Some(m), seq![net_line(net)], attr_seq("nattr"@, Some(net.name@), ps));
    lemma_fold_one(Some(m), net_line(net));
    lemma_net_step(m, net);
    lemma_ins_all_attrs(net.attrs);
    let i = m.nets.len() as int;
    lemma_first_net_last(m1.nets, net.name@);
    lemma_nattr_fold(m1, net.name@, ps);
    assert(m1.nets.update(i, ir::NetModel { attrs: ins_all(m1.nets[i].attrs, ps), ..m1.nets[i] }) =~= m.nets.push(
        ir::net_model(net),
    ));
}

/// Net `i` of `ns` can be written and read back.
pub open spec fn net_ready(ns: Seq<ir::Net>, i: int) -> bool {
    let n = ns[i];
    &&& is_token(n.name@)
    &&& attrs_ready(n.attrs.pairs())
    &&& forall|k: int| 0 <= k < n.endpoints@.len() ==> ep_ready(#[trigger] ir::ep_views(n.endpoints@)[k])
    &&& forall|j: int| 0 <= j < i ==> (#[trigger] ns[j]).name@ != n.name@
}

pub proof fn lemma_nets_fold(m: ir::DesignModel, ns: Seq<ir::Net>)
    requires
        m.nets.len() == 0,
        forall|i: int| 0 <= i < ns.len() ==> net_ready(ns, i) && ir::pairs_unique((#[trigger] ns[i]).attrs.pairs()),
    ensures
        ir::hnf_fold(Some(m), nets_seq(ns)) == Ok::<Option<ir::DesignModel>, Seq<char>>(
            Some(ir::DesignModel { nets: ns.map_values(|n: ir::Net| ir::net_model(n)), ..m }),
        ),
    decreases ns.len(),
{
    if ns.len() == 0 {
        assert(ns.map_values(|n: ir::Net| ir::net_model(n)) =~= m.nets);
        assert(ir::DesignModel { nets: m.nets, ..m } == m);
    } else {
        let a = ns.drop_last();
        let n = ns.last();
        assert forall|i: int| 0 <= i < a.len() implies net_ready(a, i) && ir::pairs_unique((#[trigger] a[i]).attrs.pairs()) by {
            assert(a[i] == ns[i]);
            assert(net_ready(ns, i));
            assert forall|j: int| 0 <= j < i implies (#[trigger] a[j]) == ns[j] by {}
        }
        lemma_nets_fold(m, a);
        let m1 = ir::DesignModel { nets: a.map_values(|q: ir::Net| ir::net_model(q)), ..m };
        lemma_fold_append(Some(m), nets_seq(a), net_seq(n));
        assert(net_ready(ns, ns.len() - 1));
        assert(ir::pairs_unique(ns[ns.len() - 1].attrs.pairs()));
        assert forall|j: int| 0 <= j < m1.nets.len() implies (#[trigger] m1.nets[j]).name != n.name@ by {
            assert(ns[j] == a[j]);
        }
        lemma_net_fold(m1, n);
        assert(m1.nets.push(ir::net_model(n)) =~= ns.map_values(|q: ir::Net| ir::net_model(q)));
    }
}

// ---------------------------------------------------------------------------
// Instances
// ---------------------------------------------------------------------------

/// A connection `port:net` that reads back: no whitespace, no `:` or `,` in
/// the port, no `,` in the net.
pub open spec fn conn_ready(x: (Seq<char>, Seq<char>)) -> bool {
    &&& ws_free(x.0)
    &&& ws_free(x.1)
    &&& lacks(x.0, ':')
    &&& lacks(x.0, ',')
    &&& lacks(x.1, ',')
}

pub open spec fn conn_piece(x: (Seq<char>, Seq<char>)) -> Seq<char> {
    x.0 + ":"@ + x.1
}

pub open spec fn conn_pieces(c: Seq<(Seq<char>, Seq<char>)>) -> Seq<Seq<char>> {
    c.map_values(|x: (Seq<char>, Seq<char>)| conn_piece(x))
}

pub proof fn lemma_find_before(a: Seq<char>, c: char, b: Seq<char>, j: int)
    requires
        lacks(a, c),
        0 <= j <= a.len(),
        b.len() > 0 ==> b[0] == c,
    ensures
        text::find_char_from(a + b, c, j) == a.len(),
    decreases a.len() - j,
{
    if j < a.len() {
        assert((a + b)[j] == a[j]);
        lemma_find_before(a, c, b, j + 1);
    } else if b.len() > 0 {
        assert((a + b)[j] == b[0]);
    }
}

proof fn lemma_conn_piece(x: (Seq<char>, Seq<char>))
    requires
        conn_ready(x),
    ensures
        lacks(conn_piece(x), ','),
        ws_free(conn_piece(x)),
        conn_piece(x).len() > 0,
        text::find_char_from(conn_piece(x), ':', 0) == x.0.len(),
        conn_piece(x).subrange(0, x.0.len() as int) == x.0,
        conn_piece(x).subrange(x.0.len() as int + 1, conn_piece(x).len() as int) == x.1,
{
    reveal_strlit(":");
    let t = conn_piece(x);
    assert forall|i: int| 0 <= i < t.len() implies (#[trigger] t[i]) != ',' && !text::is_ws(t[i]) by {
        if i < x.0.len() {
            assert(t[i] == x.0[i]);
        } else if i > x.0.len() {
            assert(t[i] == x.1[i - x.0.len() - 1]);
        }
    }
    assert(t =~= x.0 + (":"@ + x.1));
    lemma_find_before(x.0, ':', ":"@ + x.1, 0);
    assert(t.subrange(0, x.0.len() as int) =~= x.0);
    assert(t.subrange(x.0.len() as int + 1, t.len() as int) =~= x.1);
}

proof fn lemma_conns_front(c: Seq<(Seq<char>, Seq<char>)>)
    requires
        c.len() >= 2,
    ensures
        ir::conns_text(c) == conn_piece(c[0]) + ","@ + ir::conns_text(c.drop_first()),
    decreases c.len(),
{
    reveal_strlit(",");
    reveal_strlit(":");
    if c.len() > 2 {
        lemma_conns_front(c.drop_last());
        assert(c.drop_last().drop_first() =~= c.drop_first().drop_last());
        assert(c.drop_first().last() == c.last());
        assert(c.drop_last()[0] == c[0]);
        let a = ir::conns_text(c.drop_first().drop_last());
        assert(ir::conns_text(c.drop_first()) == a + ","@ + c.last().0 + ":"@ + c.last().1);
        assert(ir::conns_text(c) =~= conn_piece(c[0]) + ","@ + ir::conns_text(c.drop_first()));
    } else {
        assert(c.drop_first() =~= seq![c[1]]);
        assert(c.drop_last() =~= seq![c[0]]);
        assert(ir::conns_text(c.drop_first()) == conn_piece(c[1]));
        assert(ir::conns_text(c.drop_last()) == conn_piece(c[0]));
        assert(ir::conns_text(c) =~= conn_piece(c[0]) + ","@ + ir::conns_text(c.drop_first()));
    }
}

pub proof fn lemma_split_shift(q: Seq<char>, r: Seq<char>, c: char, i: int)
    requires
        0 <= i,
    ensures
        ir::split_char_from(q + r, c, q.len() + i) == ir::split_char_from(r, c, i),
    decreases r.len() + 1 - i,
{
    if i <= r.len() {
        lemma_find_char_shift(q, r, c, i);
        text::lemma_find_char_ge(r, c, i);
        let j = text::find_char_from(r, c, i);
        assert((q + r).subrange(q.len() + i, q.len() + j) =~= r.subrange(i, j));
        if j < r.len() {
            lemma_split_shift(q, r, c, j + 1);
        }
    }
}

/// The text of a non-empty connection list, split at commas.
proof fn lemma_conns_split(c: Seq<(Seq<char>, Seq<char>)>)
    requires
        c.len() > 0,
        forall|i: int| 0 <= i < c.len() ==> conn_ready(#[trigger] c[i]),
    ensures
        ir::split_char_from(ir::conns_text(c), ',', 0) == conn_pieces(c),
        ws_free(ir::conns_text(c)),
        ir::conns_text(c).len() > 0,
    decreases c.len(),
{
    reveal_strlit(",");
    let p0 = conn_piece(c[0]);
    lemma_conn_piece(c[0]);
    if c.len() == 1 {
        assert(ir::conns_text(c) == p0);
        lemma_find_before(p0, ',', Seq::<char>::empty(), 0);
        assert(p0 + Seq::<char>::empty() =~= p0);
        assert(p0.subrange(0, p0.len() as int) =~= p0);
        assert(conn_pieces(c) =~= seq![p0]);
    } else {
        let rest = c.drop_first();
        assert forall|i: int| 0 <= i < rest.len() implies conn_ready(#[trigger] rest[i]) by {
            assert(rest[i] == c[i + 1]);
        }
        lemma_conns_split(rest);
        lemma_conns_front(c);
        let r = ir::conns_text(rest);
        let s = ir::conns_text(c);
        assert(s =~= p0 + (","@ + r));
        lemma_find_before(p0, ',', ","@ + r, 0);
        assert(s.subrange(0, p0.len() as int) =~= p0);
        assert(s =~= (p0 + ","@) + r);
        lemma_split_shift(p0 + ","@, r, ',', 0);
        assert(ir::split_char_from(s, ',', 0) == seq![p0] + ir::split_char_from(s, ',', p0.len() as int + 1));
        assert(conn_pieces(c) =~= seq![p0] + conn_pieces(rest));
        assert forall|i: int| 0 <= i < s.len() implies !text::is_ws(#[trigger] s[i]) by {
            if i < p0.len() {
                assert(s[i] == p0[i]);
            } else if i > p0.len() {
                assert(s[i] == r[i - p0.len() - 1]);
            }
        }
    }
}

proof fn lemma_hnf_conns(c: Seq<(Seq<char>, Seq<char>)>)
    requires
        forall|i: int| 0 <= i < c.len() ==> conn_ready(#[trigger] c[i]),
    ensures
        ir::hnf_conns(conn_pieces(c)) == c,
    decreases c.len(),
{
    reveal_strlit(":");
    if c.len() > 0 {
        let a = c.drop_last();
        assert forall|i: int| 0 <= i < a.len() implies conn_ready(#[trigger] a[i]) by {
            assert(a[i] == c[i]);
        }
        lemma_hnf_conns(a);
        assert(conn_pieces(c).drop_last() =~= conn_pieces(a));
        let x = c.last();
        assert(conn_ready(c[c.len() - 1]));
        lemma_conn_piece(x);
        assert(conn_pieces(c).last() == conn_piece(x));
        assert(ir::hnf_conns(conn_pieces(c)) =~= a + seq![(x.0, x.1)]);
        assert(a + seq![(x.0, x.1)] =~= c);
    } else {
        assert(conn_pieces(c) =~= Seq::<Seq<char>>::empty());
    }
}

pub open spec fn inst_ready(i: ir::Instance) -> bool {
    &&& is_token(i.name@)
    &&& is_token(i.module@)
    &&& attrs_ready(i.attrs.pairs())
    &&& forall|k: int| 0 <= k < i.conns@.len() ==> conn_ready(#[trigger] ir::kv(i.conns@)[k])
}

pub proof fn lemma_inst_step(m: ir::DesignModel, it: ir::Instance)
    requires
        inst_ready(it),
    ensures
        ir::hnf_step(Some(m), text::trim(inst_line(it))) == Ok::<Option<ir::DesignModel>, Seq<char>>(
            Some(ir::DesignModel { insts: m.insts.push(ir::InstModel { attrs: Map::empty(), ..ir::inst_model(it) }), ..m }),
        ),
        spaced(inst_line(it)),
{
    reveal_strlit("inst ");
    reveal_strlit("inst");
    reveal_strlit(" ");
    reveal_strlit("design");
    reveal_strlit("dattr");
    reveal_strlit("port");
    reveal_strlit("pattr");
    reveal_strlit("cattr");
    reveal_strlit("nattr");
    reveal_strlit("iattr");
    reveal_strlit("cell");
    reveal_strlit("net");
    let c = ir::kv(it.conns@);
    let v = ir::conns_text(c);
    let head = seq!["inst"@, it.name@, it.module@];
    lemma_join3("inst"@, it.name@, it.module@);
    assert(all_tokens(head)) by {
        assert(is_token(head[0]));
    }
    assert(inst_line(it) =~= join_words(head) + seq![' '] + v);
    if c.len() > 0 {
        lemma_conns_split(c);
        assert(all_tokens(seq![v]));
        lemma_words_join(seq![v], Seq::<char>::empty());
        assert(join_words(seq![v]) == v);
        assert(v + Seq::<char>::empty() =~= v);
        lemma_hnf_conns(c);
    } else {
        assert(v == Seq::<char>::empty());
        lemma_words_all_ws(v);
    }
    assert(plain(v));
    lemma_tail(head, v);
    let w = head + text::words(v);
    assert forall|i: int| 0 <= i < w.len() implies is_token(#[trigger] w[i]) by {
        if i >= 3 {
            assert(w[i] == text::words(v)[i - 3]);
        }
    }
    lemma_line(w, text::words(v).len() == 0);
    let conns = if w.len() > 3 {
        ir::hnf_conns(ir::split_char_from(w[3], ',', 0))
    } else {
        Seq::empty()
    };
    if c.len() > 0 {
        assert(text::words(v) =~= seq![v]);
        assert(w[3] == v);
        assert(w.len() == 4);
    } else {
        assert(w.len() == 3);
    }
    assert(conns == c);
    assert(ir::InstModel { attrs: Map::empty(), ..ir::inst_model(it) } == ir::InstModel {
        name: w[1],
        module: w[2],
        conns,
        attrs: Map::empty(),
    });
    assert(text::trim(inst_line(it)) == join_words(w));
    assert(w[0] == "inst"@);
}

pub proof fn lemma_iattr_step(m: ir::DesignModel, n: Seq<char>, k: Seq<char>, v: Seq<char>)
    requires
        is_token(n),
        is_token(k),
        plain(v),
        ir::last_inst(m.insts, n, m.insts.len() as int) >= 0,
    ensures
        ({
            let i = ir::last_inst(m.insts, n, m.insts.len() as int);
            ir::hnf_step(Some(m), text::trim(attr_line("iattr"@, Some(n), k, v))) == Ok::<Option<ir::DesignModel>, Seq<char>>(
                Some(ir::DesignModel {
                    insts: m.insts.update(i, ir::InstModel { attrs: m.insts[i].attrs.insert(k, v), ..m.insts[i] }),
                    ..m
                }),
            )
        }),
{
    reveal_strlit("iattr");
    reveal_strlit("nattr");
    reveal_strlit("cattr");
    reveal_strlit("pattr");
    reveal_strlit("design");
    reveal_strlit("dattr");
    reveal_strlit("port");
    reveal_strlit("HNF");
    let w = lemma_attr_words("iattr"@, Some(n), k, v);
}

pub proof fn lemma_last_inst_range(a: Seq<ir::InstModel>, n: Seq<char>, k: int)
    ensures
        -1 <= ir::last_inst(a, n, k) < a.len(),
        0 <= k ==> ir::last_inst(a, n, k) < k,
        ir::last_inst(a, n, k) >= 0 ==> a[ir::last_inst(a, n, k)].name == n,
    decreases k,
{
    if 0 < k <= a.len() && a[k - 1].name != n {
        lemma_last_inst_range(a, n, k - 1);
    }
}

proof fn lemma_last_inst_names(a: Seq<ir::InstModel>, b: Seq<ir::InstModel>, n: Seq<char>, k: int)
    requires
        a.len() == b.len(),
        forall|q: int| 0 <= q < a.len() ==> (#[trigger] a[q]).name == b[q].name,
    ensures
        ir::last_inst(a, n, k) == ir::last_inst(b, n, k),
    decreases k,
{
    if 0 < k <= a.len() {
        assert(a[k - 1].name == b[k - 1].name);
        lemma_last_inst_names(a, b, n, k - 1);
    }
}

pub proof fn lemma_iattr_fold(m: ir::DesignModel, n: Seq<char>, ps: Seq<(Seq<char>, Seq<char>)>)
    requires
        attrs_ready(ps),
        is_token(n),
        ir::last_inst(m.insts, n, m.insts.len() as int) >= 0,
    ensures
        ({
            let i = ir::last_inst(m.insts, n, m.insts.len() as int);
            ir::hnf_fold(Some(m), attr_seq("iattr"@, Some(n), ps)) == Ok::<Option<ir::DesignModel>, Seq<char>>(
                Some(ir::DesignModel {
                    insts: m.insts.update(i, ir::InstModel { attrs: ins_all(m.insts[i].attrs, ps), ..m.insts[i] }),
                    ..m
                }),
            )
        }),
    decreases ps.len(),
{
    let i = ir::last_inst(m.insts, n, m.insts.len() as int);
    lemma_last_inst_range(m.insts, n, m.insts.len() as int);
    if ps.len() > 0 {
        lemma_attrs_ready_prefix(ps);
        lemma_iattr_fold(m, n, ps.drop_last());
        let x = ps.last();
        let l = attr_line("iattr"@, Some(n), x.0, x.1);
        assert(attr_seq("iattr"@, Some(n), ps) =~= attr_seq("iattr"@, Some(n), ps.drop_last()).push(l));
        lemma_fold_push(Some(m), attr_seq("iattr"@, Some(n), ps.drop_last()), l);
        let c1 = m.insts.update(i, ir::InstModel { attrs: ins_all(m.insts[i].attrs, ps.drop_last()), ..m.insts[i] });
        let m1 = ir::DesignModel { insts: c1, ..m };
        lemma_last_inst_names(m.insts, c1, n, m.insts.len() as int);
        lemma_iattr_step(m1, n, x.0, x.1);
        assert(c1.update(i, ir::InstModel { attrs: c1[i].attrs.insert(x.0, x.1), ..c1[i] }) =~= m.insts.update(
            i,
            ir::InstModel { attrs: ins_all(m.insts[i].attrs, ps), ..m.insts[i] },
        ));
    } else {
        assert(attr_seq("iattr"@, Some(n), ps) =~= Seq::<Seq<char>>::empty());
        assert(m.insts.update(i, ir::InstModel { attrs: ins_all(m.insts[i].attrs, ps), ..m.insts[i] }) =~= m.insts);
    }
}

pub proof fn lemma_inst_fold(m: ir::DesignModel, it: ir::Instance)
    requires
        inst_ready(it),
        ir::pairs_unique(it.attrs.pairs()),
    ensures
        ir::hnf_fold(Some(m), inst_seq(it)) == Ok::<Option<ir::DesignModel>, Seq<char>>(
            Some(ir::DesignModel { insts: m.insts.push(ir::inst_model(it)), ..m }),
        ),
{
    let ps = it.attrs.pairs();
    let m1 = ir::DesignModel { insts: m.insts.push(ir::InstModel { attrs: Map::empty(), ..ir::inst_model(it) }), ..m };
    lemma_fold_append(Some(m), seq![inst_line(it)], attr_seq("iattr"@, Some(it.name@), ps));
    lemma_fold_one(Some(m), inst_line(it));
    lemma_inst_step(m, it);
    lemma_ins_all_attrs(it.attrs);
    let i = m.insts.len() as int;
    assert(ir::last_inst(m1.insts, it.name@, m1.insts.len() as int) == i);
    lemma_iattr_fold(m1, it.name@, ps);
    assert(m1.insts.update(i, ir::InstModel { attrs: ins_all(m1.insts[i].attrs, ps), ..m1.insts[i] }) =~= m.insts.push(
        ir::inst_model(it),
    ));
}

pub proof fn lemma_insts_fold(m: ir::DesignModel, is: Seq<ir::Instance>)
    requires
        m.insts.len() == 0,
        forall|i: int| 0 <= i < is.len() ==> inst_ready(#[trigger] is[i]) && ir::pairs_unique(is[i].attrs.pairs()),
    ensures
        ir::hnf_fold(Some(m), insts_seq(is)) == Ok::<Option<ir::DesignModel>, Seq<char>>(
            Some(ir::DesignModel { insts: is.map_values(|i: ir::Instance| ir::inst_model(i)), ..m }),
        ),
    decreases is.len(),
{
    if is.len() == 0 {
        assert(is.map_values(|i: ir::Instance| ir::inst_model(i)) =~= m.insts);
        assert(ir::DesignModel { insts: m.insts, ..m } == m);
    } else {
        let a = is.drop_last();
        let it = is.last();
        assert forall|i: int| 0 <= i < a.len() implies inst_ready(#[trigger] a[i]) && ir::pairs_unique(a[i].attrs.pairs()) by {
            assert(a[i] == is[i]);
        }
        lemma_insts_fold(m, a);
        let m1 = ir::DesignModel { insts: a.map_values(|q: ir::Instance| ir::inst_model(q)), ..m };
        lemma_fold_append(Some(m), insts_seq(a), inst_seq(it));
        assert(inst_ready(is[is.len() - 1]) && ir::pairs_unique(is[is.len() - 1].attrs.pairs()));
        lemma_inst_fold(m1, it);
        assert(m1.insts.push(ir::inst_model(it)) =~= is.map_values(|q: ir::Instance| ir::inst_model(q)));
    }
}

// ---------------------------------------------------------------------------
// The round trip
// ---------------------------------------------------------------------------

pub open spec fn all_spaced(ls: Seq<Seq<char>>) -> bool {
    forall|i: int| 0 <= i < ls.len() ==> spaced(#[trigger] ls[i])
}

pub proof fn lemma_spaced_append(a: Seq<Seq<char>>, b: Seq<Seq<char>>)
    requires
        all_spaced(a),
        all_spaced(b),
    ensures
        all_spaced(a + b),
{
    assert forall|i: int| 0 <= i < (a + b).len() implies spaced(#[trigger] (a + b)[i]) by {
        if i < a.len() {
            assert((a + b)[i] == a[i]);
        } else {
            assert((a + b)[i] == b[i - a.len()]);
        }
    }
}

proof fn lemma_attr_seq_spaced(tag: Seq<char>, owner: Option<Seq<char>>, ps: Seq<(Seq<char>, Seq<char>)>)
    requires
        is_token(tag),
        attrs_ready(ps),
        owner matches Some(o) ==> is_token(o),
    ensures
        all_spaced(attr_seq(tag, owner, ps)),
{
    assert forall|i: int| 0 <= i < attr_seq(tag, owner, ps).len() implies spaced(#[trigger] attr_seq(tag, owner, ps)[i]) by {
        assert(is_token(ps[i].0) && plain(ps[i].1));
        let w = lemma_attr_words(tag, owner, ps[i].0, ps[i].1);
    }
}

proof fn lemma_ports_spaced(ps: Seq<ir::Port>)
    requires
        forall|i: int| 0 <= i < ps.len() ==> is_token((#[trigger] ps[i]).name@) && attrs_ready(ps[i].attrs.pairs()),
    ensures
        all_spaced(ports_seq(ps)),
    decreases ps.len(),
{
    reveal_strlit("pattr");
    if ps.len() > 0 {
        let a = ps.drop_last();
        let p = ps.last();
        assert forall|i: int| 0 <= i < a.len() implies is_token((#[trigger] a[i]).name@) && attrs_ready(a[i].attrs.pairs()) by {
            assert(a[i] == ps[i]);
        }
        lemma_ports_spaced(a);
        assert(is_token(ps[ps.len() - 1].name@) && attrs_ready(ps[ps.len() - 1].attrs.pairs()));
        lemma_port_step(ir::empty_model(p.name@), p);
        assert(all_spaced(seq![port_line(p)]));
        assert(is_token("pattr"@));
        lemma_attr_seq_spaced("pattr"@, Some(p.name@), p.attrs.pairs());
        lemma_spaced_append(seq![port_line(p)], attr_seq("pattr"@, Some(p.name@), p.attrs.pairs()));
        lemma_spaced_append(ports_seq(a), port_seq(p));
    }
}

proof fn lemma_cells_spaced(cs: Seq<ir::Cell>)
    requires
        forall|i: int| 0 <= i < cs.len() ==> cell_ready(#[trigger] cs[i]),
    ensures
        all_spaced(cells_seq(cs)),
    decreases cs.len(),
{
    reveal_strlit("cattr");
    if cs.len() > 0 {
        let a = cs.drop_last();
        let c = cs.last();
        assert forall|i: int| 0 <= i < a.len() implies cell_ready(#[trigger] a[i]) by {
            assert(a[i] == cs[i]);
        }
        lemma_cells_spaced(a);
        assert(cell_ready(cs[cs.len() - 1]));
        lemma_cell_step(ir::empty_model(c.name@), c);
        assert(all_spaced(seq![cell_line(c)]));
        assert(is_token("cattr"@));
        lemma_attr_seq_spaced("cattr"@, Some(c.name@), c.attrs.pairs());
        lemma_spaced_append(seq![cell_line(c)], attr_seq("cattr"@, Some(c.name@), c.attrs.pairs()));
        lemma_spaced_append(cells_seq(a), cell_seq(c));
    }
}

proof fn lemma_nets_spaced(ns: Seq<ir::Net>)
    requires
        forall|i: int| 0 <= i < ns.len() ==> net_ready(ns, i),
    ensures
        all_spaced(nets_seq(ns)),
    decreases ns.len(),
{
    reveal_strlit("nattr");
    reveal_strlit("iattr");
    if ns.len() > 0 {
        let a = ns.drop_last();
        let n = ns.last();
        assert forall|i: int| 0 <= i < a.len() implies net_ready(a, i) by {
            assert(a[i] == ns[i]);
            assert(net_ready(ns, i));
            assert forall|j: int| 0 <= j < i implies (#[trigger] a[j]) == ns[j] by {}
        }
        lemma_nets_spaced(a);
        assert(net_ready(ns, ns.len() - 1));
        lemma_net_step(ir::empty_model(n.name@), n);
        assert(all_spaced(seq![net_line(n)]));
        assert(is_token("nattr"@));
        lemma_attr_seq_spaced("nattr"@, Some(n.name@), n.attrs.pairs());
        lemma_spaced_append(seq![net_line(n)], attr_seq("nattr"@, Some(n.name@), n.attrs.pairs()));
        lemma_spaced_append(nets_seq(a), net_seq(n));
    }
}

proof fn lemma_insts_spaced(is: Seq<ir::Instance>)
    requires
        forall|i: int| 0 <= i < is.len() ==> inst_ready(#[trigger] is[i]),
    ensures
        all_spaced(insts_seq(is)),
    decreases is.len(),
{
    reveal_strlit("iattr");
    if is.len() > 0 {
        let a = is.drop_last();
        assert forall|i: int| 0 <= i < a.len() implies inst_ready(#[trigger] a[i]) by {
            assert(a[i] == is[i]);
        }
        lemma_insts_spaced(a);
        let it = is.last();
        assert(inst_ready(is[is.len() - 1]));
        lemma_inst_step(ir::empty_model(it.name@), it);
        assert(all_spaced(seq![inst_line(it)]));
        assert(is_token("iattr"@));
        lemma_attr_seq_spaced("iattr"@, Some(it.name@), it.attrs.pairs());
        lemma_spaced_append(seq![inst_line(it)], attr_seq("iattr"@, Some(it.name@), it.attrs.pairs()));
        lemma_spaced_append(insts_seq(a), inst_seq(it));
    }
}

/// A design whose HNF text reads back as itself: every name, key and module
/// a single word, every value free of leading, trailing and repeated
/// whitespace, endpoints `cell/pin` with no `/` in the cell, connections
/// `port:net` with no `:` or `,` in the port and no `,` in the net, distinct
/// net names, and port names distinct where the port carries attributes.
pub open spec fn hnf_ready(d: ir::Design) -> bool {
    &&& is_token(d.name@)
    &&& attrs_ready(d.attrs.pairs())
    &&& forall|i: int| 0 <= i < d.ports@.len() ==> #[trigger] port_ready(d.ports@, i)
    &&& forall|i: int| 0 <= i < d.cells@.len() ==> cell_ready(#[trigger] d.cells@[i])
    &&& forall|i: int| 0 <= i < d.nets@.len() ==> #[trigger] net_ready(d.nets@, i)
    &&& forall|i: int| 0 <= i < d.instances@.len() ==> inst_ready(#[trigger] d.instances@[i])
}

/// Every attribute list of `d` has distinct keys (as [`ir::Attrs`] keeps them).
pub open spec fn attrs_distinct(d: ir::Design) -> bool {
    &&& ir::pairs_unique(d.attrs.pairs())
    &&& forall|i: int| 0 <= i < d.ports@.len() ==> ir::pairs_unique((#[trigger] d.ports@[i]).attrs.pairs())
    &&& forall|i: int| 0 <= i < d.cells@.len() ==> ir::pairs_unique((#[trigger] d.cells@[i]).attrs.pairs())
    &&& forall|i: int| 0 <= i < d.nets@.len() ==> ir::pairs_unique((#[trigger] d.nets@[i]).attrs.pairs())
    &&& forall|i: int| 0 <= i < d.instances@.len() ==> ir::pairs_unique((#[trigger] d.instances@[i]).attrs.pairs())
}

proof fn lemma_head_fold(n: Seq<char>)
    requires
        is_token(n),
    ensures
        ir::hnf_fold(None, seq!["HNF 1"@, "design "@ + n]) == Ok::<Option<ir::DesignModel>, Seq<char>>(
            Some(ir::empty_model(n)),
        ),
        all_spaced(seq!["HNF 1"@, "design "@ + n]),
{
    reveal_strlit("HNF 1");
    reveal_strlit("HNF");
    reveal_strlit("1");
    reveal_strlit("design ");
    reveal_strlit("design");
    reveal_strlit(" ");
    let h = seq!["HNF"@, "1"@];
    lemma_join2("HNF"@, "1"@);
    assert(all_tokens(h)) by {
        assert(is_token(h[0]));
        assert(is_token(h[1]));
    }
    assert("HNF 1"@ =~= line_words(h, false));
    lemma_line(h, false);
    assert(text::starts_with(join_words(h), "HNF"@)) by {
        assert(join_words(h).subrange(0, 3) =~= "HNF"@);
    }
    let w = seq!["design"@, n];
    lemma_join2("design"@, n);
    assert(all_tokens(w)) by {
        assert(is_token(w[0]));
    }
    assert("design "@ + n =~= line_words(w, false));
    lemma_line(w, false);
    let ls = seq!["HNF 1"@, "design "@ + n];
    assert(ls =~= seq!["HNF 1"@] + seq!["design "@ + n]);
    lemma_fold_append(None, seq!["HNF 1"@], seq!["design "@ + n]);
    lemma_fold_one(None, "HNF 1"@);
    lemma_fold_one(None, "design "@ + n);
    assert(ir::empty_model(w[1]) == ir::empty_model(n));
    assert forall|i: int| 0 <= i < ls.len() implies spaced(#[trigger] ls[i]) by {
        if i == 0 {
            assert(ls[i] == line_words(h, false));
        } else {
            assert(ls[i] == line_words(w, false));
        }
    }
}

/// Writing a design as HNF and reading the text back gives the same design:
/// its name and attributes, its ports with their directions, its cells with
/// their kinds (a LUT's INIT included), its nets with their endpoints and its
/// instances with their connections, each with its attributes and in order.
pub proof fn hnf_round_trip(d: ir::Design)
    requires
        hnf_ready(d),
        attrs_distinct(d),
    ensures
        ir::hnf_result(ir::hnf_text(d)) == Ok::<ir::DesignModel, Seq<char>>(ir::design_model(d)),
{
    reveal_strlit("dattr");
    lemma_hnf_text(d);
    let head = seq!["HNF 1"@, "design "@ + d.name@];
    let a = attr_seq("dattr"@, None, d.attrs.pairs());
    let p = ports_seq(d.ports@);
    let c = cells_seq(d.cells@);
    let n = nets_seq(d.nets@);
    let i = insts_seq(d.instances@);
    // the lines
    lemma_head_fold(d.name@);
    assert(is_token("dattr"@));
    lemma_attr_seq_spaced("dattr"@, None, d.attrs.pairs());
    assert forall|k: int| 0 <= k < d.ports@.len() implies is_token((#[trigger] d.ports@[k]).name@) && attrs_ready(d.ports@[k].attrs.pairs()) by {
        assert(port_ready(d.ports@, k));
    }
    lemma_ports_spaced(d.ports@);
    lemma_cells_spaced(d.cells@);
    assert forall|k: int| 0 <= k < d.nets@.len() implies net_ready(d.nets@, k) by {}
    lemma_nets_spaced(d.nets@);
    lemma_insts_spaced(d.instances@);
    lemma_spaced_append(head, a);
    lemma_spaced_append(head + a, p);
    lemma_spaced_append(head + a + p, c);
    lemma_spaced_append(head + a + p + c, n);
    lemma_spaced_append(head + a + p + c + n, i);
    lemma_lines_nl_join(hnf_seq(d));
    // reading them
    let m0 = ir::empty_model(d.name@);
    lemma_dattr_fold(m0, d.attrs.pairs());
    lemma_ins_all_attrs(d.attrs);
    let m1 = ir::DesignModel { attrs: ir::attr_map(d.attrs), ..m0 };
    assert forall|k: int| 0 <= k < d.ports@.len() implies port_ready(d.ports@, k) && ir::pairs_unique((#[trigger] d.ports@[k]).attrs.pairs()) by {}
    lemma_ports_fold(m1, d.ports@);
    let m2 = ir::DesignModel { ports: d.ports@.map_values(|q: ir::Port| ir::port_model(q)), ..m1 };
    assert forall|k: int| 0 <= k < d.cells@.len() implies cell_ready(#[trigger] d.cells@[k]) && ir::pairs_unique(d.cells@[k].attrs.pairs()) by {}
    lemma_cells_fold(m2, d.cells@);
    let m3 = ir::DesignModel { cells: d.cells@.map_values(|q: ir::Cell| ir::cell_model(q)), ..m2 };
    assert forall|k: int| 0 <= k < d.nets@.len() implies net_ready(d.nets@, k) && ir::pairs_unique((#[trigger] d.nets@[k]).attrs.pairs()) by {}
    lemma_nets_fold(m3, d.nets@);
    let m4 = ir::DesignModel { nets: d.nets@.map_values(|q: ir::Net| ir::net_model(q)), ..m3 };
    assert forall|k: int| 0 <= k < d.instances@.len() implies inst_ready(#[trigger] d.instances@[k]) && ir::pairs_unique(d.instances@[k].attrs.pairs()) by {}
    lemma_insts_fold(m4, d.instances@);
    let m5 = ir::DesignModel { insts: d.instances@.map_values(|q: ir::Instance| ir::inst_model(q)), ..m4 };
    lemma_fold_append(None, head, a);
    lemma_fold_append(None, head + a, p);
    lemma_fold_append(None, head + a + p, c);
    lemma_fold_append(None, head + a + p + c, n);
    lemma_fold_append(None, head + a + p + c + n, i);
    assert(m5 == ir::design_model(d));
}
} // verus!
