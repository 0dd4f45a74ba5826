//! A line that the unit grammar accepts is never accepted by the colon
//! grammar: its unit letter ends up in the seconds or their fraction, which
//! then fail to read as a number.

use crate::lexer::{data_left, delim_at, lemma_lex_next, lex_next, SwTokenKind, Tok, COLON, DOT};
use crate::num::{
    digits_value, frac_value, is_digit, u64_value, IntError, ParseFracErr, MINUS, PLUS,
};
use crate::parse::{unit_of, Failure, LETTER_H, LETTER_M, LETTER_S};
use crate::sw::{add_fraction, add_whole, peek_kind, scan, scan_start, step, sw_model, Group, Scan};
use crate::text::{
    blank_at, cluster, edge, grapheme_spans, is_space_char, lemma_cluster_bounds, skip_blank_back,
    tiles,
};
use crate::unit::unit_model;
use vstd::prelude::*;
use vstd::utf8::*;

verus! {

/// A single ASCII byte that is no whitespace decodes to one character that
/// is no whitespace.
proof fn lemma_byte_not_blank(x: u8)
    requires
        x < 0x80,
        x != 0x20,
        !(0x09 <= x <= 0x0d),
    ensures
        decode_utf8(seq![x]).len() == 1,
        !is_space_char(decode_utf8(seq![x])[0]),
{
    let c = seq![x];
    reveal_with_fuel(valid_utf8, 2);
    reveal_with_fuel(decode_utf8, 2);
    assert(is_leading_byte_width_1(x)) by (bit_vector)
        requires
            x < 0x80,
    ;
    assert(pop_first_scalar(c) =~= Seq::<u8>::empty());
    let v = decode_first_scalar(c);
    assert(v == x as u32) by (bit_vector)
        requires
            x < 0x80,
            v == codepoint_width_1(x),
    ;
}

/// A cluster of one delimiter or unit byte is not blank.
proof fn lemma_mark_not_blank(b: Seq<u8>, g: Seq<(usize, usize)>, i: int)
    requires
        tiles(b, g),
        valid_utf8(b),
        0 <= i < g.len(),
        cluster(b, g, i).len() == 1,
        ({
            let x = cluster(b, g, i)[0];
            x == COLON || x == DOT || x == PLUS || x == MINUS || x == LETTER_S || x == LETTER_M
                || x == LETTER_H
        }),
    ensures
        !blank_at(b, g, i),
{
    let c = cluster(b, g, i);
    assert(c =~= seq![c[0]]);
    lemma_byte_not_blank(c[0]);
}

/// Blank clusters at the end are skipped by the lexer.
proof fn lemma_skip_tail(b: Seq<u8>, g: Seq<(usize, usize)>, k: int, m: int)
    requires
        0 <= k <= m <= g.len(),
        forall|j: int| k <= j < m ==> #[trigger] blank_at(b, g, j),
    ensures
        lex_next(b, g, m) == lex_next(b, g, k),
    decreases m - k,
{
    if m > k {
        assert(blank_at(b, g, m - 1));
        lemma_skip_tail(b, g, k, m - 1);
    }
}

/// What `skip_blank_back` skips is blank, and where it stops is not.
proof fn lemma_skip_back(b: Seq<u8>, g: Seq<(usize, usize)>, lo: int, m: int)
    requires
        lo <= m,
    ensures
        lo <= skip_blank_back(b, g, lo, m) <= m,
        forall|j: int| skip_blank_back(b, g, lo, m) <= j < m ==> #[trigger] blank_at(b, g, j),
        skip_blank_back(b, g, lo, m) > lo ==> !blank_at(b, g, skip_blank_back(b, g, lo, m) - 1),
    decreases m - lo,
{
    if lo < m && blank_at(b, g, m - 1) {
        lemma_skip_back(b, g, lo, m - 1);
    }
}

/// The walk over a data run stops at the start or above a delimiter.
proof fn lemma_data_stop(b: Seq<u8>, g: Seq<(usize, usize)>, k: int, lo: int)
    requires
        0 <= k <= lo,
    ensures
        data_left(b, g, k, lo).0 > 0 ==> delim_at(b, g, data_left(b, g, k, lo).0 - 1) is Some,
        0 <= data_left(b, g, k, lo).0 <= data_left(b, g, k, lo).1 <= lo,
    decreases k,
{
    if k > 0 && delim_at(b, g, k - 1) is None {
        if blank_at(b, g, k - 1) {
            lemma_data_stop(b, g, k - 1, lo);
        } else {
            lemma_data_stop(b, g, k - 1, k - 1);
        }
    }
}

/// A delimiter cluster, not blank, is the next token.
proof fn lemma_delim_next(b: Seq<u8>, g: Seq<(usize, usize)>, j: int)
    requires
        tiles(b, g),
        valid_utf8(b),
        0 < j <= g.len(),
        delim_at(b, g, j - 1) is Some,
    ensures
        peek_kind(b, g, j) == delim_at(b, g, j - 1),
        delim_at(b, g, j - 1) != Some(SwTokenKind::Data),
{
    lemma_mark_not_blank(b, g, j - 1);
}

/// After the fraction or the seconds hold `r`, and the field read is not the
/// fraction, `r` stays in one of the two fields whatever else is read.
pub open spec fn keeps(st: Scan, r: (usize, usize)) -> bool {
    &&& st.cur != Group::SecondsSub
    &&& st.secs == r || st.subsecs == r
    &&& st.cur == Group::SecondsInt ==> st.subsecs == r
}

/// Reading on from a state that keeps `r` ends, if it succeeds, with `r` in
/// the seconds or their fraction.
proof fn lemma_keeps(b: Seq<u8>, g: Seq<(usize, usize)>, p: int, st: Scan, r: (usize, usize))
    requires
        keeps(st, r),
    ensures
        scan(b, g, p, st) matches Ok(fin) ==> fin.secs == r || fin.subsecs == r,
    decreases p,
{
    match lex_next(b, g, p) {
        None => {},
        Some((t, j)) => {
            match step(b, g, st, t, peek_kind(b, g, j)) {
                Err(_) => {},
                Ok(next) => {
                    assert(keeps(next, r));
                    if 0 <= j < p {
                        lemma_keeps(b, g, j, next, r);
                    }
                },
            }
        },
    }
}

/// Digits ending in a byte that is no digit are no number.
proof fn lemma_digits_fail(d: Seq<u8>, i: int, acc: int)
    requires
        0 <= i < d.len(),
        !is_digit(d[d.len() - 1]),
    ensures
        digits_value(d, i, acc) is Err,
    decreases d.len() - i,
{
    if i < d.len() - 1 && is_digit(d[i]) && acc * 10 + (d[i] - 0x30) <= u64::MAX {
        lemma_digits_fail(d, i + 1, acc * 10 + (d[i] - 0x30));
    }
}

/// A fraction with a cluster that is no digit is no fraction.
proof fn lemma_frac_fail(
    b: Seq<u8>,
    g: Seq<(usize, usize)>,
    i: int,
    hi: int,
    u: int,
    place: nat,
    acc: int,
)
    requires
        0 <= i <= u < hi <= g.len(),
        !(cluster(b, g, u).len() == 1 && is_digit(cluster(b, g, u)[0])),
    ensures
        frac_value(b, g, i, hi, place, acc) is Err,
    decreases hi - i,
{
    if i < u {
        let c = cluster(b, g, i);
        if c.len() == 1 && is_digit(c[0]) {
            if place == 0 {
                lemma_frac_fail(b, g, i + 1, hi, u, 0, acc);
            } else {
                let next = acc + (c[0] - 0x30) * vstd::arithmetic::power::pow(
                    10,
                    (place - 1) as nat,
                );
                lemma_frac_fail(b, g, i + 1, hi, u, (place - 1) as nat, next);
            }
        }
    }
}

/// There are no more clusters than bytes.
proof fn lemma_few_clusters(b: Seq<u8>, g: Seq<(usize, usize)>, i: int)
    requires
        tiles(b, g),
        valid_utf8(b),
        0 <= i <= g.len(),
    ensures
        i <= edge(b, g, i),
    decreases i,
{
    if i > 0 {
        lemma_few_clusters(b, g, i - 1);
        lemma_cluster_bounds(b, g, i - 1);
    } else {
        crate::text::lemma_edges(b, g, 0, 0);
    }
}

/// Where the unit grammar accepts a line, the colon grammar rejects it.
pub proof fn lemma_grammars_disjoint(b: Seq<u8>, allow_unit: bool, allow_sw: bool)
    requires
        tiles(b, grapheme_spans(b)),
        valid_utf8(b),
        b.len() <= usize::MAX,
        unit_model(b, allow_unit) is Ok,
    ensures
        sw_model(b, allow_sw) is Err,
{
    let g = grapheme_spans(b);
    let n = g.len() as int;
    lemma_few_clusters(b, g, n);
    crate::text::lemma_edges(b, g, n, n);
    assert(n <= usize::MAX);
    lemma_skip_back(b, g, 0, n);
    let k = skip_blank_back(b, g, 0, n);
    let u = k - 1;
    lemma_cluster_bounds(b, g, u);
    let c = cluster(b, g, u);
    assert(unit_of(c) is Some);
    assert(delim_at(b, g, u) is None);
    lemma_skip_tail(b, g, k, n);
    lemma_data_stop(b, g, u, u);
    let (j, lo) = data_left(b, g, u, u);
    let r = (lo as usize, k as usize);
    let t = Tok { kind: SwTokenKind::Data, start: lo as usize, end: k as usize };
    assert(lex_next(b, g, n) == Some((t, j)));
    let pk = peek_kind(b, g, j);
    if j > 0 {
        lemma_delim_next(b, g, j);
    } else {
        assert(pk is None);
    }
    let st0 = scan_start();
    let scanned = scan(b, g, n, st0);
    if pk is None || pk == Some(SwTokenKind::Pos) || pk == Some(SwTokenKind::Neg) {
        let st1 = Scan { cur: Group::SecondsInt, secs: r, ..st0 };
        assert(scanned == scan(b, g, j, st1));
        if j > 0 {
            lemma_lex_next(b, g, j);
            let (s2, j2) = lex_next(b, g, j)->Some_0;
            match step(b, g, st1, s2, peek_kind(b, g, j2)) {
                Err(_) => {},
                Ok(st2) => {
                    assert(st2.secs == r);
                    assert(peek_kind(b, g, j2) is None);
                    assert(scan(b, g, j2, st2) == Ok::<Scan, Failure>(st2));
                },
            }
        }
        assert(scanned matches Ok(fin) ==> fin.secs == r);
    } else {
        let st1 = Scan { subsecs: r, ..st0 };
        assert(scanned == scan(b, g, j, st1));
        lemma_lex_next(b, g, j);
        let (s2, j2) = lex_next(b, g, j)->Some_0;
        let st2 = step(b, g, st1, s2, peek_kind(b, g, j2))->Ok_0;
        assert(keeps(st2, r));
        lemma_keeps(b, g, j2, st2, r);
        assert(scanned == scan(b, g, j2, st2));
    }
    assert(c =~= seq![c[0]]);
    assert(!is_digit(c[0]));
    match scanned {
        Err(_) => {},
        Ok(fin) => {
            let secs_all_fail = add_whole(b, g, r, Group::SecondsInt, 1, 0);
            let d = b.subrange(edge(b, g, lo), edge(b, g, k));
            crate::text::lemma_edges(b, g, lo, u);
            assert(d[d.len() - 1] == c[0]);
            if d.len() == 1 {
                assert(d[0] == c[0]);
            }
            if d[0] == PLUS && d.len() > 1 {
                lemma_digits_fail(d, 1, 0);
            } else {
                lemma_digits_fail(d, 0, 0);
            }
            assert(u64_value(d) is Err);
            lemma_frac_fail(b, g, lo, k, u, 9, 0);
            assert(forall|acc: int| add_whole(b, g, r, Group::SecondsInt, 1, acc) is Err);
            assert(forall|s: int| add_fraction(b, g, r, s) is Err);
        },
    }
}

} // verus!
