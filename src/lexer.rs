//! The tokenizer of the colon grammar. It walks the grapheme clusters of a
//! line from the last to the first, since the fields of that grammar are
//! anchored at the right.

use crate::num::{MINUS, PLUS};
use crate::span::ByteSpan;
use crate::text::{
    blank_at, byte_len, cluster, cluster_is_blank, edge, edge_at, grapheme_spans, graphemes,
    lemma_cluster_bounds, lemma_edges, tiles,
};
use vstd::prelude::*;
use vstd::string::*;
use vstd::utf8::*;

verus! {

broadcast use {encode_utf8_valid_utf8, vstd::slice::axiom_spec_len};

/// The byte of `':'`.
pub const COLON: u8 = 0x3a;

/// The byte of `'.'`.
pub const DOT: u8 = 0x2e;

/// What a token of the colon grammar is.
#[derive(Clone, Copy, Debug, PartialEq, Eq, Structural)]
pub enum SwTokenKind {
    /// `:`
    Colon,
    /// `.`
    Dot,
    /// `+`
    Pos,
    /// `-`
    Neg,
    /// A run of other clusters.
    Data,
}

/// A token as a kind and the clusters `start..end` of the line it covers.
#[derive(Clone, Copy, Debug, PartialEq, Eq, Structural)]
pub struct Tok {
    pub kind: SwTokenKind,
    pub start: usize,
    pub end: usize,
}

/// A token of the colon grammar and the span of the line it covers.
#[derive(Clone, Copy, Debug, PartialEq, Eq)]
pub struct SwToken<'s> {
    pub typ: SwTokenKind,
    pub span: ByteSpan<'s>,
}

/// The delimiter that a cluster is, if it is one.
pub open spec fn delim_kind(c: Seq<u8>) -> Option<SwTokenKind> {
    if c.len() != 1 {
        None
    } else if c[0] == COLON {
        Some(SwTokenKind::Colon)
    } else if c[0] == DOT {
        Some(SwTokenKind::Dot)
    } else if c[0] == PLUS {
        Some(SwTokenKind::Pos)
    } else if c[0] == MINUS {
        Some(SwTokenKind::Neg)
    } else {
        None
    }
}

/// The delimiter that cluster `i` is, if it is one.
pub open spec fn delim_at(b: Seq<u8>, g: Seq<(usize, usize)>, i: int) -> Option<SwTokenKind> {
    delim_kind(cluster(b, g, i))
}

/// Walks left over the clusters below `k` that are no delimiters. Gives
/// where the walk stops (above the first delimiter, or at zero) and the
/// leftmost non-blank cluster met, `lo` if none.
pub open spec fn data_left(b: Seq<u8>, g: Seq<(usize, usize)>, k: int, lo: int) -> (int, int)
    decreases k,
{
    if k <= 0 {
        (0, lo)
    } else if delim_at(b, g, k - 1) is Some {
        (k, lo)
    } else if blank_at(b, g, k - 1) {
        data_left(b, g, k - 1, lo)
    } else {
        data_left(b, g, k - 1, k - 1)
    }
}

/// The token that ends the clusters below `k`, read from the right, with the
/// number of clusters left before it. Blank clusters are skipped; a
/// delimiter is a token of its own; other clusters run together into one
/// data token from the first to the last non-blank one.
pub open spec fn lex_next(b: Seq<u8>, g: Seq<(usize, usize)>, k: int) -> Option<(Tok, int)>
    decreases k,
{
    if k <= 0 {
        None
    } else if blank_at(b, g, k - 1) {
        lex_next(b, g, k - 1)
    } else {
        match delim_at(b, g, k - 1) {
            Some(kind) => Some((Tok { kind, start: (k - 1) as usize, end: k as usize }, k - 1)),
            None => {
                let (stop, lo) = data_left(b, g, k - 1, k - 1);
                Some((Tok { kind: SwTokenKind::Data, start: lo as usize, end: k as usize }, stop))
            },
        }
    }
}

/// `data_left` stays within its bounds.
proof fn lemma_data_left(b: Seq<u8>, g: Seq<(usize, usize)>, k: int, lo: int)
    requires
        0 <= k <= lo,
    ensures
        0 <= data_left(b, g, k, lo).0 <= k,
        data_left(b, g, k, lo).0 <= data_left(b, g, k, lo).1 <= lo,
    decreases k,
{
    if k > 0 && delim_at(b, g, k - 1) is None {
        if blank_at(b, g, k - 1) {
            lemma_data_left(b, g, k - 1, lo);
        } else {
            lemma_data_left(b, g, k - 1, k - 1);
        }
    }
}

/// `lex_next` leaves fewer clusters than it was given, and its token lies
/// among the clusters it was given, right of those it leaves.
pub proof fn lemma_lex_next(b: Seq<u8>, g: Seq<(usize, usize)>, k: int)
    requires
        0 <= k <= g.len(),
        g.len() <= usize::MAX,
    ensures
        lex_next(b, g, k) matches Some((t, j)) ==> {
            &&& 0 <= j <= t.start < t.end <= k
            &&& t.kind != SwTokenKind::Data ==> t.end == t.start + 1
        },
    decreases k,
{
    if k > 0 {
        if blank_at(b, g, k - 1) {
            lemma_lex_next(b, g, k - 1);
        } else if delim_at(b, g, k - 1) is None {
            lemma_data_left(b, g, k - 1, k - 1);
        }
    }
}

/// The next token read leftwards from the clusters below `k`.
pub fn next_token(b: &[u8], s: &str, g: &Vec<(usize, usize)>, from: usize) -> (r: Option<(Tok, usize)>)
    requires
        b@ == s.spec_bytes(),
        tiles(b@, g@),
        from <= g@.len(),
    ensures
        match lex_next(b@, g@, from as int) {
            None => r is None,
            Some((t, j)) => r == Some((t, j as usize)),
        },
{
    let ghost sb = b@;
    let blen = b.len();
    let mut k = from;
    loop
        invariant
            sb == b@,
            sb == s.spec_bytes(),
            valid_utf8(sb),
            blen == sb.len(),
            tiles(sb, g@),
            k <= g@.len(),
            lex_next(sb, g@, from as int) == lex_next(sb, g@, k as int),
        ensures
            1 <= k <= g@.len(),
            !blank_at(sb, g@, k - 1),
            lex_next(sb, g@, from as int) == lex_next(sb, g@, k as int),
        decreases k,
    {
        if k == 0 {
            return None;
        }
        if !cluster_is_blank(s, g, k - 1) {
            break;
        }
        k = k - 1;
    }
    proof {
        lemma_cluster_bounds(sb, g@, k - 1);
    }
    let (start, len) = g[k - 1];
    if len == 1 {
        let c = b[start];
        let kind = if c == COLON {
            Some(SwTokenKind::Colon)
        } else if c == DOT {
            Some(SwTokenKind::Dot)
        } else if c == PLUS {
            Some(SwTokenKind::Pos)
        } else if c == MINUS {
            Some(SwTokenKind::Neg)
        } else {
            None
        };
        assert(cluster(sb, g@, k - 1)[0] == c);
        if let Some(kind) = kind {
            return Some((Tok { kind, start: k - 1, end: k }, k - 1));
        }
    }
    assert(delim_at(sb, g@, k - 1) is None);
    let mut j: usize = k - 1;
    let mut lo: usize = k - 1;
    loop
        invariant
            sb == b@,
            sb == s.spec_bytes(),
            valid_utf8(sb),
            blen == sb.len(),
            tiles(sb, g@),
            1 <= k <= g@.len(),
            j <= lo < k,
            !blank_at(sb, g@, k - 1),
            delim_at(sb, g@, k - 1) is None,
            lex_next(sb, g@, from as int) == lex_next(sb, g@, k as int),
            data_left(sb, g@, k - 1, k - 1) == data_left(sb, g@, j as int, lo as int),
        ensures
            j <= lo < k,
            data_left(sb, g@, k - 1, k - 1) == (j as int, lo as int),
        decreases j,
    {
        if j == 0 {
            break;
        }
        proof {
            lemma_cluster_bounds(sb, g@, j - 1);
        }
        let (cs, cl) = g[j - 1];
        if cl == 1 {
            let c = b[cs];
            assert(cluster(sb, g@, j - 1)[0] == c);
            if c == COLON || c == DOT || c == PLUS || c == MINUS {
                break;
            }
        }
        assert(delim_at(sb, g@, j - 1) is None);
        if !cluster_is_blank(s, g, j - 1) {
            lo = j - 1;
        }
        j = j - 1;
    }
    Some((Tok { kind: SwTokenKind::Data, start: lo, end: k }, j))
}

/// Reads the tokens of a line one at a time, from the last to the first.
pub struct SwLexer<'s> {
    src: &'s str,
    clusters: Vec<(usize, usize)>,
    rest: usize,
}

impl<'s> SwLexer<'s> {
    #[verifier::type_invariant]
    spec fn inv(self) -> bool {
        &&& self.clusters@ == grapheme_spans(self.src.spec_bytes())
        &&& tiles(self.src.spec_bytes(), self.clusters@)
        &&& self.rest <= self.clusters@.len()
        &&& self.clusters@.len() <= usize::MAX
    }

    /// The line being read.
    pub closed spec fn source(&self) -> &'s str {
        self.src
    }

    /// How many clusters of the line are still to be read.
    pub closed spec fn rest(&self) -> int {
        self.rest as int
    }

    /// A lexer at the end of `s`.
    pub fn new(s: &'s str) -> (r: SwLexer<'s>)
        ensures
            r.source() == s,
            r.rest() == grapheme_spans(s.spec_bytes()).len(),
    {
        let clusters = graphemes(s);
        let rest = clusters.len();
        SwLexer { src: s, clusters, rest }
    }

    /// The next token to the left, or `None` once only blank clusters are
    /// left.
    pub fn next(&mut self) -> (r: Option<SwToken<'s>>)
        ensures
            final(self).source() == old(self).source(),
            ({
                let b = old(self).source().spec_bytes();
                match lex_next(b, grapheme_spans(b), old(self).rest()) {
                    None => r is None,
                    Some((t, j)) => {
                        &&& r matches Some(tok) && tok.typ == t.kind && tok.span.lo() == edge(
                            b,
                            grapheme_spans(b),
                            t.start as int,
                        ) && tok.span.hi() == edge(b, grapheme_spans(b), t.end as int)
                            && tok.span.source() == old(self).source()
                        &&& final(self).rest() == j
                    },
                }
            }),
    {
        proof {
            use_type_invariant(&*self);
        }
        let b = self.src.as_bytes();
        let _ = byte_len(self.src);
        proof {
            lemma_lex_next(b@, self.clusters@, self.rest as int);
            encode_utf8_valid_utf8(self.src@);
        }
        match next_token(b, self.src, &self.clusters, self.rest) {
            None => None,
            Some((t, j)) => {
                let lo = edge_at(self.src, &self.clusters, t.start);
                let hi = edge_at(self.src, &self.clusters, t.end);
                proof {
                    lemma_edges(b@, self.clusters@, t.start as int, t.end as int);
                    lemma_edges(b@, self.clusters@, t.end as int, t.end as int);
                }
                self.rest = j;
                Some(SwToken { typ: t.kind, span: ByteSpan::new(lo, hi - lo, self.src) })
            },
        }
    }
}

} // verus!
