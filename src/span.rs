//! Byte ranges of an input line, kept on character boundaries.

use crate::text::{
    byte_len, edge, edge_at, grapheme_spans, graphemes, lemma_edges, skip_back, skip_blank_back,
    skip_blank_fwd, skip_fwd, slice,
};
use vstd::prelude::*;
use vstd::string::*;
use vstd::utf8::*;

verus! {

broadcast use {encode_utf8_valid_utf8, encode_utf8_decode_utf8};

/// `start..end` is a range of `b` whose ends fall on character boundaries.
pub open spec fn valid_range(b: Seq<u8>, start: int, end: int) -> bool {
    &&& 0 <= start <= end <= b.len()
    &&& is_char_boundary(b, start)
    &&& is_char_boundary(b, end)
}

/// A boundary of a part of a text, cut at boundaries, is a boundary of the
/// text.
pub proof fn lemma_part_boundary(b: Seq<u8>, lo: int, hi: int, k: int)
    requires
        valid_utf8(b),
        valid_range(b, lo, hi),
        0 <= k <= hi - lo,
        is_char_boundary(b.subrange(lo, hi), k),
    ensures
        is_char_boundary(b, lo + k),
{
    let p = b.subrange(lo, hi);
    valid_utf8_split(b, lo);
    let rest = b.subrange(lo, b.len() as int);
    if hi < b.len() {
        is_char_boundary_iff_not_is_continuation_byte(b, hi);
        is_char_boundary_iff_not_is_continuation_byte(rest, hi - lo);
        assert(rest[hi - lo] == b[hi]);
    }
    is_char_boundary_start_end_of_seq(rest);
    valid_utf8_split(rest, hi - lo);
    assert(p =~= rest.subrange(0, hi - lo));
    if 0 < k < hi - lo {
        is_char_boundary_iff_not_is_continuation_byte(p, k);
        is_char_boundary_iff_not_is_continuation_byte(b, lo + k);
        assert(p[k] == b[lo + k]);
    }
}

/// A range of bytes of a borrowed input line. Both ends fall on character
/// boundaries of the line.
#[derive(Clone, Copy, Debug, PartialEq, Eq)]
pub struct ByteSpan<'s> {
    start: usize,
    len: usize,
    src: &'s str,
}

impl<'s> ByteSpan<'s> {
    #[verifier::type_invariant]
    spec fn inv(self) -> bool {
        &&& self.src.spec_bytes().len() <= usize::MAX
        &&& valid_range(self.src.spec_bytes(), self.start as int, self.start + self.len)
    }

    /// Where the span starts, in bytes.
    pub closed spec fn lo(&self) -> int {
        self.start as int
    }

    /// Where the span ends, in bytes.
    pub closed spec fn hi(&self) -> int {
        self.start + self.len
    }

    /// The line the span points into.
    pub closed spec fn source(&self) -> &'s str {
        self.src
    }

    /// The bytes of the line that the span covers.
    pub open spec fn bytes(&self) -> Seq<u8> {
        self.source().spec_bytes().subrange(self.lo(), self.hi())
    }

    /// The span of `len` bytes from `start` in `s`.
    pub fn new(start: usize, len: usize, s: &'s str) -> (r: ByteSpan<'s>)
        requires
            valid_range(s.spec_bytes(), start as int, start + len),
        ensures
            r.lo() == start,
            r.hi() == start + len,
            r.source() == s,
    {
        let _ = byte_len(s);
        ByteSpan { start, len, src: s }
    }

    /// The span of the whole of `s`.
    pub fn new_all(s: &'s str) -> (r: ByteSpan<'s>)
        ensures
            r.lo() == 0,
            r.hi() == s.spec_bytes().len(),
            r.source() == s,
    {
        let n = byte_len(s);
        proof {
            is_char_boundary_start_end_of_seq(s.spec_bytes());
        }
        ByteSpan { start: 0, len: n, src: s }
    }

    /// Where the span starts, in bytes.
    pub fn start(&self) -> (r: usize)
        ensures
            r == self.lo(),
    {
        self.start
    }

    /// The length of the span, in bytes.
    pub fn len(&self) -> (r: usize)
        ensures
            r == self.hi() - self.lo(),
    {
        self.len
    }

    /// A span lies within its line, between character boundaries.
    pub fn in_range(&self)
        ensures
            0 <= self.lo() <= self.hi() <= self.source().spec_bytes().len(),
            self.source().spec_bytes().len() <= usize::MAX,
            is_char_boundary(self.source().spec_bytes(), self.lo()),
            is_char_boundary(self.source().spec_bytes(), self.hi()),
    {
        proof {
            use_type_invariant(self);
        }
    }

    /// Moves the start `bytes` to the left, keeping the end.
    pub fn shift_start_left(&mut self, bytes: usize)
        requires
            bytes <= old(self).lo(),
            is_char_boundary(old(self).source().spec_bytes(), old(self).lo() - bytes),
        ensures
            final(self).lo() == old(self).lo() - bytes,
            final(self).hi() == old(self).hi(),
            final(self).source() == old(self).source(),
    {
        proof {
            use_type_invariant(&*self);
        }
        *self = ByteSpan { start: self.start - bytes, len: self.len + bytes, src: self.src };
    }

    /// Moves the start `bytes` to the right, keeping the end.
    pub fn shift_start_right(&mut self, bytes: usize)
        requires
            bytes <= old(self).hi() - old(self).lo(),
            is_char_boundary(old(self).source().spec_bytes(), old(self).lo() + bytes),
        ensures
            final(self).lo() == old(self).lo() + bytes,
            final(self).hi() == old(self).hi(),
            final(self).source() == old(self).source(),
    {
        proof {
            use_type_invariant(&*self);
        }
        *self = ByteSpan { start: self.start + bytes, len: self.len - bytes, src: self.src };
    }

    /// The text the span covers.
    pub fn get(&self) -> (r: &'s str)
        ensures
            r.spec_bytes() == self.bytes(),
    {
        proof {
            use_type_invariant(self);
        }
        slice(self.src, self.start, self.start + self.len)
    }

    /// The text of the line before the span.
    pub fn get_before(&self) -> (r: &'s str)
        ensures
            r.spec_bytes() == self.source().spec_bytes().subrange(0, self.lo()),
    {
        proof {
            use_type_invariant(self);
            is_char_boundary_start_end_of_seq(self.src.spec_bytes());
        }
        slice(self.src, 0, self.start)
    }

    /// The text of the line after the span.
    pub fn get_after(&self) -> (r: &'s str)
        ensures
            r.spec_bytes() == self.source().spec_bytes().subrange(
                self.hi(),
                self.source().spec_bytes().len() as int,
            ),
    {
        proof {
            use_type_invariant(self);
            is_char_boundary_start_end_of_seq(self.src.spec_bytes());
        }
        let n = byte_len(self.src);
        slice(self.src, self.start + self.len, n)
    }

    /// Shrinks the span past the whitespace grapheme clusters at both of its
    /// ends, cutting the covered text into clusters once.
    pub fn trim_whitespace(&mut self)
        ensures
            final(self).source() == old(self).source(),
            ({
                let p = old(self).bytes();
                let g = grapheme_spans(p);
                let f = skip_blank_fwd(p, g, 0, g.len() as int);
                let e = skip_blank_back(p, g, f, g.len() as int);
                &&& final(self).lo() == old(self).lo() + edge(p, g, f)
                &&& final(self).hi() == old(self).lo() + edge(p, g, e)
            }),
    {
        proof {
            use_type_invariant(&*self);
        }
        let part = self.get();
        let g = graphemes(part);
        let ghost p = part.spec_bytes();
        let n = g.len();
        let f = skip_fwd(part, &g, 0, n);
        let e = skip_back(part, &g, f, n);
        let lo_off = edge_at(part, &g, f);
        let hi_off = edge_at(part, &g, e);
        proof {
            let b = self.src.spec_bytes();
            lemma_edges(p, g@, f as int, e as int);
            lemma_edges(p, g@, e as int, e as int);
            lemma_part_boundary(b, self.start as int, self.start + self.len, lo_off as int);
            lemma_part_boundary(b, self.start as int, self.start + self.len, hi_off as int);
        }
        *self = ByteSpan { start: self.start + lo_off, len: hi_off - lo_off, src: self.src };
    }
}

} // verus!
