//! Text as the parser sees it: bytes of UTF-8, cut into grapheme clusters.

use unicode_segmentation::UnicodeSegmentation;
use vstd::prelude::*;
use vstd::string::*;
use vstd::utf8::*;

verus! {

broadcast use {encode_utf8_valid_utf8, encode_utf8_decode_utf8};

/// The extended grapheme clusters of a text given by its UTF-8 bytes, in
/// order, as pairs of byte offset and byte length.
pub uninterp spec fn grapheme_spans(b: Seq<u8>) -> Seq<(usize, usize)>;

/// The byte offset where cluster `i` starts, or the end of the text for the
/// index one past the last cluster.
pub open spec fn edge(b: Seq<u8>, g: Seq<(usize, usize)>, i: int) -> int {
    if 0 <= i < g.len() {
        g[i].0 as int
    } else {
        b.len() as int
    }
}

/// The clusters `g` cut the text `b` into non-empty runs of whole characters,
/// in order and without gaps.
pub open spec fn tiles(b: Seq<u8>, g: Seq<(usize, usize)>) -> bool {
    &&& g.len() == 0 <==> b.len() == 0
    &&& g.len() > 0 ==> g[0].0 == 0
    &&& forall|i: int|
        0 <= i < g.len() ==> {
            &&& #[trigger] g[i].1 > 0
            &&& g[i].0 + g[i].1 == edge(b, g, i + 1)
            &&& is_char_boundary(b, g[i].0 as int)
        }
}

/// The bytes of cluster `i`.
pub open spec fn cluster(b: Seq<u8>, g: Seq<(usize, usize)>, i: int) -> Seq<u8> {
    b.subrange(edge(b, g, i), edge(b, g, i + 1))
}

/// Every byte is a printable ASCII character, `' '` to `'~'`.
pub open spec fn printable(b: Seq<u8>) -> bool {
    forall|i: int| 0 <= i < b.len() ==> 0x20 <= #[trigger] b[i] <= 0x7e
}

/// Clusters of one byte each, for a text of `n` bytes.
pub open spec fn singles(n: nat) -> Seq<(usize, usize)> {
    Seq::new(n, |i: int| (i as usize, 1usize))
}

/// Relies on `UnicodeSegmentation::grapheme_indices` with extended clusters:
/// it walks the text from the front and yields each cluster as a slice that
/// starts where the previous one ended, so the clusters cover the text. A
/// printable ASCII character falls in the category `Any`
/// (`grapheme_category`), and no rule joins two of those, so such a text is
/// cut into single bytes.
#[verifier::external_body]
pub(crate) fn graphemes(s: &str) -> (r: Vec<(usize, usize)>)
    ensures
        r@ == grapheme_spans(s.spec_bytes()),
        tiles(s.spec_bytes(), r@),
        printable(s.spec_bytes()) ==> r@ == singles(s.spec_bytes().len()),
{
    s.grapheme_indices(true).map(|(i, c)| (i, c.len())).collect()
}

/// Edges of a tiling rise with the index, start at zero and end at the end of
/// the text, and each falls on a character boundary.
pub proof fn lemma_edges(b: Seq<u8>, g: Seq<(usize, usize)>, i: int, j: int)
    requires
        tiles(b, g),
        valid_utf8(b),
        0 <= i <= j <= g.len(),
    ensures
        0 <= edge(b, g, i) <= edge(b, g, j) <= b.len(),
        i < j ==> edge(b, g, i) < edge(b, g, j),
        is_char_boundary(b, edge(b, g, i)),
        edge(b, g, 0) == 0,
    decreases g.len() - i,
{
    is_char_boundary_start_end_of_seq(b);
    if i < g.len() {
        assert(g[i].1 > 0);
        lemma_edges(b, g, i + 1, if j > i { j } else { i + 1 });
    }
}

/// The tiles of a text lie between its character boundaries.
pub proof fn lemma_cluster_bounds(b: Seq<u8>, g: Seq<(usize, usize)>, i: int)
    requires
        tiles(b, g),
        valid_utf8(b),
        0 <= i < g.len(),
    ensures
        0 <= edge(b, g, i) < edge(b, g, i + 1) <= b.len(),
        is_char_boundary(b, edge(b, g, i)),
        is_char_boundary(b, edge(b, g, i + 1)),
        g[i].0 == edge(b, g, i),
        g[i].0 + g[i].1 == edge(b, g, i + 1),
{
    lemma_edges(b, g, i, i + 1);
    lemma_edges(b, g, i + 1, i + 1);
}

/// `char::is_whitespace`: the characters with the Unicode property
/// `White_Space`.
pub open spec fn is_space_char(c: char) -> bool {
    ('\t' <= c <= '\r') || c == ' ' || c == '\u{85}' || c == '\u{a0}' || c == '\u{1680}' || (
    '\u{2000}' <= c <= '\u{200a}') || c == '\u{2028}' || c == '\u{2029}' || c == '\u{202f}'
        || c == '\u{205f}' || c == '\u{3000}'
}

/// Whether `c` has the Unicode property `White_Space`.
pub fn char_is_space(c: char) -> (r: bool)
    ensures
        r == is_space_char(c),
{
    ('\t' <= c && c <= '\r') || c == ' ' || c == '\u{85}' || c == '\u{a0}' || c == '\u{1680}' || (
    '\u{2000}' <= c && c <= '\u{200a}') || c == '\u{2028}' || c == '\u{2029}' || c == '\u{202f}'
        || c == '\u{205f}' || c == '\u{3000}'
}

/// A run of bytes that holds only whitespace characters (or nothing).
pub open spec fn is_blank(c: Seq<u8>) -> bool {
    forall|i: int| 0 <= i < decode_utf8(c).len() ==> is_space_char(#[trigger] decode_utf8(c)[i])
}

/// Whether cluster `i` is blank.
pub open spec fn blank_at(b: Seq<u8>, g: Seq<(usize, usize)>, i: int) -> bool {
    is_blank(cluster(b, g, i))
}

/// The first cluster at or after `i`, below `hi`, that is not blank; `hi` if
/// there is none.
pub open spec fn skip_blank_fwd(b: Seq<u8>, g: Seq<(usize, usize)>, i: int, hi: int) -> int
    decreases hi - i,
{
    if i < hi && blank_at(b, g, i) {
        skip_blank_fwd(b, g, i + 1, hi)
    } else {
        i
    }
}

/// One past the last cluster below `k`, at or after `lo`, that is not blank;
/// `lo` if there is none.
pub open spec fn skip_blank_back(b: Seq<u8>, g: Seq<(usize, usize)>, lo: int, k: int) -> int
    decreases k - lo,
{
    if lo < k && blank_at(b, g, k - 1) {
        skip_blank_back(b, g, lo, k - 1)
    } else {
        k
    }
}

/// The length of `s` in bytes.
pub fn byte_len(s: &str) -> (n: usize)
    ensures
        n == s.spec_bytes().len(),
{
    broadcast use vstd::slice::axiom_spec_len;

    s.as_bytes().len()
}

/// The part of `s` between two character boundaries.
pub fn slice<'a>(s: &'a str, start: usize, end: usize) -> (r: &'a str)
    requires
        start <= end <= s.spec_bytes().len(),
        is_char_boundary(s.spec_bytes(), start as int),
        is_char_boundary(s.spec_bytes(), end as int),
    ensures
        r.spec_bytes() == s.spec_bytes().subrange(start as int, end as int),
{
    let ghost b = s.spec_bytes();
    let (_, rest) = s.split_at(start);
    proof {
        valid_utf8_split(b, start as int);
        let r = rest.spec_bytes();
        is_char_boundary_start_end_of_seq(r);
        if end < b.len() {
            is_char_boundary_iff_not_is_continuation_byte(b, end as int);
            is_char_boundary_iff_not_is_continuation_byte(r, end - start);
            assert(r[end - start] == b[end as int]);
        }
    }
    let (mid, _) = rest.split_at(end - start);
    assert(mid.spec_bytes() =~= b.subrange(start as int, end as int));
    mid
}

/// Whether the bytes of `s` from `start` to `end` hold only whitespace.
pub fn range_is_blank(s: &str, start: usize, end: usize) -> (r: bool)
    requires
        start <= end <= s.spec_bytes().len(),
        is_char_boundary(s.spec_bytes(), start as int),
        is_char_boundary(s.spec_bytes(), end as int),
    ensures
        r == is_blank(s.spec_bytes().subrange(start as int, end as int)),
{
    let part = slice(s, start, end);
    let ghost c = s.spec_bytes().subrange(start as int, end as int);
    assert(decode_utf8(c) == part@);
    let n = part.unicode_len();
    let mut i: usize = 0;
    while i < n
        invariant
            n == part@.len(),
            c == s.spec_bytes().subrange(start as int, end as int),
            decode_utf8(c) == part@,
            i <= n,
            forall|j: int| 0 <= j < i ==> is_space_char(#[trigger] part@[j]),
        decreases n - i,
    {
        let ch = part.get_char(i);
        if !char_is_space(ch) {
            assert(!is_space_char(decode_utf8(c)[i as int]));
            return false;
        }
        i = i + 1;
    }
    true
}

/// Whether cluster `i` of `s` is blank.
pub fn cluster_is_blank(s: &str, g: &Vec<(usize, usize)>, i: usize) -> (r: bool)
    requires
        tiles(s.spec_bytes(), g@),
        s.spec_bytes().len() <= usize::MAX,
        i < g@.len(),
    ensures
        r == blank_at(s.spec_bytes(), g@, i as int),
{
    proof {
        lemma_cluster_bounds(s.spec_bytes(), g@, i as int);
    }
    range_is_blank(s, g[i].0, g[i].0 + g[i].1)
}

/// The byte offset of edge `i`; see `edge`.
pub fn edge_at(s: &str, g: &Vec<(usize, usize)>, i: usize) -> (r: usize)
    requires
        tiles(s.spec_bytes(), g@),
        s.spec_bytes().len() <= usize::MAX,
        i <= g@.len(),
    ensures
        r == edge(s.spec_bytes(), g@, i as int),
{
    if i < g.len() {
        g[i].0
    } else {
        byte_len(s)
    }
}

/// The first non-blank cluster from `i` below `hi`; see `skip_blank_fwd`.
pub fn skip_fwd(s: &str, g: &Vec<(usize, usize)>, i: usize, hi: usize) -> (r: usize)
    requires
        tiles(s.spec_bytes(), g@),
        s.spec_bytes().len() <= usize::MAX,
        i <= hi <= g@.len(),
    ensures
        r == skip_blank_fwd(s.spec_bytes(), g@, i as int, hi as int),
        i <= r <= hi,
{
    let mut k = i;
    loop
        invariant
            tiles(s.spec_bytes(), g@),
            s.spec_bytes().len() <= usize::MAX,
            i <= k <= hi <= g@.len(),
            skip_blank_fwd(s.spec_bytes(), g@, i as int, hi as int) == skip_blank_fwd(
                s.spec_bytes(),
                g@,
                k as int,
                hi as int,
            ),
        ensures
            i <= k <= hi,
            skip_blank_fwd(s.spec_bytes(), g@, i as int, hi as int) == k,
        decreases hi - k,
    {
        if k >= hi || !cluster_is_blank(s, g, k) {
            break;
        }
        k = k + 1;
    }
    k
}

/// One past the last non-blank cluster below `k`, from `lo`; see
/// `skip_blank_back`.
pub fn skip_back(s: &str, g: &Vec<(usize, usize)>, lo: usize, k: usize) -> (r: usize)
    requires
        tiles(s.spec_bytes(), g@),
        s.spec_bytes().len() <= usize::MAX,
        lo <= k <= g@.len(),
    ensures
        r == skip_blank_back(s.spec_bytes(), g@, lo as int, k as int),
        lo <= r <= k,
{
    let mut e = k;
    loop
        invariant
            tiles(s.spec_bytes(), g@),
            s.spec_bytes().len() <= usize::MAX,
            lo <= e <= k <= g@.len(),
            skip_blank_back(s.spec_bytes(), g@, lo as int, k as int) == skip_blank_back(
                s.spec_bytes(),
                g@,
                lo as int,
                e as int,
            ),
        ensures
            lo <= e <= k,
            skip_blank_back(s.spec_bytes(), g@, lo as int, k as int) == e,
        decreases e - lo,
    {
        if e <= lo || !cluster_is_blank(s, g, e - 1) {
            break;
        }
        e = e - 1;
    }
    e
}

} // verus!
