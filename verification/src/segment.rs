//! The segmenter: pairs the scanner's boundary events into alternating
//! keep/replace spans that cover the whole document losslessly.
//!
//! Consecutive event pairs form the spans: the first pair is a replace span
//! and the parity alternates.  A replace span's byte range includes both
//! delimiters; a keep span's excludes them.  Text before the first event
//! becomes a leading keep span, text after the last covered byte a trailing
//! keep span, so that the spans always partition the document.

use vstd::prelude::*;

use crate::scanner::{
    ev_end, events_view, events_wf, scan_spec, Ev, SplitTagPosition, lemma_scan_from_wf,
};
use crate::text::copy_range;
use crate::types::{Dollar, LiCo};

verus! {

/// A byte range `[start, end)` into the source document.
#[derive(Debug, Clone, Copy, PartialEq, Eq, Structural)]
pub struct ByteRange {
    pub start: usize,
    pub end: usize,
}

/// A contiguous piece of the document.
#[derive(Debug, Clone, PartialEq, Eq)]
pub struct Content {
    /// The span's text: a copy of the source bytes in `byte_range`.
    pub s: Vec<u8>,
    /// Position of the span's start (for replace spans: the opening
    /// delimiter's position).
    pub start: LiCo,
    /// Position of the span's end.
    pub end: LiCo,
    /// Byte range `[start, end)` that extracts `s` from the source.
    pub byte_range: ByteRange,
    /// The delimiter the span opens with (`Empty` for keep spans).
    pub start_del: Dollar,
    /// The delimiter the span closes with (`Empty` for keep spans).
    pub end_del: Dollar,
}

/// The mathematical model of a [`Content`].
pub struct ContentM {
    pub text: Seq<u8>,
    pub lo: int,
    pub hi: int,
    pub start_line: int,
    pub start_col: int,
    pub end_line: int,
    pub end_col: int,
    pub start_del: Dollar,
    pub end_del: Dollar,
}

impl View for Content {
    type V = ContentM;

    open spec fn view(&self) -> ContentM {
        ContentM {
            text: self.s@,
            lo: self.byte_range.start as int,
            hi: self.byte_range.end as int,
            start_line: self.start.lineno as int,
            start_col: self.start.column as int,
            end_line: self.end.lineno as int,
            end_col: self.end.column as int,
            start_del: self.start_del,
            end_del: self.end_del,
        }
    }
}

impl Content {
    /// The span's text.
    pub fn as_str(&self) -> (r: &[u8])
        ensures
            r@ == self.s@,
    {
        self.s.as_slice()
    }

    /// A field-for-field copy.
    pub fn duplicate(&self) -> (r: Content)
        ensures
            r@ == self@,
            r.s@ == self.s@,
    {
        Content {
            s: crate::text::clone_bytes(&self.s),
            start: self.start,
            end: self.end,
            byte_range: self.byte_range,
            start_del: self.start_del,
            end_del: self.end_del,
        }
    }
}

/// A span tagged with its role: replace spans are delimiter-enclosed regions
/// to be substituted, keep spans pass through unchanged.
#[derive(Debug, Clone, PartialEq, Eq)]
pub enum Tagged {
    Replace(Content),
    Keep(Content),
}

/// The mathematical model of a [`Tagged`] span.
pub struct SpanM {
    pub replace: bool,
    pub c: ContentM,
}

impl View for Tagged {
    type V = SpanM;

    open spec fn view(&self) -> SpanM {
        match *self {
            Tagged::Replace(ref c) => SpanM { replace: true, c: c@ },
            Tagged::Keep(ref c) => SpanM { replace: false, c: c@ },
        }
    }
}

impl Tagged {
    /// The span's content, by reference.
    pub fn content_ref(&self) -> (r: &Content)
        ensures
            r@ == self@.c,
    {
        match *self {
            Tagged::Replace(ref c) => c,
            Tagged::Keep(ref c) => c,
        }
    }

    /// The span's content, by value.
    pub fn into_content(self) -> (r: Content)
        ensures
            r@ == self@.c,
    {
        match self {
            Tagged::Replace(c) => c,
            Tagged::Keep(c) => c,
        }
    }

    /// The span is a replace span.
    pub fn is_replace(&self) -> (r: bool)
        ensures
            r == self@.replace,
    {
        matches!(*self, Tagged::Replace(_))
    }
}

/// The models of a sequence of spans.
pub open spec fn spans_view(v: Seq<Tagged>) -> Seq<SpanM> {
    v.map(|i: int, t: Tagged| t@)
}

/// A keep span model over `src[lo..hi)`.
pub open spec fn keep_m(
    src: Seq<u8>,
    lo: int,
    hi: int,
    sl: int,
    sc: int,
    el: int,
    ec: int,
) -> SpanM {
    SpanM {
        replace: false,
        c: ContentM {
            text: src.subrange(lo, hi),
            lo,
            hi,
            start_line: sl,
            start_col: sc,
            end_line: el,
            end_col: ec,
            start_del: Dollar::Empty,
            end_del: Dollar::Empty,
        },
    }
}

/// The replace span model between events `a` and `b`: both delimiters
/// included.
pub open spec fn replace_m(src: Seq<u8>, a: Ev, b: Ev) -> SpanM {
    SpanM {
        replace: true,
        c: ContentM {
            text: src.subrange(a.off, ev_end(b)),
            lo: a.off,
            hi: ev_end(b),
            start_line: a.lineno,
            start_col: a.column,
            end_line: b.lineno,
            end_col: b.column,
            start_del: a.which,
            end_del: b.which,
        },
    }
}

/// The keep span model between events `a` and `b`: the delimiter of `a` is
/// excluded (unless `a` sits at the document start, where there is nothing to
/// skip).
pub open spec fn keep_pair_m(src: Seq<u8>, a: Ev, b: Ev) -> SpanM {
    let lo = if a.off == 0 {
        0
    } else {
        a.off + a.which.spec_len()
    };
    keep_m(src, lo, b.off, a.lineno, a.column, b.lineno, b.column)
}

/// The span of the adjacent event pair `(evs[k], evs[k + 1])`: replace for
/// even `k`, keep for odd `k`.
pub open spec fn pair_span(src: Seq<u8>, evs: Seq<Ev>, k: int) -> SpanM {
    if k % 2 == 0 {
        replace_m(src, evs[k], evs[k + 1])
    } else {
        keep_pair_m(src, evs[k], evs[k + 1])
    }
}

/// The spans of all adjacent event pairs from index `k` on.
pub open spec fn pair_spans(src: Seq<u8>, evs: Seq<Ev>, k: int) -> Seq<SpanM>
    decreases evs.len() - k,
{
    if k < 0 || k >= evs.len() - 1 {
        Seq::empty()
    } else {
        seq![pair_span(src, evs, k)] + pair_spans(src, evs, k + 1)
    }
}

/// One past the last byte the event-pair spans cover.
pub open spec fn covered_end(evs: Seq<Ev>) -> int {
    let n = evs.len() as int;
    if n == 0 {
        0
    } else if n == 1 {
        evs[0].off
    } else if (n - 2) % 2 == 0 {
        ev_end(evs[n - 1])
    } else {
        evs[n - 1].off
    }
}

/// The leading keep span, where text precedes the first event.
pub open spec fn lead_spans(src: Seq<u8>, evs: Seq<Ev>) -> Seq<SpanM> {
    if evs.len() > 0 && evs[0].off > 0 {
        seq![keep_m(src, 0, evs[0].off, 0, 0, evs[0].lineno, evs[0].column)]
    } else {
        Seq::empty()
    }
}

/// The trailing keep span, where text follows the last covered byte.
pub open spec fn tail_spans(src: Seq<u8>, evs: Seq<Ev>) -> Seq<SpanM> {
    let n = evs.len() as int;
    if n > 0 && covered_end(evs) < src.len() {
        seq![
            keep_m(
                src,
                covered_end(evs),
                src.len() as int,
                evs[n - 1].lineno,
                evs[n - 1].column,
                evs[n - 1].lineno,
                evs[n - 1].column,
            ),
        ]
    } else {
        Seq::empty()
    }
}

/// The full segmentation of a document by its boundary events.
pub open spec fn segment_spec(src: Seq<u8>, evs: Seq<Ev>) -> Seq<SpanM> {
    if evs.len() == 0 {
        if src.len() > 0 {
            seq![keep_m(src, 0, src.len() as int, 0, 0, 0, 0)]
        } else {
            Seq::empty()
        }
    } else {
        lead_spans(src, evs) + pair_spans(src, evs, 0) + tail_spans(src, evs)
    }
}

/// The spans are a partition of `src[lo..len)`: the first starts at `lo`,
/// each starts where its predecessor ends, the last ends at the document end,
/// and each span's text is exactly its byte range of the source.
pub open spec fn spans_partition(src: Seq<u8>, spans: Seq<SpanM>, lo: int) -> bool
    decreases spans.len(),
{
    if spans.len() == 0 {
        lo == src.len()
    } else {
        &&& spans[0].c.lo == lo
        &&& lo <= spans[0].c.hi
        &&& spans[0].c.text == src.subrange(lo, spans[0].c.hi)
        &&& spans_partition(src, spans.drop_first(), spans[0].c.hi)
    }
}

/// The concatenation of the spans' texts, in order.
pub open spec fn concat_texts(spans: Seq<SpanM>) -> Seq<u8>
    decreases spans.len(),
{
    if spans.len() == 0 {
        Seq::empty()
    } else {
        spans[0].c.text + concat_texts(spans.drop_first())
    }
}

proof fn lemma_partition_lo_in_range(src: Seq<u8>, spans: Seq<SpanM>, lo: int)
    requires
        spans_partition(src, spans, lo),
        0 <= lo,
    ensures
        lo <= src.len(),
    decreases spans.len(),
{
    if spans.len() > 0 {
        lemma_partition_lo_in_range(src, spans.drop_first(), spans[0].c.hi);
    }
}

/// Concatenating a partition's texts in order reproduces `src[lo..]` exactly.
pub proof fn lemma_concat_of_partition(src: Seq<u8>, spans: Seq<SpanM>, lo: int)
    requires
        spans_partition(src, spans, lo),
        0 <= lo,
    ensures
        concat_texts(spans) == src.subrange(lo, src.len() as int),
    decreases spans.len(),
{
    if spans.len() == 0 {
        assert(concat_texts(spans) =~= src.subrange(lo, src.len() as int));
    } else {
        let hi = spans[0].c.hi;
        lemma_partition_lo_in_range(src, spans.drop_first(), hi);
        lemma_concat_of_partition(src, spans.drop_first(), hi);
        assert(src.subrange(lo, src.len() as int) =~= src.subrange(lo, hi) + src.subrange(
            hi,
            src.len() as int,
        ));
    }
}

/// A non-final stretch of spans: tiles `[lo, mid)` with exact texts.
pub open spec fn spans_chain(src: Seq<u8>, spans: Seq<SpanM>, lo: int, mid: int) -> bool
    decreases spans.len(),
{
    if spans.len() == 0 {
        lo == mid
    } else {
        &&& spans[0].c.lo == lo
        &&& lo <= spans[0].c.hi
        &&& spans[0].c.text == src.subrange(lo, spans[0].c.hi)
        &&& spans_chain(src, spans.drop_first(), spans[0].c.hi, mid)
    }
}

proof fn lemma_partition_append(src: Seq<u8>, a: Seq<SpanM>, b: Seq<SpanM>, lo: int, mid: int)
    requires
        spans_chain(src, a, lo, mid),
        spans_partition(src, b, mid),
    ensures
        spans_partition(src, a + b, lo),
    decreases a.len(),
{
    if a.len() == 0 {
        assert(a + b =~= b);
    } else {
        lemma_partition_append(src, a.drop_first(), b, a[0].c.hi, mid);
        assert((a + b).drop_first() =~= a.drop_first() + b);
    }
}

proof fn lemma_chain_append(
    src: Seq<u8>,
    a: Seq<SpanM>,
    b: Seq<SpanM>,
    lo: int,
    mid: int,
    hi: int,
)
    requires
        spans_chain(src, a, lo, mid),
        spans_chain(src, b, mid, hi),
    ensures
        spans_chain(src, a + b, lo, hi),
    decreases a.len(),
{
    if a.len() == 0 {
        assert(a + b =~= b);
    } else {
        lemma_chain_append(src, a.drop_first(), b, a[0].c.hi, mid, hi);
        assert((a + b).drop_first() =~= a.drop_first() + b);
    }
}

/// The event-pair spans from index `k` on tile the document from the span of
/// `(evs[k], evs[k + 1])` up to `covered_end(evs)`.
proof fn lemma_pair_spans_chain(src: Seq<u8>, evs: Seq<Ev>, k: int)
    requires
        events_wf(src, evs),
        evs.len() >= 2,
        0 <= k < evs.len() - 1,
    ensures
        spans_chain(src, pair_spans(src, evs, k), pair_span(src, evs, k).c.lo, covered_end(evs)),
    decreases evs.len() - k,
{
    let n = evs.len() as int;
    let p = pair_span(src, evs, k);
    let a = evs[k];
    let b = evs[k + 1];
    assert(ev_end(a) <= b.off);
    assert(a.off < b.off);
    assert(0 <= a.off && ev_end(b) <= src.len());
    if k == n - 2 {
        assert(p.c.hi == covered_end(evs));
        assert(pair_spans(src, evs, k + 1) =~= Seq::<SpanM>::empty());
        assert(pair_spans(src, evs, k) =~= seq![p]);
        assert(spans_chain(src, Seq::<SpanM>::empty(), p.c.hi, covered_end(evs)));
        assert(seq![p].drop_first() =~= Seq::<SpanM>::empty());
        assert(spans_chain(src, pair_spans(src, evs, k), p.c.lo, covered_end(evs)));
    } else {
        lemma_pair_spans_chain(src, evs, k + 1);
        let q = pair_span(src, evs, k + 1);
        let c = evs[k + 2];
        assert(ev_end(b) <= c.off);
        assert(b.off < c.off);
        assert(p.c.hi == q.c.lo) by {
            if k % 2 == 0 {
                // p replaces up to ev_end(b); q keeps from after b's delimiter.
                if b.off == 0 {
                    assert(a.off < 0);  // impossible: offsets are nonnegative
                } else {
                }
            } else {
                // p keeps up to b.off; q replaces from b.off.
            }
        }
        assert(pair_spans(src, evs, k) =~= seq![p] + pair_spans(src, evs, k + 1));
        assert((seq![p] + pair_spans(src, evs, k + 1)).drop_first() =~= pair_spans(
            src,
            evs,
            k + 1,
        ));
    }
}

/// The segmentation of a document by a well-formed event sequence is a
/// partition: the spans tile `[0, len)` with exact texts, no gaps and no
/// overlaps.
pub proof fn lemma_segment_partition(src: Seq<u8>, evs: Seq<Ev>)
    requires
        events_wf(src, evs),
    ensures
        spans_partition(src, segment_spec(src, evs), 0),
{
    let n = evs.len() as int;
    let spans = segment_spec(src, evs);
    if n == 0 {
        if src.len() > 0 {
            assert(spans =~= seq![keep_m(src, 0, src.len() as int, 0, 0, 0, 0)]);
            assert(spans_partition(src, Seq::<SpanM>::empty(), src.len() as int));
            assert(spans.drop_first() =~= Seq::<SpanM>::empty());
        }
    } else {
        let lead = lead_spans(src, evs);
        let tail = tail_spans(src, evs);
        let cov = covered_end(evs);
        assert(0 <= evs[0].off && ev_end(evs[0]) <= src.len());
        assert(0 <= evs[n - 1].off && ev_end(evs[n - 1]) <= src.len());
        // the tail is a partition of [cov, len)
        assert(cov <= src.len() && 0 <= cov) by {
            if n >= 2 {
                assert(evs[0].off < evs[n - 1].off);
            }
        }
        assert(spans_partition(src, tail, cov)) by {
            if cov < src.len() {
                assert(tail.len() == 1);
                assert(tail[0] == keep_m(
                    src,
                    cov,
                    src.len() as int,
                    evs[n - 1].lineno,
                    evs[n - 1].column,
                    evs[n - 1].lineno,
                    evs[n - 1].column,
                ));
                assert(spans_partition(src, Seq::<SpanM>::empty(), src.len() as int));
                assert(tail.drop_first() =~= Seq::<SpanM>::empty());
            } else {
                assert(tail =~= Seq::<SpanM>::empty());
            }
        }
        // the pair spans chain from the first pair span's start to cov
        if n == 1 {
            assert(pair_spans(src, evs, 0) =~= Seq::<SpanM>::empty());
            assert(spans_chain(src, pair_spans(src, evs, 0), cov, cov));
            if evs[0].off > 0 {
                assert(lead.len() == 1);
                assert(lead[0] == keep_m(src, 0, evs[0].off, 0, 0, evs[0].lineno, evs[0].column));
                assert(spans_chain(src, lead, 0, cov)) by {
                    assert(spans_chain(src, Seq::<SpanM>::empty(), cov, cov));
                    assert(lead.drop_first() =~= Seq::<SpanM>::empty());
                }
                lemma_chain_append(src, lead, pair_spans(src, evs, 0), 0, cov, cov);
            } else {
                assert(lead =~= Seq::<SpanM>::empty());
            }
            lemma_partition_append(src, lead + pair_spans(src, evs, 0), tail, 0, cov);
            assert(spans =~= lead + pair_spans(src, evs, 0) + tail);
        } else {
            lemma_pair_spans_chain(src, evs, 0);
            let p0 = pair_span(src, evs, 0);
            assert(p0.c.lo == evs[0].off);
            if evs[0].off > 0 {
                assert(lead.len() == 1);
                assert(lead[0] == keep_m(src, 0, evs[0].off, 0, 0, evs[0].lineno, evs[0].column));
                assert(spans_chain(src, lead, 0, evs[0].off)) by {
                    assert(spans_chain(src, Seq::<SpanM>::empty(), evs[0].off, evs[0].off));
                    assert(lead.drop_first() =~= Seq::<SpanM>::empty());
                }
            } else {
                assert(lead =~= Seq::<SpanM>::empty());
            }
            lemma_chain_append(src, lead, pair_spans(src, evs, 0), 0, evs[0].off, cov);
            lemma_partition_append(src, lead + pair_spans(src, evs, 0), tail, 0, cov);
            assert(spans =~= lead + pair_spans(src, evs, 0) + tail);
        }
    }
}

/// Lossless partition: for any document, concatenating the texts of the spans
/// that the scanner-segmenter pipeline produces, in order, reproduces the
/// document exactly.
pub proof fn lemma_lossless_partition(src: Seq<u8>)
    ensures
        concat_texts(segment_spec(src, scan_spec(src))) == src,
{
    lemma_scan_from_wf(src, 0, 0, false, false, false);
    lemma_segment_partition(src, scan_spec(src));
    lemma_concat_of_partition(src, segment_spec(src, scan_spec(src)), 0);
    assert(src.subrange(0, src.len() as int) =~= src);
}

proof fn lemma_pair_spans_index(src: Seq<u8>, evs: Seq<Ev>, k0: int)
    requires
        0 <= k0 <= evs.len() - 1,
    ensures
        pair_spans(src, evs, k0).len() == evs.len() - 1 - k0,
        forall|j: int|
            0 <= j < evs.len() - 1 - k0 ==> #[trigger] pair_spans(src, evs, k0)[j] == pair_span(
                src,
                evs,
                k0 + j,
            ),
    decreases evs.len() - k0,
{
    if k0 < evs.len() - 1 {
        lemma_pair_spans_index(src, evs, k0 + 1);
        let ps = pair_spans(src, evs, k0);
        let rest = pair_spans(src, evs, k0 + 1);
        assert(ps =~= seq![pair_span(src, evs, k0)] + rest);
        assert forall|j: int| 0 <= j < evs.len() - 1 - k0 implies #[trigger] ps[j] == pair_span(
            src,
            evs,
            k0 + j,
        ) by {
            if j > 0 {
                assert(ps[j] == rest[j - 1]);
            }
        }
    }
}

/// Parity: with matched delimiters (an even number of boundary events), spans
/// alternate Replace, Keep, Replace, Keep, and so on, starting with Replace;
/// with plain text before the first delimiter, a leading Keep span is
/// prepended and the alternation shifts by one.
pub proof fn lemma_parity(src: Seq<u8>, evs: Seq<Ev>)
    requires
        events_wf(src, evs),
        evs.len() >= 2,
        evs.len() % 2 == 0,
    ensures
        evs[0].off == 0 ==> forall|j: int|
            0 <= j < segment_spec(src, evs).len() ==> ((#[trigger] segment_spec(src, evs)[j]).replace
                <==> j % 2 == 0),
        evs[0].off > 0 ==> !segment_spec(src, evs)[0].replace && forall|j: int|
            0 <= j < segment_spec(src, evs).len() ==> ((#[trigger] segment_spec(src, evs)[j]).replace
                <==> j % 2 == 1),
{
    let n = evs.len() as int;
    let spans = segment_spec(src, evs);
    let lead = lead_spans(src, evs);
    let pairs = pair_spans(src, evs, 0);
    let tail = tail_spans(src, evs);
    lemma_pair_spans_index(src, evs, 0);
    assert(spans =~= lead + pairs + tail);
    let ln = lead.len() as int;
    assert forall|j: int| 0 <= j < spans.len() implies ((#[trigger] spans[j]).replace <==> (j - ln)
        % 2 == 0 && ln <= j < ln + n - 1) by {
        if j < ln {
            assert(spans[j] == lead[0]);
        } else if j < ln + n - 1 {
            assert(spans[j] == pairs[j - ln]);
            assert(pairs[j - ln] == pair_span(src, evs, j - ln));
        } else {
            assert(spans[j] == tail[j - (ln + n - 1)]);
            assert(spans[j] == tail[0]);
        }
    }
}

/// Parity over a whole document: if the scan of `src` finds matched
/// delimiters only (an even number of boundary events), the spans of `src`
/// alternate Replace, Keep, Replace, Keep, and so on, starting with Replace;
/// with plain text before the first delimiter, a leading Keep span is
/// prepended and the alternation shifts by one.
pub proof fn lemma_scan_parity(src: Seq<u8>)
    requires
        scan_spec(src).len() >= 2,
        scan_spec(src).len() % 2 == 0,
    ensures
        scan_spec(src)[0].off == 0 ==> forall|j: int|
            0 <= j < segment_spec(src, scan_spec(src)).len() ==> ((#[trigger] segment_spec(
                src,
                scan_spec(src),
            )[j]).replace <==> j % 2 == 0),
        scan_spec(src)[0].off > 0 ==> !segment_spec(src, scan_spec(src))[0].replace && forall|
            j: int,
        |
            0 <= j < segment_spec(src, scan_spec(src)).len() ==> ((#[trigger] segment_spec(
                src,
                scan_spec(src),
            )[j]).replace <==> j % 2 == 1),
{
    lemma_scan_from_wf(src, 0, 0, false, false, false);
    lemma_parity(src, scan_spec(src));
}

/// Builds the ordered span sequence of a document from its boundary events:
/// the executable segmenter, exactly as [`segment_spec`] describes.
pub fn iter_over_dollar_encompassed_blocks(src: &[u8], tags: &Vec<SplitTagPosition>) -> (r: Vec<
    Tagged,
>)
    requires
        events_wf(src@, events_view(tags@)),
    ensures
        spans_view(r@) == segment_spec(src@, events_view(tags@)),
{
    let ghost evs = events_view(tags@);
    let n = tags.len();
    let srclen = src.len();
    let mut out: Vec<Tagged> = Vec::new();
    if n == 0 {
        if src.len() > 0 {
            let c = Content {
                s: copy_range(src, 0, src.len()),
                start: LiCo { lineno: 0, column: 0 },
                end: LiCo { lineno: 0, column: 0 },
                byte_range: ByteRange { start: 0, end: src.len() },
                start_del: Dollar::Empty,
                end_del: Dollar::Empty,
            };
            out.push(Tagged::Keep(c));
        }
        proof {
            assert(spans_view(out@) =~= segment_spec(src@, evs));
        }
        return out;
    }
    proof {
        assert(evs[0] == tags@[0]@);
        assert(evs[n - 1] == tags@[n - 1]@);
        assert(0 <= evs[0].off && ev_end(evs[0]) <= src@.len());
        assert(0 <= evs[n - 1].off && ev_end(evs[n - 1]) <= src@.len());
    }
    if tags[0].byte_offset > 0 {
        let first = tags[0];
        let c = Content {
            s: copy_range(src, 0, first.byte_offset),
            start: LiCo { lineno: 0, column: 0 },
            end: first.lico,
            byte_range: ByteRange { start: 0, end: first.byte_offset },
            start_del: Dollar::Empty,
            end_del: Dollar::Empty,
        };
        out.push(Tagged::Keep(c));
    }
    proof {
        assert(spans_view(out@) =~= lead_spans(src@, evs));
    }
    let mut k: usize = 0;
    while k + 1 < n
        invariant
            n == tags@.len(),
            n >= 1,
            srclen == src@.len(),
            evs == events_view(tags@),
            events_wf(src@, evs),
            k < n,
            spans_view(out@) + pair_spans(src@, evs, k as int) =~= lead_spans(src@, evs)
                + pair_spans(src@, evs, 0),
        decreases n - k,
    {
        let a = tags[k];
        let b = tags[k + 1];
        proof {
            assert(a@ == evs[k as int]);
            assert(b@ == evs[k + 1 as int]);
            assert(ev_end(evs[k as int]) <= evs[k + 1 as int].off);
            assert(0 <= evs[k as int].off && ev_end(evs[k as int]) <= src@.len());
            assert(0 <= evs[k + 1 as int].off && ev_end(evs[k + 1 as int]) <= src@.len());
        }
        let ghost before = spans_view(out@);
        if k % 2 == 0 {
            let hi = b.byte_offset + b.which.delim_len();
            let c = Content {
                s: copy_range(src, a.byte_offset, hi),
                start: a.lico,
                end: b.lico,
                byte_range: ByteRange { start: a.byte_offset, end: hi },
                start_del: a.which,
                end_del: b.which,
            };
            out.push(Tagged::Replace(c));
        } else {
            let lo = if a.byte_offset == 0 {
                0
            } else {
                a.byte_offset + a.which.delim_len()
            };
            let c = Content {
                s: copy_range(src, lo, b.byte_offset),
                start: a.lico,
                end: b.lico,
                byte_range: ByteRange { start: lo, end: b.byte_offset },
                start_del: Dollar::Empty,
                end_del: Dollar::Empty,
            };
            out.push(Tagged::Keep(c));
        }
        proof {
            assert(spans_view(out@) =~= before + seq![pair_span(src@, evs, k as int)]);
            assert(pair_spans(src@, evs, k as int) =~= seq![pair_span(src@, evs, k as int)]
                + pair_spans(src@, evs, k + 1 as int));
        }
        k += 1;
    }
    proof {
        assert(pair_spans(src@, evs, k as int) =~= Seq::<SpanM>::empty());
        assert(spans_view(out@) =~= lead_spans(src@, evs) + pair_spans(src@, evs, 0));
    }
    let last = tags[n - 1];
    let covered: usize = if n == 1 {
        tags[0].byte_offset
    } else if (n - 2) % 2 == 0 {
        last.byte_offset + last.which.delim_len()
    } else {
        last.byte_offset
    };
    proof {
        assert(covered as int == covered_end(evs));
    }
    if covered < src.len() {
        let c = Content {
            s: copy_range(src, covered, src.len()),
            start: last.lico,
            end: last.lico,
            byte_range: ByteRange { start: covered, end: src.len() },
            start_del: Dollar::Empty,
            end_del: Dollar::Empty,
        };
        out.push(Tagged::Keep(c));
        proof {
            assert(spans_view(out@) =~= lead_spans(src@, evs) + pair_spans(src@, evs, 0)
                + tail_spans(src@, evs));
        }
    } else {
        proof {
            assert(tail_spans(src@, evs) =~= Seq::<SpanM>::empty());
            assert(spans_view(out@) =~= lead_spans(src@, evs) + pair_spans(src@, evs, 0)
                + tail_spans(src@, evs));
        }
    }
    out
}

/// Scans and segments a document in one call: the ordered keep/replace spans
/// of the document, a lossless partition of it.
pub fn chapter_spans(src: &[u8]) -> (r: Vec<Tagged>)
    requires
        src@.len() < usize::MAX,
    ensures
        spans_view(r@) == segment_spec(src@, scan_spec(src@)),
        concat_texts(spans_view(r@)) == src@,
{
    let tags = crate::scanner::dollar_split_tags(src);
    proof {
        lemma_scan_from_wf(src@, 0, 0, false, false, false);
        crate::segment::lemma_lossless_partition(src@);
    }
    iter_over_dollar_encompassed_blocks(src, &tags)
}

} // verus!
