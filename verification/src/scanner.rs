//! The delimiter scanner: a line-oriented, single left-to-right pass over the
//! document that produces the ordered sequence of delimiter boundary events.
//!
//! A line beginning with `<pre` opens a raw-HTML region and one beginning
//! with `</pre>` closes it; inside, nothing is emitted.  Outside of it, a
//! line beginning with three backticks toggles a fenced code block; while the
//! fence is open nothing is emitted.  Outside of both, a line beginning with
//! `$$` toggles the dollar-block flag and emits exactly one boundary event
//! for the whole line; any other line is scanned byte by byte, where a
//! backtick toggles an inline-code flag and a `$` seen outside inline code
//! toggles the between-dollars flag and emits an event.  A line that ends
//! with the between-dollars flag still set is repaired by a synthetic end
//! event with empty delimiter text at one past the line's last character.
//!
//! The scanner never fails: malformed input degrades to best-effort
//! splitting.

use vstd::prelude::*;

use crate::text::{char_count, BACKTICK, DOLLAR, NL};
use crate::types::{DelimiterKind, Dollar, LiCo};

verus! {

/// A delimiter boundary event: where in the document a delimiter stands and
/// which delimiter it is.
#[derive(Debug, Clone, Copy, PartialEq, Eq, Structural)]
pub struct SplitTagPosition {
    /// Position in line and column.
    pub lico: LiCo,
    /// Offset in bytes from the beginning of the document.
    pub byte_offset: usize,
    /// Start or end, inline or block.
    pub which: Dollar,
}

/// The mathematical model of a boundary event.
pub struct Ev {
    pub lineno: int,
    pub column: int,
    pub off: int,
    pub which: Dollar,
}

impl View for SplitTagPosition {
    type V = Ev;

    open spec fn view(&self) -> Ev {
        Ev {
            lineno: self.lico.lineno as int,
            column: self.lico.column as int,
            off: self.byte_offset as int,
            which: self.which,
        }
    }
}

/// The models of a sequence of events.
pub open spec fn events_view(v: Seq<SplitTagPosition>) -> Seq<Ev> {
    v.map(|i: int, e: SplitTagPosition| e@)
}

/// One past the last byte of an event's delimiter text.
pub open spec fn ev_end(e: Ev) -> int {
    e.off + e.which.spec_len()
}

/// The offset of the first newline at or after `i`, or the document length if
/// the rest of the document has none: one past the end of the line starting
/// at `i`.
pub open spec fn line_end(s: Seq<u8>, i: int) -> int
    decreases s.len() - i,
{
    if i < 0 || i >= s.len() {
        s.len() as int
    } else if s[i] == NL {
        i
    } else {
        line_end(s, i + 1)
    }
}

pub proof fn lemma_line_end(s: Seq<u8>, i: int)
    requires
        0 <= i <= s.len(),
    ensures
        i <= line_end(s, i) <= s.len(),
        forall|j: int| i <= j < line_end(s, i) ==> s[j] != NL,
        line_end(s, i) < s.len() ==> s[line_end(s, i)] == NL,
    decreases s.len() - i,
{
    if i < s.len() && s[i] != NL {
        lemma_line_end(s, i + 1);
    }
}

/// The line starting at `ls` (ending at `e`) begins with `<pre`.
pub open spec fn line_starts_pre_open(s: Seq<u8>, ls: int, e: int) -> bool {
    ls + 4 <= e && s[ls] == 60 && s[ls + 1] == 112 && s[ls + 2] == 114 && s[ls + 3] == 101
}

/// The line starting at `ls` (ending at `e`) begins with `</pre>`.
pub open spec fn line_starts_pre_close(s: Seq<u8>, ls: int, e: int) -> bool {
    ls + 6 <= e && s[ls] == 60 && s[ls + 1] == 47 && s[ls + 2] == 112 && s[ls + 3] == 114
        && s[ls + 4] == 101 && s[ls + 5] == 62
}

/// The line starting at `ls` (ending at `e`) begins with three backticks.
pub open spec fn line_starts_fence(s: Seq<u8>, ls: int, e: int) -> bool {
    ls + 3 <= e && s[ls] == BACKTICK && s[ls + 1] == BACKTICK && s[ls + 2] == BACKTICK
}

/// The line starting at `ls` (ending at `e`) begins with `$$`.
pub open spec fn line_starts_block(s: Seq<u8>, ls: int, e: int) -> bool {
    ls + 2 <= e && s[ls] == DOLLAR && s[ls + 1] == DOLLAR
}

/// The events the byte-by-byte scan of line `[j, e)` emits, given the
/// inline-code and between-dollars flags.  `ls` is the line's start, used for
/// column numbers.
pub open spec fn char_scan(
    s: Seq<u8>,
    ls: int,
    j: int,
    e: int,
    lineno: int,
    in_code: bool,
    in_dollar: bool,
) -> Seq<Ev>
    decreases e - j,
{
    if j < 0 || j >= e || e > s.len() {
        Seq::empty()
    } else if s[j] == DOLLAR && !in_code {
        seq![
            Ev {
                lineno,
                column: char_count(s, ls, j),
                off: j,
                which: if !in_dollar {
                    Dollar::Start(DelimiterKind::Inline)
                } else {
                    Dollar::End(DelimiterKind::Inline)
                },
            },
        ] + char_scan(s, ls, j + 1, e, lineno, in_code, !in_dollar)
    } else if s[j] == BACKTICK {
        char_scan(s, ls, j + 1, e, lineno, !in_code, in_dollar)
    } else {
        char_scan(s, ls, j + 1, e, lineno, in_code, in_dollar)
    }
}

/// The between-dollars flag after the byte-by-byte scan of `[j, e)`.
pub open spec fn scan_dollar_final(
    s: Seq<u8>,
    j: int,
    e: int,
    in_code: bool,
    in_dollar: bool,
) -> bool
    decreases e - j,
{
    if j < 0 || j >= e || e > s.len() {
        in_dollar
    } else if s[j] == DOLLAR && !in_code {
        scan_dollar_final(s, j + 1, e, in_code, !in_dollar)
    } else if s[j] == BACKTICK {
        scan_dollar_final(s, j + 1, e, !in_code, in_dollar)
    } else {
        scan_dollar_final(s, j + 1, e, in_code, in_dollar)
    }
}

/// The synthetic end event repairing an unterminated inline delimiter on the
/// line `[ls, e)`: one past the line's last character.
pub open spec fn synthetic_end(s: Seq<u8>, ls: int, e: int, lineno: int) -> Ev {
    Ev { lineno, column: char_count(s, ls, e) + 1, off: e, which: Dollar::SyntheticEnd }
}

/// All events of the byte-by-byte scan of the line `[ls, e)`, with the
/// end-of-line repair: a line that emits an odd count of inline events (it
/// ends between dollars) gets a synthetic end event.
pub open spec fn line_events(s: Seq<u8>, ls: int, e: int, lineno: int) -> Seq<Ev> {
    let evs = char_scan(s, ls, ls, e, lineno, false, false);
    if scan_dollar_final(s, ls, e, false, false) {
        evs.push(synthetic_end(s, ls, e, lineno))
    } else {
        evs
    }
}

/// The events of one line together with the pre/fence/dollar-block flags
/// after it.  The scanner state is `(pre, fence, block)`.
pub open spec fn scan_line(
    s: Seq<u8>,
    ls: int,
    e: int,
    lineno: int,
    pre: bool,
    fence: bool,
    block: bool,
) -> (Seq<Ev>, bool, bool, bool) {
    if line_starts_pre_open(s, ls, e) {
        (Seq::empty(), true, fence, block)
    } else if line_starts_pre_close(s, ls, e) {
        (Seq::empty(), false, fence, block)
    } else if pre {
        (Seq::empty(), pre, fence, block)
    } else if line_starts_fence(s, ls, e) {
        if !fence {
            (Seq::empty(), pre, true, block)
        } else {
            (line_events(s, ls, e, lineno), pre, false, block)
        }
    } else if fence {
        (Seq::empty(), pre, fence, block)
    } else if line_starts_block(s, ls, e) {
        (
            seq![
                Ev {
                    lineno,
                    column: 1,
                    off: ls,
                    which: if !block {
                        Dollar::Start(DelimiterKind::Block)
                    } else {
                        Dollar::End(DelimiterKind::Block)
                    },
                },
            ],
            pre,
            fence,
            !block,
        )
    } else {
        (line_events(s, ls, e, lineno), pre, fence, block)
    }
}

/// The events of all lines from offset `i` on, given the scanner state.
pub open spec fn scan_from(
    s: Seq<u8>,
    i: int,
    lineno: int,
    pre: bool,
    fence: bool,
    block: bool,
) -> Seq<Ev>
    decreases s.len() - i,
    via scan_from_decreases
{
    if i < 0 || i >= s.len() {
        Seq::empty()
    } else {
        let e = line_end(s, i);
        let step = scan_line(s, i, e, lineno, pre, fence, block);
        if e >= s.len() {
            step.0
        } else {
            step.0 + scan_from(s, e + 1, lineno + 1, step.1, step.2, step.3)
        }
    }
}

#[via_fn]
proof fn scan_from_decreases(s: Seq<u8>, i: int, lineno: int, pre: bool, fence: bool, block: bool) {
    if 0 <= i < s.len() {
        lemma_line_end(s, i);
    }
}

/// The full boundary event sequence of a document.
pub open spec fn scan_spec(s: Seq<u8>) -> Seq<Ev> {
    scan_from(s, 0, 0, false, false, false)
}

/// Well-formedness of an event sequence over a document: every delimiter lies
/// within the document, and the delimiter texts of any two events do not
/// overlap (offsets increase left to right).
pub open spec fn events_wf(s: Seq<u8>, evs: Seq<Ev>) -> bool {
    &&& forall|k: int|
        0 <= k < evs.len() ==> 0 <= (#[trigger] evs[k]).off && ev_end(evs[k]) <= s.len()
    &&& forall|k: int, l: int|
        0 <= k < l < evs.len() ==> ev_end(#[trigger] evs[k]) <= (#[trigger] evs[l]).off
    &&& forall|k: int, l: int|
        0 <= k < l < evs.len() ==> (#[trigger] evs[k]).off < (#[trigger] evs[l]).off
}

/// Events within `[lo, hi]`: all offsets at or after `lo`, all delimiter ends
/// at or before `hi`.
pub open spec fn events_within(evs: Seq<Ev>, lo: int, hi: int) -> bool {
    forall|k: int| 0 <= k < evs.len() ==> lo <= (#[trigger] evs[k]).off && ev_end(evs[k]) <= hi
}

/// The delimiter texts of any two events do not overlap.
pub open spec fn events_apart(evs: Seq<Ev>) -> bool {
    forall|k: int, l: int|
        0 <= k < l < evs.len() ==> ev_end(#[trigger] evs[k]) <= (#[trigger] evs[l]).off
}

/// Event offsets strictly increase left to right.
pub open spec fn events_increase(evs: Seq<Ev>) -> bool {
    forall|k: int, l: int|
        0 <= k < l < evs.len() ==> (#[trigger] evs[k]).off < (#[trigger] evs[l]).off
}

proof fn lemma_char_scan_wf(
    s: Seq<u8>,
    ls: int,
    j: int,
    e: int,
    lineno: int,
    in_code: bool,
    in_dollar: bool,
)
    requires
        0 <= ls <= j <= e <= s.len(),
    ensures
        events_within(char_scan(s, ls, j, e, lineno, in_code, in_dollar), j, e),
        events_apart(char_scan(s, ls, j, e, lineno, in_code, in_dollar)),
        events_increase(char_scan(s, ls, j, e, lineno, in_code, in_dollar)),
        forall|k: int|
            0 <= k < char_scan(s, ls, j, e, lineno, in_code, in_dollar).len() ==> (
            #[trigger] char_scan(s, ls, j, e, lineno, in_code, in_dollar)[k]).off < e,
    decreases e - j,
{
    let evs = char_scan(s, ls, j, e, lineno, in_code, in_dollar);
    if j >= e {
    } else if s[j] == DOLLAR && !in_code {
        lemma_char_scan_wf(s, ls, j + 1, e, lineno, in_code, !in_dollar);
        let rest = char_scan(s, ls, j + 1, e, lineno, in_code, !in_dollar);
        assert(evs.len() == 1 + rest.len());
        assert forall|k: int| 0 <= k < evs.len() implies j <= (#[trigger] evs[k]).off && ev_end(
            evs[k],
        ) <= e by {
            if k > 0 {
                assert(evs[k] == rest[k - 1]);
            }
        }
        assert forall|k: int, l: int| 0 <= k < l < evs.len() implies ev_end(#[trigger] evs[k])
            <= (#[trigger] evs[l]).off && (#[trigger] evs[k]).off < (#[trigger] evs[l]).off by {
            assert(evs[l] == rest[l - 1]);
            if k > 0 {
                assert(evs[k] == rest[k - 1]);
            } else {
                assert(ev_end(evs[0]) == j + 1);
                assert(rest[l - 1].off >= j + 1);
            }
        }
    } else if s[j] == BACKTICK {
        lemma_char_scan_wf(s, ls, j + 1, e, lineno, !in_code, in_dollar);
    } else {
        lemma_char_scan_wf(s, ls, j + 1, e, lineno, in_code, in_dollar);
    }
}

proof fn lemma_line_events_wf(s: Seq<u8>, ls: int, e: int, lineno: int)
    requires
        0 <= ls <= e <= s.len(),
    ensures
        events_within(line_events(s, ls, e, lineno), ls, e),
        events_apart(line_events(s, ls, e, lineno)),
        events_increase(line_events(s, ls, e, lineno)),
{
    lemma_char_scan_wf(s, ls, ls, e, lineno, false, false);
    let base = char_scan(s, ls, ls, e, lineno, false, false);
    let evs = line_events(s, ls, e, lineno);
    if scan_dollar_final(s, ls, e, false, false) {
        let syn = synthetic_end(s, ls, e, lineno);
        assert(evs == base.push(syn));
        assert(ev_end(syn) == e);
        assert forall|k: int| 0 <= k < evs.len() implies ls <= (#[trigger] evs[k]).off && ev_end(
            evs[k],
        ) <= e by {
            if k < base.len() {
                assert(evs[k] == base[k]);
            } else {
                assert(evs[k] == syn);
            }
        }
        assert forall|k: int, l: int| 0 <= k < l < evs.len() implies ev_end(#[trigger] evs[k])
            <= (#[trigger] evs[l]).off && (#[trigger] evs[k]).off < (#[trigger] evs[l]).off by {
            assert(evs[k] == base[k]);
            if l < base.len() {
                assert(evs[l] == base[l]);
            } else {
                assert(evs[l] == syn);
                assert(ev_end(base[k]) <= e);
                assert(base[k].off < e);
            }
        }
    }
}

proof fn lemma_scan_line_wf(
    s: Seq<u8>,
    ls: int,
    e: int,
    lineno: int,
    pre: bool,
    fence: bool,
    block: bool,
)
    requires
        0 <= ls <= e <= s.len(),
    ensures
        events_within(scan_line(s, ls, e, lineno, pre, fence, block).0, ls, e),
        events_apart(scan_line(s, ls, e, lineno, pre, fence, block).0),
        events_increase(scan_line(s, ls, e, lineno, pre, fence, block).0),
{
    if line_starts_pre_open(s, ls, e) {
    } else if line_starts_pre_close(s, ls, e) {
    } else if pre {
    } else if line_starts_fence(s, ls, e) {
        if fence {
            lemma_line_events_wf(s, ls, e, lineno);
        }
    } else if fence {
    } else if line_starts_block(s, ls, e) {
        let evs = scan_line(s, ls, e, lineno, pre, fence, block).0;
        assert(evs.len() == 1);
        assert(ev_end(evs[0]) == ls + 2 <= e);
    } else {
        lemma_line_events_wf(s, ls, e, lineno);
    }
}

/// The event stream of a scan is well formed: events lie within the document,
/// in increasing order, and their delimiter texts do not overlap.
pub proof fn lemma_scan_from_wf(
    s: Seq<u8>,
    i: int,
    lineno: int,
    pre: bool,
    fence: bool,
    block: bool,
)
    requires
        0 <= i <= s.len(),
    ensures
        events_within(scan_from(s, i, lineno, pre, fence, block), i, s.len() as int),
        events_apart(scan_from(s, i, lineno, pre, fence, block)),
        events_increase(scan_from(s, i, lineno, pre, fence, block)),
        events_wf(s, scan_from(s, i, lineno, pre, fence, block)),
    decreases s.len() - i,
{
    let evs = scan_from(s, i, lineno, pre, fence, block);
    if 0 <= i < s.len() {
        let e = line_end(s, i);
        lemma_line_end(s, i);
        let step = scan_line(s, i, e, lineno, pre, fence, block);
        lemma_scan_line_wf(s, i, e, lineno, pre, fence, block);
        if e >= s.len() {
            assert(evs == step.0);
            assert(events_within(evs, i, s.len() as int)) by {
                assert forall|k: int| 0 <= k < evs.len() implies i <= (#[trigger] evs[k]).off
                    && ev_end(evs[k]) <= s.len() by {
                    assert(evs[k] == step.0[k]);
                }
            }
        } else {
            lemma_scan_from_wf(s, e + 1, lineno + 1, step.1, step.2, step.3);
            let rest = scan_from(s, e + 1, lineno + 1, step.1, step.2, step.3);
            assert(evs == step.0 + rest);
            assert forall|k: int| 0 <= k < evs.len() implies i <= (#[trigger] evs[k]).off && ev_end(
                evs[k],
            ) <= s.len() by {
                if k < step.0.len() {
                    assert(evs[k] == step.0[k]);
                } else {
                    assert(evs[k] == rest[k - step.0.len()]);
                }
            }
            assert forall|k: int, l: int| 0 <= k < l < evs.len() implies ev_end(#[trigger] evs[k])
                <= (#[trigger] evs[l]).off && (#[trigger] evs[k]).off < (#[trigger] evs[l]).off by {
                if l < step.0.len() {
                    assert(evs[k] == step.0[k]);
                    assert(evs[l] == step.0[l]);
                } else if k >= step.0.len() {
                    assert(evs[k] == rest[k - step.0.len()]);
                    assert(evs[l] == rest[l - step.0.len()]);
                } else {
                    assert(evs[k] == step.0[k]);
                    assert(evs[l] == rest[l - step.0.len()]);
                    assert(ev_end(step.0[k]) <= e);
                    assert(step.0[k].off <= ev_end(step.0[k]));
                    assert(rest[l - step.0.len()].off >= e + 1);
                }
            }
        }
    }
}

/// Suppression of delimiters inside `<pre>` regions and fenced code blocks: a
/// line scanned while the pre flag is set emits no boundary event, and so
/// does a line scanned while the code-fence flag is set (other than a fence
/// line, which closes the fence and is scanned normally thereafter) or a line
/// that opens a code fence.
pub proof fn lemma_pre_fence_suppression(
    s: Seq<u8>,
    ls: int,
    e: int,
    lineno: int,
    pre: bool,
    fence: bool,
    block: bool,
)
    ensures
        line_starts_pre_open(s, ls, e) ==> scan_line(s, ls, e, lineno, pre, fence, block).0
            == Seq::<Ev>::empty(),
        line_starts_pre_close(s, ls, e) ==> scan_line(s, ls, e, lineno, pre, fence, block).0
            == Seq::<Ev>::empty(),
        pre ==> scan_line(s, ls, e, lineno, pre, fence, block).0 == Seq::<Ev>::empty(),
        !pre && fence && !line_starts_fence(s, ls, e) ==> scan_line(
            s,
            ls,
            e,
            lineno,
            pre,
            fence,
            block,
        ).0 == Seq::<Ev>::empty(),
        !pre && !fence && line_starts_fence(s, ls, e) && !line_starts_pre_open(s, ls, e)
            && !line_starts_pre_close(s, ls, e) ==> scan_line(
            s,
            ls,
            e,
            lineno,
            pre,
            fence,
            block,
        ).0 == Seq::<Ev>::empty(),
{
}

/// Finds the end of the line starting at `i`: the offset of the next newline,
/// or the document length.
pub fn find_line_end(src: &[u8], i: usize) -> (e: usize)
    requires
        i <= src@.len(),
    ensures
        i <= e <= src@.len(),
        e as int == line_end(src@, i as int),
{
    let n = src.len();
    let mut e = i;
    while e < n && src[e] != NL
        invariant
            i <= e <= n,
            n == src@.len(),
            line_end(src@, i as int) == line_end(src@, e as int),
        decreases n - e,
    {
        assert(line_end(src@, e as int) == line_end(src@, e + 1 as int));
        e += 1;
    }
    e
}

fn starts_pre_open(src: &[u8], ls: usize, e: usize) -> (r: bool)
    requires
        ls <= e <= src@.len(),
    ensures
        r == line_starts_pre_open(src@, ls as int, e as int),
{
    e - ls >= 4 && src[ls] == 60 && src[ls + 1] == 112 && src[ls + 2] == 114 && src[ls + 3] == 101
}

fn starts_pre_close(src: &[u8], ls: usize, e: usize) -> (r: bool)
    requires
        ls <= e <= src@.len(),
    ensures
        r == line_starts_pre_close(src@, ls as int, e as int),
{
    e - ls >= 6 && src[ls] == 60 && src[ls + 1] == 47 && src[ls + 2] == 112 && src[ls + 3] == 114
        && src[ls + 4] == 101 && src[ls + 5] == 62
}

fn starts_fence(src: &[u8], ls: usize, e: usize) -> (r: bool)
    requires
        ls <= e <= src@.len(),
    ensures
        r == line_starts_fence(src@, ls as int, e as int),
{
    e - ls >= 3 && src[ls] == BACKTICK && src[ls + 1] == BACKTICK && src[ls + 2] == BACKTICK
}

fn starts_block(src: &[u8], ls: usize, e: usize) -> (r: bool)
    requires
        ls <= e <= src@.len(),
    ensures
        r == line_starts_block(src@, ls as int, e as int),
{
    e - ls >= 2 && src[ls] == DOLLAR && src[ls + 1] == DOLLAR
}

/// Scans an ordinary line byte by byte, appending the events it emits.
fn scan_simple_line(src: &[u8], ls: usize, e: usize, lineno: usize, out: &mut Vec<SplitTagPosition>)
    requires
        ls <= e <= src@.len(),
        e - ls < usize::MAX,
    ensures
        events_view(final(out)@) == events_view(old(out)@) + line_events(
            src@,
            ls as int,
            e as int,
            lineno as int,
        ),
{
    let ghost base = events_view(out@);
    let mut j: usize = ls;
    let mut cc: usize = 0;
    let mut in_code = false;
    let mut in_dollar = false;
    while j < e
        invariant
            ls <= j <= e <= src@.len(),
            cc <= j - ls,
            cc as int == char_count(src@, ls as int, j as int),
            base + char_scan(src@, ls as int, ls as int, e as int, lineno as int, false, false)
                =~= events_view(out@) + char_scan(
                src@,
                ls as int,
                j as int,
                e as int,
                lineno as int,
                in_code,
                in_dollar,
            ),
            scan_dollar_final(src@, ls as int, e as int, false, false) == scan_dollar_final(
                src@,
                j as int,
                e as int,
                in_code,
                in_dollar,
            ),
        decreases e - j,
    {
        let b = src[j];
        if b == DOLLAR && !in_code {
            let ev = SplitTagPosition {
                lico: LiCo { lineno, column: cc },
                byte_offset: j,
                which: if !in_dollar {
                    Dollar::Start(DelimiterKind::Inline)
                } else {
                    Dollar::End(DelimiterKind::Inline)
                },
            };
            let ghost before = events_view(out@);
            out.push(ev);
            proof {
                assert(events_view(out@) =~= before + seq![ev@]);
                assert(char_scan(
                    src@,
                    ls as int,
                    j as int,
                    e as int,
                    lineno as int,
                    in_code,
                    in_dollar,
                ) =~= seq![ev@] + char_scan(
                    src@,
                    ls as int,
                    j + 1 as int,
                    e as int,
                    lineno as int,
                    in_code,
                    !in_dollar,
                ));
            }
            in_dollar = !in_dollar;
        } else if b == BACKTICK {
            in_code = !in_code;
        }
        if !(128 <= b && b <= 191) {
            cc += 1;
        }
        assert(char_count(src@, ls as int, j + 1 as int) == char_count(src@, ls as int, j as int)
            + if vstd::utf8::is_continuation_byte(src@[j as int]) {
            0int
        } else {
            1int
        });
        j += 1;
    }
    if in_dollar {
        let ev = SplitTagPosition {
            lico: LiCo { lineno, column: cc + 1 },
            byte_offset: e,
            which: Dollar::SyntheticEnd,
        };
        let ghost before = events_view(out@);
        out.push(ev);
        proof {
            assert(ev@ == synthetic_end(src@, ls as int, e as int, lineno as int));
            assert(events_view(out@) =~= before + seq![ev@]);
            assert(events_view(out@) =~= base + line_events(
                src@,
                ls as int,
                e as int,
                lineno as int,
            ));
        }
    } else {
        proof {
            assert(events_view(out@) =~= base + line_events(
                src@,
                ls as int,
                e as int,
                lineno as int,
            ));
        }
    }
}

/// Scans a document and returns the ordered sequence of delimiter boundary
/// events, exactly as [`scan_spec`] describes.
pub fn dollar_split_tags(src: &[u8]) -> (r: Vec<SplitTagPosition>)
    requires
        src@.len() < usize::MAX,
    ensures
        events_view(r@) == scan_spec(src@),
{
    let n = src.len();
    let mut out: Vec<SplitTagPosition> = Vec::new();
    let mut i: usize = 0;
    let mut lineno: usize = 0;
    let mut pre = false;
    let mut fence = false;
    let mut block = false;
    while i < n
        invariant
            i <= n,
            n == src@.len() < usize::MAX,
            lineno <= i,
            events_view(out@) + scan_from(src@, i as int, lineno as int, pre, fence, block)
                =~= scan_spec(src@),
        decreases n - i,
    {
        let ghost pre0 = pre;
        let ghost fence0 = fence;
        let ghost block0 = block;
        let ghost out0 = events_view(out@);
        let e = find_line_end(src, i);
        let ghost step = scan_line(src@, i as int, e as int, lineno as int, pre0, fence0, block0);
        if starts_pre_open(src, i, e) {
            pre = true;
        } else if starts_pre_close(src, i, e) {
            pre = false;
        } else if pre {
        } else if starts_fence(src, i, e) {
            if !fence {
                fence = true;
            } else {
                fence = false;
                scan_simple_line(src, i, e, lineno, &mut out);
            }
        } else if fence {
        } else if starts_block(src, i, e) {
            block = !block;
            let ev = SplitTagPosition {
                lico: LiCo { lineno, column: 1 },
                byte_offset: i,
                which: if block {
                    Dollar::Start(DelimiterKind::Block)
                } else {
                    Dollar::End(DelimiterKind::Block)
                },
            };
            let ghost before = events_view(out@);
            out.push(ev);
            proof {
                assert(events_view(out@) =~= before + seq![ev@]);
                assert(step.0 =~= seq![ev@]);
            }
        } else {
            scan_simple_line(src, i, e, lineno, &mut out);
        }
        proof {
            assert(pre == step.1 && fence == step.2 && block == step.3);
            assert(events_view(out@) =~= out0 + step.0);
            assert(scan_from(src@, i as int, lineno as int, pre0, fence0, block0) =~= step.0
                + scan_from(src@, e + 1 as int, lineno + 1 as int, step.1, step.2, step.3));
            if e == n {
                assert(scan_from(src@, n as int, lineno + 1 as int, pre, fence, block)
                    =~= Seq::<Ev>::empty());
                assert(scan_from(src@, e + 1 as int, lineno + 1 as int, pre, fence, block)
                    =~= Seq::<Ev>::empty());
            }
        }
        if e < n {
            i = e + 1;
        } else {
            i = n;
        }
        lineno += 1;
    }
    out
}

} // verus!
