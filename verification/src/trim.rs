//! The trimmer: strips the delimiters off a replace span and isolates the
//! optional parameter string.
//!
//! For a block span (`$$ ... $$`), the parameters are the remainder of the
//! opening line after the delimiter and the body is everything strictly
//! between the line holding the opening delimiter and the line holding the
//! closing one.  For an inline span (`$ ... $`), the body is the text
//! strictly between the two delimiter characters and there are no parameters.

use vstd::prelude::*;

use vstd::string::{StringSliceAdditionalSpecFns, StrSliceExecFns};
use vstd::utf8::{encode_scalar, encode_utf8, is_continuation_byte};

use crate::scanner::{find_line_end, line_end};
use crate::segment::{ByteRange, Content};
use crate::text::{char_count, copy_range, NL};
use crate::types::{Dollar, LiCo};

verus! {

/// The number of newlines in `s[0..k)`.
pub open spec fn count_nl(s: Seq<u8>, k: int) -> int
    decreases k,
{
    if k <= 0 || k > s.len() {
        0
    } else {
        count_nl(s, k - 1) + if s[k - 1] == NL {
            1int
        } else {
            0int
        }
    }
}

/// The index of the last newline at or before `i`, or `-1` if there is none.
pub open spec fn rfind_nl(s: Seq<u8>, i: int) -> int
    decreases i + 1,
{
    if i < 0 || i >= s.len() {
        -1
    } else if s[i] == NL {
        i
    } else {
        rfind_nl(s, i - 1)
    }
}

/// The 1-based line number of the boundary position `k`.
pub open spec fn pos_lineno(s: Seq<u8>, k: int) -> int {
    1 + count_nl(s, k)
}

/// The 1-based column of the boundary position `k` within its line, counted
/// in characters.
pub open spec fn pos_col(s: Seq<u8>, k: int) -> int {
    char_count(s, rfind_nl(s, k - 1) + 1, k) + 1
}

proof fn lemma_count_nl_le(s: Seq<u8>, k: int)
    requires
        0 <= k,
    ensures
        count_nl(s, k) <= k,
        0 <= count_nl(s, k),
    decreases k,
{
    if k > 0 && k <= s.len() {
        lemma_count_nl_le(s, k - 1);
    }
}

proof fn lemma_rfind_nl_range(s: Seq<u8>, i: int)
    requires
        -1 <= i,
    ensures
        -1 <= rfind_nl(s, i) <= i,
        rfind_nl(s, i) >= 0 ==> rfind_nl(s, i) < s.len() && s[rfind_nl(s, i)] == NL,
    decreases i + 1,
{
    if 0 <= i < s.len() && s[i] != NL {
        lemma_rfind_nl_range(s, i - 1);
    }
}

/// Dollarless content of a replace span: the body, the optional parameter
/// string, and where within the span the body sits.
#[derive(Debug, Clone, PartialEq, Eq)]
pub struct Trimmed {
    /// The span's text without delimiters: for a block span, the lines
    /// strictly between the delimiter lines; for an inline span, the text
    /// strictly between the delimiter characters.
    pub trimmed: Vec<u8>,
    /// For a block span, the remainder of the opening line after the
    /// delimiter, if nonempty.
    pub parameters: Option<Vec<u8>>,
    /// Position of the body's start within the span (1-based line/column).
    pub start: LiCo,
    /// Position of the body's end within the span (1-based line/column).
    pub end: LiCo,
    /// Byte range of the body within the span.
    pub byte_range: ByteRange,
}

/// The mathematical model of a [`Trimmed`].
pub struct TrimmedM {
    pub body: Seq<u8>,
    pub params: Option<Seq<u8>>,
    pub start_line: int,
    pub start_col: int,
    pub end_line: int,
    pub end_col: int,
    pub lo: int,
    pub hi: int,
}

impl View for Trimmed {
    type V = TrimmedM;

    open spec fn view(&self) -> TrimmedM {
        TrimmedM {
            body: self.trimmed@,
            params: match self.parameters {
                Some(ref p) => Some(p@),
                None => None,
            },
            start_line: self.start.lineno as int,
            start_col: self.start.column as int,
            end_line: self.end.lineno as int,
            end_col: self.end.column as int,
            lo: self.byte_range.start as int,
            hi: self.byte_range.end as int,
        }
    }
}

impl Trimmed {
    /// The body text.
    pub fn as_str(&self) -> (r: &[u8])
        ensures
            r@ == self.trimmed@,
    {
        self.trimmed.as_slice()
    }
}

/// The degenerate trim of a span without the expected structure: an empty
/// body at the span's start.
pub open spec fn trim_empty_m(s: Seq<u8>) -> TrimmedM {
    TrimmedM {
        body: Seq::empty(),
        params: None,
        start_line: pos_lineno(s, 0),
        start_col: pos_col(s, 0),
        end_line: pos_lineno(s, 0),
        end_col: pos_col(s, 0),
        lo: 0,
        hi: 0,
    }
}

/// What trimming a replace span yields, from the span's text and delimiters.
///
/// A block span is cut at its first and last newline: the parameters are the
/// opening line after the delimiter (`None` when empty), the body is
/// everything after the first newline up to and including the last newline.
/// An inline span loses its delimiter characters at both ends.  A span
/// without the expected structure (a block span without a newline, an inline
/// span shorter than its delimiters) trims to an empty body.
pub open spec fn trim_spec(s: Seq<u8>, start_del: Dollar, end_del: Dollar) -> TrimmedM {
    if start_del.spec_is_block() {
        let i = line_end(s, 0);
        if i >= s.len() {
            trim_empty_m(s)
        } else {
            let j = rfind_nl(s, s.len() - 1);
            let dp = if start_del.spec_len() <= i {
                start_del.spec_len()
            } else {
                i
            };
            let params = s.subrange(dp, i);
            TrimmedM {
                body: s.subrange(i + 1, j + 1),
                params: if params.len() == 0 {
                    None
                } else {
                    Some(params)
                },
                start_line: pos_lineno(s, i + 1),
                start_col: pos_col(s, i + 1),
                end_line: pos_lineno(s, j + 1),
                end_col: pos_col(s, j + 1),
                lo: i + 1,
                hi: j + 1,
            }
        }
    } else {
        let a = start_del.spec_len();
        let b = end_del.spec_len();
        if a + b <= s.len() {
            TrimmedM {
                body: s.subrange(a, s.len() - b),
                params: None,
                start_line: pos_lineno(s, a),
                start_col: pos_col(s, a),
                end_line: pos_lineno(s, s.len() - b),
                end_col: pos_col(s, s.len() - b),
                lo: a,
                hi: s.len() - b,
            }
        } else {
            trim_empty_m(s)
        }
    }
}

/// Computes the 1-based line/column of the boundary position `k` in `s`.
fn pos_at(s: &[u8], k: usize) -> (r: LiCo)
    requires
        k <= s@.len(),
        s@.len() < usize::MAX,
    ensures
        r.lineno as int == pos_lineno(s@, k as int),
        r.column as int == pos_col(s@, k as int),
{
    let mut idx: usize = 0;
    let mut cnt: usize = 0;
    let mut last: usize = 0;
    let mut seen = false;
    let mut colc: usize = 0;
    while idx < k
        invariant
            idx <= k <= s@.len() < usize::MAX,
            cnt <= idx,
            cnt as int == count_nl(s@, idx as int),
            seen == (rfind_nl(s@, idx as int - 1) >= 0),
            seen ==> last as int == rfind_nl(s@, idx as int - 1) && last < idx,
            colc <= idx,
            colc as int == char_count(s@, rfind_nl(s@, idx as int - 1) + 1, idx as int),
        decreases k - idx,
    {
        proof {
            lemma_rfind_nl_range(s@, idx as int - 1);
        }
        let ghost start0 = rfind_nl(s@, idx as int - 1) + 1;
        let b = s[idx];
        if b == NL {
            cnt += 1;
            last = idx;
            seen = true;
            colc = 0;
        } else if !(128 <= b && b <= 191) {
            colc += 1;
        }
        proof {
            assert(count_nl(s@, idx + 1 as int) == count_nl(s@, idx as int) + if s@[idx as int]
                == NL {
                1int
            } else {
                0int
            });
            assert(rfind_nl(s@, idx as int) == if s@[idx as int] == NL {
                idx as int
            } else {
                rfind_nl(s@, idx as int - 1)
            });
            if s@[idx as int] == NL {
                assert(char_count(s@, idx + 1 as int, idx + 1 as int) == 0);
            } else {
                assert(char_count(s@, start0, idx + 1 as int) == char_count(s@, start0, idx as int)
                    + if is_continuation_byte(s@[idx as int]) {
                    0int
                } else {
                    1int
                });
            }
        }
        idx += 1;
    }
    let lineno = 1 + cnt;
    let column = colc + 1;
    LiCo { lineno, column }
}

/// The index of the last newline in `s`, which must have one.
fn rfind_nl_last(s: &[u8]) -> (r: usize)
    requires
        rfind_nl(s@, s@.len() - 1) >= 0,
    ensures
        r as int == rfind_nl(s@, s@.len() - 1),
        r < s@.len(),
{
    proof {
        lemma_rfind_nl_range(s@, s@.len() - 1);
    }
    let mut t = s.len();
    while t > 0
        invariant
            t <= s@.len(),
            rfind_nl(s@, s@.len() - 1) == rfind_nl(s@, t as int - 1),
            rfind_nl(s@, s@.len() - 1) >= 0,
        decreases t,
    {
        t -= 1;
        if s[t] == NL {
            assert(rfind_nl(s@, t as int) == t as int);
            return t;
        }
        assert(rfind_nl(s@, t as int) == rfind_nl(s@, t as int - 1));
    }
    proof {
        assert(rfind_nl(s@, -1) == -1);
        assert(false);
    }
    0
}

impl Content {
    /// Strips the delimiters and isolates the parameter string, as
    /// [`trim_spec`] describes.
    pub fn trimmed(&self) -> (r: Trimmed)
        requires
            self.s@.len() < usize::MAX,
        ensures
            r@ == trim_spec(self.s@, self.start_del, self.end_del),
    {
        let s = self.s.as_slice();
        if self.start_del.is_block() {
            let i = find_line_end(s, 0);
            if i >= s.len() {
                Trimmed {
                    trimmed: Vec::new(),
                    parameters: None,
                    start: pos_at(s, 0),
                    end: pos_at(s, 0),
                    byte_range: ByteRange { start: 0, end: 0 },
                }
            } else {
                proof {
                    crate::scanner::lemma_line_end(s@, 0);
                    assert(s@[i as int] == NL);
                    assert(rfind_nl(s@, s@.len() - 1) >= i as int) by {
                        lemma_rfind_nl_ge(s@, i as int, s@.len() - 1);
                    }
                }
                let j = rfind_nl_last(s);
                let d = self.start_del.delim_len();
                let dp = if d <= i {
                    d
                } else {
                    i
                };
                let params_v = copy_range(s, dp, i);
                let parameters = if params_v.len() == 0 {
                    None
                } else {
                    Some(params_v)
                };
                proof {
                    assert(j as int >= i as int);
                }
                Trimmed {
                    trimmed: copy_range(s, i + 1, j + 1),
                    parameters,
                    start: pos_at(s, i + 1),
                    end: pos_at(s, j + 1),
                    byte_range: ByteRange { start: i + 1, end: j + 1 },
                }
            }
        } else {
            let a = self.start_del.delim_len();
            let b = self.end_del.delim_len();
            if a + b <= s.len() {
                Trimmed {
                    trimmed: copy_range(s, a, s.len() - b),
                    parameters: None,
                    start: pos_at(s, a),
                    end: pos_at(s, s.len() - b),
                    byte_range: ByteRange { start: a, end: s.len() - b },
                }
            } else {
                Trimmed {
                    trimmed: Vec::new(),
                    parameters: None,
                    start: pos_at(s, 0),
                    end: pos_at(s, 0),
                    byte_range: ByteRange { start: 0, end: 0 },
                }
            }
        }
    }
}

/// A newline at `i` keeps `rfind_nl` at or above `i` for any later bound.
proof fn lemma_rfind_nl_ge(s: Seq<u8>, i: int, j: int)
    requires
        0 <= i <= j < s.len(),
        s[i] == NL,
    ensures
        rfind_nl(s, j) >= i,
    decreases j - i,
{
    if j > i && s[j] != NL {
        lemma_rfind_nl_ge(s, i, j - 1);
    }
}

/// The number of newline characters among the first `k` characters.
pub open spec fn count_nl_chars(s: Seq<char>, k: int) -> int
    decreases k,
{
    if k <= 0 || k > s.len() {
        0
    } else {
        count_nl_chars(s, k - 1) + if s[k - 1] == '\n' {
            1int
        } else {
            0int
        }
    }
}

/// The index of the last newline character at or before `i`, or `-1`.
pub open spec fn rfind_nl_chars(s: Seq<char>, i: int) -> int
    decreases i + 1,
{
    if i < 0 || i >= s.len() {
        -1
    } else if s[i] == '\n' {
        i
    } else {
        rfind_nl_chars(s, i - 1)
    }
}

proof fn lemma_count_nl_chars_le(s: Seq<char>, k: int)
    requires
        0 <= k,
    ensures
        0 <= count_nl_chars(s, k) <= k,
    decreases k,
{
    if k > 0 && k <= s.len() {
        lemma_count_nl_chars_le(s, k - 1);
    }
}

proof fn lemma_rfind_nl_chars_range(s: Seq<char>, i: int)
    requires
        -1 <= i,
    ensures
        -1 <= rfind_nl_chars(s, i) <= i,
    decreases i + 1,
{
    if 0 <= i < s.len() && s[i] != '\n' {
        lemma_rfind_nl_chars_range(s, i - 1);
    }
}

/// The width in bytes of a character's UTF-8 encoding.
fn char_width(c: char) -> (w: usize)
    ensures
        w as int == encode_scalar(c as u32).len(),
        1 <= w <= 4,
{
    proof {
        vstd::utf8::char_is_scalar(c);
    }
    let u = c as u32;
    if u <= 0x7F {
        1
    } else if u <= 0x7FF {
        2
    } else if u <= 0xFFFF {
        3
    } else {
        4
    }
}

/// Splitting the last character off an encoded stretch.
proof fn lemma_encode_snoc(s: Seq<char>, i: int, j: int)
    requires
        0 <= i <= j < s.len(),
    ensures
        encode_utf8(s.subrange(i, j + 1)) == encode_utf8(s.subrange(i, j)) + encode_scalar(
            s[j] as u32,
        ),
    decreases j - i,
{
    if i == j {
        assert(s.subrange(i, j) =~= Seq::<char>::empty());
        assert(s.subrange(i, j + 1) =~= seq![s[j]]);
        assert(seq![s[j]].drop_first() =~= Seq::<char>::empty());
        assert(encode_utf8(s.subrange(i, j + 1)) =~= encode_utf8(s.subrange(i, j)) + encode_scalar(
            s[j] as u32,
        ));
    } else {
        lemma_encode_snoc(s, i + 1, j);
        assert(s.subrange(i, j + 1).drop_first() =~= s.subrange(i + 1, j + 1));
        assert(s.subrange(i, j).drop_first() =~= s.subrange(i + 1, j));
        assert(encode_utf8(s.subrange(i, j + 1)) =~= encode_utf8(s.subrange(i, j)) + encode_scalar(
            s[j] as u32,
        ));
    }
}

/// A prefix never encodes to more bytes than the whole.
proof fn lemma_encode_prefix_le(s: Seq<char>, k: int)
    requires
        0 <= k <= s.len(),
    ensures
        encode_utf8(s.subrange(0, k)).len() <= encode_utf8(s).len(),
    decreases s.len() - k,
{
    if k == s.len() {
        assert(s.subrange(0, k) =~= s);
    } else {
        lemma_encode_snoc(s, 0, k);
        lemma_encode_prefix_le(s, k + 1);
    }
}

/// Annotates every character of a text with its position: a 1-based line and
/// column cursor (a newline counts as column 1 of the line it opens), the
/// character's byte offset, and the character itself.
pub fn annotate(s: &str) -> (r: Vec<(LiCo, usize, char)>)
    requires
        s@.len() < usize::MAX,
        s.spec_bytes().len() < usize::MAX,
    ensures
        r@.len() == s@.len(),
        forall|k: int|
            0 <= k < s@.len() ==> {
                let entry = #[trigger] r@[k];
                &&& entry.2 == s@[k]
                &&& entry.1 as int == encode_utf8(s@.subrange(0, k)).len()
                &&& entry.0.lineno as int == 1 + count_nl_chars(s@, k + 1)
                &&& entry.0.column as int == (if s@[k] == '\n' {
                    1int
                } else if rfind_nl_chars(s@, k - 1) >= 0 {
                    k - rfind_nl_chars(s@, k - 1) + 1
                } else {
                    k + 1
                })
            },
{
    let n = s.unicode_len();
    let mut out: Vec<(LiCo, usize, char)> = Vec::new();
    let mut lineno: usize = 1;
    let mut column: usize = 0;
    let mut off: usize = 0;
    let mut k: usize = 0;
    while k < n
        invariant
            k <= n == s@.len() < usize::MAX,
            encode_utf8(s@).len() < usize::MAX,
            out@.len() == k,
            lineno as int == 1 + count_nl_chars(s@, k as int),
            lineno <= 1 + k,
            column as int == (if rfind_nl_chars(s@, k as int - 1) >= 0 {
                k - rfind_nl_chars(s@, k as int - 1)
            } else {
                k as int
            }),
            column <= k,
            off as int == encode_utf8(s@.subrange(0, k as int)).len(),
            forall|j: int|
                0 <= j < k ==> {
                    let entry = #[trigger] out@[j];
                    &&& entry.2 == s@[j]
                    &&& entry.1 as int == encode_utf8(s@.subrange(0, j)).len()
                    &&& entry.0.lineno as int == 1 + count_nl_chars(s@, j + 1)
                    &&& entry.0.column as int == (if s@[j] == '\n' {
                        1int
                    } else if rfind_nl_chars(s@, j - 1) >= 0 {
                        j - rfind_nl_chars(s@, j - 1) + 1
                    } else {
                        j + 1
                    })
                },
        decreases n - k,
    {
        proof {
            lemma_count_nl_chars_le(s@, k as int);
            lemma_rfind_nl_chars_range(s@, k as int - 1);
        }
        let c = s.get_char(k);
        if c == '\n' {
            lineno += 1;
            column = 0;
        }
        column += 1;
        out.push((LiCo { lineno, column }, off, c));
        let w = char_width(c);
        proof {
            lemma_encode_snoc(s@, 0, k as int);
            lemma_encode_prefix_le(s@, k + 1 as int);
            assert(count_nl_chars(s@, k + 1 as int) == count_nl_chars(s@, k as int) + if s@[k as int]
                == '\n' {
                1int
            } else {
                0int
            });
            assert(rfind_nl_chars(s@, k as int) == if s@[k as int] == '\n' {
                k as int
            } else {
                rfind_nl_chars(s@, k as int - 1)
            });
        }
        off += w;
        k += 1;
    }
    out
}

} // verus!
