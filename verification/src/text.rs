//! Byte-level text helpers shared by the scanner, trimmer and formatters.

use vstd::prelude::*;

verus! {

/// The byte value of `'\n'`.
pub const NL: u8 = 10;

/// The byte value of `'$'`.
pub const DOLLAR: u8 = 36;

/// The byte value of `` '`' ``.
pub const BACKTICK: u8 = 96;

/// The byte value of `':'`.
pub const COLON: u8 = 58;

/// The number of UTF-8 characters that begin in `s[i..j)`: the count of
/// bytes there that are not continuation bytes.
pub open spec fn char_count(s: Seq<u8>, i: int, j: int) -> int
    decreases j,
{
    if i < 0 || j <= i || j > s.len() {
        0
    } else {
        char_count(s, i, j - 1) + if vstd::utf8::is_continuation_byte(s[j - 1]) {
            0int
        } else {
            1int
        }
    }
}

/// Byte-for-byte equality of two slices.
pub fn bytes_eq(a: &[u8], b: &[u8]) -> (r: bool)
    ensures
        r == (a@ == b@),
{
    if a.len() != b.len() {
        assert(a@.len() != b@.len());
        return false;
    }
    let n = a.len();
    let mut i: usize = 0;
    while i < n
        invariant
            n == a@.len() == b@.len(),
            i <= n,
            forall|j: int| 0 <= j < i ==> a@[j] == b@[j],
        decreases n - i,
    {
        if a[i] != b[i] {
            return false;
        }
        i += 1;
    }
    assert(a@ =~= b@);
    true
}

/// Appends all of `piece` to `out`.
pub fn extend_bytes(out: &mut Vec<u8>, piece: &[u8])
    ensures
        final(out)@ == old(out)@ + piece@,
{
    let n = piece.len();
    let mut i: usize = 0;
    while i < n
        invariant
            n == piece@.len(),
            i <= n,
            out@ == old(out)@ + piece@.subrange(0, i as int),
        decreases n - i,
    {
        out.push(piece[i]);
        assert(out@ =~= old(out)@ + piece@.subrange(0, i + 1 as int));
        i += 1;
    }
    assert(out@ =~= old(out)@ + piece@);
}

/// Copies `src[from..to)` into a fresh vector.
pub fn copy_range(src: &[u8], from: usize, to: usize) -> (r: Vec<u8>)
    requires
        from <= to <= src@.len(),
    ensures
        r@ == src@.subrange(from as int, to as int),
{
    let mut out: Vec<u8> = Vec::new();
    let mut i: usize = from;
    while i < to
        invariant
            from <= i <= to <= src@.len(),
            out@ == src@.subrange(from as int, i as int),
        decreases to - i,
    {
        out.push(src[i]);
        assert(out@ =~= src@.subrange(from as int, i + 1 as int));
        i += 1;
    }
    out
}

/// Copies a byte vector.
pub fn clone_bytes(v: &Vec<u8>) -> (r: Vec<u8>)
    ensures
        r@ == v@,
{
    let n = v.len();
    let r = copy_range(v.as_slice(), 0, n);
    assert(v@.subrange(0, n as int) =~= v@);
    r
}

/// The decimal digits of `n`, most significant first.
pub open spec fn dec_bytes(n: nat) -> Seq<u8>
    decreases n,
{
    if n < 10 {
        seq![(48 + n) as u8]
    } else {
        dec_bytes(n / 10).push((48 + n % 10) as u8)
    }
}

/// Appends the decimal representation of `n` to `out`.
pub fn push_dec(out: &mut Vec<u8>, n: u64)
    ensures
        final(out)@ == old(out)@ + dec_bytes(n as nat),
    decreases n,
{
    if n < 10 {
        out.push(48 + (n as u8));
        assert(out@ =~= old(out)@ + dec_bytes(n as nat));
    } else {
        push_dec(out, n / 10);
        out.push(48 + ((n % 10) as u8));
        assert(out@ =~= old(out)@ + dec_bytes(n as nat));
    }
}

} // verus!
