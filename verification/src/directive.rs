//! The directive parser: interprets the content of a replace span as a
//! directive.
//!
//! A body whose first colon-separated token is `ref` is a reference
//! directive: `ref:fig:<key>`, `ref:bib:<key>` or `ref:equ:<key>`, with
//! exactly one key token; any other kind token fails with
//! `UnknownReferenceKind` and any other token count with
//! `UnexpectedReferenceArgCount`.  Every other body is a render directive:
//! `latex:<key>:<title>`, `gnuplot:<key>:<title>` and
//! `gnuplotonly:<key>:<title>` select a figure-class render with a title,
//! `equation:<key>` and `equ:<key>` an equation with a label, and anything
//! else — including a bare `equation`, an empty body, or an unrecognized
//! shape — an equation without a label, which is never an error.

use vstd::prelude::*;
use vstd::string::StringSliceAdditionalSpecFns;

use crate::error::Error;
use crate::text::{bytes_eq, clone_bytes, copy_range, COLON};

verus! {

/// What a render directive renders.
#[derive(Debug, Clone, Copy, PartialEq, Eq, Structural)]
pub enum RenderKind {
    Latex,
    Gnuplot,
    GnuplotOnly,
    Equation,
}

/// What a reference directive refers to.
#[derive(Debug, Clone, Copy, PartialEq, Eq, Structural)]
pub enum RefTarget {
    Figure,
    Equation,
    Bibliography,
}

/// The parsed intent of a replace span's content.
#[derive(Debug, Clone, PartialEq, Eq)]
pub enum Directive {
    /// Render an equation or figure.  `key` is empty when the directive
    /// carries no label; `title` is present exactly for figure-class renders.
    Render { kind: RenderKind, key: Vec<u8>, title: Option<Vec<u8>> },
    /// Resolve a cross-reference to `key`.
    Reference { target: RefTarget, key: Vec<u8> },
}

/// The mathematical model of a [`Directive`].
pub enum DirectiveM {
    Render { kind: RenderKind, key: Seq<u8>, title: Option<Seq<u8>> },
    Reference { target: RefTarget, key: Seq<u8> },
}

impl View for Directive {
    type V = DirectiveM;

    open spec fn view(&self) -> DirectiveM {
        match *self {
            Directive::Render { kind, ref key, ref title } => DirectiveM::Render {
                kind,
                key: key@,
                title: match *title {
                    Some(ref t) => Some(t@),
                    None => None,
                },
            },
            Directive::Reference { target, ref key } => DirectiveM::Reference {
                target,
                key: key@,
            },
        }
    }
}

/// The offset of the first colon at or after `i`, or the length of `s`.
pub open spec fn find_colon(s: Seq<u8>, i: int) -> int
    decreases s.len() - i,
{
    if i < 0 || i >= s.len() {
        s.len() as int
    } else if s[i] == COLON {
        i
    } else {
        find_colon(s, i + 1)
    }
}

pub proof fn lemma_find_colon(s: Seq<u8>, i: int)
    requires
        0 <= i <= s.len(),
    ensures
        i <= find_colon(s, i) <= s.len(),
        forall|j: int| i <= j < find_colon(s, i) ==> s[j] != COLON,
        find_colon(s, i) < s.len() ==> s[find_colon(s, i)] == COLON,
    decreases s.len() - i,
{
    if i < s.len() && s[i] != COLON {
        lemma_find_colon(s, i + 1);
    }
}

/// The colon-separated tokens of `s[p..]`.
pub open spec fn split_from(s: Seq<u8>, p: int) -> Seq<Seq<u8>>
    decreases s.len() - p,
    via split_from_decreases
{
    if p < 0 || p > s.len() {
        Seq::empty()
    } else {
        let c = find_colon(s, p);
        if c >= s.len() {
            seq![s.subrange(p, s.len() as int)]
        } else {
            seq![s.subrange(p, c)] + split_from(s, c + 1)
        }
    }
}

#[via_fn]
proof fn split_from_decreases(s: Seq<u8>, p: int) {
    if 0 <= p <= s.len() {
        lemma_find_colon(s, p);
    }
}

/// The colon-separated tokens of `s`.  The empty text has one empty token.
pub open spec fn split_colon(s: Seq<u8>) -> Seq<Seq<u8>> {
    split_from(s, 0)
}

/// The models of a token list.
pub open spec fn toks_view(v: Seq<Vec<u8>>) -> Seq<Seq<u8>> {
    v.map(|i: int, t: Vec<u8>| t@)
}

/// Finds the first colon at or after `p`.
fn find_colon_exec(s: &[u8], p: usize) -> (c: usize)
    requires
        p <= s@.len(),
    ensures
        p <= c <= s@.len(),
        c as int == find_colon(s@, p as int),
{
    let n = s.len();
    let mut c = p;
    while c < n && s[c] != COLON
        invariant
            p <= c <= n,
            n == s@.len(),
            find_colon(s@, p as int) == find_colon(s@, c as int),
        decreases n - c,
    {
        assert(find_colon(s@, c as int) == find_colon(s@, c + 1 as int));
        c += 1;
    }
    c
}

/// Splits `s` on colons into owned tokens.
pub fn split_colon_exec(s: &[u8]) -> (r: Vec<Vec<u8>>)
    ensures
        toks_view(r@) == split_colon(s@),
{
    let n = s.len();
    let mut out: Vec<Vec<u8>> = Vec::new();
    let mut p: usize = 0;
    let mut c = find_colon_exec(s, 0);
    while c < n
        invariant
            p <= n == s@.len(),
            p <= c <= n,
            c as int == find_colon(s@, p as int),
            toks_view(out@) + split_from(s@, p as int) =~= split_from(s@, 0),
        decreases n - p,
    {
        let ghost before = toks_view(out@);
        out.push(copy_range(s, p, c));
        proof {
            assert(toks_view(out@) =~= before + seq![s@.subrange(p as int, c as int)]);
            assert(split_from(s@, p as int) =~= seq![s@.subrange(p as int, c as int)] + split_from(
                s@,
                c + 1 as int,
            ));
        }
        p = c + 1;
        c = find_colon_exec(s, p);
    }
    let ghost before = toks_view(out@);
    out.push(copy_range(s, p, n));
    proof {
        assert(split_from(s@, p as int) =~= seq![s@.subrange(p as int, n as int)]);
        assert(toks_view(out@) =~= before + seq![s@.subrange(p as int, n as int)]);
        assert(toks_view(out@) =~= split_from(s@, 0));
    }
    out
}

/// What parsing a directive body yields: a directive, or one of the two
/// parse errors.
pub enum ParseM {
    Dir(DirectiveM),
    UnknownKind(Seq<u8>),
    BadCount(int),
}

/// The parse of a directive body, per the module rules.
pub open spec fn parse_spec(body: Seq<u8>) -> ParseM {
    let toks = split_colon(body);
    if toks.len() >= 2 && toks[0] == "ref".spec_bytes() {
        let rest = toks.subrange(1, toks.len() as int);
        if rest.len() == 2 {
            if rest[0] == "fig".spec_bytes() {
                ParseM::Dir(DirectiveM::Reference { target: RefTarget::Figure, key: rest[1] })
            } else if rest[0] == "bib".spec_bytes() {
                ParseM::Dir(DirectiveM::Reference { target: RefTarget::Bibliography, key: rest[1] })
            } else if rest[0] == "equ".spec_bytes() {
                ParseM::Dir(DirectiveM::Reference { target: RefTarget::Equation, key: rest[1] })
            } else {
                ParseM::UnknownKind(rest[0])
            }
        } else {
            ParseM::BadCount(rest.len() as int)
        }
    } else {
        if toks.len() == 3 && toks[0] == "latex".spec_bytes() {
            ParseM::Dir(DirectiveM::Render { kind: RenderKind::Latex, key: toks[1], title: Some(toks[2]) })
        } else if toks.len() == 3 && toks[0] == "gnuplot".spec_bytes() {
            ParseM::Dir(DirectiveM::Render { kind: RenderKind::Gnuplot, key: toks[1], title: Some(toks[2]) })
        } else if toks.len() == 3 && toks[0] == "gnuplotonly".spec_bytes() {
            ParseM::Dir(DirectiveM::Render { kind: RenderKind::GnuplotOnly, key: toks[1], title: Some(toks[2]) })
        } else if toks.len() == 2 && (toks[0] == "equation".spec_bytes() || toks[0] == "equ".spec_bytes()) {
            ParseM::Dir(DirectiveM::Render { kind: RenderKind::Equation, key: toks[1], title: None })
        } else {
            ParseM::Dir(DirectiveM::Render { kind: RenderKind::Equation, key: Seq::empty(), title: None })
        }
    }
}

/// Parses a directive body, exactly as [`parse_spec`] describes; the two
/// error variants carry `lineno`.
pub fn parse_directive(body: &[u8], lineno: usize) -> (r: Result<Directive, Error>)
    ensures
        match parse_spec(body@) {
            ParseM::Dir(d) => r matches Ok(x) && x@ == d,
            ParseM::UnknownKind(k) => r matches Err(Error::UnknownReferenceKind {
                kind: ek,
                lineno: el,
            }) && ek@ == k && el == lineno,
            ParseM::BadCount(c) => r matches Err(Error::UnexpectedReferenceArgCount {
                count: ec,
                lineno: el,
            }) && ec as int == c && el == lineno,
        },
{
    let toks = split_colon_exec(body);
    let n = toks.len();
    proof {
        assert(toks_view(toks@) == split_colon(body@));
        assert forall|k: int| 0 <= k < toks@.len() implies (#[trigger] toks@[k])@ == split_colon(
            body@,
        )[k] by {}
    }
    if n >= 2 && bytes_eq(toks[0].as_slice(), "ref".as_bytes()) {
        proof {
            assert(split_colon(body@).subrange(1, split_colon(body@).len() as int).len() == n
                - 1);
            assert forall|k: int| 0 <= k < n - 1 implies #[trigger] split_colon(body@).subrange(
                1,
                split_colon(body@).len() as int,
            )[k] == toks@[k + 1]@ by {}
        }
        if n - 1 == 2 {
            if bytes_eq(toks[1].as_slice(), "fig".as_bytes()) {
                Ok(Directive::Reference { target: RefTarget::Figure, key: clone_bytes(&toks[2]) })
            } else if bytes_eq(toks[1].as_slice(), "bib".as_bytes()) {
                Ok(
                    Directive::Reference {
                        target: RefTarget::Bibliography,
                        key: clone_bytes(&toks[2]),
                    },
                )
            } else if bytes_eq(toks[1].as_slice(), "equ".as_bytes()) {
                Ok(Directive::Reference { target: RefTarget::Equation, key: clone_bytes(&toks[2]) })
            } else {
                Err(Error::UnknownReferenceKind { kind: clone_bytes(&toks[1]), lineno })
            }
        } else {
            Err(Error::UnexpectedReferenceArgCount { count: n - 1, lineno })
        }
    } else {
        if n == 3 && bytes_eq(toks[0].as_slice(), "latex".as_bytes()) {
            Ok(
                Directive::Render {
                    kind: RenderKind::Latex,
                    key: clone_bytes(&toks[1]),
                    title: Some(clone_bytes(&toks[2])),
                },
            )
        } else if n == 3 && bytes_eq(toks[0].as_slice(), "gnuplot".as_bytes()) {
            Ok(
                Directive::Render {
                    kind: RenderKind::Gnuplot,
                    key: clone_bytes(&toks[1]),
                    title: Some(clone_bytes(&toks[2])),
                },
            )
        } else if n == 3 && bytes_eq(toks[0].as_slice(), "gnuplotonly".as_bytes()) {
            Ok(
                Directive::Render {
                    kind: RenderKind::GnuplotOnly,
                    key: clone_bytes(&toks[1]),
                    title: Some(clone_bytes(&toks[2])),
                },
            )
        } else if n == 2 && (bytes_eq(toks[0].as_slice(), "equation".as_bytes()) || bytes_eq(
            toks[0].as_slice(),
            "equ".as_bytes(),
        )) {
            Ok(
                Directive::Render {
                    kind: RenderKind::Equation,
                    key: clone_bytes(&toks[1]),
                    title: None,
                },
            )
        } else {
            Ok(Directive::Render { kind: RenderKind::Equation, key: Vec::new(), title: None })
        }
    }
}

} // verus!
