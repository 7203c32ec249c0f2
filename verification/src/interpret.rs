//! The directive interpreter: decides what each replace span becomes, keeps
//! the per-chapter counters and the reference table, and consults the
//! fragment cache.
//!
//! Rendering itself is the caller's job: on a cache miss the interpreter
//! hands out a [`PendingRender`]; the caller runs the external renderer and
//! hands the artifact path back through [`apply_rendered`], which records the
//! artifact in the cache, registers the directive's key, and formats the
//! substitution markup.  On a cache hit the renderer is not involved at all.

use vstd::prelude::*;
use vstd::string::StringSliceAdditionalSpecFns;

use crate::cache::{fingerprint, fingerprint_of, FragmentCache};
use crate::directive::{
    parse_directive, parse_spec, Directive, DirectiveM, ParseM, RenderKind,
};
use crate::error::Error;
use crate::format::{format_reference, reference_markup, Replacement, ReplacementM};
use crate::refs::RefTable;
use crate::segment::{Content, ContentM, Tagged};
use crate::text::{clone_bytes, dec_bytes, extend_bytes, push_dec};
use crate::trim::trim_spec;
use crate::types::SupportedRenderer;

verus! {

/// The interpreter's mutable state: the per-chapter figure and equation
/// counters, the per-document reference table, the per-run fragment cache,
/// and the append-only list of used artifacts.
#[derive(Debug, Clone)]
pub struct InterpreterState {
    /// Figures numbered so far in the current chapter.
    pub figures_counter: usize,
    /// Equations numbered so far in the current chapter.
    pub equations_counter: usize,
    /// Key-to-label bindings of the current document pass.
    pub references: RefTable,
    /// Fingerprint-to-artifact bindings of the current run.
    pub cache: FragmentCache,
    /// Artifact paths used so far, for the later collection step.
    pub used_fragments: Vec<String>,
}

/// The mathematical model of the interpreter state.
pub struct StateM {
    pub figures: int,
    pub equations: int,
    pub refs: Map<Seq<u8>, Seq<u8>>,
    pub cache: Map<Seq<u8>, Seq<char>>,
    pub used: Seq<Seq<char>>,
}

/// The models of a list of artifact paths.
pub open spec fn strs_view(v: Seq<String>) -> Seq<Seq<char>> {
    v.map(|i: int, s: String| s@)
}

impl View for InterpreterState {
    type V = StateM;

    open spec fn view(&self) -> StateM {
        StateM {
            figures: self.figures_counter as int,
            equations: self.equations_counter as int,
            refs: self.references@,
            cache: self.cache@,
            used: strs_view(self.used_fragments@),
        }
    }
}

impl InterpreterState {
    /// A fresh state: zero counters, empty table, empty cache.
    pub fn new() -> (r: InterpreterState)
        ensures
            r@.figures == 0,
            r@.equations == 0,
            r@.refs == Map::<Seq<u8>, Seq<u8>>::empty(),
            r@.cache == Map::<Seq<u8>, Seq<char>>::empty(),
            r@.used == Seq::<Seq<char>>::empty(),
    {
        let r = InterpreterState {
            figures_counter: 0,
            equations_counter: 0,
            references: RefTable::new(),
            cache: FragmentCache::new(),
            used_fragments: Vec::new(),
        };
        proof {
            assert(strs_view(r.used_fragments@) =~= Seq::<Seq<char>>::empty());
        }
        r
    }

    /// Starts a new chapter: the counters restart at zero, the table, cache
    /// and used list carry over.
    pub fn begin_chapter(&mut self)
        ensures
            final(self)@ == (StateM {
                figures: 0,
                equations: 0,
                ..old(self)@
            }),
    {
        self.figures_counter = 0;
        self.equations_counter = 0;
    }
}

/// The label a keyed figure gets: `Figure <chapter><counter>`.
pub open spec fn fig_label(head: Seq<u8>, counter: nat) -> Seq<u8> {
    "Figure ".spec_bytes() + head + dec_bytes(counter)
}

/// The label a keyed equation gets: `<chapter><counter>`.
pub open spec fn equ_label(head: Seq<u8>, counter: nat) -> Seq<u8> {
    head + dec_bytes(counter)
}

/// What interpreting a successful render does to the state, and the markup it
/// emits: the artifact is recorded as used; a keyed directive bumps the
/// class-appropriate counter and binds the key to the synthesized label; the
/// markup is the formatter's for the directive's class (an unkeyed equation
/// formats as an inline equation when its span is inline).
pub open spec fn add_object_spec(
    st: StateM,
    rep: ReplacementM,
    refer: Seq<u8>,
    title: Option<Seq<u8>>,
    head: Seq<u8>,
    renderer: SupportedRenderer,
) -> (StateM, Seq<u8>) {
    let stu = StateM { used: st.used.push(rep.svg), ..st };
    let image = crate::format::is_image_target(renderer);
    match title {
        Some(t) => {
            if refer.len() > 0 {
                let c = st.figures + 1;
                (
                    StateM {
                        figures: c,
                        refs: st.refs.insert(refer, fig_label(head, c as nat)),
                        ..stu
                    },
                    if image {
                        crate::format::figure_markup(rep, refer, head, c as nat, t)
                    } else {
                        crate::format::math_markup(rep)
                    },
                )
            } else {
                (
                    stu,
                    if image {
                        crate::format::figure_markup(rep, refer, head, st.figures as nat, t)
                    } else {
                        crate::format::math_markup(rep)
                    },
                )
            }
        },
        None => {
            if refer.len() > 0 {
                let c = st.equations + 1;
                (
                    StateM {
                        equations: c,
                        refs: st.refs.insert(refer, equ_label(head, c as nat)),
                        ..stu
                    },
                    if image {
                        crate::format::equation_block_markup(rep, refer, head, c as nat)
                    } else {
                        crate::format::math_markup(rep)
                    },
                )
            } else {
                (
                    stu,
                    if rep.content.start_del.spec_is_block() {
                        if image {
                            crate::format::equation_markup(rep)
                        } else {
                            crate::format::math_markup(rep)
                        }
                    } else {
                        if image {
                            crate::format::inline_equation_markup(rep)
                        } else {
                            crate::format::inline_math_markup(rep)
                        }
                    },
                )
            }
        },
    }
}

/// Records the rendered artifact as used, registers the directive's key and
/// synthesizes its label, and formats the substitution markup, exactly as
/// [`add_object_spec`] describes.
pub fn add_object(
    state: &mut InterpreterState,
    replacement: &Replacement,
    refer: &[u8],
    title: Option<&[u8]>,
    head_num: &[u8],
    renderer: SupportedRenderer,
) -> (r: Vec<u8>)
    requires
        old(state).figures_counter < usize::MAX,
        old(state).equations_counter < usize::MAX,
        replacement.content.s@.len() < usize::MAX,
    ensures
        ({
            let so = add_object_spec(
                old(state)@,
                replacement@,
                refer@,
                match title {
                    Some(t) => Some(t@),
                    None => None,
                },
                head_num@,
                renderer,
            );
            final(state)@ == so.0 && r@ == so.1
        }),
{
    let ghost used0 = strs_view(state.used_fragments@);
    state.used_fragments.push(replacement.svg.clone());
    proof {
        assert(strs_view(state.used_fragments@) =~= used0.push(replacement.svg@));
    }
    match title {
        Some(t) => {
            if refer.len() > 0 {
                state.figures_counter += 1;
                let mut label: Vec<u8> = Vec::new();
                extend_bytes(&mut label, "Figure ".as_bytes());
                extend_bytes(&mut label, head_num);
                push_dec(&mut label, state.figures_counter as u64);
                proof {
                    assert(label@ =~= fig_label(head_num@, state.figures_counter as nat));
                }
                state.references.insert(
                    crate::text::copy_range(refer, 0, refer.len()),
                    label,
                );
                proof {
                    assert(refer@.subrange(0, refer@.len() as int) =~= refer@);
                }
                crate::format::format_figure(
                    replacement,
                    refer,
                    head_num,
                    state.figures_counter,
                    t,
                    renderer,
                )
            } else {
                crate::format::format_figure(
                    replacement,
                    refer,
                    head_num,
                    state.figures_counter,
                    t,
                    renderer,
                )
            }
        },
        None => {
            if refer.len() > 0 {
                state.equations_counter += 1;
                let mut label: Vec<u8> = Vec::new();
                extend_bytes(&mut label, head_num);
                push_dec(&mut label, state.equations_counter as u64);
                proof {
                    assert(label@ =~= equ_label(head_num@, state.equations_counter as nat));
                }
                state.references.insert(
                    crate::text::copy_range(refer, 0, refer.len()),
                    label,
                );
                proof {
                    assert(refer@.subrange(0, refer@.len() as int) =~= refer@);
                }
                crate::format::format_equation_block(
                    replacement,
                    refer,
                    head_num,
                    state.equations_counter,
                    renderer,
                )
            } else {
                if replacement.content.start_del.is_block() {
                    crate::format::format_equation(replacement, renderer)
                } else {
                    crate::format::format_inline_equation(replacement, renderer)
                }
            }
        },
    }
}

/// A render the caller must perform: everything the external renderer needs,
/// and everything [`apply_rendered`] needs afterwards.
#[derive(Debug, Clone)]
pub struct PendingRender {
    /// The content fingerprint, the cache key of the artifact.
    pub fingerprint: Vec<u8>,
    /// What to render.
    pub kind: RenderKind,
    /// The numeric scale, in tenths.
    pub scale_tenths: u32,
    /// The replace span being substituted.
    pub content: Content,
    /// The trimmed directive body: the source to render.
    pub body: Vec<u8>,
    /// The block span's parameter string, if any.
    pub params: Option<Vec<u8>>,
    /// The directive's key (empty when unkeyed).
    pub key: Vec<u8>,
    /// The directive's title, present for figure-class renders.
    pub title: Option<Vec<u8>>,
    /// The span's 0-based line number, for diagnostics.
    pub lineno: usize,
}

/// The mathematical model of a [`PendingRender`].
pub struct PendingM {
    pub fp: Seq<u8>,
    pub kind: RenderKind,
    pub scale: u32,
    pub content: ContentM,
    pub body: Seq<u8>,
    pub params: Option<Seq<u8>>,
    pub key: Seq<u8>,
    pub title: Option<Seq<u8>>,
    pub lineno: int,
}

impl View for PendingRender {
    type V = PendingM;

    open spec fn view(&self) -> PendingM {
        PendingM {
            fp: self.fingerprint@,
            kind: self.kind,
            scale: self.scale_tenths,
            content: self.content@,
            body: self.body@,
            params: match self.params {
                Some(ref p) => Some(p@),
                None => None,
            },
            key: self.key@,
            title: match self.title {
                Some(ref t) => Some(t@),
                None => None,
            },
            lineno: self.lineno as int,
        }
    }
}

/// What interpreting a span asks of the caller: emit this markup, or render
/// first.
#[derive(Debug)]
pub enum SpanAction {
    /// Substitute this text for the span.
    Emit(Vec<u8>),
    /// Run the external renderer, then finish with [`apply_rendered`].
    NeedsRender(PendingRender),
}

/// The model of an interpretation outcome.
pub enum OutcomeM {
    Emit(Seq<u8>),
    Need(PendingM),
    Fail(FailM),
}

/// The model of an interpretation failure.
pub enum FailM {
    Unknown(Seq<u8>, int),
    Count(int, int),
    Invalid(Seq<u8>, int),
}

/// The error value a failure model describes.
pub open spec fn err_matches(e: Error, f: FailM) -> bool {
    match f {
        FailM::Unknown(k, l) => e matches Error::UnknownReferenceKind { kind, lineno } && kind@
            == k && lineno as int == l,
        FailM::Count(n, l) => e matches Error::UnexpectedReferenceArgCount { count, lineno }
            && count as int == n && lineno as int == l,
        FailM::Invalid(k, l) => e matches Error::InvalidReference { to, lineno } && to@ == k
            && lineno as int == l,
    }
}

/// The render scale of a directive: keyed equations render at 1.6, unkeyed
/// ones at 1.3, figures at 1.0 (all in tenths).
pub open spec fn scale_spec(kind: RenderKind, key: Seq<u8>) -> u32 {
    if kind is Equation {
        if key.len() > 0 {
            16
        } else {
            13
        }
    } else {
        10
    }
}

/// The directive text of a replace span: for a block span the parameter
/// string of the opening line, for an inline span the trimmed body itself.
pub open spec fn directive_text(c: ContentM, block: bool) -> Seq<u8> {
    let t = trim_spec(c.text, c.start_del, c.end_del);
    if block {
        match t.params {
            Some(p) => p,
            None => Seq::empty(),
        }
    } else {
        t.body
    }
}

/// What interpreting a replace span does to the state, and its outcome: a
/// reference directive resolves against the table (or fails); a render
/// directive is served from the cache when its fingerprint is known and
/// otherwise handed to the caller as a pending render.
pub open spec fn transform_spec(
    st: StateM,
    c: ContentM,
    head: Seq<u8>,
    renderer: SupportedRenderer,
    block: bool,
) -> (StateM, OutcomeM) {
    let lineno = c.start_line;
    let t = trim_spec(c.text, c.start_del, c.end_del);
    match parse_spec(directive_text(c, block)) {
        ParseM::UnknownKind(k) => (st, OutcomeM::Fail(FailM::Unknown(k, lineno))),
        ParseM::BadCount(n) => (st, OutcomeM::Fail(FailM::Count(n, lineno))),
        ParseM::Dir(d) => match d {
            DirectiveM::Reference { target, key } => if st.refs.contains_key(key) {
                (st, OutcomeM::Emit(reference_markup(target, key, st.refs[key])))
            } else {
                (st, OutcomeM::Fail(FailM::Invalid(key, lineno)))
            },
            DirectiveM::Render { kind, key, title } => {
                let scale = scale_spec(kind, key);
                let fp = fingerprint_of(kind, renderer, scale, t.body);
                if st.cache.contains_key(fp) {
                    let rep = ReplacementM { content: c, intermediate: None, svg: st.cache[fp] };
                    let so = add_object_spec(st, rep, key, title, head, renderer);
                    (so.0, OutcomeM::Emit(so.1))
                } else {
                    (
                        st,
                        OutcomeM::Need(
                            PendingM {
                                fp,
                                kind,
                                scale,
                                content: c,
                                body: t.body,
                                params: t.params,
                                key,
                                title,
                                lineno,
                            },
                        ),
                    )
                }
            },
        },
    }
}

/// Interprets a replace span's content, exactly as [`transform_spec`]
/// describes; `block` selects where the directive text comes from.
fn transform_content(
    content: &Content,
    block: bool,
    head_num: &[u8],
    renderer: SupportedRenderer,
    state: &mut InterpreterState,
) -> (r: Result<SpanAction, Error>)
    requires
        content.s@.len() < usize::MAX,
        old(state).figures_counter < usize::MAX,
        old(state).equations_counter < usize::MAX,
    ensures
        ({
            let so = transform_spec(old(state)@, content@, head_num@, renderer, block);
            &&& final(state)@ == so.0
            &&& match so.1 {
                OutcomeM::Emit(m) => r matches Ok(SpanAction::Emit(v)) && v@ == m,
                OutcomeM::Need(p) => r matches Ok(SpanAction::NeedsRender(q)) && q@ == p,
                OutcomeM::Fail(f) => r matches Err(e) && err_matches(e, f),
            }
        }),
{
    let lineno = content.start.lineno;
    let t = content.trimmed();
    let dtext: Vec<u8> = if block {
        match t.parameters {
            Some(ref p) => clone_bytes(p),
            None => Vec::new(),
        }
    } else {
        clone_bytes(&t.trimmed)
    };
    proof {
        assert(dtext@ =~= directive_text(content@, block));
    }
    match parse_directive(dtext.as_slice(), lineno) {
        Err(e) => Err(e),
        Ok(d) => match d {
            Directive::Reference { target, key } => match state.references.get(key.as_slice()) {
                Some(label) => Ok(
                    SpanAction::Emit(format_reference(target, key.as_slice(), label.as_slice())),
                ),
                None => Err(Error::InvalidReference { to: key, lineno }),
            },
            Directive::Render { kind, key, title } => {
                let scale: u32 = match kind {
                    RenderKind::Equation => if key.len() > 0 {
                        16
                    } else {
                        13
                    },
                    _ => 10,
                };
                let fp = fingerprint(kind, renderer, scale, t.trimmed.as_slice());
                match state.cache.lookup(fp.as_slice()) {
                    Some(path) => {
                        let rep = Replacement {
                            content: content.duplicate(),
                            intermediate: None,
                            svg: path,
                        };
                        let title_arg: Option<&[u8]> = match title {
                            Some(ref tt) => Some(tt.as_slice()),
                            None => None,
                        };
                        let m = add_object(
                            state,
                            &rep,
                            key.as_slice(),
                            title_arg,
                            head_num,
                            renderer,
                        );
                        Ok(SpanAction::Emit(m))
                    },
                    None => Ok(
                        SpanAction::NeedsRender(
                            PendingRender {
                                fingerprint: fp,
                                kind,
                                scale_tenths: scale,
                                content: content.duplicate(),
                                body: t.trimmed,
                                params: t.parameters,
                                key,
                                title,
                                lineno,
                            },
                        ),
                    ),
                }
            },
        },
    }
}

/// Interprets a block replace span: the directive text is the parameter
/// string of the opening delimiter line.
pub fn transform_block_as_needed(
    content: &Content,
    head_num: &[u8],
    renderer: SupportedRenderer,
    state: &mut InterpreterState,
) -> (r: Result<SpanAction, Error>)
    requires
        content.s@.len() < usize::MAX,
        old(state).figures_counter < usize::MAX,
        old(state).equations_counter < usize::MAX,
    ensures
        ({
            let so = transform_spec(old(state)@, content@, head_num@, renderer, true);
            &&& final(state)@ == so.0
            &&& match so.1 {
                OutcomeM::Emit(m) => r matches Ok(SpanAction::Emit(v)) && v@ == m,
                OutcomeM::Need(p) => r matches Ok(SpanAction::NeedsRender(q)) && q@ == p,
                OutcomeM::Fail(f) => r matches Err(e) && err_matches(e, f),
            }
        }),
{
    transform_content(content, true, head_num, renderer, state)
}

/// Interprets an inline replace span: the directive text is the trimmed body
/// itself.
pub fn transform_inline_as_needed(
    content: &Content,
    head_num: &[u8],
    renderer: SupportedRenderer,
    state: &mut InterpreterState,
) -> (r: Result<SpanAction, Error>)
    requires
        content.s@.len() < usize::MAX,
        old(state).figures_counter < usize::MAX,
        old(state).equations_counter < usize::MAX,
    ensures
        ({
            let so = transform_spec(old(state)@, content@, head_num@, renderer, false);
            &&& final(state)@ == so.0
            &&& match so.1 {
                OutcomeM::Emit(m) => r matches Ok(SpanAction::Emit(v)) && v@ == m,
                OutcomeM::Need(p) => r matches Ok(SpanAction::NeedsRender(q)) && q@ == p,
                OutcomeM::Fail(f) => r matches Err(e) && err_matches(e, f),
            }
        }),
{
    transform_content(content, false, head_num, renderer, state)
}

/// What interpreting any span does: a keep span passes through unchanged; a
/// replace span goes through [`transform_spec`], as a block or inline span by
/// its opening delimiter.
pub open spec fn span_step_spec(
    st: StateM,
    sp: crate::segment::SpanM,
    head: Seq<u8>,
    renderer: SupportedRenderer,
) -> (StateM, OutcomeM) {
    if !sp.replace {
        (st, OutcomeM::Emit(sp.c.text))
    } else {
        transform_spec(st, sp.c, head, renderer, sp.c.start_del.spec_is_block())
    }
}

/// Interprets one span of a chapter, exactly as [`span_step_spec`] describes.
pub fn transform_span(
    span: &Tagged,
    head_num: &[u8],
    renderer: SupportedRenderer,
    state: &mut InterpreterState,
) -> (r: Result<SpanAction, Error>)
    requires
        span@.c.text.len() < usize::MAX,
        old(state).figures_counter < usize::MAX,
        old(state).equations_counter < usize::MAX,
    ensures
        ({
            let so = span_step_spec(old(state)@, span@, head_num@, renderer);
            &&& final(state)@ == so.0
            &&& match so.1 {
                OutcomeM::Emit(m) => r matches Ok(SpanAction::Emit(v)) && v@ == m,
                OutcomeM::Need(p) => r matches Ok(SpanAction::NeedsRender(q)) && q@ == p,
                OutcomeM::Fail(f) => r matches Err(e) && err_matches(e, f),
            }
        }),
{
    if !span.is_replace() {
        Ok(SpanAction::Emit(clone_bytes(&span.content_ref().s)))
    } else {
        let content = span.content_ref();
        if content.start_del.is_block() {
            transform_content(content, true, head_num, renderer, state)
        } else {
            transform_content(content, false, head_num, renderer, state)
        }
    }
}

/// Finishes a pending render with the artifact the external renderer
/// produced: records it in the cache and as used, registers the directive's
/// key, and formats the substitution markup.
pub fn apply_rendered(
    state: &mut InterpreterState,
    pending: &PendingRender,
    svg: String,
    intermediate: Option<Vec<u8>>,
    head_num: &[u8],
    renderer: SupportedRenderer,
) -> (r: Vec<u8>)
    requires
        pending.content.s@.len() < usize::MAX,
        old(state).figures_counter < usize::MAX,
        old(state).equations_counter < usize::MAX,
    ensures
        ({
            let st1 = StateM {
                cache: old(state)@.cache.insert(pending.fingerprint@, svg@),
                ..old(state)@
            };
            let rep = ReplacementM {
                content: pending.content@,
                intermediate: match intermediate {
                    Some(i) => Some(i@),
                    None => None,
                },
                svg: svg@,
            };
            let so = add_object_spec(
                st1,
                rep,
                pending.key@,
                pending@.title,
                head_num@,
                renderer,
            );
            final(state)@ == so.0 && r@ == so.1
        }),
{
    state.cache.insert(clone_bytes(&pending.fingerprint), svg.clone());
    let rep = Replacement { content: pending.content.duplicate(), intermediate, svg };
    let title_arg: Option<&[u8]> = match pending.title {
        Some(ref t) => Some(t.as_slice()),
        None => None,
    };
    add_object(state, &rep, pending.key.as_slice(), title_arg, head_num, renderer)
}

/// The pending render of an outcome (meaningful only when the outcome is
/// `Need`).
pub open spec fn need_of(o: OutcomeM) -> PendingM {
    match o {
        OutcomeM::Need(p) => p,
        _ => arbitrary(),
    }
}

/// Cache idempotence: once a pending render's artifact has been recorded
/// through [`apply_rendered`], interpreting a byte-identical span again (same
/// body, kind and renderer target) is served from the cache — the outcome is
/// an emission, never a second render request — and the cache still binds the
/// fingerprint to the very artifact the first render produced.
pub proof fn lemma_cache_idempotent(
    st: StateM,
    c: ContentM,
    head: Seq<u8>,
    head2: Seq<u8>,
    renderer: SupportedRenderer,
    block: bool,
    svg: Seq<char>,
    intermediate: Option<Seq<u8>>,
)
    requires
        transform_spec(st, c, head, renderer, block).1 is Need,
    ensures
        ({
            let p = need_of(transform_spec(st, c, head, renderer, block).1);
            let st1 = StateM { cache: st.cache.insert(p.fp, svg), ..st };
            let rep = ReplacementM { content: p.content, intermediate, svg };
            let st2 = add_object_spec(st1, rep, p.key, p.title, head, renderer).0;
            &&& st2.cache.contains_key(p.fp) && st2.cache[p.fp] == svg
            &&& transform_spec(st2, c, head2, renderer, block).1 is Emit
            &&& transform_spec(st2, c, head2, renderer, block).1 == OutcomeM::Emit(
                add_object_spec(
                    st2,
                    ReplacementM { content: c, intermediate: None, svg },
                    p.key,
                    p.title,
                    head2,
                    renderer,
                ).1,
            )
        }),
{
    let p = need_of(transform_spec(st, c, head, renderer, block).1);
    let st1 = StateM { cache: st.cache.insert(p.fp, svg), ..st };
    let rep = ReplacementM { content: p.content, intermediate, svg };
    let st2 = add_object_spec(st1, rep, p.key, p.title, head, renderer).0;
    assert(st2.cache == st1.cache);
    assert(st2.cache[p.fp] == svg);
}

/// Reference round-trip: a keyed equation render binds its key to the label
/// `<chapter><counter>`; a later `ref:equ:` reference to the same key, with
/// no intervening write to that key, resolves to exactly that label, rendered
/// as `Eq. (<label>)`.
pub proof fn lemma_reference_round_trip(
    st: StateM,
    rep: ReplacementM,
    key: Seq<u8>,
    head: Seq<u8>,
    renderer: SupportedRenderer,
    st2: StateM,
    c2: ContentM,
    head2: Seq<u8>,
    renderer2: SupportedRenderer,
    block2: bool,
)
    requires
        key.len() > 0,
        st2.refs == add_object_spec(st, rep, key, None, head, renderer).0.refs,
        parse_spec(directive_text(c2, block2)) == ParseM::Dir(
            DirectiveM::Reference { target: crate::directive::RefTarget::Equation, key },
        ),
    ensures
        ({
            let label = equ_label(head, (st.equations + 1) as nat);
            &&& add_object_spec(st, rep, key, None, head, renderer).0.refs[key] == label
            &&& transform_spec(st2, c2, head2, renderer2, block2) == (
                st2,
                OutcomeM::Emit(
                    reference_markup(crate::directive::RefTarget::Equation, key, label),
                ),
            )
        }),
{
    let label = equ_label(head, (st.equations + 1) as nat);
    assert(add_object_spec(st, rep, key, None, head, renderer).0.refs == st.refs.insert(
        key,
        label,
    ));
    assert(st2.refs.contains_key(key));
    assert(st2.refs[key] == label);
}

} // verus!
