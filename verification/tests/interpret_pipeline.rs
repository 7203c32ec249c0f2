use mdbook_scientific::cache::fingerprint;
use mdbook_scientific::directive::{RefTarget, RenderKind};
use mdbook_scientific::error::Error;
use mdbook_scientific::format::{
    format_equation, format_inline_equation, format_reference, Replacement,
};
use mdbook_scientific::interpret::{
    apply_rendered, transform_span, InterpreterState, SpanAction,
};
use mdbook_scientific::refs::bib_citation_table;
use mdbook_scientific::segment::{chapter_spans, ByteRange, Content};
use mdbook_scientific::types::{DelimiterKind, Dollar, LiCo, SupportedRenderer};

/// Runs one chapter through the span pipeline, standing in for the external
/// renderer: every pending render gets a fresh `frag<n>.svg` artifact.
fn process(
    text: &str,
    head: &str,
    renderer: SupportedRenderer,
    state: &mut InterpreterState,
    renders: &mut usize,
) -> Result<String, Error> {
    state.begin_chapter();
    let mut out: Vec<u8> = Vec::new();
    for span in chapter_spans(text.as_bytes()) {
        match transform_span(&span, head.as_bytes(), renderer, state)? {
            SpanAction::Emit(bytes) => out.extend(bytes),
            SpanAction::NeedsRender(pending) => {
                *renders += 1;
                let svg = format!("frag{}.svg", *renders);
                let bytes = apply_rendered(state, &pending, svg, None, head.as_bytes(), renderer);
                out.extend(bytes);
            }
        }
    }
    Ok(String::from_utf8(out).unwrap())
}

#[test]
fn reference_round_trip_gets_the_assigned_label() {
    // A keyed equation in chapter "1.2." becomes equation 1, so `myeq` maps
    // to "1.2.1" and the later reference renders `Eq. (1.2.1)`.
    let text = "$$equ:myeq\n\\epsilon\n$$\nsee $ref:equ:myeq$ here\n";
    let mut state = InterpreterState::new();
    let mut renders = 0;
    let out = process(text, "1.2.", SupportedRenderer::Html, &mut state, &mut renders).unwrap();
    assert_eq!(renders, 1);
    assert_eq!(
        state.references.get(b"myeq").as_deref(),
        Some("1.2.1".as_bytes())
    );
    assert!(out.contains("<a class=\"equ_ref\" href='#myeq'>Eq. (1.2.1)</a>"), "{out}");
}

#[test]
fn cache_idempotence_renders_identical_content_once() {
    // Two byte-identical inline equations: the renderer runs once and both
    // substitutions embed the same artifact path.
    let text = "a $x$ b $x$ c";
    let mut state = InterpreterState::new();
    let mut renders = 0;
    let out = process(text, "", SupportedRenderer::Html, &mut state, &mut renders).unwrap();
    assert_eq!(renders, 1);
    assert_eq!(out.matches("frag1.svg").count(), 2, "{out}");
    assert_eq!(state.used_fragments, vec!["frag1.svg".to_string(), "frag1.svg".to_string()]);
}

#[test]
fn cache_distinguishes_different_content() {
    let text = "$x$ $y$";
    let mut state = InterpreterState::new();
    let mut renders = 0;
    let out = process(text, "", SupportedRenderer::Html, &mut state, &mut renders).unwrap();
    assert_eq!(renders, 2);
    assert!(out.contains("frag1.svg") && out.contains("frag2.svg"), "{out}");
}

#[test]
fn cache_persists_across_chapters_and_counters_do_not() {
    let mut state = InterpreterState::new();
    let mut renders = 0;
    let a = process(
        "$$equ:one\nE\n$$\n",
        "1.",
        SupportedRenderer::Html,
        &mut state,
        &mut renders,
    )
    .unwrap();
    let b = process(
        "$$equ:two\nE\n$$\n",
        "2.",
        SupportedRenderer::Html,
        &mut state,
        &mut renders,
    )
    .unwrap();
    // Same body, kind and target: the artifact is reused across chapters.
    assert_eq!(renders, 1);
    assert!(a.contains("frag1.svg") && b.contains("frag1.svg"));
    // Counters restart per chapter: both equations are number 1 of their
    // chapter.
    assert_eq!(state.references.get(b"one").as_deref(), Some("1.1".as_bytes()));
    assert_eq!(state.references.get(b"two").as_deref(), Some("2.1".as_bytes()));
}

#[test]
fn figure_directive_registers_and_numbers() {
    let text = "$$latex:fig1:My Title\nsome latex\n$$\n$ref:fig:fig1$\n";
    let mut state = InterpreterState::new();
    let mut renders = 0;
    let out = process(text, "3.", SupportedRenderer::Html, &mut state, &mut renders).unwrap();
    assert_eq!(renders, 1);
    assert!(out.contains("<figure id=\"fig1\" class=\"figure\">"), "{out}");
    assert!(out.contains("<figcaption>Figure 3.1 My Title</figcaption>"), "{out}");
    assert!(out.contains("<a class=\"fig_ref\" href='#fig1'>Figure 3.1</a>"), "{out}");
}

#[test]
fn bibliography_reference_markup() {
    let mut state = InterpreterState::new();
    state.references = bib_citation_table(&vec![b"knuth94".to_vec(), b"lamport02".to_vec()]);
    let mut renders = 0;
    let out = process(
        "see $ref:bib:lamport02$\n",
        "",
        SupportedRenderer::Html,
        &mut state,
        &mut renders,
    )
    .unwrap();
    assert!(
        out.contains("<a class=\"bib_ref\" href='bibliography.html#lamport02'>[2]</a>"),
        "{out}"
    );
    assert_eq!(state.references.get(b"knuth94").as_deref(), Some("[1]".as_bytes()));
    assert_eq!(state.references.get(b"missing"), None);
}

#[test]
fn unresolved_reference_fails() {
    let mut state = InterpreterState::new();
    let mut renders = 0;
    let err = process(
        "x\n$ref:equ:nothere$\n",
        "",
        SupportedRenderer::Html,
        &mut state,
        &mut renders,
    )
    .unwrap_err();
    assert_eq!(err, Error::InvalidReference { to: b"nothere".to_vec(), lineno: 1 });
}

#[test]
fn unknown_reference_kind_fails_in_pipeline() {
    let mut state = InterpreterState::new();
    let mut renders = 0;
    let err = process("$ref:foo:x$", "", SupportedRenderer::Html, &mut state, &mut renders)
        .unwrap_err();
    assert_eq!(err, Error::UnknownReferenceKind { kind: b"foo".to_vec(), lineno: 0 });
}

#[test]
fn keep_text_passes_through_unchanged() {
    let mut state = InterpreterState::new();
    let mut renders = 0;
    let text = "no math here at all\n";
    let out = process(text, "", SupportedRenderer::Html, &mut state, &mut renders).unwrap();
    assert_eq!(out, text);
    assert_eq!(renders, 0);
}

#[test]
fn math_native_targets_rewrap_the_source() {
    // For LaTeX-class targets the substitution re-wraps the math source
    // instead of embedding an image.
    let mut state = InterpreterState::new();
    let mut renders = 0;
    let out = process("$a+b$", "", SupportedRenderer::Latex, &mut state, &mut renders).unwrap();
    assert_eq!(out, "$a+b$");
    let mut renders2 = 0;
    let out2 = process(
        "$$\nE = mc^2\n$$",
        "",
        SupportedRenderer::Tectonic,
        &mut state,
        &mut renders2,
    )
    .unwrap();
    assert_eq!(out2, "\\[E = mc^2\n\\]");
}

fn inline_replacement(svg: &str) -> Replacement {
    Replacement {
        content: Content {
            s: b"$z$".to_vec(),
            start: LiCo { lineno: 0, column: 0 },
            end: LiCo { lineno: 0, column: 2 },
            byte_range: ByteRange { start: 0, end: 3 },
            start_del: Dollar::Start(DelimiterKind::Inline),
            end_del: Dollar::End(DelimiterKind::Inline),
        },
        intermediate: None,
        svg: svg.to_string(),
    }
}

#[test]
fn formatter_exact_markup() {
    let rep = inline_replacement("x.svg");
    assert_eq!(
        String::from_utf8(format_inline_equation(&rep, SupportedRenderer::Html)).unwrap(),
        "<object class=\"equation_inline\" data=\"assets/x.svg\" type=\"image/svg+xml\"></object>"
    );
    assert_eq!(
        String::from_utf8(format_inline_equation(&rep, SupportedRenderer::Latex)).unwrap(),
        "$z$"
    );
    assert_eq!(
        String::from_utf8(format_equation(&rep, SupportedRenderer::Markdown)).unwrap(),
        "<div class=\"equation\"><div class=\"equation_inner\"><object data=\"assets/x.svg\" type=\"image/svg+xml\"></object></div></div>\n"
    );
    assert_eq!(
        String::from_utf8(format_reference(RefTarget::Equation, b"k", b"1.1")).unwrap(),
        "<a class=\"equ_ref\" href='#k'>Eq. (1.1)</a>"
    );
}

#[test]
fn intermediate_representation_wins_over_body() {
    let mut rep = inline_replacement("x.svg");
    rep.intermediate = Some(b"z_{int}".to_vec());
    assert_eq!(
        String::from_utf8(format_inline_equation(&rep, SupportedRenderer::Latex)).unwrap(),
        "$z_{int}$"
    );
    assert_eq!(rep.inner_str_or_intermediate(), b"z_{int}".to_vec());
}

#[test]
fn fingerprint_is_a_digest_of_the_inputs() {
    // 32 digest bytes, never the raw input; different bodies, kinds, scales
    // or targets give different fingerprints.
    let a = fingerprint(RenderKind::Equation, SupportedRenderer::Html, 13, b"x");
    assert_eq!(a.len(), 32);
    let b = fingerprint(RenderKind::Equation, SupportedRenderer::Html, 13, b"y");
    assert_ne!(a, b);
    let c = fingerprint(RenderKind::Latex, SupportedRenderer::Html, 13, b"x");
    assert_ne!(a, c);
    let d = fingerprint(RenderKind::Equation, SupportedRenderer::Latex, 13, b"x");
    assert_ne!(a, d);
    let e = fingerprint(RenderKind::Equation, SupportedRenderer::Html, 16, b"x");
    assert_ne!(a, e);
    // deterministic
    assert_eq!(a, fingerprint(RenderKind::Equation, SupportedRenderer::Html, 13, b"x"));
}

#[test]
fn labels_and_citations_with_multiple_digits() {
    let keys: Vec<Vec<u8>> = (0..12).map(|i| format!("key{i}").into_bytes()).collect();
    let table = bib_citation_table(&keys);
    assert_eq!(table.get(b"key9").as_deref(), Some("[10]".as_bytes()));
    assert_eq!(table.get(b"key11").as_deref(), Some("[12]".as_bytes()));

    // Twelve keyed equations in one chapter: the twelfth is numbered 12.
    let mut text = String::new();
    for i in 0..12 {
        text.push_str(&format!("$$equ:e{i}\nbody {i}\n$$\n"));
    }
    let mut state = InterpreterState::new();
    let mut renders = 0;
    process(&text, "7.", SupportedRenderer::Html, &mut state, &mut renders).unwrap();
    assert_eq!(state.references.get(b"e11").as_deref(), Some("7.12".as_bytes()));
    assert_eq!(renders, 12);
}
