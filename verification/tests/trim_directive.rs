use mdbook_scientific::directive::{parse_directive, split_colon_exec, Directive, RefTarget, RenderKind};
use mdbook_scientific::error::Error;
use mdbook_scientific::segment::{ByteRange, Content};
use mdbook_scientific::trim::annotate;
use mdbook_scientific::types::{DelimiterKind, Dollar, LiCo, SupportedRenderer};

fn block_content(text: &str) -> Content {
    Content {
        s: text.as_bytes().to_vec(),
        start: LiCo { lineno: 0, column: 1 },
        end: LiCo { lineno: 0, column: 1 },
        byte_range: ByteRange { start: 0, end: text.len() },
        start_del: Dollar::Start(DelimiterKind::Block),
        end_del: Dollar::End(DelimiterKind::Block),
    }
}

fn inline_content(text: &str, end_del: Dollar) -> Content {
    Content {
        s: text.as_bytes().to_vec(),
        start: LiCo { lineno: 0, column: 0 },
        end: LiCo { lineno: 0, column: 0 },
        byte_range: ByteRange { start: 0, end: text.len() },
        start_del: Dollar::Start(DelimiterKind::Inline),
        end_del,
    }
}

#[test]
fn block_trim_isolates_parameters_and_body() {
    // `$$title\nbody line\n$$` trims to parameters `title`, body `body line\n`.
    let t = block_content("$$title\nbody line\n$$").trimmed();
    assert_eq!(t.parameters.as_deref(), Some("title".as_bytes()));
    assert_eq!(t.trimmed, "body line\n".as_bytes());
    assert_eq!(t.byte_range, ByteRange { start: 8, end: 18 });
}

#[test]
fn block_trim_without_parameters() {
    let t = block_content("$$\nx\n$$").trimmed();
    assert_eq!(t.parameters, None);
    assert_eq!(t.trimmed, "x\n".as_bytes());
}

#[test]
fn block_trim_of_empty_block() {
    let t = block_content("$$\n$$").trimmed();
    assert_eq!(t.parameters, None);
    assert_eq!(t.trimmed, "".as_bytes());
}

#[test]
fn inline_trim_strips_both_delimiters() {
    let t = inline_content("$x+y$", Dollar::End(DelimiterKind::Inline)).trimmed();
    assert_eq!(t.parameters, None);
    assert_eq!(t.trimmed, "x+y".as_bytes());
    assert_eq!(t.byte_range, ByteRange { start: 1, end: 4 });
}

#[test]
fn inline_trim_with_repaired_end() {
    // A span closed by the synthetic end keeps its last byte: there is no
    // closing delimiter character to strip.
    let t = inline_content("$b c", Dollar::SyntheticEnd).trimmed();
    assert_eq!(t.parameters, None);
    assert_eq!(t.trimmed, "b c".as_bytes());
}

#[test]
fn trimmed_as_str_is_the_body() {
    let t = inline_content("$ab$", Dollar::End(DelimiterKind::Inline)).trimmed();
    assert_eq!(t.as_str(), "ab".as_bytes());
}

#[test]
fn annotate_tracks_lines_and_columns() {
    let a = annotate("a\nb");
    assert_eq!(a.len(), 3);
    assert_eq!(a[0], (LiCo { lineno: 1, column: 1 }, 0, 'a'));
    assert_eq!(a[1], (LiCo { lineno: 2, column: 1 }, 1, '\n'));
    assert_eq!(a[2], (LiCo { lineno: 2, column: 2 }, 2, 'b'));
}

#[test]
fn annotate_counts_characters_not_bytes() {
    // One entry per character; offsets follow the UTF-8 byte widths.
    let a = annotate("a\u{e9}\nb");
    assert_eq!(a.len(), 4);
    assert_eq!(a[0], (LiCo { lineno: 1, column: 1 }, 0, 'a'));
    assert_eq!(a[1], (LiCo { lineno: 1, column: 2 }, 1, '\u{e9}'));
    assert_eq!(a[2], (LiCo { lineno: 2, column: 1 }, 3, '\n'));
    assert_eq!(a[3], (LiCo { lineno: 2, column: 2 }, 4, 'b'));
}

#[test]
fn split_colon_behaves_like_str_split() {
    let toks = split_colon_exec("a:bc::d".as_bytes());
    let expect: Vec<&[u8]> = vec![b"a", b"bc", b"", b"d"];
    assert_eq!(toks.len(), expect.len());
    for (t, e) in toks.iter().zip(expect.iter()) {
        assert_eq!(t.as_slice(), *e);
    }
    assert_eq!(split_colon_exec("".as_bytes()).len(), 1);
}

#[test]
fn ref_directives_parse() {
    match parse_directive("ref:fig:stars".as_bytes(), 4).unwrap() {
        Directive::Reference { target, key } => {
            assert_eq!(target, RefTarget::Figure);
            assert_eq!(key, b"stars".to_vec());
        }
        other => panic!("unexpected directive {:?}", other),
    }
    match parse_directive("ref:bib:knuth".as_bytes(), 4).unwrap() {
        Directive::Reference { target, .. } => assert_eq!(target, RefTarget::Bibliography),
        other => panic!("unexpected directive {:?}", other),
    }
    match parse_directive("ref:equ:emc".as_bytes(), 4).unwrap() {
        Directive::Reference { target, .. } => assert_eq!(target, RefTarget::Equation),
        other => panic!("unexpected directive {:?}", other),
    }
}

#[test]
fn unknown_reference_kind_fails() {
    // `foo:x` behind `ref:` fails with the unknown kind...
    let err = parse_directive("ref:foo:x".as_bytes(), 7).unwrap_err();
    assert_eq!(
        err,
        Error::UnknownReferenceKind { kind: b"foo".to_vec(), lineno: 7 }
    );
    // ...but without `ref:` the same text is a bare equation directive.
    match parse_directive("foo:x".as_bytes(), 7).unwrap() {
        Directive::Render { kind, key, title } => {
            assert_eq!(kind, RenderKind::Equation);
            assert!(key.is_empty());
            assert_eq!(title, None);
        }
        other => panic!("unexpected directive {:?}", other),
    }
}

#[test]
fn wrong_reference_arg_count_fails() {
    let err = parse_directive("ref:equ".as_bytes(), 3).unwrap_err();
    assert_eq!(err, Error::UnexpectedReferenceArgCount { count: 1, lineno: 3 });
    let err = parse_directive("ref:equ:a:b".as_bytes(), 3).unwrap_err();
    assert_eq!(err, Error::UnexpectedReferenceArgCount { count: 3, lineno: 3 });
}

#[test]
fn render_directives_parse() {
    match parse_directive("latex:lkey:The Title".as_bytes(), 0).unwrap() {
        Directive::Render { kind, key, title } => {
            assert_eq!(kind, RenderKind::Latex);
            assert_eq!(key, b"lkey".to_vec());
            assert_eq!(title, Some(b"The Title".to_vec()));
        }
        other => panic!("unexpected directive {:?}", other),
    }
    match parse_directive("gnuplot:g:t".as_bytes(), 0).unwrap() {
        Directive::Render { kind, .. } => assert_eq!(kind, RenderKind::Gnuplot),
        other => panic!("unexpected directive {:?}", other),
    }
    match parse_directive("gnuplotonly:g:t".as_bytes(), 0).unwrap() {
        Directive::Render { kind, .. } => assert_eq!(kind, RenderKind::GnuplotOnly),
        other => panic!("unexpected directive {:?}", other),
    }
    match parse_directive("equ:myeq".as_bytes(), 0).unwrap() {
        Directive::Render { kind, key, title } => {
            assert_eq!(kind, RenderKind::Equation);
            assert_eq!(key, b"myeq".to_vec());
            assert_eq!(title, None);
        }
        other => panic!("unexpected directive {:?}", other),
    }
    match parse_directive("equation".as_bytes(), 0).unwrap() {
        Directive::Render { kind, key, title } => {
            assert_eq!(kind, RenderKind::Equation);
            assert!(key.is_empty());
            assert_eq!(title, None);
        }
        other => panic!("unexpected directive {:?}", other),
    }
    match parse_directive("".as_bytes(), 0).unwrap() {
        Directive::Render { kind, key, .. } => {
            assert_eq!(kind, RenderKind::Equation);
            assert!(key.is_empty());
        }
        other => panic!("unexpected directive {:?}", other),
    }
}

#[test]
fn renderer_names_parse_case_insensitively() {
    assert_eq!(SupportedRenderer::from_str("tectonic").unwrap(), SupportedRenderer::Tectonic);
    assert_eq!(SupportedRenderer::from_str("LaTeX").unwrap(), SupportedRenderer::Latex);
    assert_eq!(SupportedRenderer::from_str("MARKDOWN").unwrap(), SupportedRenderer::Markdown);
    assert_eq!(SupportedRenderer::from_str("Html").unwrap(), SupportedRenderer::Html);
    // Unicode case folding: the Kelvin sign lowercases to a plain k.
    assert_eq!(
        SupportedRenderer::from_str("MAR\u{212a}DOWN").unwrap(),
        SupportedRenderer::Markdown
    );
    // An unsupported name is reported back lowercased.
    assert_eq!(
        SupportedRenderer::from_str("EPUB").unwrap_err(),
        Error::RendererNotSupported("epub".to_string())
    );
    assert_eq!(
        SupportedRenderer::from_str("epub").unwrap_err(),
        Error::RendererNotSupported("epub".to_string())
    );
}

#[test]
fn dollar_delimiter_accessors() {
    assert!(Dollar::Start(DelimiterKind::Block).is_block());
    assert!(Dollar::End(DelimiterKind::Block).is_block());
    assert!(!Dollar::Start(DelimiterKind::Inline).is_block());
    assert!(!Dollar::Empty.is_block());
    assert_eq!(Dollar::Start(DelimiterKind::Block).as_str(), "$$");
    assert_eq!(Dollar::End(DelimiterKind::Inline).as_str(), "$");
    assert_eq!(Dollar::Empty.as_str(), "");
    assert_eq!(Dollar::SyntheticEnd.as_str(), "");
}
