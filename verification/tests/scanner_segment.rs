use mdbook_scientific::scanner::{dollar_split_tags, SplitTagPosition};
use mdbook_scientific::segment::{chapter_spans, Tagged};
use mdbook_scientific::types::{DelimiterKind, Dollar, LiCo};

fn events(src: &str) -> Vec<SplitTagPosition> {
    dollar_split_tags(src.as_bytes())
}

fn spans(src: &str) -> Vec<Tagged> {
    chapter_spans(src.as_bytes())
}

fn check_events(src: &str, expected: &[(usize, usize, &str)]) {
    let evs = events(src);
    assert_eq!(evs.len(), expected.len(), "event count for {:?}", src);
    for (ev, (lineno, column, text)) in evs.iter().zip(expected.iter()) {
        assert_eq!(ev.lico, LiCo { lineno: *lineno, column: *column }, "position in {:?}", src);
        assert_eq!(ev.which.as_str(), *text, "delimiter text in {:?}", src);
    }
}

#[test]
fn bare_line_has_no_events() {
    check_events("a b c", &[]);
}

#[test]
fn one_inline_pair() {
    check_events("a $b$ c", &[(0, 2, "$"), (0, 4, "$")]);
    let evs = events("a $b$ c");
    assert!(matches!(evs[0].which, Dollar::Start(DelimiterKind::Inline)));
    assert!(matches!(evs[1].which, Dollar::End(DelimiterKind::Inline)));
    assert_eq!(evs[0].byte_offset, 2);
    assert_eq!(evs[1].byte_offset, 4);
}

#[test]
fn odd_count_is_repaired_at_line_end() {
    // An unterminated inline delimiter yields a start event and a synthetic
    // end event with empty delimiter text at one past the line's last
    // character.
    let evs = events("a $b c");
    assert_eq!(evs.len(), 2);
    assert_eq!(evs[0].lico, LiCo { lineno: 0, column: 2 });
    assert!(matches!(evs[0].which, Dollar::Start(DelimiterKind::Inline)));
    assert_eq!(evs[1].lico, LiCo { lineno: 0, column: 7 });
    assert!(matches!(evs[1].which, Dollar::SyntheticEnd));
    assert_eq!(evs[1].which.as_str(), "");
}

#[test]
fn dollar_block_lines_emit_one_event_each() {
    check_events("\n$$\n\\epsilon\n$$\n", &[(1, 1, "$$"), (3, 1, "$$")]);
    let evs = events("\n$$\n\\epsilon\n$$\n");
    assert!(matches!(evs[0].which, Dollar::Start(DelimiterKind::Block)));
    assert!(matches!(evs[1].which, Dollar::End(DelimiterKind::Block)));
}

#[test]
fn pre_block_suppresses_events() {
    check_events(
        "\n$a\n<pre>\n\\epsilon\n</pre>\n$4\n",
        &[(1, 0, "$"), (1, 3, ""), (5, 0, "$"), (5, 3, "")],
    );
}

#[test]
fn code_fence_suppresses_events() {
    check_events("\n```bash\n$ foo $ $$ $?\n```\n", &[]);
}

#[test]
fn fenced_input_yields_no_replace_spans() {
    // Delimiters inside a fenced code block never produce boundary events.
    let sp = spans("```\n$ foo $ $$ $?\n```\n");
    assert_eq!(sp.iter().filter(|t| t.is_replace()).count(), 0);
    let joined: Vec<u8> = sp.iter().flat_map(|t| t.content_ref().s.clone()).collect();
    assert_eq!(joined, "```\n$ foo $ $$ $?\n```\n".as_bytes());
}

#[test]
fn columns_count_characters_not_bytes() {
    // A two-byte character before the delimiter advances the column by one.
    check_events("\u{e9} $x$", &[(0, 2, "$"), (0, 4, "$")]);
    let evs = events("\u{e9} $x$");
    assert_eq!(evs[0].byte_offset, 3);
    assert_eq!(evs[1].byte_offset, 5);
    // The repaired line end sits one past the last character.
    check_events("\u{e9}\u{e9} $x", &[(0, 3, "$"), (0, 6, "")]);
}

#[test]
fn adjacent_inline_pairs() {
    check_events(
        "foo $$_$$ bar",
        &[(0, 4, "$"), (0, 5, "$"), (0, 7, "$"), (0, 8, "$")],
    );
}

fn check_spans(src: &str, expected: &[(bool, usize, usize, &str)]) {
    // expected: (keep, byte_start, byte_end, text)
    let sp = spans(src);
    assert_eq!(sp.len(), expected.len(), "span count for {:?}", src);
    for (t, (keep, lo, hi, text)) in sp.iter().zip(expected.iter()) {
        assert_eq!(&src[*lo..*hi], *text, "test case integrity");
        assert_eq!(t.is_replace(), !*keep, "role in {:?}", src);
        let c = t.content_ref();
        assert_eq!(c.byte_range.start, *lo, "span start in {:?}", src);
        assert_eq!(c.byte_range.end, *hi, "span end in {:?}", src);
        assert_eq!(c.s, text.as_bytes(), "span text in {:?}", src);
    }
}

const K: bool = true;
const R: bool = false;

#[test]
fn single_inline_span() {
    check_spans("x: $1$", &[(K, 0, 3, "x: "), (R, 3, 6, "$1$")]);
}

#[test]
fn two_inline_spans() {
    check_spans(
        "x:$1$y:$2$",
        &[(K, 0, 2, "x:"), (R, 2, 5, "$1$"), (K, 5, 7, "y:"), (R, 7, 10, "$2$")],
    );
}

#[test]
fn three_inline_spans_alternate() {
    check_spans(
        "$1$ $2$ $3$",
        &[
            (R, 0, 3, "$1$"),
            (K, 3, 4, " "),
            (R, 4, 7, "$2$"),
            (K, 7, 8, " "),
            (R, 8, 11, "$3$"),
        ],
    );
}

#[test]
fn one_block_span() {
    check_spans("$$\n1\n$$", &[(R, 0, 7, "$$\n1\n$$")]);
}

#[test]
fn block_span_with_leading_text() {
    check_spans(
        "Hello, there is a block\n$$\n1\n$$",
        &[(K, 0, 24, "Hello, there is a block\n"), (R, 24, 31, "$$\n1\n$$")],
    );
}

#[test]
fn no_delimiters_is_one_keep_span() {
    let src = "# abc\n\nHello, the block is a myth!\n        \n";
    check_spans(src, &[(K, 0, src.len(), src)]);
}

#[test]
fn trailing_text_is_kept() {
    check_spans(
        "x $a$ tail",
        &[(K, 0, 2, "x "), (R, 2, 5, "$a$"), (K, 5, 10, " tail")],
    );
}

#[test]
fn lossless_partition_on_sample_inputs() {
    // Concatenating all span texts in order reproduces the input exactly.
    let cases = [
        "",
        "plain text only",
        "$",
        "$$",
        "$$\n",
        "$a$",
        "a $b$ c $d$ e",
        "$$x\ny\n$$",
        "text\n$$\nblock\n$$\nmore $i$ text\n",
        "```\n$fenced$\n```\nafter $x$",
        "<pre>\n$ignored$\n</pre>\n$kept$",
        "unterminated $math here",
        "$$\nunterminated block",
    ];
    for src in cases {
        let joined: Vec<u8> = spans(src)
            .iter()
            .flat_map(|t| t.content_ref().s.clone())
            .collect();
        assert_eq!(joined, src.as_bytes(), "lossless partition for {:?}", src);
    }
}

#[test]
fn parity_starts_with_replace_without_leading_text() {
    let sp = spans("$a$ $b$");
    for (i, t) in sp.iter().enumerate() {
        assert_eq!(t.is_replace(), i % 2 == 0, "parity at {}", i);
    }
    let sp = spans("lead $a$ $b$");
    for (i, t) in sp.iter().enumerate() {
        assert_eq!(t.is_replace(), i % 2 == 1, "shifted parity at {}", i);
    }
}
