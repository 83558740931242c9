use fluxtex::highlight::{
    command_end, comment_start, highlight_commands, highlight_delimiters, highlight_math,
    is_escaped, line_check, line_spans, Span, SpanKind,
};

fn sp(start: usize, end: usize, kind: SpanKind) -> Span {
    Span { start, end, kind }
}

#[test]
fn escaped_counts_backslashes() {
    assert!(!is_escaped(b"a%", 1));
    assert!(is_escaped(b"\\%", 1));
    assert!(!is_escaped(b"\\\\%", 2));
    assert!(is_escaped(b"\\\\\\%", 3));
    assert!(!is_escaped(b"", 0));
}

#[test]
fn comment_start_skips_escaped_percent() {
    assert_eq!(comment_start("50\\% off % real"), Some(9));
    assert_eq!(comment_start("no comment"), None);
    assert_eq!(comment_start("% all"), Some(0));
}

#[test]
fn command_end_cases() {
    assert_eq!(command_end("\\section{A}", 0, 11), 8);
    assert_eq!(command_end("\\\\", 0, 2), 2);
    assert_eq!(command_end("\\", 0, 1), 1);
    assert_eq!(command_end("\\@foo1", 0, 6), 5);
    assert_eq!(command_end("\\alpha", 0, 3), 3);
}

#[test]
fn full_line_spans() {
    let line = "\\begin{itemize} $x$ % note";
    assert!(line_check(line));
    assert_eq!(
        line_spans(line),
        vec![
            sp(0, 6, SpanKind::Command),
            sp(7, 14, SpanKind::Environment),
            sp(16, 19, SpanKind::Math),
            sp(6, 7, SpanKind::Delimiter),
            sp(14, 15, SpanKind::Delimiter),
            sp(20, 26, SpanKind::Comment),
        ]
    );
}

#[test]
fn line_spans_drop_line_break() {
    assert_eq!(line_spans("(a)\r\n"), vec![sp(0, 1, SpanKind::Delimiter), sp(2, 3, SpanKind::Delimiter)]);
    assert_eq!(line_spans("\n"), vec![]);
}

#[test]
fn math_display_and_unclosed() {
    assert_eq!(highlight_math("$$a$$ $b", 8), vec![sp(0, 5, SpanKind::Math), sp(6, 8, SpanKind::Math)]);
    assert_eq!(highlight_math("\\$ not math", 11), vec![]);
    assert_eq!(highlight_math("$a$$b$", 6), vec![sp(0, 4, SpanKind::Math), sp(5, 6, SpanKind::Math)]);
}

#[test]
fn commands_and_environments() {
    assert_eq!(
        highlight_commands("\\end {proof} \\\\", 15),
        vec![sp(0, 4, SpanKind::Command), sp(6, 11, SpanKind::Environment), sp(13, 15, SpanKind::Command)]
    );
    assert_eq!(highlight_commands("\\begin{}", 8), vec![sp(0, 6, SpanKind::Command)]);
}

#[test]
fn delimiters_before_limit() {
    assert_eq!(highlight_delimiters("{é}[x]", 4), vec![sp(0, 1, SpanKind::Delimiter), sp(3, 4, SpanKind::Delimiter)]);
}

#[test]
fn line_check_refuses_backslash_before_multibyte() {
    assert!(!line_check("\\é"));
    assert!(line_check("é\\a"));
}

#[test]
fn spans_stay_inside_the_line() {
    for line in ["\\begin{a} $x$ {y} % c\r\n", "$$ open", "\\end  {b}\n", "%only", "\\\\ \\{ [(x)]"] {
        let body_len = line.trim_end_matches('\n').trim_end_matches('\r').len();
        let limit = comment_start(&line[..body_len]).unwrap_or(body_len);
        for s in line_spans(line) {
            assert!(s.start < s.end && s.end <= body_len, "{line:?} {s:?}");
            if s.kind != SpanKind::Comment {
                assert!(s.end <= limit, "{line:?} {s:?}");
            }
        }
    }
}

#[test]
fn command_end_past_limit() {
    assert_eq!(command_end("\\ab", 2, 1), 3);
    assert_eq!(command_end("\\ab", 0, 0), 1);
}
