use fluxtex::editor::STARTER_LATEX;
use fluxtex::outline::{
    cursor_column, extract_outline, extract_project_tree, line_count, nonempty_line_count,
    outline_badge, outline_panel_text, word_count,
};

#[test]
fn outline_of_starter_document() {
    assert_eq!(extract_outline(STARTER_LATEX), "• Introduction\n  • Checklist");
}

#[test]
fn outline_levels_and_trimming() {
    let doc = "  \\section{A}\n\\subsection{B} text\n\\subsubsection{C}\r\nnot \\section{D}\n\\section{Open";
    assert_eq!(extract_outline(doc), "• A\n  • B\n    • C\n• Open");
    assert_eq!(extract_outline("no headings here"), "");
    assert_eq!(extract_outline(""), "");
}

#[test]
fn outline_title_stops_at_first_brace() {
    assert_eq!(extract_outline("\\section{Intro}{x}"), "• Intro");
    assert_eq!(extract_outline("\\section{}"), "• ");
}

#[test]
fn project_tree_defaults() {
    assert_eq!(extract_project_tree(""), "main.tex\nsections/\nfigures/");
}

#[test]
fn project_tree_lists_included_files_once() {
    let doc = "\\input{chapters/intro}\n  \\include{appendix.tex}\n\\input{chapters/intro}\n\\input{main}\n% \\input{skipped}";
    assert_eq!(
        extract_project_tree(doc),
        "main.tex\nsections/\nfigures/\nchapters/intro.tex\nappendix.tex"
    );
}

#[test]
fn word_count_counts_runs() {
    assert_eq!(word_count(""), 0);
    assert_eq!(word_count("   "), 0);
    assert_eq!(word_count("one"), 1);
    assert_eq!(word_count(" a  b\tc\nd "), 4);
    assert_eq!(word_count("über\u{3000}straße"), 2);
}

#[test]
fn line_and_column_of_status_bar() {
    assert_eq!(line_count(""), 1);
    assert_eq!(line_count("a\nb\n"), 2);
    assert_eq!(line_count("a\nb\nc"), 3);
    assert_eq!(cursor_column(""), 1);
    assert_eq!(cursor_column("ab\ncde"), 4);
    assert_eq!(cursor_column("ab\n"), 3);
}

#[test]
fn outline_badge_counts_lines() {
    assert_eq!(nonempty_line_count("a\n\nb\n"), 2);
    assert_eq!(outline_badge(""), "");
    assert_eq!(outline_badge("• A\n  • B"), "2");
    assert_eq!(outline_panel_text(String::new()), "No headings yet.");
    assert_eq!(outline_panel_text("• A".to_string()), "• A");
}

#[test]
fn status_bar_counts_agree_with_str_lines() {
    for s in ["", "a", "a\n", "a\r", "a\r\n", "\n\n", "x\r\ny\rz", "é\nü\r\n\r"] {
        assert_eq!(line_count(s), s.lines().count().max(1), "{s:?}");
        assert_eq!(cursor_column(s), s.lines().last().unwrap_or("").chars().count() + 1, "{s:?}");
        assert_eq!(nonempty_line_count(s), s.lines().filter(|l| !l.is_empty()).count(), "{s:?}");
    }
}
