use agent_laboratory::agents::paper::extract_code_snippets;
use agent_laboratory::agents::paper::extract_math_formulas;
use agent_laboratory::agents::paper::extract_sections;

#[test]
fn sections_split_along_recognised_headers() {
    let content = "Abstract\nA short overview.\n\nIntroduction\nIntro text line.\nMore intro.\nConclusion\nThe end.\n";
    let sections = extract_sections(content);
    assert_eq!(
        sections,
        vec![
            "=== Abstract ===\nA short overview.".to_string(),
            "=== Introduction ===\nIntro text line.\nMore intro.".to_string(),
            "=== Conclusion ===\nThe end.".to_string(),
        ]
    );
}

#[test]
fn content_without_headers_is_one_section() {
    // text before any recognised header collects under an empty header
    let content = "  just a body of text\nwith two lines  ";
    let sections = extract_sections(content);
    assert_eq!(sections.len(), 1);
    assert_eq!(sections[0], "===  ===\njust a body of text\nwith two lines");
}

#[test]
fn blank_content_falls_back_to_one_full_section() {
    let sections = extract_sections("   \n\n  ");
    assert_eq!(sections, vec!["=== Full Content ===\n".to_string()]);
}

#[test]
fn header_mentions_in_long_lines_do_not_split() {
    // the word appears, but the line is far longer than a header
    let content = "This paragraph mentions the abstract idea at length, twice over.\nreal text\n";
    let sections = extract_sections(content);
    assert_eq!(sections.len(), 1);
    assert!(sections[0].starts_with("===  ===\n"));
}

#[test]
fn code_snippets_come_from_fences_indents_and_inline_lines() {
    let content = "Text\n```\nlet x = 1;\n```\nmore\n    indented code\nplain\nfn main() {}\n";
    let snippets = extract_code_snippets(content, true);
    assert_eq!(
        snippets,
        vec![
            "let x = 1;".to_string(),
            "indented code".to_string(),
            "fn main() {}".to_string(),
        ]
    );
}

#[test]
fn duplicate_inline_snippets_are_kept_once() {
    let content = "use std::fmt;\nwords\nuse std::fmt;\n";
    let snippets = extract_code_snippets(content, true);
    assert_eq!(snippets, vec!["use std::fmt;".to_string()]);
}

#[test]
fn disabled_code_extraction_yields_nothing() {
    let content = "```\nlet x = 1;\n```\n";
    assert!(extract_code_snippets(content, false).is_empty());
}

#[test]
fn math_formulas_come_from_environments_inline_math_and_patterns() {
    let content = "intro\n\\begin{equation}\nE = mc^2\n\\end{equation}\nInline $a+b$ here\n";
    let formulas = extract_math_formulas(content, true);
    assert_eq!(
        formulas,
        vec![
            "E = mc^2".to_string(),
            "a+b".to_string(),
            "Inline $a+b$ here".to_string(),
        ]
    );
}

#[test]
fn disabled_math_extraction_yields_nothing() {
    let content = "$x+y$\n";
    assert!(extract_math_formulas(content, false).is_empty());
}
