use qbank::pdftext::{extract_pdf_text, format_as_markdown, split_markdown_by_pages};

#[test]
fn text_runs_come_from_tj_lines() {
    let stream = "BT\n(Hello) Tj\nnoise line\n[(World)] TJ\nET";
    assert_eq!(extract_pdf_text(stream), "Hello\nWorld\n");
}

#[test]
fn lines_without_operators_or_parens_contribute_nothing() {
    assert_eq!(extract_pdf_text("(ignored)\nTj without parens"), "");
    assert_eq!(extract_pdf_text(""), "");
}

#[test]
fn chapter_lines_become_headings() {
    let md = format_as_markdown("第一章 导数\n这是正文内容。");
    assert_eq!(md, "## 第一章 导数\n\n这是正文内容。\n");
}

#[test]
fn blank_lines_become_paragraph_breaks() {
    let md = format_as_markdown("a\n\nb");
    assert_eq!(md, "a\n\n\nb\n");
}

#[test]
fn lines_are_trimmed() {
    assert_eq!(format_as_markdown("  padded  "), "padded\n");
}

#[test]
fn markdown_splits_at_page_markers() {
    let content = "--- Page 1 ---\nfirst\n--- Page 2 ---\nsecond line\nmore";
    let pages = split_markdown_by_pages(content);
    assert_eq!(pages, vec!["first\n".to_string(), "second line\nmore\n".to_string()]);
}

#[test]
fn markdown_without_markers_is_one_page() {
    let pages = split_markdown_by_pages("just one\npage");
    assert_eq!(pages, vec!["just one\npage\n".to_string()]);
}

#[test]
fn empty_markdown_is_one_empty_page() {
    let pages = split_markdown_by_pages("");
    assert_eq!(pages, vec![String::new()]);
}

#[test]
fn dashes_without_page_word_do_not_split() {
    let pages = split_markdown_by_pages("---\na");
    assert_eq!(pages, vec!["---\na\n".to_string()]);
}
