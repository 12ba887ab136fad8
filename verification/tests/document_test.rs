use bookmark::documents::Document;

#[test]
fn list_nesting_renders_inner_list_inside_item() {
    let doc = Document::from_text("- top\n  - nested");
    assert_eq!(
        doc.into_html(),
        "<ul><li>top<ul><li>nested</li></ul></li></ul>"
    );
}

#[test]
fn ordered_list_renders_ol() {
    let doc = Document::from_text("1. one\n2. two");
    assert_eq!(doc.into_html(), "<ol><li>one</li>\n<li>two</li></ol>");
}

#[test]
fn blank_line_does_not_split_a_list() {
    let doc = Document::from_text("- a\n\n- b");
    assert_eq!(doc.into_html(), "<ul><li>a</li>\n<li>b</li></ul>");
}

#[test]
fn non_list_line_terminates_a_list() {
    let doc = Document::from_text("- a\npara");
    assert_eq!(doc.into_html(), "<ul><li>a</li></ul>\n<p>para</p>");
}

#[test]
fn code_block_contents_pass_through_untokenized() {
    let doc = Document::from_text("```rust\nlet x = **a**;\n```");
    assert_eq!(doc.into_html(), "<code class=\"rust\">let x = **a**;</code>");
}

#[test]
fn unterminated_code_block_consumes_rest_of_file() {
    let doc = Document::from_text("```c\nx\ny");
    assert_eq!(doc.into_html(), "<code class=\"c\">x<br/>y</code>");
}

#[test]
fn bare_fence_without_language_is_a_paragraph() {
    let doc = Document::from_text("```");
    assert_eq!(doc.into_html(), "<p>```</p>");
}

#[test]
fn quote_consumes_consecutive_gt_lines() {
    let doc = Document::from_text("> a\n> b");
    assert_eq!(doc.into_html(), "<quote><p>> a</p>\r<p>> b</p></quote>");
}

#[test]
fn quote_stops_at_non_gt_line() {
    let doc = Document::from_text("> hi\npara");
    assert_eq!(doc.into_html(), "<quote><p>> hi</p></quote>\n<p>para</p>");
}

#[test]
fn paragraph_fallback_is_total() {
    // lines that half-resemble other blocks still become one node each
    let cases = [
        ("#nope", "<p>#nope</p>"),
        ("-dash", "<p>-dash</p>"),
        ("1x.", "<p>1x.</p>"),
        ("*star", "<p>*star</p>"),
    ];
    for (input, expected) in cases {
        assert_eq!(Document::from_text(input).into_html(), expected);
    }
}

#[test]
fn star_marker_makes_unordered_list() {
    let doc = Document::from_text("* a\n* b");
    assert_eq!(doc.into_html(), "<ul><li>a</li>\n<li>b</li></ul>");
}

#[test]
fn ordered_marker_is_stripped_from_item_text() {
    let doc = Document::from_text("12. twelve");
    assert_eq!(doc.into_html(), "<ol><li>twelve</li></ol>");
}

#[test]
fn list_item_with_inline_span() {
    let doc = Document::from_text("- **b** end");
    assert_eq!(doc.into_html(), "<ul><li><strong>b</strong> end</li></ul>");
}

#[test]
fn deeper_runs_merge_into_one_nested_list() {
    let doc = Document::from_text("- top\n    - deep\n  - mid");
    assert_eq!(
        doc.into_html(),
        "<ul><li>top<ul><li>deep</li>\n<li>mid</li></ul></li></ul>"
    );
}

#[test]
fn dedent_below_first_item_starts_a_new_list() {
    let doc = Document::from_text("  - indented\n- flush");
    assert_eq!(
        doc.into_html(),
        "<ul><li>indented</li></ul>\n<ul><li>flush</li></ul>"
    );
}

#[test]
fn quote_line_keeps_inline_tokens() {
    let doc = Document::from_text("> said **loud**");
    assert_eq!(
        doc.into_html(),
        "<quote><p>> said <strong>loud</strong></p></quote>"
    );
}

#[test]
fn blank_lines_produce_no_nodes() {
    let doc = Document::from_text("\n  \n\t\n");
    assert_eq!(doc.into_html(), "");
}

#[test]
fn crlf_lines_are_tolerated() {
    let doc = Document::from_text("# A\r\npara\r\n");
    assert_eq!(doc.into_html(), "<h1>A</h1>\n<p>para</p>");
}

#[test]
fn mixed_document_renders_in_order() {
    let text = "# Title\n\nintro with `code`\n\n- one\n- two\n";
    let doc = Document::from_text(text);
    assert_eq!(
        doc.into_html(),
        "<h1>Title</h1>\n<p>intro with <span class=\"inline-code\">code</span></p>\n<ul><li>one</li>\n<li>two</li></ul>"
    );
}
