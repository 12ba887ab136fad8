use bookmark::blocks::{Heading, HeadingType, LineBreak, Paragraph};

#[test]
fn heading_level_one() {
    let h = Heading::new("# A").unwrap();
    assert_eq!(h.into_html(), "<h1>A</h1>");
}

#[test]
fn heading_seven_hashes_clamps_to_six() {
    let h = Heading::new("####### A").unwrap();
    assert_eq!(h.into_html(), "<h6>A</h6>");
}

#[test]
fn heading_each_level() {
    assert_eq!(Heading::new("## B").unwrap().into_html(), "<h2>B</h2>");
    assert_eq!(Heading::new("### C").unwrap().into_html(), "<h3>C</h3>");
    assert_eq!(Heading::new("#### D").unwrap().into_html(), "<h4>D</h4>");
    assert_eq!(Heading::new("##### E").unwrap().into_html(), "<h5>E</h5>");
    assert_eq!(Heading::new("###### F").unwrap().into_html(), "<h6>F</h6>");
}

#[test]
fn heading_requires_whitespace_after_hashes() {
    assert!(Heading::new("#nope").is_none());
    assert!(Heading::new("# ").is_none());
    assert!(Heading::new("plain").is_none());
}

#[test]
fn heading_with_inline_span() {
    let h = Heading::new("# **B**").unwrap();
    assert_eq!(h.into_html(), "<h1><strong>B</strong></h1>");
}

#[test]
fn heading_type_counts_and_clamps() {
    assert_eq!(HeadingType::new("### x").unwrap().get_tag_num(), 3);
    assert_eq!(HeadingType::new("#########").unwrap().get_tag_num(), 6);
    assert!(HeadingType::new("x#").is_none());
}

#[test]
fn paragraph_wraps_trimmed_line() {
    let p = Paragraph::new("  hello world  ").unwrap();
    assert_eq!(p.into_html(), "<p>hello world</p>");
}

#[test]
fn paragraph_rejects_blank() {
    assert!(Paragraph::new("   \t ").is_none());
}

#[test]
fn line_break_recognizes_blank_lines() {
    assert!(LineBreak::new("").is_some());
    assert!(LineBreak::new("  \t").is_some());
    assert!(LineBreak::new("x").is_none());
    assert_eq!(LineBreak::new("").unwrap().into_html(), "<br/>");
}
