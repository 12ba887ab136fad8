use bookmark::tokens::InlineToken;

#[test]
fn extract_finds_tokens_left_to_right() {
    let text = String::from("see [site](x.com) and **bold**");
    let tokens = InlineToken::extract(&text);
    assert_eq!(tokens.len(), 2);
    assert_eq!(tokens[0].get_raw().as_str(), "[site](x.com)");
    assert_eq!(tokens[1].get_raw().as_str(), "**bold**");
}

#[test]
fn extract_empty_input_yields_no_tokens() {
    let text = String::from("");
    let tokens = InlineToken::extract(&text);
    assert_eq!(tokens.len(), 0);
}

#[test]
fn extract_image_wins_over_link_at_bang() {
    let text = String::from("![alt](pic.png)");
    let tokens = InlineToken::extract(&text);
    assert_eq!(tokens.len(), 1);
    assert_eq!(tokens[0].get_raw().as_str(), "![alt](pic.png)");
    let html = InlineToken::into_html(
        &InlineToken::mask_tokens(text.clone(), &tokens),
        &tokens,
    );
    assert_eq!(html, "<img src='pic.png' alt='alt'/>");
}

#[test]
fn mask_replaces_raw_with_positional_placeholder() {
    let text = String::from("a **b** c _d_");
    let tokens = InlineToken::extract(&text);
    let masked = InlineToken::mask_tokens(text, &tokens);
    assert_eq!(masked, "a <$1> c <$2>");
}

#[test]
fn mask_round_trip_renders_tokens_in_place() {
    let text = String::from("see [site](x.com) and **bold**");
    let tokens = InlineToken::extract(&text);
    let masked = InlineToken::mask_tokens(text.clone(), &tokens);
    let html = InlineToken::into_html(&masked, &tokens);
    assert_eq!(html, "see <a href='x.com'>site</a> and <strong>bold</strong>");
}

#[test]
fn mask_round_trip_with_duplicate_raws() {
    let text = String::from("`x` then `x`");
    let tokens = InlineToken::extract(&text);
    let masked = InlineToken::mask_tokens(text.clone(), &tokens);
    assert_eq!(masked, "<$1> then <$2>");
    let html = InlineToken::into_html(&masked, &tokens);
    assert_eq!(
        html,
        "<span class=\"inline-code\">x</span> then <span class=\"inline-code\">x</span>"
    );
}

#[test]
fn unmask_leaves_unknown_placeholders_untouched() {
    let tokens: Vec<InlineToken> = Vec::new();
    let html = InlineToken::into_html("before <$5> after", &tokens);
    assert_eq!(html, "before <$5> after");
}

#[test]
fn italic_and_code_render() {
    let text = String::from("_it_ and `code`");
    let tokens = InlineToken::extract(&text);
    let masked = InlineToken::mask_tokens(text, &tokens);
    let html = InlineToken::into_html(&masked, &tokens);
    assert_eq!(html, "<i>it</i> and <span class=\"inline-code\">code</span>");
}

#[test]
fn inline_spans_are_not_nested() {
    let text = String::from("[a **b**](c)");
    let tokens = InlineToken::extract(&text);
    assert_eq!(tokens.len(), 1);
    assert_eq!(tokens[0].get_raw().as_str(), "[a **b**](c)");
}
