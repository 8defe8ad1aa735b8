use armstrong::gemtext::{parse_gemtext, GemtextToken, TokenKind};

#[test]
fn parser_handles_text() {
    let text = "Hello world this is example text";
    let parsed: Vec<GemtextToken> = parse_gemtext(text);
    assert_eq!(parsed.len(), 1);
    assert_eq!(parsed[0].kind, TokenKind::Text);
    assert_eq!(parsed[0].data, text);
}

#[test]
fn parser_handles_links_without_space() {
    let raw_text_without_space = "=>www.example.com";
    let text_data = "www.example.com";
    let parsed_without_space: Vec<GemtextToken> = parse_gemtext(raw_text_without_space);
    assert_eq!(parsed_without_space.len(), 1);
    assert_eq!(parsed_without_space[0].kind, TokenKind::Link);
    assert_eq!(parsed_without_space[0].data, text_data);
}

#[test]
fn parser_handles_links_with_space() {
    let raw_text_with_space = "=> www.example.com";
    let text_data = "www.example.com";
    let parsed_with_space: Vec<GemtextToken> = parse_gemtext(raw_text_with_space);
    assert_eq!(parsed_with_space.len(), 1);
    assert_eq!(parsed_with_space[0].kind, TokenKind::Link);
    assert_eq!(parsed_with_space[0].data, text_data);
}

#[test]
fn parser_handles_links_with_names() {
    let raw_text_with_space = "=> www.example.com Example Link";
    let raw_text_without_space = "=>www.example.com Example Link";
    let text_data = "www.example.com";
    let extra_data = "Example Link";
    let parsed_with_space: Vec<GemtextToken> = parse_gemtext(raw_text_with_space);
    assert_eq!(parsed_with_space.len(), 1);
    assert_eq!(parsed_with_space[0].kind, TokenKind::Link);
    assert_eq!(parsed_with_space[0].data, text_data);
    assert_eq!(parsed_with_space[0].extra, extra_data);

    let parsed_without_space: Vec<GemtextToken> = parse_gemtext(raw_text_without_space);
    assert_eq!(parsed_without_space.len(), 1);
    assert_eq!(parsed_without_space[0].kind, TokenKind::Link);
    assert_eq!(parsed_without_space[0].data, text_data);
    assert_eq!(parsed_without_space[0].extra, extra_data);
}

#[test]
fn parser_handles_lists() {
    let raw_text = "* Item";
    let text_data = "Item";
    let parsed: Vec<GemtextToken> = parse_gemtext(raw_text);
    assert_eq!(parsed.len(), 1);
    assert_eq!(parsed[0].kind, TokenKind::UnorderedList);
    assert_eq!(parsed[0].data, text_data);
}

#[test]
fn parser_handles_blockquotes() {
    let raw_text = "> block quote";
    let text_data = "block quote";
    let parsed: Vec<GemtextToken> = parse_gemtext(raw_text);
    assert_eq!(parsed.len(), 1);
    assert_eq!(parsed[0].kind, TokenKind::Blockquote);
    assert_eq!(parsed[0].data, text_data);
}

// A token holds the text of its line without the line's terminator.
#[test]
fn parser_handles_headings() {
    let raw_text = "\
        # Heading\n\
        ## SubHeading\n\
        ### SubSubHeading";
    let line0 = "Heading";
    let line1 = "SubHeading";
    let line2 = "SubSubHeading";
    let parsed: Vec<GemtextToken> = parse_gemtext(raw_text);
    assert_eq!(parsed.len(), 3);
    assert_eq!(parsed[0].kind, TokenKind::Heading);
    assert_eq!(parsed[1].kind, TokenKind::SubHeading);
    assert_eq!(parsed[2].kind, TokenKind::SubSubHeading);
    assert_eq!(parsed[0].data, line0);
    assert_eq!(parsed[1].data, line1);
    assert_eq!(parsed[2].data, line2);
}

// The lines of a block are joined by '\n': the terminator of the last line
// is not part of the block's text.
#[test]
fn parser_handles_pft() {
    let raw_text = "```alt text\n\
        This text is unformatted.\n\
        This is the second line.\n\
        ```";
    let line = "This text is unformatted.\nThis is the second line.";
    let alt_text = "alt text";
    let parsed: Vec<GemtextToken> = parse_gemtext(raw_text);
    assert_eq!(parsed.len(), 1);
    assert_eq!(parsed[0].kind, TokenKind::PreFormattedText);
    assert_eq!(parsed[0].data, line);
    assert_eq!(parsed[0].extra, alt_text);
}
