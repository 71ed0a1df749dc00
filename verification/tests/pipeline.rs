use deckml::compile;
use deckml::lexer::{tokenize, Token, TokenType};
use deckml::mapper::{map_deck, Block, DeckModel, MapWarning};
use deckml::scale::parse_scale;
use deckml::strutil::strip_control;
use deckml::tree::{parse, Node, ParseError};

fn node(tag: &str, children: Vec<Node>, text: Option<&str>) -> Node {
    Node { tag_name: tag.to_string(), children, text: text.map(|t| t.to_string()) }
}

fn deck_of(input: &str) -> (DeckModel, Vec<MapWarning>) {
    compile(input, None).expect("input should parse")
}

#[test]
fn tokenize_simple_element() {
    let tokens = tokenize("<a>x</a>");
    assert_eq!(tokens.len(), 4);

    assert!(matches!(tokens[0].token_type, TokenType::StartTag));
    assert_eq!(tokens[0].tag_name.as_deref(), Some("a"));
    assert!(!tokens[0].self_closing);

    assert!(matches!(tokens[1].token_type, TokenType::Char));
    assert_eq!(tokens[1].data.as_deref(), Some("x"));

    assert!(matches!(tokens[2].token_type, TokenType::EndTag));
    assert_eq!(tokens[2].tag_name.as_deref(), Some("a"));

    assert!(matches!(tokens[3].token_type, TokenType::Eof));
}

#[test]
fn tokenize_folds_uppercase_names() {
    let tokens = tokenize("<A>");
    assert!(matches!(tokens[0].token_type, TokenType::StartTag));
    assert_eq!(tokens[0].tag_name.as_deref(), Some("a"));

    let tokens = tokenize("<DeCk></dEcK>");
    assert_eq!(tokens[0].tag_name.as_deref(), Some("deck"));
    assert_eq!(tokens[1].tag_name.as_deref(), Some("deck"));
}

#[test]
fn tokenize_non_alphabetic_after_open_emits_literal() {
    // After `<`, a character that opens no tag emits a literal `<` and is
    // itself dropped; the `>` then passes through as data.
    let tokens = tokenize("<1>");
    assert_eq!(tokens.len(), 3);
    assert!(matches!(tokens[0].token_type, TokenType::Char));
    assert_eq!(tokens[0].data.as_deref(), Some("<"));
    assert!(matches!(tokens[1].token_type, TokenType::Char));
    assert_eq!(tokens[1].data.as_deref(), Some(">"));
    assert!(matches!(tokens[2].token_type, TokenType::Eof));
}

#[test]
fn tokenize_absorbs_non_alphabetic_after_end_tag_open() {
    let tokens = tokenize("</1a>");
    assert_eq!(tokens.len(), 2);
    assert!(matches!(tokens[0].token_type, TokenType::EndTag));
    assert_eq!(tokens[0].tag_name.as_deref(), Some("a"));
}

#[test]
fn tokenize_self_closing_flag() {
    let tokens = tokenize("<br/>");
    assert!(matches!(tokens[0].token_type, TokenType::StartTag));
    assert_eq!(tokens[0].tag_name.as_deref(), Some("br"));
    assert!(tokens[0].self_closing);
}

#[test]
fn tokenize_always_ends_in_eof() {
    let tokens = tokenize("");
    assert_eq!(tokens.len(), 1);
    assert!(matches!(tokens[0].token_type, TokenType::Eof));
}

#[test]
fn token_new_keeps_its_parts() {
    let t = Token::new(TokenType::StartTag, Some("a".to_string()), true, None);
    assert!(matches!(t.token_type, TokenType::StartTag));
    assert_eq!(t.tag_name.as_deref(), Some("a"));
    assert!(t.self_closing);
    assert_eq!(t.data, None);
}

#[test]
fn parse_rebuilds_nesting_and_order() {
    let tokens = tokenize("<a>xy<b>z</b><c></c></a>");
    let root = parse(&tokens).expect("well-formed input");
    let expected = node(
        "a",
        vec![node("b", vec![], Some("z")), node("c", vec![], None)],
        Some("xy"),
    );
    assert_eq!(root, expected);
}

#[test]
fn parse_mismatched_end_tag_fails() {
    let tokens = tokenize("<a><b></a>");
    let err = parse(&tokens).expect_err("mismatch must fail");
    assert_eq!(
        err,
        ParseError::MismatchedTag { expected: "b".to_string(), found: "a".to_string() }
    );
}

#[test]
fn parse_unclosed_tag_fails() {
    let tokens = tokenize("<a>");
    let err = parse(&tokens).expect_err("unclosed element must fail");
    assert_eq!(err, ParseError::UnclosedTags);
}

#[test]
fn parse_self_closing_still_needs_end_tag() {
    // A self-closing start tag opens an element like any other; alone it
    // stays open, and a following end tag for its parent mismatches.
    let tokens = tokenize("<br/>");
    let err = parse(&tokens).expect_err("self-closing element stays open");
    assert_eq!(err, ParseError::UnclosedTags);

    let tokens = tokenize("<deck><page/></deck>");
    let err = parse(&tokens).expect_err("parent end tag cannot close the page");
    assert_eq!(
        err,
        ParseError::MismatchedTag { expected: "page".to_string(), found: "deck".to_string() }
    );
}

#[test]
fn parse_deeply_nested_elements() {
    let tokens = tokenize("<a><b><c>x</c></b></a>");
    let root = parse(&tokens).expect("well-formed input");
    let expected = node(
        "a",
        vec![node("b", vec![node("c", vec![], Some("x"))], None)],
        None,
    );
    assert_eq!(root, expected);
}

#[test]
fn parse_text_without_tags_lands_on_placeholder_root() {
    let tokens = tokenize("hi");
    let root = parse(&tokens).expect("bare text is accepted");
    assert_eq!(root, node("", vec![], Some("hi")));
}

#[test]
fn parse_text_after_closed_root_joins_its_buffer() {
    let tokens = tokenize("<a>x</a>y");
    let root = parse(&tokens).expect("trailing text is absorbed");
    assert_eq!(root, node("a", vec![], Some("xy")));
}

#[test]
fn unicode_text_passes_through() {
    let tokens = tokenize("<a>\u{e9}\u{1f4a1}</a>");
    let root = parse(&tokens).expect("well-formed input");
    assert_eq!(root, node("a", vec![], Some("\u{e9}\u{1f4a1}")));
}

#[test]
fn strip_control_removes_tabs_and_newlines() {
    assert_eq!(strip_control("a\tb\nc"), "abc");
    assert_eq!(strip_control("\t\n"), "");
    assert_eq!(strip_control("plain"), "plain");
}

#[test]
fn parse_scale_exact_values() {
    assert_eq!(parse_scale("1.5"), Some(1500));
    assert_eq!(parse_scale("2"), Some(2000));
    assert_eq!(parse_scale("0.25"), Some(250));
    assert_eq!(parse_scale(".5"), Some(500));
    assert_eq!(parse_scale("5."), Some(5000));
    assert_eq!(parse_scale("1.2345"), Some(1234));
}

#[test]
fn parse_scale_rejects_bad_shapes() {
    assert_eq!(parse_scale("oops"), None);
    assert_eq!(parse_scale(""), None);
    assert_eq!(parse_scale("."), None);
    assert_eq!(parse_scale("1.5.2"), None);
    assert_eq!(parse_scale("-1"), None);
    assert_eq!(parse_scale("1234567890123456"), None);
}

#[test]
fn page_breaks_stand_between_pages_only() {
    let (deck, warnings) = deck_of(
        "<deck><page><text>one</text></page><page><text>two</text></page>\
         <page><text>three</text></page></deck>",
    );
    assert!(warnings.is_empty());
    assert_eq!(deck.pages.len(), 3);

    let stream: Vec<&Block> = deck.pages.iter().flat_map(|p| p.blocks.iter()).collect();
    let breaks = stream.iter().filter(|b| matches!(b, Block::PageBreak)).count();
    assert_eq!(breaks, deck.pages.len() - 1);

    // Each page but the last ends in the marker; neither the first block of
    // the stream nor the last one is a marker.
    assert!(matches!(deck.pages[0].blocks.last(), Some(Block::PageBreak)));
    assert!(matches!(deck.pages[1].blocks.last(), Some(Block::PageBreak)));
    assert!(!matches!(deck.pages[2].blocks.last(), Some(Block::PageBreak)));
    assert!(!matches!(stream.first(), Some(Block::PageBreak)));
    assert!(!matches!(stream.last(), Some(Block::PageBreak)));
}

#[test]
fn unparsable_scale_defaults_with_warning() {
    let (deck, warnings) = deck_of(
        "<deck><page><image><path>x.png</path><scale>oops</scale></image></page></deck>",
    );
    assert_eq!(deck.pages.len(), 1);
    assert_eq!(
        deck.pages[0].blocks,
        vec![Block::Image { path: "x.png".to_string(), scale_thousandths: 1000 }]
    );
    assert_eq!(warnings, vec![MapWarning::UnparsableScale { text: "oops".to_string() }]);
}

#[test]
fn non_deck_root_maps_to_empty_model() {
    let (deck, warnings) = deck_of("<root><page><text>hi</text></page></root>");
    assert_eq!(deck.pages.len(), 0);
    assert_eq!(deck.title, None);
    assert!(warnings.is_empty());
}

#[test]
fn paper_presets_follow_size_hint() {
    let root = node("deck", vec![], None);
    let (wide, _) = map_deck(&root, Some("wide"));
    assert_eq!(wide.paper.width_tenth_mm, 2540);
    assert_eq!(wide.paper.height_tenth_mm, 1429);

    let (normal, _) = map_deck(&root, None);
    assert_eq!(normal.paper.width_tenth_mm, 2751);
    assert_eq!(normal.paper.height_tenth_mm, 1905);

    let (other, _) = map_deck(&root, Some("tall"));
    assert_eq!(other.paper, normal.paper);

    assert_eq!(normal.margins.top_tenth_mm, 200);
    assert_eq!(normal.margins.right_tenth_mm, 150);
    assert_eq!(normal.margins.bottom_tenth_mm, 200);
    assert_eq!(normal.margins.left_tenth_mm, 150);
}

#[test]
fn title_heading_and_last_title_wins() {
    let (deck, _) = deck_of(
        "<deck><page><title>First</title></page><page><title>Second</title></page></deck>",
    );
    assert_eq!(deck.title.as_deref(), Some("Second"));
    assert_eq!(
        deck.pages[0].blocks[0],
        Block::Heading { text: "First".to_string(), size: 30, bold: true, centered: true }
    );
}

#[test]
fn page_block_kinds_and_sizes() {
    let (deck, _) = deck_of(
        "<deck><page><head>H</head><text>T</text><br></br>\
         <ul><li>u1</li><li>u2</li><x>skip</x></ul>\
         <ol><li>o1</li></ol></page></deck>",
    );
    assert_eq!(
        deck.pages[0].blocks,
        vec![
            Block::Subheading { text: "H".to_string() },
            Block::Paragraph { text: "T".to_string(), size: 24 },
            Block::LineBreak,
            Block::BulletList { items: vec!["u1".to_string(), "u2".to_string()] },
            Block::NumberedList { items: vec!["o1".to_string()] },
        ]
    );
}

#[test]
fn image_without_path_emits_nothing() {
    let (deck, warnings) = deck_of(
        "<deck><page><image><scale>bad</scale></image></page></deck>",
    );
    assert!(deck.pages[0].blocks.is_empty());
    assert_eq!(warnings, vec![MapWarning::UnparsableScale { text: "bad".to_string() }]);
}

#[test]
fn image_scale_parses_and_last_path_wins() {
    let (deck, warnings) = deck_of(
        "<deck><page><image><path>a.png</path><path>b.png</path>\
         <scale>0.5</scale></image></page></deck>",
    );
    assert!(warnings.is_empty());
    assert_eq!(
        deck.pages[0].blocks,
        vec![Block::Image { path: "b.png".to_string(), scale_thousandths: 500 }]
    );
}

#[test]
fn unknown_tags_inside_page_are_ignored() {
    let (deck, warnings) = deck_of(
        "<deck><page><mystery>?</mystery><text>kept</text></page><notes></notes></deck>",
    );
    assert!(warnings.is_empty());
    assert_eq!(deck.pages.len(), 1);
    assert_eq!(
        deck.pages[0].blocks,
        vec![Block::Paragraph { text: "kept".to_string(), size: 24 }]
    );
}

#[test]
fn compile_reports_structural_errors() {
    let err = compile("<deck><page></deck>", None).expect_err("mismatch");
    assert_eq!(
        err,
        ParseError::MismatchedTag { expected: "page".to_string(), found: "deck".to_string() }
    );
}

#[test]
fn compile_strips_control_characters_first() {
    let (deck, _) = compile("<deck>\n\t<page>\n<text>hi</text></page>\n</deck>", None)
        .expect("whitespace-laden input should parse");
    assert_eq!(deck.pages.len(), 1);
    assert_eq!(
        deck.pages[0].blocks,
        vec![Block::Paragraph { text: "hi".to_string(), size: 24 }]
    );
}
