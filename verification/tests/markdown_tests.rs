use md_ast::AstNode;
use md_ast::parse_markdown;

fn text(s: &str) -> AstNode {
    AstNode::Text { value: s.to_string() }
}

#[test]
fn empty_input_parses_to_empty_document() {
    assert_eq!(parse_markdown(""), AstNode::Document { children: vec![] });
}

#[test]
fn heading_parses_with_level_and_text() {
    assert_eq!(
        parse_markdown("# Hi"),
        AstNode::Document {
            children: vec![AstNode::Heading { level: 1, children: vec![text("Hi")] }],
        }
    );
}

#[test]
fn paragraph_with_inline_code() {
    assert_eq!(
        parse_markdown("a `b` c"),
        AstNode::Document {
            children: vec![AstNode::Paragraph {
                children: vec![
                    text("a "),
                    AstNode::InlineCode { value: "b".to_string() },
                    text(" c"),
                ],
            }],
        }
    );
}

#[test]
fn strong_with_nested_emphasis_from_source() {
    assert_eq!(
        parse_markdown("**a *b* c**"),
        AstNode::Document {
            children: vec![AstNode::Paragraph {
                children: vec![AstNode::Strong {
                    children: vec![
                        text("a "),
                        AstNode::Emphasis { children: vec![text("b")] },
                        text(" c"),
                    ],
                }],
            }],
        }
    );
}

#[test]
fn fenced_code_block_from_source() {
    assert_eq!(
        parse_markdown("```rust\na\nb\n```\n"),
        AstNode::Document {
            children: vec![AstNode::CodeBlock {
                language: Some("rust".to_string()),
                code: "a\nb\n".to_string(),
            }],
        }
    );
}

#[test]
fn indented_code_block_from_source_has_no_language() {
    let doc = parse_markdown("    a\n    b\n");
    match doc {
        AstNode::Document { children } => {
            assert_eq!(children.len(), 1);
            match &children[0] {
                AstNode::CodeBlock { language, code } => {
                    assert_eq!(*language, None);
                    assert_eq!(code, "a\nb\n");
                }
                other => panic!("expected a code block, got {:?}", other),
            }
        }
        other => panic!("expected a document, got {:?}", other),
    }
}

#[test]
fn unordered_list_collects_items() {
    assert_eq!(
        parse_markdown("- a\n- b\n"),
        AstNode::Document {
            children: vec![AstNode::List {
                ordered: false,
                items: vec![vec![text("a")], vec![text("b")]],
            }],
        }
    );
}

#[test]
fn ordered_list_is_marked_ordered() {
    assert_eq!(
        parse_markdown("1. a\n2. b\n"),
        AstNode::Document {
            children: vec![AstNode::List {
                ordered: true,
                items: vec![vec![text("a")], vec![text("b")]],
            }],
        }
    );
}

#[test]
fn block_quote_wraps_paragraph() {
    assert_eq!(
        parse_markdown("> q"),
        AstNode::Document {
            children: vec![AstNode::BlockQuote {
                children: vec![AstNode::Paragraph { children: vec![text("q")] }],
            }],
        }
    );
}

#[test]
fn link_carries_destination() {
    assert_eq!(
        parse_markdown("[t](http://e/)"),
        AstNode::Document {
            children: vec![AstNode::Paragraph {
                children: vec![AstNode::Link {
                    url: "http://e/".to_string(),
                    children: vec![text("t")],
                }],
            }],
        }
    );
}

#[test]
fn equal_inputs_parse_to_equal_trees() {
    let source = "# Hi\n\n- a\n- b\n\n```rust\nx\n```\n";
    assert_eq!(parse_markdown(source), parse_markdown(source));
}

#[test]
fn html_block_falls_back_to_paragraph() {
    let doc = parse_markdown("<div>hi</div>\n");
    match doc {
        AstNode::Document { children } => {
            assert_eq!(children.len(), 1);
            assert!(matches!(children[0], AstNode::Paragraph { .. }));
        }
        other => panic!("expected a document, got {:?}", other),
    }
}
