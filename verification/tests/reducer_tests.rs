use md_ast::AstNode;
use md_ast::Construct;
use md_ast::MdEvent;
use md_ast::Frame;
use md_ast::build_node;
use md_ast::parse_events;

fn text(s: &str) -> AstNode {
    AstNode::Text { value: s.to_string() }
}

#[test]
fn empty_events_yield_empty_document() {
    let events: Vec<MdEvent> = Vec::new();
    let doc = parse_events(&events);
    assert_eq!(doc, AstNode::Document { children: vec![] });
}

#[test]
fn leaves_go_to_the_open_frame() {
    let events = vec![
        MdEvent::Start(Construct::Paragraph),
        MdEvent::Text("a".to_string()),
        MdEvent::InlineCode("b".to_string()),
        MdEvent::End,
    ];
    let doc = parse_events(&events);
    assert_eq!(
        doc,
        AstNode::Document {
            children: vec![AstNode::Paragraph {
                children: vec![text("a"), AstNode::InlineCode { value: "b".to_string() }],
            }],
        }
    );
}

#[test]
fn list_keeps_only_item_children_in_order() {
    let events = vec![
        MdEvent::Start(Construct::List { ordered: false }),
        MdEvent::Start(Construct::ListItem),
        MdEvent::Text("a".to_string()),
        MdEvent::End,
        MdEvent::Text("stray".to_string()),
        MdEvent::Start(Construct::ListItem),
        MdEvent::Text("b".to_string()),
        MdEvent::End,
        MdEvent::Start(Construct::Other),
        MdEvent::End,
        MdEvent::End,
    ];
    let doc = parse_events(&events);
    assert_eq!(
        doc,
        AstNode::Document {
            children: vec![AstNode::List {
                ordered: false,
                items: vec![vec![text("a")], vec![text("b")]],
            }],
        }
    );
}

#[test]
fn fenced_code_block_concatenates_text_lines() {
    let events = vec![
        MdEvent::Start(Construct::CodeBlock { language: Some("rust".to_string()) }),
        MdEvent::Text("a\n".to_string()),
        MdEvent::Text("b\n".to_string()),
        MdEvent::End,
    ];
    let doc = parse_events(&events);
    assert_eq!(
        doc,
        AstNode::Document {
            children: vec![AstNode::CodeBlock {
                language: Some("rust".to_string()),
                code: "a\nb\n".to_string(),
            }],
        }
    );
}

#[test]
fn indented_code_block_has_no_language() {
    let events = vec![
        MdEvent::Start(Construct::CodeBlock { language: None }),
        MdEvent::Text("x\n".to_string()),
        MdEvent::End,
    ];
    let doc = parse_events(&events);
    assert_eq!(
        doc,
        AstNode::Document {
            children: vec![AstNode::CodeBlock { language: None, code: "x\n".to_string() }],
        }
    );
}

#[test]
fn code_block_drops_non_text_children() {
    let events = vec![
        MdEvent::Start(Construct::CodeBlock { language: None }),
        MdEvent::Text("a".to_string()),
        MdEvent::InlineCode("dropped".to_string()),
        MdEvent::Text("b".to_string()),
        MdEvent::End,
    ];
    let doc = parse_events(&events);
    assert_eq!(
        doc,
        AstNode::Document {
            children: vec![AstNode::CodeBlock { language: None, code: "ab".to_string() }],
        }
    );
}

#[test]
fn strong_with_nested_emphasis() {
    let events = vec![
        MdEvent::Start(Construct::Strong),
        MdEvent::Text("a ".to_string()),
        MdEvent::Start(Construct::Emphasis),
        MdEvent::Text("b".to_string()),
        MdEvent::End,
        MdEvent::Text(" c".to_string()),
        MdEvent::End,
    ];
    let doc = parse_events(&events);
    assert_eq!(
        doc,
        AstNode::Document {
            children: vec![AstNode::Strong {
                children: vec![
                    text("a "),
                    AstNode::Emphasis { children: vec![text("b")] },
                    text(" c"),
                ],
            }],
        }
    );
}

#[test]
fn unrecognized_construct_becomes_paragraph() {
    let events = vec![
        MdEvent::Start(Construct::Other),
        MdEvent::Text("x".to_string()),
        MdEvent::End,
    ];
    let doc = parse_events(&events);
    assert_eq!(
        doc,
        AstNode::Document {
            children: vec![AstNode::Paragraph { children: vec![text("x")] }],
        }
    );
}

#[test]
fn tree_depth_follows_event_nesting() {
    let events = vec![
        MdEvent::Start(Construct::BlockQuote),
        MdEvent::Start(Construct::Paragraph),
        MdEvent::Text("x".to_string()),
        MdEvent::End,
        MdEvent::End,
        MdEvent::Start(Construct::Paragraph),
        MdEvent::Text("y".to_string()),
        MdEvent::End,
    ];
    let doc = parse_events(&events);
    assert_eq!(
        doc,
        AstNode::Document {
            children: vec![
                AstNode::BlockQuote {
                    children: vec![AstNode::Paragraph { children: vec![text("x")] }],
                },
                AstNode::Paragraph { children: vec![text("y")] },
            ],
        }
    );
}

#[test]
fn ignored_events_change_nothing() {
    let events = vec![
        MdEvent::Other,
        MdEvent::Start(Construct::Paragraph),
        MdEvent::Other,
        MdEvent::Text("x".to_string()),
        MdEvent::End,
        MdEvent::Other,
    ];
    let doc = parse_events(&events);
    assert_eq!(
        doc,
        AstNode::Document {
            children: vec![AstNode::Paragraph { children: vec![text("x")] }],
        }
    );
}

#[test]
fn heading_and_link_frames_carry_their_fields() {
    let events = vec![
        MdEvent::Start(Construct::Heading { level: 3 }),
        MdEvent::Start(Construct::Link { url: "http://e/".to_string() }),
        MdEvent::Text("t".to_string()),
        MdEvent::End,
        MdEvent::End,
    ];
    let doc = parse_events(&events);
    assert_eq!(
        doc,
        AstNode::Document {
            children: vec![AstNode::Heading {
                level: 3,
                children: vec![AstNode::Link {
                    url: "http://e/".to_string(),
                    children: vec![text("t")],
                }],
            }],
        }
    );
}

#[test]
fn build_node_maps_each_frame_kind() {
    assert_eq!(
        build_node(Frame::Root, vec![]),
        Some(AstNode::Document { children: vec![] })
    );
    assert_eq!(
        build_node(Frame::Heading { level: 2 }, vec![text("h")]),
        Some(AstNode::Heading { level: 2, children: vec![text("h")] })
    );
    assert_eq!(
        build_node(Frame::BlockQuote, vec![]),
        Some(AstNode::BlockQuote { children: vec![] })
    );
    assert_eq!(
        build_node(
            Frame::List { ordered: true },
            vec![
                AstNode::ListItem { children: vec![text("a")] },
                text("stray"),
                AstNode::ListItem { children: vec![] },
            ],
        ),
        Some(AstNode::List {
            ordered: true,
            items: vec![vec![text("a")], vec![]],
        })
    );
    assert_eq!(
        build_node(
            Frame::CodeBlock { language: Some("c".to_string()) },
            vec![text("x"), text("y")],
        ),
        Some(AstNode::CodeBlock {
            language: Some("c".to_string()),
            code: "xy".to_string(),
        })
    );
}

#[test]
fn empty_list_and_empty_code_block() {
    assert_eq!(
        build_node(Frame::List { ordered: false }, vec![]),
        Some(AstNode::List { ordered: false, items: vec![] })
    );
    assert_eq!(
        build_node(Frame::CodeBlock { language: None }, vec![]),
        Some(AstNode::CodeBlock { language: None, code: String::new() })
    );
}
