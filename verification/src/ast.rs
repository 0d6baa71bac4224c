use vstd::prelude::*;

verus! {

/// A node of the materialized Markdown document tree.
///
/// `Document` is the unique root kind; every other kind appears only as a
/// descendant of it. The tree is fully built before it is handed out.
#[derive(Debug, PartialEq, Eq)]
pub enum AstNode {
    Document { children: Vec<AstNode> },
    Heading { level: u8, children: Vec<AstNode> },
    Paragraph { children: Vec<AstNode> },
    BlockQuote { children: Vec<AstNode> },
    List { ordered: bool, items: Vec<Vec<AstNode>> },
    ListItem { children: Vec<AstNode> },
    CodeBlock { language: Option<String>, code: String },
    Table { headers: Vec<AstNode>, rows: Vec<Vec<AstNode>> },
    Text { value: String },
    Strong { children: Vec<AstNode> },
    Emphasis { children: Vec<AstNode> },
    InlineCode { value: String },
    Link { url: String, children: Vec<AstNode> },
    Image { url: String, alt: Option<String> },
    HorizontalRule,
    Footnote { name: String, children: Vec<AstNode> },
    Html { value: String },
}

/// The mathematical model of a tree node: strings become sequences of
/// characters and child vectors become sequences of models.
pub enum NodeModel {
    Document { children: Seq<NodeModel> },
    Heading { level: u8, children: Seq<NodeModel> },
    Paragraph { children: Seq<NodeModel> },
    BlockQuote { children: Seq<NodeModel> },
    List { ordered: bool, items: Seq<Seq<NodeModel>> },
    ListItem { children: Seq<NodeModel> },
    CodeBlock { language: Option<Seq<char>>, code: Seq<char> },
    Table { headers: Seq<NodeModel>, rows: Seq<Seq<NodeModel>> },
    Text { value: Seq<char> },
    Strong { children: Seq<NodeModel> },
    Emphasis { children: Seq<NodeModel> },
    InlineCode { value: Seq<char> },
    Link { url: Seq<char>, children: Seq<NodeModel> },
    Image { url: Seq<char>, alt: Option<Seq<char>> },
    HorizontalRule,
    Footnote { name: Seq<char>, children: Seq<NodeModel> },
    Html { value: Seq<char> },
}

pub open spec fn lang_model(language: Option<String>) -> Option<Seq<char>> {
    match language {
        Some(l) => Some(l@),
        None => None,
    }
}

pub open spec fn alt_model(alt: Option<String>) -> Option<Seq<char>> {
    match alt {
        Some(a) => Some(a@),
        None => None,
    }
}

pub open spec fn node_model(n: AstNode) -> NodeModel
    decreases n,
{
    match n {
        AstNode::Document { children } => NodeModel::Document {
            children: nodes_model(children@),
        },
        AstNode::Heading { level, children } => NodeModel::Heading {
            level,
            children: nodes_model(children@),
        },
        AstNode::Paragraph { children } => NodeModel::Paragraph {
            children: nodes_model(children@),
        },
        AstNode::BlockQuote { children } => NodeModel::BlockQuote {
            children: nodes_model(children@),
        },
        AstNode::List { ordered, items } => NodeModel::List {
            ordered,
            items: groups_model(items@),
        },
        AstNode::ListItem { children } => NodeModel::ListItem {
            children: nodes_model(children@),
        },
        AstNode::CodeBlock { language, code } => NodeModel::CodeBlock {
            language: lang_model(language),
            code: code@,
        },
        AstNode::Table { headers, rows } => NodeModel::Table {
            headers: nodes_model(headers@),
            rows: groups_model(rows@),
        },
        AstNode::Text { value } => NodeModel::Text { value: value@ },
        AstNode::Strong { children } => NodeModel::Strong {
            children: nodes_model(children@),
        },
        AstNode::Emphasis { children } => NodeModel::Emphasis {
            children: nodes_model(children@),
        },
        AstNode::InlineCode { value } => NodeModel::InlineCode { value: value@ },
        AstNode::Link { url, children } => NodeModel::Link {
            url: url@,
            children: nodes_model(children@),
        },
        AstNode::Image { url, alt } => NodeModel::Image { url: url@, alt: alt_model(alt) },
        AstNode::HorizontalRule => NodeModel::HorizontalRule,
        AstNode::Footnote { name, children } => NodeModel::Footnote {
            name: name@,
            children: nodes_model(children@),
        },
        AstNode::Html { value } => NodeModel::Html { value: value@ },
    }
}

/// Model of a sequence of nodes, element by element.
pub open spec fn nodes_model(s: Seq<AstNode>) -> Seq<NodeModel>
    decreases s,
{
    if s.len() == 0 {
        Seq::empty()
    } else {
        nodes_model(s.drop_last()).push(node_model(s.last()))
    }
}

/// Model of a sequence of child groups (as under `List.items`).
pub open spec fn groups_model(s: Seq<Vec<AstNode>>) -> Seq<Seq<NodeModel>>
    decreases s,
{
    if s.len() == 0 {
        Seq::empty()
    } else {
        groups_model(s.drop_last()).push(nodes_model(s.last()@))
    }
}

impl View for AstNode {
    type V = NodeModel;

    open spec fn view(&self) -> NodeModel {
        node_model(*self)
    }
}

pub proof fn lemma_nodes_model_push(s: Seq<AstNode>, n: AstNode)
    ensures
        nodes_model(s.push(n)) == nodes_model(s).push(node_model(n)),
{
    assert(s.push(n).drop_last() =~= s);
    assert(s.push(n).last() == n);
}

pub proof fn lemma_groups_model_push(s: Seq<Vec<AstNode>>, g: Vec<AstNode>)
    ensures
        groups_model(s.push(g)) == groups_model(s).push(nodes_model(g@)),
{
    assert(s.push(g).drop_last() =~= s);
    assert(s.push(g).last() == g);
}

} // verus!
