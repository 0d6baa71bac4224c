use vstd::prelude::*;

use crate::ast::AstNode;
use crate::ast::NodeModel;
use crate::ast::groups_model;
use crate::ast::lang_model;
use crate::ast::lemma_groups_model_push;
use crate::ast::lemma_nodes_model_push;
use crate::ast::nodes_model;
use crate::events::Construct;
use crate::events::ConstructModel;
use crate::events::EventModel;
use crate::events::MdEvent;
use crate::events::events_model;
use crate::events::lemma_net_depth_take_step;
use crate::events::net_depth;
use crate::events::well_nested;
use vstd::pervasive::unreached;
use vstd::string::StringExecFns;

verus! {

/// One currently-open construct of the reducer.
#[derive(Debug, PartialEq, Eq)]
pub enum Frame {
    Root,
    Heading { level: u8 },
    Paragraph,
    Emphasis,
    Strong,
    BlockQuote,
    List { ordered: bool },
    ListItem,
    Link { url: String },
    CodeBlock { language: Option<String> },
}

/// Model of a frame.
pub enum FrameModel {
    Root,
    Heading { level: u8 },
    Paragraph,
    Emphasis,
    Strong,
    BlockQuote,
    List { ordered: bool },
    ListItem,
    Link { url: Seq<char> },
    CodeBlock { language: Option<Seq<char>> },
}

impl View for Frame {
    type V = FrameModel;

    open spec fn view(&self) -> FrameModel {
        match *self {
            Frame::Root => FrameModel::Root,
            Frame::Heading { level } => FrameModel::Heading { level },
            Frame::Paragraph => FrameModel::Paragraph,
            Frame::Emphasis => FrameModel::Emphasis,
            Frame::Strong => FrameModel::Strong,
            Frame::BlockQuote => FrameModel::BlockQuote,
            Frame::List { ordered } => FrameModel::List { ordered },
            Frame::ListItem => FrameModel::ListItem,
            Frame::Link { url } => FrameModel::Link { url: url@ },
            Frame::CodeBlock { language } => FrameModel::CodeBlock {
                language: lang_model(language),
            },
        }
    }
}

/// The frame a start event opens: each recognized construct keeps its fields,
/// and every unrecognized construct falls back to a paragraph.
pub open spec fn frame_of(c: ConstructModel) -> FrameModel {
    match c {
        ConstructModel::Heading { level } => FrameModel::Heading { level },
        ConstructModel::Paragraph => FrameModel::Paragraph,
        ConstructModel::Emphasis => FrameModel::Emphasis,
        ConstructModel::Strong => FrameModel::Strong,
        ConstructModel::BlockQuote => FrameModel::BlockQuote,
        ConstructModel::List { ordered } => FrameModel::List { ordered },
        ConstructModel::ListItem => FrameModel::ListItem,
        ConstructModel::Link { url } => FrameModel::Link { url },
        ConstructModel::CodeBlock { language } => FrameModel::CodeBlock { language },
        ConstructModel::Other => FrameModel::Paragraph,
    }
}

/// The child groups a closing list keeps: the children of each `ListItem`
/// entry of its accumulator, in order; every other entry is dropped.
pub open spec fn list_items_of(acc: Seq<NodeModel>) -> Seq<Seq<NodeModel>>
    decreases acc,
{
    if acc.len() == 0 {
        Seq::empty()
    } else {
        let rest = list_items_of(acc.drop_last());
        match acc.last() {
            NodeModel::ListItem { children } => rest.push(children),
            _ => rest,
        }
    }
}

/// The code a closing code block keeps: the concatenation of the values of
/// the `Text` entries of its accumulator, in order; every other entry is
/// dropped.
pub open spec fn code_text_of(acc: Seq<NodeModel>) -> Seq<char>
    decreases acc,
{
    if acc.len() == 0 {
        Seq::empty()
    } else {
        code_text_of(acc.drop_last()) + match acc.last() {
            NodeModel::Text { value } => value,
            _ => Seq::empty(),
        }
    }
}

/// The node a closed frame turns into, given its accumulated children.
pub open spec fn build_model(f: FrameModel, acc: Seq<NodeModel>) -> Option<NodeModel> {
    match f {
        FrameModel::Root => Some(NodeModel::Document { children: acc }),
        FrameModel::Heading { level } => Some(NodeModel::Heading { level, children: acc }),
        FrameModel::Paragraph => Some(NodeModel::Paragraph { children: acc }),
        FrameModel::Emphasis => Some(NodeModel::Emphasis { children: acc }),
        FrameModel::Strong => Some(NodeModel::Strong { children: acc }),
        FrameModel::BlockQuote => Some(NodeModel::BlockQuote { children: acc }),
        FrameModel::List { ordered } => Some(
            NodeModel::List { ordered, items: list_items_of(acc) },
        ),
        FrameModel::ListItem => Some(NodeModel::ListItem { children: acc }),
        FrameModel::Link { url } => Some(NodeModel::Link { url, children: acc }),
        FrameModel::CodeBlock { language } => Some(
            NodeModel::CodeBlock { language, code: code_text_of(acc) },
        ),
    }
}

/// Model of the reducer's stack: one open frame with its accumulator per
/// entry, bottom first.
pub open spec fn init_stack() -> Seq<(FrameModel, Seq<NodeModel>)> {
    seq![(FrameModel::Root, Seq::empty())]
}

/// Appends a built node, if any, to the accumulator of the top entry.
pub open spec fn push_built(
    st: Seq<(FrameModel, Seq<NodeModel>)>,
    b: Option<NodeModel>,
) -> Seq<(FrameModel, Seq<NodeModel>)>
    recommends
        st.len() >= 1,
{
    match b {
        Some(n) => st.drop_last().push((st.last().0, st.last().1.push(n))),
        None => st,
    }
}

/// One reducer step: push a frame on a start event, pop and build on an end
/// event, append a leaf on a text or inline-code event, ignore the rest.
pub open spec fn step_model(
    st: Seq<(FrameModel, Seq<NodeModel>)>,
    e: EventModel,
) -> Seq<(FrameModel, Seq<NodeModel>)>
    recommends
        st.len() >= 1,
{
    match e {
        EventModel::Start(c) => st.push((frame_of(c), Seq::empty())),
        EventModel::End => push_built(st.drop_last(), build_model(st.last().0, st.last().1)),
        EventModel::Text(s) => push_built(st, Some(NodeModel::Text { value: s })),
        EventModel::InlineCode(s) => push_built(st, Some(NodeModel::InlineCode { value: s })),
        EventModel::Other => st,
    }
}

/// The stack after consuming a whole event sequence.
pub open spec fn run_model(
    st: Seq<(FrameModel, Seq<NodeModel>)>,
    evs: Seq<EventModel>,
) -> Seq<(FrameModel, Seq<NodeModel>)>
    decreases evs,
{
    if evs.len() == 0 {
        st
    } else {
        step_model(run_model(st, evs.drop_last()), evs.last())
    }
}

/// The document a well-nested event sequence reduces to: the root frame is
/// the one entry left, and it builds the `Document`.
pub open spec fn parse_model(evs: Seq<EventModel>) -> NodeModel
    recommends
        well_nested(evs),
{
    NodeModel::Document { children: run_model(init_stack(), evs)[0].1 }
}

/// While no prefix has closed more constructs than it opened, the stack holds
/// exactly one entry more than the prefix's net nesting depth, and its bottom
/// frame stays the root.
pub proof fn lemma_stack_tracks_depth(evs: Seq<EventModel>, i: int)
    requires
        0 <= i <= evs.len(),
        forall|j: int| 0 <= j <= i ==> net_depth(#[trigger] evs.take(j)) >= 0,
    ensures
        run_model(init_stack(), evs.take(i)).len() == 1 + net_depth(evs.take(i)),
        run_model(init_stack(), evs.take(i))[0].0 == FrameModel::Root,
    decreases i,
{
    if i == 0 {
        assert(evs.take(0) =~= Seq::empty());
    } else {
        lemma_stack_tracks_depth(evs, i - 1);
        lemma_net_depth_take_step(evs, i - 1);
        let st = run_model(init_stack(), evs.take(i - 1));
        assert(evs.take(i).drop_last() =~= evs.take(i - 1));
        assert(evs.take(i).last() == evs[i - 1]);
        match evs[i - 1] {
            EventModel::End => {
                assert(net_depth(evs.take(i)) >= 0);
                assert(st.len() >= 2);
            },
            _ => {},
        }
    }
}

fn construct_to_frame(c: &Construct) -> (f: Frame)
    ensures
        f@ == frame_of(c@),
{
    match c {
        Construct::Heading { level } => Frame::Heading { level: *level },
        Construct::Paragraph => Frame::Paragraph,
        Construct::Emphasis => Frame::Emphasis,
        Construct::Strong => Frame::Strong,
        Construct::BlockQuote => Frame::BlockQuote,
        Construct::List { ordered } => Frame::List { ordered: *ordered },
        Construct::ListItem => Frame::ListItem,
        Construct::Link { url } => Frame::Link { url: url.clone() },
        Construct::CodeBlock { language } => Frame::CodeBlock {
            language: match language {
                Some(l) => Some(l.clone()),
                None => None,
            },
        },
        Construct::Other => Frame::Paragraph,
    }
}

pub open spec fn opt_node_model(r: Option<AstNode>) -> Option<NodeModel> {
    match r {
        Some(n) => Some(n@),
        None => None,
    }
}

proof fn lemma_list_items_push(s: Seq<NodeModel>, m: NodeModel)
    ensures
        list_items_of(s.push(m)) == match m {
            NodeModel::ListItem { children } => list_items_of(s).push(children),
            _ => list_items_of(s),
        },
{
    assert(s.push(m).drop_last() =~= s);
    assert(s.push(m).last() == m);
}

proof fn lemma_code_text_push(s: Seq<NodeModel>, m: NodeModel)
    ensures
        code_text_of(s.push(m)) == code_text_of(s) + match m {
            NodeModel::Text { value } => value,
            _ => Seq::<char>::empty(),
        },
{
    assert(s.push(m).drop_last() =~= s);
    assert(s.push(m).last() == m);
}

/// Turns one closed frame and its accumulated children into a node.
///
/// Every frame kind yields a node: a list keeps only the children of its
/// `ListItem` entries, a code block concatenates only its `Text` entries, and
/// every other frame wraps its accumulator unchanged.
pub fn build_node(frame: Frame, children: Vec<AstNode>) -> (r: Option<AstNode>)
    ensures
        opt_node_model(r) == build_model(frame@, nodes_model(children@)),
        r is Some,
{
    match frame {
        Frame::Root => Some(AstNode::Document { children }),
        Frame::Heading { level } => Some(AstNode::Heading { level, children }),
        Frame::Paragraph => Some(AstNode::Paragraph { children }),
        Frame::Emphasis => Some(AstNode::Emphasis { children }),
        Frame::Strong => Some(AstNode::Strong { children }),
        Frame::BlockQuote => Some(AstNode::BlockQuote { children }),
        Frame::List { ordered } => {
            let ghost orig = children@;
            let mut rest = children;
            let mut items: Vec<Vec<AstNode>> = Vec::new();
            let ghost mut k: int = 0;
            proof {
                assert(orig.take(0) =~= Seq::empty());
            }
            while rest.len() > 0
                invariant
                    0 <= k <= orig.len(),
                    rest@ == orig.skip(k),
                    groups_model(items@) == list_items_of(nodes_model(orig.take(k))),
                decreases rest@.len(),
            {
                let node = rest.remove(0);
                proof {
                    assert(node == orig[k]);
                    assert(rest@ =~= orig.skip(k + 1));
                    assert(orig.take(k + 1) =~= orig.take(k).push(orig[k]));
                    lemma_nodes_model_push(orig.take(k), orig[k]);
                    lemma_list_items_push(nodes_model(orig.take(k)), node@);
                }
                let ghost items_before = items@;
                match node {
                    AstNode::ListItem { children: item } => {
                        proof {
                            lemma_groups_model_push(items_before, item);
                        }
                        items.push(item);
                    },
                    _ => {},
                }
                proof {
                    k = k + 1;
                }
            }
            proof {
                assert(orig.take(k) =~= orig);
            }
            Some(AstNode::List { ordered, items })
        },
        Frame::ListItem => Some(AstNode::ListItem { children }),
        Frame::Link { url } => Some(AstNode::Link { url, children }),
        Frame::CodeBlock { language } => {
            let ghost orig = children@;
            let mut rest = children;
            let mut code = String::new();
            let ghost mut k: int = 0;
            proof {
                assert(orig.take(0) =~= Seq::empty());
            }
            while rest.len() > 0
                invariant
                    0 <= k <= orig.len(),
                    rest@ == orig.skip(k),
                    code@ == code_text_of(nodes_model(orig.take(k))),
                decreases rest@.len(),
            {
                let node = rest.remove(0);
                proof {
                    assert(node == orig[k]);
                    assert(rest@ =~= orig.skip(k + 1));
                    assert(orig.take(k + 1) =~= orig.take(k).push(orig[k]));
                    lemma_nodes_model_push(orig.take(k), orig[k]);
                    lemma_code_text_push(nodes_model(orig.take(k)), node@);
                }
                match node {
                    AstNode::Text { value } => {
                        code.append(value.as_str());
                    },
                    _ => {
                        proof {
                            assert(code@ + Seq::<char>::empty() =~= code@);
                        }
                    },
                }
                proof {
                    k = k + 1;
                }
            }
            proof {
                assert(orig.take(k) =~= orig);
            }
            Some(AstNode::CodeBlock { language, code })
        },
    }
}

struct StackItem {
    frame: Frame,
    children: Vec<AstNode>,
}

spec fn stack_model(st: Seq<StackItem>) -> Seq<(FrameModel, Seq<NodeModel>)> {
    st.map_values(|it: StackItem| (it.frame@, nodes_model(it.children@)))
}

/// Reduces a flat, well-nested event sequence to the one document it
/// describes: a start event opens a frame, an end event closes the newest
/// open frame and hands the built node to the frame below, text and inline
/// code become leaves of the newest open frame, and every other event is
/// ignored.
pub fn parse_events(events: &Vec<MdEvent>) -> (r: AstNode)
    requires
        well_nested(events_model(events@)),
    ensures
        r@ == parse_model(events_model(events@)),
        r matches AstNode::Document { .. },
{
    let ghost evs = events_model(events@);
    let mut stack: Vec<StackItem> = Vec::new();
    stack.push(StackItem { frame: Frame::Root, children: Vec::new() });
    proof {
        assert(evs.take(0) =~= Seq::empty());
        assert(stack_model(stack@) =~= init_stack());
    }
    let mut i: usize = 0;
    while i < events.len()
        invariant
            0 <= i <= events.len(),
            evs == events_model(events@),
            evs.len() == events@.len(),
            well_nested(evs),
            stack@.len() >= 1,
            stack@.len() == 1 + net_depth(evs.take(i as int)),
            stack_model(stack@) == run_model(init_stack(), evs.take(i as int)),
        decreases events@.len() - i,
    {
        let ghost st = stack_model(stack@);
        proof {
            lemma_net_depth_take_step(evs, i as int);
            assert(net_depth(evs.take(i as int + 1)) >= 0);
            assert(evs.take(i as int + 1).drop_last() =~= evs.take(i as int));
            assert(evs.take(i as int + 1).last() == evs[i as int]);
            assert(evs[i as int] == events@[i as int]@);
        }
        match &events[i] {
            MdEvent::Start(c) => {
                let f = construct_to_frame(c);
                stack.push(StackItem { frame: f, children: Vec::new() });
                proof {
                    assert(stack_model(stack@) =~= st.push((f@, Seq::empty())));
                }
            },
            MdEvent::End => {
                let ghost item_model = st.last();
                let ghost below_model = st.drop_last().last();
                let item = stack.pop().unwrap();
                proof {
                    assert(item_model == (item.frame@, nodes_model(item.children@)));
                }
                let built = build_node(item.frame, item.children);
                let mut under = stack.pop().unwrap();
                let ghost under_children = under.children@;
                proof {
                    assert(below_model == (under.frame@, nodes_model(under_children)));
                }
                match built {
                    Some(n) => {
                        under.children.push(n);
                        proof {
                            lemma_nodes_model_push(under_children, n);
                        }
                    },
                    None => {},
                }
                stack.push(under);
                proof {
                    assert(stack_model(stack@) =~= step_model(st, evs[i as int]));
                }
            },
            MdEvent::Text(value) => {
                let mut top = stack.pop().unwrap();
                let ghost top_children = top.children@;
                top.children.push(AstNode::Text { value: value.clone() });
                proof {
                    lemma_nodes_model_push(top_children, AstNode::Text { value: *value });
                }
                stack.push(top);
                proof {
                    assert(stack_model(stack@) =~= step_model(st, evs[i as int]));
                }
            },
            MdEvent::InlineCode(value) => {
                let mut top = stack.pop().unwrap();
                let ghost top_children = top.children@;
                top.children.push(AstNode::InlineCode { value: value.clone() });
                proof {
                    lemma_nodes_model_push(top_children, AstNode::InlineCode { value: *value });
                }
                stack.push(top);
                proof {
                    assert(stack_model(stack@) =~= step_model(st, evs[i as int]));
                }
            },
            MdEvent::Other => {},
        }
        i += 1;
    }
    proof {
        assert(evs.take(i as int) =~= evs);
        lemma_stack_tracks_depth(evs, evs.len() as int);
        assert(evs.take(evs.len() as int) =~= evs);
    }
    let ghost final_model = stack_model(stack@);
    let root = stack.pop().unwrap();
    proof {
        assert(final_model[0] == (root.frame@, nodes_model(root.children@)));
        assert(root.frame@ == FrameModel::Root);
    }
    match build_node(root.frame, root.children) {
        Some(n) => {
            proof {
                assert(n@ == NodeModel::Document { children: nodes_model(root.children@) });
            }
            n
        },
        None => unreached(),
    }
}

} // verus!
