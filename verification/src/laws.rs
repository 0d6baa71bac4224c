use vstd::prelude::*;

use crate::ast::NodeModel;
use crate::events::ConstructModel;
use crate::events::EventModel;
use crate::events::net_depth;
use crate::events::well_nested;
use crate::events::lemma_net_depth_take_step;
use crate::parser::FrameModel;
use crate::parser::frame_of;
use crate::parser::build_model;
use crate::parser::init_stack;
use crate::parser::lemma_stack_tracks_depth;
use crate::parser::list_items_of;
use crate::parser::parse_model;
use crate::parser::run_model;
use crate::parser::step_model;

verus! {

/// The children a list keeps of one accumulator entry: those of a
/// `ListItem`, nothing of anything else.
pub open spec fn item_children(n: NodeModel) -> Seq<NodeModel> {
    match n {
        NodeModel::ListItem { children } => children,
        _ => Seq::empty(),
    }
}

proof fn lemma_map_values_push(s: Seq<NodeModel>, f: spec_fn(NodeModel) -> Seq<NodeModel>, x: NodeModel)
    ensures
        s.push(x).map_values(f) == s.map_values(f).push(f(x)),
{
    assert(s.push(x).map_values(f) =~= s.map_values(f).push(f(x)));
}

/// A built list keeps exactly the child lists of the `ListItem` entries of
/// its accumulator: one group per `ListItem`, in their order of appearance, and
/// every stray entry of another kind is dropped.
pub proof fn lemma_list_keeps_exactly_item_children(acc: Seq<NodeModel>)
    ensures
        list_items_of(acc) == acc.filter(|n: NodeModel| n matches NodeModel::ListItem { .. })
            .map_values(|n: NodeModel| item_children(n)),
    decreases acc.len(),
{
    reveal_with_fuel(Seq::<_>::filter, 1);
    let pred = |n: NodeModel| n matches NodeModel::ListItem { .. };
    let f = |n: NodeModel| item_children(n);
    if acc.len() == 0 {
        assert(acc.filter(pred).map_values(f) =~= Seq::<Seq<NodeModel>>::empty());
    } else {
        lemma_list_keeps_exactly_item_children(acc.drop_last());
        lemma_map_values_push(acc.drop_last().filter(pred), f, acc.last());
        assert(acc.drop_last().push(acc.last()) =~= acc);
    }
}

/// An empty event sequence reduces to a document with no children.
pub proof fn lemma_empty_input_yields_empty_document()
    ensures
        parse_model(Seq::empty()) == (NodeModel::Document {
            children: Seq::<NodeModel>::empty(),
        }),
{
    assert(init_stack()[0].1 == Seq::<NodeModel>::empty());
}

/// Rewrites every start of an unrecognized construct into a paragraph start.
pub open spec fn as_recognized(e: EventModel) -> EventModel {
    match e {
        EventModel::Start(ConstructModel::Other) => EventModel::Start(ConstructModel::Paragraph),
        _ => e,
    }
}

pub open spec fn recognized(evs: Seq<EventModel>) -> Seq<EventModel> {
    evs.map_values(|e: EventModel| as_recognized(e))
}

/// An unrecognized construct opens the same frame as a paragraph, so the
/// reducer cannot tell the two inputs apart at any point.
pub proof fn lemma_unrecognized_reduces_as_paragraph(
    st: Seq<(FrameModel, Seq<NodeModel>)>,
    evs: Seq<EventModel>,
)
    ensures
        run_model(st, evs) == run_model(st, recognized(evs)),
    decreases evs,
{
    if evs.len() == 0 {
        assert(recognized(evs) =~= evs);
    } else {
        lemma_unrecognized_reduces_as_paragraph(st, evs.drop_last());
        assert(recognized(evs).drop_last() =~= recognized(evs.drop_last()));
        assert(recognized(evs).last() == as_recognized(evs.last()));
        let mid = run_model(st, evs.drop_last());
        assert(step_model(mid, evs.last()) == step_model(mid, as_recognized(evs.last())));
    }
}

/// A whole input whose unrecognized starts are replaced by paragraph starts
/// parses to the very same document.
pub proof fn lemma_unrecognized_parses_as_paragraph(evs: Seq<EventModel>)
    ensures
        parse_model(evs) == parse_model(recognized(evs)),
{
    lemma_unrecognized_reduces_as_paragraph(init_stack(), evs);
}

pub open spec fn max2(a: int, b: int) -> int {
    if a >= b {
        a
    } else {
        b
    }
}

/// Height of a tree node: a leaf counts one, a container counts one more
/// than its tallest child, and a list counts its kept groups as children.
pub open spec fn node_height(n: NodeModel) -> int
    decreases n,
{
    match n {
        NodeModel::Document { children } => 1 + heights_max(children),
        NodeModel::Heading { children, .. } => 1 + heights_max(children),
        NodeModel::Paragraph { children } => 1 + heights_max(children),
        NodeModel::BlockQuote { children } => 1 + heights_max(children),
        NodeModel::List { items, .. } => 1 + groups_heights_max(items),
        NodeModel::ListItem { children } => 1 + heights_max(children),
        NodeModel::CodeBlock { .. } => 1,
        NodeModel::Table { headers, rows } => 1 + max2(
            heights_max(headers),
            groups_heights_max(rows),
        ),
        NodeModel::Text { .. } => 1,
        NodeModel::Strong { children } => 1 + heights_max(children),
        NodeModel::Emphasis { children } => 1 + heights_max(children),
        NodeModel::InlineCode { .. } => 1,
        NodeModel::Link { children, .. } => 1 + heights_max(children),
        NodeModel::Image { .. } => 1,
        NodeModel::HorizontalRule => 1,
        NodeModel::Footnote { children, .. } => 1 + heights_max(children),
        NodeModel::Html { .. } => 1,
    }
}

/// Height of the tallest node of a sequence; zero when it is empty.
pub open spec fn heights_max(s: Seq<NodeModel>) -> int
    decreases s,
{
    if s.len() == 0 {
        0
    } else {
        max2(heights_max(s.drop_last()), node_height(s.last()))
    }
}

/// Height of the tallest node over a sequence of groups.
pub open spec fn groups_heights_max(s: Seq<Seq<NodeModel>>) -> int
    decreases s,
{
    if s.len() == 0 {
        0
    } else {
        max2(groups_heights_max(s.drop_last()), heights_max(s.last()))
    }
}

proof fn lemma_heights_max_nonneg(s: Seq<NodeModel>)
    ensures
        heights_max(s) >= 0,
    decreases s,
{
    if s.len() > 0 {
        lemma_heights_max_nonneg(s.drop_last());
    }
}

/// The kept groups of a list are strictly shallower than the accumulator
/// they came from: each was the child list of a `ListItem` entry.
proof fn lemma_items_heights(acc: Seq<NodeModel>)
    ensures
        groups_heights_max(list_items_of(acc)) <= max2(heights_max(acc) - 1, 0),
    decreases acc,
{
    if acc.len() > 0 {
        let d = acc.drop_last();
        let m = acc.last();
        lemma_items_heights(d);
        lemma_heights_max_nonneg(d);
        assert(heights_max(acc) == max2(heights_max(d), node_height(m)));
        match m {
            NodeModel::ListItem { children } => {
                lemma_heights_max_nonneg(children);
                assert(node_height(m) == 1 + heights_max(children));
                let rest = list_items_of(d);
                assert(list_items_of(acc) == rest.push(children));
                assert(rest.push(children).drop_last() =~= rest);
                assert(rest.push(children).last() == children);
                assert(groups_heights_max(rest.push(children)) == max2(
                    groups_heights_max(rest),
                    heights_max(children),
                ));
            },
            _ => {
                assert(list_items_of(acc) == list_items_of(d));
            },
        }
    }
}

/// Whatever frame closes, the built node is at most one level taller than
/// its accumulated children.
proof fn lemma_build_height(f: FrameModel, acc: Seq<NodeModel>)
    ensures
        build_model(f, acc) matches Some(n) ==> node_height(n) <= 1 + heights_max(acc),
{
    lemma_heights_max_nonneg(acc);
    lemma_items_heights(acc);
}

/// The deepest nesting any prefix of the input reaches.
pub open spec fn max_net_depth(s: Seq<EventModel>) -> int
    decreases s,
{
    if s.len() == 0 {
        0
    } else {
        max2(max_net_depth(s.drop_last()), net_depth(s))
    }
}

proof fn lemma_max_net_depth_bounds(s: Seq<EventModel>, j: int)
    requires
        0 <= j <= s.len(),
    ensures
        max_net_depth(s) >= 0,
        net_depth(s.take(j)) <= max_net_depth(s),
    decreases s,
{
    if s.len() == 0 {
        assert(s.take(j) =~= s);
    } else if j == s.len() {
        assert(s.take(j) =~= s);
        lemma_max_net_depth_bounds(s.drop_last(), 0);
    } else {
        assert(s.take(j) =~= s.drop_last().take(j));
        lemma_max_net_depth_bounds(s.drop_last(), j);
    }
}

proof fn lemma_run_heights(evs: Seq<EventModel>, i: int)
    requires
        0 <= i <= evs.len(),
        forall|j: int| 0 <= j <= i ==> net_depth(#[trigger] evs.take(j)) >= 0,
    ensures
        forall|j: int|
            0 <= j < run_model(init_stack(), evs.take(i)).len() ==> heights_max(
                #[trigger] run_model(init_stack(), evs.take(i))[j].1,
            ) <= 1 + max_net_depth(evs.take(i)) - j,
    decreases i,
{
    lemma_stack_tracks_depth(evs, i);
    if i == 0 {
        assert(evs.take(0) =~= Seq::empty());
        assert(init_stack()[0].1 == Seq::<NodeModel>::empty());
    } else {
        lemma_run_heights(evs, i - 1);
        lemma_stack_tracks_depth(evs, i - 1);
        lemma_net_depth_take_step(evs, i - 1);
        lemma_max_net_depth_bounds(evs.take(i - 1), i - 1);
        let pre = evs.take(i - 1);
        let cur = evs.take(i);
        let st = run_model(init_stack(), pre);
        let e = evs[i - 1];
        assert(cur.drop_last() =~= pre);
        assert(cur.last() == e);
        assert(pre.take(i - 1) =~= pre);
        let maxd = max_net_depth(pre);
        let maxd2 = max_net_depth(cur);
        assert(maxd2 == max2(maxd, net_depth(cur)));
        let st2 = run_model(init_stack(), cur);
        assert(st2 == step_model(st, e));
        assert forall|j: int| 0 <= j < st2.len() implies heights_max(#[trigger] st2[j].1) <= 1
            + maxd2 - j by {
            match e {
                EventModel::Start(_) => {
                    if j < st.len() {
                        assert(st2[j] == st[j]);
                    } else {
                        assert(st2[j].1 == Seq::<NodeModel>::empty());
                        assert(net_depth(cur) == j);
                    }
                },
                EventModel::End => {
                    assert(net_depth(cur) >= 0);
                    assert(st.len() >= 2);
                    let top = st.last();
                    let below = st.drop_last().last();
                    lemma_build_height(top.0, top.1);
                    lemma_heights_max_nonneg(top.1);
                    if j < st.len() - 2 {
                        assert(st2[j] == st[j]);
                    } else {
                        match build_model(top.0, top.1) {
                            Some(n) => {
                                assert(st2[j].1 == below.1.push(n));
                                assert(below.1.push(n).drop_last() =~= below.1);
                                assert(below.1.push(n).last() == n);
                                assert(heights_max(below.1) <= 1 + maxd - j);
                                assert(heights_max(top.1) <= 1 + maxd - (j + 1));
                            },
                            None => {
                                assert(st2[j] == st[j]);
                            },
                        }
                    }
                },
                EventModel::Text(s) => {
                    let n = NodeModel::Text { value: s };
                    if j < st.len() - 1 {
                        assert(st2[j] == st[j]);
                    } else {
                        assert(st2[j].1 == st[j].1.push(n));
                        assert(st[j].1.push(n).drop_last() =~= st[j].1);
                        assert(st[j].1.push(n).last() == n);
                        assert(node_height(n) == 1);
                        assert(maxd2 >= net_depth(pre));
                    }
                },
                EventModel::InlineCode(s) => {
                    let n = NodeModel::InlineCode { value: s };
                    if j < st.len() - 1 {
                        assert(st2[j] == st[j]);
                    } else {
                        assert(st2[j].1 == st[j].1.push(n));
                        assert(st[j].1.push(n).drop_last() =~= st[j].1);
                        assert(st[j].1.push(n).last() == n);
                        assert(node_height(n) == 1);
                        assert(maxd2 >= net_depth(pre));
                    }
                },
                EventModel::Other => {
                    assert(st2[j] == st[j]);
                },
            }
        }
    }
}

/// The returned tree is never deeper than the deepest construct nesting of
/// the input, plus the document node above it and one leaf level below.
pub proof fn lemma_tree_height_bounded(evs: Seq<EventModel>)
    requires
        well_nested(evs),
    ensures
        node_height(parse_model(evs)) <= 2 + max_net_depth(evs),
{
    lemma_run_heights(evs, evs.len() as int);
    lemma_stack_tracks_depth(evs, evs.len() as int);
    assert(evs.take(evs.len() as int) =~= evs);
}

/// Holds when no node of the tree rooted at `n`, `n` itself included, is a
/// `Document`.
pub open spec fn no_document(n: NodeModel) -> bool
    decreases n,
{
    match n {
        NodeModel::Document { .. } => false,
        NodeModel::Heading { children, .. } => all_no_document(children),
        NodeModel::Paragraph { children } => all_no_document(children),
        NodeModel::BlockQuote { children } => all_no_document(children),
        NodeModel::List { items, .. } => groups_no_document(items),
        NodeModel::ListItem { children } => all_no_document(children),
        NodeModel::CodeBlock { .. } => true,
        NodeModel::Table { headers, rows } => all_no_document(headers) && groups_no_document(
            rows,
        ),
        NodeModel::Text { .. } => true,
        NodeModel::Strong { children } => all_no_document(children),
        NodeModel::Emphasis { children } => all_no_document(children),
        NodeModel::InlineCode { .. } => true,
        NodeModel::Link { children, .. } => all_no_document(children),
        NodeModel::Image { .. } => true,
        NodeModel::HorizontalRule => true,
        NodeModel::Footnote { children, .. } => all_no_document(children),
        NodeModel::Html { .. } => true,
    }
}

pub open spec fn all_no_document(s: Seq<NodeModel>) -> bool
    decreases s,
{
    if s.len() == 0 {
        true
    } else {
        all_no_document(s.drop_last()) && no_document(s.last())
    }
}

pub open spec fn groups_no_document(s: Seq<Seq<NodeModel>>) -> bool
    decreases s,
{
    if s.len() == 0 {
        true
    } else {
        groups_no_document(s.drop_last()) && all_no_document(s.last())
    }
}

/// The groups a list keeps are the child lists of its `ListItem` entries, so
/// they hold no `Document` if the accumulator held none.
proof fn lemma_items_no_document(acc: Seq<NodeModel>)
    requires
        all_no_document(acc),
    ensures
        groups_no_document(list_items_of(acc)),
    decreases acc,
{
    if acc.len() > 0 {
        let d = acc.drop_last();
        assert(all_no_document(d) && no_document(acc.last()));
        lemma_items_no_document(d);
        match acc.last() {
            NodeModel::ListItem { children } => {
                assert(all_no_document(children));
                let rest = list_items_of(d);
                assert(list_items_of(acc) == rest.push(children));
                assert(rest.push(children).drop_last() =~= rest);
                assert(rest.push(children).last() == children);
                assert(groups_no_document(rest.push(children)) == (groups_no_document(rest)
                    && all_no_document(children)));
            },
            _ => {
                assert(list_items_of(acc) == list_items_of(d));
            },
        }
    }
}

proof fn lemma_run_no_document(evs: Seq<EventModel>, i: int)
    requires
        0 <= i <= evs.len(),
        forall|j: int| 0 <= j <= i ==> net_depth(#[trigger] evs.take(j)) >= 0,
    ensures
        forall|j: int|
            1 <= j < run_model(init_stack(), evs.take(i)).len() ==> !(#[trigger] run_model(
                init_stack(),
                evs.take(i),
            )[j].0 matches FrameModel::Root),
        forall|j: int|
            0 <= j < run_model(init_stack(), evs.take(i)).len() ==> all_no_document(
                #[trigger] run_model(init_stack(), evs.take(i))[j].1,
            ),
    decreases i,
{
    lemma_stack_tracks_depth(evs, i);
    if i == 0 {
        assert(evs.take(0) =~= Seq::empty());
        assert(init_stack()[0].1 == Seq::<NodeModel>::empty());
    } else {
        lemma_run_no_document(evs, i - 1);
        lemma_stack_tracks_depth(evs, i - 1);
        let pre = evs.take(i - 1);
        let cur = evs.take(i);
        let st = run_model(init_stack(), pre);
        let e = evs[i - 1];
        assert(cur.drop_last() =~= pre);
        assert(cur.last() == e);
        let st2 = run_model(init_stack(), cur);
        assert(st2 == step_model(st, e));
        match e {
            EventModel::End => {
                lemma_net_depth_take_step(evs, i - 1);
                assert(net_depth(cur) >= 0);
                assert(st.len() >= 2);
                assert(st.last() == st[st.len() - 1]);
                assert(st.drop_last().last() == st[st.len() - 2]);
                assert(!(st.last().0 matches FrameModel::Root));
                assert(all_no_document(st.last().1));
                match build_model(st.last().0, st.last().1) {
                    Some(n) => {
                        lemma_items_no_document(st.last().1);
                        assert(no_document(n));
                    },
                    None => {},
                }
            },
            _ => {},
        }
        assert forall|j: int| 1 <= j < st2.len() implies !(#[trigger] st2[j].0
            matches FrameModel::Root) by {
            match e {
                EventModel::Start(c) => {
                    if j < st.len() {
                        assert(st2[j] == st[j]);
                    } else {
                        assert(st2[j].0 == frame_of(c));
                        assert(!(frame_of(c) matches FrameModel::Root));
                    }
                },
                EventModel::End => {
                    match build_model(st.last().0, st.last().1) {
                        Some(n) => {
                            if j < st.len() - 2 {
                                assert(st2[j] == st[j]);
                            } else {
                                assert(st2[j].0 == st[j].0);
                            }
                        },
                        None => {
                            assert(st2[j] == st[j]);
                        },
                    }
                },
                EventModel::Text(_) => {
                    if j < st.len() - 1 {
                        assert(st2[j] == st[j]);
                    } else {
                        assert(st2[j].0 == st[j].0);
                    }
                },
                EventModel::InlineCode(_) => {
                    if j < st.len() - 1 {
                        assert(st2[j] == st[j]);
                    } else {
                        assert(st2[j].0 == st[j].0);
                    }
                },
                EventModel::Other => {
                    assert(st2[j] == st[j]);
                },
            }
        }
        assert forall|j: int| 0 <= j < st2.len() implies all_no_document(
            #[trigger] st2[j].1,
        ) by {
            match e {
                EventModel::Start(_) => {
                    if j < st.len() {
                        assert(st2[j] == st[j]);
                    } else {
                        assert(st2[j].1 == Seq::<NodeModel>::empty());
                    }
                },
                EventModel::End => {
                    let below = st[st.len() - 2];
                    match build_model(st.last().0, st.last().1) {
                        Some(n) => {
                            if j < st.len() - 2 {
                                assert(st2[j] == st[j]);
                            } else {
                                assert(all_no_document(below.1));
                                assert(no_document(n));
                                assert(st2[j].1 == below.1.push(n));
                                assert(below.1.push(n).drop_last() =~= below.1);
                                assert(below.1.push(n).last() == n);
                                assert(all_no_document(below.1.push(n)) == (all_no_document(
                                    below.1,
                                ) && no_document(n)));
                            }
                        },
                        None => {
                            assert(st2[j] == st[j]);
                        },
                    }
                },
                EventModel::Text(s) => {
                    let n = NodeModel::Text { value: s };
                    if j < st.len() - 1 {
                        assert(st2[j] == st[j]);
                    } else {
                        assert(all_no_document(st[j].1));
                        assert(no_document(n));
                        assert(st2[j].1 == st[j].1.push(n));
                        assert(st[j].1.push(n).drop_last() =~= st[j].1);
                        assert(st[j].1.push(n).last() == n);
                        assert(all_no_document(st[j].1.push(n)) == (all_no_document(st[j].1)
                            && no_document(n)));
                    }
                },
                EventModel::InlineCode(s) => {
                    let n = NodeModel::InlineCode { value: s };
                    if j < st.len() - 1 {
                        assert(st2[j] == st[j]);
                    } else {
                        assert(all_no_document(st[j].1));
                        assert(no_document(n));
                        assert(st2[j].1 == st[j].1.push(n));
                        assert(st[j].1.push(n).drop_last() =~= st[j].1);
                        assert(st[j].1.push(n).last() == n);
                        assert(all_no_document(st[j].1.push(n)) == (all_no_document(st[j].1)
                            && no_document(n)));
                    }
                },
                EventModel::Other => {
                    assert(st2[j] == st[j]);
                },
            }
        }
    }
}

/// Each event acts exactly at the stack level given by the net count of
/// unmatched starts: a start event opens the level `net_depth(evs.take(i + 1))`,
/// a text or inline-code event appends its leaf at the end of the topmost
/// level `net_depth(evs.take(i))`, an end event closes the topmost level and
/// appends the node built from it at the end of the level below — the level
/// its construct was opened at less one — and any other event changes
/// nothing. So a node enters the tree at the depth of its construct's
/// nesting, and siblings of one level keep event order.
pub proof fn lemma_nodes_join_at_nesting_depth(evs: Seq<EventModel>, i: int)
    requires
        0 <= i < evs.len(),
        forall|j: int| 0 <= j <= i + 1 ==> net_depth(#[trigger] evs.take(j)) >= 0,
    ensures
        ({
            let st = run_model(init_stack(), evs.take(i));
            let st2 = run_model(init_stack(), evs.take(i + 1));
            match evs[i] {
                EventModel::Start(c) => st2 == st.push((frame_of(c), Seq::<NodeModel>::empty()))
                    && st.len() == net_depth(evs.take(i + 1)),
                EventModel::End => ({
                    let d = net_depth(evs.take(i + 1));
                    let n = build_model(st[d + 1].0, st[d + 1].1).unwrap();
                    d == st.len() - 2 && st2 == st.take(d + 1).update(
                        d,
                        (st[d].0, st[d].1.push(n)),
                    )
                }),
                EventModel::Text(s) => ({
                    let d = net_depth(evs.take(i));
                    d == st.len() - 1 && st2 == st.update(
                        d,
                        (st[d].0, st[d].1.push(NodeModel::Text { value: s })),
                    )
                }),
                EventModel::InlineCode(s) => ({
                    let d = net_depth(evs.take(i));
                    d == st.len() - 1 && st2 == st.update(
                        d,
                        (st[d].0, st[d].1.push(NodeModel::InlineCode { value: s })),
                    )
                }),
                EventModel::Other => st2 == st,
            }
        }),
{
    lemma_stack_tracks_depth(evs, i);
    lemma_stack_tracks_depth(evs, i + 1);
    lemma_net_depth_take_step(evs, i);
    let st = run_model(init_stack(), evs.take(i));
    let st2 = run_model(init_stack(), evs.take(i + 1));
    assert(evs.take(i + 1).drop_last() =~= evs.take(i));
    assert(evs.take(i + 1).last() == evs[i]);
    assert(st2 == step_model(st, evs[i]));
    match evs[i] {
        EventModel::Start(_) => {},
        EventModel::End => {
            let d = net_depth(evs.take(i + 1));
            assert(d == st.len() - 2);
            assert(st.last() == st[d + 1]);
            assert(st.drop_last().last() == st[d]);
            match build_model(st[d + 1].0, st[d + 1].1) {
                Some(n) => {
                    assert(st2 =~= st.take(d + 1).update(d, (st[d].0, st[d].1.push(n))));
                },
                None => {},
            }
        },
        EventModel::Text(s) => {
            let d = net_depth(evs.take(i));
            assert(st.last() == st[d]);
            assert(st2 =~= st.update(
                d,
                (st[d].0, st[d].1.push(NodeModel::Text { value: s })),
            ));
        },
        EventModel::InlineCode(s) => {
            let d = net_depth(evs.take(i));
            assert(st.last() == st[d]);
            assert(st2 =~= st.update(
                d,
                (st[d].0, st[d].1.push(NodeModel::InlineCode { value: s })),
            ));
        },
        EventModel::Other => {},
    }
}

/// The returned tree holds exactly one `Document`, as its root: no node
/// below the root is a `Document`.
pub proof fn lemma_document_only_at_root(evs: Seq<EventModel>)
    requires
        well_nested(evs),
    ensures
        parse_model(evs) matches NodeModel::Document { children } && all_no_document(children),
{
    lemma_run_no_document(evs, evs.len() as int);
    lemma_stack_tracks_depth(evs, evs.len() as int);
    let full = evs.take(evs.len() as int);
    assert(full =~= evs);
    assert(all_no_document(run_model(init_stack(), full)[0].1));
}

} // verus!
