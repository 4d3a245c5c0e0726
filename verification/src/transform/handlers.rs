//! The event attributes of a transformed template: which element handles
//! which event, and with what handler.

use vstd::prelude::*;

use crate::events::{get_js_event_str, is_event_attr, spec_event, spec_event_index};
use crate::parse::html_parse::{AttrType, SAttr, attr_view};
use crate::parse::rs_parse::AttrClosure;
use crate::transform::node::{Node, NodeIfBranch, NodeType, TagAttribute};

verus! {

/// An event attribute: the number of the element, the JavaScript event, and
/// the handler.
pub struct EventAttr {
    pub target_id: u32,
    pub js_event: String,
    pub handler: AttrType,
}

pub open spec fn event_attr_view(e: EventAttr) -> (u32, Seq<char>, SAttr) {
    (e.target_id, e.js_event@, attr_view(e.handler))
}

pub open spec fn event_attrs_view(v: Seq<EventAttr>) -> Seq<(u32, Seq<char>, SAttr)> {
    v.map_values(|e: EventAttr| event_attr_view(e))
}

/// The event attributes among the attributes `attrs` of element `id`, in
/// order.
pub open spec fn tag_handlers(id: u32, attrs: Seq<TagAttribute>) -> Seq<(u32, Seq<char>, SAttr)>
    decreases attrs.len(),
{
    if attrs.len() == 0 {
        seq![]
    } else {
        tag_handlers(id, attrs.drop_last()) + if is_event_attr(attrs.last().name@) {
            seq![(id, spec_event(spec_event_index(attrs.last().name@)->Some_0).2, attr_view(attrs.last().value))]
        } else {
            seq![]
        }
    }
}

/// The event attributes of the tags under `n`, in document order: those of a
/// tag, then those of its children; those of each `{#if}` branch in turn and
/// of its `{:else}`; those of an `{#each}` block's contents.
pub open spec fn node_handlers(n: Node) -> Seq<(u32, Seq<char>, SAttr)>
    decreases n,
{
    match n.content {
        NodeType::Tag(_, attrs, kids) => tag_handlers(n.id, attrs@) + nodes_handlers(kids@),
        NodeType::If(bs, els, _, _) => branches_handlers(bs@) + match els {
            Some(e) => nodes_handlers(e.contents@),
            None => seq![],
        },
        NodeType::Each(_, _, kids, _, _) => nodes_handlers(kids@),
        _ => seq![],
    }
}

pub open spec fn nodes_handlers(ns: Seq<Node>) -> Seq<(u32, Seq<char>, SAttr)>
    decreases ns,
{
    if ns.len() == 0 {
        seq![]
    } else {
        nodes_handlers(ns.drop_last()) + node_handlers(ns.last())
    }
}

pub open spec fn branches_handlers(bs: Seq<NodeIfBranch>) -> Seq<(u32, Seq<char>, SAttr)>
    decreases bs,
{
    if bs.len() == 0 {
        seq![]
    } else {
        branches_handlers(bs.drop_last()) + nodes_handlers(bs.last().contents@)
    }
}

/// A copy of an attribute value.
fn copy_attr(a: &AttrType) -> (r: AttrType)
    ensures
        attr_view(r) == attr_view(*a),
{
    match a {
        AttrType::Str(s) => AttrType::Str(s.clone()),
        AttrType::Call(s) => AttrType::Call(s.clone()),
        AttrType::Expr(s) => AttrType::Expr(s.clone()),
        AttrType::Bind(s) => AttrType::Bind(s.clone()),
        AttrType::Closure(c) => {
            let event_arg = match &c.event_arg {
                Some(p) => Some((p.0.clone(), p.1.clone())),
                None => None,
            };
            AttrType::Closure(AttrClosure { event_arg, body: c.body.clone() })
        },
    }
}

fn push_tag_handlers(id: u32, attrs: &Vec<TagAttribute>, out: &mut Vec<EventAttr>)
    ensures
        event_attrs_view(final(out)@) == event_attrs_view(old(out)@) + tag_handlers(id, attrs@),
{
    let ghost o0 = event_attrs_view(out@);
    let mut i: usize = 0;
    while i < attrs.len()
        invariant
            i <= attrs@.len(),
            event_attrs_view(out@) == o0 + tag_handlers(id, attrs@.take(i as int)),
        decreases attrs@.len() - i,
    {
        let ghost before = out@;
        let a = &attrs[i];
        assert(attrs@.take(i + 1).drop_last() =~= attrs@.take(i as int));
        assert(attrs@.take(i + 1).last() == attrs@[i as int]);
        match get_js_event_str(a.name.as_str()) {
            Some(js) => {
                let e = EventAttr { target_id: id, js_event: js, handler: copy_attr(&a.value) };
                out.push(e);
                assert(event_attrs_view(out@) =~= event_attrs_view(before).push(event_attr_view(e)));
            },
            None => {
                assert(event_attrs_view(out@) =~= event_attrs_view(before));
            },
        }
        i = i + 1;
    }
    assert(attrs@.take(i as int) =~= attrs@);
}

/// Appends the event attributes of the nodes `ns` to `out`.
fn push_nodes_handlers(ns: &Vec<Node>, out: &mut Vec<EventAttr>)
    ensures
        event_attrs_view(final(out)@) == event_attrs_view(old(out)@) + nodes_handlers(ns@),
    decreases ns@, 0int,
{
    let ghost o0 = event_attrs_view(out@);
    let mut i: usize = 0;
    assert(ns@.take(0) =~= Seq::<Node>::empty());
    while i < ns.len()
        invariant
            i <= ns@.len(),
            event_attrs_view(out@) == o0 + nodes_handlers(ns@.take(i as int)),
        decreases ns@.len() - i,
    {
        proof {
            assert(decreases_to!(ns@ => ns@[i as int]));
        }
        push_node_handlers(&ns[i], out);
        assert(ns@.take(i + 1).drop_last() =~= ns@.take(i as int));
        i = i + 1;
    }
    assert(ns@.take(i as int) =~= ns@);
}

/// Appends the event attributes of the tags under `n` to `out`; see
/// `node_handlers`.
fn push_node_handlers(n: &Node, out: &mut Vec<EventAttr>)
    ensures
        event_attrs_view(final(out)@) == event_attrs_view(old(out)@) + node_handlers(*n),
    decreases *n, 1int,
{
    let ghost o0 = event_attrs_view(out@);
    match &n.content {
        NodeType::Tag(_, attrs, kids) => {
            push_tag_handlers(n.id, attrs, out);
            proof {
                assert(decreases_to!(*n => n.content));
                assert(decreases_to!(n.content => n.content->Tag_2));
            }
            push_nodes_handlers(kids, out);
        },
        NodeType::If(bs, els, _, _) => {
            let mut i: usize = 0;
            assert(bs@.take(0) =~= Seq::<NodeIfBranch>::empty());
            while i < bs.len()
                invariant
                    i <= bs@.len(),
                    n.content matches NodeType::If(b2, _, _, _) && b2 == *bs,
                    event_attrs_view(out@) == o0 + branches_handlers(bs@.take(i as int)),
                decreases bs@.len() - i,
            {
                proof {
                    assert(decreases_to!(*n => n.content));
                    assert(decreases_to!(n.content => n.content->If_0));
                    assert(decreases_to!(n.content->If_0 => n.content->If_0@));
                    assert(decreases_to!(bs@ => bs@[i as int]));
                    assert(decreases_to!(bs@[i as int] => bs@[i as int].contents));
                }
                push_nodes_handlers(&bs[i].contents, out);
                assert(bs@.take(i + 1).drop_last() =~= bs@.take(i as int));
                i = i + 1;
            }
            assert(bs@.take(i as int) =~= bs@);
            match els {
                Some(e) => {
                    proof {
                        assert(decreases_to!(*n => n.content));
                        assert(decreases_to!(n.content => n.content->If_1));
                        assert(decreases_to!(n.content->If_1 => n.content->If_1->Some_0));
                        assert(decreases_to!(n.content->If_1->Some_0 => n.content->If_1->Some_0.contents));
                    }
                    push_nodes_handlers(&e.contents, out);
                },
                None => {
                    assert(event_attrs_view(out@) =~= event_attrs_view(out@) + Seq::<(u32, Seq<char>, SAttr)>::empty());
                },
            }
        },
        NodeType::Each(_, _, kids, _, _) => {
            proof {
                assert(decreases_to!(*n => n.content));
                assert(decreases_to!(n.content => n.content->Each_2));
            }
            push_nodes_handlers(kids, out);
        },
        _ => {
            assert(event_attrs_view(out@) =~= o0 + Seq::<(u32, Seq<char>, SAttr)>::empty());
        },
    }
}

/// The event attributes of the tags under `n`, in document order; see
/// `node_handlers`.
pub fn get_node_handlers(n: &Node) -> (r: Vec<EventAttr>)
    ensures
        event_attrs_view(r@) == node_handlers(*n),
{
    let mut out: Vec<EventAttr> = Vec::new();
    assert(event_attrs_view(out@) =~= Seq::<(u32, Seq<char>, SAttr)>::empty());
    push_node_handlers(n, &mut out);
    assert(event_attrs_view(out@) =~= node_handlers(*n));
    out
}

} // verus!
