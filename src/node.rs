//! The pipeline tree.
use vstd::prelude::*;
use crate::property::{Property, replace_property_with_context};
use crate::subst::Context;
use crate::model::{
    node_view, children_view, entries_view, mat_entries, fill_m, fill_children_m, prop_view,
    lemma_entries_view_push, lemma_entries_view_prefix, lemma_mat_entries_push,
    lemma_children_view_push, lemma_children_view_prefix, lemma_fill_children_push,
};

verus! {

broadcast use vstd::std_specs::vec::group_vec_axioms;

/// What a node does: run a task, or run its children in order or side by side.
pub enum NodeType {
    NodeTypeTask,
    NodeTypeSeries(Vec<Node>),
    NodeTypeParallel(Vec<Node>),
}

/// A node of a pipeline. Only task nodes make use of `properties`.
pub struct Node {
    pub name: Option<String>,
    pub ntype: NodeType,
    pub properties: Vec<(String, Property)>,
    pub continue_on_fail: bool,
}

fn copy_opt_string(s: &Option<String>) -> (r: Option<String>)
    ensures
        r == *s,
{
    match s {
        Some(x) => Some(x.clone()),
        None => None,
    }
}

/// Materializes each property of a list under `context`.
pub fn materialize_props<C: Context>(ps: &Vec<(String, Property)>, context: &C) -> (r: Vec<(String, Property)>)
    ensures
        entries_view(r@) == mat_entries(entries_view(ps@), |k: Seq<char>| context.lookup(k)),
{
    let ghost lk = |k: Seq<char>| context.lookup(k);
    let mut out: Vec<(String, Property)> = Vec::new();
    let mut i: usize = 0;
    while i < ps.len()
        invariant
            i <= ps@.len(),
            lk == (|k: Seq<char>| context.lookup(k)),
            entries_view(out@) == mat_entries(entries_view(ps@.subrange(0, i as int)), lk),
        decreases ps@.len() - i,
    {
        let v = replace_property_with_context(&ps[i].1, context);
        let ghost prev = out@;
        out.push((ps[i].0.clone(), v));
        proof {
            lemma_entries_view_push(prev, (ps@[i as int].0, v));
            lemma_entries_view_prefix(ps@, i as int);
            lemma_mat_entries_push(entries_view(ps@.subrange(0, i as int)), (ps@[i as int].0@, prop_view(ps@[i as int].1)), lk);
        }
        i = i + 1;
    }
    proof {
        assert(ps@.subrange(0, ps@.len() as int) =~= ps@);
    }
    out
}

/// A copy of `node` with the properties of every node in it materialized
/// under `context`.
pub fn fill_node<C: Context>(node: &Node, context: &C) -> (r: Node)
    ensures
        node_view(r) == fill_m(node_view(*node), |k: Seq<char>| context.lookup(k)),
    decreases node,
{
    let name = copy_opt_string(&node.name);
    let props = materialize_props(&node.properties, context);
    match &node.ntype {
        NodeType::NodeTypeTask => {
            Node { name, ntype: NodeType::NodeTypeTask, properties: props, continue_on_fail: node.continue_on_fail }
        },
        NodeType::NodeTypeSeries(cs) => {
            let ds = fill_children(node, cs, context);
            Node { name, ntype: NodeType::NodeTypeSeries(ds), properties: props, continue_on_fail: node.continue_on_fail }
        },
        NodeType::NodeTypeParallel(cs) => {
            let ds = fill_children(node, cs, context);
            Node { name, ntype: NodeType::NodeTypeParallel(ds), properties: props, continue_on_fail: node.continue_on_fail }
        },
    }
}

fn fill_children<C: Context>(node: &Node, cs: &Vec<Node>, context: &C) -> (r: Vec<Node>)
    requires
        node.ntype == NodeType::NodeTypeSeries(*cs) || node.ntype == NodeType::NodeTypeParallel(*cs),
    ensures
        children_view(r@) == fill_children_m(children_view(cs@), |k: Seq<char>| context.lookup(k)),
    decreases node, 0nat,
{
    let ghost lk = |k: Seq<char>| context.lookup(k);
    let mut out: Vec<Node> = Vec::new();
    let mut i: usize = 0;
    while i < cs.len()
        invariant
            i <= cs@.len(),
            node.ntype == NodeType::NodeTypeSeries(*cs) || node.ntype == NodeType::NodeTypeParallel(*cs),
            lk == (|k: Seq<char>| context.lookup(k)),
            children_view(out@) == fill_children_m(children_view(cs@.subrange(0, i as int)), lk),
        decreases cs@.len() - i,
    {
        proof {
            assert(decreases_to!(*node => node.ntype));
            if node.ntype is NodeTypeSeries {
                assert(decreases_to!(node.ntype => node.ntype->NodeTypeSeries_0));
            } else {
                assert(decreases_to!(node.ntype => node.ntype->NodeTypeParallel_0));
            }
            assert(decreases_to!(cs => cs[i as int]));
        }
        let d = fill_node(&cs[i], context);
        let ghost prev = out@;
        out.push(d);
        proof {
            lemma_children_view_push(prev, d);
            lemma_children_view_prefix(cs@, i as int);
            lemma_fill_children_push(children_view(cs@.subrange(0, i as int)), node_view(cs@[i as int]), lk);
        }
        i = i + 1;
    }
    proof {
        assert(cs@.subrange(0, cs@.len() as int) =~= cs@);
    }
    out
}

/// Replaces the properties of every node of `node` by their
/// materialization under `context`.
pub fn fill_all_node_properties<C: Context>(node: &mut Node, context: &C)
    ensures
        node_view(*final(node)) == fill_m(node_view(*old(node)), |k: Seq<char>| context.lookup(k)),
{
    let filled = fill_node(node, context);
    *node = filled;
}

} // verus!
