//! Mathematical models of properties and nodes, and what materialization
//! does to them.
use vstd::prelude::*;
use crate::property::Property;
use crate::node::{Node, NodeType};
use crate::subst::subst;

verus! {

broadcast use vstd::std_specs::vec::group_vec_axioms;

/// A lookup function: a context as substitution sees it.
pub type Lookup = spec_fn(Seq<char>) -> Option<Seq<char>>;

/// The model of a property.
pub enum PropM {
    Scalar(Seq<char>),
    Table(Seq<(Seq<char>, PropM)>),
}

/// The model of a node's kind.
pub enum KindM {
    Task,
    Series(Seq<NodeM>),
    Parallel(Seq<NodeM>),
}

/// The model of a node.
pub struct NodeM {
    pub name: Option<Seq<char>>,
    pub kind: KindM,
    pub props: Seq<(Seq<char>, PropM)>,
    pub continue_on_fail: bool,
}

/// The model of a property value.
pub open spec fn prop_view(p: Property) -> PropM
    decreases p,
{
    match p {
        Property::Simple(s) => PropM::Scalar(s@),
        Property::Mapping(m) => PropM::Table(entries_view(m@)),
    }
}

/// The model of a property table's entries, in order.
pub open spec fn entries_view(m: Seq<(String, Property)>) -> Seq<(Seq<char>, PropM)>
    decreases m,
{
    if m.len() == 0 {
        Seq::empty()
    } else {
        entries_view(m.drop_last()).push((m.last().0@, prop_view(m.last().1)))
    }
}

/// The text of an optional string.
pub open spec fn opt_view(s: Option<String>) -> Option<Seq<char>> {
    match s {
        Some(x) => Some(x@),
        None => None,
    }
}

/// The model of a node.
pub open spec fn node_view(n: Node) -> NodeM
    decreases n,
{
    NodeM {
        name: opt_view(n.name),
        kind: match n.ntype {
            NodeType::NodeTypeTask => KindM::Task,
            NodeType::NodeTypeSeries(cs) => KindM::Series(children_view(cs@)),
            NodeType::NodeTypeParallel(cs) => KindM::Parallel(children_view(cs@)),
        },
        props: entries_view(n.properties@),
        continue_on_fail: n.continue_on_fail,
    }
}

/// The models of a list of nodes, in order.
pub open spec fn children_view(cs: Seq<Node>) -> Seq<NodeM>
    decreases cs,
{
    if cs.len() == 0 {
        Seq::empty()
    } else {
        children_view(cs.drop_last()).push(node_view(cs.last()))
    }
}

/// A property with every scalar run through substitution under `lk`.
pub open spec fn mat_prop(p: PropM, lk: Lookup) -> PropM
    decreases p,
{
    match p {
        PropM::Scalar(s) => PropM::Scalar(subst(s, lk)),
        PropM::Table(es) => PropM::Table(mat_entries(es, lk)),
    }
}

/// Entries with every value materialized under `lk`, keys and order kept.
pub open spec fn mat_entries(es: Seq<(Seq<char>, PropM)>, lk: Lookup) -> Seq<(Seq<char>, PropM)>
    decreases es,
{
    if es.len() == 0 {
        Seq::empty()
    } else {
        mat_entries(es.drop_last(), lk).push((es.last().0, mat_prop(es.last().1, lk)))
    }
}

/// A node with the properties of every node in it materialized under `lk`.
pub open spec fn fill_m(n: NodeM, lk: Lookup) -> NodeM
    decreases n,
{
    NodeM {
        name: n.name,
        kind: match n.kind {
            KindM::Task => KindM::Task,
            KindM::Series(cs) => KindM::Series(fill_children_m(cs, lk)),
            KindM::Parallel(cs) => KindM::Parallel(fill_children_m(cs, lk)),
        },
        props: mat_entries(n.props, lk),
        continue_on_fail: n.continue_on_fail,
    }
}

/// A list of nodes, each filled under `lk`.
pub open spec fn fill_children_m(cs: Seq<NodeM>, lk: Lookup) -> Seq<NodeM>
    decreases cs,
{
    if cs.len() == 0 {
        Seq::empty()
    } else {
        fill_children_m(cs.drop_last(), lk).push(fill_m(cs.last(), lk))
    }
}

/// The model of entries with one more at the end.
pub proof fn lemma_entries_view_push(m: Seq<(String, Property)>, e: (String, Property))
    ensures
        entries_view(m.push(e)) == entries_view(m).push((e.0@, prop_view(e.1))),
{
    assert(m.push(e).drop_last() =~= m);
}

/// The models of nodes with one more at the end.
pub proof fn lemma_children_view_push(cs: Seq<Node>, n: Node)
    ensures
        children_view(cs.push(n)) == children_view(cs).push(node_view(n)),
{
    assert(cs.push(n).drop_last() =~= cs);
}

/// The model of the first `i + 1` entries.
pub proof fn lemma_entries_view_prefix(m: Seq<(String, Property)>, i: int)
    requires
        0 <= i < m.len(),
    ensures
        entries_view(m.subrange(0, i + 1)) == entries_view(m.subrange(0, i)).push((m[i].0@, prop_view(m[i].1))),
{
    assert(m.subrange(0, i + 1).drop_last() =~= m.subrange(0, i));
}

/// The models of the first `i + 1` nodes.
pub proof fn lemma_children_view_prefix(cs: Seq<Node>, i: int)
    requires
        0 <= i < cs.len(),
    ensures
        children_view(cs.subrange(0, i + 1)) == children_view(cs.subrange(0, i)).push(node_view(cs[i])),
{
    assert(cs.subrange(0, i + 1).drop_last() =~= cs.subrange(0, i));
}

/// A list of nodes has as many models as nodes.
pub proof fn lemma_children_view_len(cs: Seq<Node>)
    ensures
        children_view(cs).len() == cs.len(),
    decreases cs.len(),
{
    if cs.len() > 0 {
        lemma_children_view_len(cs.drop_last());
    }
}

/// The `i`-th model is the model of the `i`-th node.
pub proof fn lemma_children_view_index(cs: Seq<Node>, i: int)
    requires
        0 <= i < cs.len(),
    ensures
        children_view(cs)[i] == node_view(cs[i]),
    decreases cs.len(),
{
    lemma_children_view_len(cs.drop_last());
    if i < cs.len() - 1 {
        lemma_children_view_index(cs.drop_last(), i);
    }
}

/// Materializing entries with one more at the end.
pub proof fn lemma_mat_entries_push(es: Seq<(Seq<char>, PropM)>, e: (Seq<char>, PropM), lk: Lookup)
    ensures
        mat_entries(es.push(e), lk) == mat_entries(es, lk).push((e.0, mat_prop(e.1, lk))),
{
    assert(es.push(e).drop_last() =~= es);
}

/// Filling nodes with one more at the end.
pub proof fn lemma_fill_children_push(cs: Seq<NodeM>, n: NodeM, lk: Lookup)
    ensures
        fill_children_m(cs.push(n), lk) == fill_children_m(cs, lk).push(fill_m(n, lk)),
{
    assert(cs.push(n).drop_last() =~= cs);
}

} // verus!
