//! The document adapter: classifies a parsed configuration tree and builds
//! pipeline nodes and the registry of known nodes from it.
use vstd::prelude::*;
use crate::property::Property;
use crate::node::{Node, NodeType};
use crate::context::GlobalContext;
use crate::model::{
    PropM, NodeM, KindM, prop_view, entries_view, node_view, children_view,
    lemma_entries_view_push, lemma_children_view_push,
};
use crate::task::str_eq;

verus! {

broadcast use vstd::std_specs::vec::group_vec_axioms;

/// A parsed configuration document: scalars, sequences and mappings.
pub enum Doc {
    /// A string scalar.
    Str(String),
    /// An integer scalar.
    Integer(i64),
    /// A real scalar, as written in the source.
    Real(String),
    Boolean(bool),
    Null,
    Array(Vec<Doc>),
    /// A mapping, entries in source order.
    Hash(Vec<(Doc, Doc)>),
    /// Anything the parser could not represent otherwise.
    Other,
}

/// The kind a document value is classified as.
pub enum ParserNodeType {
    ParserNodeTypeSeries,
    ParserNodeTypeParallel,
    ParserNodeTypeTask,
    ParserNodeTypeKnown,
}

/// The keywords that decide a value's kind.
pub struct Keywords {
    pub series: String,
    pub parallel: String,
    pub task: String,
    pub task_alias: String,
    pub name: String,
    pub continue_on_fail: String,
}

impl Keywords {
    /// The standard keywords: `series`, `parallel`, `run` (or `task`),
    /// `name` and `continue_on_fail`.
    pub fn new() -> (r: Keywords)
        ensures
            r.series@ == "series"@,
            r.parallel@ == "parallel"@,
            r.task@ == "run"@,
            r.task_alias@ == "task"@,
            r.name@ == "name"@,
            r.continue_on_fail@ == "continue_on_fail"@,
    {
        Keywords {
            series: String::from_str("series"),
            parallel: String::from_str("parallel"),
            task: String::from_str("run"),
            task_alias: String::from_str("task"),
            name: String::from_str("name"),
            continue_on_fail: String::from_str("continue_on_fail"),
        }
    }
}

/// The decimal text of a natural number.
pub open spec fn nat_text(n: nat) -> Seq<char>
    decreases n,
{
    let d = ((n % 10) as u8 + '0' as u8) as char;
    if n < 10 {
        seq![d]
    } else {
        nat_text(n / 10).push(d)
    }
}

/// The decimal text of an integer, with `-` before a negative one.
pub open spec fn int_text(i: int) -> Seq<char> {
    if i < 0 {
        seq!['-'] + nat_text((-i) as nat)
    } else {
        nat_text(i as nat)
    }
}

/// The text of a value used as a key or scalar: strings as they are,
/// integers in decimal, reals as written, booleans as `true` / `false`, null
/// as `null`; anything else is empty.
pub open spec fn scalar_text(d: Doc) -> Seq<char> {
    match d {
        Doc::Str(s) => s@,
        Doc::Integer(i) => int_text(i as int),
        Doc::Real(s) => s@,
        Doc::Boolean(b) => if b { "true"@ } else { "false"@ },
        Doc::Null => "null"@,
        _ => Seq::empty(),
    }
}

/// The first entry of `h` from index `i` on whose key is the string `k`.
pub open spec fn entry_index(h: Seq<(Doc, Doc)>, k: Seq<char>, i: int) -> Option<int>
    decreases h.len() - i,
{
    if i < 0 || i >= h.len() {
        None
    } else if h[i].0 is Str && h[i].0->Str_0@ == k {
        Some(i)
    } else {
        entry_index(h, k, i + 1)
    }
}

/// Whether mapping `h` has the string key `k`.
pub open spec fn has_key(h: Seq<(Doc, Doc)>, k: Seq<char>) -> bool {
    entry_index(h, k, 0) is Some
}

/// The kind of a document value.
pub open spec fn classify(d: Doc, kw: Keywords) -> ParserNodeType {
    match d {
        Doc::Hash(h) => {
            if has_key(h@, kw.series@) {
                ParserNodeType::ParserNodeTypeSeries
            } else if has_key(h@, kw.parallel@) {
                ParserNodeType::ParserNodeTypeParallel
            } else if has_key(h@, kw.task@) || has_key(h@, kw.task_alias@) {
                ParserNodeType::ParserNodeTypeTask
            } else {
                ParserNodeType::ParserNodeTypeKnown
            }
        },
        Doc::Str(_) => ParserNodeType::ParserNodeTypeTask,
        _ => ParserNodeType::ParserNodeTypeKnown,
    }
}

/// The property a document value is taken in as: a mapping becomes a table
/// of its entries, keys as text; a scalar becomes its text; a sequence or an
/// unrepresentable value becomes the empty scalar.
pub open spec fn prop_of(d: Doc) -> PropM
    decreases d,
{
    match d {
        Doc::Hash(h) => PropM::Table(hash_props(h@)),
        _ => PropM::Scalar(scalar_text(d)),
    }
}

/// The entries of a mapping taken in as properties, in order.
pub open spec fn hash_props(h: Seq<(Doc, Doc)>) -> Seq<(Seq<char>, PropM)>
    decreases h,
{
    if h.len() == 0 {
        Seq::empty()
    } else {
        hash_props(h.drop_last()).push((scalar_text(h.last().0), prop_of(h.last().1)))
    }
}

/// Whether a value is a scalar.
pub open spec fn is_scalar(d: Doc) -> bool {
    !(d is Hash || d is Array || d is Other)
}

/// The display name a mapping gives: the text of its `name` entry, if that
/// is a scalar.
pub open spec fn name_of(h: Seq<(Doc, Doc)>, kw: Keywords) -> Option<Seq<char>> {
    match entry_index(h, kw.name@, 0) {
        Some(i) => if is_scalar(h[i].1) { Some(scalar_text(h[i].1)) } else { None },
        None => None,
    }
}

/// Whether a mapping marks its node as allowed to fail: its
/// `continue_on_fail` entry is the boolean true or the string `true`.
pub open spec fn cof_of(h: Seq<(Doc, Doc)>, kw: Keywords) -> bool {
    match entry_index(h, kw.continue_on_fail@, 0) {
        Some(i) => h[i].1 == Doc::Boolean(true) || (h[i].1 is Str && h[i].1->Str_0@ == "true"@),
        None => false,
    }
}

proof fn lemma_entry_index_bounds(h: Seq<(Doc, Doc)>, k: Seq<char>, i: int)
    ensures
        entry_index(h, k, i) is Some ==> {
            let j = entry_index(h, k, i)->0;
            &&& 0 <= i <= j < h.len()
            &&& h[j].0 is Str && h[j].0->Str_0@ == k
        },
    decreases h.len() - i,
{
    if 0 <= i < h.len() && !(h[i].0 is Str && h[i].0->Str_0@ == k) {
        lemma_entry_index_bounds(h, k, i + 1);
    }
}

#[via_fn]
proof fn node_of_decreases(d: Doc, kw: Keywords) {
    if let Doc::Hash(h) = d {
        let k = if has_key(h@, kw.series@) { kw.series@ } else { kw.parallel@ };
        lemma_entry_index_bounds(h@, k, 0);
        if let Some(i) = entry_index(h@, k, 0) {
            if let Doc::Array(a) = h@[i].1 {
                assert(decreases_to!(d => h));
                assert(decreases_to!(h => h@));
                assert(decreases_to!(h@ => h@[i]));
                assert(decreases_to!(h@[i] => h@[i].1));
                assert(decreases_to!(h@[i].1 => a));
                assert(decreases_to!(a => a@));
            }
        }
    }
}

/// The node a document value builds, if it builds one.
pub open spec fn node_of(d: Doc, kw: Keywords) -> Option<NodeM>
    decreases d,
    via node_of_decreases
{
    match d {
        Doc::Str(s) => Some(NodeM {
            name: None,
            kind: KindM::Task,
            props: seq![(kw.task@, PropM::Scalar(s@))],
            continue_on_fail: false,
        }),
        Doc::Hash(h) => {
            if has_key(h@, kw.series@) || has_key(h@, kw.parallel@) {
                let k = if has_key(h@, kw.series@) { kw.series@ } else { kw.parallel@ };
                let cs = match entry_index(h@, k, 0) {
                    Some(i) => match h@[i].1 {
                        Doc::Array(a) => nodes_of(a@, kw),
                        _ => Seq::empty(),
                    },
                    None => Seq::empty(),
                };
                Some(NodeM {
                    name: name_of(h@, kw),
                    kind: if has_key(h@, kw.series@) { KindM::Series(cs) } else { KindM::Parallel(cs) },
                    props: hash_props(h@),
                    continue_on_fail: cof_of(h@, kw),
                })
            } else if has_key(h@, kw.task@) || has_key(h@, kw.task_alias@) {
                Some(NodeM {
                    name: name_of(h@, kw),
                    kind: KindM::Task,
                    props: hash_props(h@),
                    continue_on_fail: cof_of(h@, kw),
                })
            } else {
                None
            }
        },
        _ => None,
    }
}

/// The nodes that the elements of a sequence build, in order; elements that
/// build none are left out.
pub open spec fn nodes_of(items: Seq<Doc>, kw: Keywords) -> Seq<NodeM>
    decreases items,
{
    if items.len() == 0 {
        Seq::empty()
    } else {
        let rest = nodes_of(items.drop_last(), kw);
        match node_of(items.last(), kw) {
            Some(n) => rest.push(n),
            None => rest,
        }
    }
}

fn digit_str(d: u64) -> (r: &'static str)
    requires
        d < 10,
    ensures
        r@ == seq![((d as u8) + ('0' as u8)) as char],
{
    proof {
        reveal_strlit("0");
        reveal_strlit("1");
        reveal_strlit("2");
        reveal_strlit("3");
        reveal_strlit("4");
        reveal_strlit("5");
        reveal_strlit("6");
        reveal_strlit("7");
        reveal_strlit("8");
        reveal_strlit("9");
    }
    let r = if d == 0 {
        "0"
    } else if d == 1 {
        "1"
    } else if d == 2 {
        "2"
    } else if d == 3 {
        "3"
    } else if d == 4 {
        "4"
    } else if d == 5 {
        "5"
    } else if d == 6 {
        "6"
    } else if d == 7 {
        "7"
    } else if d == 8 {
        "8"
    } else {
        "9"
    };
    proof {
        assert(r@ =~= seq![((d as u8) + ('0' as u8)) as char]);
    }
    r
}

fn nat_to_string(n: u64) -> (r: String)
    ensures
        r@ == nat_text(n as nat),
    decreases n,
{
    if n < 10 {
        String::from_str(digit_str(n))
    } else {
        let mut s = nat_to_string(n / 10);
        s.append(digit_str(n % 10));
        s
    }
}

/// The decimal text of `i`.
pub fn int_to_string(i: i64) -> (r: String)
    ensures
        r@ == int_text(i as int),
{
    if i < 0 {
        let m = (0i128 - i as i128) as u64;
        let digits = nat_to_string(m);
        let mut s = String::from_str("-");
        s.append(digits.as_str());
        proof {
            reveal_strlit("-");
        }
        s
    } else {
        nat_to_string(i as u64)
    }
}

/// The text of a key or scalar value.
pub fn get_yaml_key_as_string(d: &Doc) -> (r: String)
    ensures
        r@ == scalar_text(*d),
{
    match d {
        Doc::Str(s) => s.clone(),
        Doc::Integer(i) => int_to_string(*i),
        Doc::Real(s) => s.clone(),
        Doc::Boolean(b) => {
            proof {
                reveal_strlit("true");
                reveal_strlit("false");
            }
            if *b {
                String::from_str("true")
            } else {
                String::from_str("false")
            }
        },
        Doc::Null => {
            proof {
                reveal_strlit("null");
            }
            String::from_str("null")
        },
        _ => String::new(),
    }
}

/// The index of the first entry of `h` whose key is the string `k`.
pub fn find_entry(h: &Vec<(Doc, Doc)>, k: &str) -> (r: Option<usize>)
    ensures
        r is None <==> entry_index(h@, k@, 0) is None,
        r is Some ==> r->0 as int == entry_index(h@, k@, 0)->0 && r->0 < h@.len(),
{
    let mut i: usize = 0;
    while i < h.len()
        invariant
            i <= h@.len(),
            entry_index(h@, k@, 0) == entry_index(h@, k@, i as int),
        decreases h@.len() - i,
    {
        if let Doc::Str(s) = &h[i].0 {
            if str_eq(s.as_str(), k) {
                return Some(i);
            }
        }
        i = i + 1;
    }
    None
}

/// The kind of a document value.
pub fn get_node_type(d: &Doc, kw: &Keywords) -> (r: ParserNodeType)
    ensures
        r == classify(*d, *kw),
{
    match d {
        Doc::Hash(h) => {
            if find_entry(h, kw.series.as_str()).is_some() {
                ParserNodeType::ParserNodeTypeSeries
            } else if find_entry(h, kw.parallel.as_str()).is_some() {
                ParserNodeType::ParserNodeTypeParallel
            } else if find_entry(h, kw.task.as_str()).is_some() || find_entry(h, kw.task_alias.as_str()).is_some() {
                ParserNodeType::ParserNodeTypeTask
            } else {
                ParserNodeType::ParserNodeTypeKnown
            }
        },
        Doc::Str(_) => ParserNodeType::ParserNodeTypeTask,
        _ => ParserNodeType::ParserNodeTypeKnown,
    }
}

/// Takes a document value in as a property.
pub fn ingest_property(d: &Doc) -> (r: Property)
    ensures
        prop_view(r) == prop_of(*d),
    decreases d,
{
    match d {
        Doc::Hash(h) => Property::Mapping(ingest_entries(d, h)),
        _ => Property::Simple(get_yaml_key_as_string(d)),
    }
}

fn ingest_entries(d: &Doc, h: &Vec<(Doc, Doc)>) -> (r: Vec<(String, Property)>)
    requires
        *d == Doc::Hash(*h),
    ensures
        entries_view(r@) == hash_props(h@),
    decreases d, 0nat,
{
    let mut out: Vec<(String, Property)> = Vec::new();
    let mut i: usize = 0;
    while i < h.len()
        invariant
            i <= h@.len(),
            *d == Doc::Hash(*h),
            entries_view(out@) == hash_props(h@.subrange(0, i as int)),
        decreases h@.len() - i,
    {
        proof {
            assert(decreases_to!(*d => d->Hash_0));
            assert(decreases_to!(h => h[i as int]));
            assert(decreases_to!(h[i as int] => h[i as int].1));
            assert(h@.subrange(0, i + 1).drop_last() =~= h@.subrange(0, i as int));
        }
        let k = get_yaml_key_as_string(&h[i].0);
        let v = ingest_property(&h[i].1);
        let ghost prev = out@;
        out.push((k, v));
        proof {
            lemma_entries_view_push(prev, (k, v));
        }
        i = i + 1;
    }
    proof {
        assert(h@.subrange(0, h@.len() as int) =~= h@);
    }
    out
}

/// Whether `d` is a scalar.
fn doc_is_scalar(d: &Doc) -> (r: bool)
    ensures
        r == is_scalar(*d),
{
    match d {
        Doc::Hash(_) | Doc::Array(_) | Doc::Other => false,
        _ => true,
    }
}

fn get_name(h: &Vec<(Doc, Doc)>, kw: &Keywords) -> (r: Option<String>)
    ensures
        (match r { Some(x) => Some(x@), None => None }) == name_of(h@, *kw),
{
    match find_entry(h, kw.name.as_str()) {
        Some(i) => {
            if doc_is_scalar(&h[i].1) {
                Some(get_yaml_key_as_string(&h[i].1))
            } else {
                None
            }
        },
        None => None,
    }
}

fn get_continue_on_fail(h: &Vec<(Doc, Doc)>, kw: &Keywords) -> (r: bool)
    ensures
        r == cof_of(h@, *kw),
{
    proof {
        reveal_strlit("true");
    }
    match find_entry(h, kw.continue_on_fail.as_str()) {
        Some(i) => match &h[i].1 {
            Doc::Boolean(b) => *b,
            Doc::Str(s) => str_eq(s.as_str(), "true"),
            _ => false,
        },
        None => false,
    }
}

/// The view of an optional node.
pub open spec fn opt_node_view(n: Option<Node>) -> Option<NodeM> {
    match n {
        Some(x) => Some(node_view(x)),
        None => None,
    }
}

/// Builds the node that document value `d` describes: a series or parallel
/// from a mapping with that keyword (the elements of the sequence under it,
/// those that build nothing skipped), a task from a mapping with the task
/// keyword or from a bare string; nothing from anything else.
pub fn make_node(d: &Doc, kw: &Keywords) -> (r: Option<Node>)
    ensures
        opt_node_view(r) == node_of(*d, *kw),
    decreases d,
{
    match d {
        Doc::Str(s) => {
            let props = vec![(kw.task.clone(), Property::Simple(s.clone()))];
            proof {
                let p0 = Seq::<(String, Property)>::empty();
                lemma_entries_view_push(p0, (kw.task, Property::Simple(*s)));
                assert(props@ =~= p0.push((kw.task, Property::Simple(*s))));
                assert(entries_view(p0) =~= Seq::empty());
                assert(entries_view(props@) =~= seq![(kw.task@, PropM::Scalar(s@))]);
            }
            Some(Node { name: None, ntype: NodeType::NodeTypeTask, properties: props, continue_on_fail: false })
        },
        Doc::Hash(h) => {
            let is_series = find_entry(h, kw.series.as_str()).is_some();
            let is_parallel = find_entry(h, kw.parallel.as_str()).is_some();
            if is_series || is_parallel {
                let k = if is_series { kw.series.as_str() } else { kw.parallel.as_str() };
                let mut cs: Vec<Node> = Vec::new();
                proof {
                    assert(children_view(cs@) =~= Seq::empty());
                }
                if let Some(i) = find_entry(h, k) {
                    if let Doc::Array(a) = &h[i].1 {
                        proof {
                            assert(decreases_to!(*d => d->Hash_0));
                            assert(decreases_to!(h => h[i as int]));
                            assert(decreases_to!(h[i as int] => h[i as int].1));
                        }
                        cs = make_nodes(&h[i].1, a, kw);
                    }
                }
                let name = get_name(h, kw);
                let cof = get_continue_on_fail(h, kw);
                let props = ingest_entries(d, h);
                let ntype = if is_series { NodeType::NodeTypeSeries(cs) } else { NodeType::NodeTypeParallel(cs) };
                Some(Node { name, ntype, properties: props, continue_on_fail: cof })
            } else if find_entry(h, kw.task.as_str()).is_some() || find_entry(h, kw.task_alias.as_str()).is_some() {
                let name = get_name(h, kw);
                let cof = get_continue_on_fail(h, kw);
                let props = ingest_entries(d, h);
                Some(Node { name, ntype: NodeType::NodeTypeTask, properties: props, continue_on_fail: cof })
            } else {
                None
            }
        },
        _ => None,
    }
}

fn make_nodes(d: &Doc, a: &Vec<Doc>, kw: &Keywords) -> (r: Vec<Node>)
    requires
        *d == Doc::Array(*a),
    ensures
        children_view(r@) == nodes_of(a@, *kw),
    decreases d, 0nat,
{
    let mut out: Vec<Node> = Vec::new();
    let mut i: usize = 0;
    proof {
        assert(children_view(out@) =~= Seq::empty());
        assert(a@.subrange(0, 0) =~= Seq::<Doc>::empty());
    }
    while i < a.len()
        invariant
            i <= a@.len(),
            *d == Doc::Array(*a),
            children_view(out@) == nodes_of(a@.subrange(0, i as int), *kw),
        decreases a@.len() - i,
    {
        proof {
            assert(decreases_to!(*d => d->Array_0));
            assert(decreases_to!(a => a[i as int]));
            assert(a@.subrange(0, i + 1).drop_last() =~= a@.subrange(0, i as int));
        }
        let n = make_node(&a[i], kw);
        if let Some(x) = n {
            let ghost prev = out@;
            out.push(x);
            proof {
                lemma_children_view_push(prev, x);
            }
        }
        i = i + 1;
    }
    proof {
        assert(a@.subrange(0, a@.len() as int) =~= a@);
    }
    out
}

/// The view of a registry of known nodes.
pub open spec fn known_view(reg: Seq<(String, Node)>) -> Seq<(Seq<char>, NodeM)> {
    reg.map_values(|e: (String, Node)| (e.0@, node_view(e.1)))
}

/// Whether a top-level key is one of the composite or task keywords.
pub open spec fn is_reserved(k: Seq<char>, kw: Keywords) -> bool {
    k == kw.series@ || k == kw.parallel@ || k == kw.task@ || k == kw.task_alias@
}

/// The known nodes that the top-level entries of a root mapping define, in
/// order: each entry whose key is no keyword and whose value builds a node.
pub open spec fn known_entries(h: Seq<(Doc, Doc)>, kw: Keywords) -> Seq<(Seq<char>, NodeM)>
    decreases h.len(),
{
    if h.len() == 0 {
        Seq::empty()
    } else {
        let rest = known_entries(h.drop_last(), kw);
        let k = scalar_text(h.last().0);
        if !is_reserved(k, kw) && !(classify(h.last().1, kw) is ParserNodeTypeKnown) && node_of(h.last().1, kw) is Some {
            rest.push((k, node_of(h.last().1, kw)->0))
        } else {
            rest
        }
    }
}

/// The known nodes that a root document defines.
pub open spec fn root_known_entries(d: Doc, kw: Keywords) -> Seq<(Seq<char>, NodeM)> {
    match d {
        Doc::Hash(h) => known_entries(h@, kw),
        _ => Seq::empty(),
    }
}

/// Registers in `global_context` the known nodes that the top-level entries
/// of the root document `d` define.
pub fn register_known_nodes(d: &Doc, kw: &Keywords, global_context: &mut GlobalContext)
    ensures
        known_view(final(global_context).known_nodes@) == known_view(old(global_context).known_nodes@) + root_known_entries(*d, *kw),
        final(global_context).variables == old(global_context).variables,
{
    if let Doc::Hash(h) = d {
        let ghost k0 = known_view(global_context.known_nodes@);
        let mut i: usize = 0;
        proof {
            assert(h@.subrange(0, 0) =~= Seq::<(Doc, Doc)>::empty());
            assert(k0 + Seq::empty() =~= k0);
        }
        while i < h.len()
            invariant
                i <= h@.len(),
                k0 == known_view(old(global_context).known_nodes@),
                known_view(global_context.known_nodes@) == k0 + known_entries(h@.subrange(0, i as int), *kw),
                global_context.variables == old(global_context).variables,
            decreases h@.len() - i,
        {
            proof {
                assert(h@.subrange(0, i + 1).drop_last() =~= h@.subrange(0, i as int));
            }
            let key = get_yaml_key_as_string(&h[i].0);
            let reserved = str_eq(key.as_str(), kw.series.as_str()) || str_eq(key.as_str(), kw.parallel.as_str())
                || str_eq(key.as_str(), kw.task.as_str()) || str_eq(key.as_str(), kw.task_alias.as_str());
            if !reserved {
                let t = get_node_type(&h[i].1, kw);
                if !matches!(t, ParserNodeType::ParserNodeTypeKnown) {
                    if let Some(n) = make_node(&h[i].1, kw) {
                        let ghost prev = global_context.known_nodes@;
                        let ghost kv = key@;
                        let ghost nv = node_view(n);
                        global_context.add_known_node(key, n);
                        proof {
                            assert(known_view(global_context.known_nodes@) =~= known_view(prev).push((kv, nv)));
                        }
                    }
                }
            }
            i = i + 1;
        }
        proof {
            assert(h@.subrange(0, h@.len() as int) =~= h@);
        }
    } else {
        proof {
            assert(known_view(global_context.known_nodes@) + Seq::empty() =~= known_view(global_context.known_nodes@));
        }
    }
}

/// Builds the root pipeline of document `d` after registering the known
/// nodes it defines; `None` if the root builds no node.
pub fn load_pipeline(d: &Doc, kw: &Keywords, global_context: &mut GlobalContext) -> (r: Option<Node>)
    ensures
        opt_node_view(r) == node_of(*d, *kw),
        known_view(final(global_context).known_nodes@) == known_view(old(global_context).known_nodes@) + root_known_entries(*d, *kw),
        final(global_context).variables == old(global_context).variables,
{
    register_known_nodes(d, kw, global_context);
    make_node(d, kw)
}

} // verus!
