//! The shared context: variables, the registry of known nodes, the diffs that
//! tasks return, and the two lookup views used for substitution.
use vstd::prelude::*;
use crate::node::Node;
use crate::subst::Context;

verus! {

broadcast use vstd::std_specs::vec::group_vec_axioms;

/// A change to the variables, returned by a task and applied by the scheduler.
pub enum ContextDiff {
    /// Store the value (second) under the name (first), replacing any earlier one.
    CDSet(String, String),
}

/// The name and value a diff sets.
pub open spec fn diff_view(d: ContextDiff) -> (Seq<char>, Seq<char>) {
    match d {
        ContextDiff::CDSet(k, v) => (k@, v@),
    }
}

/// The variables as name / value pairs in the order they were set.
pub type VarsModel = Seq<(Seq<char>, Seq<char>)>;

/// The text view of a list of variables.
pub open spec fn vars_view(v: Seq<(String, String)>) -> VarsModel {
    v.map_values(|e: (String, String)| (e.0@, e.1@))
}

/// The text view of a list of diffs.
pub open spec fn diffs_view(d: Seq<ContextDiff>) -> VarsModel {
    d.map_values(|e: ContextDiff| diff_view(e))
}

/// The value of `k`: the one set last, or none if `k` was never set.
pub open spec fn var_lookup(vs: VarsModel, k: Seq<char>) -> Option<Seq<char>>
    decreases vs.len(),
{
    if vs.len() == 0 {
        None
    } else if vs.last().0 == k {
        Some(vs.last().1)
    } else {
        var_lookup(vs.drop_last(), k)
    }
}

/// Process-wide state of a run: variables and the known nodes by name.
pub struct GlobalContext {
    pub known_nodes: Vec<(String, Node)>,
    pub variables: Vec<(String, String)>,
}

impl GlobalContext {
    /// An empty context.
    pub fn new() -> (r: GlobalContext)
        ensures
            r.known_nodes@.len() == 0,
            r.variables@.len() == 0,
    {
        GlobalContext { known_nodes: Vec::new(), variables: Vec::new() }
    }

    /// The current value of variable `key`.
    pub fn get_variable(&self, key: &str) -> (r: Option<String>)
        ensures
            r is None <==> var_lookup(vars_view(self.variables@), key@) is None,
            r is Some ==> r->0@ == var_lookup(vars_view(self.variables@), key@)->0,
    {
        lookup_var(&self.variables, key)
    }

    /// Sets variable `key` to `value`.
    pub fn set_variable(&mut self, key: String, value: String)
        ensures
            vars_view(final(self).variables@) == vars_view(old(self).variables@).push((key@, value@)),
            final(self).known_nodes == old(self).known_nodes,
    {
        self.variables.push((key, value));
        proof {
            assert(vars_view(self.variables@) =~= vars_view(old(self).variables@).push((key@, value@)));
        }
    }

    /// Registers `node` under `name`, replacing an earlier node of that name.
    pub fn add_known_node(&mut self, name: String, node: Node)
        ensures
            final(self).known_nodes@ == old(self).known_nodes@.push((name, node)),
            final(self).variables == old(self).variables,
    {
        self.known_nodes.push((name, node));
    }

    /// Applies `diffs` to the variables, in order.
    pub fn apply_diffs(&mut self, diffs: &Vec<ContextDiff>)
        ensures
            vars_view(final(self).variables@) == vars_view(old(self).variables@) + diffs_view(diffs@),
            final(self).known_nodes == old(self).known_nodes,
    {
        apply_diffs_to(&mut self.variables, diffs);
    }
}

/// Appends the settings of `diffs` to `vars`, in order.
pub fn apply_diffs_to(vars: &mut Vec<(String, String)>, diffs: &Vec<ContextDiff>)
    ensures
        vars_view(final(vars)@) == vars_view(old(vars)@) + diffs_view(diffs@),
{
    let mut i: usize = 0;
    while i < diffs.len()
        invariant
            i <= diffs@.len(),
            vars_view(vars@) == vars_view(old(vars)@) + diffs_view(diffs@.subrange(0, i as int)),
        decreases diffs@.len() - i,
    {
        let ghost prev = vars@;
        match &diffs[i] {
            ContextDiff::CDSet(k, v) => {
                vars.push((k.clone(), v.clone()));
                proof {
                    assert(vars_view(vars@) =~= vars_view(prev).push(diff_view(diffs@[i as int])));
                }
            },
        }
        proof {
            assert(diffs_view(diffs@.subrange(0, i + 1)) =~= diffs_view(diffs@.subrange(0, i as int)).push(diff_view(diffs@[i as int])));
            assert(vars_view(vars@) =~= vars_view(old(vars)@) + diffs_view(diffs@.subrange(0, i + 1)));
        }
        i = i + 1;
    }
    proof {
        assert(diffs@.subrange(0, diffs@.len() as int) =~= diffs@);
    }
}

/// The value of `key` in `vars`, the one set last.
pub fn lookup_var(vars: &Vec<(String, String)>, key: &str) -> (r: Option<String>)
    ensures
        r is None <==> var_lookup(vars_view(vars@), key@) is None,
        r is Some ==> r->0@ == var_lookup(vars_view(vars@), key@)->0,
{
    let k = String::from_str(key);
    let mut i: usize = vars.len();
    proof {
        assert(vars@.subrange(0, i as int) =~= vars@);
    }
    while i > 0
        invariant
            i <= vars@.len(),
            k@ == key@,
            var_lookup(vars_view(vars@), key@) == var_lookup(vars_view(vars@.subrange(0, i as int)), key@),
        decreases i,
    {
        proof {
            assert(vars_view(vars@.subrange(0, i as int)).drop_last() =~= vars_view(vars@.subrange(0, i - 1)));
        }
        if vars[i - 1].0 == k {
            return Some(vars[i - 1].1.clone());
        }
        i = i - 1;
    }
    None
}

/// A lookup view that consults the variables only.
pub struct GCHolder<'a> {
    pub variables: &'a Vec<(String, String)>,
}

impl<'a> Context for GCHolder<'a> {
    open spec fn lookup(&self, key: Seq<char>) -> Option<Seq<char>> {
        var_lookup(vars_view(self.variables@), key)
    }

    fn get_value_from_key(&self, key: &str) -> (r: Option<String>) {
        lookup_var(self.variables, key)
    }
}

/// The value of the decimal digit `c`.
pub open spec fn digit_value(c: char) -> nat {
    (c as nat - '0' as nat) as nat
}

/// Whether `c` is a decimal digit.
pub open spec fn is_digit(c: char) -> bool {
    '0' <= c <= '9'
}

/// The number that a string of decimal digits writes.
pub open spec fn decimal_value(s: Seq<char>) -> nat
    decreases s.len(),
{
    if s.len() == 0 {
        0
    } else {
        decimal_value(s.drop_last()) * 10 + digit_value(s.last())
    }
}

/// The position that `key` names among `n` positional arguments, if it is a
/// non-empty string of decimal digits whose value is below `n`.
pub open spec fn positional_index(key: Seq<char>, n: nat) -> Option<nat> {
    if key.len() > 0 && (forall|i: int| 0 <= i < key.len() ==> is_digit(#[trigger] key[i])) && decimal_value(key) < n {
        Some(decimal_value(key))
    } else {
        None
    }
}

/// The lookup of a known-node invocation: positional arguments by index
/// first, the variables after.
pub open spec fn node_lookup(args: Seq<Seq<char>>, vars: VarsModel, key: Seq<char>) -> Option<Seq<char>> {
    match positional_index(key, args.len()) {
        Some(i) => Some(args[i as int]),
        None => var_lookup(vars, key),
    }
}

/// The text view of a list of strings.
pub open spec fn strings_view(v: Seq<String>) -> Seq<Seq<char>> {
    v.map_values(|s: String| s@)
}

/// Where `key` points among `n` positional arguments.
fn parse_position(key: &str, n: usize) -> (r: Option<usize>)
    ensures
        r is Some <==> positional_index(key@, n as nat) is Some,
        r is Some ==> r->0 as nat == positional_index(key@, n as nat)->0,
{
    let len = key.unicode_len();
    if len == 0 {
        return None;
    }
    let mut acc: u128 = 0;
    let mut big = n == 0;
    let mut i: usize = 0;
    while i < len
        invariant
            len == key@.len(),
            i <= len,
            forall|j: int| 0 <= j < i ==> is_digit(#[trigger] key@[j]),
            !big ==> acc as nat == decimal_value(key@.subrange(0, i as int)) && acc < n,
            big ==> decimal_value(key@.subrange(0, i as int)) >= n,
        decreases len - i,
    {
        let c = key.get_char(i);
        if !('0' <= c && c <= '9') {
            proof {
                assert(!is_digit(key@[i as int]));
            }
            return None;
        }
        proof {
            let t = key@.subrange(0, i + 1);
            assert(t.drop_last() =~= key@.subrange(0, i as int));
        }
        if !big {
            let d = (c as u32 - '0' as u32) as u128;
            acc = acc * 10 + d;
            if acc >= n as u128 {
                big = true;
            }
        } else {
            proof {
                assert(decimal_value(key@.subrange(0, i + 1)) >= decimal_value(key@.subrange(0, i as int)));
            }
        }
        i = i + 1;
    }
    proof {
        assert(key@.subrange(0, len as int) =~= key@);
    }
    if big {
        None
    } else {
        Some(acc as usize)
    }
}

/// A lookup view for a known-node invocation: the words of the invocation
/// by position first, then the variables.
pub struct NodeContext<'a> {
    pub gc_holder: GCHolder<'a>,
    pub cmd_list: Vec<String>,
}

impl<'a> Context for NodeContext<'a> {
    open spec fn lookup(&self, key: Seq<char>) -> Option<Seq<char>> {
        node_lookup(strings_view(self.cmd_list@), vars_view(self.gc_holder.variables@), key)
    }

    fn get_value_from_key(&self, key: &str) -> (r: Option<String>) {
        match parse_position(key, self.cmd_list.len()) {
            Some(i) => Some(self.cmd_list[i].clone()),
            None => self.gc_holder.get_value_from_key(key),
        }
    }
}

} // verus!
