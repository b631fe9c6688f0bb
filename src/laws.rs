//! Laws of pipeline runs, stated over the semantics and proved.
use vstd::prelude::*;
use crate::model::{NodeM, KindM, PropM, Lookup, node_view, mat_entries, mat_prop};
use crate::subst::{no_placeholder, lemma_subst_no_placeholder};
use crate::context::{VarsModel, var_lookup, is_digit, decimal_value};
use crate::node::Node;
use crate::task::{settings, words};
use crate::semantics::{
    ShellCall, Outcome, sem_node, sem_series, sem_parallel, done, known_find, vars_lookup,
    invocation_lookup, expansion,
};

verus! {

/// Two outcomes one after the other.
pub open spec fn join(a: Outcome, b: Outcome) -> Outcome {
    Outcome {
        ok: a.ok && b.ok,
        diffs: a.diffs + b.diffs,
        next: b.next,
        calls_match: a.calls_match && b.calls_match,
    }
}

/// The first `k` children of a series run one after the other, each with
/// the variables `vars` followed by the diffs of the children before it.
pub open spec fn series_prefix(cs: Seq<NodeM>, k: int, vars: VarsModel, reg: Seq<(String, Node)>, t: Seq<ShellCall>, p: nat, fuel: nat) -> Outcome
    decreases k,
{
    if k <= 0 {
        done(p)
    } else {
        let pre = series_prefix(cs, k - 1, vars, reg, t, p, fuel);
        join(pre, sem_node(cs[k - 1], vars + pre.diffs, reg, t, pre.next, fuel))
    }
}

/// Whether each of the first `k` children of a series lets the series go on:
/// it succeeded or may fail.
pub open spec fn series_goes_on(cs: Seq<NodeM>, k: int, vars: VarsModel, reg: Seq<(String, Node)>, t: Seq<ShellCall>, p: nat, fuel: nat) -> bool {
    forall|j: int|
        0 <= j < k ==> {
            let pre = #[trigger] series_prefix(cs, j, vars, reg, t, p, fuel);
            sem_node(cs[j], vars + pre.diffs, reg, t, pre.next, fuel).ok || cs[j].continue_on_fail
        }
}

/// In a series, child `k` is run with the starting variables followed by the
/// diffs of children `0..k`, in order, once every earlier child let the
/// series go on; the series' diffs are those diffs followed by the diffs of
/// the rest.
pub proof fn lemma_series_context(cs: Seq<NodeM>, k: int, vars: VarsModel, reg: Seq<(String, Node)>, t: Seq<ShellCall>, p: nat, fuel: nat)
    requires
        0 <= k <= cs.len(),
        series_goes_on(cs, k, vars, reg, t, p, fuel),
    ensures
        ({
            let pre = series_prefix(cs, k, vars, reg, t, p, fuel);
            sem_series(cs, 0, vars, reg, t, p, fuel) == join(pre, sem_series(cs, k, vars + pre.diffs, reg, t, pre.next, fuel))
        }),
    decreases k,
{
    if k == 0 {
        let s = sem_series(cs, 0, vars, reg, t, p, fuel);
        assert(vars + Seq::empty() =~= vars);
        assert(Seq::<(Seq<char>, Seq<char>)>::empty() + s.diffs =~= s.diffs);
    } else {
        assert(series_goes_on(cs, k - 1, vars, reg, t, p, fuel));
        lemma_series_context(cs, k - 1, vars, reg, t, p, fuel);
        let pre = series_prefix(cs, k - 1, vars, reg, t, p, fuel);
        let o = sem_node(cs[k - 1], vars + pre.diffs, reg, t, pre.next, fuel);
        assert(o.ok || cs[k - 1].continue_on_fail);
        assert((vars + pre.diffs) + o.diffs =~= vars + (pre.diffs + o.diffs));
        let rest = sem_series(cs, k, vars + (pre.diffs + o.diffs), reg, t, o.next, fuel);
        assert(pre.diffs + (o.diffs + rest.diffs) =~= (pre.diffs + o.diffs) + rest.diffs);
    }
}

/// The first `k` children of a parallel, each run with the same variables
/// `vars`; a child that may fail does not count against success.
pub open spec fn parallel_prefix(cs: Seq<NodeM>, k: int, vars: VarsModel, reg: Seq<(String, Node)>, t: Seq<ShellCall>, p: nat, fuel: nat) -> Outcome
    decreases k,
{
    if k <= 0 {
        done(p)
    } else {
        let pre = parallel_prefix(cs, k - 1, vars, reg, t, p, fuel);
        let o = sem_node(cs[k - 1], vars, reg, t, pre.next, fuel);
        Outcome {
            ok: pre.ok && (o.ok || cs[k - 1].continue_on_fail),
            diffs: pre.diffs + o.diffs,
            next: o.next,
            calls_match: pre.calls_match && o.calls_match,
        }
    }
}

/// In a parallel, every child is run with the variables of the parallel's
/// start, and the diffs come out in the children's order: those of children
/// `0..k`, then those of the rest.
pub proof fn lemma_parallel_context(cs: Seq<NodeM>, k: int, vars: VarsModel, reg: Seq<(String, Node)>, t: Seq<ShellCall>, p: nat, fuel: nat)
    requires
        0 <= k <= cs.len(),
    ensures
        ({
            let pre = parallel_prefix(cs, k, vars, reg, t, p, fuel);
            sem_parallel(cs, 0, vars, reg, t, p, fuel) == join(pre, sem_parallel(cs, k, vars, reg, t, pre.next, fuel))
        }),
    decreases k,
{
    if k == 0 {
        let s = sem_parallel(cs, 0, vars, reg, t, p, fuel);
        assert(Seq::<(Seq<char>, Seq<char>)>::empty() + s.diffs =~= s.diffs);
    } else {
        lemma_parallel_context(cs, k - 1, vars, reg, t, p, fuel);
        let pre = parallel_prefix(cs, k - 1, vars, reg, t, p, fuel);
        let o = sem_node(cs[k - 1], vars, reg, t, pre.next, fuel);
        let rest = sem_parallel(cs, k, vars, reg, t, o.next, fuel);
        assert(pre.diffs + (o.diffs + rest.diffs) =~= (pre.diffs + o.diffs) + rest.diffs);
    }
}

/// Merging diffs after earlier ones: a name set by the later diffs takes
/// their value, any other keeps the earlier value.
pub proof fn lemma_later_wins(a: VarsModel, b: VarsModel, k: Seq<char>)
    ensures
        var_lookup(a + b, k) == (if var_lookup(b, k) is Some { var_lookup(b, k) } else { var_lookup(a, k) }),
    decreases b.len(),
{
    if b.len() == 0 {
        assert(a + b =~= a);
    } else {
        assert((a + b).drop_last() =~= a + b.drop_last());
        lemma_later_wins(a, b.drop_last(), k);
    }
}

/// Whether two traces give the same answers, call for call.
pub open spec fn same_answers(t1: Seq<ShellCall>, t2: Seq<ShellCall>) -> bool {
    &&& t1.len() == t2.len()
    &&& forall|i: int|
        0 <= i < t1.len() ==> {
            &&& (#[trigger] t1[i]).status == t2[i].status
            &&& t1[i].stdout == t2[i].stdout
            &&& t1[i].stderr == t2[i].stderr
        }
}

/// Two runs of a node from the same variables, whose shell answers the same,
/// agree on success, diffs (and so on the final variables) and calls made.
pub proof fn lemma_run_deterministic(n: NodeM, vars: VarsModel, reg: Seq<(String, Node)>, t1: Seq<ShellCall>, t2: Seq<ShellCall>, p: nat, fuel: nat)
    requires
        same_answers(t1, t2),
    ensures
        sem_node(n, vars, reg, t1, p, fuel).ok == sem_node(n, vars, reg, t2, p, fuel).ok,
        sem_node(n, vars, reg, t1, p, fuel).diffs == sem_node(n, vars, reg, t2, p, fuel).diffs,
        sem_node(n, vars, reg, t1, p, fuel).next == sem_node(n, vars, reg, t2, p, fuel).next,
    decreases fuel, n, 0nat,
{
    match n.kind {
        KindM::Task => {
            let st = settings(mat_entries(n.props, vars_lookup(vars)), n.name);
            if let Some(c) = st.cmd {
                let ws = words(c);
                if ws.len() > 0 && known_find(reg, ws[0]) is Some {
                    if fuel > 0 {
                        let tpl = node_view(reg[known_find(reg, ws[0])->0].1);
                        lemma_run_deterministic(expansion(tpl, c, vars), vars, reg, t1, t2, p, (fuel - 1) as nat);
                    }
                } else if p < t1.len() {
                    assert(t1[p as int].status == t2[p as int].status);
                }
            }
        },
        KindM::Series(cs) => lemma_series_deterministic(cs, 0, vars, reg, t1, t2, p, fuel),
        KindM::Parallel(cs) => lemma_parallel_deterministic(cs, 0, vars, reg, t1, t2, p, fuel),
    }
}

proof fn lemma_series_deterministic(cs: Seq<NodeM>, i: int, vars: VarsModel, reg: Seq<(String, Node)>, t1: Seq<ShellCall>, t2: Seq<ShellCall>, p: nat, fuel: nat)
    requires
        same_answers(t1, t2),
    ensures
        sem_series(cs, i, vars, reg, t1, p, fuel).ok == sem_series(cs, i, vars, reg, t2, p, fuel).ok,
        sem_series(cs, i, vars, reg, t1, p, fuel).diffs == sem_series(cs, i, vars, reg, t2, p, fuel).diffs,
        sem_series(cs, i, vars, reg, t1, p, fuel).next == sem_series(cs, i, vars, reg, t2, p, fuel).next,
    decreases fuel, cs, cs.len() - i,
{
    if 0 <= i < cs.len() {
        lemma_run_deterministic(cs[i], vars, reg, t1, t2, p, fuel);
        let o = sem_node(cs[i], vars, reg, t1, p, fuel);
        lemma_series_deterministic(cs, i + 1, vars + o.diffs, reg, t1, t2, o.next, fuel);
    }
}

proof fn lemma_parallel_deterministic(cs: Seq<NodeM>, i: int, vars: VarsModel, reg: Seq<(String, Node)>, t1: Seq<ShellCall>, t2: Seq<ShellCall>, p: nat, fuel: nat)
    requires
        same_answers(t1, t2),
    ensures
        sem_parallel(cs, i, vars, reg, t1, p, fuel).ok == sem_parallel(cs, i, vars, reg, t2, p, fuel).ok,
        sem_parallel(cs, i, vars, reg, t1, p, fuel).diffs == sem_parallel(cs, i, vars, reg, t2, p, fuel).diffs,
        sem_parallel(cs, i, vars, reg, t1, p, fuel).next == sem_parallel(cs, i, vars, reg, t2, p, fuel).next,
    decreases fuel, cs, cs.len() - i,
{
    if 0 <= i < cs.len() {
        lemma_run_deterministic(cs[i], vars, reg, t1, t2, p, fuel);
        let o = sem_node(cs[i], vars, reg, t1, p, fuel);
        lemma_parallel_deterministic(cs, i + 1, vars, reg, t1, t2, o.next, fuel);
    }
}

/// Invoking a known node by a command `c` runs the same as running the
/// template with its placeholders filled: a placeholder naming position `i`
/// (a string of decimal digits of value `i`) becomes the `i`-th word of `c`,
/// the command's own name being word 0.
pub proof fn lemma_known_node_expansion(n: NodeM, vars: VarsModel, reg: Seq<(String, Node)>, t: Seq<ShellCall>, p: nat, fuel: nat, key: Seq<char>)
    requires
        n.kind is Task,
        fuel > 0,
        settings(mat_entries(n.props, vars_lookup(vars)), n.name).cmd is Some,
        words(settings(mat_entries(n.props, vars_lookup(vars)), n.name).cmd->0).len() > 0,
        known_find(reg, words(settings(mat_entries(n.props, vars_lookup(vars)), n.name).cmd->0)[0]) is Some,
    ensures
        ({
            let c = settings(mat_entries(n.props, vars_lookup(vars)), n.name).cmd->0;
            let ws = words(c);
            let tpl = node_view(reg[known_find(reg, ws[0])->0].1);
            &&& sem_node(n, vars, reg, t, p, fuel) == sem_node(expansion(tpl, c, vars), vars, reg, t, p, (fuel - 1) as nat)
            &&& (key.len() > 0 && (forall|j: int| 0 <= j < key.len() ==> is_digit(#[trigger] key[j]))
                && decimal_value(key) < ws.len())
                ==> (invocation_lookup(ws, vars))(key) == Some(ws[decimal_value(key) as int])
        }),
{
}

/// Whether no scalar of a property holds a placeholder.
pub open spec fn prop_plain(p: PropM) -> bool
    decreases p,
{
    match p {
        PropM::Scalar(s) => no_placeholder(s),
        PropM::Table(es) => entries_plain(es),
    }
}

/// Whether no scalar of any entry holds a placeholder.
pub open spec fn entries_plain(es: Seq<(Seq<char>, PropM)>) -> bool
    decreases es,
{
    es.len() == 0 || (entries_plain(es.drop_last()) && prop_plain(es.last().1))
}

/// Materializing a property none of whose scalars holds a placeholder gives
/// the property back, so materializing twice is materializing once.
pub proof fn lemma_materialize_plain(p: PropM, lk: Lookup)
    requires
        prop_plain(p),
    ensures
        mat_prop(p, lk) == p,
        mat_prop(mat_prop(p, lk), lk) == mat_prop(p, lk),
    decreases p,
{
    match p {
        PropM::Scalar(s) => lemma_subst_no_placeholder(s, lk),
        PropM::Table(es) => lemma_entries_plain(es, lk),
    }
}

proof fn lemma_entries_plain(es: Seq<(Seq<char>, PropM)>, lk: Lookup)
    requires
        entries_plain(es),
    ensures
        mat_entries(es, lk) == es,
    decreases es,
{
    if es.len() > 0 {
        lemma_entries_plain(es.drop_last(), lk);
        lemma_materialize_plain(es.last().1, lk);
        assert(mat_entries(es.drop_last(), lk).push((es.last().0, mat_prop(es.last().1, lk))) =~= es);
    }
}

} // verus!
