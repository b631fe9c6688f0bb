//! The meaning of running a pipeline, given what the shell answered to each
//! command in turn.
use vstd::prelude::*;
use crate::model::{NodeM, KindM, PropM, node_view, fill_m, mat_entries};
use crate::context::{VarsModel, var_lookup, node_lookup};
use crate::node::Node;
use crate::task::{KWD_DISPLAY, settings, words, capture_model, trimmed};

verus! {

/// One command handed to the shell, and its answer.
pub struct ShellCall {
    pub cmd: Seq<char>,
    pub env: VarsModel,
    pub status: i32,
    pub stdout: Seq<char>,
    pub stderr: Seq<char>,
}

/// The result of running a node: success, the diffs it returned in order,
/// the index of the next shell call, and whether each shell call it made was
/// the command and environment that its task asked for.
pub struct Outcome {
    pub ok: bool,
    pub diffs: VarsModel,
    pub next: nat,
    pub calls_match: bool,
}

/// The index of the known node registered last under `name`.
pub open spec fn known_find(reg: Seq<(String, Node)>, name: Seq<char>) -> Option<int>
    decreases reg.len(),
{
    if reg.len() == 0 {
        None
    } else if reg.last().0@ == name {
        Some(reg.len() - 1)
    } else {
        known_find(reg.drop_last(), name)
    }
}

/// The variables as a lookup function.
pub open spec fn vars_lookup(vars: VarsModel) -> spec_fn(Seq<char>) -> Option<Seq<char>> {
    |k: Seq<char>| var_lookup(vars, k)
}

/// The lookup of an invocation with words `ws` over the variables.
pub open spec fn invocation_lookup(ws: Seq<Seq<char>>, vars: VarsModel) -> spec_fn(Seq<char>) -> Option<Seq<char>> {
    |k: Seq<char>| node_lookup(ws, vars, k)
}

/// The node that invoking a known node with command `cmd` runs: the template
/// filled from the invocation's words and the variables, with `cmd` as the
/// display text of its root.
pub open spec fn expansion(tpl: NodeM, cmd: Seq<char>, vars: VarsModel) -> NodeM {
    let f = fill_m(tpl, invocation_lookup(words(cmd), vars));
    NodeM { props: f.props.push((KWD_DISPLAY@, PropM::Scalar(cmd))), ..f }
}

/// A run that does nothing and succeeds.
pub open spec fn done(p: nat) -> Outcome {
    Outcome { ok: true, diffs: Seq::empty(), next: p, calls_match: true }
}

/// Running node `n` with variables `vars`, known nodes `reg`, the shell's
/// answers `t` from index `p` on, and `fuel` nested known-node invocations
/// allowed.
pub open spec fn sem_node(n: NodeM, vars: VarsModel, reg: Seq<(String, Node)>, t: Seq<ShellCall>, p: nat, fuel: nat) -> Outcome
    decreases fuel, n, 0nat,
{
    match n.kind {
        KindM::Task => {
            let st = settings(mat_entries(n.props, vars_lookup(vars)), n.name);
            match st.cmd {
                None => done(p),
                Some(c) => {
                    let ws = words(c);
                    if ws.len() > 0 && known_find(reg, ws[0]) is Some {
                        if fuel == 0 {
                            Outcome { ok: false, diffs: Seq::empty(), next: p, calls_match: true }
                        } else {
                            let tpl = node_view(reg[known_find(reg, ws[0])->0].1);
                            sem_node(expansion(tpl, c, vars), vars, reg, t, p, (fuel - 1) as nat)
                        }
                    } else if p < t.len() {
                        let call = t[p as int];
                        Outcome {
                            ok: call.status == 0,
                            diffs: capture_model(st.cap_err, st.cap_out, trimmed(call.stdout), trimmed(call.stderr)),
                            next: p + 1,
                            calls_match: call.cmd == c && call.env == st.env,
                        }
                    } else {
                        Outcome { ok: false, diffs: Seq::empty(), next: p + 1, calls_match: false }
                    }
                },
            }
        },
        KindM::Series(cs) => sem_series(cs, 0, vars, reg, t, p, fuel),
        KindM::Parallel(cs) => sem_parallel(cs, 0, vars, reg, t, p, fuel),
    }
}

/// Running children `i..` of a series, each after the diffs of the ones
/// before it; a failing child stops the rest unless it may fail.
pub open spec fn sem_series(cs: Seq<NodeM>, i: int, vars: VarsModel, reg: Seq<(String, Node)>, t: Seq<ShellCall>, p: nat, fuel: nat) -> Outcome
    decreases fuel, cs, cs.len() - i,
{
    if i < 0 || i >= cs.len() {
        done(p)
    } else {
        let o = sem_node(cs[i], vars, reg, t, p, fuel);
        if !o.ok && !cs[i].continue_on_fail {
            o
        } else {
            let rest = sem_series(cs, i + 1, vars + o.diffs, reg, t, o.next, fuel);
            Outcome {
                ok: o.ok && rest.ok,
                diffs: o.diffs + rest.diffs,
                next: rest.next,
                calls_match: o.calls_match && rest.calls_match,
            }
        }
    }
}

/// Running children `i..` of a parallel, each on the same variables; their
/// diffs are joined in the children's order.
pub open spec fn sem_parallel(cs: Seq<NodeM>, i: int, vars: VarsModel, reg: Seq<(String, Node)>, t: Seq<ShellCall>, p: nat, fuel: nat) -> Outcome
    decreases fuel, cs, cs.len() - i,
{
    if i < 0 || i >= cs.len() {
        done(p)
    } else {
        let o = sem_node(cs[i], vars, reg, t, p, fuel);
        let rest = sem_parallel(cs, i + 1, vars, reg, t, o.next, fuel);
        Outcome {
            ok: (o.ok || cs[i].continue_on_fail) && rest.ok,
            diffs: o.diffs + rest.diffs,
            next: rest.next,
            calls_match: o.calls_match && rest.calls_match,
        }
    }
}

/// A run never goes back in the shell's answers.
pub proof fn lemma_node_next(n: NodeM, vars: VarsModel, reg: Seq<(String, Node)>, t: Seq<ShellCall>, p: nat, fuel: nat)
    ensures
        sem_node(n, vars, reg, t, p, fuel).next >= p,
    decreases fuel, n, 0nat,
{
    match n.kind {
        KindM::Task => {
            let st = settings(mat_entries(n.props, vars_lookup(vars)), n.name);
            if let Some(c) = st.cmd {
                let ws = words(c);
                if ws.len() > 0 && known_find(reg, ws[0]) is Some && fuel > 0 {
                    let tpl = node_view(reg[known_find(reg, ws[0])->0].1);
                    lemma_node_next(expansion(tpl, c, vars), vars, reg, t, p, (fuel - 1) as nat);
                }
            }
        },
        KindM::Series(cs) => lemma_series_next(cs, 0, vars, reg, t, p, fuel),
        KindM::Parallel(cs) => lemma_parallel_next(cs, 0, vars, reg, t, p, fuel),
    }
}

/// A series run never goes back in the shell's answers.
pub proof fn lemma_series_next(cs: Seq<NodeM>, i: int, vars: VarsModel, reg: Seq<(String, Node)>, t: Seq<ShellCall>, p: nat, fuel: nat)
    ensures
        sem_series(cs, i, vars, reg, t, p, fuel).next >= p,
    decreases fuel, cs, cs.len() - i,
{
    if 0 <= i < cs.len() {
        let o = sem_node(cs[i], vars, reg, t, p, fuel);
        lemma_node_next(cs[i], vars, reg, t, p, fuel);
        lemma_series_next(cs, i + 1, vars + o.diffs, reg, t, o.next, fuel);
    }
}

/// A parallel run never goes back in the shell's answers.
pub proof fn lemma_parallel_next(cs: Seq<NodeM>, i: int, vars: VarsModel, reg: Seq<(String, Node)>, t: Seq<ShellCall>, p: nat, fuel: nat)
    ensures
        sem_parallel(cs, i, vars, reg, t, p, fuel).next >= p,
    decreases fuel, cs, cs.len() - i,
{
    if 0 <= i < cs.len() {
        let o = sem_node(cs[i], vars, reg, t, p, fuel);
        lemma_node_next(cs[i], vars, reg, t, p, fuel);
        lemma_parallel_next(cs, i + 1, vars, reg, t, o.next, fuel);
    }
}

/// Whether `t` is a prefix of `t2`.
pub open spec fn is_prefix(t: Seq<ShellCall>, t2: Seq<ShellCall>) -> bool {
    t.len() <= t2.len() && t2.subrange(0, t.len() as int) == t
}

/// A run reads only the answers before its `next`: later answers change
/// nothing of it.
pub proof fn lemma_node_stable(n: NodeM, vars: VarsModel, reg: Seq<(String, Node)>, t: Seq<ShellCall>, t2: Seq<ShellCall>, p: nat, fuel: nat)
    requires
        is_prefix(t, t2),
        sem_node(n, vars, reg, t, p, fuel).next <= t.len(),
    ensures
        sem_node(n, vars, reg, t2, p, fuel) == sem_node(n, vars, reg, t, p, fuel),
    decreases fuel, n, 0nat,
{
    match n.kind {
        KindM::Task => {
            let st = settings(mat_entries(n.props, vars_lookup(vars)), n.name);
            if let Some(c) = st.cmd {
                let ws = words(c);
                if ws.len() > 0 && known_find(reg, ws[0]) is Some {
                    if fuel > 0 {
                        let tpl = node_view(reg[known_find(reg, ws[0])->0].1);
                        lemma_node_stable(expansion(tpl, c, vars), vars, reg, t, t2, p, (fuel - 1) as nat);
                    }
                } else if p < t.len() {
                    assert(t2[p as int] == t[p as int]);
                }
            }
        },
        KindM::Series(cs) => lemma_series_stable(cs, 0, vars, reg, t, t2, p, fuel),
        KindM::Parallel(cs) => lemma_parallel_stable(cs, 0, vars, reg, t, t2, p, fuel),
    }
}

/// A series run reads only the answers before its `next`.
pub proof fn lemma_series_stable(cs: Seq<NodeM>, i: int, vars: VarsModel, reg: Seq<(String, Node)>, t: Seq<ShellCall>, t2: Seq<ShellCall>, p: nat, fuel: nat)
    requires
        is_prefix(t, t2),
        sem_series(cs, i, vars, reg, t, p, fuel).next <= t.len(),
    ensures
        sem_series(cs, i, vars, reg, t2, p, fuel) == sem_series(cs, i, vars, reg, t, p, fuel),
    decreases fuel, cs, cs.len() - i,
{
    if 0 <= i < cs.len() {
        let o = sem_node(cs[i], vars, reg, t, p, fuel);
        if !(!o.ok && !cs[i].continue_on_fail) {
            lemma_series_next(cs, i + 1, vars + o.diffs, reg, t, o.next, fuel);
        }
        lemma_node_stable(cs[i], vars, reg, t, t2, p, fuel);
        if !(!o.ok && !cs[i].continue_on_fail) {
            lemma_series_stable(cs, i + 1, vars + o.diffs, reg, t, t2, o.next, fuel);
        }
    }
}

/// A parallel run reads only the answers before its `next`.
pub proof fn lemma_parallel_stable(cs: Seq<NodeM>, i: int, vars: VarsModel, reg: Seq<(String, Node)>, t: Seq<ShellCall>, t2: Seq<ShellCall>, p: nat, fuel: nat)
    requires
        is_prefix(t, t2),
        sem_parallel(cs, i, vars, reg, t, p, fuel).next <= t.len(),
    ensures
        sem_parallel(cs, i, vars, reg, t2, p, fuel) == sem_parallel(cs, i, vars, reg, t, p, fuel),
    decreases fuel, cs, cs.len() - i,
{
    if 0 <= i < cs.len() {
        let o = sem_node(cs[i], vars, reg, t, p, fuel);
        lemma_parallel_next(cs, i + 1, vars, reg, t, o.next, fuel);
        lemma_node_stable(cs[i], vars, reg, t, t2, p, fuel);
        lemma_parallel_stable(cs, i + 1, vars, reg, t, t2, o.next, fuel);
    }
}

} // verus!
