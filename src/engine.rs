//! The scheduler and the shell task: walks a pipeline, runs its tasks through
//! a shell, and applies the diffs they return.
use vstd::prelude::*;
use crate::property::Property;
use crate::subst::Context;
use crate::node::{Node, NodeType, materialize_props, fill_node};
use crate::context::{
    ContextDiff, GCHolder, GlobalContext, NodeContext, VarsModel, vars_view, diffs_view,
    strings_view, apply_diffs_to,
};
use crate::model::{
    PropM, node_view, children_view, entries_view, lemma_entries_view_prefix,
    lemma_entries_view_push, lemma_children_view_index, lemma_children_view_len,
};
use crate::task::{
    KWD_TASK, KWD_TASK_ALIAS, KWD_ENV, KWD_CAP_STDOUT, KWD_CAP_STDERR, KWD_DISPLAY, SettingsM,
    settings, scalar_pairs, str_eq, split_words, capture_output, words,
};
use crate::semantics::{
    ShellCall, Outcome, sem_node, sem_series, sem_parallel, known_find, is_prefix, vars_lookup,
    invocation_lookup, expansion, lemma_node_stable,
};

verus! {

broadcast use vstd::std_specs::vec::group_vec_axioms;

/// How deeply known-node invocations may nest; an invocation deeper than this
/// fails instead of running.
pub const MAX_EXPANSION_DEPTH: usize = 64;

/// The shell that runs commands and shows task results.
pub trait Shell {
    /// Runs `cmd` with the environment overlay `env`; returns the exit status,
    /// standard output and standard error.
    fn exec(&mut self, cmd: &String, env: &Vec<(String, String)>) -> (i32, String, String);

    /// Shows that the task displayed as `display` finished, successfully or not.
    fn report(&mut self, display: &String, success: bool);
}

/// A shell together with the record of every call made through it.
pub struct Recorder<S: Shell> {
    pub shell: S,
    pub trace: Ghost<Seq<ShellCall>>,
}

impl<S: Shell> Recorder<S> {
    /// A recorder with no calls made yet.
    pub fn new(shell: S) -> (r: Self)
        ensures
            r.trace@ == Seq::<ShellCall>::empty(),
    {
        Recorder { shell, trace: Ghost(Seq::empty()) }
    }

    /// Runs `cmd` through the shell and records the call and its answer.
    pub fn exec(&mut self, cmd: &String, env: &Vec<(String, String)>) -> (r: (i32, String, String))
        ensures
            final(self).trace@ == old(self).trace@.push(
                ShellCall { cmd: cmd@, env: vars_view(env@), status: r.0, stdout: r.1@, stderr: r.2@ },
            ),
    {
        let r = self.shell.exec(cmd, env);
        self.trace = Ghost(self.trace@.push(
            ShellCall { cmd: cmd@, env: vars_view(env@), status: r.0, stdout: r.1@, stderr: r.2@ },
        ));
        r
    }
}

/// What a run that began with variables `v0` and the trace `t0`, and ended
/// with variables `v1` and the trace `t1`, owes to the outcome `o`.
pub open spec fn run_matches(o: Outcome, v0: VarsModel, v1: VarsModel, t0: Seq<ShellCall>, t1: Seq<ShellCall>, ok: bool, diffs: Seq<ContextDiff>) -> bool {
    &&& is_prefix(t0, t1)
    &&& t1.len() == o.next
    &&& ok == o.ok
    &&& diffs_view(diffs) == o.diffs
    &&& o.calls_match
    &&& v1 == v0 + o.diffs
}

proof fn lemma_prefix_trans(a: Seq<ShellCall>, b: Seq<ShellCall>, c: Seq<ShellCall>)
    requires
        is_prefix(a, b),
        is_prefix(b, c),
    ensures
        is_prefix(a, c),
{
    assert(c.subrange(0, a.len() as int) =~= b.subrange(0, a.len() as int));
}

proof fn lemma_diffs_view_concat(a: Seq<ContextDiff>, b: Seq<ContextDiff>)
    ensures
        diffs_view(a + b) == diffs_view(a) + diffs_view(b),
{
    assert(diffs_view(a + b) =~= diffs_view(a) + diffs_view(b));
}

fn copy_vars(vars: &Vec<(String, String)>) -> (r: Vec<(String, String)>)
    ensures
        r@ == vars@,
{
    let mut out: Vec<(String, String)> = Vec::new();
    let mut i: usize = 0;
    while i < vars.len()
        invariant
            i <= vars@.len(),
            out@ == vars@.subrange(0, i as int),
        decreases vars@.len() - i,
    {
        out.push((vars[i].0.clone(), vars[i].1.clone()));
        proof {
            assert(out@ =~= vars@.subrange(0, i + 1));
        }
        i = i + 1;
    }
    proof {
        assert(out@ =~= vars@);
    }
    out
}

fn copy_opt_string(s: &Option<String>) -> (r: Option<String>)
    ensures
        r == *s,
{
    match s {
        Some(x) => Some(x.clone()),
        None => None,
    }
}

/// The known node registered last under `name`.
fn find_known(known: &Vec<(String, Node)>, name: &String) -> (r: Option<usize>)
    ensures
        r is None <==> known_find(known@, name@) is None,
        r is Some ==> r->0 as int == known_find(known@, name@)->0 && r->0 < known@.len(),
{
    let mut i: usize = known.len();
    proof {
        assert(known@.subrange(0, i as int) =~= known@);
    }
    while i > 0
        invariant
            i <= known@.len(),
            known_find(known@, name@) == known_find(known@.subrange(0, i as int), name@),
        decreases i,
    {
        proof {
            assert(known@.subrange(0, i as int).drop_last() =~= known@.subrange(0, i - 1));
        }
        if known[i - 1].0 == *name {
            return Some(i - 1);
        }
        i = i - 1;
    }
    None
}

/// The settings that the values gathered so far stand for.
pub open spec fn settings_view(
    env: Seq<(String, String)>,
    cmd: Option<String>,
    cap_out: Option<String>,
    cap_err: Option<String>,
    display: Option<String>,
) -> SettingsM {
    SettingsM {
        env: vars_view(env),
        cmd: match cmd { Some(x) => Some(x@), None => None },
        cap_out: match cap_out { Some(x) => Some(x@), None => None },
        cap_err: match cap_err { Some(x) => Some(x@), None => None },
        display: match display { Some(x) => Some(x@), None => None },
    }
}

/// Appends the scalar entries of `m` to `env`.
fn push_scalars(env: &mut Vec<(String, String)>, m: &Vec<(String, Property)>)
    ensures
        vars_view(final(env)@) == vars_view(old(env)@) + scalar_pairs(entries_view(m@)),
{
    let mut j: usize = 0;
    proof {
        assert(vars_view(env@) =~= vars_view(old(env)@) + scalar_pairs(entries_view(m@.subrange(0, 0))));
    }
    while j < m.len()
        invariant
            j <= m@.len(),
            vars_view(env@) == vars_view(old(env)@) + scalar_pairs(entries_view(m@.subrange(0, j as int))),
        decreases m@.len() - j,
    {
        proof {
            lemma_entries_view_prefix(m@, j as int);
            let es = entries_view(m@.subrange(0, j as int));
            let e = (m@[j as int].0@, crate::model::prop_view(m@[j as int].1));
            assert(es.push(e).drop_last() =~= es);
        }
        let ghost prev = env@;
        match &m[j].1 {
            Property::Simple(s) => {
                env.push((m[j].0.clone(), s.clone()));
                proof {
                    assert(vars_view(env@) =~= vars_view(prev).push((m@[j as int].0@, s@)));
                }
            },
            Property::Mapping(_) => {},
        }
        j = j + 1;
    }
    proof {
        assert(m@.subrange(0, m@.len() as int) =~= m@);
    }
}

/// Runs a task node.
fn run_task<S: Shell>(
    node: &Node,
    vars: &mut Vec<(String, String)>,
    known: &Vec<(String, Node)>,
    rec: &mut Recorder<S>,
    fuel: usize,
) -> (r: (bool, Vec<ContextDiff>))
    requires
        node.ntype is NodeTypeTask,
    ensures
        run_matches(
            sem_node(node_view(*node), vars_view(old(vars)@), known@, final(rec).trace@, old(rec).trace@.len(), fuel as nat),
            vars_view(old(vars)@), vars_view(final(vars)@), old(rec).trace@, final(rec).trace@, r.0, r.1@,
        ),
    decreases fuel, node, 0nat,
{
    let ghost v0 = vars_view(vars@);
    let ghost t0 = rec.trace@;
    let props;
    {
        let gh = GCHolder { variables: vars };
        props = materialize_props(&node.properties, &gh);
        proof {
            assert((|k: Seq<char>| gh.lookup(k)) =~= vars_lookup(v0));
        }
    }
    let ghost es = entries_view(props@);
    let ghost name = node_view(*node).name;
    let mut env: Vec<(String, String)> = Vec::new();
    let mut cmd: Option<String> = None;
    let mut cap_out: Option<String> = None;
    let mut cap_err: Option<String> = None;
    let mut display: Option<String> = copy_opt_string(&node.name);
    let mut i: usize = 0;
    proof {
        assert(vars_view(env@) =~= Seq::empty());
        assert(props@.subrange(0, 0) =~= Seq::empty());
    }
    while i < props.len()
        invariant
            i <= props@.len(),
            name == node_view(*node).name,
            settings_view(env@, cmd, cap_out, cap_err, display) == settings(entries_view(props@.subrange(0, i as int)), name),
        decreases props@.len() - i,
    {
        let ghost before = settings(entries_view(props@.subrange(0, i as int)), name);
        let ghost e = (props@[i as int].0@, crate::model::prop_view(props@[i as int].1));
        proof {
            lemma_entries_view_prefix(props@, i as int);
            assert(entries_view(props@.subrange(0, i as int)).push(e).drop_last() =~= entries_view(props@.subrange(0, i as int)));
            reveal_strlit("run");
            reveal_strlit("task");
            reveal_strlit("env");
            reveal_strlit("capture_stdout");
            reveal_strlit("capture_stderr");
            reveal_strlit("display");
        }
        let key = props[i].0.as_str();
        let prop = &props[i].1;
        if str_eq(key, KWD_ENV) {
            if let Property::Mapping(m) = prop {
                push_scalars(&mut env, m);
            }
        } else if str_eq(key, KWD_TASK) || str_eq(key, KWD_TASK_ALIAS) {
            if let Property::Simple(s) = prop {
                if display.is_none() {
                    display = Some(s.clone());
                }
                cmd = Some(s.clone());
            }
        } else if str_eq(key, KWD_CAP_STDOUT) {
            if let Property::Simple(s) = prop {
                cap_out = Some(s.clone());
            }
        } else if str_eq(key, KWD_CAP_STDERR) {
            if let Property::Simple(s) = prop {
                cap_err = Some(s.clone());
            }
        } else if str_eq(key, KWD_DISPLAY) {
            if let Property::Simple(s) = prop {
                display = Some(s.clone());
            }
        }
        i = i + 1;
    }
    proof {
        assert(props@.subrange(0, props@.len() as int) =~= props@);
    }
    match cmd {
        None => {
            if let Some(d) = &display {
                rec.shell.report(d, true);
            }
            proof {
                assert(is_prefix(t0, rec.trace@)) by {
                    assert(rec.trace@.subrange(0, t0.len() as int) =~= t0);
                }
                assert(vars_view(vars@) =~= v0 + Seq::empty());
                assert(diffs_view(Seq::<ContextDiff>::empty()) =~= Seq::empty());
            }
            (true, Vec::new())
        },
        Some(c) => {
            let ws = split_words(c.as_str());
            if ws.len() > 0 {
                let found = find_known(known, &ws[0]);
                if let Some(idx) = found {
                    proof {
                        assert(strings_view(ws@)[0] == ws@[0]@);
                    }
                    if fuel == 0 {
                        proof {
                            assert(rec.trace@.subrange(0, t0.len() as int) =~= t0);
                            assert(vars_view(vars@) =~= v0 + Seq::empty());
                            assert(diffs_view(Seq::<ContextDiff>::empty()) =~= Seq::empty());
                        }
                        return (false, Vec::new());
                    }
                    let ghost wsv = strings_view(ws@);
                    let mut f;
                    {
                        let nc = NodeContext { gc_holder: GCHolder { variables: vars }, cmd_list: ws };
                        f = fill_node(&known[idx].1, &nc);
                        proof {
                            assert((|k: Seq<char>| nc.lookup(k)) =~= invocation_lookup(words(c@), v0));
                        }
                    }
                    let ghost fv = node_view(f);
                    let entry = (String::from_str(KWD_DISPLAY), Property::Simple(c.clone()));
                    let ghost old_props = f.properties@;
                    f.properties.push(entry);
                    proof {
                        reveal_strlit("display");
                        lemma_entries_view_push(old_props, entry);
                        assert(node_view(f) == expansion(node_view(known@[idx as int].1), c@, v0));
                    }
                    return run_in(&f, vars, known, rec, fuel - 1);
                }
            }
            let out = rec.exec(&c, &env);
            let ok = out.0 == 0;
            let diffs = capture_output(&cap_err, &cap_out, &out.1, &out.2);
            apply_diffs_to(vars, &diffs);
            if let Some(d) = &display {
                rec.shell.report(d, ok);
            }
            proof {
                assert(rec.trace@.subrange(0, t0.len() as int) =~= t0);
            }
            (ok, diffs)
        },
    }
}

/// Runs `node` on `vars`, applying the diffs of its tasks as they come, and
/// returns its success and all the diffs in order.
fn run_in<S: Shell>(
    node: &Node,
    vars: &mut Vec<(String, String)>,
    known: &Vec<(String, Node)>,
    rec: &mut Recorder<S>,
    fuel: usize,
) -> (r: (bool, Vec<ContextDiff>))
    ensures
        run_matches(
            sem_node(node_view(*node), vars_view(old(vars)@), known@, final(rec).trace@, old(rec).trace@.len(), fuel as nat),
            vars_view(old(vars)@), vars_view(final(vars)@), old(rec).trace@, final(rec).trace@, r.0, r.1@,
        ),
    decreases fuel, node, 1nat,
{
    match &node.ntype {
        NodeType::NodeTypeTask => run_task(node, vars, known, rec, fuel),
        NodeType::NodeTypeSeries(cs) => {
            proof {
                assert(decreases_to!(*node => node.ntype));
                assert(decreases_to!(node.ntype => node.ntype->NodeTypeSeries_0));
            }
            run_series(cs, 0, vars, known, rec, fuel)
        },
        NodeType::NodeTypeParallel(cs) => {
            proof {
                assert(decreases_to!(*node => node.ntype));
                assert(decreases_to!(node.ntype => node.ntype->NodeTypeParallel_0));
            }
            let snap = copy_vars(vars);
            let r = run_parallel(cs, 0, &snap, known, rec, fuel);
            apply_diffs_to(vars, &r.1);
            r
        },
    }
}

fn run_series<S: Shell>(
    cs: &Vec<Node>,
    i: usize,
    vars: &mut Vec<(String, String)>,
    known: &Vec<(String, Node)>,
    rec: &mut Recorder<S>,
    fuel: usize,
) -> (r: (bool, Vec<ContextDiff>))
    requires
        i <= cs@.len(),
    ensures
        run_matches(
            sem_series(children_view(cs@), i as int, vars_view(old(vars)@), known@, final(rec).trace@, old(rec).trace@.len(), fuel as nat),
            vars_view(old(vars)@), vars_view(final(vars)@), old(rec).trace@, final(rec).trace@, r.0, r.1@,
        ),
    decreases fuel, cs, cs@.len() - i,
{
    let ghost v0 = vars_view(vars@);
    let ghost t0 = rec.trace@;
    let ghost csm = children_view(cs@);
    proof {
        lemma_children_view_len(cs@);
    }
    if i >= cs.len() {
        proof {
            assert(rec.trace@.subrange(0, t0.len() as int) =~= t0);
            assert(vars_view(vars@) =~= v0 + Seq::empty());
            assert(diffs_view(Seq::<ContextDiff>::empty()) =~= Seq::empty());
        }
        return (true, Vec::new());
    }
    proof {
        lemma_children_view_index(cs@, i as int);
        assert(decreases_to!(cs => cs[i as int]));
    }
    let (ok0, mut d0) = run_in(&cs[i], vars, known, rec, fuel);
    let ghost t1 = rec.trace@;
    let ghost v1 = vars_view(vars@);
    if !ok0 && !cs[i].continue_on_fail {
        return (ok0, d0);
    }
    let (ok1, mut d1) = run_series(cs, i + 1, vars, known, rec, fuel);
    proof {
        let o = sem_node(csm[i as int], v0, known@, t1, t0.len(), fuel as nat);
        lemma_node_stable(csm[i as int], v0, known@, t1, rec.trace@, t0.len(), fuel as nat);
        lemma_prefix_trans(t0, t1, rec.trace@);
        lemma_diffs_view_concat(d0@, d1@);
        assert(vars_view(vars@) =~= v0 + (o.diffs + sem_series(csm, i + 1, v1, known@, rec.trace@, t1.len(), fuel as nat).diffs));
    }
    d0.append(&mut d1);
    (ok0 && ok1, d0)
}

fn run_parallel<S: Shell>(
    cs: &Vec<Node>,
    i: usize,
    snap: &Vec<(String, String)>,
    known: &Vec<(String, Node)>,
    rec: &mut Recorder<S>,
    fuel: usize,
) -> (r: (bool, Vec<ContextDiff>))
    requires
        i <= cs@.len(),
    ensures
        ({
            let o = sem_parallel(children_view(cs@), i as int, vars_view(snap@), known@, final(rec).trace@, old(rec).trace@.len(), fuel as nat);
            &&& is_prefix(old(rec).trace@, final(rec).trace@)
            &&& final(rec).trace@.len() == o.next
            &&& r.0 == o.ok
            &&& diffs_view(r.1@) == o.diffs
            &&& o.calls_match
        }),
    decreases fuel, cs, cs@.len() - i,
{
    let ghost t0 = rec.trace@;
    let ghost csm = children_view(cs@);
    proof {
        lemma_children_view_len(cs@);
    }
    if i >= cs.len() {
        proof {
            assert(rec.trace@.subrange(0, t0.len() as int) =~= t0);
            assert(diffs_view(Seq::<ContextDiff>::empty()) =~= Seq::empty());
        }
        return (true, Vec::new());
    }
    proof {
        lemma_children_view_index(cs@, i as int);
        assert(decreases_to!(cs => cs[i as int]));
    }
    let mut local = copy_vars(snap);
    let (ok0, mut d0) = run_in(&cs[i], &mut local, known, rec, fuel);
    let ghost t1 = rec.trace@;
    let (ok1, mut d1) = run_parallel(cs, i + 1, snap, known, rec, fuel);
    proof {
        lemma_node_stable(csm[i as int], vars_view(snap@), known@, t1, rec.trace@, t0.len(), fuel as nat);
        lemma_prefix_trans(t0, t1, rec.trace@);
        lemma_diffs_view_concat(d0@, d1@);
    }
    d0.append(&mut d1);
    ((ok0 || cs[i].continue_on_fail) && ok1, d0)
}

/// Runs `node` with the variables and known nodes of `global_context`,
/// applying the diffs of its tasks to the variables as they come. Returns its
/// success and the diffs it produced in order, `None` if there were none.
pub fn run_node_helper<S: Shell>(
    node: &Node,
    global_context: &mut GlobalContext,
    shell: &mut Recorder<S>,
) -> (r: (bool, Option<Vec<ContextDiff>>))
    ensures
        ({
            let o = sem_node(
                node_view(*node),
                vars_view(old(global_context).variables@),
                old(global_context).known_nodes@,
                final(shell).trace@,
                old(shell).trace@.len(),
                MAX_EXPANSION_DEPTH as nat,
            );
            &&& is_prefix(old(shell).trace@, final(shell).trace@)
            &&& final(shell).trace@.len() == o.next
            &&& r.0 == o.ok
            &&& o.calls_match
            &&& match r.1 {
                None => o.diffs.len() == 0,
                Some(d) => d@.len() > 0 && diffs_view(d@) == o.diffs,
            }
            &&& vars_view(final(global_context).variables@) == vars_view(old(global_context).variables@) + o.diffs
            &&& final(global_context).known_nodes == old(global_context).known_nodes
        }),
{
    let r = run_in(node, &mut global_context.variables, &global_context.known_nodes, shell, MAX_EXPANSION_DEPTH);
    if r.1.len() > 0 {
        (r.0, Some(r.1))
    } else {
        (r.0, None)
    }
}

/// The task that runs its node's command through a shell.
pub struct ShellTask {}

impl ShellTask {
    /// Runs `node_task` against the variables and known nodes of
    /// `global_context` without changing them, and returns its success and
    /// the diffs it produced in order, `None` if there were none.
    pub fn run<S: Shell>(
        &self,
        node_task: &Node,
        global_context: &GlobalContext,
        shell: &mut Recorder<S>,
    ) -> (r: (bool, Option<Vec<ContextDiff>>))
        ensures
            ({
                let o = sem_node(
                    node_view(*node_task),
                    vars_view(global_context.variables@),
                    global_context.known_nodes@,
                    final(shell).trace@,
                    old(shell).trace@.len(),
                    MAX_EXPANSION_DEPTH as nat,
                );
                &&& is_prefix(old(shell).trace@, final(shell).trace@)
                &&& final(shell).trace@.len() == o.next
                &&& r.0 == o.ok
                &&& o.calls_match
                &&& match r.1 {
                    None => o.diffs.len() == 0,
                    Some(d) => d@.len() > 0 && diffs_view(d@) == o.diffs,
                }
            }),
    {
        let mut vars = copy_vars(&global_context.variables);
        let r = run_in(node_task, &mut vars, &global_context.known_nodes, shell, MAX_EXPANSION_DEPTH);
        if r.1.len() > 0 {
            (r.0, Some(r.1))
        } else {
            (r.0, None)
        }
    }
}

} // verus!
