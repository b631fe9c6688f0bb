use shell_pipeline::context::{ContextDiff, GCHolder, GlobalContext, NodeContext};
use shell_pipeline::doc::{
    find_entry, get_node_type, get_yaml_key_as_string, ingest_property, int_to_string, load_pipeline,
    make_node, register_known_nodes, Doc, Keywords, ParserNodeType,
};
use shell_pipeline::engine::{run_node_helper, Recorder, Shell, ShellTask};
use shell_pipeline::node::{fill_all_node_properties, Node, NodeType};
use shell_pipeline::property::{replace_property_with_context, Property};
use shell_pipeline::subst::{replace_all_from, Context};
use shell_pipeline::task::{capture_diffs, capture_output, split_words, str_eq};

/// A shell that knows `echo` and `false`, and records what it was asked.
struct ScriptShell {
    calls: Vec<(String, Vec<(String, String)>)>,
    outputs: Vec<String>,
    reports: Vec<(String, bool)>,
}

impl ScriptShell {
    fn new() -> ScriptShell {
        ScriptShell { calls: vec![], outputs: vec![], reports: vec![] }
    }
}

impl Shell for ScriptShell {
    fn exec(&mut self, cmd: &String, env: &Vec<(String, String)>) -> (i32, String, String) {
        self.calls.push((cmd.clone(), env.clone()));
        let r = if cmd == "false" {
            (1, String::new(), String::new())
        } else if let Some(rest) = cmd.strip_prefix("echo ") {
            (0, format!("{}\n", rest), String::new())
        } else if cmd == "warn" {
            (2, String::new(), "  bad thing \n".to_string())
        } else {
            (127, String::new(), format!("{}: not found\n", cmd))
        };
        self.outputs.push(r.1.clone());
        r
    }

    fn report(&mut self, display: &String, success: bool) {
        self.reports.push((display.clone(), success));
    }
}

fn s(x: &str) -> Doc {
    Doc::Str(x.to_string())
}

fn hash(entries: Vec<(&str, Doc)>) -> Doc {
    Doc::Hash(entries.into_iter().map(|(k, v)| (s(k), v)).collect())
}

fn load(d: &Doc) -> (Node, GlobalContext) {
    let kw = Keywords::new();
    let mut gc = GlobalContext::new();
    let root = load_pipeline(d, &kw, &mut gc).expect("root pipeline");
    (root, gc)
}

fn run(d: &Doc) -> (bool, Option<Vec<ContextDiff>>, GlobalContext, ScriptShell) {
    let (root, mut gc) = load(d);
    let mut rec = Recorder::new(ScriptShell::new());
    let (ok, diffs) = run_node_helper(&root, &mut gc, &mut rec);
    (ok, diffs, gc, rec.shell)
}

fn var(gc: &GlobalContext, k: &str) -> Option<String> {
    gc.get_variable(k)
}

fn cmds(sh: &ScriptShell) -> Vec<String> {
    sh.calls.iter().map(|c| c.0.clone()).collect()
}

// ---- scenarios ----

#[test]
fn echo_hi_succeeds_without_diffs() {
    let d = hash(vec![("run", s("echo hi"))]);
    let (ok, diffs, _gc, sh) = run(&d);
    assert!(ok);
    assert!(diffs.is_none());
    assert_eq!(cmds(&sh), vec!["echo hi".to_string()]);
    assert_eq!(sh.outputs, vec!["hi\n".to_string()]);
    assert_eq!(sh.reports, vec![("echo hi".to_string(), true)]);
}

#[test]
fn series_stops_at_failure() {
    let d = hash(vec![("series", Doc::Array(vec![hash(vec![("run", s("false"))]), hash(vec![("run", s("echo skipped"))])]))]);
    let (ok, _diffs, _gc, sh) = run(&d);
    assert!(!ok);
    assert_eq!(cmds(&sh), vec!["false".to_string()]);
}

#[test]
fn series_continues_past_allowed_failure() {
    let d = hash(vec![(
        "series",
        Doc::Array(vec![
            hash(vec![("run", s("false")), ("continue_on_fail", Doc::Boolean(true))]),
            hash(vec![("run", s("echo ok"))]),
        ]),
    )]);
    let (ok, _diffs, _gc, sh) = run(&d);
    assert!(!ok);
    assert_eq!(cmds(&sh), vec!["false".to_string(), "echo ok".to_string()]);
    assert_eq!(sh.outputs[1], "ok\n");
}

#[test]
fn capture_stdout_is_trimmed_into_variable() {
    let d = hash(vec![("run", s("echo out")), ("capture_stdout", s("X"))]);
    let (ok, diffs, gc, _sh) = run(&d);
    assert!(ok);
    assert_eq!(var(&gc, "X"), Some("out".to_string()));
    let diffs = diffs.expect("one diff");
    assert_eq!(diffs.len(), 1);
    match &diffs[0] {
        ContextDiff::CDSet(k, v) => {
            assert_eq!(k, "X");
            assert_eq!(v, "out");
        }
    }
}

#[test]
fn known_node_greet_expands() {
    let d = hash(vec![
        ("run", s("greet world")),
        ("greet", hash(vec![("run", s("echo hello ${1}"))])),
    ]);
    let (ok, _diffs, _gc, sh) = run(&d);
    assert!(ok);
    assert_eq!(cmds(&sh), vec!["echo hello world".to_string()]);
    assert_eq!(sh.outputs, vec!["hello world\n".to_string()]);
    // the expanded task is shown as the invocation
    assert_eq!(sh.reports, vec![("greet world".to_string(), true)]);
}

#[test]
fn parallel_later_child_wins() {
    let d = hash(vec![(
        "parallel",
        Doc::Array(vec![
            hash(vec![("run", s("echo 1")), ("capture_stdout", s("R"))]),
            hash(vec![("run", s("echo 2")), ("capture_stdout", s("R"))]),
        ]),
    )]);
    let (ok, _diffs, gc, _sh) = run(&d);
    assert!(ok);
    assert_eq!(var(&gc, "R"), Some("2".to_string()));
}

// ---- laws on concrete values ----

#[test]
fn rerun_with_reset_context_is_identical() {
    let d = hash(vec![(
        "series",
        Doc::Array(vec![
            hash(vec![("run", s("echo a")), ("capture_stdout", s("A"))]),
            hash(vec![("run", s("echo ${A}b")), ("capture_stdout", s("B"))]),
        ]),
    )]);
    let (ok1, _d1, gc1, sh1) = run(&d);
    let (ok2, _d2, gc2, sh2) = run(&d);
    assert_eq!(ok1, ok2);
    assert_eq!(gc1.variables, gc2.variables);
    assert_eq!(cmds(&sh1), cmds(&sh2));
}

#[test]
fn series_child_sees_earlier_diffs() {
    let d = hash(vec![(
        "series",
        Doc::Array(vec![
            hash(vec![("run", s("echo one")), ("capture_stdout", s("A"))]),
            hash(vec![("run", s("echo got ${A}")), ("capture_stdout", s("B"))]),
            hash(vec![("run", s("echo ${A} ${B}"))]),
        ]),
    )]);
    let (ok, _diffs, gc, sh) = run(&d);
    assert!(ok);
    assert_eq!(
        cmds(&sh),
        vec!["echo one".to_string(), "echo got one".to_string(), "echo one got one".to_string()]
    );
    assert_eq!(var(&gc, "B"), Some("got one".to_string()));
}

#[test]
fn parallel_children_see_entry_context() {
    let mut gc0 = GlobalContext::new();
    gc0.set_variable("A".to_string(), "zero".to_string());
    let d = hash(vec![(
        "parallel",
        Doc::Array(vec![
            hash(vec![("run", s("echo one")), ("capture_stdout", s("A"))]),
            hash(vec![("run", s("echo ${A}")), ("capture_stdout", s("B"))]),
        ]),
    )]);
    let kw = Keywords::new();
    let root = load_pipeline(&d, &kw, &mut gc0).unwrap();
    let mut rec = Recorder::new(ScriptShell::new());
    let (ok, diffs) = run_node_helper(&root, &mut gc0, &mut rec);
    assert!(ok);
    assert_eq!(cmds(&rec.shell), vec!["echo one".to_string(), "echo zero".to_string()]);
    assert_eq!(var(&gc0, "A"), Some("one".to_string()));
    assert_eq!(var(&gc0, "B"), Some("zero".to_string()));
    assert_eq!(diffs.unwrap().len(), 2);
}

#[test]
fn parallel_allowed_failure_does_not_fail() {
    let d = hash(vec![(
        "parallel",
        Doc::Array(vec![
            hash(vec![("run", s("false")), ("continue_on_fail", s("true"))]),
            hash(vec![("run", s("echo 2"))]),
        ]),
    )]);
    let (ok, _diffs, _gc, sh) = run(&d);
    assert!(ok);
    assert_eq!(sh.calls.len(), 2);
}

#[test]
fn materialization_keeps_plain_strings() {
    let gc = GlobalContext::new();
    let view = GCHolder { variables: &gc.variables };
    let once = replace_all_from("plain text, $ and { }", &view);
    assert_eq!(once, "plain text, $ and { }");
    let twice = replace_all_from(&once, &view);
    assert_eq!(twice, once);
}

#[test]
fn known_node_positions_are_words() {
    let d = hash(vec![
        ("run", s("foo a b")),
        ("foo", hash(vec![("run", s("echo ${0} ${1} ${2} ${3}"))])),
    ]);
    let (ok, _diffs, _gc, sh) = run(&d);
    assert!(ok);
    assert_eq!(cmds(&sh), vec!["echo foo a b ?".to_string()]);
}

// ---- substitution ----

#[test]
fn unresolved_placeholder_becomes_question_mark() {
    let mut gc = GlobalContext::new();
    gc.set_variable("x".to_string(), "1".to_string());
    let view = GCHolder { variables: &gc.variables };
    assert_eq!(replace_all_from("${x}-${y}", &view), "1-?");
    assert_eq!(replace_all_from("${x", &view), "${x");
    assert_eq!(replace_all_from("$x}", &view), "$x}");
    assert_eq!(replace_all_from("", &view), "");
}

#[test]
fn substitution_is_single_pass() {
    let mut gc = GlobalContext::new();
    gc.set_variable("a".to_string(), "${b}".to_string());
    gc.set_variable("b".to_string(), "no".to_string());
    let view = GCHolder { variables: &gc.variables };
    assert_eq!(replace_all_from("<${a}>", &view), "<${b}>");
}

#[test]
fn node_context_prefers_positions() {
    let mut gc = GlobalContext::new();
    gc.set_variable("1".to_string(), "global".to_string());
    gc.set_variable("name".to_string(), "n".to_string());
    let nc = NodeContext {
        gc_holder: GCHolder { variables: &gc.variables },
        cmd_list: vec!["cmd".to_string(), "arg".to_string()],
    };
    assert_eq!(nc.get_value_from_key("1"), Some("arg".to_string()));
    assert_eq!(nc.get_value_from_key("01"), Some("arg".to_string()));
    assert_eq!(nc.get_value_from_key("0"), Some("cmd".to_string()));
    assert_eq!(nc.get_value_from_key("2"), None);
    assert_eq!(nc.get_value_from_key("name"), Some("n".to_string()));
    assert_eq!(nc.get_value_from_key("99999999999999999999999"), None);
}

#[test]
fn property_replacement_recurses_into_maps() {
    let mut gc = GlobalContext::new();
    gc.set_variable("v".to_string(), "V".to_string());
    let view = GCHolder { variables: &gc.variables };
    let p = Property::Mapping(vec![
        ("a".to_string(), Property::Simple("x${v}".to_string())),
        ("b".to_string(), Property::Mapping(vec![("c".to_string(), Property::Simple("${v}${w}".to_string()))])),
    ]);
    let q = replace_property_with_context(&p, &view);
    match q {
        Property::Mapping(m) => {
            assert_eq!(m[0].0, "a");
            assert!(matches!(&m[0].1, Property::Simple(x) if x == "xV"));
            match &m[1].1 {
                Property::Mapping(inner) => {
                    assert!(matches!(&inner[0].1, Property::Simple(x) if x == "V?"));
                }
                _ => panic!("expected a map"),
            }
        }
        _ => panic!("expected a map"),
    }
    // the input property is left as it was
    match &p {
        Property::Mapping(m) => assert!(matches!(&m[0].1, Property::Simple(x) if x == "x${v}")),
        _ => panic!("expected a map"),
    }
}

#[test]
fn fill_all_node_properties_reaches_children() {
    let mut gc = GlobalContext::new();
    gc.set_variable("v".to_string(), "V".to_string());
    let view = GCHolder { variables: &gc.variables };
    let child = Node {
        name: None,
        ntype: NodeType::NodeTypeTask,
        properties: vec![("run".to_string(), Property::Simple("echo ${v}".to_string()))],
        continue_on_fail: false,
    };
    let mut root = Node { name: None, ntype: NodeType::NodeTypeSeries(vec![child]), properties: vec![], continue_on_fail: false };
    fill_all_node_properties(&mut root, &view);
    match &root.ntype {
        NodeType::NodeTypeSeries(cs) => {
            assert!(matches!(&cs[0].properties[0].1, Property::Simple(x) if x == "echo V"));
        }
        _ => panic!("expected a series"),
    }
}

// ---- context ----

#[test]
fn diffs_apply_last_writer_wins() {
    let mut gc = GlobalContext::new();
    gc.apply_diffs(&vec![
        ContextDiff::CDSet("k".to_string(), "1".to_string()),
        ContextDiff::CDSet("j".to_string(), "x".to_string()),
        ContextDiff::CDSet("k".to_string(), "2".to_string()),
    ]);
    assert_eq!(gc.get_variable("k"), Some("2".to_string()));
    assert_eq!(gc.get_variable("j"), Some("x".to_string()));
    assert_eq!(gc.get_variable("z"), None);
}

// ---- task pieces ----

#[test]
fn words_split_on_whitespace() {
    assert_eq!(split_words("  foo\ta  b\n"), vec!["foo".to_string(), "a".to_string(), "b".to_string()]);
    assert_eq!(split_words(""), Vec::<String>::new());
    assert_eq!(split_words("   "), Vec::<String>::new());
}

#[test]
fn captures_come_stderr_first_and_trimmed() {
    let d = capture_output(&Some("E".to_string()), &Some("O".to_string()), &"  out \n".to_string(), &"\terr\n".to_string());
    assert_eq!(d.len(), 2);
    assert!(matches!(&d[0], ContextDiff::CDSet(k, v) if k == "E" && v == "err"));
    assert!(matches!(&d[1], ContextDiff::CDSet(k, v) if k == "O" && v == "out"));
    let none = capture_diffs(&None, &None, &"o".to_string(), &"e".to_string());
    assert!(none.is_empty());
}

#[test]
fn failed_task_still_captures_stderr() {
    let d = hash(vec![("run", s("warn")), ("capture_stderr", s("E"))]);
    let (ok, diffs, gc, _sh) = run(&d);
    assert!(!ok);
    assert!(diffs.is_some());
    assert_eq!(var(&gc, "E"), Some("bad thing".to_string()));
}

#[test]
fn env_overlay_and_display() {
    let d = hash(vec![
        ("name", s("build")),
        ("env", hash(vec![("A", s("1")), ("B", Doc::Integer(-42)), ("C", hash(vec![]))])),
        ("run", s("echo x")),
        ("display", s("shown")),
    ]);
    let (ok, _diffs, _gc, sh) = run(&d);
    assert!(ok);
    assert_eq!(sh.calls[0].1, vec![("A".to_string(), "1".to_string()), ("B".to_string(), "-42".to_string())]);
    assert_eq!(sh.reports, vec![("shown".to_string(), true)]);
}

#[test]
fn task_alias_is_a_command() {
    let d = hash(vec![("task", s("echo via alias"))]);
    let (ok, _diffs, _gc, sh) = run(&d);
    assert!(ok);
    assert_eq!(cmds(&sh), vec!["echo via alias".to_string()]);
}

#[test]
fn self_invoking_known_node_fails() {
    let d = hash(vec![("run", s("loop")), ("loop", hash(vec![("run", s("loop again"))]))]);
    let (ok, _diffs, _gc, sh) = run(&d);
    assert!(!ok);
    assert!(sh.calls.is_empty());
}

#[test]
fn shell_task_run_leaves_context() {
    let d = hash(vec![("run", s("echo out")), ("capture_stdout", s("X"))]);
    let (root, gc) = load(&d);
    let mut rec = Recorder::new(ScriptShell::new());
    let (ok, diffs) = ShellTask {}.run(&root, &gc, &mut rec);
    assert!(ok);
    assert_eq!(diffs.unwrap().len(), 1);
    assert_eq!(gc.get_variable("X"), None);
}

// ---- document adapter ----

#[test]
fn classification_precedence() {
    let kw = Keywords::new();
    let both = hash(vec![("parallel", Doc::Array(vec![])), ("series", Doc::Array(vec![])), ("run", s("x"))]);
    assert!(matches!(get_node_type(&both, &kw), ParserNodeType::ParserNodeTypeSeries));
    let par = hash(vec![("run", s("x")), ("parallel", Doc::Array(vec![]))]);
    assert!(matches!(get_node_type(&par, &kw), ParserNodeType::ParserNodeTypeParallel));
    assert!(matches!(get_node_type(&s("echo"), &kw), ParserNodeType::ParserNodeTypeTask));
    assert!(matches!(get_node_type(&hash(vec![("x", s("y"))]), &kw), ParserNodeType::ParserNodeTypeKnown));
    assert!(matches!(get_node_type(&Doc::Integer(3), &kw), ParserNodeType::ParserNodeTypeKnown));
}

#[test]
fn bare_string_builds_run_task() {
    let kw = Keywords::new();
    let n = make_node(&s("echo hi"), &kw).unwrap();
    assert!(matches!(n.ntype, NodeType::NodeTypeTask));
    assert_eq!(n.properties.len(), 1);
    assert_eq!(n.properties[0].0, "run");
    assert!(matches!(&n.properties[0].1, Property::Simple(x) if x == "echo hi"));
}

#[test]
fn composite_needs_a_sequence() {
    let kw = Keywords::new();
    let n = make_node(&hash(vec![("series", s("oops")), ("name", s("top"))]), &kw).unwrap();
    assert_eq!(n.name, Some("top".to_string()));
    match n.ntype {
        NodeType::NodeTypeSeries(cs) => assert!(cs.is_empty()),
        _ => panic!("expected a series"),
    }
    let m = make_node(&hash(vec![("parallel", Doc::Array(vec![s("a"), Doc::Integer(1), hash(vec![("q", s("r"))])]))]), &kw).unwrap();
    match m.ntype {
        NodeType::NodeTypeParallel(cs) => assert_eq!(cs.len(), 1),
        _ => panic!("expected a parallel"),
    }
    assert!(make_node(&hash(vec![("q", s("r"))]), &kw).is_none());
}

#[test]
fn scalars_render_as_text() {
    assert_eq!(get_yaml_key_as_string(&Doc::Integer(0)), "0");
    assert_eq!(get_yaml_key_as_string(&Doc::Integer(1234)), "1234");
    assert_eq!(get_yaml_key_as_string(&Doc::Integer(i64::MIN)), "-9223372036854775808");
    assert_eq!(get_yaml_key_as_string(&Doc::Real("1.50".to_string())), "1.50");
    assert_eq!(get_yaml_key_as_string(&Doc::Boolean(true)), "true");
    assert_eq!(get_yaml_key_as_string(&Doc::Boolean(false)), "false");
    assert_eq!(get_yaml_key_as_string(&Doc::Null), "null");
    assert_eq!(get_yaml_key_as_string(&Doc::Array(vec![])), "");
    assert_eq!(int_to_string(-7), "-7");
    assert!(matches!(ingest_property(&Doc::Array(vec![s("a")])), Property::Simple(x) if x.is_empty()));
}

#[test]
fn known_nodes_registered_from_root() {
    let kw = Keywords::new();
    let d = hash(vec![
        ("series", Doc::Array(vec![s("echo a")])),
        ("build", hash(vec![("run", s("make"))])),
        ("settings", hash(vec![("level", Doc::Integer(3))])),
        ("lint", s("cargo fmt")),
    ]);
    let mut gc = GlobalContext::new();
    register_known_nodes(&d, &kw, &mut gc);
    let names: Vec<String> = gc.known_nodes.iter().map(|e| e.0.clone()).collect();
    assert_eq!(names, vec!["build".to_string(), "lint".to_string()]);
    let h = match &d {
        Doc::Hash(h) => h,
        _ => unreachable!(),
    };
    assert_eq!(find_entry(h, "build"), Some(1));
    assert_eq!(find_entry(h, "nope"), None);
    assert!(str_eq("abc", "abc"));
    assert!(!str_eq("abc", "abd"));
}
