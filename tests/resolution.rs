use gitlab_ci_config::paths::{file_name_part, join_path, parent_dir, strip_leading_separator};
use gitlab_ci_config::{parse, GitlabCIConfig, Node, ParseError, Variables};
use std::rc::Rc;

fn s(x: &str) -> Node {
    Node::Str(x.to_string())
}

fn list(items: Vec<Node>) -> Node {
    Node::Sequence(items)
}

fn map(entries: Vec<(&str, Node)>) -> Node {
    Node::Mapping(entries.into_iter().map(|(k, v)| (s(k), v)).collect())
}

/// The top-level key that lists the files a document is layered on.
fn import_key() -> String {
    ['i', 'n', 'c', 'l', 'u', 'd', 'e'].iter().collect()
}

/// A document that imports `imports` and defines `entries`.
fn layered(imports: Node, entries: Vec<(&str, Node)>) -> Node {
    let mut all = vec![(Node::Str(import_key()), imports)];
    all.extend(entries.into_iter().map(|(k, v)| (s(k), v)));
    Node::Mapping(all)
}

fn files(docs: Vec<(&str, Node)>) -> Vec<(String, Node)> {
    docs.into_iter().map(|(p, d)| (p.to_string(), d)).collect()
}

fn var(c: &GitlabCIConfig, name: &str) -> Option<String> {
    c.get_merged_variables().get(name).cloned()
}

fn job_var(c: &GitlabCIConfig, job: &str, name: &str) -> Option<String> {
    let j = c.lookup_job(job).expect("job should exist");
    let v = j.get_merged_variables().get(name).cloned();
    v
}

fn parse_ok(docs: &Vec<(String, Node)>, path: &str) -> GitlabCIConfig {
    match parse(docs, path) {
        Ok(c) => c,
        Err(ParseError::NotFound) => panic!("root document missing"),
    }
}

fn simple_example() -> Node {
    map(vec![
        ("variables", map(vec![("GLOBAL_VAR", s("this GLOBAL_VAR should mostly always be set."))])),
        ("stages", list(vec![s("build")])),
        (".inherited", map(vec![("variables", map(vec![("AN_INHERITED_VARIABLE", s("yes"))]))])),
        (
            "tired_starlings",
            map(vec![
                ("stage", s("build")),
                ("extends", s(".inherited")),
                ("script", list(vec![s("echo $AN_INHERITED_VARIABLE")])),
            ]),
        ),
    ])
}

#[test]
fn parse_example() {
    let docs = files(vec![("examples/simple/.gitlab-ci.yml", simple_example())]);
    let config = parse_ok(&docs, "examples/simple/.gitlab-ci.yml");
    assert_eq!(
        config.variables.get("GLOBAL_VAR").unwrap(),
        "this GLOBAL_VAR should mostly always be set."
    );
    assert_eq!(config.stages.len(), 1);
    let job = config.jobs.get("tired_starlings").unwrap();
    let parent = job.extends_jobs[0].as_ref();
    assert!(parent.variables.as_ref().unwrap().contains_key("AN_INHERITED_VARIABLE"));
}

#[test]
fn parse_include() {
    let docs = files(vec![
        (
            ".gitlab-ci.yml",
            layered(s("examples/simple/.gitlab-ci.yml"), vec![("lint", map(vec![("script", s("true"))]))]),
        ),
        ("examples/simple/.gitlab-ci.yml", simple_example()),
    ]);
    let config = parse_ok(&docs, ".gitlab-ci.yml");
    assert!(config.parent.is_some());
    let globals = config.get_merged_variables();
    assert!(globals.contains_key("GLOBAL_VAR"));
}

#[test]
fn consolidated_global_vars() {
    let docs = files(vec![("examples/simple/.gitlab-ci.yml", simple_example())]);
    let config = parse_ok(&docs, "examples/simple/.gitlab-ci.yml");
    let vars = config.get_merged_variables();
    assert!(vars.contains_key("GLOBAL_VAR"));
}

#[test]
fn imports() {
    let docs = files(vec![
        (
            "examples/imports/a.yml",
            layered(
                list(vec![s("b.yml"), map(vec![("local", s("c.yml"))])]),
                vec![("variables", map(vec![("A", s("a"))]))],
            ),
        ),
        (
            "examples/imports/b.yml",
            layered(s("/d.yml"), vec![("variables", map(vec![("B", s("b"))]))]),
        ),
        ("examples/imports/c.yml", map(vec![("variables", map(vec![("C", s("c"))]))])),
        (
            "examples/imports/d.yml",
            layered(
                map(vec![("project", s("group/e")), ("file", s("e.yml"))]),
                vec![("variables", map(vec![("D", s("d"))]))],
            ),
        ),
        ("examples/imports/../e/e.yml", map(vec![("variables", map(vec![("E", s("e"))]))])),
    ]);
    let config = parse_ok(&docs, "examples/imports/a.yml");
    let vars = config.get_merged_variables();
    let mut chain = Vec::new();
    let mut parent = &config.parent;
    while let Some(p) = parent {
        chain.push(p.file.clone());
        parent = &p.parent;
    }
    assert_eq!(
        chain,
        vec![
            "examples/imports/c.yml".to_string(),
            "examples/imports/b.yml".to_string(),
            "examples/imports/d.yml".to_string(),
            "examples/imports/../e/e.yml".to_string(),
        ]
    );
    assert!(vars.contains_key("A"));
    assert!(vars.contains_key("B"));
    assert!(vars.contains_key("C"));
    assert!(vars.contains_key("D"));
    assert!(vars.contains_key("E"));
}

fn base_doc() -> Node {
    map(vec![
        ("variables", map(vec![("A", s("1"))])),
        ("build", map(vec![("variables", map(vec![("A", s("2"))])), ("script", s("make"))])),
    ])
}

#[test]
fn base_file_alone() {
    let docs = files(vec![("base.yml", base_doc())]);
    let c = parse_ok(&docs, "base.yml");
    assert_eq!(job_var(&c, "build", "A"), Some("2".to_string()));
    assert_eq!(var(&c, "A"), Some("1".to_string()));
    assert!(c.parent.is_none());
}

#[test]
fn child_extends_job_of_included_file() {
    let docs = files(vec![
        ("base.yml", base_doc()),
        ("child.yml", layered(s("base.yml"), vec![("test", map(vec![("extends", s("build"))]))])),
    ]);
    let c = parse_ok(&docs, "child.yml");
    assert_eq!(job_var(&c, "test", "A"), Some("2".to_string()));
    assert_eq!(job_var(&c, "build", "A"), Some("2".to_string()));
    let build = c.lookup_job("build").unwrap();
    let from_base = c.parent.as_ref().unwrap().jobs.get("build").unwrap();
    assert!(Rc::ptr_eq(&build, from_base));
    assert!(c.jobs.get("build").is_none());
    let test = c.jobs.get("test").unwrap();
    assert!(Rc::ptr_eq(&test.extends_jobs[0], from_base));
}

#[test]
fn later_parent_wins() {
    let docs = files(vec![(
        "ci.yml",
        map(vec![
            ("base_job", map(vec![("variables", map(vec![("X", s("base")), ("Y", s("y"))]))])),
            ("override_job", map(vec![("variables", map(vec![("X", s("override"))]))])),
            ("deploy", map(vec![("extends", list(vec![s("base_job"), s("override_job")]))])),
        ]),
    )]);
    let c = parse_ok(&docs, "ci.yml");
    assert_eq!(job_var(&c, "deploy", "X"), Some("override".to_string()));
    assert_eq!(job_var(&c, "deploy", "Y"), Some("y".to_string()));
}

#[test]
fn later_include_wins() {
    let docs = files(vec![
        ("a.yml", map(vec![("variables", map(vec![("SHARED", s("from a")), ("ONLY_A", s("a"))]))])),
        ("b.yml", map(vec![("variables", map(vec![("SHARED", s("from b"))]))])),
        ("main.yml", layered(list(vec![s("a.yml"), s("b.yml")]), vec![])),
    ]);
    let c = parse_ok(&docs, "main.yml");
    assert_eq!(var(&c, "SHARED"), Some("from b".to_string()));
    assert_eq!(var(&c, "ONLY_A"), Some("a".to_string()));
    let nearest = c.parent.as_ref().unwrap();
    assert_eq!(nearest.file, "b.yml");
    let further = nearest.parent.as_ref().unwrap();
    assert_eq!(further.file, "a.yml");
    assert!(further.parent.is_none());
}

#[test]
fn job_merge_folds_parents_then_own() {
    let docs = files(vec![(
        "ci.yml",
        map(vec![
            ("grand", map(vec![("variables", map(vec![("K", s("grand")), ("GRAND", s("g"))]))])),
            (
                "parent",
                map(vec![("extends", s("grand")), ("variables", map(vec![("K", s("parent")), ("PARENT", s("p"))]))]),
            ),
            ("j", map(vec![("extends", list(vec![s("parent")])), ("variables", map(vec![("OWN", s("o"))]))])),
            ("k", map(vec![("extends", s("parent")), ("variables", map(vec![("K", s("own"))]))])),
        ]),
    )]);
    let c = parse_ok(&docs, "ci.yml");
    assert_eq!(job_var(&c, "j", "K"), Some("parent".to_string()));
    assert_eq!(job_var(&c, "j", "GRAND"), Some("g".to_string()));
    assert_eq!(job_var(&c, "j", "PARENT"), Some("p".to_string()));
    assert_eq!(job_var(&c, "j", "OWN"), Some("o".to_string()));
    assert_eq!(job_var(&c, "k", "K"), Some("own".to_string()));
}

#[test]
fn config_merge_folds_chain_oldest_first() {
    let docs = files(vec![
        ("one.yml", map(vec![("variables", map(vec![("V", s("1")), ("ONE", s("x"))]))])),
        ("two.yml", layered(s("one.yml"), vec![("variables", map(vec![("V", s("2")), ("TWO", s("y"))]))])),
        ("three.yml", layered(s("two.yml"), vec![("variables", map(vec![("TWO", s("z"))]))])),
    ]);
    let c = parse_ok(&docs, "three.yml");
    assert_eq!(var(&c, "V"), Some("2".to_string()));
    assert_eq!(var(&c, "ONE"), Some("x".to_string()));
    assert_eq!(var(&c, "TWO"), Some("z".to_string()));
    assert_eq!(c.variables.get("V"), None);
}

#[test]
fn parsing_twice_gives_same_result() {
    let docs = files(vec![
        ("base.yml", base_doc()),
        ("child.yml", layered(s("base.yml"), vec![("test", map(vec![("extends", s("build"))]))])),
    ]);
    let c1 = parse_ok(&docs, "child.yml");
    let c2 = parse_ok(&docs, "child.yml");
    assert_eq!(var(&c1, "A"), var(&c2, "A"));
    assert_eq!(job_var(&c1, "test", "A"), job_var(&c2, "test", "A"));
    assert_eq!(c1.jobs.get("test").is_some(), c2.jobs.get("test").is_some());
    assert_eq!(c1.parent.as_ref().unwrap().file, c2.parent.as_ref().unwrap().file);
}

#[test]
fn unknown_extends_contributes_nothing() {
    let docs = files(vec![(
        "ci.yml",
        map(vec![
            ("a", map(vec![("extends", list(vec![s("nowhere"), s("b")])), ("variables", map(vec![("A", s("a"))]))])),
            ("b", map(vec![("variables", map(vec![("B", s("b"))]))])),
        ]),
    )]);
    let c = parse_ok(&docs, "ci.yml");
    let a = c.jobs.get("a").unwrap();
    assert_eq!(a.extends_jobs.len(), 1);
    assert_eq!(job_var(&c, "a", "B"), Some("b".to_string()));
    assert_eq!(job_var(&c, "a", "A"), Some("a".to_string()));
}

#[test]
fn extends_cycle_is_cut() {
    let docs = files(vec![(
        "ci.yml",
        map(vec![
            ("A", map(vec![("extends", s("B")), ("variables", map(vec![("FROM_A", s("a"))]))])),
            ("B", map(vec![("extends", s("A")), ("variables", map(vec![("FROM_B", s("b"))]))])),
        ]),
    )]);
    let c = parse_ok(&docs, "ci.yml");
    let a = c.jobs.get("A").unwrap();
    let b = c.jobs.get("B").unwrap();
    assert_eq!(a.extends_jobs.len(), 1);
    assert!(Rc::ptr_eq(&a.extends_jobs[0], b));
    assert_eq!(b.extends_jobs.len(), 0);
    assert_eq!(job_var(&c, "A", "FROM_B"), Some("b".to_string()));
    assert_eq!(job_var(&c, "A", "FROM_A"), Some("a".to_string()));
    assert_eq!(job_var(&c, "B", "FROM_B"), Some("b".to_string()));
    assert_eq!(job_var(&c, "B", "FROM_A"), None);
}

#[test]
fn extends_cycle_merged_variables() {
    let docs = files(vec![(
        "/w/ci.yml",
        map(vec![
            ("A", map(vec![("extends", s("B")), ("variables", map(vec![("a", s("1"))]))])),
            ("B", map(vec![("extends", s("A")), ("variables", map(vec![("b", s("2"))]))])),
        ]),
    )]);
    let c = parse_ok(&docs, "/w/ci.yml");
    let a = c.jobs.get("A").unwrap().get_merged_variables();
    assert_eq!(a.get("a").map(|v| v.as_str()), Some("1"));
    assert_eq!(a.get("b").map(|v| v.as_str()), Some("2"));
    let b = c.jobs.get("B").unwrap().get_merged_variables();
    assert_eq!(b.get("b").map(|v| v.as_str()), Some("2"));
    assert!(b.get("a").is_none());
}

#[test]
fn shared_parent_is_built_once() {
    let docs = files(vec![(
        "ci.yml",
        map(vec![
            ("x", map(vec![("extends", s("base"))])),
            ("y", map(vec![("extends", s("base"))])),
            ("base", map(vec![("variables", map(vec![("V", s("v"))]))])),
        ]),
    )]);
    let c = parse_ok(&docs, "ci.yml");
    let base = c.jobs.get("base").unwrap();
    assert!(Rc::ptr_eq(&c.jobs.get("x").unwrap().extends_jobs[0], base));
    assert!(Rc::ptr_eq(&c.jobs.get("y").unwrap().extends_jobs[0], base));
}

#[test]
fn root_directory_is_kept() {
    let docs = files(vec![
        ("/a.yml", layered(s("b.yml"), vec![])),
        ("/b.yml", map(vec![("variables", map(vec![("B", s("b"))]))])),
    ]);
    let c = parse_ok(&docs, "/a.yml");
    assert_eq!(c.parent.as_ref().unwrap().file, "/b.yml");
    assert_eq!(var(&c, "B"), Some("b".to_string()));
    assert_eq!(parent_dir("/a.yml"), "/");
    assert_eq!(join_path("/", "b.yml"), "/b.yml");
}

#[test]
fn self_extension_reaches_included_job() {
    let docs = files(vec![
        ("base.yml", base_doc()),
        (
            "child.yml",
            layered(
                s("base.yml"),
                vec![("build", map(vec![("extends", s("build")), ("variables", map(vec![("EXTRA", s("e"))]))]))],
            ),
        ),
    ]);
    let c = parse_ok(&docs, "child.yml");
    assert_eq!(job_var(&c, "build", "A"), Some("2".to_string()));
    assert_eq!(job_var(&c, "build", "EXTRA"), Some("e".to_string()));
}

#[test]
fn missing_root_is_an_error() {
    let docs = files(vec![("base.yml", base_doc())]);
    assert!(matches!(parse(&docs, "other.yml"), Err(ParseError::NotFound)));
}

#[test]
fn broken_include_keeps_the_rest() {
    let docs = files(vec![
        ("a.yml", map(vec![("variables", map(vec![("FROM_A", s("a"))]))])),
        (
            "main.yml",
            layered(
                list(vec![s("a.yml"), s("missing.yml"), Node::Null]),
                vec![("variables", map(vec![("OWN", s("o"))])), ("job", map(vec![("script", s("run"))]))],
            ),
        ),
    ]);
    let c = parse_ok(&docs, "main.yml");
    assert_eq!(c.parent.as_ref().unwrap().file, "a.yml");
    assert_eq!(var(&c, "FROM_A"), Some("a".to_string()));
    assert_eq!(var(&c, "OWN"), Some("o".to_string()));
    assert!(c.jobs.get("job").is_some());
}

#[test]
fn include_cycle_terminates() {
    let docs = files(vec![
        ("a.yml", layered(s("b.yml"), vec![("variables", map(vec![("A", s("a"))]))])),
        ("b.yml", layered(s("a.yml"), vec![("variables", map(vec![("B", s("b"))]))])),
    ]);
    let c = parse_ok(&docs, "a.yml");
    let b = c.parent.as_ref().unwrap();
    assert_eq!(b.file, "b.yml");
    assert!(b.parent.is_none());
    assert_eq!(var(&c, "B"), Some("b".to_string()));
}

#[test]
fn project_include_defaults_file_name() {
    let docs = files(vec![
        ("repo/ci/main.yml", layered(map(vec![("project", s("group/shared"))]), vec![])),
        ("repo/ci/../shared/.gitlab-ci.yml", map(vec![("variables", map(vec![("SHARED", s("yes"))]))])),
    ]);
    let c = parse_ok(&docs, "repo/ci/main.yml");
    assert_eq!(c.parent.as_ref().unwrap().file, "repo/ci/../shared/.gitlab-ci.yml");
    assert_eq!(var(&c, "SHARED"), Some("yes".to_string()));
}

#[test]
fn job_fields_are_coerced() {
    let docs = files(vec![(
        "ci.yml",
        map(vec![
            ("stages", list(vec![s("build"), Node::Bool(true), s("test")])),
            (
                "job",
                map(vec![
                    ("stage", s("test")),
                    ("before_script", s("setup")),
                    ("script", list(vec![s("one"), Node::Null, s("two")])),
                    (
                        "variables",
                        map(vec![
                            ("N", Node::Number("42".to_string())),
                            ("T", Node::Bool(true)),
                            ("F", Node::Bool(false)),
                            ("L", list(vec![])),
                        ]),
                    ),
                ]),
            ),
            ("not_a_job", s("plain")),
        ]),
    )]);
    let c = parse_ok(&docs, "ci.yml");
    assert_eq!(c.stages, vec!["build".to_string(), "test".to_string()]);
    let j = c.jobs.get("job").unwrap();
    assert_eq!(j.stage.as_deref(), Some("test"));
    assert_eq!(j.before_script, Some(vec!["setup".to_string()]));
    assert_eq!(j.script, Some(vec!["one".to_string(), "two".to_string()]));
    let vars = j.variables.as_ref().unwrap();
    assert_eq!(vars.get("N").map(|v| v.as_str()), Some("42"));
    assert_eq!(vars.get("T").map(|v| v.as_str()), Some("true"));
    assert_eq!(vars.get("F").map(|v| v.as_str()), Some("false"));
    assert!(!vars.contains_key("L"));
    assert!(c.jobs.get("not_a_job").is_none());
    assert!(c.jobs.get("stages").is_none());
}

#[test]
fn first_definition_of_a_job_wins() {
    let docs = files(vec![(
        "ci.yml",
        map(vec![
            ("dup", map(vec![("variables", map(vec![("V", s("first"))]))])),
            ("dup", map(vec![("variables", map(vec![("V", s("second"))]))])),
        ]),
    )]);
    let c = parse_ok(&docs, "ci.yml");
    assert_eq!(job_var(&c, "dup", "V"), Some("first".to_string()));
}

#[test]
fn leading_separator_is_stripped() {
    let docs = files(vec![
        ("dir/inc.yml", map(vec![("variables", map(vec![("I", s("i"))]))])),
        ("dir/main.yml", layered(map(vec![("local", s("/inc.yml"))]), vec![])),
    ]);
    let c = parse_ok(&docs, "dir/main.yml");
    assert_eq!(c.parent.as_ref().unwrap().file, "dir/inc.yml");
    assert_eq!(var(&c, "I"), Some("i".to_string()));
}

#[test]
fn path_helpers() {
    assert_eq!(parent_dir("a/b/c.yml"), "a/b");
    assert_eq!(parent_dir("c.yml"), "");
    assert_eq!(file_name_part("group/sub/project"), "project");
    assert_eq!(file_name_part("project"), "project");
    assert_eq!(join_path("a/b", "c.yml"), "a/b/c.yml");
    assert_eq!(join_path("", "c.yml"), "c.yml");
    assert_eq!(strip_leading_separator("/x.yml"), "x.yml");
    assert_eq!(strip_leading_separator("\\x.yml"), "x.yml");
    assert_eq!(strip_leading_separator("x.yml"), "x.yml");
}

#[test]
fn global_variables_take_strings_only() {
    let docs = files(vec![(
        "ci.yml",
        map(vec![(
            "variables",
            map(vec![("S", s("text")), ("N", Node::Number("3".to_string())), ("S", s("again"))]),
        )]),
    )]);
    let c = parse_ok(&docs, "ci.yml");
    assert_eq!(c.variables.get("S").map(|v| v.as_str()), Some("again"));
    assert!(!c.variables.contains_key("N"));
}

#[test]
fn non_mapping_document_is_empty() {
    let docs = files(vec![("ci.yml", list(vec![s("a")]))]);
    let c = parse_ok(&docs, "ci.yml");
    assert!(c.parent.is_none());
    assert!(c.stages.is_empty());
    assert!(c.jobs.get("a").is_none());
    assert!(c.get_merged_variables().writes().is_empty());
}

#[test]
fn variable_table_overwrites() {
    let mut v = Variables::new();
    v.insert("A".to_string(), "1".to_string());
    v.insert("B".to_string(), "2".to_string());
    v.insert("A".to_string(), "3".to_string());
    assert_eq!(v.get("A").map(|x| x.as_str()), Some("3"));
    assert_eq!(v.get("B").map(|x| x.as_str()), Some("2"));
    assert!(v.get("C").is_none());
    let mut w = Variables::new();
    w.insert("B".to_string(), "over".to_string());
    v.extend(&w);
    assert_eq!(v.get("B").map(|x| x.as_str()), Some("over"));
}

#[test]
fn nested_import_lists_are_followed_in_order() {
    let docs = files(vec![
        ("a.yml", map(vec![("variables", map(vec![("V", s("a"))]))])),
        ("b.yml", map(vec![("variables", map(vec![("V", s("b"))]))])),
        ("c.yml", map(vec![("variables", map(vec![("V", s("c"))]))])),
        ("main.yml", layered(list(vec![s("a.yml"), list(vec![s("b.yml"), s("c.yml")])]), vec![])),
    ]);
    let c = parse_ok(&docs, "main.yml");
    assert_eq!(var(&c, "V"), Some("c".to_string()));
    let nearest = c.parent.as_ref().unwrap();
    assert_eq!(nearest.file, "c.yml");
    assert_eq!(nearest.parent.as_ref().unwrap().file, "b.yml");
}
