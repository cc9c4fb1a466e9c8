use pbuild::graph::{build_plan, dot_lines, graph_lines, merge_plans};
use pbuild::strmap::StrMap;
use pbuild::types::{OutputMode, Rule, Target};

fn mk_rule(target: Target, deps: Vec<Target>) -> Rule {
    Rule {
        target,
        deps,
        inputs: vec![],
        output: String::new(),
        depfile: None,
        commands: vec![],
        shell: false,
        dir: None,
        subdir: None,
        makedir: None,
        description: None,
        group: None,
        env: StrMap::new(),
        tty: false,
        cache: true,
        for_each: None,
        progress: OutputMode::Display,
        downloads: vec![],
        max_time: None,
        retry: 0,
        on_failure: vec![],
    }
}

#[test]
fn single_rule_no_deps() {
    let rules = vec![mk_rule(Target::Task("all".into()), vec![])];
    let plan = build_plan(&rules, &Target::Task("all".into())).unwrap();
    let targets: Vec<_> = plan.iter().map(|r| &r.target).collect();
    assert_eq!(targets, [&Target::Task("all".into())]);
}

#[test]
fn linear_chain_resolves_in_order() {
    let a = Target::File("a.o".into());
    let b = Target::File("b".into());
    let rules = vec![mk_rule(a.clone(), vec![]), mk_rule(b.clone(), vec![a.clone()])];
    let plan = build_plan(&rules, &b).unwrap();
    let targets: Vec<_> = plan.iter().map(|r| r.target.clone()).collect();
    assert_eq!(targets, [a, b]);
}

#[test]
fn diamond_dep_included_exactly_once() {
    let shared = Target::File("shared.o".into());
    let left = Target::File("left.o".into());
    let right = Target::File("right.o".into());
    let root = Target::File("root".into());
    let rules = vec![
        mk_rule(shared.clone(), vec![]),
        mk_rule(left.clone(), vec![shared.clone()]),
        mk_rule(right.clone(), vec![shared.clone()]),
        mk_rule(root.clone(), vec![left.clone(), right.clone()]),
    ];
    let plan = build_plan(&rules, &root).unwrap();
    let targets: Vec<_> = plan.iter().map(|r| r.target.clone()).collect();

    assert_eq!(targets.iter().filter(|t| **t == shared).count(), 1);

    let idx = |t: &Target| targets.iter().position(|x| x == t).unwrap();
    assert!(idx(&shared) < idx(&left));
    assert!(idx(&shared) < idx(&right));
    assert!(idx(&left) < idx(&root));
    assert!(idx(&right) < idx(&root));
}

#[test]
fn missing_dep_returns_err() {
    let rules = vec![mk_rule(Target::File("foo".into()), vec![Target::File("missing.o".into())])];
    let err = build_plan(&rules, &Target::File("foo".into())).unwrap_err();
    assert!(err.contains("missing.o") || err.contains("No rule"), "{err}");
}

#[test]
fn unknown_root_returns_err() {
    let err = build_plan(&vec![], &Target::Task("ghost".into())).unwrap_err();
    assert!(err.contains("ghost") || err.contains("No rule"), "{err}");
}

#[test]
fn direct_cycle_returns_err() {
    let a = Target::File("a.o".into());
    let b = Target::File("b.o".into());
    let rules = vec![mk_rule(a.clone(), vec![b.clone()]), mk_rule(b.clone(), vec![a.clone()])];
    let err = build_plan(&rules, &a).unwrap_err();
    assert!(err.contains("Cycle"), "{err}");
}

#[test]
fn self_referential_returns_err() {
    let a = Target::File("self.o".into());
    let rules = vec![mk_rule(a.clone(), vec![a.clone()])];
    assert!(build_plan(&rules, &a).is_err());
}

#[test]
fn error_messages_name_the_target() {
    let rules = vec![mk_rule(Target::File("foo".into()), vec![Target::File("missing.o".into())])];
    assert_eq!(build_plan(&rules, &Target::File("foo".into())).unwrap_err(), "No rule for target: missing.o");
    let a = Target::File("a.o".into());
    let rules = vec![mk_rule(a.clone(), vec![a.clone()])];
    assert_eq!(build_plan(&rules, &a).unwrap_err(), "Cycle detected at: a.o");
}

#[test]
fn plan_holds_only_what_the_root_needs() {
    let a = Target::File("a".into());
    let b = Target::File("b".into());
    let unrelated = Target::Task("lint".into());
    let rules = vec![mk_rule(unrelated.clone(), vec![]), mk_rule(a.clone(), vec![]), mk_rule(b.clone(), vec![a.clone()])];
    let plan = build_plan(&rules, &b).unwrap();
    let targets: Vec<_> = plan.iter().map(|r| r.target.clone()).collect();
    assert_eq!(targets, [a, b]);
}

#[test]
fn later_rule_for_a_target_wins() {
    let a = Target::File("a".into());
    let dep = Target::File("dep".into());
    let rules = vec![mk_rule(a.clone(), vec![]), mk_rule(dep.clone(), vec![]), mk_rule(a.clone(), vec![dep.clone()])];
    let plan = build_plan(&rules, &a).unwrap();
    let targets: Vec<_> = plan.iter().map(|r| r.target.clone()).collect();
    assert_eq!(targets, [dep, a]);
}

#[test]
fn graph_draws_the_tree_once_per_node() {
    let shared = Target::File("shared.o".into());
    let left = Target::File("left.o".into());
    let right = Target::File("right.o".into());
    let root = Target::Task("root".into());
    let rules = vec![
        mk_rule(shared.clone(), vec![]),
        mk_rule(left.clone(), vec![shared.clone()]),
        mk_rule(right.clone(), vec![shared.clone(), Target::File("gone.o".into())]),
        mk_rule(root.clone(), vec![left, right]),
    ];
    assert_eq!(
        graph_lines(&rules, &root),
        [
            "root",
            "├── left.o",
            "│   └── shared.o",
            "└── right.o",
            "    ├── shared.o [...]",
            "    └── gone.o [missing]",
        ]
    );
}

#[test]
fn graph_of_an_unknown_root_is_its_name() {
    let rules = vec![mk_rule(Target::Task("a".into()), vec![])];
    assert_eq!(graph_lines(&rules, &Target::Task("ghost".into())), ["ghost"]);
}

#[test]
fn dot_lists_an_edge_per_dependency() {
    let a = Target::File("a \"x\".o".into());
    let b = Target::File("b.o".into());
    let root = Target::Task("all".into());
    let rules = vec![mk_rule(a.clone(), vec![]), mk_rule(b.clone(), vec![a.clone()]), mk_rule(root.clone(), vec![a, b])];
    let plan = build_plan(&rules, &root).unwrap();
    assert_eq!(
        dot_lines(&plan),
        [
            "digraph pbuild {",
            "  \"a \\\"x\\\".o\";",
            "  \"b.o\" -> \"a \\\"x\\\".o\";",
            "  \"all\" -> \"a \\\"x\\\".o\";",
            "  \"all\" -> \"b.o\";",
            "}",
        ]
    );
    assert_eq!(dot_lines(&vec![]), ["digraph pbuild {", "}"]);
}

#[test]
fn merged_plans_keep_each_rule_once() {
    let lib = Target::File("lib.a".into());
    let app = Target::File("app".into());
    let tool = Target::File("tool".into());
    let rules = vec![
        mk_rule(lib.clone(), vec![]),
        mk_rule(app.clone(), vec![lib.clone()]),
        mk_rule(tool.clone(), vec![lib.clone()]),
    ];
    let p1 = build_plan(&rules, &app).unwrap();
    let p2 = build_plan(&rules, &tool).unwrap();
    let merged = merge_plans(p1, p2);
    let targets: Vec<_> = merged.iter().map(|r| r.target.clone()).collect();
    assert_eq!(targets, [lib.clone(), app.clone(), tool]);
    let again = merge_plans(merged, build_plan(&rules, &app).unwrap());
    assert_eq!(again.len(), 3);
    assert!(merge_plans(vec![], vec![]).is_empty());
}

#[test]
fn dependencies_are_walked_in_the_order_listed() {
    let shared = Target::File("shared.o".into());
    let left = Target::File("left.o".into());
    let right = Target::File("right.o".into());
    let root = Target::File("root".into());
    let rules = vec![
        mk_rule(shared.clone(), vec![]),
        mk_rule(left.clone(), vec![shared.clone()]),
        mk_rule(right.clone(), vec![shared.clone()]),
        mk_rule(root.clone(), vec![left.clone(), right.clone()]),
    ];
    let plan = build_plan(&rules, &root).unwrap();
    let targets: Vec<_> = plan.iter().map(|r| r.target.clone()).collect();
    assert_eq!(targets, [shared, left, right, root]);
}
