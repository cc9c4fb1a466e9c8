use pbuild::actions::{
    add_rule, editor_args, header_line, only_plan, pick_candidate, prune_candidates, record_touched,
    remove_rule_entries, resolve_candidate, rule_exists, rule_outputs, touch_paths, watch_paths,
};
use pbuild::config::{BuildConfig, BuildFile, RawRule, RawTargetType};
use pbuild::strmap::{StrMap, Table};
use pbuild::types::{OutputMode, Rule, Target};
use pbuild::ui::UiConfig;

fn strings(v: &[&str]) -> Vec<String> {
    v.iter().map(|s| s.to_string()).collect()
}

fn map(pairs: &[(&str, &str)]) -> StrMap {
    let mut m = StrMap::new();
    for (k, v) in pairs {
        m.insert(k.to_string(), v.to_string());
    }
    m
}

fn mk_rule(target: Target, deps: Vec<Target>, inputs: &[&str]) -> Rule {
    Rule {
        target,
        deps,
        inputs: strings(inputs),
        output: String::new(),
        depfile: None,
        commands: vec![strings(&["true"])],
        shell: false,
        dir: None,
        subdir: None,
        makedir: None,
        description: None,
        group: None,
        env: StrMap::new(),
        tty: false,
        cache: true,
        for_each: None,
        progress: OutputMode::Display,
        downloads: vec![],
        max_time: None,
        retry: 0,
        on_failure: vec![],
    }
}

fn raw(inputs: &[&str], output: &str, depfile: Option<&str>) -> RawRule {
    RawRule {
        kind: RawTargetType::File,
        command: strings(&["true"]),
        commands: vec![],
        deps: vec![],
        inputs: strings(inputs),
        output: output.to_string(),
        depfile: depfile.map(ToString::to_string),
        shell: false,
        dir: None,
        subdir: None,
        makedir: None,
        description: None,
        group: None,
        env: StrMap::new(),
        tty: false,
        cache: true,
        for_each: None,
        progress: String::new(),
        downloads: vec![],
        max_time: None,
        retry: 0,
        on_failure: vec![],
    }
}

fn build_file(rules: Vec<(&str, RawRule)>) -> BuildFile {
    let mut table = Table::new();
    for (name, r) in rules {
        table.push(name.to_string(), r);
    }
    BuildFile { config: BuildConfig::empty(), ui: UiConfig { color: None, prefix: None }, vars: StrMap::new(), rules: table }
}

#[test]
fn only_keeps_the_root_without_its_deps() {
    let dep = Target::File("mid.txt".into());
    let root = Target::File("final.txt".into());
    let rules = vec![mk_rule(dep.clone(), vec![], &[]), mk_rule(root.clone(), vec![dep], &["mid.txt"])];
    let plan = only_plan(rules, &root).unwrap();
    assert_eq!(plan.len(), 1);
    assert_eq!(plan[0].target, root);
    assert!(plan[0].deps.is_empty());
    assert_eq!(plan[0].inputs, ["mid.txt"]);
}

#[test]
fn only_for_an_unknown_target_is_an_error() {
    let rules = vec![mk_rule(Target::Task("a".into()), vec![], &[])];
    let err = only_plan(rules, &Target::Task("ghost".into())).unwrap_err();
    assert_eq!(err, "no rule for target: ghost");
}

#[test]
fn watch_covers_every_input_and_the_build_file() {
    let plan = vec![
        mk_rule(Target::File("a.o".into()), vec![], &["a.c", "a.h"]),
        mk_rule(Target::File("app".into()), vec![], &["main.c"]),
    ];
    assert_eq!(watch_paths(&plan), ["a.c", "a.h", "main.c", "pbuild.toml"]);
}

#[test]
fn touch_hashes_inputs_then_output() {
    assert_eq!(touch_paths(&strings(&["a.c"]), "app"), ["a.c", "app"]);
    assert_eq!(touch_paths(&strings(&["a.c"]), ""), ["a.c"]);
    let mut lf = map(&[("a.c", "old")]);
    let paths = strings(&["a.c", "gone.c", "app"]);
    let n = record_touched(&mut lf, &paths, &vec![Some("h1".to_string()), None, Some("h2".to_string())]);
    assert_eq!(n, 2);
    assert_eq!(lf.get("a.c").unwrap(), "h1");
    assert_eq!(lf.get("app").unwrap(), "h2");
    assert!(lf.get("gone.c").is_none());
}

#[test]
fn prune_spares_synthetic_and_referenced_keys() {
    let lf = map(&[
        ("env:CC", "gcc"),
        ("dep:app", "x.h"),
        ("a.c", "h"),
        ("old.c", "h"),
        ("app", "h"),
        ("x.h", "h"),
    ]);
    let bf = build_file(vec![("app", raw(&["a.c"], "app", None))]);
    assert_eq!(prune_candidates(&lf, Some(&bf)), ["old.c", "x.h"]);
    assert_eq!(prune_candidates(&lf, None), ["a.c", "old.c", "app", "x.h"]);
}

#[test]
fn clean_removes_declared_outputs() {
    let bf = build_file(vec![("a", raw(&[], "a.out", None)), ("t", raw(&[], "", None)), ("b", raw(&[], "b.out", None))]);
    assert_eq!(rule_outputs(&bf), ["a.out", "b.out"]);
}

#[test]
fn clean_target_forgets_inputs_and_output() {
    let mut lf = map(&[("a.c", "1"), ("b.c", "2"), ("app", "3"), ("env:CC", "gcc")]);
    remove_rule_entries(&mut lf, &strings(&["a.c"]), "app");
    assert!(lf.get("a.c").is_none() && lf.get("app").is_none());
    assert_eq!(lf.get("b.c").unwrap(), "2");
    assert_eq!(lf.get("env:CC").unwrap(), "gcc");
}

#[test]
fn rules_are_found_by_plain_or_quoted_header() {
    let text = "[config]\ndefault = \"build\"\n\n[build]\ncommand = [\"true\"]\n\n[\"out.o\"]\n";
    assert!(rule_exists(text, "build"));
    assert!(rule_exists(text, "out.o"));
    assert!(!rule_exists(text, "test"));
    assert_eq!(header_line(text, "build"), Some(4));
    assert_eq!(header_line("  [build]  \n", "build"), Some(1));
    assert_eq!(header_line(text, "out.o"), Some(7));
    assert_eq!(header_line(text, "test"), None);
}

#[test]
fn added_rule_is_appended_as_toml() {
    let out = add_rule("[config]", "lint", "task", "Run linter", "Quality", "cargo clippy -- -D \"x\"").unwrap();
    assert_eq!(
        out,
        "[config]\n\n[lint]\ngroup       = \"Quality\"\ndescription = \"Run linter\"\ntype        = \"task\"\ncommand     = [\"cargo\", \"clippy\", \"--\", \"-D\", \"\\\"x\\\"\"]\n"
    );
    let out = add_rule("[config]\n", "out.o", "file", "", "", "cc -c a.c").unwrap();
    assert_eq!(out, "[config]\n\n[\"out.o\"]\ncommand     = [\"cc\", \"-c\", \"a.c\"]\n");
    assert_eq!(add_rule("", "x", "task", "", "", "").unwrap_err(), "command is required");
}

#[test]
fn editors_get_line_jumps() {
    assert_eq!(editor_args("vim", Some(12)), ["+12", "pbuild.toml"]);
    assert_eq!(editor_args("/usr/bin/nvim", None), ["pbuild.toml"]);
    assert_eq!(editor_args("code", Some(3)), ["pbuild.toml:3"]);
    assert_eq!(editor_args("/opt/bin/code-insiders", Some(7)), ["pbuild.toml:7"]);
    assert!(editor_args("code", None).is_empty());
}

#[test]
fn var_candidates_resolve_in_order() {
    assert!(resolve_candidate("./venv/python", true, false));
    assert!(!resolve_candidate("bin/tool", false, true));
    assert!(resolve_candidate("python3", false, true));
    assert!(!resolve_candidate("python3", true, false));
    let c = strings(&["python3.12", "python3", "python"]);
    assert_eq!(pick_candidate("py", &c, &vec![false, true, true]).unwrap(), "python3");
    assert_eq!(pick_candidate("py", &c, &vec![false, false, false]).unwrap(), "python");
    assert_eq!(
        pick_candidate("py", &vec![], &vec![]).unwrap_err(),
        "[vars] `py`: fallback array must not be empty"
    );
}
