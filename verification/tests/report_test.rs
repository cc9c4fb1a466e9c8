use pbuild::config::{BuildConfig, BuildFile, RawRule, RawTargetType};
use pbuild::report::{
    explain_lines, list_lines, pad_to, sort_by_name, sort_strings, status_lines, utf8_len, why_lines, why_reason,
};
use pbuild::types::{OutputMode, Rule, Target};
use pbuild::strmap::{StrMap, Table};
use pbuild::ui::UiConfig;

fn map(pairs: &[(&str, &str)]) -> StrMap {
    let mut m = StrMap::new();
    for (k, v) in pairs {
        m.insert(k.to_string(), v.to_string());
    }
    m
}

fn raw() -> RawRule {
    RawRule {
        kind: RawTargetType::Task,
        command: vec!["true".to_string()],
        commands: vec![],
        deps: vec![],
        inputs: vec![],
        output: String::new(),
        depfile: None,
        shell: false,
        dir: None,
        subdir: None,
        makedir: None,
        description: None,
        group: None,
        env: StrMap::new(),
        tty: false,
        cache: true,
        for_each: None,
        progress: String::new(),
        downloads: vec![],
        max_time: None,
        retry: 0,
        on_failure: vec![],
    }
}

fn described(group: Option<&str>, description: Option<&str>) -> RawRule {
    let mut r = raw();
    r.group = group.map(ToString::to_string);
    r.description = description.map(ToString::to_string);
    r
}

fn build_file(rules: Vec<(&str, RawRule)>) -> BuildFile {
    let mut table = Table::new();
    for (name, r) in rules {
        table.push(name.to_string(), r);
    }
    BuildFile { config: BuildConfig::empty(), ui: UiConfig { color: None, prefix: None }, vars: StrMap::new(), rules: table }
}

fn grouped_file() -> BuildFile {
    let mut bf = build_file(vec![
        ("test", described(Some("Build"), Some("Run tests"))),
        ("lint", described(Some("Quality"), Some("Lint"))),
        ("clean", described(None, None)),
        ("build", described(Some("Build"), Some("Compile everything"))),
    ]);
    bf.config.default = Some("build".to_string());
    bf
}

#[test]
fn status_lines_align_names() {
    let statuses = vec![("a".to_string(), true), ("long".to_string(), false)];
    assert_eq!(status_lines(&statuses), ["  a      dirty", "  long   clean"]);
    assert!(status_lines(&vec![]).is_empty());
}

#[test]
fn status_column_counts_bytes_and_pads_characters() {
    // "é" is two bytes: the column is 4 wide, the name one character.
    let statuses = vec![("é".to_string(), false)];
    assert_eq!(status_lines(&statuses), ["  é    clean"]);
}

#[test]
fn list_groups_sorted_then_other() {
    let bf = grouped_file();
    assert_eq!(
        list_lines(&bf, &vec![], false),
        [
            "Build",
            "   build  Compile everything  (default)",
            "   test   Run tests",
            "Quality",
            "   lint   Lint",
            "Other",
            "   clean",
        ]
    );
}

#[test]
fn list_marks_dirty_targets_on_a_terminal() {
    let bf = grouped_file();
    let statuses = vec![("build".to_string(), true), ("test".to_string(), false)];
    let lines = list_lines(&bf, &statuses, true);
    assert_eq!(lines[1], "  \x1b[33m*\x1b[0m  build  Compile everything  (default)");
    assert_eq!(lines[2], "     test   Run tests");
    assert_eq!(lines[6], "     clean");
}

#[test]
fn list_without_groups_has_no_other_heading() {
    let bf = build_file(vec![("b", raw()), ("a", described(None, Some("first")))]);
    assert_eq!(list_lines(&bf, &vec![], false), ["   a  first", "   b"]);
}

#[test]
fn why_explains_inputs_deps_env_and_overrides() {
    let mut app = raw();
    app.inputs = vec!["main.c".to_string(), "util.c".to_string()];
    app.deps = vec!["lib".to_string(), "gen".to_string()];
    app.depfile = Some("app.d".to_string());
    app.env = map(&[("ZZ", "1"), ("CC", "gcc")]);
    let mut lib = raw();
    lib.output = "lib.a".to_string();
    let mut bf = build_file(vec![("app", app), ("lib", lib), ("gen", raw())]);
    bf.config.env = vec!["CFLAGS".to_string(), "HOME".to_string(), "GONE".to_string()];
    let lf = map(&[("lib.a", "h"), ("env:CFLAGS", "-O2"), ("env:HOME", "/root")]);
    let env = map(&[("CFLAGS", "-O3"), ("HOME", "/root")]);
    let inputs = vec!["main.c".to_string(), "util.c".to_string()];
    let discovered = vec!["app.h".to_string()];
    let lines = why_lines(&bf, "app", &lf, &env, &inputs, &vec![false, true], &discovered, &vec![true]).unwrap();
    assert_eq!(
        lines,
        [
            "target: app",
            "  inputs:",
            "    main.c  clean",
            "    util.c  CHANGED",
            "  depfile inputs (auto-discovered):",
            "    app.h  CHANGED",
            "  deps:",
            "    lib  built",
            "    gen  never built",
            "  env:",
            "    CFLAGS=-O3  CHANGED (was: -O2)",
            "    HOME=/root  clean",
            "    GONE (unset)  clean",
            "  rule env overrides:",
            "    CC=gcc",
            "    ZZ=1",
        ]
    );
}

#[test]
fn why_without_inputs_always_runs() {
    let bf = build_file(vec![("t", raw())]);
    let lines = why_lines(&bf, "t", &StrMap::new(), &StrMap::new(), &vec![], &vec![], &vec![], &vec![]).unwrap();
    assert_eq!(lines, ["target: t", "  no inputs declared — always runs"]);
}

#[test]
fn why_unknown_rule_is_none() {
    let bf = build_file(vec![("t", raw())]);
    assert!(why_lines(&bf, "u", &StrMap::new(), &StrMap::new(), &vec![], &vec![], &vec![], &vec![]).is_none());
}

#[test]
fn newly_unset_variable_is_changed() {
    let mut bf = build_file(vec![("t", raw())]);
    bf.config.env = vec!["CC".to_string()];
    let lf = map(&[("env:CC", "gcc")]);
    let lines = why_lines(&bf, "t", &lf, &StrMap::new(), &vec![], &vec![], &vec![], &vec![]).unwrap();
    assert_eq!(lines[3], "    CC (unset)  CHANGED (was: gcc)");
}

#[test]
fn sorting_is_stable_and_by_name() {
    let v = vec![("b".to_string(), 0), ("a".to_string(), 1), ("b".to_string(), 2), ("A".to_string(), 3)];
    assert_eq!(
        sort_by_name(v),
        [("A".to_string(), 3), ("a".to_string(), 1), ("b".to_string(), 0), ("b".to_string(), 2)]
    );
    let s = vec!["zeta".to_string(), "alpha".to_string(), "al".to_string()];
    assert_eq!(sort_strings(&s), ["al", "alpha", "zeta"]);
}

#[test]
fn widths_count_bytes_and_padding_counts_characters() {
    assert_eq!(utf8_len("abc"), 3);
    assert_eq!(utf8_len("é✓"), 5);
    assert_eq!(pad_to("ab", 5), "ab   ");
    assert_eq!(pad_to("abcdef", 3), "abcdef");
    assert_eq!(pad_to("é", 3), "é  ");
}

fn reason(bf: &BuildFile, name: &str, lf: &StrMap, env: &StrMap, inputs: &[(&str, bool)], discovered: &[(&str, bool)]) -> Option<String> {
    let raw = bf.rules.get(name).unwrap();
    let iv: Vec<String> = inputs.iter().map(|p| p.0.to_string()).collect();
    let ic: Vec<bool> = inputs.iter().map(|p| p.1).collect();
    let dv: Vec<String> = discovered.iter().map(|p| p.0.to_string()).collect();
    let dc: Vec<bool> = discovered.iter().map(|p| p.1).collect();
    why_reason(bf, raw, lf, env, &iv, &ic, &dv, &dc)
}

#[test]
fn why_reason_takes_the_first_cause() {
    let mut app = raw();
    app.deps = vec!["lib".to_string()];
    let mut lib = raw();
    lib.output = "lib.a".to_string();
    let mut bf = build_file(vec![("app", app), ("lib", lib)]);
    bf.config.env = vec!["CC".to_string()];
    let built = map(&[("lib.a", "h"), ("env:CC", "gcc")]);
    let env = map(&[("CC", "gcc")]);
    // Everything clean: up to date.
    assert_eq!(reason(&bf, "app", &built, &env, &[("a.c", false)], &[("a.h", false)]), None);
    // A changed depfile input, then a declared one.
    assert_eq!(
        reason(&bf, "app", &built, &env, &[("a.c", false)], &[("a.h", true)]).as_deref(),
        Some("changed: a.h")
    );
    assert_eq!(
        reason(&bf, "app", &built, &env, &[("a.c", true)], &[("a.h", true)]).as_deref(),
        Some("changed: a.c")
    );
    // No inputs at all.
    assert_eq!(reason(&bf, "app", &built, &env, &[], &[]).as_deref(), Some("no inputs — always runs"));
    // A dependency never built comes before inputs.
    let unbuilt = map(&[("env:CC", "gcc")]);
    assert_eq!(
        reason(&bf, "app", &unbuilt, &env, &[("a.c", true)], &[]).as_deref(),
        Some("dep never built: lib")
    );
    // A changed variable comes first.
    let clang = map(&[("CC", "clang")]);
    assert_eq!(reason(&bf, "app", &unbuilt, &clang, &[], &[]).as_deref(), Some("env vars changed"));
}

#[test]
fn uncached_rule_has_a_reason() {
    let mut r = raw();
    r.cache = false;
    let bf = build_file(vec![("t", r)]);
    assert_eq!(
        reason(&bf, "t", &StrMap::new(), &StrMap::new(), &[("a.c", false)], &[]).as_deref(),
        Some("cache = false — always runs")
    );
}

fn rule(name: &str) -> Rule {
    Rule {
        target: Target::Task(name.into()),
        deps: vec![],
        inputs: vec![],
        output: String::new(),
        depfile: None,
        commands: vec![],
        shell: false,
        dir: None,
        subdir: None,
        makedir: None,
        description: None,
        group: None,
        env: StrMap::new(),
        tty: false,
        cache: true,
        for_each: None,
        progress: OutputMode::Display,
        downloads: vec![],
        max_time: None,
        retry: 0,
        on_failure: vec![],
    }
}

#[test]
fn explain_shows_commands_dir_env_timeout_and_retries() {
    let mut r = rule("build");
    r.env = map(&[("RUST_LOG", "debug"), ("A", "1")]);
    r.retry = 2;
    let cmds = vec![vec!["cargo".to_string(), "build".to_string()], vec!["sh".to_string(), "-c".to_string(), "cp a b && echo done".to_string()]];
    assert_eq!(
        explain_lines(&r, &cmds, &Some("subdir".to_string()), Some(300)),
        [
            "target: build",
            "  $ cargo build",
            "  $ sh -c cp a b && echo done",
            "  dir: subdir",
            "  env: RUST_LOG=debug",
            "  env: A=1",
            "  max_time: 5m",
            "  retry: 2",
        ]
    );
    assert_eq!(explain_lines(&rule("t"), &vec![], &None, None), ["target: t"]);
}
