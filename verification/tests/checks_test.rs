use pbuild::checks::{command_programs, input_problem, load_problems, output_conflicts, unknown_deps};
use pbuild::config::{BuildConfig, BuildFile, ConfigError, ErrorKind, RawRule, RawTargetType};
use pbuild::strmap::{StrMap, Table};
use pbuild::types::{OutputMode, Rule, Target};
use pbuild::ui::UiConfig;

fn strings(v: &[&str]) -> Vec<String> {
    v.iter().map(|s| s.to_string()).collect()
}

fn raw(output: &str, deps: &[&str]) -> RawRule {
    RawRule {
        kind: RawTargetType::File,
        command: strings(&["true"]),
        commands: vec![],
        deps: strings(deps),
        inputs: vec![],
        output: output.to_string(),
        depfile: None,
        shell: false,
        dir: None,
        subdir: None,
        makedir: None,
        description: None,
        group: None,
        env: StrMap::new(),
        tty: false,
        cache: true,
        for_each: None,
        progress: String::new(),
        downloads: vec![],
        max_time: None,
        retry: 0,
        on_failure: vec![],
    }
}

fn build_file(rules: Vec<(&str, RawRule)>) -> BuildFile {
    let mut table = Table::new();
    for (name, r) in rules {
        table.push(name.to_string(), r);
    }
    BuildFile { config: BuildConfig::empty(), ui: UiConfig { color: None, prefix: None }, vars: StrMap::new(), rules: table }
}

fn task(name: &str, shell: bool, commands: Vec<Vec<&str>>) -> Rule {
    Rule {
        target: Target::Task(name.into()),
        deps: vec![],
        inputs: vec![],
        output: String::new(),
        depfile: None,
        commands: commands.into_iter().map(|c| strings(&c)).collect(),
        shell,
        dir: None,
        subdir: None,
        makedir: None,
        description: None,
        group: None,
        env: StrMap::new(),
        tty: false,
        cache: true,
        for_each: None,
        progress: OutputMode::Display,
        downloads: vec![],
        max_time: None,
        retry: 0,
        on_failure: vec![],
    }
}

#[test]
fn outputs_claimed_twice_are_reported() {
    let bf = build_file(vec![
        ("debug", raw("build/app", &[])),
        ("docs", raw("", &[])),
        ("release", raw("build/app", &[])),
        ("lint", raw("", &[])),
        ("other", raw("build/app", &[])),
        ("lib", raw("lib.a", &[])),
    ]);
    assert_eq!(
        output_conflicts(&bf),
        [
            "output `build/app` claimed by both `debug` and `release`",
            "output `build/app` claimed by both `debug` and `other`",
        ]
    );
    let fine = build_file(vec![("a", raw("a.o", &[])), ("b", raw("b.o", &[]))]);
    assert!(output_conflicts(&fine).is_empty());
}

#[test]
fn deps_on_missing_rules_are_reported() {
    let bf = build_file(vec![
        ("app", raw("app", &["lib", "nonexistent"])),
        ("lib", raw("lib.a", &[])),
        ("all", raw("", &["app", "ghost"])),
    ]);
    assert_eq!(
        unknown_deps(&bf),
        [
            "rule `app` depends on unknown target `nonexistent`",
            "rule `all` depends on unknown target `ghost`",
        ]
    );
}

#[test]
fn programs_are_the_first_word_of_plain_commands() {
    let mut delegated = task("sub", false, vec![vec!["ignored"]]);
    delegated.subdir = Some("software".to_string());
    let rules = vec![
        task("build", false, vec![vec!["cc", "-c", "a.c"], vec![], vec!["./link.sh"]]),
        task("script", true, vec![vec!["echo hi | tee x"]]),
        delegated,
        task("test", false, vec![vec!["cargo", "test"]]),
    ];
    let found: Vec<(String, String)> = command_programs(&rules);
    let expected: Vec<(String, String)> = [("build", "cc"), ("build", "./link.sh"), ("test", "cargo")]
        .iter()
        .map(|(a, b)| (a.to_string(), b.to_string()))
        .collect();
    assert_eq!(found, expected);
}

#[test]
fn doctor_reports_inputs_that_match_nothing() {
    let kept = Ok(strings(&["src/*.c"]));
    assert_eq!(
        input_problem("app", "src/*.c", &kept, false),
        Some("rule `app`: input `src/*.c` matches no files".to_string())
    );
    assert_eq!(input_problem("app", "src/*.c", &kept, true), None);
    assert_eq!(input_problem("app", "src/*.c", &Ok(strings(&["src/a.c"])), false), None);
    let bad: Result<Vec<String>, ConfigError> = Err(ConfigError::new(ErrorKind::InvalidGlob, "src/[.c"));
    assert_eq!(
        input_problem("app", "src/[.c", &bad, false),
        Some("rule `app`: invalid glob pattern: src/[.c".to_string())
    );
}

#[test]
fn loading_is_refused_when_outputs_conflict() {
    let bf = build_file(vec![("debug", raw("build/app", &[])), ("release", raw("build/app", &[]))]);
    assert_eq!(
        load_problems(&bf),
        Err("output conflicts detected:\n  output `build/app` claimed by both `debug` and `release`".to_string())
    );
    let fine = build_file(vec![("a", raw("a.o", &[])), ("b", raw("b.o", &[]))]);
    assert_eq!(load_problems(&fine), Ok(()));
}
