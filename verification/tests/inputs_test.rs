use pbuild::config::{
    default_true, duration_in_range, expand_inputs, expand_inputs_noting, glob_warnings, interpolate, merge_glob_results, resolve_dep, rule_target,
    timeouts_in_range, BuildConfig, BuildFile, ErrorKind, RawRule, RawTargetType,
};
use pbuild::depfile::whitespace_words;
use pbuild::hash::{join_with, key_less, split_lines};
use pbuild::strmap::{StrMap, Table};
use pbuild::text::{escape_quotes_exec, join_strings, trim, trim_end_matching};
use pbuild::types::Target;
use pbuild::ui::UiConfig;

fn strings(v: &[&str]) -> Vec<String> {
    v.iter().map(|s| s.to_string()).collect()
}

fn chars(s: &str) -> Vec<char> {
    s.chars().collect()
}

fn map(pairs: &[(&str, &str)]) -> StrMap {
    let mut m = StrMap::new();
    for (k, v) in pairs {
        m.insert(k.to_string(), v.to_string());
    }
    m
}

fn raw(kind: RawTargetType, max_time: Option<&str>) -> RawRule {
    RawRule {
        kind,
        command: strings(&["true"]),
        commands: vec![],
        deps: vec![],
        inputs: vec![],
        output: String::new(),
        depfile: None,
        shell: false,
        dir: None,
        subdir: None,
        makedir: None,
        description: None,
        group: None,
        env: StrMap::new(),
        tty: false,
        cache: true,
        for_each: None,
        progress: String::new(),
        downloads: vec![],
        max_time: max_time.map(ToString::to_string),
        retry: 0,
        on_failure: vec![],
    }
}

fn build_file(rules: Vec<(&str, RawRule)>) -> BuildFile {
    let mut table = Table::new();
    for (name, r) in rules {
        table.push(name.to_string(), r);
    }
    BuildFile { config: BuildConfig::empty(), ui: UiConfig { color: None, prefix: None }, vars: StrMap::new(), rules: table }
}

#[test]
fn unmatched_patterns_stand_for_themselves() {
    let patterns = strings(&["/nonexistent-pbuild-dir/*.c", "/nonexistent-pbuild-dir/main.c"]);
    assert_eq!(expand_inputs(&patterns).unwrap(), patterns);
    assert!(expand_inputs(&vec![]).unwrap().is_empty());
}

#[test]
fn invalid_glob_names_the_pattern() {
    let e = expand_inputs(&strings(&["ok.c", "src/[.c"])).unwrap_err();
    assert_eq!(e.kind, ErrorKind::InvalidGlob);
    assert_eq!(e.subject, "src/[.c");
    assert_eq!(e.message(), "invalid glob pattern: src/[.c");
}

#[test]
fn glob_results_merge_in_pattern_order() {
    let patterns = strings(&["*.c", "none.h", "*.o"]);
    let matches = vec![strings(&["a.c", "b.c"]), vec![], strings(&["a.o"])];
    assert_eq!(merge_glob_results(&patterns, &matches), ["a.c", "b.c", "none.h", "a.o"]);
}

#[test]
fn only_wildcards_that_match_nothing_are_warned_about() {
    let patterns = strings(&["*.c", "none.h", "*.o", "src/?.rs"]);
    let matches = vec![strings(&["a.c"]), vec![], vec![], vec![]];
    assert_eq!(
        glob_warnings(&patterns, &matches),
        ["glob '*.o' matched no files", "glob 'src/?.rs' matched no files"]
    );
    let patterns = strings(&["/nonexistent-pbuild-dir/*.c", "/nonexistent-pbuild-dir/main.c"]);
    let (inputs, warnings) = expand_inputs_noting(&patterns).unwrap();
    assert_eq!(inputs, patterns);
    assert_eq!(warnings, ["glob '/nonexistent-pbuild-dir/*.c' matched no files"]);
}

#[test]
fn interpolation_prefers_vars_then_env() {
    let vars = map(&[("cc", "clang")]);
    let env = map(&[("HOME", "/root"), ("cc", "gcc")]);
    assert_eq!(interpolate(&vars, &env, "{{cc}} -I{{HOME}}/inc {{nope}}", true), "clang -I/root/inc {{nope}}");
    assert_eq!(interpolate(&vars, &env, "{{HOME}}", false), "{{HOME}}");
    assert_eq!(interpolate(&vars, &env, "{{cc", true), "{{cc");
}

#[test]
fn targets_follow_the_rule_kind() {
    let bf = build_file(vec![("build", raw(RawTargetType::Task, None)), ("app", raw(RawTargetType::File, None))]);
    assert_eq!(rule_target("x", &raw(RawTargetType::Task, None)), Target::Task("x".into()));
    assert_eq!(resolve_dep(&bf, "build"), Target::Task("build".into()));
    assert_eq!(resolve_dep(&bf, "app"), Target::File("app".into()));
    assert_eq!(resolve_dep(&bf, "main.c"), Target::File("main.c".into()));
    assert!(default_true());
}

#[test]
fn timeouts_that_overflow_are_caught_before_reading() {
    assert!(duration_in_range("5m"));
    assert!(duration_in_range("bad"));
    assert!(duration_in_range("99999999999999999999"));
    assert!(!duration_in_range("99999999999999999h"));
    let ok = build_file(vec![("a", raw(RawTargetType::Task, Some("1h30m")))]);
    assert!(timeouts_in_range(&ok));
    let mut inherited = build_file(vec![("a", raw(RawTargetType::Task, None))]);
    inherited.config.max_time = Some("6000000000000000h".to_string());
    assert!(!timeouts_in_range(&inherited));
}

#[test]
fn text_helpers() {
    assert_eq!(split_lines("a\nb\r\n\nc"), ["a", "b", "", "c"]);
    assert_eq!(split_lines(""), Vec::<String>::new());
    assert_eq!(whitespace_words(&chars("  a\tb \n c  ")), ["a", "b", "c"]);
    assert_eq!(join_with(&strings(&["a", "b", "c"]), '\t'), "a\tb\tc");
    assert_eq!(join_with(&vec![], ' '), "");
    assert_eq!(join_strings(&strings(&["x", "y"]), ", "), "x, y");
    assert!(key_less(&chars("a"), &chars("ab")));
    assert!(key_less(&chars("B"), &chars("a")));
    assert!(!key_less(&chars("b"), &chars("b")));
    assert_eq!(escape_quotes_exec("say \"hi\""), "say \\\"hi\\\"");
    assert_eq!(trim(&chars("  x y \t")), chars("x y"));
    assert_eq!(trim_end_matching(&chars("cc \\\\"), '\\'), chars("cc "));
}
