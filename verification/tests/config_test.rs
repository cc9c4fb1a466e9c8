use pbuild::config::{
    apply_default_profile, apply_profile, duration_text, interpolate_pub, parse_duration, parse_output_mode, resolve_target, to_rules,
    BuildConfig, BuildFile, ErrorKind, Profile, RawDownload, RawRule, RawTargetType,
};
use pbuild::strmap::{StrMap, Table};
use pbuild::types::{OutputMode, Target};
use pbuild::ui::UiConfig;
use std::time::Duration;

fn map(pairs: &[(&str, &str)]) -> StrMap {
    let mut m = StrMap::new();
    for (k, v) in pairs {
        m.insert(k.to_string(), v.to_string());
    }
    m
}

fn raw(command: &[&str]) -> RawRule {
    RawRule {
        kind: RawTargetType::File,
        command: command.iter().map(|s| s.to_string()).collect(),
        commands: vec![],
        deps: vec![],
        inputs: vec![],
        output: String::new(),
        depfile: None,
        shell: false,
        dir: None,
        subdir: None,
        makedir: None,
        description: None,
        group: None,
        env: StrMap::new(),
        tty: false,
        cache: true,
        for_each: None,
        progress: String::new(),
        downloads: vec![],
        max_time: None,
        retry: 0,
        on_failure: vec![],
    }
}

fn build_file(rules: Vec<(&str, RawRule)>) -> BuildFile {
    let mut table = Table::new();
    for (name, r) in rules {
        table.push(name.to_string(), r);
    }
    BuildFile {
        config: BuildConfig::empty(),
        ui: UiConfig { color: None, prefix: None },
        vars: StrMap::new(),
        rules: table,
    }
}

#[test]
fn parse_duration_handles_formats() {
    assert_eq!(parse_duration("30").unwrap(), Duration::from_secs(30));
    assert_eq!(parse_duration("30s").unwrap(), Duration::from_secs(30));
    assert_eq!(parse_duration("5m").unwrap(), Duration::from_secs(300));
    assert_eq!(parse_duration("1h").unwrap(), Duration::from_secs(3600));
    assert_eq!(parse_duration("1h30m").unwrap(), Duration::from_secs(5400));
    assert_eq!(parse_duration("2h5m10s").unwrap(), Duration::from_secs(7510));
    assert!(parse_duration("bad").is_err());
    assert!(parse_duration("5x").is_err());
}

#[test]
fn duration_errors_name_the_input() {
    let e = parse_duration("5x").unwrap_err();
    assert_eq!(e.kind, ErrorKind::InvalidDuration);
    assert_eq!(e.message(), "invalid duration: 5x");
    let e = parse_duration("1h30").unwrap_err();
    assert_eq!(e.kind, ErrorKind::TrailingNumber);
    assert_eq!(e.message(), "invalid duration: 1h30 (trailing number with no unit)");
    assert_eq!(parse_duration("+7").unwrap(), Duration::from_secs(7));
    assert_eq!(parse_duration("").unwrap(), Duration::from_secs(0));
}

#[test]
fn vars_substituted_then_env_then_left_as_is() {
    let vars = map(&[("cargo", "cargo +nightly")]);
    let env = map(&[("HOME", "/home/me")]);
    assert_eq!(interpolate_pub(&vars, &env, "{{cargo}} build"), "cargo +nightly build");
    assert_eq!(interpolate_pub(&vars, &env, "{{HOME}}/bin"), "/home/me/bin");
    assert_eq!(interpolate_pub(&vars, &env, "{{no_such_var}}"), "{{no_such_var}}");
    assert_eq!(interpolate_pub(&vars, &env, "open {{ only"), "open {{ only");
}

#[test]
fn progress_modes() {
    assert_eq!(parse_output_mode("", "r").unwrap(), OutputMode::Display);
    assert_eq!(parse_output_mode("mute", "r").unwrap(), OutputMode::Mute);
    assert_eq!(parse_output_mode("percent", "r").unwrap(), OutputMode::Percent);
    let e = parse_output_mode("loud", "r").unwrap_err();
    assert_eq!(
        e.message(),
        "rule `r`: unknown progress mode `loud` (expected display, mute, or percent)"
    );
}

#[test]
fn unknown_profile_is_an_error() {
    let mut bf = build_file(vec![("build", raw(&["true"]))]);
    let e = apply_profile(&mut bf, "ci").unwrap_err();
    assert_eq!(e.message(), "no profile named `ci`");
}

#[test]
fn profile_values_win_and_env_appends() {
    let mut bf = build_file(vec![("build", raw(&["true"]))]);
    bf.vars = map(&[("cargo", "cargo"), ("keep", "1")]);
    bf.config.env = vec!["CC".to_string()];
    bf.config.profiles.push(
        "ci".to_string(),
        Profile {
            default: Some("test".to_string()),
            jobs: Some(1),
            env: vec!["CI".to_string()],
            trust: true,
            vars: map(&[("cargo", "cargo +stable")]),
        },
    );
    apply_profile(&mut bf, "ci").unwrap();
    assert_eq!(bf.config.jobs, Some(1));
    assert_eq!(bf.config.default.as_deref(), Some("test"));
    assert!(bf.config.trust);
    assert_eq!(bf.config.env, ["CC", "CI"]);
    assert_eq!(bf.vars.get("cargo").map(|s| s.as_str()), Some("cargo +stable"));
    assert_eq!(bf.vars.get("keep").map(|s| s.as_str()), Some("1"));
}

#[test]
fn resolve_target_rules() {
    let mut bf = build_file(vec![("a", raw(&["true"])), ("b", raw(&["true"]))]);
    assert_eq!(resolve_target(&bf, Some("a")).unwrap(), Target::File("a".into()));
    assert_eq!(
        resolve_target(&bf, Some("ghost")).unwrap_err().message(),
        "no rule for target: ghost"
    );
    assert_eq!(
        resolve_target(&bf, None).unwrap_err().message(),
        "no default target specified and multiple rules exist; pass a target name on the command line"
    );
    bf.config.default = Some("b".to_string());
    assert_eq!(resolve_target(&bf, None).unwrap(), Target::File("b".into()));
    bf.config.default = Some("zzz".to_string());
    assert_eq!(
        resolve_target(&bf, None).unwrap_err().message(),
        "default target `zzz` has no rule"
    );
    let single = build_file(vec![("only", raw(&["true"]))]);
    assert_eq!(resolve_target(&single, None).unwrap(), Target::File("only".into()));
}

#[test]
fn rules_built_from_entries() {
    let mut compile = raw(&["{{cc}}", "-o", "{{out}}"]);
    compile.inputs = vec!["pbuild-test-no-such-file.c".to_string()];
    compile.output = "app".to_string();
    compile.depfile = Some("app.d".to_string());
    compile.deps = vec!["gen".to_string(), "other.h".to_string()];
    compile.max_time = Some("1m".to_string());
    let mut gen = raw(&["true"]);
    gen.kind = RawTargetType::Task;
    gen.downloads = vec![RawDownload {
        url: "https://x/{{cc}}.tgz".to_string(),
        dest: "d".to_string(),
        extract: None,
        strip: 1,
    }];
    let mut bf = build_file(vec![("app", compile), ("gen", gen)]);
    bf.vars = map(&[("cc", "gcc")]);
    let env = map(&[("out", "a.out")]);
    let rules = to_rules(&bf, &env).unwrap();
    assert_eq!(rules.len(), 2);
    let app = &rules[0];
    assert_eq!(app.target, Target::File("app".into()));
    assert_eq!(app.commands, vec![vec!["gcc".to_string(), "-o".to_string(), "a.out".to_string()]]);
    assert_eq!(app.deps, vec![Target::Task("gen".into()), Target::File("other.h".into())]);
    assert_eq!(app.inputs, ["pbuild-test-no-such-file.c"]);
    assert_eq!(app.max_time, Some(std::time::Duration::from_secs(60)));
    assert_eq!(rules[1].target, Target::Task("gen".into()));
    assert_eq!(rules[1].downloads[0].url, "https://x/gcc.tgz");
}

#[test]
fn rule_without_command_is_an_error() {
    let bf = build_file(vec![("empty", raw(&[]))]);
    let e = to_rules(&bf, &StrMap::new()).unwrap_err();
    assert_eq!(e.message(), "rule `empty` has no command");
}

#[test]
fn bad_max_time_is_an_error() {
    let mut r = raw(&["true"]);
    r.max_time = Some("soon".to_string());
    let bf = build_file(vec![("slow", r)]);
    let e = to_rules(&bf, &StrMap::new()).unwrap_err();
    assert_eq!(e.kind, ErrorKind::InvalidMaxTime);
    assert_eq!(e.message(), "rule `slow`: invalid max_time");
    assert_eq!(e.detail, "invalid duration: soon");
}

#[test]
fn invalid_glob_pattern_is_an_error() {
    let mut r = raw(&["true"]);
    r.inputs = vec!["src/[".to_string()];
    let bf = build_file(vec![("bad", r)]);
    let e = to_rules(&bf, &StrMap::new()).unwrap_err();
    assert_eq!(e.kind, ErrorKind::BadInputs);
    assert_eq!(e.detail, "invalid glob pattern: src/[");
}

#[test]
fn durations_are_written_as_in_the_build_file() {
    assert_eq!(duration_text(0), "0s");
    assert_eq!(duration_text(30), "30s");
    assert_eq!(duration_text(300), "5m");
    assert_eq!(duration_text(3600), "1h");
    assert_eq!(duration_text(5400), "1h30m");
    assert_eq!(duration_text(7510), "2h5m10s");
    assert_eq!(duration_text(3601), "1h1s");
    for n in [0u64, 7, 61, 3599, 86_400, 90_061] {
        assert_eq!(parse_duration(&duration_text(n)).unwrap(), Duration::from_secs(n));
    }
}

#[test]
fn default_profile_applies_when_present() {
    let mut bf = build_file(vec![("build", raw(&["true"]))]);
    assert!(!apply_default_profile(&mut bf));
    assert_eq!(bf.config.jobs, None);
    bf.config.profiles.push(
        "default".to_string(),
        Profile { default: None, jobs: Some(3), env: vec!["HOME".to_string()], trust: false, vars: StrMap::new() },
    );
    assert!(apply_default_profile(&mut bf));
    assert_eq!(bf.config.jobs, Some(3));
    assert_eq!(bf.config.env, ["HOME"]);
    assert!(!bf.config.keep_going);
}

#[test]
fn shell_commands_do_not_read_the_environment() {
    let mut r = raw(&["echo {{HOME}} {{tool}}"]);
    r.shell = true;
    r.on_failure = vec!["echo {{HOME}}".to_string()];
    let mut bf = build_file(vec![("s", r)]);
    bf.vars = map(&[("tool", "cc")]);
    let a = to_rules(&bf, &map(&[("HOME", "/root")])).unwrap();
    let b = to_rules(&bf, &map(&[("HOME", "$(rm -rf /)")])).unwrap();
    assert_eq!(a[0].commands, b[0].commands);
    assert_eq!(a[0].commands, vec![vec!["echo {{HOME}} cc".to_string()]]);
    assert_eq!(a[0].on_failure, b[0].on_failure);
}

#[test]
fn rule_max_time_overrides_the_global_one() {
    let mut fast = raw(&["true"]);
    fast.max_time = Some("5s".to_string());
    let mut bf = build_file(vec![("fast", fast), ("slow", raw(&["true"]))]);
    bf.config.max_time = Some("10m".to_string());
    let rules = to_rules(&bf, &StrMap::new()).unwrap();
    assert_eq!(rules[0].max_time, Some(Duration::from_secs(5)));
    assert_eq!(rules[1].max_time, Some(Duration::from_secs(600)));
    let bf = build_file(vec![("none", raw(&["true"]))]);
    assert_eq!(to_rules(&bf, &StrMap::new()).unwrap()[0].max_time, None);
}
