use pbuild::engine::{
    after_command, after_failure, all_inputs, extra_args_for, retry_target, file_commands, any_dirty, check_status, dirty_reason, dry_run_commands, effective_commands,
    final_commands, needs_run, output_route, paths_to_hash, record_success, shows_output, Config, OutputRoute, Retry, Step,
    Scheduler,
};
use pbuild::graph::build_plan;
use pbuild::hash::is_dirty;
use pbuild::strmap::StrMap;
use pbuild::types::{OutputMode, Rule, Target};

fn mk_task(target: Target, deps: Vec<Target>, command: Vec<&str>) -> Rule {
    Rule {
        target,
        deps,
        inputs: vec![],
        output: String::new(),
        depfile: None,
        commands: vec![command.into_iter().map(ToString::to_string).collect()],
        shell: false,
        dir: None,
        subdir: None,
        makedir: None,
        description: None,
        group: None,
        env: StrMap::new(),
        tty: false,
        cache: true,
        for_each: None,
        progress: OutputMode::Display,
        downloads: vec![],
        max_time: None,
        retry: 0,
        on_failure: vec![],
    }
}

fn strings(v: &[&str]) -> Vec<String> {
    v.iter().map(|s| s.to_string()).collect()
}

#[test]
fn missing_input_file_is_always_dirty() {
    let mut lf = StrMap::new();
    lf.insert("/tmp/pbuild-nonexistent-xyz".to_string(), "somehash".to_string());
    assert!(is_dirty(&lf, "/tmp/pbuild-nonexistent-xyz", None));
}

#[test]
fn default_config() {
    let c = Config::default();
    assert_eq!(c.jobs, 4);
    assert!(!c.dry_run && !c.verbose && !c.keep_going && !c.quiet);
    assert!(c.env.is_empty() && c.extra_args.is_empty() && c.targets.is_empty());
}

#[test]
fn extra_args_go_to_the_requested_target_only() {
    let app = mk_task(Target::File("app".into()), vec![], vec!["cc"]);
    let lib = mk_task(Target::File("lib.o".into()), vec![], vec!["cc"]);
    let targets = vec![Target::File("app".into())];
    let extra = strings(&["-v", "--fast"]);
    assert_eq!(extra_args_for(&app, &targets, &extra), extra);
    assert!(extra_args_for(&lib, &targets, &extra).is_empty());
}

#[test]
fn inputs_merge_remembered_depfile_inputs() {
    let mut rule = mk_task(Target::File("app".into()), vec![], vec!["cc"]);
    rule.inputs = strings(&["main.c"]);
    rule.output = "app".to_string();
    let mut lf = StrMap::new();
    lf.insert("dep:app".to_string(), "a.h\tb.h".to_string());
    assert_eq!(all_inputs(&rule, &lf), ["main.c"]);
    rule.depfile = Some("app.d".to_string());
    assert_eq!(all_inputs(&rule, &lf), ["main.c", "a.h", "b.h"]);
}

#[test]
fn rules_with_no_inputs_are_dirty() {
    let lf = StrMap::new();
    assert!(any_dirty(&lf, &vec![], &vec![]));
}

#[test]
fn clean_inputs_skip_unless_cascade_or_env() {
    let mut lf = StrMap::new();
    lf.insert("a.c".to_string(), "h1".to_string());
    let dep = Target::File("lib".into());
    let mut rule = mk_task(Target::File("app".into()), vec![dep.clone()], vec!["cc"]);
    rule.inputs = strings(&["a.c"]);
    let inputs = strings(&["a.c"]);
    let clean = vec![Some("h1".to_string())];
    let changed = vec![Some("h2".to_string())];
    assert!(!any_dirty(&lf, &inputs, &clean));
    assert!(any_dirty(&lf, &inputs, &changed));
    assert!(!needs_run(&rule, &lf, &inputs, &clean, &vec![], false));
    assert!(needs_run(&rule, &lf, &inputs, &clean, &vec![dep.clone()], false));
    assert!(needs_run(&rule, &lf, &inputs, &clean, &vec![], true));
    assert!(needs_run(&rule, &lf, &inputs, &changed, &vec![], false));
    assert!(!needs_run(&rule, &lf, &inputs, &clean, &vec![Target::Task("lib".into())], false));
}

#[test]
fn dirty_reasons_in_order() {
    let dep = Target::File("lib".into());
    let rule = mk_task(Target::File("app".into()), vec![Target::File("x".into()), dep.clone()], vec!["cc"]);
    let inputs = strings(&["a.c", "b.c"]);
    assert_eq!(dirty_reason(&rule, true, &vec![dep.clone()], &inputs, &vec![true, true]), "env vars changed");
    assert_eq!(dirty_reason(&rule, false, &vec![dep.clone()], &inputs, &vec![true, true]), "dep rebuilt: lib");
    assert_eq!(dirty_reason(&rule, false, &vec![], &inputs, &vec![false, true]), "changed: b.c");
    assert_eq!(dirty_reason(&rule, false, &vec![], &vec![], &vec![]), "no inputs — always runs");
}

#[test]
fn extra_args_replace_placeholder_or_append() {
    let mut rule = mk_task(Target::Task("run".into()), vec![], vec!["prep"]);
    rule.commands.push(strings(&["app", "{{args}}", "--flag"]));
    let extra = strings(&["x", "y"]);
    assert_eq!(
        final_commands(&rule, &extra),
        vec![strings(&["prep"]), strings(&["app", "x", "y", "--flag"])]
    );
    let plain = mk_task(Target::Task("run".into()), vec![], vec!["app"]);
    assert_eq!(final_commands(&plain, &extra), vec![strings(&["app", "x", "y"])]);
    assert_eq!(final_commands(&plain, &vec![]), vec![strings(&["app"])]);
    let mut with_placeholder = mk_task(Target::Task("run".into()), vec![], vec!["app", "{{args}}"]);
    assert_eq!(final_commands(&with_placeholder, &vec![]), vec![strings(&["app"])]);
    with_placeholder.depfile = Some("out.d".to_string());
    assert_eq!(final_commands(&with_placeholder, &vec![]), vec![strings(&["app", "-MF", "out.d"])]);
}

#[test]
fn effective_commands_for_shell_subdir_and_makedir() {
    let mut rule = mk_task(Target::Task("t".into()), vec![], vec!["echo", "a", "|", "wc"]);
    rule.shell = true;
    rule.dir = Some("sub".to_string());
    let cmds = rule.commands.clone();
    let (eff, dir) = effective_commands(&rule, &cmds, false);
    assert_eq!(eff, vec![strings(&["sh", "-c", "echo a | wc"])]);
    assert_eq!(dir.as_deref(), Some("sub"));
    assert_eq!(dry_run_commands(&rule, &cmds), vec![strings(&["echo a | wc"])]);
    rule.subdir = Some("child".to_string());
    let (eff, dir) = effective_commands(&rule, &cmds, true);
    assert_eq!(eff, vec![strings(&["pbuild", "t"])]);
    assert_eq!(dir.as_deref(), Some("child"));
    let (eff, _) = effective_commands(&rule, &cmds, false);
    assert_eq!(eff, vec![strings(&["make", "t"])]);
    rule.subdir = None;
    rule.makedir = Some("mk".to_string());
    let (eff, dir) = effective_commands(&rule, &cmds, true);
    assert_eq!(eff, vec![strings(&["make", "t"])]);
    assert_eq!(dir.as_deref(), Some("mk"));
}

#[test]
fn success_records_hashes_and_depfile_inputs() {
    let mut rule = mk_task(Target::File("app".into()), vec![], vec!["cc"]);
    rule.inputs = strings(&["main.c", ""]);
    rule.output = "app".to_string();
    let discovered = strings(&["a.h"]);
    let paths = paths_to_hash(&rule, &discovered);
    assert_eq!(paths, ["main.c", "a.h", "app"]);
    let mut lf = StrMap::new();
    lf.insert("old".to_string(), "x".to_string());
    let hashes = vec![Some("h1".to_string()), None, Some("h3".to_string())];
    record_success(&mut lf, &paths, &hashes, "app", &discovered);
    assert_eq!(lf.get("main.c").map(|s| s.as_str()), Some("h1"));
    assert_eq!(lf.get("a.h"), None);
    assert_eq!(lf.get("app").map(|s| s.as_str()), Some("h3"));
    assert_eq!(lf.get("dep:app").map(|s| s.as_str()), Some("a.h"));
    assert_eq!(lf.get("old").map(|s| s.as_str()), Some("x"));
}

#[test]
fn status_reports_each_rule() {
    let mut a = mk_task(Target::File("a".into()), vec![], vec!["true"]);
    a.inputs = strings(&["a.c"]);
    let b = mk_task(Target::Task("b".into()), vec![], vec!["true"]);
    let mut lf = StrMap::new();
    lf.insert("a.c".to_string(), "h".to_string());
    let status = check_status(&vec![a, b], &lf, &vec![vec![Some("h".to_string())], vec![]]);
    assert_eq!(status, vec![("a".to_string(), false), ("b".to_string(), true)]);
}

#[test]
fn execution_order_respects_dependencies() {
    let a = Target::Task("a".into());
    let b = Target::Task("b".into());
    let c = Target::Task("c".into());
    let rules = vec![
        mk_task(c.clone(), vec![b.clone()], vec!["true"]),
        mk_task(a.clone(), vec![], vec!["true"]),
        mk_task(b.clone(), vec![a.clone()], vec!["true"]),
    ];
    let plan = build_plan(&rules, &c).unwrap();
    let mut s = Scheduler::new(plan);
    let mut order = Vec::new();
    while let Some(wave) = s.next_wave().unwrap() {
        assert_eq!(wave.len(), 1);
        for r in &wave {
            order.push(r.target.clone());
            s.finished(&r.target, true);
        }
    }
    assert_eq!(order, [a.clone(), b.clone(), c.clone()]);
    assert_eq!(s.rebuilt().clone(), vec![a, b, c]);
    assert!(s.finish().is_ok());
}

#[test]
fn independent_rules_share_a_wave() {
    let fail = Target::Task("fail".into());
    let ok = Target::Task("ok".into());
    let root = Target::Task("root".into());
    let rules = vec![
        mk_task(fail.clone(), vec![], vec!["false"]),
        mk_task(ok.clone(), vec![], vec!["true"]),
        mk_task(root.clone(), vec![fail.clone(), ok.clone()], vec!["true"]),
    ];
    let plan = build_plan(&rules, &root).unwrap();
    let mut s = Scheduler::new(plan);
    let wave = s.next_wave().unwrap().unwrap();
    let names: Vec<_> = wave.iter().map(|r| r.target.clone()).collect();
    assert_eq!(names, [fail.clone(), ok.clone()]);
    s.failed();
    s.finished(&ok, false);
    assert!(s.rebuilt().is_empty());
    // `root` waits on the failed rule: the schedule stops without a deadlock error.
    assert!(s.next_wave().unwrap().is_none());
    assert_eq!(s.finish().unwrap_err(), "1 rule(s) failed");
}

#[test]
fn unsatisfiable_plan_is_a_deadlock() {
    let a = Target::Task("a".into());
    let rules = vec![mk_task(a.clone(), vec![Target::Task("nowhere".into())], vec!["true"])];
    let mut s = Scheduler::new(rules);
    assert_eq!(s.next_wave().unwrap_err(), "dependency deadlock — build plan may be invalid");
}

#[test]
fn uncached_rule_always_runs() {
    let mut lf = StrMap::new();
    lf.insert("a.c".to_string(), "h1".to_string());
    let mut rule = mk_task(Target::Task("t".into()), vec![], vec!["true"]);
    rule.inputs = strings(&["a.c"]);
    let inputs = strings(&["a.c"]);
    let clean = vec![Some("h1".to_string())];
    assert!(!needs_run(&rule, &lf, &inputs, &clean, &vec![], false));
    rule.cache = false;
    assert!(needs_run(&rule, &lf, &inputs, &clean, &vec![], false));
    assert_eq!(dirty_reason(&rule, false, &vec![], &inputs, &vec![false]), "cache = false — always runs");
    assert_eq!(dirty_reason(&rule, false, &vec![], &inputs, &vec![true]), "changed: a.c");
}

#[test]
fn retries_follow_the_count_but_never_a_timeout() {
    // `retry = 3`: four attempts in all.
    assert!(matches!(after_failure(1, 3, false), Retry::Again(2)));
    assert!(matches!(after_failure(3, 3, false), Retry::Again(4)));
    assert!(matches!(after_failure(4, 3, false), Retry::GiveUp));
    assert!(matches!(after_failure(1, 0, false), Retry::GiveUp));
    assert!(matches!(after_failure(1, 3, true), Retry::GiveUp));
    assert!(matches!(after_failure(u64::from(u32::MAX), u32::MAX, false), Retry::Again(n) if n == 1 << 32));
}

#[test]
fn output_routes_and_muting() {
    let mut rule = mk_task(Target::Task("t".into()), vec![], vec!["true"]);
    assert!(matches!(output_route(&rule, true), OutputRoute::Stream));
    assert!(matches!(output_route(&rule, false), OutputRoute::Capture));
    rule.progress = OutputMode::Mute;
    assert!(matches!(output_route(&rule, true), OutputRoute::Capture));
    assert!(!shows_output(&rule, false));
    assert!(shows_output(&rule, true));
    rule.tty = true;
    assert!(matches!(output_route(&rule, false), OutputRoute::Terminal));
    rule.progress = OutputMode::Percent;
    assert!(shows_output(&rule, false));
}

#[test]
fn for_each_commands_name_the_file() {
    let cmds = vec![strings(&["./solver", "{{file}}", "{{other}}"]), strings(&["sh", "-c", "wc -l {{file}} > {{file}}.out"])];
    assert_eq!(
        file_commands(&cmds, "bench/a.cnf"),
        [
            strings(&["./solver", "bench/a.cnf", "{{other}}"]),
            strings(&["sh", "-c", "wc -l bench/a.cnf > bench/a.cnf.out"]),
        ]
    );
}

#[test]
fn retry_runs_the_failed_rule_only_with_keep_going() {
    let failed = Target::File("lib.o".into());
    let root = Target::Task("all".into());
    assert_eq!(retry_target(true, &failed, &root), "lib.o");
    assert_eq!(retry_target(false, &failed, &root), "all");
}

#[test]
fn an_attempt_stops_at_the_first_failing_command() {
    assert!(matches!(after_command(0, 3, true), Step::Next(1)));
    assert!(matches!(after_command(1, 3, false), Step::Failed));
    assert!(matches!(after_command(2, 3, true), Step::Succeeded));
    assert!(matches!(after_command(0, 1, false), Step::Failed));
}
