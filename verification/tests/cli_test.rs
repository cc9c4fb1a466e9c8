use pbuild::cli::{
    command_warnings, completion_script, completion_shell, extract_profile, find_assignment, make_vars_to_pbuild,
    parse_args, refusals, safety_warnings, shell_split, subcommand, suggest_command, Command, Project, Shell,
};
use pbuild::strmap::StrMap;
use pbuild::types::{OutputMode, Rule, Target};

fn argv(v: &[&str]) -> Vec<String> {
    v.iter().map(|s| s.to_string()).collect()
}

#[test]
fn profile_found_in_any_form() {
    assert_eq!(extract_profile(&argv(&["build", "--profile", "ci"])), Some("ci"));
    assert_eq!(extract_profile(&argv(&["-p", "dev", "x"])), Some("dev"));
    assert_eq!(extract_profile(&argv(&["--profile=rel"])), Some("rel"));
    assert_eq!(extract_profile(&argv(&["build", "-p"])), None);
    assert_eq!(extract_profile(&argv(&["build"])), None);
}

#[test]
fn assignments_found_longest_operator_first() {
    assert_eq!(
        find_assignment("CC := gcc"),
        Some(("CC ".to_string(), ":=", " gcc".to_string()))
    );
    assert_eq!(find_assignment("X ?= 1"), Some(("X ".to_string(), "?=", " 1".to_string())));
    assert_eq!(find_assignment("Y += a=b"), Some(("Y ".to_string(), "+=", " a=b".to_string())));
    assert_eq!(find_assignment("Z=1"), Some(("Z".to_string(), "=", "1".to_string())));
    assert_eq!(find_assignment("all: x=1"), None);
    assert_eq!(find_assignment("all: deps"), None);
}

#[test]
fn make_references_become_placeholders() {
    assert_eq!(make_vars_to_pbuild("$(CC) -o ${OUT} main.c"), "{{CC}} -o {{OUT}} main.c");
    assert_eq!(make_vars_to_pbuild("$(shell date) $(X"), "$(shell date) $(X");
    assert_eq!(make_vars_to_pbuild("cost $5"), "cost $5");
}

#[test]
fn non_ascii_text_is_copied_unchanged() {
    assert_eq!(make_vars_to_pbuild("é"), "é");
    assert_eq!(make_vars_to_pbuild("$(CC) -c ${SRC} $(shell date) café"), "{{CC}} -c {{SRC}} $(shell date) café");
    assert_eq!(make_vars_to_pbuild("$(é)"), "{{é}}");
}

#[test]
fn shell_split_handles_quotes_and_shell_syntax() {
    assert_eq!(shell_split("cc -o 'my app' \"a b\"  main.c"), ["cc", "-o", "my app", "a b", "main.c"]);
    assert_eq!(shell_split("make && make install"), ["make && make install"]);
    assert_eq!(shell_split("echo hi; ls"), ["echo hi; ls"]);
    assert_eq!(shell_split("a | b"), ["a | b"]);
    assert_eq!(shell_split("it's \"x'y\""), ["its \"xy"]);
    assert!(shell_split("   ").is_empty());
}

fn rule(target: &str, shell: bool, commands: Vec<Vec<&str>>) -> Rule {
    Rule {
        target: Target::Task(target.into()),
        deps: vec![],
        inputs: vec![],
        output: String::new(),
        depfile: None,
        commands: commands.into_iter().map(|c| argv(&c)).collect(),
        shell,
        dir: None,
        subdir: None,
        makedir: None,
        description: None,
        group: None,
        env: StrMap::new(),
        tty: false,
        cache: true,
        for_each: None,
        progress: OutputMode::Display,
        downloads: vec![],
        max_time: None,
        retry: 0,
        on_failure: vec![],
    }
}

#[test]
fn dangerous_commands_are_flagged() {
    let rules = vec![
        rule("up", false, vec![vec!["/usr/bin/sudo", "apt", "upgrade"], vec!["cp", "x", "/etc/hosts", "/usr/y"]]),
        rule("wipe", true, vec![vec!["rm", "-rf", "build", "| sh"]]),
        rule("fine", false, vec![vec!["cargo", "build"]]),
    ];
    assert_eq!(
        safety_warnings(&rules),
        [
            "rule `up` runs `sudo` which requires elevated privileges or modifies system state",
            "rule `up` writes to system path `/etc/hosts`",
            "rule `wipe` contains `rm -rf` in a shell command",
        ]
    );
}

#[test]
fn one_warning_per_offending_command() {
    let rules = vec![rule("install", false, vec![vec!["sudo", "cp", "app", "/usr/bin/app"]])];
    assert_eq!(
        safety_warnings(&rules),
        ["rule `install` runs `sudo` which requires elevated privileges or modifies system state"]
    );
}

#[test]
fn program_name_falls_back_to_the_token() {
    assert_eq!(
        command_warnings("r", false, &argv(&["..", "a"]), None),
        Vec::<String>::new()
    );
    assert_eq!(
        command_warnings("r", false, &argv(&["chmod", "+x", "f"]), None),
        ["rule `r` runs `chmod` which requires elevated privileges or modifies system state"]
    );
}

#[test]
fn suggestions_follow_project_kind() {
    let cargo = Project { cargo: true, npm: true, python: false, go: false };
    let npm = Project { cargo: false, npm: true, python: true, go: false };
    let none = Project { cargo: false, npm: false, python: false, go: false };
    assert_eq!(suggest_command("build", &cargo), "cargo build");
    assert_eq!(suggest_command("tests", &npm), "npm test");
    assert_eq!(suggest_command("release", &npm), "");
    assert_eq!(suggest_command("clean", &none), "");
    assert_eq!(suggest_command("serve", &npm), "npm start");
    assert_eq!(suggest_command("mystery", &cargo), "");
}

#[test]
fn completion_shells() {
    assert!(matches!(completion_shell("fish"), Ok(Shell::Fish)));
    assert!(matches!(completion_shell("zsh"), Ok(Shell::Zsh)));
    assert_eq!(
        completion_shell("powershell").err().unwrap(),
        "unknown shell `powershell` — supported: fish, bash, zsh"
    );
}

#[test]
fn build_options_parsed() {
    let a = parse_args(&argv(&["run", "-n", "-j8", "--profile", "ci", "app", "--", "x", "-v"])).unwrap();
    assert!(a.dry_run && !a.verbose);
    assert_eq!(a.jobs, Some(8));
    assert_eq!(a.profile.as_deref(), Some("ci"));
    assert_eq!(a.target.as_deref(), Some("app"));
    assert_eq!(a.extra_args, ["x", "-v"]);
    let b = parse_args(&argv(&["--jobs", "3", "-k", "--only", "a", "b"])).unwrap();
    assert_eq!(b.jobs, Some(3));
    assert!(b.keep_going && b.only);
    assert_eq!(b.target.as_deref(), Some("b"));
}

#[test]
fn bad_options_are_errors() {
    assert_eq!(parse_args(&argv(&["-j"])).err().unwrap(), "-j requires a value");
    assert_eq!(parse_args(&argv(&["-j", "many"])).err().unwrap(), "-j requires a positive integer");
    assert_eq!(parse_args(&argv(&["-jx"])).err().unwrap(), "-j requires a positive integer");
    assert_eq!(parse_args(&argv(&["--log"])).err().unwrap(), "--log requires a file path");
    assert_eq!(parse_args(&argv(&["-p"])).err().unwrap(), "--profile requires a name");
}

#[test]
fn subcommands_detected() {
    assert!(matches!(
        subcommand(&argv(&["why", "-p", "ci", "ci", "app"])).unwrap(),
        Command::Why(t, Some(p), false) if t == "app" && p == "ci"
    ));
    assert_eq!(subcommand(&argv(&["why"])).err().unwrap(), "usage: pbuild why <target>");
    assert!(matches!(subcommand(&argv(&["status"])).unwrap(), Command::Status(None, None, false)));
    assert!(matches!(subcommand(&argv(&["import"])).unwrap(), Command::Import(f) if f == "Makefile"));
    assert!(matches!(subcommand(&argv(&["clean"])).unwrap(), Command::Build));
    assert!(matches!(subcommand(&argv(&["clean", "app"])).unwrap(), Command::CleanTarget(t) if t == "app"));
    assert!(matches!(
        subcommand(&argv(&["graph", "--dot", "app"])).unwrap(),
        Command::Graph(true, false, Some(t)) if t == "app"
    ));
    assert!(matches!(subcommand(&argv(&["-v", "--completion", "bash"])).unwrap(), Command::Completion(s) if s == "bash"));
    assert_eq!(
        subcommand(&argv(&["--completion"])).err().unwrap(),
        "--completion requires a shell (fish, bash, zsh)"
    );
    assert_eq!(subcommand(&argv(&["touch"])).err().unwrap(), "usage: pbuild touch <target>");
}

#[test]
fn quiet_flag_and_more_subcommands() {
    let a = parse_args(&argv(&["-q", "build"])).unwrap();
    assert!(a.quiet && !a.verbose);
    assert!(parse_args(&argv(&["--quiet"])).unwrap().quiet);
    assert!(!parse_args(&argv(&["build"])).unwrap().quiet);
    assert!(matches!(subcommand(&argv(&["doctor"])).unwrap(), Command::Doctor));
    assert!(matches!(subcommand(&argv(&["retry"])).unwrap(), Command::Retry));
    assert!(matches!(subcommand(&argv(&["build", "doctor"])).unwrap(), Command::Build));
}

#[test]
fn json_explain_and_version_options() {
    assert!(matches!(
        subcommand(&argv(&["why", "--json", "build"])).unwrap(),
        Command::Why(t, None, true) if t == "build"
    ));
    assert!(matches!(subcommand(&argv(&["status", "--json"])).unwrap(), Command::Status(None, None, true)));
    assert!(matches!(
        subcommand(&argv(&["graph", "--json", "b"])).unwrap(),
        Command::Graph(false, true, Some(t)) if t == "b"
    ));
    assert!(matches!(subcommand(&argv(&["graph", "--dot"])).unwrap(), Command::Graph(true, false, None)));
    let a = parse_args(&argv(&["--explain", "build"])).unwrap();
    assert!(a.explain && !a.version);
    assert_eq!(a.target.as_deref(), Some("build"));
    assert!(parse_args(&argv(&["--version"])).unwrap().version);
}

#[test]
fn every_target_is_kept_in_order() {
    let a = parse_args(&argv(&["fmt", "-v", "lint", "test", "--", "x"])).unwrap();
    assert_eq!(a.targets, ["fmt", "lint", "test"]);
    assert_eq!(a.target.as_deref(), Some("test"));
    assert!(parse_args(&argv(&["-n"])).unwrap().targets.is_empty());
}

#[test]
fn trusted_commands_are_not_refused() {
    let rules = vec![rule("install", false, vec![vec!["sudo", "cp", "app", "/usr/bin/app"]])];
    assert_eq!(refusals(&rules, false, false).len(), 1);
    assert!(refusals(&rules, true, false).is_empty());
    assert!(refusals(&rules, false, true).is_empty());
}

#[test]
fn completion_fish_is_valid_text() {
    let script = completion_script(completion_shell("fish").unwrap());
    assert!(script.contains("complete -c pbuild"), "expected fish complete directives: {script}");
    assert!(script.contains("__pbuild_targets"), "expected target helper function: {script}");
    assert!(!script.contains("$(rm"), "must not contain dangerous subshell");
    assert!(!script.contains("eval "), "must not contain eval");
}

#[test]
fn completion_bash_is_valid_text() {
    let script = completion_script(completion_shell("bash").unwrap());
    assert!(script.contains("_pbuild_complete"), "expected bash function: {script}");
    assert!(script.contains("complete -F _pbuild_complete pbuild"), "expected complete directive: {script}");
}

#[test]
fn completion_zsh_is_valid_text() {
    let script = completion_script(completion_shell("zsh").unwrap());
    assert!(script.contains("#compdef pbuild"), "expected zsh compdef: {script}");
    assert!(script.contains("_pbuild"), "expected zsh function: {script}");
}

#[test]
fn completion_unknown_shell_fails() {
    let err = match completion_shell("powershell") {
        Ok(_) => panic!("expected an error for an unknown shell"),
        Err(e) => e,
    };
    assert!(err.contains("powershell"), "expected shell name in error: {err}");
}
