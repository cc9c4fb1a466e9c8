use pbuild::ui::UiConfig;

fn plain() -> UiConfig {
    UiConfig { color: None, prefix: None }
}

fn strings(v: &[&str]) -> Vec<String> {
    v.iter().map(|s| s.to_string()).collect()
}

#[test]
fn color_follows_the_terminal_unless_forced() {
    assert!(plain().colors(true));
    assert!(!plain().colors(false));
    assert!(UiConfig { color: Some(true), prefix: None }.colors(false));
    assert!(!UiConfig { color: Some(false), prefix: None }.colors(true));
}

#[test]
fn prefix_defaults_to_an_angle() {
    assert_eq!(plain().prefix(), "›");
    assert_eq!(UiConfig { color: None, prefix: Some(">>".to_string()) }.prefix(), ">>");
}

#[test]
fn lines_without_color() {
    let ui = plain();
    let cmd = strings(&["cargo", "build", "--release"]);
    assert_eq!(ui.start_lines("build", false), ("› build".to_string(), "› build".to_string()));
    assert_eq!(ui.command_lines(&cmd, false).0, "    $ cargo build --release");
    assert_eq!(ui.skip_lines("build", false).0, "– build");
    assert_eq!(ui.dry_run_lines(&cmd, false).0, "    dry cargo build --release");
    assert_eq!(ui.done_lines("build", "0.31s", false).0, "  ✓ build  0.31s");
    assert_eq!(ui.fail_lines("build", false).0, "  ✗ build");
    assert_eq!(ui.retry_lines("fetch", 2, 4, false).0, "  ↻ fetch  (attempt 2/4)");
    assert_eq!(ui.env_dirty_lines(false).0, "  env vars changed — rebuilding all");
    assert_eq!(ui.timeout_lines("test", "5m", false).0, "  ✗ test  timed out after 5m");
    assert_eq!(
        UiConfig { color: Some(true), prefix: None }.timeout_lines("test", "1h30m", false),
        ("  \x1b[31m✗\x1b[0m test  timed out after 1h30m".to_string(), "  ✗ test  timed out after 1h30m".to_string())
    );
}

#[test]
fn colored_lines_log_without_codes() {
    let ui = UiConfig { color: None, prefix: Some("»".to_string()) };
    let cmd = strings(&["make"]);
    assert_eq!(ui.start_lines("app", true), ("\x1b[1m»\x1b[0m app".to_string(), "» app".to_string()));
    assert_eq!(
        ui.command_lines(&cmd, true),
        ("    \x1b[2m$\x1b[0m \x1b[2mmake\x1b[0m".to_string(), "    $ make".to_string())
    );
    assert_eq!(
        ui.done_lines("app", "1.00s", true),
        ("  \x1b[32m✓\x1b[0m app  \x1b[2m1.00s\x1b[0m".to_string(), "  ✓ app  1.00s".to_string())
    );
    assert_eq!(ui.fail_lines("app", true).0, "  \x1b[31m✗\x1b[0m app");
    assert_eq!(
        ui.retry_lines("app", 3, 10, true),
        ("  \x1b[33m↻\x1b[0m app  (attempt 3/10)".to_string(), "  ↻ app  (attempt 3/10)".to_string())
    );
    assert_eq!(ui.dry_run_lines(&cmd, true).0, "    \x1b[33mdry\x1b[0m \x1b[2mmake\x1b[0m");
    assert_eq!(ui.skip_lines("app", true).0, "\x1b[2m–\x1b[0m app");
    assert_eq!(ui.env_dirty_lines(true).1, "  env vars changed — rebuilding all");
}

#[test]
fn percent_progress_counts_files() {
    let ui = plain();
    assert_eq!(ui.progress_lines("bench", 42, 1000, true).0, "    [42/1000] 4%  bench");
    assert_eq!(ui.progress_lines("bench", 3, 3, false).1, "    [3/3] 100%  bench");
    assert_eq!(ui.progress_lines("b", u64::MAX, u64::MAX, false).0, format!("    [{0}/{0}] 100%  b", u64::MAX));
}
