use pbuild::templates::{detect_template, init_text, ProjectFiles};

fn nothing() -> ProjectFiles {
    ProjectFiles {
        cargo: false,
        workspace: false,
        npm: false,
        python: false,
        make: false,
        go: false,
        cmake: false,
        venv: false,
        yarn: false,
        pnpm: false,
        pytest: false,
    }
}

const STARTER_RULES: &str = "[build]\ngroup       = \"Build\"\ndescription = \"Build the project\"\ntype        = \"task\"\ncommand     = [\"echo\", \"replace me with your build command\"]\n\n[test]\ngroup       = \"Build\"\ndescription = \"Run tests\"\ntype        = \"task\"\ncommand     = [\"echo\", \"replace me with your test command\"]\n\n[clean]\ndescription = \"Remove build artifacts\"\ntype        = \"task\"\ncommand     = [\"echo\", \"replace me with your clean command\"]\n";

#[test]
fn init_template_defaults_to_build() {
    let t = init_text();
    assert!(t.starts_with("# pbuild.toml\n#\n# Run `pbuild --list` to see all targets.\n"));
    assert!(t.contains("[config]\ndefault = \"build\"           # target to build when none is specified\n"));
    assert!(t.ends_with(STARTER_RULES));
}

#[test]
fn empty_directory_gets_the_starter_rules() {
    let t = detect_template(&nothing());
    assert_eq!(t, format!("# pbuild.toml\n\n[config]\ndefault = \"build\"\n\n{STARTER_RULES}"));
}

#[test]
fn cargo_workspace_builds_every_member() {
    let p = ProjectFiles { cargo: true, workspace: true, ..nothing() };
    let t = detect_template(&p);
    assert!(t.starts_with("# pbuild.toml\n# Detected: Cargo workspace\n\n[config]\ndefault = \"build\"\n\n[vars]\ncargo = \"cargo\"\n"));
    assert!(t.contains("command     = [\"{{cargo}}\", \"build\", \"--release\", \"--workspace\"]\n"));
    assert!(!t.contains("maturin"));
}

#[test]
fn cargo_with_python_is_a_maturin_project() {
    let p = ProjectFiles { cargo: true, python: true, venv: true, ..nothing() };
    let t = detect_template(&p);
    assert!(t.starts_with("# pbuild.toml\n# Detected: Cargo, Python\n"));
    assert!(t.contains("python = \".venv/bin/python\"\n"));
    assert!(t.contains("command     = [\"maturin\", \"develop\", \"--release\"]\n"));
    assert!(!t.contains("Build in release mode"));
}

#[test]
fn npm_uses_the_lock_files_package_manager() {
    let p = ProjectFiles { npm: true, yarn: true, ..nothing() };
    let t = detect_template(&p);
    assert!(t.contains("command     = [\"yarn build\"]\n"));
    assert!(t.contains("command     = [\"yarn\", \"install\"]\n"));
    let p = ProjectFiles { npm: true, ..nothing() };
    assert!(detect_template(&p).contains("command     = [\"npm run build\"]\n"));
}

#[test]
fn python_tests_with_pytest_when_configured() {
    let p = ProjectFiles { python: true, pytest: true, ..nothing() };
    let t = detect_template(&p);
    assert!(t.contains("command     = [\"python3 -m pytest\"]\n"));
    let p = ProjectFiles { python: true, venv: true, ..nothing() };
    assert!(detect_template(&p).contains("command     = [\".venv/bin/python -m unittest discover\"]\n"));
}

#[test]
fn several_kinds_are_all_listed() {
    let p = ProjectFiles { go: true, cmake: true, make: true, ..nothing() };
    let t = detect_template(&p);
    assert!(t.starts_with("# pbuild.toml\n# Detected: Go, CMake, Makefile\n"));
    assert!(t.contains("command     = [\"go\", \"build\", \"./...\"]\n"));
    assert!(!t.contains("cmake -B build"));
    assert!(!t.contains("delegates to make"));
}

#[test]
fn plain_makefile_delegates_to_make() {
    let p = ProjectFiles { make: true, ..nothing() };
    let t = detect_template(&p);
    assert!(t.contains("description = \"Build (delegates to make)\"\n"));
    assert!(!t.contains("replace me"));
}

#[test]
fn python_alone_has_a_build_rule() {
    let p = ProjectFiles { python: true, ..nothing() };
    let t = detect_template(&p);
    assert!(t.contains("[build]\n"));
    assert!(t.contains("command     = [\"{{python}}\", \"-m\", \"build\"]\n"));
}

#[test]
fn every_detected_file_parses_and_has_its_default_rule() {
    for bits in 0u32..(1 << 11) {
        let b = |k: u32| bits & (1 << k) != 0;
        let p = ProjectFiles {
            cargo: b(0),
            workspace: b(1),
            npm: b(2),
            python: b(3),
            make: b(4),
            go: b(5),
            cmake: b(6),
            venv: b(7),
            yarn: b(8),
            pnpm: b(9),
            pytest: b(10),
        };
        let t = detect_template(&p);
        let table: toml::Table = toml::from_str(&t).unwrap_or_else(|e| panic!("{bits}: {e}\n{t}"));
        let default = table["config"]["default"].as_str().unwrap();
        assert!(table.contains_key(default), "{bits}: no [{default}]\n{t}");
    }
}
