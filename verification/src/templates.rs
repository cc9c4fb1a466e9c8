//! The starter build files that `pbuild init` writes, plain or tailored
//! to the kind of project found in the directory.

use vstd::prelude::*;
use vstd::string::StringExecFns;

use crate::text::{join_str, join_strings, views};

verus! {

/// One table of a build file: its header, then the lines under it.
pub open spec fn table_text(t: (Seq<char>, Seq<char>)) -> Seq<char> {
    "["@ + t.0 + "]\n"@ + t.1
}

/// Tables one after the other.
pub open spec fn tables_text(ts: Seq<(Seq<char>, Seq<char>)>) -> Seq<char>
    decreases ts.len(),
{
    if ts.len() == 0 {
        seq![]
    } else {
        tables_text(ts.drop_last()) + table_text(ts.last())
    }
}

/// The names of tables.
pub open spec fn table_names(ts: Seq<(Seq<char>, Seq<char>)>) -> Seq<Seq<char>> {
    ts.map_values(|t: (Seq<char>, Seq<char>)| t.0)
}

/// The first `k` tables are the first `k - 1` and the `k`-th.
proof fn lemma_tables_step(ts: Seq<(Seq<char>, Seq<char>)>, k: int)
    requires
        1 <= k <= ts.len(),
    ensures
        tables_text(ts.take(k)) == tables_text(ts.take(k - 1)) + "["@ + ts[k - 1].0 + "]\n"@ + ts[k - 1].1,
{
    assert(ts.take(k).drop_last() =~= ts.take(k - 1));
    assert(ts.take(k).last() == ts[k - 1]);
}

/// Appends the header of the table `name`.
fn push_table_head(out: &mut String, name: &str)
    ensures
        final(out)@ == old(out)@ + "["@ + name@ + "]\n"@,
{
    let ghost start = out@;
    out.append("[");
    out.append(name);
    out.append("]\n");
    assert(out@ =~= start + "["@ + name@ + "]\n"@);
}

/// The opening lines: a comment naming the detected project kinds, and `[config]` with `default = "build"`.
pub open spec fn header_section(detected_str: Seq<char>) -> Seq<char> {
    "# pbuild.toml\n"@
        + detected_str
        + "\n[config]\ndefault = \"build\"\n\n"@
}

/// Appends `header_section`.
fn push_header_section(out: &mut String, detected_str: &str)
    ensures
        final(out)@ == old(out)@ + header_section(detected_str@),
{
    let ghost start = out@;
    out.append("# pbuild.toml\n");
    out.append(detected_str);
    out.append("\n[config]\ndefault = \"build\"\n\n");
    assert(out@ =~= start + header_section(detected_str@));
}

/// The tables of `cargo_section`, each a name and the lines under its header.
pub open spec fn cargo_tables(ws_flag: Seq<char>) -> Seq<(Seq<char>, Seq<char>)> {
    seq![
        ("vars"@, "cargo = \"cargo\"\n\n"@),
        ("build"@, "group       = \"Build\"\ndescription = \"Build in release mode\"\ntype        = \"task\"\ninputs      = [\"src/**/*.rs\", \"Cargo.toml\", \"Cargo.lock\"]\ncommand     = [\"{{cargo}}\", \"build\", \"--release\""@ + ws_flag + "]\n\n"@),
        ("check"@, "group       = \"Build\"\ndescription = \"Fast type-check\"\ntype        = \"task\"\ninputs      = [\"src/**/*.rs\", \"Cargo.toml\"]\ncommand     = [\"{{cargo}}\", \"check\""@ + ws_flag + "]\n\n"@),
        ("test"@, "group       = \"Build\"\ndescription = \"Run tests\"\ntype        = \"task\"\ninputs      = [\"src/**/*.rs\", \"Cargo.toml\"]\ncommand     = [\"{{cargo}}\", \"test\""@ + ws_flag + "]\n\n"@),
        ("clippy"@, "group       = \"Quality\"\ndescription = \"Run clippy linter\"\ntype        = \"task\"\ninputs      = [\"src/**/*.rs\", \"Cargo.toml\"]\ncommand     = [\"{{cargo}}\", \"clippy\""@ + ws_flag + ", \"--\", \"-D\", \"warnings\"]\n\n"@),
        ("fmt"@, "group       = \"Quality\"\ndescription = \"Format code\"\ntype        = \"task\"\ncommand     = [\"{{cargo}}\", \"fmt\"]\n\n"@),
        ("fmt-check"@, "group       = \"Quality\"\ndescription = \"Check formatting\"\ntype        = \"task\"\ninputs      = [\"src/**/*.rs\"]\ncommand     = [\"{{cargo}}\", \"fmt\", \"--\", \"--check\"]\n\n"@),
        ("clean"@, "description = \"Remove build artifacts\"\ntype        = \"task\"\ncommand     = [\"{{cargo}}\", \"clean\"]\n"@),
    ]
}

/// Rules for a Rust project built with Cargo (`ws_flag` adds a `"--workspace"` argument for a workspace).
pub open spec fn cargo_section(ws_flag: Seq<char>) -> Seq<char> {
    tables_text(cargo_tables(ws_flag))
}

/// Appends `cargo_section`.
#[verifier::rlimit(100)]
#[verifier::spinoff_prover]
fn push_cargo_section(out: &mut String, ws_flag: &str)
    ensures
        final(out)@ == old(out)@ + cargo_section(ws_flag@),
{
    let ghost start = out@;
    let ghost ts = cargo_tables(ws_flag@);
    push_table_head(out, "vars");
    out.append("cargo = \"cargo\"\n\n");
    proof {
        lemma_tables_step(ts, 1);
    }
    assert(out@ =~= start + tables_text(ts.take(1)));
    push_table_head(out, "build");
    out.append("group       = \"Build\"\ndescription = \"Build in release mode\"\ntype        = \"task\"\ninputs      = [\"src/**/*.rs\", \"Cargo.toml\", \"Cargo.lock\"]\ncommand     = [\"{{cargo}}\", \"build\", \"--release\"");
    out.append(ws_flag);
    out.append("]\n\n");
    proof {
        lemma_tables_step(ts, 2);
    }
    assert(out@ =~= start + tables_text(ts.take(2)));
    push_table_head(out, "check");
    out.append("group       = \"Build\"\ndescription = \"Fast type-check\"\ntype        = \"task\"\ninputs      = [\"src/**/*.rs\", \"Cargo.toml\"]\ncommand     = [\"{{cargo}}\", \"check\"");
    out.append(ws_flag);
    out.append("]\n\n");
    proof {
        lemma_tables_step(ts, 3);
    }
    assert(out@ =~= start + tables_text(ts.take(3)));
    push_table_head(out, "test");
    out.append("group       = \"Build\"\ndescription = \"Run tests\"\ntype        = \"task\"\ninputs      = [\"src/**/*.rs\", \"Cargo.toml\"]\ncommand     = [\"{{cargo}}\", \"test\"");
    out.append(ws_flag);
    out.append("]\n\n");
    proof {
        lemma_tables_step(ts, 4);
    }
    assert(out@ =~= start + tables_text(ts.take(4)));
    push_table_head(out, "clippy");
    out.append("group       = \"Quality\"\ndescription = \"Run clippy linter\"\ntype        = \"task\"\ninputs      = [\"src/**/*.rs\", \"Cargo.toml\"]\ncommand     = [\"{{cargo}}\", \"clippy\"");
    out.append(ws_flag);
    out.append(", \"--\", \"-D\", \"warnings\"]\n\n");
    proof {
        lemma_tables_step(ts, 5);
    }
    assert(out@ =~= start + tables_text(ts.take(5)));
    push_table_head(out, "fmt");
    out.append("group       = \"Quality\"\ndescription = \"Format code\"\ntype        = \"task\"\ncommand     = [\"{{cargo}}\", \"fmt\"]\n\n");
    proof {
        lemma_tables_step(ts, 6);
    }
    assert(out@ =~= start + tables_text(ts.take(6)));
    push_table_head(out, "fmt-check");
    out.append("group       = \"Quality\"\ndescription = \"Check formatting\"\ntype        = \"task\"\ninputs      = [\"src/**/*.rs\"]\ncommand     = [\"{{cargo}}\", \"fmt\", \"--\", \"--check\"]\n\n");
    proof {
        lemma_tables_step(ts, 7);
    }
    assert(out@ =~= start + tables_text(ts.take(7)));
    push_table_head(out, "clean");
    out.append("description = \"Remove build artifacts\"\ntype        = \"task\"\ncommand     = [\"{{cargo}}\", \"clean\"]\n");
    proof {
        lemma_tables_step(ts, 8);
    }
    assert(out@ =~= start + tables_text(ts.take(8)));
    assert(ts.take(8) =~= ts);
}

/// The tables of `maturin_section`, each a name and the lines under its header.
pub open spec fn maturin_tables(venv_python: Seq<char>, ws_flag: Seq<char>) -> Seq<(Seq<char>, Seq<char>)> {
    seq![
        ("vars"@, "cargo  = \"cargo\"\npython = \""@ + venv_python + "\"\n\n"@),
        ("build"@, "group       = \"Build\"\ndescription = \"Install Python extension (editable)\"\ntype        = \"task\"\ninputs      = [\"src/**/*.rs\", \"Cargo.toml\"]\ncommand     = [\"maturin\", \"develop\", \"--release\"]\n\n"@),
        ("wheel"@, "group       = \"Build\"\ndescription = \"Build distributable wheel\"\ntype        = \"task\"\ninputs      = [\"src/**/*.rs\", \"Cargo.toml\"]\ncommand     = [\"maturin\", \"build\", \"--release\"]\n\n"@),
        ("check"@, "group       = \"Build\"\ndescription = \"Fast type-check\"\ntype        = \"task\"\ninputs      = [\"src/**/*.rs\", \"Cargo.toml\"]\ncommand     = [\"{{cargo}}\", \"check\""@ + ws_flag + "]\n\n"@),
        ("test"@, "group       = \"Build\"\ndescription = \"Run tests\"\ntype        = \"task\"\ncommand     = [\"{{cargo}}\", \"test\""@ + ws_flag + "]\n\n"@),
        ("clippy"@, "group       = \"Quality\"\ndescription = \"Run clippy linter\"\ntype        = \"task\"\ninputs      = [\"src/**/*.rs\", \"Cargo.toml\"]\ncommand     = [\"{{cargo}}\", \"clippy\""@ + ws_flag + ", \"--\", \"-D\", \"warnings\"]\n\n"@),
        ("fmt"@, "group       = \"Quality\"\ndescription = \"Format Rust code\"\ntype        = \"task\"\ncommand     = [\"{{cargo}}\", \"fmt\"]\n\n"@),
        ("clean"@, "description = \"Remove build artifacts\"\ntype        = \"task\"\ncommand     = [\"{{cargo}}\", \"clean\"]\n"@),
    ]
}

/// Rules for a Rust extension of a Python project, built with maturin.
pub open spec fn maturin_section(venv_python: Seq<char>, ws_flag: Seq<char>) -> Seq<char> {
    tables_text(maturin_tables(venv_python, ws_flag))
}

/// Appends `maturin_section`.
#[verifier::rlimit(100)]
#[verifier::spinoff_prover]
fn push_maturin_section(out: &mut String, venv_python: &str, ws_flag: &str)
    ensures
        final(out)@ == old(out)@ + maturin_section(venv_python@, ws_flag@),
{
    let ghost start = out@;
    let ghost ts = maturin_tables(venv_python@, ws_flag@);
    push_table_head(out, "vars");
    out.append("cargo  = \"cargo\"\npython = \"");
    out.append(venv_python);
    out.append("\"\n\n");
    proof {
        lemma_tables_step(ts, 1);
    }
    assert(out@ =~= start + tables_text(ts.take(1)));
    push_table_head(out, "build");
    out.append("group       = \"Build\"\ndescription = \"Install Python extension (editable)\"\ntype        = \"task\"\ninputs      = [\"src/**/*.rs\", \"Cargo.toml\"]\ncommand     = [\"maturin\", \"develop\", \"--release\"]\n\n");
    proof {
        lemma_tables_step(ts, 2);
    }
    assert(out@ =~= start + tables_text(ts.take(2)));
    push_table_head(out, "wheel");
    out.append("group       = \"Build\"\ndescription = \"Build distributable wheel\"\ntype        = \"task\"\ninputs      = [\"src/**/*.rs\", \"Cargo.toml\"]\ncommand     = [\"maturin\", \"build\", \"--release\"]\n\n");
    proof {
        lemma_tables_step(ts, 3);
    }
    assert(out@ =~= start + tables_text(ts.take(3)));
    push_table_head(out, "check");
    out.append("group       = \"Build\"\ndescription = \"Fast type-check\"\ntype        = \"task\"\ninputs      = [\"src/**/*.rs\", \"Cargo.toml\"]\ncommand     = [\"{{cargo}}\", \"check\"");
    out.append(ws_flag);
    out.append("]\n\n");
    proof {
        lemma_tables_step(ts, 4);
    }
    assert(out@ =~= start + tables_text(ts.take(4)));
    push_table_head(out, "test");
    out.append("group       = \"Build\"\ndescription = \"Run tests\"\ntype        = \"task\"\ncommand     = [\"{{cargo}}\", \"test\"");
    out.append(ws_flag);
    out.append("]\n\n");
    proof {
        lemma_tables_step(ts, 5);
    }
    assert(out@ =~= start + tables_text(ts.take(5)));
    push_table_head(out, "clippy");
    out.append("group       = \"Quality\"\ndescription = \"Run clippy linter\"\ntype        = \"task\"\ninputs      = [\"src/**/*.rs\", \"Cargo.toml\"]\ncommand     = [\"{{cargo}}\", \"clippy\"");
    out.append(ws_flag);
    out.append(", \"--\", \"-D\", \"warnings\"]\n\n");
    proof {
        lemma_tables_step(ts, 6);
    }
    assert(out@ =~= start + tables_text(ts.take(6)));
    push_table_head(out, "fmt");
    out.append("group       = \"Quality\"\ndescription = \"Format Rust code\"\ntype        = \"task\"\ncommand     = [\"{{cargo}}\", \"fmt\"]\n\n");
    proof {
        lemma_tables_step(ts, 7);
    }
    assert(out@ =~= start + tables_text(ts.take(7)));
    push_table_head(out, "clean");
    out.append("description = \"Remove build artifacts\"\ntype        = \"task\"\ncommand     = [\"{{cargo}}\", \"clean\"]\n");
    proof {
        lemma_tables_step(ts, 8);
    }
    assert(out@ =~= start + tables_text(ts.take(8)));
    assert(ts.take(8) =~= ts);
}

/// The tables of `npm_section`, each a name and the lines under its header.
pub open spec fn npm_tables(run: Seq<char>, pm: Seq<char>) -> Seq<(Seq<char>, Seq<char>)> {
    seq![
        ("build"@, "group       = \"Build\"\ndescription = \"Build the project\"\ntype        = \"task\"\ninputs      = [\"src/**/*\", \"package.json\"]\nshell       = true\ncommand     = [\""@ + run + " build\"]\n\n"@),
        ("test"@, "group       = \"Build\"\ndescription = \"Run tests\"\ntype        = \"task\"\ninputs      = [\"src/**/*\", \"package.json\"]\nshell       = true\ncommand     = [\""@ + run + " test\"]\n\n"@),
        ("lint"@, "group       = \"Quality\"\ndescription = \"Run linter\"\ntype        = \"task\"\ninputs      = [\"src/**/*\"]\nshell       = true\ncommand     = [\""@ + run + " lint\"]\n\n"@),
        ("install"@, "group       = \"Setup\"\ndescription = \"Install dependencies\"\ntype        = \"task\"\ninputs      = [\"package.json\"]\ncommand     = [\""@ + pm + "\", \"install\"]\n\n"@),
        ("clean"@, "description = \"Remove build artifacts\"\ntype        = \"task\"\nshell       = true\ncommand     = [\"rm -rf dist build node_modules/.cache\"]\n"@),
    ]
}

/// Rules for a Node project (`pm` is the package manager, `run` how it runs a script).
pub open spec fn npm_section(run: Seq<char>, pm: Seq<char>) -> Seq<char> {
    tables_text(npm_tables(run, pm))
}

/// Appends `npm_section`.
#[verifier::rlimit(100)]
#[verifier::spinoff_prover]
fn push_npm_section(out: &mut String, run: &str, pm: &str)
    ensures
        final(out)@ == old(out)@ + npm_section(run@, pm@),
{
    let ghost start = out@;
    let ghost ts = npm_tables(run@, pm@);
    push_table_head(out, "build");
    out.append("group       = \"Build\"\ndescription = \"Build the project\"\ntype        = \"task\"\ninputs      = [\"src/**/*\", \"package.json\"]\nshell       = true\ncommand     = [\"");
    out.append(run);
    out.append(" build\"]\n\n");
    proof {
        lemma_tables_step(ts, 1);
    }
    assert(out@ =~= start + tables_text(ts.take(1)));
    push_table_head(out, "test");
    out.append("group       = \"Build\"\ndescription = \"Run tests\"\ntype        = \"task\"\ninputs      = [\"src/**/*\", \"package.json\"]\nshell       = true\ncommand     = [\"");
    out.append(run);
    out.append(" test\"]\n\n");
    proof {
        lemma_tables_step(ts, 2);
    }
    assert(out@ =~= start + tables_text(ts.take(2)));
    push_table_head(out, "lint");
    out.append("group       = \"Quality\"\ndescription = \"Run linter\"\ntype        = \"task\"\ninputs      = [\"src/**/*\"]\nshell       = true\ncommand     = [\"");
    out.append(run);
    out.append(" lint\"]\n\n");
    proof {
        lemma_tables_step(ts, 3);
    }
    assert(out@ =~= start + tables_text(ts.take(3)));
    push_table_head(out, "install");
    out.append("group       = \"Setup\"\ndescription = \"Install dependencies\"\ntype        = \"task\"\ninputs      = [\"package.json\"]\ncommand     = [\"");
    out.append(pm);
    out.append("\", \"install\"]\n\n");
    proof {
        lemma_tables_step(ts, 4);
    }
    assert(out@ =~= start + tables_text(ts.take(4)));
    push_table_head(out, "clean");
    out.append("description = \"Remove build artifacts\"\ntype        = \"task\"\nshell       = true\ncommand     = [\"rm -rf dist build node_modules/.cache\"]\n");
    proof {
        lemma_tables_step(ts, 5);
    }
    assert(out@ =~= start + tables_text(ts.take(5)));
    assert(ts.take(5) =~= ts);
}

/// The tables of `python_section`, each a name and the lines under its header.
pub open spec fn python_tables(venv_python: Seq<char>, test_cmd: Seq<char>) -> Seq<(Seq<char>, Seq<char>)> {
    seq![
        ("vars"@, "python = \""@ + venv_python + "\"\n\n"@),
        ("build"@, "group       = \"Build\"\ndescription = \"Build distributable packages\"\ntype        = \"task\"\ncommand     = [\"{{python}}\", \"-m\", \"build\"]\n\n"@),
        ("test"@, "group       = \"Build\"\ndescription = \"Run tests\"\ntype        = \"task\"\ninputs      = [\"**/*.py\"]\nshell       = true\ncommand     = [\""@ + test_cmd + "\"]\n\n"@),
        ("lint"@, "group       = \"Quality\"\ndescription = \"Run ruff linter\"\ntype        = \"task\"\ninputs      = [\"**/*.py\"]\nshell       = true\ncommand     = [\"{{python}} -m ruff check .\"]\n\n"@),
        ("fmt"@, "group       = \"Quality\"\ndescription = \"Format Python code\"\ntype        = \"task\"\ncommand     = [\"{{python}}\", \"-m\", \"ruff\", \"format\", \".\"]\n\n"@),
        ("clean"@, "description = \"Remove build artifacts\"\ntype        = \"task\"\nshell       = true\ncommand     = [\"rm -rf dist build *.egg-info __pycache__\"]\n"@),
    ]
}

/// Rules for a pure Python project.
pub open spec fn python_section(venv_python: Seq<char>, test_cmd: Seq<char>) -> Seq<char> {
    tables_text(python_tables(venv_python, test_cmd))
}

/// Appends `python_section`.
fn push_python_section(out: &mut String, venv_python: &str, test_cmd: &str)
    ensures
        final(out)@ == old(out)@ + python_section(venv_python@, test_cmd@),
{
    let ghost start = out@;
    let ghost ts = python_tables(venv_python@, test_cmd@);
    push_table_head(out, "vars");
    out.append("python = \"");
    out.append(venv_python);
    out.append("\"\n\n");
    proof {
        lemma_tables_step(ts, 1);
    }
    assert(out@ =~= start + tables_text(ts.take(1)));
    push_table_head(out, "build");
    out.append("group       = \"Build\"\ndescription = \"Build distributable packages\"\ntype        = \"task\"\ncommand     = [\"{{python}}\", \"-m\", \"build\"]\n\n");
    proof {
        lemma_tables_step(ts, 2);
    }
    assert(out@ =~= start + tables_text(ts.take(2)));
    push_table_head(out, "test");
    out.append("group       = \"Build\"\ndescription = \"Run tests\"\ntype        = \"task\"\ninputs      = [\"**/*.py\"]\nshell       = true\ncommand     = [\"");
    out.append(test_cmd);
    out.append("\"]\n\n");
    proof {
        lemma_tables_step(ts, 3);
    }
    assert(out@ =~= start + tables_text(ts.take(3)));
    push_table_head(out, "lint");
    out.append("group       = \"Quality\"\ndescription = \"Run ruff linter\"\ntype        = \"task\"\ninputs      = [\"**/*.py\"]\nshell       = true\ncommand     = [\"{{python}} -m ruff check .\"]\n\n");
    proof {
        lemma_tables_step(ts, 4);
    }
    assert(out@ =~= start + tables_text(ts.take(4)));
    push_table_head(out, "fmt");
    out.append("group       = \"Quality\"\ndescription = \"Format Python code\"\ntype        = \"task\"\ncommand     = [\"{{python}}\", \"-m\", \"ruff\", \"format\", \".\"]\n\n");
    proof {
        lemma_tables_step(ts, 5);
    }
    assert(out@ =~= start + tables_text(ts.take(5)));
    push_table_head(out, "clean");
    out.append("description = \"Remove build artifacts\"\ntype        = \"task\"\nshell       = true\ncommand     = [\"rm -rf dist build *.egg-info __pycache__\"]\n");
    proof {
        lemma_tables_step(ts, 6);
    }
    assert(out@ =~= start + tables_text(ts.take(6)));
    assert(ts.take(6) =~= ts);
}

/// The tables of `go_section`, each a name and the lines under its header.
pub open spec fn go_tables() -> Seq<(Seq<char>, Seq<char>)> {
    seq![
        ("build"@, "group       = \"Build\"\ndescription = \"Build the project\"\ntype        = \"task\"\ninputs      = [\"**/*.go\", \"go.mod\", \"go.sum\"]\ncommand     = [\"go\", \"build\", \"./...\"]\n\n"@),
        ("test"@, "group       = \"Build\"\ndescription = \"Run tests\"\ntype        = \"task\"\ninputs      = [\"**/*.go\"]\ncommand     = [\"go\", \"test\", \"./...\"]\n\n"@),
        ("lint"@, "group       = \"Quality\"\ndescription = \"Run golangci-lint\"\ntype        = \"task\"\ninputs      = [\"**/*.go\"]\ncommand     = [\"golangci-lint\", \"run\"]\n\n"@),
        ("fmt"@, "group       = \"Quality\"\ndescription = \"Format Go code\"\ntype        = \"task\"\ncommand     = [\"gofmt\", \"-w\", \".\"]\n\n"@),
        ("clean"@, "description = \"Remove build artifacts\"\ntype        = \"task\"\ncommand     = [\"go\", \"clean\"]\n"@),
    ]
}

/// Rules for a Go project.
pub open spec fn go_section() -> Seq<char> {
    tables_text(go_tables())
}

/// Appends `go_section`.
fn push_go_section(out: &mut String)
    ensures
        final(out)@ == old(out)@ + go_section(),
{
    let ghost start = out@;
    let ghost ts = go_tables();
    push_table_head(out, "build");
    out.append("group       = \"Build\"\ndescription = \"Build the project\"\ntype        = \"task\"\ninputs      = [\"**/*.go\", \"go.mod\", \"go.sum\"]\ncommand     = [\"go\", \"build\", \"./...\"]\n\n");
    proof {
        lemma_tables_step(ts, 1);
    }
    assert(out@ =~= start + tables_text(ts.take(1)));
    push_table_head(out, "test");
    out.append("group       = \"Build\"\ndescription = \"Run tests\"\ntype        = \"task\"\ninputs      = [\"**/*.go\"]\ncommand     = [\"go\", \"test\", \"./...\"]\n\n");
    proof {
        lemma_tables_step(ts, 2);
    }
    assert(out@ =~= start + tables_text(ts.take(2)));
    push_table_head(out, "lint");
    out.append("group       = \"Quality\"\ndescription = \"Run golangci-lint\"\ntype        = \"task\"\ninputs      = [\"**/*.go\"]\ncommand     = [\"golangci-lint\", \"run\"]\n\n");
    proof {
        lemma_tables_step(ts, 3);
    }
    assert(out@ =~= start + tables_text(ts.take(3)));
    push_table_head(out, "fmt");
    out.append("group       = \"Quality\"\ndescription = \"Format Go code\"\ntype        = \"task\"\ncommand     = [\"gofmt\", \"-w\", \".\"]\n\n");
    proof {
        lemma_tables_step(ts, 4);
    }
    assert(out@ =~= start + tables_text(ts.take(4)));
    push_table_head(out, "clean");
    out.append("description = \"Remove build artifacts\"\ntype        = \"task\"\ncommand     = [\"go\", \"clean\"]\n");
    proof {
        lemma_tables_step(ts, 5);
    }
    assert(out@ =~= start + tables_text(ts.take(5)));
    assert(ts.take(5) =~= ts);
}

/// The tables of `cmake_section`, each a name and the lines under its header.
pub open spec fn cmake_tables() -> Seq<(Seq<char>, Seq<char>)> {
    seq![
        ("configure"@, "group       = \"Build\"\ndescription = \"Configure with CMake\"\ntype        = \"task\"\ninputs      = [\"CMakeLists.txt\"]\nshell       = true\ncommand     = [\"cmake -B build -DCMAKE_BUILD_TYPE=Release\"]\n\n"@),
        ("build"@, "group       = \"Build\"\ndescription = \"Compile\"\ntype        = \"task\"\ndeps        = [\"configure\"]\nshell       = true\ncommand     = [\"cmake --build build --parallel\"]\n\n"@),
        ("test"@, "group       = \"Build\"\ndescription = \"Run CTest\"\ntype        = \"task\"\ndeps        = [\"build\"]\nshell       = true\ncommand     = [\"ctest --test-dir build --output-on-failure\"]\n\n"@),
        ("clean"@, "description = \"Remove build directory\"\ntype        = \"task\"\nshell       = true\ncommand     = [\"rm -rf build\"]\n"@),
    ]
}

/// Rules for a CMake project.
pub open spec fn cmake_section() -> Seq<char> {
    tables_text(cmake_tables())
}

/// Appends `cmake_section`.
fn push_cmake_section(out: &mut String)
    ensures
        final(out)@ == old(out)@ + cmake_section(),
{
    let ghost start = out@;
    let ghost ts = cmake_tables();
    push_table_head(out, "configure");
    out.append("group       = \"Build\"\ndescription = \"Configure with CMake\"\ntype        = \"task\"\ninputs      = [\"CMakeLists.txt\"]\nshell       = true\ncommand     = [\"cmake -B build -DCMAKE_BUILD_TYPE=Release\"]\n\n");
    proof {
        lemma_tables_step(ts, 1);
    }
    assert(out@ =~= start + tables_text(ts.take(1)));
    push_table_head(out, "build");
    out.append("group       = \"Build\"\ndescription = \"Compile\"\ntype        = \"task\"\ndeps        = [\"configure\"]\nshell       = true\ncommand     = [\"cmake --build build --parallel\"]\n\n");
    proof {
        lemma_tables_step(ts, 2);
    }
    assert(out@ =~= start + tables_text(ts.take(2)));
    push_table_head(out, "test");
    out.append("group       = \"Build\"\ndescription = \"Run CTest\"\ntype        = \"task\"\ndeps        = [\"build\"]\nshell       = true\ncommand     = [\"ctest --test-dir build --output-on-failure\"]\n\n");
    proof {
        lemma_tables_step(ts, 3);
    }
    assert(out@ =~= start + tables_text(ts.take(3)));
    push_table_head(out, "clean");
    out.append("description = \"Remove build directory\"\ntype        = \"task\"\nshell       = true\ncommand     = [\"rm -rf build\"]\n");
    proof {
        lemma_tables_step(ts, 4);
    }
    assert(out@ =~= start + tables_text(ts.take(4)));
    assert(ts.take(4) =~= ts);
}

/// The tables of `make_section`, each a name and the lines under its header.
pub open spec fn make_tables() -> Seq<(Seq<char>, Seq<char>)> {
    seq![
        ("build"@, "group       = \"Build\"\ndescription = \"Build (delegates to make)\"\ntype        = \"task\"\ncommand     = [\"make\"]\n\n"@),
        ("test"@, "group       = \"Build\"\ndescription = \"Run tests (delegates to make test)\"\ntype        = \"task\"\ncommand     = [\"make\", \"test\"]\n\n"@),
        ("clean"@, "description = \"Clean (delegates to make clean)\"\ntype        = \"task\"\ncommand     = [\"make\", \"clean\"]\n"@),
    ]
}

/// Rules that delegate to an existing Makefile.
pub open spec fn make_section() -> Seq<char> {
    tables_text(make_tables())
}

/// Appends `make_section`.
fn push_make_section(out: &mut String)
    ensures
        final(out)@ == old(out)@ + make_section(),
{
    let ghost start = out@;
    let ghost ts = make_tables();
    push_table_head(out, "build");
    out.append("group       = \"Build\"\ndescription = \"Build (delegates to make)\"\ntype        = \"task\"\ncommand     = [\"make\"]\n\n");
    proof {
        lemma_tables_step(ts, 1);
    }
    assert(out@ =~= start + tables_text(ts.take(1)));
    push_table_head(out, "test");
    out.append("group       = \"Build\"\ndescription = \"Run tests (delegates to make test)\"\ntype        = \"task\"\ncommand     = [\"make\", \"test\"]\n\n");
    proof {
        lemma_tables_step(ts, 2);
    }
    assert(out@ =~= start + tables_text(ts.take(2)));
    push_table_head(out, "clean");
    out.append("description = \"Clean (delegates to make clean)\"\ntype        = \"task\"\ncommand     = [\"make\", \"clean\"]\n");
    proof {
        lemma_tables_step(ts, 3);
    }
    assert(out@ =~= start + tables_text(ts.take(3)));
    assert(ts.take(3) =~= ts);
}

/// The tables of `starter_rules`, each a name and the lines under its header.
pub open spec fn starter_tables() -> Seq<(Seq<char>, Seq<char>)> {
    seq![
        ("build"@, "group       = \"Build\"\ndescription = \"Build the project\"\ntype        = \"task\"\ncommand     = [\"echo\", \"replace me with your build command\"]\n\n"@),
        ("test"@, "group       = \"Build\"\ndescription = \"Run tests\"\ntype        = \"task\"\ncommand     = [\"echo\", \"replace me with your test command\"]\n\n"@),
        ("clean"@, "description = \"Remove build artifacts\"\ntype        = \"task\"\ncommand     = [\"echo\", \"replace me with your clean command\"]\n"@),
    ]
}

/// The placeholder rules of a new build file.
pub open spec fn starter_rules() -> Seq<char> {
    tables_text(starter_tables())
}

/// Appends `starter_rules`.
fn push_starter_rules(out: &mut String)
    ensures
        final(out)@ == old(out)@ + starter_rules(),
{
    let ghost start = out@;
    let ghost ts = starter_tables();
    push_table_head(out, "build");
    out.append("group       = \"Build\"\ndescription = \"Build the project\"\ntype        = \"task\"\ncommand     = [\"echo\", \"replace me with your build command\"]\n\n");
    proof {
        lemma_tables_step(ts, 1);
    }
    assert(out@ =~= start + tables_text(ts.take(1)));
    push_table_head(out, "test");
    out.append("group       = \"Build\"\ndescription = \"Run tests\"\ntype        = \"task\"\ncommand     = [\"echo\", \"replace me with your test command\"]\n\n");
    proof {
        lemma_tables_step(ts, 2);
    }
    assert(out@ =~= start + tables_text(ts.take(2)));
    push_table_head(out, "clean");
    out.append("description = \"Remove build artifacts\"\ntype        = \"task\"\ncommand     = [\"echo\", \"replace me with your clean command\"]\n");
    proof {
        lemma_tables_step(ts, 3);
    }
    assert(out@ =~= start + tables_text(ts.take(3)));
    assert(ts.take(3) =~= ts);
}

/// The starter `pbuild.toml` that `pbuild init` writes.
pub open spec fn init_template() -> Seq<char> {
    "# pbuild.toml\n#\n# Run `pbuild --list` to see all targets.\n# Run `pbuild <target>` to build a specific target.\n# Run `pbuild` to build the default target.\n\n[config]\ndefault = \"build\"           # target to build when none is specified\n# jobs  = 4                 # max parallel rules (default: logical CPUs)\n# env   = [\"CC\", \"CFLAGS\"]  # env vars that trigger a full rebuild when changed\n\n# [vars]\n# Define reusable values with {{name}} interpolation in commands.\n# cargo   = \"cargo\"\n# python  = \".venv/bin/python\"\n\n# ── Rules ────────────────────────────────────────────────────────────────────\n#\n# Each rule is a TOML table.  Minimal required field: `command` or `commands`.\n#\n# Fields:\n#   type        = \"task\" | \"file\"   (default: file)\n#   command     = [\"cmd\", \"arg\"]    single command\n#   commands    = [[\"cmd1\"], ...]   multiple sequential commands\n#   shell       = true              run via sh -c (enables pipes, globs, &&)\n#   inputs      = [\"src/**/*.rs\"]   files to hash for dirty-checking (globs ok)\n#   output      = \"app\"             file produced; hashed after success\n#   deps        = [\"other-rule\"]    rules that must build first\n#   depfile     = \"main.d\"          compiler depfile; pbuild injects -MF\n#   description = \"...\"             shown in `pbuild --list`\n#   group       = \"Build\"           group heading in `pbuild --list`\n\n[build]\ngroup       = \"Build\"\ndescription = \"Build the project\"\ntype        = \"task\"\ncommand     = [\"echo\", \"replace me with your build command\"]\n\n[test]\ngroup       = \"Build\"\ndescription = \"Run tests\"\ntype        = \"task\"\ncommand     = [\"echo\", \"replace me with your test command\"]\n\n[clean]\ndescription = \"Remove build artifacts\"\ntype        = \"task\"\ncommand     = [\"echo\", \"replace me with your clean command\"]\n"@
}

/// The starter `pbuild.toml`.
pub fn init_text() -> (s: String)
    ensures
        s@ == init_template(),
{
    String::from_str("# pbuild.toml\n#\n# Run `pbuild --list` to see all targets.\n# Run `pbuild <target>` to build a specific target.\n# Run `pbuild` to build the default target.\n\n[config]\ndefault = \"build\"           # target to build when none is specified\n# jobs  = 4                 # max parallel rules (default: logical CPUs)\n# env   = [\"CC\", \"CFLAGS\"]  # env vars that trigger a full rebuild when changed\n\n# [vars]\n# Define reusable values with {{name}} interpolation in commands.\n# cargo   = \"cargo\"\n# python  = \".venv/bin/python\"\n\n# ── Rules ────────────────────────────────────────────────────────────────────\n#\n# Each rule is a TOML table.  Minimal required field: `command` or `commands`.\n#\n# Fields:\n#   type        = \"task\" | \"file\"   (default: file)\n#   command     = [\"cmd\", \"arg\"]    single command\n#   commands    = [[\"cmd1\"], ...]   multiple sequential commands\n#   shell       = true              run via sh -c (enables pipes, globs, &&)\n#   inputs      = [\"src/**/*.rs\"]   files to hash for dirty-checking (globs ok)\n#   output      = \"app\"             file produced; hashed after success\n#   deps        = [\"other-rule\"]    rules that must build first\n#   depfile     = \"main.d\"          compiler depfile; pbuild injects -MF\n#   description = \"...\"             shown in `pbuild --list`\n#   group       = \"Build\"           group heading in `pbuild --list`\n\n[build]\ngroup       = \"Build\"\ndescription = \"Build the project\"\ntype        = \"task\"\ncommand     = [\"echo\", \"replace me with your build command\"]\n\n[test]\ngroup       = \"Build\"\ndescription = \"Run tests\"\ntype        = \"task\"\ncommand     = [\"echo\", \"replace me with your test command\"]\n\n[clean]\ndescription = \"Remove build artifacts\"\ntype        = \"task\"\ncommand     = [\"echo\", \"replace me with your clean command\"]\n")
}

/// What was found in the project directory.
pub struct ProjectFiles {
    /// `Cargo.toml` exists.
    pub cargo: bool,
    /// `Cargo.toml` declares a `[workspace]`.
    pub workspace: bool,
    /// `package.json` exists.
    pub npm: bool,
    /// `pyproject.toml`, `setup.py` or `setup.cfg` exists.
    pub python: bool,
    /// A `Makefile` exists.
    pub make: bool,
    /// `go.mod` exists.
    pub go: bool,
    /// `CMakeLists.txt` exists.
    pub cmake: bool,
    /// `.venv/bin/python` exists.
    pub venv: bool,
    /// `yarn.lock` exists.
    pub yarn: bool,
    /// `pnpm-lock.yaml` exists.
    pub pnpm: bool,
    /// `pytest.ini` exists or `pyproject.toml` configures pytest.
    pub pytest: bool,
}

/// The project kinds named in the header, in order.
pub open spec fn detected_kinds(p: ProjectFiles) -> Seq<Seq<char>> {
    (if p.cargo {
        seq![
            if p.workspace {
                "Cargo workspace"@
            } else {
                "Cargo"@
            },
        ]
    } else {
        seq![]
    }) + (if p.npm {
        seq!["npm"@]
    } else {
        seq![]
    }) + (if p.python {
        seq!["Python"@]
    } else {
        seq![]
    }) + (if p.go {
        seq!["Go"@]
    } else {
        seq![]
    }) + (if p.cmake {
        seq!["CMake"@]
    } else {
        seq![]
    }) + if p.make {
        seq!["Makefile"@]
    } else {
        seq![]
    }
}

/// The Python interpreter the rules use.
pub open spec fn venv_python_of(p: ProjectFiles) -> Seq<char> {
    if p.venv {
        ".venv/bin/python"@
    } else {
        "python3"@
    }
}

/// The Node package manager.
pub open spec fn package_manager(p: ProjectFiles) -> Seq<char> {
    if p.yarn {
        "yarn"@
    } else if p.pnpm {
        "pnpm"@
    } else {
        "npm"@
    }
}

/// How the package manager runs a script.
pub open spec fn run_command_of(p: ProjectFiles) -> Seq<char> {
    if package_manager(p) == "npm"@ {
        "npm run"@
    } else {
        package_manager(p)
    }
}

/// The Python test command.
pub open spec fn test_command_of(p: ProjectFiles) -> Seq<char> {
    venv_python_of(p) + if p.pytest {
        " -m pytest"@
    } else {
        " -m unittest discover"@
    }
}

/// The comment line naming the project kinds found, if any.
pub open spec fn detected_comment(p: ProjectFiles) -> Seq<char> {
    let kinds = detected_kinds(p);
    if kinds.len() == 0 {
        ""@
    } else {
        "# Detected: "@ + join_str(kinds, ", "@) + "\n"@
    }
}

/// The extra Cargo argument for a workspace.
pub open spec fn workspace_flag(p: ProjectFiles) -> Seq<char> {
    if p.workspace {
        ", \"--workspace\""@
    } else {
        ""@
    }
}

/// The tables `pbuild init --detect` writes after `[config]`: those of the
/// first kind of project found.
pub open spec fn detected_tables(p: ProjectFiles) -> Seq<(Seq<char>, Seq<char>)> {
    if p.cargo && p.python {
        maturin_tables(venv_python_of(p), workspace_flag(p))
    } else if p.cargo {
        cargo_tables(workspace_flag(p))
    } else if p.npm {
        npm_tables(run_command_of(p), package_manager(p))
    } else if p.python {
        python_tables(venv_python_of(p), test_command_of(p))
    } else if p.go {
        go_tables()
    } else if p.cmake {
        cmake_tables()
    } else if p.make {
        make_tables()
    } else {
        starter_tables()
    }
}

/// The build file `pbuild init --detect` writes for the project. The
/// header names every kind detected; the rules are those of one kind, the
/// first found of: Cargo (with maturin when Python is there too), npm,
/// Python, Go, CMake, a Makefile; else the starter rules. So no table is
/// written twice, and each set of rules has the `build` rule that
/// `[config]` names as the default.
pub open spec fn detected_template(p: ProjectFiles) -> Seq<char> {
    let detected_str = detected_comment(p);
    let maturin = p.cargo && p.python;
    let ws = workspace_flag(p);
    header_section(detected_str) + (if p.cargo && !maturin {
        cargo_section(ws)
    } else {
        seq![]
    }) + (if maturin {
        maturin_section(venv_python_of(p), ws)
    } else {
        seq![]
    }) + (if p.npm && !p.cargo {
        npm_section(run_command_of(p), package_manager(p))
    } else {
        seq![]
    }) + (if p.python && !p.cargo && !p.npm {
        python_section(venv_python_of(p), test_command_of(p))
    } else {
        seq![]
    }) + (if p.go && !p.cargo && !p.npm && !p.python {
        go_section()
    } else {
        seq![]
    }) + (if p.cmake && !p.cargo && !p.npm && !p.python && !p.go {
        cmake_section()
    } else {
        seq![]
    }) + (if p.make && !p.cargo && !p.npm && !p.python && !p.go && !p.cmake {
        make_section()
    } else {
        seq![]
    }) + if !p.cargo && !p.npm && !p.python && !p.go && !p.cmake && !p.make {
        starter_rules()
    } else {
        seq![]
    }
}

/// Generate a template tailored to the project type(s) found.
pub fn detect_template(p: &ProjectFiles) -> (s: String)
    ensures
        s@ == detected_template(*p),
{
    let mut kinds: Vec<String> = Vec::new();
    if p.cargo {
        kinds.push(
            String::from_str(
                if p.workspace {
                    "Cargo workspace"
                } else {
                    "Cargo"
                },
            ),
        );
    }
    if p.npm {
        kinds.push(String::from_str("npm"));
    }
    if p.python {
        kinds.push(String::from_str("Python"));
    }
    if p.go {
        kinds.push(String::from_str("Go"));
    }
    if p.cmake {
        kinds.push(String::from_str("CMake"));
    }
    if p.make {
        kinds.push(String::from_str("Makefile"));
    }
    assert(views(kinds@) =~= detected_kinds(*p));
    let detected_str = if kinds.len() == 0 {
        String::new()
    } else {
        String::from_str("# Detected: ").concat(join_strings(&kinds, ", ").as_str()).concat("\n")
    };
    let maturin = p.cargo && p.python;
    let ws: &str = if p.workspace {
        ", \"--workspace\""
    } else {
        ""
    };
    let venv: &str = if p.venv {
        ".venv/bin/python"
    } else {
        "python3"
    };
    assert(detected_str@ == (if detected_kinds(*p).len() == 0 {
        ""@
    } else {
        "# Detected: "@ + join_str(detected_kinds(*p), ", "@) + "\n"@
    })) by {
        if kinds@.len() == 0 {
            reveal_strlit("");
        }
    }
    let mut out = String::new();
    push_header_section(&mut out, detected_str.as_str());
    let ghost a0 = out@;
    if p.cargo && !maturin {
        push_cargo_section(&mut out, ws);
    }
    let ghost a1 = out@;
    assert(a1 =~= a0 + if p.cargo && !maturin {
        cargo_section(ws@)
    } else {
        seq![]
    });
    if maturin {
        push_maturin_section(&mut out, venv, ws);
    }
    let ghost a2 = out@;
    assert(a2 =~= a1 + if maturin {
        maturin_section(venv_python_of(*p), ws@)
    } else {
        seq![]
    });
    if p.npm && !p.cargo {
        let pm: &str = if p.yarn {
            "yarn"
        } else if p.pnpm {
            "pnpm"
        } else {
            "npm"
        };
        let run: &str = if crate::strmap::str_eq(pm, "npm") {
            "npm run"
        } else {
            pm
        };
        push_npm_section(&mut out, run, pm);
    }
    let ghost a3 = out@;
    assert(a3 =~= a2 + if p.npm && !p.cargo {
        npm_section(run_command_of(*p), package_manager(*p))
    } else {
        seq![]
    });
    if p.python && !p.cargo && !p.npm {
        let test_cmd = String::from_str(venv).concat(
            if p.pytest {
                " -m pytest"
            } else {
                " -m unittest discover"
            },
        );
        push_python_section(&mut out, venv, test_cmd.as_str());
    }
    let ghost a4 = out@;
    assert(a4 =~= a3 + if p.python && !p.cargo && !p.npm {
        python_section(venv_python_of(*p), test_command_of(*p))
    } else {
        seq![]
    });
    if p.go && !p.cargo && !p.npm && !p.python {
        push_go_section(&mut out);
    }
    let ghost a5 = out@;
    assert(a5 =~= a4 + if p.go && !p.cargo && !p.npm && !p.python {
        go_section()
    } else {
        seq![]
    });
    if p.cmake && !p.cargo && !p.npm && !p.python && !p.go {
        push_cmake_section(&mut out);
    }
    let ghost a6 = out@;
    assert(a6 =~= a5 + if p.cmake && !p.cargo && !p.npm && !p.python && !p.go {
        cmake_section()
    } else {
        seq![]
    });
    if p.make && !p.cargo && !p.npm && !p.python && !p.go && !p.cmake {
        push_make_section(&mut out);
    }
    let ghost a7 = out@;
    assert(a7 =~= a6 + if p.make && !p.cargo && !p.npm && !p.python && !p.go && !p.cmake {
        make_section()
    } else {
        seq![]
    });
    if !p.cargo && !p.npm && !p.python && !p.go && !p.cmake && !p.make {
        push_starter_rules(&mut out);
    }
    assert(out@ =~= a7 + if !p.cargo && !p.npm && !p.python && !p.go && !p.cmake && !p.make {
        starter_rules()
    } else {
        seq![]
    });
    assert(out@ =~= detected_template(*p));
    out
}

/// Names that differ pairwise hold no duplicate.
proof fn lemma_names_distinct(e: Seq<Seq<char>>)
    ensures
        (forall|a: int, b: int| 0 <= a < b < e.len() ==> e[a] != e[b]) ==> e.no_duplicates(),
{
    if forall|a: int, b: int| 0 <= a < b < e.len() ==> e[a] != e[b] {
        assert forall|a: int, b: int| 0 <= a < e.len() && 0 <= b < e.len() && a != b implies e[a] != e[b] by {
            if a > b {
                assert(e[b] != e[a]);
            }
        }
    }
}

/// What `pbuild init --detect` writes is a usable build file, whatever
/// files the project has: the header with `[config]` (whose default is
/// `build`), then tables that all have distinct names, none of them
/// `config`, one of them `build`, the default's rule.
pub proof fn lemma_detected_template_tables(p: ProjectFiles)
    ensures
        detected_template(p) == header_section(detected_comment(p)) + tables_text(detected_tables(p)),
        table_names(detected_tables(p)).no_duplicates(),
        table_names(detected_tables(p)).contains("build"@),
        !table_names(detected_tables(p)).contains("config"@),
{
    reveal_strlit("vars");
    reveal_strlit("build");
    reveal_strlit("check");
    reveal_strlit("test");
    reveal_strlit("clippy");
    reveal_strlit("fmt");
    reveal_strlit("fmt-check");
    reveal_strlit("clean");
    reveal_strlit("wheel");
    reveal_strlit("lint");
    reveal_strlit("install");
    reveal_strlit("configure");
    reveal_strlit("config");
    let names = table_names(detected_tables(p));
    if p.cargo && p.python {
        let e: Seq<Seq<char>> = seq!["vars"@, "build"@, "wheel"@, "check"@, "test"@, "clippy"@, "fmt"@, "clean"@];
        assert(names =~= e);
        lemma_names_distinct(e);
        assert(e[1] == "build"@);
        assert(e[0] != e[1] && e[0] != e[2] && e[0] != e[3] && e[0] != e[4] && e[0] != e[5] && e[0] != e[6] && e[0] != e[7] && e[1] != e[2] && e[1] != e[3] && e[1] != e[4] && e[1] != e[5] && e[1] != e[6] && e[1] != e[7] && e[2] != e[3] && e[2] != e[4] && e[2] != e[5] && e[2] != e[6] && e[2] != e[7] && e[3] != e[4] && e[3] != e[5] && e[3] != e[6] && e[3] != e[7] && e[4] != e[5] && e[4] != e[6] && e[4] != e[7] && e[5] != e[6] && e[5] != e[7] && e[6] != e[7]) by {
            assert(e[0] =~= "vars"@);
            assert(e[1] =~= "build"@);
            assert(e[2] =~= "wheel"@);
            assert(e[3] =~= "check"@);
            assert(e[4] =~= "test"@);
            assert(e[5] =~= "clippy"@);
            assert(e[6] =~= "fmt"@);
            assert(e[7] =~= "clean"@);
            assert(e[0].len() != e[1].len());
            assert(e[0].len() != e[2].len());
            assert(e[0].len() != e[3].len());
            assert(e[0][0] != e[4][0]);
            assert(e[0].len() != e[5].len());
            assert(e[0].len() != e[6].len());
            assert(e[0].len() != e[7].len());
            assert(e[1][0] != e[2][0]);
            assert(e[1][0] != e[3][0]);
            assert(e[1].len() != e[4].len());
            assert(e[1].len() != e[5].len());
            assert(e[1].len() != e[6].len());
            assert(e[1][0] != e[7][0]);
            assert(e[2][0] != e[3][0]);
            assert(e[2].len() != e[4].len());
            assert(e[2].len() != e[5].len());
            assert(e[2].len() != e[6].len());
            assert(e[2][0] != e[7][0]);
            assert(e[3].len() != e[4].len());
            assert(e[3].len() != e[5].len());
            assert(e[3].len() != e[6].len());
            assert(e[3][1] != e[7][1]);
            assert(e[4].len() != e[5].len());
            assert(e[4].len() != e[6].len());
            assert(e[4].len() != e[7].len());
            assert(e[5].len() != e[6].len());
            assert(e[5].len() != e[7].len());
            assert(e[6].len() != e[7].len());
        }
        assert(e[0] != "config"@ && e[1] != "config"@ && e[2] != "config"@ && e[3] != "config"@ && e[4] != "config"@ && e[5] != "config"@ && e[6] != "config"@ && e[7] != "config"@) by {
            assert(e[0] =~= "vars"@);
            assert(e[0].len() != "config"@.len());
            assert(e[1] =~= "build"@);
            assert(e[1].len() != "config"@.len());
            assert(e[2] =~= "wheel"@);
            assert(e[2].len() != "config"@.len());
            assert(e[3] =~= "check"@);
            assert(e[3].len() != "config"@.len());
            assert(e[4] =~= "test"@);
            assert(e[4].len() != "config"@.len());
            assert(e[5] =~= "clippy"@);
            assert(e[5][1] != "config"@[1]);
            assert(e[6] =~= "fmt"@);
            assert(e[6].len() != "config"@.len());
            assert(e[7] =~= "clean"@);
            assert(e[7].len() != "config"@.len());
        }
        assert forall|a: int, b: int| 0 <= a < b < e.len() implies e[a] != e[b] by {
            assert(a == 0 || a == 1 || a == 2 || a == 3 || a == 4 || a == 5 || a == 6 || a == 7);
            assert(b == 0 || b == 1 || b == 2 || b == 3 || b == 4 || b == 5 || b == 6 || b == 7);
        }
        assert forall|a: int| 0 <= a < e.len() implies e[a] != "config"@ by {
            assert(a == 0 || a == 1 || a == 2 || a == 3 || a == 4 || a == 5 || a == 6 || a == 7);
        }
    } else if p.cargo {
        let e: Seq<Seq<char>> = seq!["vars"@, "build"@, "check"@, "test"@, "clippy"@, "fmt"@, "fmt-check"@, "clean"@];
        assert(names =~= e);
        lemma_names_distinct(e);
        assert(e[1] == "build"@);
        assert(e[0] != e[1] && e[0] != e[2] && e[0] != e[3] && e[0] != e[4] && e[0] != e[5] && e[0] != e[6] && e[0] != e[7] && e[1] != e[2] && e[1] != e[3] && e[1] != e[4] && e[1] != e[5] && e[1] != e[6] && e[1] != e[7] && e[2] != e[3] && e[2] != e[4] && e[2] != e[5] && e[2] != e[6] && e[2] != e[7] && e[3] != e[4] && e[3] != e[5] && e[3] != e[6] && e[3] != e[7] && e[4] != e[5] && e[4] != e[6] && e[4] != e[7] && e[5] != e[6] && e[5] != e[7] && e[6] != e[7]) by {
            assert(e[0] =~= "vars"@);
            assert(e[1] =~= "build"@);
            assert(e[2] =~= "check"@);
            assert(e[3] =~= "test"@);
            assert(e[4] =~= "clippy"@);
            assert(e[5] =~= "fmt"@);
            assert(e[6] =~= "fmt-check"@);
            assert(e[7] =~= "clean"@);
            assert(e[0].len() != e[1].len());
            assert(e[0].len() != e[2].len());
            assert(e[0][0] != e[3][0]);
            assert(e[0].len() != e[4].len());
            assert(e[0].len() != e[5].len());
            assert(e[0].len() != e[6].len());
            assert(e[0].len() != e[7].len());
            assert(e[1][0] != e[2][0]);
            assert(e[1].len() != e[3].len());
            assert(e[1].len() != e[4].len());
            assert(e[1].len() != e[5].len());
            assert(e[1].len() != e[6].len());
            assert(e[1][0] != e[7][0]);
            assert(e[2].len() != e[3].len());
            assert(e[2].len() != e[4].len());
            assert(e[2].len() != e[5].len());
            assert(e[2].len() != e[6].len());
            assert(e[2][1] != e[7][1]);
            assert(e[3].len() != e[4].len());
            assert(e[3].len() != e[5].len());
            assert(e[3].len() != e[6].len());
            assert(e[3].len() != e[7].len());
            assert(e[4].len() != e[5].len());
            assert(e[4].len() != e[6].len());
            assert(e[4].len() != e[7].len());
            assert(e[5].len() != e[6].len());
            assert(e[5].len() != e[7].len());
            assert(e[6].len() != e[7].len());
        }
        assert(e[0] != "config"@ && e[1] != "config"@ && e[2] != "config"@ && e[3] != "config"@ && e[4] != "config"@ && e[5] != "config"@ && e[6] != "config"@ && e[7] != "config"@) by {
            assert(e[0] =~= "vars"@);
            assert(e[0].len() != "config"@.len());
            assert(e[1] =~= "build"@);
            assert(e[1].len() != "config"@.len());
            assert(e[2] =~= "check"@);
            assert(e[2].len() != "config"@.len());
            assert(e[3] =~= "test"@);
            assert(e[3].len() != "config"@.len());
            assert(e[4] =~= "clippy"@);
            assert(e[4][1] != "config"@[1]);
            assert(e[5] =~= "fmt"@);
            assert(e[5].len() != "config"@.len());
            assert(e[6] =~= "fmt-check"@);
            assert(e[6].len() != "config"@.len());
            assert(e[7] =~= "clean"@);
            assert(e[7].len() != "config"@.len());
        }
        assert forall|a: int, b: int| 0 <= a < b < e.len() implies e[a] != e[b] by {
            assert(a == 0 || a == 1 || a == 2 || a == 3 || a == 4 || a == 5 || a == 6 || a == 7);
            assert(b == 0 || b == 1 || b == 2 || b == 3 || b == 4 || b == 5 || b == 6 || b == 7);
        }
        assert forall|a: int| 0 <= a < e.len() implies e[a] != "config"@ by {
            assert(a == 0 || a == 1 || a == 2 || a == 3 || a == 4 || a == 5 || a == 6 || a == 7);
        }
    } else if p.npm {
        let e: Seq<Seq<char>> = seq!["build"@, "test"@, "lint"@, "install"@, "clean"@];
        assert(names =~= e);
        lemma_names_distinct(e);
        assert(e[0] == "build"@);
        assert(e[0] != e[1] && e[0] != e[2] && e[0] != e[3] && e[0] != e[4] && e[1] != e[2] && e[1] != e[3] && e[1] != e[4] && e[2] != e[3] && e[2] != e[4] && e[3] != e[4]) by {
            assert(e[0] =~= "build"@);
            assert(e[1] =~= "test"@);
            assert(e[2] =~= "lint"@);
            assert(e[3] =~= "install"@);
            assert(e[4] =~= "clean"@);
            assert(e[0].len() != e[1].len());
            assert(e[0].len() != e[2].len());
            assert(e[0].len() != e[3].len());
            assert(e[0][0] != e[4][0]);
            assert(e[1][0] != e[2][0]);
            assert(e[1].len() != e[3].len());
            assert(e[1].len() != e[4].len());
            assert(e[2].len() != e[3].len());
            assert(e[2].len() != e[4].len());
            assert(e[3].len() != e[4].len());
        }
        assert(e[0] != "config"@ && e[1] != "config"@ && e[2] != "config"@ && e[3] != "config"@ && e[4] != "config"@) by {
            assert(e[0] =~= "build"@);
            assert(e[0].len() != "config"@.len());
            assert(e[1] =~= "test"@);
            assert(e[1].len() != "config"@.len());
            assert(e[2] =~= "lint"@);
            assert(e[2].len() != "config"@.len());
            assert(e[3] =~= "install"@);
            assert(e[3].len() != "config"@.len());
            assert(e[4] =~= "clean"@);
            assert(e[4].len() != "config"@.len());
        }
        assert forall|a: int, b: int| 0 <= a < b < e.len() implies e[a] != e[b] by {
            assert(a == 0 || a == 1 || a == 2 || a == 3 || a == 4);
            assert(b == 0 || b == 1 || b == 2 || b == 3 || b == 4);
        }
        assert forall|a: int| 0 <= a < e.len() implies e[a] != "config"@ by {
            assert(a == 0 || a == 1 || a == 2 || a == 3 || a == 4);
        }
    } else if p.python {
        let e: Seq<Seq<char>> = seq!["vars"@, "build"@, "test"@, "lint"@, "fmt"@, "clean"@];
        assert(names =~= e);
        lemma_names_distinct(e);
        assert(e[1] == "build"@);
        assert(e[0] != e[1] && e[0] != e[2] && e[0] != e[3] && e[0] != e[4] && e[0] != e[5] && e[1] != e[2] && e[1] != e[3] && e[1] != e[4] && e[1] != e[5] && e[2] != e[3] && e[2] != e[4] && e[2] != e[5] && e[3] != e[4] && e[3] != e[5] && e[4] != e[5]) by {
            assert(e[0] =~= "vars"@);
            assert(e[1] =~= "build"@);
            assert(e[2] =~= "test"@);
            assert(e[3] =~= "lint"@);
            assert(e[4] =~= "fmt"@);
            assert(e[5] =~= "clean"@);
            assert(e[0].len() != e[1].len());
            assert(e[0][0] != e[2][0]);
            assert(e[0][0] != e[3][0]);
            assert(e[0].len() != e[4].len());
            assert(e[0].len() != e[5].len());
            assert(e[1].len() != e[2].len());
            assert(e[1].len() != e[3].len());
            assert(e[1].len() != e[4].len());
            assert(e[1][0] != e[5][0]);
            assert(e[2][0] != e[3][0]);
            assert(e[2].len() != e[4].len());
            assert(e[2].len() != e[5].len());
            assert(e[3].len() != e[4].len());
            assert(e[3].len() != e[5].len());
            assert(e[4].len() != e[5].len());
        }
        assert(e[0] != "config"@ && e[1] != "config"@ && e[2] != "config"@ && e[3] != "config"@ && e[4] != "config"@ && e[5] != "config"@) by {
            assert(e[0] =~= "vars"@);
            assert(e[0].len() != "config"@.len());
            assert(e[1] =~= "build"@);
            assert(e[1].len() != "config"@.len());
            assert(e[2] =~= "test"@);
            assert(e[2].len() != "config"@.len());
            assert(e[3] =~= "lint"@);
            assert(e[3].len() != "config"@.len());
            assert(e[4] =~= "fmt"@);
            assert(e[4].len() != "config"@.len());
            assert(e[5] =~= "clean"@);
            assert(e[5].len() != "config"@.len());
        }
        assert forall|a: int, b: int| 0 <= a < b < e.len() implies e[a] != e[b] by {
            assert(a == 0 || a == 1 || a == 2 || a == 3 || a == 4 || a == 5);
            assert(b == 0 || b == 1 || b == 2 || b == 3 || b == 4 || b == 5);
        }
        assert forall|a: int| 0 <= a < e.len() implies e[a] != "config"@ by {
            assert(a == 0 || a == 1 || a == 2 || a == 3 || a == 4 || a == 5);
        }
    } else if p.go {
        let e: Seq<Seq<char>> = seq!["build"@, "test"@, "lint"@, "fmt"@, "clean"@];
        assert(names =~= e);
        lemma_names_distinct(e);
        assert(e[0] == "build"@);
        assert(e[0] != e[1] && e[0] != e[2] && e[0] != e[3] && e[0] != e[4] && e[1] != e[2] && e[1] != e[3] && e[1] != e[4] && e[2] != e[3] && e[2] != e[4] && e[3] != e[4]) by {
            assert(e[0] =~= "build"@);
            assert(e[1] =~= "test"@);
            assert(e[2] =~= "lint"@);
            assert(e[3] =~= "fmt"@);
            assert(e[4] =~= "clean"@);
            assert(e[0].len() != e[1].len());
            assert(e[0].len() != e[2].len());
            assert(e[0].len() != e[3].len());
            assert(e[0][0] != e[4][0]);
            assert(e[1][0] != e[2][0]);
            assert(e[1].len() != e[3].len());
            assert(e[1].len() != e[4].len());
            assert(e[2].len() != e[3].len());
            assert(e[2].len() != e[4].len());
            assert(e[3].len() != e[4].len());
        }
        assert(e[0] != "config"@ && e[1] != "config"@ && e[2] != "config"@ && e[3] != "config"@ && e[4] != "config"@) by {
            assert(e[0] =~= "build"@);
            assert(e[0].len() != "config"@.len());
            assert(e[1] =~= "test"@);
            assert(e[1].len() != "config"@.len());
            assert(e[2] =~= "lint"@);
            assert(e[2].len() != "config"@.len());
            assert(e[3] =~= "fmt"@);
            assert(e[3].len() != "config"@.len());
            assert(e[4] =~= "clean"@);
            assert(e[4].len() != "config"@.len());
        }
        assert forall|a: int, b: int| 0 <= a < b < e.len() implies e[a] != e[b] by {
            assert(a == 0 || a == 1 || a == 2 || a == 3 || a == 4);
            assert(b == 0 || b == 1 || b == 2 || b == 3 || b == 4);
        }
        assert forall|a: int| 0 <= a < e.len() implies e[a] != "config"@ by {
            assert(a == 0 || a == 1 || a == 2 || a == 3 || a == 4);
        }
    } else if p.cmake {
        let e: Seq<Seq<char>> = seq!["configure"@, "build"@, "test"@, "clean"@];
        assert(names =~= e);
        lemma_names_distinct(e);
        assert(e[1] == "build"@);
        assert(e[0] != e[1] && e[0] != e[2] && e[0] != e[3] && e[1] != e[2] && e[1] != e[3] && e[2] != e[3]) by {
            assert(e[0] =~= "configure"@);
            assert(e[1] =~= "build"@);
            assert(e[2] =~= "test"@);
            assert(e[3] =~= "clean"@);
            assert(e[0].len() != e[1].len());
            assert(e[0].len() != e[2].len());
            assert(e[0].len() != e[3].len());
            assert(e[1].len() != e[2].len());
            assert(e[1][0] != e[3][0]);
            assert(e[2].len() != e[3].len());
        }
        assert(e[0] != "config"@ && e[1] != "config"@ && e[2] != "config"@ && e[3] != "config"@) by {
            assert(e[0] =~= "configure"@);
            assert(e[0].len() != "config"@.len());
            assert(e[1] =~= "build"@);
            assert(e[1].len() != "config"@.len());
            assert(e[2] =~= "test"@);
            assert(e[2].len() != "config"@.len());
            assert(e[3] =~= "clean"@);
            assert(e[3].len() != "config"@.len());
        }
        assert forall|a: int, b: int| 0 <= a < b < e.len() implies e[a] != e[b] by {
            assert(a == 0 || a == 1 || a == 2 || a == 3);
            assert(b == 0 || b == 1 || b == 2 || b == 3);
        }
        assert forall|a: int| 0 <= a < e.len() implies e[a] != "config"@ by {
            assert(a == 0 || a == 1 || a == 2 || a == 3);
        }
    } else if p.make {
        let e: Seq<Seq<char>> = seq!["build"@, "test"@, "clean"@];
        assert(names =~= e);
        lemma_names_distinct(e);
        assert(e[0] == "build"@);
        assert(e[0] != e[1] && e[0] != e[2] && e[1] != e[2]) by {
            assert(e[0] =~= "build"@);
            assert(e[1] =~= "test"@);
            assert(e[2] =~= "clean"@);
            assert(e[0].len() != e[1].len());
            assert(e[0][0] != e[2][0]);
            assert(e[1].len() != e[2].len());
        }
        assert(e[0] != "config"@ && e[1] != "config"@ && e[2] != "config"@) by {
            assert(e[0] =~= "build"@);
            assert(e[0].len() != "config"@.len());
            assert(e[1] =~= "test"@);
            assert(e[1].len() != "config"@.len());
            assert(e[2] =~= "clean"@);
            assert(e[2].len() != "config"@.len());
        }
        assert forall|a: int, b: int| 0 <= a < b < e.len() implies e[a] != e[b] by {
            assert(a == 0 || a == 1 || a == 2);
            assert(b == 0 || b == 1 || b == 2);
        }
        assert forall|a: int| 0 <= a < e.len() implies e[a] != "config"@ by {
            assert(a == 0 || a == 1 || a == 2);
        }
    } else {
        let e: Seq<Seq<char>> = seq!["build"@, "test"@, "clean"@];
        assert(names =~= e);
        lemma_names_distinct(e);
        assert(e[0] == "build"@);
        assert(e[0] != e[1] && e[0] != e[2] && e[1] != e[2]) by {
            assert(e[0] =~= "build"@);
            assert(e[1] =~= "test"@);
            assert(e[2] =~= "clean"@);
            assert(e[0].len() != e[1].len());
            assert(e[0][0] != e[2][0]);
            assert(e[1].len() != e[2].len());
        }
        assert(e[0] != "config"@ && e[1] != "config"@ && e[2] != "config"@) by {
            assert(e[0] =~= "build"@);
            assert(e[0].len() != "config"@.len());
            assert(e[1] =~= "test"@);
            assert(e[1].len() != "config"@.len());
            assert(e[2] =~= "clean"@);
            assert(e[2].len() != "config"@.len());
        }
        assert forall|a: int, b: int| 0 <= a < b < e.len() implies e[a] != e[b] by {
            assert(a == 0 || a == 1 || a == 2);
            assert(b == 0 || b == 1 || b == 2);
        }
        assert forall|a: int| 0 <= a < e.len() implies e[a] != "config"@ by {
            assert(a == 0 || a == 1 || a == 2);
        }
    }
}

} // verus!
