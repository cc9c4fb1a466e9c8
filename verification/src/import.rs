//! `pbuild import`: turning a Makefile into an equivalent `pbuild.toml`.
//!
//! Handles:
//!   - Variable assignments (`VAR = value`, `VAR := value`, `VAR ?= value`)
//!   - `.PHONY` declarations
//!   - Target rules with dependencies and shell recipe lines
//!
//! Skips / warns about:
//!   - Pattern rules (`%.o: %.c`)
//!   - Built-in / internal targets (`.SUFFIXES`, `.DEFAULT`, etc.)
//!   - `$(shell ...)` expansions in variable values
//!   - `ifeq`/`ifdef` conditional blocks

use vstd::prelude::*;
use vstd::string::StringExecFns;

use crate::cli::{assignment_from, find_assignment, make_vars_from, make_vars_to_pbuild, shell_split, shell_words};
use crate::depfile::{whitespace_words, words};
use crate::hash::{first_index, index_of_char, lines, split_lines};
use crate::strmap::{copy_string, str_eq};
use crate::text::{
    contains_seq, decimal, decimal_of, escape_quotes, escape_quotes_exec, from_chars, has_infix,
    has_prefix, join_str, join_strings, starts_with, sub_chars, to_chars, trim, trim_end,
    trim_end_char, trim_end_matching, trim_end_ws, trim_start, trim_start_char, trim_start_matching,
    trim_start_ws, trim_ws, views,
};

verus! {

/// A target read from the Makefile: its name, dependencies and recipe.
pub type TargetView = (Seq<char>, Seq<Seq<char>>, Seq<Seq<char>>);

/// What has been read of a Makefile so far.
pub struct ImportState {
    /// Simple variable assignments, in order.
    pub vars: Seq<(Seq<char>, Seq<char>)>,
    /// The names declared `.PHONY`.
    pub phony: Seq<Seq<char>>,
    /// The targets finished so far, in order.
    pub targets: Seq<TargetView>,
    /// The warnings so far, in order.
    pub warnings: Seq<Seq<char>>,
    /// The target whose recipe is being read, with its dependencies.
    pub current: Option<(Seq<char>, Seq<Seq<char>>)>,
    /// The recipe lines read for it.
    pub recipe: Seq<Seq<char>>,
}

/// Nothing read yet.
pub open spec fn start_state() -> ImportState {
    ImportState {
        vars: seq![],
        phony: seq![],
        targets: seq![],
        warnings: seq![],
        current: None,
        recipe: seq![],
    }
}

/// The target being read, if any, is finished.
pub open spec fn flushed(st: ImportState) -> ImportState {
    match st.current {
        Some(c) => ImportState {
            targets: st.targets.push((c.0, c.1, st.recipe)),
            current: None,
            recipe: seq![],
            ..st
        },
        None => st,
    }
}

/// The start of a warning about line `n`.
pub open spec fn line_label(n: nat) -> Seq<char> {
    "line "@ + decimal_of(n) + ": "@
}

/// A conditional directive that cannot be converted.
pub open spec fn is_conditional(t: Seq<char>) -> bool {
    starts_with(t, "ifeq"@) || starts_with(t, "ifneq"@) || starts_with(t, "ifdef"@) || starts_with(
        t,
        "ifndef"@,
    ) || starts_with(t, "else"@) || starts_with(t, "endif"@)
}

/// The words that do not start with `$` (make-variable dependencies are
/// skipped).
pub open spec fn without_variables(ws: Seq<Seq<char>>) -> Seq<Seq<char>>
    decreases ws.len(),
{
    if ws.len() == 0 {
        seq![]
    } else {
        without_variables(ws.drop_last()) + if starts_with(ws.last(), "$"@) {
            seq![]
        } else {
            seq![ws.last()]
        }
    }
}

/// A line of the Makefile with trailing backslashes and whitespace removed.
pub open spec fn clean_line(raw: Seq<char>) -> Seq<char> {
    trim_end_ws(trim_end_char(raw, '\\'))
}

/// What reading line number `n`, `raw`, does.
pub open spec fn line_step(st: ImportState, raw: Seq<char>, n: nat) -> ImportState {
    let line = clean_line(raw);
    let lead = trim_start_ws(line);
    if trim_ws(line).len() == 0 || starts_with(lead, "#"@) {
        // Blank lines and comments.
        st
    } else if raw.len() > 0 && raw[0] == '\t' {
        // Recipe lines (indented with a real tab).
        if st.current is Some {
            let cmd = trim_ws(trim_start_char(line, '@'));
            if contains_seq(cmd, "$(MAKE)"@) || contains_seq(cmd, "${MAKE}"@) {
                ImportState {
                    warnings: st.warnings.push(
                        line_label(n) + "skipped recursive $(MAKE) call — convert manually"@,
                    ),
                    ..st
                }
            } else if cmd.len() > 0 {
                ImportState { recipe: st.recipe.push(make_vars_from(cmd, 0)), ..st }
            } else {
                st
            }
        } else {
            st
        }
    } else if starts_with(lead, ".PHONY"@) {
        let names = if line.contains(':') {
            words(line.skip(first_index(line, ':') + 1))
        } else {
            seq![]
        };
        flushed(ImportState { phony: st.phony + names, ..st })
    } else if starts_with(lead, "."@) {
        // Built-in / internal targets.
        flushed(st)
    } else if is_conditional(lead) {
        flushed(
            ImportState {
                warnings: st.warnings.push(
                    line_label(n) + "conditional `"@ + lead
                        + "` — conditional logic cannot be converted; review manually"@,
                ),
                ..st
            },
        )
    } else if assignment_from(line, 0) is Some {
        let (lhs, op, rhs) = assignment_from(line, 0)->Some_0;
        let st1 = flushed(st);
        let val = trim_ws(rhs);
        if contains_seq(val, "$(shell"@) || contains_seq(val, "${shell"@) {
            ImportState {
                warnings: st1.warnings.push(
                    line_label(n) + "variable `"@ + lhs
                        + "` uses $(shell ...) — set it manually or use a [vars] entry"@,
                ),
                ..st1
            }
        } else if op != "+="@ {
            ImportState { vars: st1.vars.push((trim_ws(lhs), make_vars_from(val, 0))), ..st1 }
        } else {
            st1
        }
    } else if line.contains(':') {
        let colon = first_index(line, ':');
        let target = trim_ws(line.take(colon));
        if target.contains('%') {
            flushed(
                ImportState {
                    warnings: st.warnings.push(
                        line_label(n) + "skipped pattern rule `"@ + target + "` — convert manually"@,
                    ),
                    ..st
                },
            )
        } else if target.contains('$') {
            flushed(
                ImportState {
                    warnings: st.warnings.push(
                        line_label(n) + "skipped dynamic target `"@ + target + "` — convert manually"@,
                    ),
                    ..st
                },
            )
        } else {
            let deps = without_variables(
                words(trim_start_char(trim_ws(line.skip(colon + 1)), ':')),
            );
            ImportState { current: Some((target, deps)), recipe: seq![], ..flushed(st) }
        }
    } else {
        st
    }
}

/// The state after reading the first `k` lines.
pub open spec fn read_lines(ls: Seq<Seq<char>>, k: int) -> ImportState
    decreases k,
{
    if k <= 0 {
        start_state()
    } else {
        line_step(read_lines(ls, k - 1), ls[k - 1], k as nat)
    }
}

/// Everything a Makefile holds, the last target finished.
pub open spec fn read_makefile(src: Seq<char>) -> ImportState {
    let ls = lines(src);
    flushed(read_lines(ls, ls.len() as int))
}

/// The first target from position `k` on that is neither declared
/// `.PHONY` nor one of the special names `all` and `help`.
pub open spec fn first_main_target(ts: Seq<TargetView>, phony: Seq<Seq<char>>, k: int) -> Option<Seq<char>>
    decreases ts.len() - k,
{
    if k < 0 || k >= ts.len() {
        None
    } else if ts[k].0 != "all"@ && ts[k].0 != "help"@ && !phony.contains(ts[k].0) {
        Some(ts[k].0)
    } else {
        first_main_target(ts, phony, k + 1)
    }
}

/// The first target from position `k` on that is declared `.PHONY`.
pub open spec fn first_phony_target(ts: Seq<TargetView>, phony: Seq<Seq<char>>, k: int) -> Option<Seq<char>>
    decreases ts.len() - k,
{
    if k < 0 || k >= ts.len() {
        None
    } else if phony.contains(ts[k].0) {
        Some(ts[k].0)
    } else {
        first_phony_target(ts, phony, k + 1)
    }
}

/// The default target: the first one that is neither phony nor special
/// (`all`, `help`), else the first phony one, else the first one, else
/// `build`.
pub open spec fn default_target(ts: Seq<TargetView>, phony: Seq<Seq<char>>) -> Seq<char> {
    match first_main_target(ts, phony, 0) {
        Some(n) => n,
        None => match first_phony_target(ts, phony, 0) {
            Some(n) => n,
            None => if ts.len() > 0 {
                ts[0].0
            } else {
                "build"@
            },
        },
    }
}

/// The variables worth a `[vars]` entry: a value without `$`, not empty.
pub open spec fn emittable(vs: Seq<(Seq<char>, Seq<char>)>) -> Seq<(Seq<char>, Seq<char>)>
    decreases vs.len(),
{
    if vs.len() == 0 {
        seq![]
    } else {
        emittable(vs.drop_last()) + if !vs.last().1.contains('$') && vs.last().1.len() > 0 {
            seq![vs.last()]
        } else {
            seq![]
        }
    }
}

/// `key = "value"` lines.
pub open spec fn var_lines(vs: Seq<(Seq<char>, Seq<char>)>) -> Seq<char>
    decreases vs.len(),
{
    if vs.len() == 0 {
        seq![]
    } else {
        var_lines(vs.drop_last()) + vs.last().0 + " = \""@ + vs.last().1 + "\"\n"@
    }
}

/// The `[vars]` section, when there is something to put in it.
pub open spec fn vars_section(vs: Seq<(Seq<char>, Seq<char>)>) -> Seq<char> {
    if emittable(vs).len() > 0 {
        "[vars]\n"@ + var_lines(emittable(vs)) + "\n"@
    } else {
        seq![]
    }
}

/// The names of the targets.
pub open spec fn target_names(ts: Seq<TargetView>) -> Seq<Seq<char>> {
    ts.map_values(|t: TargetView| t.0)
}

/// The dependencies that are targets of the Makefile (source files are
/// left out).
pub open spec fn known_deps(deps: Seq<Seq<char>>, names: Seq<Seq<char>>) -> Seq<Seq<char>>
    decreases deps.len(),
{
    if deps.len() == 0 {
        seq![]
    } else {
        known_deps(deps.drop_last(), names) + if names.contains(deps.last()) {
            seq![deps.last()]
        } else {
            seq![]
        }
    }
}

/// `s` in double quotes.
pub open spec fn quoted(s: Seq<char>) -> Seq<char> {
    "\""@ + s + "\""@
}

/// Each string quoted.
pub open spec fn quote_each(v: Seq<Seq<char>>) -> Seq<Seq<char>> {
    v.map_values(|s: Seq<char>| quoted(s))
}

/// Each string quoted, its quotes escaped.
pub open spec fn quote_escaped_each(v: Seq<Seq<char>>) -> Seq<Seq<char>> {
    v.map_values(|s: Seq<char>| quoted(escape_quotes(s)))
}

/// A recipe line as a TOML array's elements.
pub open spec fn argv_toml(cmd: Seq<char>) -> Seq<char> {
    join_str(quote_escaped_each(shell_words(cmd)), ", "@)
}

/// The lines of a `commands = [...]` array.
pub open spec fn command_lines(recipe: Seq<Seq<char>>) -> Seq<char>
    decreases recipe.len(),
{
    if recipe.len() == 0 {
        seq![]
    } else {
        command_lines(recipe.drop_last()) + "    ["@ + argv_toml(recipe.last()) + "],\n"@
    }
}

/// The command entry of a rule.
pub open spec fn command_part(recipe: Seq<Seq<char>>, deps: Seq<Seq<char>>) -> Seq<char> {
    if recipe.len() == 0 && deps.len() > 0 {
        // Aggregate target: deps but no recipe — runs deps then exits cleanly.
        "command = [\"true\"]\n"@
    } else if recipe.len() == 0 {
        // Stub target: no deps, no recipe — needs manual filling.
        "# no commands — add a command field\n"@ + "command = [\"echo\", \"TODO\"]\n"@
    } else if recipe.len() == 1 {
        "command = ["@ + argv_toml(recipe[0]) + "]\n"@
    } else {
        "commands = [\n"@ + command_lines(recipe) + "]\n"@
    }
}

/// A character a bare TOML key may hold: an ASCII letter or digit, `_` or
/// `-`.
pub open spec fn bare_key_char(c: char) -> bool {
    ('A' <= c && c <= 'Z') || ('a' <= c && c <= 'z') || ('0' <= c && c <= '9') || c == '_' || c == '-'
}

/// A name TOML takes as a bare key: not empty, only bare-key characters.
pub open spec fn bare_key(name: Seq<char>) -> bool {
    name.len() > 0 && forall|i: int| 0 <= i < name.len() ==> bare_key_char(#[trigger] name[i])
}

/// The table header of a rule: the name as it is when TOML takes it as a
/// bare key, else in double quotes (a name with `.`, `/`, a space or any
/// other character a bare key cannot hold).
pub open spec fn key_line(name: Seq<char>) -> Seq<char> {
    if bare_key(name) {
        "["@ + name + "]\n"@
    } else {
        "[\""@ + name + "\"]\n"@
    }
}

/// Every table header the import writes is a valid TOML key for the
/// target's name: a name holding any character other than an ASCII
/// letter, digit, `_` or `-` (or an empty one) is written in double
/// quotes, and one written bare holds only those characters.
pub proof fn lemma_headers_are_valid_keys(name: Seq<char>)
    ensures
        (name.len() == 0 || exists|i: int|
            0 <= i < name.len() && !(('A' <= #[trigger] name[i] && name[i] <= 'Z') || ('a' <= name[i] && name[i]
                <= 'z') || ('0' <= name[i] && name[i] <= '9') || name[i] == '_' || name[i] == '-')) ==> key_line(
            name,
        ) == "[\""@ + name + "\"]\n"@,
        key_line(name) == "["@ + name + "]\n"@ || key_line(name) == "[\""@ + name + "\"]\n"@,
        key_line(name) == "["@ + name + "]\n"@ && key_line(name) != "[\""@ + name + "\"]\n"@ ==> name.len() > 0
            && forall|i: int|
            0 <= i < name.len() ==> ('A' <= #[trigger] name[i] && name[i] <= 'Z') || ('a' <= name[i] && name[i]
                <= 'z') || ('0' <= name[i] && name[i] <= '9') || name[i] == '_' || name[i] == '-',
{
    if name.len() > 0 && exists|i: int|
        0 <= i < name.len() && !(('A' <= #[trigger] name[i] && name[i] <= 'Z') || ('a' <= name[i] && name[i]
            <= 'z') || ('0' <= name[i] && name[i] <= '9') || name[i] == '_' || name[i] == '-') {
        let i = choose|i: int|
            0 <= i < name.len() && !(('A' <= #[trigger] name[i] && name[i] <= 'Z') || ('a' <= name[i] && name[i]
                <= 'z') || ('0' <= name[i] && name[i] <= '9') || name[i] == '_' || name[i] == '-');
        assert(!bare_key_char(name[i]));
    }
    if key_line(name) != "[\""@ + name + "\"]\n"@ {
        assert(bare_key(name));
    }
}

/// A target is a task when declared `.PHONY`, when its name has no
/// extension, or when it has no recipe.
pub open spec fn is_task(t: TargetView, phony: Seq<Seq<char>>) -> bool {
    phony.contains(t.0) || !t.0.contains('.') || t.2.len() == 0
}

/// The rule written for one target.
pub open spec fn target_section(t: TargetView, phony: Seq<Seq<char>>, names: Seq<Seq<char>>) -> Seq<char> {
    let deps = known_deps(t.1, names);
    key_line(t.0) + (if is_task(t, phony) {
        "type    = \"task\"\n"@
    } else {
        seq![]
    }) + (if deps.len() > 0 {
        "deps    = ["@ + join_str(quote_each(deps), ", "@) + "]\n"@
    } else {
        seq![]
    }) + command_part(t.2, deps) + "\n"@
}

/// The rules written for the first `k` targets.
pub open spec fn target_sections(ts: Seq<TargetView>, k: int, phony: Seq<Seq<char>>) -> Seq<char>
    decreases k,
{
    if k <= 0 {
        seq![]
    } else {
        target_sections(ts, k - 1, phony) + target_section(ts[k - 1], phony, target_names(ts))
    }
}

/// The `pbuild.toml` written for what was read.
pub open spec fn import_text(st: ImportState) -> Seq<char> {
    "# pbuild.toml — generated by `pbuild import`\n# Review and adjust before use.\n\n"@
        + "[config]\ndefault = \""@ + default_target(st.targets, st.phony) + "\"\n\n"@ + vars_section(st.vars)
        + target_sections(st.targets, st.targets.len() as int, st.phony)
}

/// A target, executably.
pub type Target3 = (String, Vec<String>, Vec<String>);

/// The view of a target.
pub open spec fn target_view(t: Target3) -> TargetView {
    (t.0@, views(t.1@), views(t.2@))
}

/// The reader's state, executably.
struct Importer {
    vars: Vec<(String, String)>,
    phony: Vec<String>,
    targets: Vec<Target3>,
    warnings: Vec<String>,
    current: Option<(String, Vec<String>)>,
    recipe: Vec<String>,
}

impl Importer {
    spec fn state(&self) -> ImportState {
        ImportState {
            vars: self.vars@.map_values(|p: (String, String)| (p.0@, p.1@)),
            phony: views(self.phony@),
            targets: self.targets@.map_values(|t: Target3| target_view(t)),
            warnings: views(self.warnings@),
            current: match self.current {
                Some(c) => Some((c.0@, views(c.1@))),
                None => None,
            },
            recipe: views(self.recipe@),
        }
    }

    /// Finish the target being read.
    fn flush(&mut self)
        ensures
            final(self).state() == flushed(old(self).state()),
    {
        let mut cur: Option<(String, Vec<String>)> = None;
        std::mem::swap(&mut cur, &mut self.current);
        match cur {
            Some((name, deps)) => {
                let mut recipe: Vec<String> = Vec::new();
                std::mem::swap(&mut recipe, &mut self.recipe);
                let ghost t = (name@, views(deps@), views(recipe@));
                let ghost before = self.targets@.map_values(|t: Target3| target_view(t));
                self.targets.push((name, deps, recipe));
                assert(self.targets@.map_values(|t: Target3| target_view(t)) =~= before.push(t));
                assert(views(self.recipe@) =~= Seq::<Seq<char>>::empty());
            },
            None => {},
        }
    }

    /// Record a warning for line `n`.
    fn warn(&mut self, n: usize, text: &str, subject: &str, tail: &str)
        ensures
            final(self).state() == (ImportState {
                warnings: old(self).state().warnings.push(line_label(n as nat) + text@ + subject@ + tail@),
                ..old(self).state()
            }),
    {
        let m = String::from_str("line ").concat(decimal(n as u64).as_str()).concat(": ").concat(text).concat(
            subject,
        ).concat(tail);
        let ghost before = views(self.warnings@);
        self.warnings.push(m);
        assert(views(self.warnings@) =~= before.push(m@));
        assert(m@ =~= line_label(n as nat) + text@ + subject@ + tail@);
    }
}

/// Read one line, `raw`, number `n`.
#[verifier::rlimit(80)]
#[verifier::spinoff_prover]
fn read_line(st: &mut Importer, raw: &str, n: usize)
    ensures
        final(st).state() == line_step(old(st).state(), raw@, n as nat),
{
    let rc = to_chars(raw);
    let no_bs = trim_end_matching(rc.as_slice(), '\\');
    let line = trim_end(no_bs.as_slice());
    let ln = line.len();
    let lead = trim_start(line.as_slice());
    let all = trim(line.as_slice());
    // Skip blank lines and comments.
    if all.len() == 0 || has_prefix(lead.as_slice(), "#") {
        return ;
    }
    // Recipe lines (indented with a real tab in the Makefile).
    if rc.len() > 0 && rc[0] == '\t' {
        if st.current.is_some() {
            // Strip leading @ (silencing prefix) and leading whitespace.
            let no_at = trim_start_matching(line.as_slice(), '@');
            let cmd = trim(no_at.as_slice());
            // Skip $(MAKE) recursive calls — they need manual attention.
            if has_infix(cmd.as_slice(), "$(MAKE)") || has_infix(cmd.as_slice(), "${MAKE}") {
                st.warn(n, "skipped recursive $(MAKE) call — convert manually", "", "");
                proof {
                    assert(""@ =~= Seq::<char>::empty()) by {
                        reveal_strlit("");
                    }
                }
                return ;
            }
            if cmd.len() > 0 {
                let c = from_chars(cmd.as_slice());
                let converted = make_vars_to_pbuild(c.as_str());
                let ghost before = views(st.recipe@);
                st.recipe.push(converted);
                assert(views(st.recipe@) =~= before.push(converted@));
            }
        }
        return ;
    }
    // .PHONY declaration.
    if has_prefix(lead.as_slice(), ".PHONY") {
        match index_of_char(line.as_slice(), ':') {
            Some(i) => {
                let rest = sub_chars(line.as_slice(), i + 1, ln);
                assert(rest@ =~= line@.skip(i + 1));
                let names = whitespace_words(rest.as_slice());
                crate::types::append_strings(&mut st.phony, &names);
            },
            None => {
                assert(views(st.phony@) =~= views(st.phony@) + Seq::<Seq<char>>::empty());
            },
        }
        st.flush();
        return ;
    }
    // Skip built-in / internal targets.
    if has_prefix(lead.as_slice(), ".") {
        st.flush();
        return ;
    }
    // Skip ifeq/ifdef/else/endif.
    let l = lead.as_slice();
    if has_prefix(l, "ifeq") || has_prefix(l, "ifneq") || has_prefix(l, "ifdef") || has_prefix(l, "ifndef")
        || has_prefix(l, "else") || has_prefix(l, "endif") {
        let t = from_chars(l);
        st.warn(n, "conditional `", t.as_str(), "` — conditional logic cannot be converted; review manually");
        st.flush();
        return ;
    }
    // Variable assignment: VAR = val, VAR := val, VAR ?= val, VAR += val.
    let line_s = from_chars(line.as_slice());
    match find_assignment(line_s.as_str()) {
        Some((lhs, op, rhs)) => {
            st.flush();
            let rc2 = to_chars(rhs.as_str());
            let val = trim(rc2.as_slice());
            if has_infix(val.as_slice(), "$(shell") || has_infix(val.as_slice(), "${shell") {
                st.warn(n, "variable `", lhs.as_str(), "` uses $(shell ...) — set it manually or use a [vars] entry");
            } else if !str_eq(op, "+=") {
                // Only store simple assignments; += is too stateful to translate.
                let lc = to_chars(lhs.as_str());
                let key = from_chars(trim(lc.as_slice()).as_slice());
                let v = from_chars(val.as_slice());
                let expanded = make_vars_to_pbuild(v.as_str());
                let ghost before = st.state().vars;
                st.vars.push((key, expanded));
                assert(st.state().vars =~= before.push((trim_ws(lhs@), make_vars_from(val@, 0))));
            }
            return ;
        },
        None => {},
    }
    // Target rule: target: deps...
    match index_of_char(line.as_slice(), ':') {
        Some(colon) => {
            let head = sub_chars(line.as_slice(), 0, colon);
            assert(head@ =~= line@.take(colon as int));
            let tp = trim(head.as_slice());
            let target = from_chars(tp.as_slice());
            // Skip pattern rules.
            if index_of_char(tp.as_slice(), '%').is_some() {
                st.warn(n, "skipped pattern rule `", target.as_str(), "` — convert manually");
                st.flush();
                return ;
            }
            // Skip targets with variable expansions in name — too dynamic.
            if index_of_char(tp.as_slice(), '$').is_some() {
                st.warn(n, "skipped dynamic target `", target.as_str(), "` — convert manually");
                st.flush();
                return ;
            }
            st.flush();
            let after = sub_chars(line.as_slice(), colon + 1, ln);
            assert(after@ =~= line@.skip(colon + 1));
            let dp = trim_start_matching(trim(after.as_slice()).as_slice(), ':');
            let ws = whitespace_words(dp.as_slice());
            let deps = skip_variables(&ws);
            st.current = Some((target, deps));
            st.recipe = Vec::new();
            assert(views(st.recipe@) =~= Seq::<Seq<char>>::empty());
        },
        None => {},
    }
}

/// The words that do not start with `$`.
fn skip_variables(ws: &Vec<String>) -> (r: Vec<String>)
    ensures
        views(r@) == without_variables(views(ws@)),
{
    let ghost w = views(ws@);
    let mut r: Vec<String> = Vec::new();
    let mut i: usize = 0;
    while i < ws.len()
        invariant
            i <= ws@.len(),
            w == views(ws@),
            views(r@) == without_variables(w.take(i as int)),
        decreases ws@.len() - i,
    {
        assert(w.take(i + 1).drop_last() =~= w.take(i as int));
        assert(w.take(i + 1).last() == ws@[i as int]@);
        let cs = to_chars(ws[i].as_str());
        if !has_prefix(cs.as_slice(), "$") {
            let ghost before = views(r@);
            r.push(copy_string(&ws[i]));
            assert(views(r@) =~= before + seq![ws@[i as int]@]);
        } else {
            assert(views(r@) =~= views(r@) + Seq::<Seq<char>>::empty());
        }
        i = i + 1;
    }
    assert(w.take(ws@.len() as int) =~= w);
    r
}

/// Read a whole Makefile.
fn read_all(src: &str) -> (st: Importer)
    ensures
        st.state() == read_makefile(src@),
{
    let ls = split_lines(src);
    let ghost lv = views(ls@);
    let mut st = Importer {
        vars: Vec::new(),
        phony: Vec::new(),
        targets: Vec::new(),
        warnings: Vec::new(),
        current: None,
        recipe: Vec::new(),
    };
    assert(st.state() == start_state()) by {
        assert(st.state().vars =~= Seq::<(Seq<char>, Seq<char>)>::empty());
        assert(st.state().phony =~= Seq::<Seq<char>>::empty());
        assert(st.state().targets =~= Seq::<TargetView>::empty());
        assert(st.state().warnings =~= Seq::<Seq<char>>::empty());
        assert(st.state().recipe =~= Seq::<Seq<char>>::empty());
    }
    let mut i: usize = 0;
    while i < ls.len()
        invariant
            i <= ls@.len(),
            lv == views(ls@),
            lv == lines(src@),
            st.state() == read_lines(lv, i as int),
        decreases ls@.len() - i,
    {
        assert(lv[i as int] == ls@[i as int]@);
        read_line(&mut st, ls[i].as_str(), i + 1);
        i = i + 1;
    }
    st.flush();
    st
}


/// Whether `v` holds a string equal to `x`.
pub fn holds(v: &Vec<String>, x: &str) -> (b: bool)
    ensures
        b == views(v@).contains(x@),
{
    let mut i: usize = 0;
    while i < v.len()
        invariant
            i <= v@.len(),
            forall|j: int| 0 <= j < i ==> (#[trigger] v@[j])@ != x@,
        decreases v@.len() - i,
    {
        if str_eq(v[i].as_str(), x) {
            assert(views(v@)[i as int] == x@);
            return true;
        }
        i = i + 1;
    }
    proof {
        if views(v@).contains(x@) {
            let j = choose|j: int| 0 <= j < views(v@).len() && views(v@)[j] == x@;
            assert(v@[j]@ == x@);
        }
    }
    false
}

/// The default target of what was read, given the names declared `.PHONY`.
fn default_name(ts: &Vec<Target3>, phony: &Vec<String>) -> (d: String)
    ensures
        d@ == default_target(ts@.map_values(|t: Target3| target_view(t)), views(phony@)),
{
    let ghost tv = ts@.map_values(|t: Target3| target_view(t));
    let ghost ph = views(phony@);
    let mut k: usize = 0;
    while k < ts.len()
        invariant
            k <= ts@.len(),
            tv == ts@.map_values(|t: Target3| target_view(t)),
            ph == views(phony@),
            first_main_target(tv, ph, 0) == first_main_target(tv, ph, k as int),
        decreases ts@.len() - k,
    {
        assert(tv[k as int].0 == ts@[k as int].0@);
        let name = ts[k].0.as_str();
        if !str_eq(name, "all") && !str_eq(name, "help") && !holds(phony, name) {
            return copy_string(&ts[k].0);
        }
        k = k + 1;
    }
    let mut k: usize = 0;
    while k < ts.len()
        invariant
            k <= ts@.len(),
            tv == ts@.map_values(|t: Target3| target_view(t)),
            ph == views(phony@),
            first_main_target(tv, ph, 0) is None,
            first_phony_target(tv, ph, 0) == first_phony_target(tv, ph, k as int),
        decreases ts@.len() - k,
    {
        assert(tv[k as int].0 == ts@[k as int].0@);
        if holds(phony, ts[k].0.as_str()) {
            return copy_string(&ts[k].0);
        }
        k = k + 1;
    }
    if ts.len() > 0 {
        assert(tv[0].0 == ts@[0].0@);
        copy_string(&ts[0].0)
    } else {
        String::from_str("build")
    }
}

/// The `[vars]` section.
fn vars_text(vs: &Vec<(String, String)>) -> (s: String)
    ensures
        s@ == vars_section(vs@.map_values(|p: (String, String)| (p.0@, p.1@))),
{
    let ghost v = vs@.map_values(|p: (String, String)| (p.0@, p.1@));
    let mut body = String::new();
    let mut count: usize = 0;
    let mut i: usize = 0;
    while i < vs.len()
        invariant
            i <= vs@.len(),
            v == vs@.map_values(|p: (String, String)| (p.0@, p.1@)),
            body@ == var_lines(emittable(v.take(i as int))),
            count as int == emittable(v.take(i as int)).len(),
            count <= i,
        decreases vs@.len() - i,
    {
        assert(v.take(i + 1).drop_last() =~= v.take(i as int));
        assert(v.take(i + 1).last() == (vs@[i as int].0@, vs@[i as int].1@));
        let value = vs[i].1.as_str();
        let vc = to_chars(value);
        if index_of_char(vc.as_slice(), '$').is_none() && vc.len() > 0 {
            let ghost e0 = emittable(v.take(i as int));
            let ghost e1 = e0.push(v.take(i + 1).last());
            assert(emittable(v.take(i + 1)) =~= e1);
            assert(e1.drop_last() =~= e0);
            body.append(vs[i].0.as_str());
            body.append(" = \"");
            body.append(value);
            body.append("\"\n");
            count = count + 1;
        } else {
            assert(emittable(v.take(i + 1)) =~= emittable(v.take(i as int)));
        }
        i = i + 1;
    }
    assert(v.take(vs@.len() as int) =~= v);
    if count > 0 {
        String::from_str("[vars]\n").concat(body.as_str()).concat("\n")
    } else {
        String::new()
    }
}

/// The dependencies that are targets.
fn dependencies_known(deps: &Vec<String>, names: &Vec<String>) -> (r: Vec<String>)
    ensures
        views(r@) == known_deps(views(deps@), views(names@)),
{
    let ghost d = views(deps@);
    let mut r: Vec<String> = Vec::new();
    let mut i: usize = 0;
    while i < deps.len()
        invariant
            i <= deps@.len(),
            d == views(deps@),
            views(r@) == known_deps(d.take(i as int), views(names@)),
        decreases deps@.len() - i,
    {
        assert(d.take(i + 1).drop_last() =~= d.take(i as int));
        assert(d.take(i + 1).last() == deps@[i as int]@);
        if holds(names, deps[i].as_str()) {
            let ghost before = views(r@);
            r.push(copy_string(&deps[i]));
            assert(views(r@) =~= before + seq![deps@[i as int]@]);
        } else {
            assert(views(r@) =~= views(r@) + Seq::<Seq<char>>::empty());
        }
        i = i + 1;
    }
    assert(d.take(deps@.len() as int) =~= d);
    r
}

/// Each string quoted (escaping quotes when asked).
fn quote_all(v: &Vec<String>, escape: bool) -> (r: Vec<String>)
    ensures
        views(r@) == if escape {
            quote_escaped_each(views(v@))
        } else {
            quote_each(views(v@))
        },
{
    let mut r: Vec<String> = Vec::new();
    let mut i: usize = 0;
    while i < v.len()
        invariant
            i <= v@.len(),
            r@.len() == i,
            forall|j: int|
                0 <= j < i ==> (#[trigger] r@[j])@ == if escape {
                    quoted(escape_quotes(v@[j]@))
                } else {
                    quoted(v@[j]@)
                },
        decreases v@.len() - i,
    {
        let inner = if escape {
            escape_quotes_exec(v[i].as_str())
        } else {
            copy_string(&v[i])
        };
        r.push(String::from_str("\"").concat(inner.as_str()).concat("\""));
        i = i + 1;
    }
    assert(views(r@) =~= if escape {
        quote_escaped_each(views(v@))
    } else {
        quote_each(views(v@))
    });
    r
}

/// A recipe line as TOML array elements.
fn argv_text(cmd: &str) -> (s: String)
    ensures
        s@ == argv_toml(cmd@),
{
    let argv = shell_split(cmd);
    let q = quote_all(&argv, true);
    join_strings(&q, ", ")
}

/// The command entry of a rule.
fn command_text(recipe: &Vec<String>, deps: &Vec<String>) -> (s: String)
    ensures
        s@ == command_part(views(recipe@), views(deps@)),
{
    if recipe.len() == 0 && deps.len() > 0 {
        String::from_str("command = [\"true\"]\n")
    } else if recipe.len() == 0 {
        String::from_str("# no commands — add a command field\n").concat("command = [\"echo\", \"TODO\"]\n")
    } else if recipe.len() == 1 {
        assert(views(recipe@)[0] == recipe@[0]@);
        String::from_str("command = [").concat(argv_text(recipe[0].as_str()).as_str()).concat("]\n")
    } else {
        let ghost rv = views(recipe@);
        let mut body = String::new();
        let mut i: usize = 0;
        while i < recipe.len()
            invariant
                i <= recipe@.len(),
                rv == views(recipe@),
                body@ == command_lines(rv.take(i as int)),
            decreases recipe@.len() - i,
        {
            assert(rv.take(i + 1).drop_last() =~= rv.take(i as int));
            assert(rv.take(i + 1).last() == recipe@[i as int]@);
            body.append("    [");
            body.append(argv_text(recipe[i].as_str()).as_str());
            body.append("],\n");
            i = i + 1;
        }
        assert(rv.take(recipe@.len() as int) =~= rv);
        String::from_str("commands = [\n").concat(body.as_str()).concat("]\n")
    }
}

/// The table header of a rule.
fn key_text(name: &str) -> (s: String)
    ensures
        s@ == key_line(name@),
{
    let cs = to_chars(name);
    let mut bare = cs.len() > 0;
    let mut i: usize = 0;
    while i < cs.len()
        invariant
            i <= cs@.len(),
            cs@ == name@,
            bare == (cs@.len() > 0 && forall|j: int| 0 <= j < i ==> bare_key_char(#[trigger] cs@[j])),
        decreases cs@.len() - i,
    {
        let c = cs[i];
        if !(('A' <= c && c <= 'Z') || ('a' <= c && c <= 'z') || ('0' <= c && c <= '9') || c == '_' || c == '-') {
            bare = false;
        }
        i = i + 1;
    }
    if bare {
        String::from_str("[").concat(name).concat("]\n")
    } else {
        String::from_str("[\"").concat(name).concat("\"]\n")
    }
}

/// The rule written for one target.
fn section_text(t: &Target3, phony: &Vec<String>, names: &Vec<String>) -> (s: String)
    ensures
        s@ == target_section(target_view(*t), views(phony@), views(names@)),
{
    let name = t.0.as_str();
    let nc = to_chars(name);
    let task = holds(phony, name) || index_of_char(nc.as_slice(), '.').is_none() || t.2.len() == 0;
    let deps = dependencies_known(&t.1, names);
    let mut s = key_text(name);
    if task {
        s.append("type    = \"task\"\n");
    }
    if deps.len() > 0 {
        let q = quote_all(&deps, false);
        s.append("deps    = [");
        s.append(join_strings(&q, ", ").as_str());
        s.append("]\n");
    }
    s.append(command_text(&t.2, &deps).as_str());
    s.append("\n");
    s
}

/// Turn a Makefile's text into a `pbuild.toml`, with the warnings about
/// what could not be converted.
pub fn import_makefile(src: &str) -> (r: (String, Vec<String>))
    ensures
        r.0@ == import_text(read_makefile(src@)),
        views(r.1@) == read_makefile(src@).warnings,
{
    let st = read_all(src);
    let ghost tv = st.targets@.map_values(|t: Target3| target_view(t));
    let mut names: Vec<String> = Vec::new();
    let mut i: usize = 0;
    while i < st.targets.len()
        invariant
            i <= st.targets@.len(),
            tv == st.targets@.map_values(|t: Target3| target_view(t)),
            names@.len() == i,
            forall|j: int| 0 <= j < i ==> (#[trigger] names@[j])@ == tv[j].0,
        decreases st.targets@.len() - i,
    {
        names.push(copy_string(&st.targets[i].0));
        i = i + 1;
    }
    assert(views(names@) =~= target_names(tv));
    let mut out = String::from_str(
        "# pbuild.toml — generated by `pbuild import`\n# Review and adjust before use.\n\n",
    );
    out.append("[config]\ndefault = \"");
    out.append(default_name(&st.targets, &st.phony).as_str());
    out.append("\"\n\n");
    out.append(vars_text(&st.vars).as_str());
    let mut k: usize = 0;
    let ghost head = out@;
    while k < st.targets.len()
        invariant
            k <= st.targets@.len(),
            tv == st.targets@.map_values(|t: Target3| target_view(t)),
            views(names@) == target_names(tv),
            out@ == head + target_sections(tv, k as int, views(st.phony@)),
        decreases st.targets@.len() - k,
    {
        let sec = section_text(&st.targets[k], &st.phony, &names);
        out.append(sec.as_str());
        k = k + 1;
    }
    (out, st.warnings)
}

} // verus!
