//! The build engine's decisions: which inputs a rule is checked against,
//! whether it runs, the commands it runs, what is hashed once it succeeds,
//! and the waves in which a plan is run.
//!
//! Running commands, hashing files and printing stay with the caller; every
//! choice between them is made here.

use vstd::prelude::*;
use vstd::string::{StrSliceExecFns, StringExecFns};

use crate::hash::{
    depfile_key_of, is_dirty, join, join_with, load_depfile_inputs, opt_str_view, split,
    store_depfile_inputs, stored, LockFile,
};
use crate::strmap::{copy_string, str_eq};
use crate::text::{decimal, decimal_of, views};
use crate::types::{
    append_strings, copy_strings, opt_view, rule_views, target_views, OutputMode, Rule, RuleView, Target,
};
use crate::ui::UiConfig;

verus! {

/// How a plan is run.
pub struct Config {
    /// Max concurrent rules.
    pub jobs: usize,
    /// Print commands without executing them.
    pub dry_run: bool,
    /// Print skip lines and extra info.
    pub verbose: bool,
    /// Keep building independent rules after a failure.
    pub keep_going: bool,
    /// Environment variables that trigger a full rebuild when changed.
    pub env: Vec<String>,
    /// Terminal output settings.
    pub ui: UiConfig,
    /// Extra arguments passed after `--` on the CLI. Appended to the last
    /// command of the target rule, or inserted at `{{args}}` if present.
    pub extra_args: Vec<String>,
    /// The targets asked for on the command line: the rules that get
    /// `extra_args`.
    pub targets: Vec<Target>,
    /// Suppress pbuild's own status lines (› start, $ cmd, ✓ done).
    /// Command output is still shown.
    pub quiet: bool,
}

impl Default for Config {
    fn default() -> (c: Self)
        ensures
            c.jobs == 4,
            !c.dry_run,
            !c.verbose,
            !c.keep_going,
            c.env@.len() == 0,
            c.ui.color is None,
            c.ui.prefix is None,
            c.extra_args@.len() == 0,
            c.targets@.len() == 0,
            !c.quiet,
    {
        Config {
            jobs: 4,
            dry_run: false,
            verbose: false,
            keep_going: false,
            env: Vec::new(),
            ui: UiConfig { color: None, prefix: None },
            extra_args: Vec::new(),
            targets: Vec::new(),
            quiet: false,
        }
    }
}

/// The inputs that the lock file remembers from the depfile of a rule
/// whose output is `output`.
pub open spec fn remembered_inputs(lf: Map<Seq<char>, Seq<char>>, output: Seq<char>) -> Seq<
    Seq<char>,
> {
    match stored(lf, depfile_key_of(output)) {
        Some(v) => split(v, '\t'),
        None => seq![],
    }
}

/// The inputs a rule is checked against: its declared inputs, followed, when
/// it has a depfile, by the inputs discovered in an earlier run.
pub open spec fn all_inputs_of(r: RuleView, lf: Map<Seq<char>, Seq<char>>) -> Seq<Seq<char>> {
    match r.depfile {
        Some(_) => r.inputs + remembered_inputs(lf, r.output),
        None => r.inputs,
    }
}

/// Merge declared inputs with any previously discovered depfile inputs.
pub fn all_inputs(rule: &Rule, lf: &LockFile) -> (v: Vec<String>)
    ensures
        views(v@) == all_inputs_of(rule@, lf.view()),
{
    let mut v = copy_strings(&rule.inputs);
    match &rule.depfile {
        Some(_) => {
            let found = load_depfile_inputs(lf, rule.output.as_str());
            append_strings(&mut v, &found);
        },
        None => {},
    }
    v
}

/// The views of a sequence of optional strings.
pub open spec fn opt_views(v: Seq<Option<String>>) -> Seq<Option<Seq<char>>> {
    v.map_values(|o: Option<String>| opt_view(o))
}

/// The `i`-th input is missing now (`current[i]` is `None`) or its hash
/// differs from the stored one.
pub open spec fn input_dirty(
    lf: Map<Seq<char>, Seq<char>>,
    inputs: Seq<Seq<char>>,
    current: Seq<Option<Seq<char>>>,
    i: int,
) -> bool {
    current[i] is None || current[i] != stored(lf, inputs[i])
}

/// A rule with these inputs is dirty: it has none, or one of them changed.
pub open spec fn inputs_dirty(
    lf: Map<Seq<char>, Seq<char>>,
    inputs: Seq<Seq<char>>,
    current: Seq<Option<Seq<char>>>,
) -> bool {
    inputs.len() == 0 || exists|i: int| 0 <= i < inputs.len() && #[trigger] input_dirty(lf, inputs, current, i)
}

/// A rule with inputs is dirty exactly when one of them, any one, is
/// missing now or hashes now to something other than what the lock file
/// stores for it (an input the lock file has no entry for counts as
/// changed); a rule without inputs is always dirty.
pub proof fn lemma_dirty_when_any_input_changed(
    lf: Map<Seq<char>, Seq<char>>,
    inputs: Seq<Seq<char>>,
    current: Seq<Option<Seq<char>>>,
)
    requires
        current.len() == inputs.len(),
    ensures
        inputs_dirty(lf, inputs, current) <==> (inputs.len() == 0 || exists|i: int|
            0 <= i < inputs.len() && (#[trigger] current[i] is None || !lf.contains_key(inputs[i])
                || current[i] != Some(lf[inputs[i]]))),
{
    if inputs.len() > 0 {
        if exists|i: int|
            0 <= i < inputs.len() && (#[trigger] current[i] is None || !lf.contains_key(inputs[i])
                || current[i] != Some(lf[inputs[i]])) {
            let i = choose|i: int|
                0 <= i < inputs.len() && (#[trigger] current[i] is None || !lf.contains_key(inputs[i])
                    || current[i] != Some(lf[inputs[i]]));
            assert(input_dirty(lf, inputs, current, i));
        }
        if inputs_dirty(lf, inputs, current) {
            let i = choose|i: int| 0 <= i < inputs.len() && #[trigger] input_dirty(lf, inputs, current, i);
            assert(current[i] is None || !lf.contains_key(inputs[i]) || current[i] != Some(lf[inputs[i]]));
        }
    }
}

/// `o` as an optional string slice.
fn opt_str(o: &Option<String>) -> (r: Option<&str>)
    ensures
        opt_str_view(r) == opt_view(*o),
{
    match o {
        Some(s) => Some(s.as_str()),
        None => None,
    }
}

/// True if any of the given files are dirty relative to the lock file.
/// `current[i]` is the hash of `inputs[i]` now, `None` when it is missing.
/// No declared inputs → always run (returns true).
pub fn any_dirty(lf: &LockFile, inputs: &Vec<String>, current: &Vec<Option<String>>) -> (b: bool)
    requires
        current@.len() == inputs@.len(),
    ensures
        b == inputs_dirty(lf.view(), views(inputs@), opt_views(current@)),
        b <==> (inputs@.len() == 0 || exists|i: int|
            0 <= i < inputs@.len() && (#[trigger] current@[i] is None || !lf.view().contains_key(inputs@[i]@)
                || current@[i]->Some_0@ != lf.view()[inputs@[i]@])),
{
    proof {
        lemma_dirty_when_any_input_changed(lf.view(), views(inputs@), opt_views(current@));
        assert forall|i: int| 0 <= i < inputs@.len() implies (opt_views(current@)[i] is None || !lf.view().contains_key(views(inputs@)[i])
            || opt_views(current@)[i] != Some(lf.view()[views(inputs@)[i]])) == (#[trigger] current@[i] is None || !lf.view().contains_key(inputs@[i]@)
            || current@[i]->Some_0@ != lf.view()[inputs@[i]@]) by {
            assert(views(inputs@)[i] == inputs@[i]@);
        }
    }
    if inputs.len() == 0 {
        return true;
    }
    let mut i: usize = 0;
    while i < inputs.len()
        invariant
            i <= inputs@.len(),
            current@.len() == inputs@.len(),
            forall|j: int|
                0 <= j < i ==> !#[trigger] input_dirty(lf.view(), views(inputs@), opt_views(current@), j),
        decreases inputs@.len() - i,
    {
        let c = opt_str(&current[i]);
        if is_dirty(lf, inputs[i].as_str(), c) {
            assert(input_dirty(lf.view(), views(inputs@), opt_views(current@), i as int));
            return true;
        }
        i = i + 1;
    }
    false
}

/// The extra command-line arguments a rule gets: all of them for a rule of
/// a target asked for on the command line, none for its dependencies.
pub fn extra_args_for(rule: &Rule, targets: &Vec<Target>, extra: &Vec<String>) -> (r: Vec<String>)
    ensures
        views(r@) == if target_views(targets@).contains(rule@.target) {
            views(extra@)
        } else {
            Seq::<Seq<char>>::empty()
        },
{
    if contains_target(targets, &rule.target) {
        copy_strings(extra)
    } else {
        let r: Vec<String> = Vec::new();
        assert(views(r@) =~= Seq::<Seq<char>>::empty());
        r
    }
}

/// The target `pbuild retry` runs again after a rule failed: with
/// keep-going, the rule that failed (the build went on past it); without,
/// the target of the whole plan (`plan_last`), which the failure stopped.
pub fn retry_target(keep_going: bool, failed: &Target, plan_last: &Target) -> (t: String)
    ensures
        t@ == if keep_going {
            failed@.1
        } else {
            plan_last@.1
        },
{
    if keep_going {
        copy_string(failed.name())
    } else {
        copy_string(plan_last.name())
    }
}

/// Some dependency of the rule was rebuilt in this invocation.
pub open spec fn dep_rebuilt_of(r: RuleView, rebuilt: Seq<(bool, Seq<char>)>) -> bool {
    exists|k: int| 0 <= k < r.deps.len() && rebuilt.contains(#[trigger] r.deps[k])
}

/// Whether `t` is among `v`.
fn contains_target(v: &Vec<Target>, t: &Target) -> (b: bool)
    ensures
        b == target_views(v@).contains(t@),
{
    let mut i: usize = 0;
    while i < v.len()
        invariant
            i <= v@.len(),
            forall|j: int| 0 <= j < i ==> #[trigger] v@[j]@ != t@,
        decreases v@.len() - i,
    {
        if v[i].same(t) {
            assert(target_views(v@)[i as int] == t@);
            return true;
        }
        i = i + 1;
    }
    proof {
        if target_views(v@).contains(t@) {
            let j = choose|j: int| 0 <= j < target_views(v@).len() && target_views(v@)[j] == t@;
            assert(v@[j]@ == t@);
        }
    }
    false
}

/// The position of the first dependency of `r` that was rebuilt, or -1.
pub open spec fn first_rebuilt(r: RuleView, rebuilt: Seq<(bool, Seq<char>)>, k: int) -> int
    decreases r.deps.len() - k,
{
    if k < 0 || k >= r.deps.len() {
        -1
    } else if rebuilt.contains(r.deps[k]) {
        k
    } else {
        first_rebuilt(r, rebuilt, k + 1)
    }
}

/// What `first_rebuilt` finds.
proof fn lemma_first_rebuilt(r: RuleView, rebuilt: Seq<(bool, Seq<char>)>, k: int)
    requires
        0 <= k <= r.deps.len(),
    ensures
        first_rebuilt(r, rebuilt, k) == -1 <==> forall|j: int|
            k <= j < r.deps.len() ==> !rebuilt.contains(#[trigger] r.deps[j]),
        first_rebuilt(r, rebuilt, k) != -1 ==> k <= first_rebuilt(r, rebuilt, k) < r.deps.len()
            && rebuilt.contains(r.deps[first_rebuilt(r, rebuilt, k)]),
    decreases r.deps.len() - k,
{
    if k < r.deps.len() {
        lemma_first_rebuilt(r, rebuilt, k + 1);
    }
}

/// The position of the first dependency of the rule that was rebuilt.
pub fn first_rebuilt_dep(rule: &Rule, rebuilt: &Vec<Target>) -> (r: Option<usize>)
    ensures
        match r {
            Some(k) => k as int == first_rebuilt(rule@, target_views(rebuilt@), 0) && k
                < rule.deps@.len(),
            None => first_rebuilt(rule@, target_views(rebuilt@), 0) == -1,
        },
        r is Some <==> dep_rebuilt_of(rule@, target_views(rebuilt@)),
{
    let ghost rb = target_views(rebuilt@);
    proof {
        lemma_first_rebuilt(rule@, rb, 0);
    }
    let mut k: usize = 0;
    while k < rule.deps.len()
        invariant
            k <= rule.deps@.len(),
            rb == target_views(rebuilt@),
            first_rebuilt(rule@, rb, 0) == first_rebuilt(rule@, rb, k as int),
        decreases rule.deps@.len() - k,
    {
        assert(rule@.deps[k as int] == rule.deps@[k as int]@);
        if contains_target(rebuilt, &rule.deps[k]) {
            proof {
                lemma_first_rebuilt(rule@, rb, 0);
            }
            return Some(k);
        }
        k = k + 1;
    }
    proof {
        lemma_first_rebuilt(rule@, rb, 0);
        lemma_first_rebuilt(rule@, rb, k as int);
    }
    None
}

/// Whether the rule must run: when its inputs are dirty (see
/// `inputs_dirty`), a dependency was rebuilt in this invocation, a
/// tracked environment variable changed, or the rule opts out of caching.
pub open spec fn must_run(
    lf: Map<Seq<char>, Seq<char>>,
    r: RuleView,
    inputs: Seq<Seq<char>>,
    current: Seq<Option<Seq<char>>>,
    rebuilt: Seq<(bool, Seq<char>)>,
    env_dirty: bool,
) -> bool {
    inputs_dirty(lf, inputs, current) || dep_rebuilt_of(r, rebuilt) || env_dirty || !r.cache
}

/// Whether a rule runs. It is skipped when ALL of the following hold:
///   1. All inputs are clean (hash matches the lock file).
///   2. No dep target was rebuilt in this invocation (cascade propagation).
///   3. No tracked environment variable changed.
///   4. The rule caches (`cache = true`, the default).
///
/// `inputs` are the rule's inputs (`all_inputs`), `current[i]` the hash of
/// `inputs[i]` now, `rebuilt` the targets rebuilt so far.
pub fn needs_run(
    rule: &Rule,
    lf: &LockFile,
    inputs: &Vec<String>,
    current: &Vec<Option<String>>,
    rebuilt: &Vec<Target>,
    env_dirty: bool,
) -> (b: bool)
    requires
        current@.len() == inputs@.len(),
    ensures
        b == must_run(
            lf.view(),
            rule@,
            views(inputs@),
            opt_views(current@),
            target_views(rebuilt@),
            env_dirty,
        ),
{
    let file_dirty = any_dirty(lf, inputs, current);
    let dep = first_rebuilt_dep(rule, rebuilt);
    file_dirty || dep.is_some() || env_dirty || !rule.cache
}

/// The position of the first `true` in `flags` from `k` on, or -1.
pub open spec fn first_set(flags: Seq<bool>, k: int) -> int
    decreases flags.len() - k,
{
    if k < 0 || k >= flags.len() {
        -1
    } else if flags[k] {
        k
    } else {
        first_set(flags, k + 1)
    }
}

/// Why a rule that runs is dirty, as verbose mode explains it: changed
/// environment variables come first, then the first rebuilt dependency,
/// then the first changed input.
pub open spec fn dirty_reason_of(
    r: RuleView,
    env_dirty: bool,
    rebuilt: Seq<(bool, Seq<char>)>,
    inputs: Seq<Seq<char>>,
    changed: Seq<bool>,
) -> Seq<char> {
    if env_dirty {
        "env vars changed"@
    } else if dep_rebuilt_of(r, rebuilt) {
        "dep rebuilt: "@ + r.deps[first_rebuilt(r, rebuilt, 0)].1
    } else if first_set(changed, 0) >= 0 {
        "changed: "@ + inputs[first_set(changed, 0)]
    } else if !r.cache {
        "cache = false — always runs"@
    } else {
        "no inputs — always runs"@
    }
}

/// The explanation verbose mode prints for a rule that runs. `changed[i]`
/// tells whether `inputs[i]` is dirty (an input that cannot be hashed
/// counts as changed).
pub fn dirty_reason(
    rule: &Rule,
    env_dirty: bool,
    rebuilt: &Vec<Target>,
    inputs: &Vec<String>,
    changed: &Vec<bool>,
) -> (s: String)
    requires
        changed@.len() == inputs@.len(),
    ensures
        s@ == dirty_reason_of(rule@, env_dirty, target_views(rebuilt@), views(inputs@), changed@),
{
    if env_dirty {
        return String::from_str("env vars changed");
    }
    match first_rebuilt_dep(rule, rebuilt) {
        Some(k) => {
            let s = String::from_str("dep rebuilt: ");
            return s.concat(rule.deps[k].name().as_str());
        },
        None => {},
    }
    let mut i: usize = 0;
    while i < changed.len()
        invariant
            i <= changed@.len(),
            changed@.len() == inputs@.len(),
            !env_dirty,
            !dep_rebuilt_of(rule@, target_views(rebuilt@)),
            first_set(changed@, 0) == first_set(changed@, i as int),
        decreases changed@.len() - i,
    {
        if changed[i] {
            assert(first_set(changed@, i as int) == i);
            assert(views(inputs@)[i as int] == inputs@[i as int]@);
            let s = String::from_str("changed: ");
            return s.concat(inputs[i].as_str());
        }
        i = i + 1;
    }
    if !rule.cache {
        return String::from_str("cache = false — always runs");
    }
    String::from_str("no inputs — always runs")
}


/// The placeholder in a target rule's last command that the extra CLI
/// arguments replace.
pub open spec fn args_placeholder() -> Seq<char> {
    "{{args}}"@
}

/// `cmd` with each `{{args}}` token replaced by the tokens `extra`.
pub open spec fn expand_args(cmd: Seq<Seq<char>>, extra: Seq<Seq<char>>) -> Seq<Seq<char>>
    decreases cmd.len(),
{
    if cmd.len() == 0 {
        seq![]
    } else {
        expand_args(cmd.drop_last(), extra) + if cmd.last() == args_placeholder() {
            extra
        } else {
            seq![cmd.last()]
        }
    }
}

/// The last command of a rule as it runs: `{{args}}` tokens replaced by the
/// extra arguments, which are appended instead when there is no such token;
/// then `-MF <depfile>` when the rule declares a depfile.
pub open spec fn last_command(cmd: Seq<Seq<char>>, extra: Seq<Seq<char>>, depfile: Option<Seq<char>>) -> Seq<
    Seq<char>,
> {
    expand_args(cmd, extra) + (if extra.len() > 0 && !cmd.contains(args_placeholder()) {
        extra
    } else {
        seq![]
    }) + match depfile {
        Some(df) => seq!["-MF"@, df],
        None => seq![],
    }
}

/// The commands of a rule as they run: all but the last unchanged.
pub open spec fn final_commands_of(r: RuleView, extra: Seq<Seq<char>>) -> Seq<Seq<Seq<char>>> {
    r.commands.drop_last().push(last_command(r.commands.last(), extra, r.depfile))
}

/// The views of a sequence of argument vectors.
pub open spec fn argv_views(v: Seq<Vec<String>>) -> Seq<Seq<Seq<char>>> {
    v.map_values(|c: Vec<String>| views(c@))
}

/// The last command with extra arguments and `-MF` injected.
fn build_last_command(cmd: &Vec<String>, extra: &Vec<String>, depfile: &Option<String>) -> (r: Vec<String>)
    ensures
        views(r@) == last_command(views(cmd@), views(extra@), opt_view(*depfile)),
{
    let ghost c = views(cmd@);
    let ghost x = views(extra@);
    let mut built: Vec<String> = Vec::new();
    let mut seen = false;
    let mut i: usize = 0;
    while i < cmd.len()
        invariant
            i <= cmd@.len(),
            c == views(cmd@),
            x == views(extra@),
            views(built@) == expand_args(c.take(i as int), x),
            seen == c.take(i as int).contains(args_placeholder()),
        decreases cmd@.len() - i,
    {
        assert(c.take(i + 1).drop_last() =~= c.take(i as int));
        assert(c.take(i + 1).last() == cmd@[i as int]@);
        if str_eq(cmd[i].as_str(), "{{args}}") {
            append_strings(&mut built, extra);
            seen = true;
            assert(c.take(i + 1)[i as int] == args_placeholder());
        } else {
            let ghost before = views(built@);
            built.push(copy_string(&cmd[i]));
            assert(views(built@) =~= before + seq![cmd@[i as int]@]);
            proof {
                if c.take(i + 1).contains(args_placeholder()) {
                    let j = choose|j: int| 0 <= j < i + 1 && #[trigger] c.take(i + 1)[j] == args_placeholder();
                    assert(c.take(i as int)[j] == args_placeholder());
                }
            }
        }
        proof {
            if c.take(i as int).contains(args_placeholder()) {
                let j = choose|j: int| 0 <= j < i && #[trigger] c.take(i as int)[j] == args_placeholder();
                assert(c.take(i + 1)[j] == args_placeholder());
            }
        }
        i = i + 1;
    }
    assert(c.take(cmd@.len() as int) =~= c);
    if extra.len() > 0 && !seen {
        append_strings(&mut built, extra);
    } else {
        assert(views(built@) =~= views(built@) + Seq::<Seq<char>>::empty());
    }
    let ghost mid = views(built@);
    match depfile {
        Some(df) => {
            built.push(String::from_str("-MF"));
            built.push(copy_string(df));
            assert(views(built@) =~= mid + seq!["-MF"@, df@]);
        },
        None => {
            assert(views(built@) =~= mid + Seq::<Seq<char>>::empty());
        },
    }
    built
}

/// A copy of an argument vector.
fn copy_argv(v: &Vec<String>) -> (r: Vec<String>)
    ensures
        views(r@) == views(v@),
{
    copy_strings(v)
}

/// Build the final command list, injecting extra arguments and `-MF` into
/// the last command (mirrors compiler convention: flags come last).
pub fn final_commands(rule: &Rule, extra_args: &Vec<String>) -> (r: Vec<Vec<String>>)
    requires
        rule.commands@.len() > 0,
    ensures
        argv_views(r@) == final_commands_of(rule@, views(extra_args@)),
{
    let last = rule.commands.len() - 1;
    let ghost cs = rule@.commands;
    let mut out: Vec<Vec<String>> = Vec::new();
    let mut i: usize = 0;
    while i < last
        invariant
            i <= last,
            last + 1 == rule.commands@.len(),
            cs == rule@.commands,
            argv_views(out@) == cs.take(i as int),
        decreases last - i,
    {
        let ghost before = argv_views(out@);
        out.push(copy_argv(&rule.commands[i]));
        assert(argv_views(out@) =~= before.push(cs[i as int]));
        assert(cs.take(i + 1) =~= cs.take(i as int).push(cs[i as int]));
        i = i + 1;
    }
    let ghost before = argv_views(out@);
    out.push(build_last_command(&rule.commands[last], extra_args, &rule.depfile));
    assert(argv_views(out@) =~= before.push(last_command(cs.last(), views(extra_args@), rule@.depfile)));
    assert(cs.take(last as int) =~= cs.drop_last());
    out
}

/// One command as a shell rule runs it: `sh -c "<tokens joined by spaces>"`.
pub open spec fn shell_command(cmd: Seq<Seq<char>>) -> Seq<Seq<char>> {
    seq!["sh"@, "-c"@, join(cmd, ' ')]
}

/// What a rule runs, and in which directory. A rule that delegates to a
/// subdirectory runs `pbuild <target>` there (`make <target>` when that
/// directory has no build file); one with `makedir` runs `make <target>`;
/// otherwise its own commands run in `dir`, each through `sh -c` for a shell
/// rule.
pub open spec fn effective_of(r: RuleView, commands: Seq<Seq<Seq<char>>>, subdir_has_build_file: bool) -> (
    Seq<Seq<Seq<char>>>,
    Option<Seq<char>>,
) {
    match r.subdir {
        Some(d) => (
            seq![
                seq![
                    if subdir_has_build_file {
                        "pbuild"@
                    } else {
                        "make"@
                    },
                    r.target.1,
                ],
            ],
            Some(d),
        ),
        None => match r.makedir {
            Some(d) => (seq![seq!["make"@, r.target.1]], Some(d)),
            None => (
                if r.shell {
                    commands.map_values(|c: Seq<Seq<char>>| shell_command(c))
                } else {
                    commands
                },
                r.dir,
            ),
        },
    }
}

/// The command vectors a rule runs, and the directory it runs them in.
/// `commands` are the rule's commands as `final_commands` builds them;
/// `subdir_has_build_file` tells whether the rule's subdirectory holds a
/// `pbuild.toml`.
pub fn effective_commands(rule: &Rule, commands: &Vec<Vec<String>>, subdir_has_build_file: bool) -> (r: (
    Vec<Vec<String>>,
    Option<String>,
))
    ensures
        (argv_views(r.0@), opt_view(r.1)) == effective_of(
            rule@,
            argv_views(commands@),
            subdir_has_build_file,
        ),
{
    match &rule.subdir {
        Some(d) => {
            let tool = if subdir_has_build_file {
                String::from_str("pbuild")
            } else {
                String::from_str("make")
            };
            let mut cmd: Vec<String> = Vec::new();
            let ghost tool_view = tool@;
            cmd.push(tool);
            cmd.push(rule.target.display_string());
            let ghost cv = views(cmd@);
            assert(cv =~= seq![tool_view, rule@.target.1]);
            let mut out: Vec<Vec<String>> = Vec::new();
            out.push(cmd);
            assert(argv_views(out@) =~= seq![cv]);
            return (out, Some(copy_string(d)));
        },
        None => {},
    }
    match &rule.makedir {
        Some(d) => {
            let mut cmd: Vec<String> = Vec::new();
            cmd.push(String::from_str("make"));
            cmd.push(rule.target.display_string());
            let ghost cv = views(cmd@);
            assert(cv =~= seq!["make"@, rule@.target.1]);
            let mut out: Vec<Vec<String>> = Vec::new();
            out.push(cmd);
            assert(argv_views(out@) =~= seq![cv]);
            return (out, Some(copy_string(d)));
        },
        None => {},
    }
    let dir = crate::types::copy_opt(&rule.dir);
    let mut out: Vec<Vec<String>> = Vec::new();
    let mut i: usize = 0;
    while i < commands.len()
        invariant
            i <= commands@.len(),
            out@.len() == i,
            forall|j: int|
                0 <= j < i ==> views(#[trigger] out@[j]@) == if rule.shell {
                    shell_command(views(commands@[j]@))
                } else {
                    views(commands@[j]@)
                },
        decreases commands@.len() - i,
    {
        if rule.shell {
            let mut cmd: Vec<String> = Vec::new();
            cmd.push(String::from_str("sh"));
            cmd.push(String::from_str("-c"));
            cmd.push(join_with(&commands[i], ' '));
            assert(views(cmd@) =~= shell_command(views(commands@[i as int]@)));
            out.push(cmd);
        } else {
            out.push(copy_argv(&commands[i]));
        }
        i = i + 1;
    }
    assert(argv_views(out@) =~= effective_of(rule@, argv_views(commands@), subdir_has_build_file).0);
    (out, dir)
}

/// The lines a dry run shows for a rule's commands: a shell rule's command
/// as one string of its tokens joined by spaces, any other as its tokens.
pub open spec fn dry_run_of(shell: bool, commands: Seq<Seq<Seq<char>>>) -> Seq<Seq<Seq<char>>> {
    if shell {
        commands.map_values(|c: Seq<Seq<char>>| seq![join(c, ' ')])
    } else {
        commands
    }
}

/// What a dry run prints for each of `commands`.
pub fn dry_run_commands(rule: &Rule, commands: &Vec<Vec<String>>) -> (r: Vec<Vec<String>>)
    ensures
        argv_views(r@) == dry_run_of(rule.shell, argv_views(commands@)),
{
    let mut out: Vec<Vec<String>> = Vec::new();
    let mut i: usize = 0;
    while i < commands.len()
        invariant
            i <= commands@.len(),
            out@.len() == i,
            forall|j: int|
                0 <= j < i ==> views(#[trigger] out@[j]@) == if rule.shell {
                    seq![join(views(commands@[j]@), ' ')]
                } else {
                    views(commands@[j]@)
                },
        decreases commands@.len() - i,
    {
        if rule.shell {
            let mut cmd: Vec<String> = Vec::new();
            cmd.push(join_with(&commands[i], ' '));
            assert(views(cmd@) =~= seq![join(views(commands@[i as int]@), ' ')]);
            out.push(cmd);
        } else {
            out.push(copy_argv(&commands[i]));
        }
        i = i + 1;
    }
    assert(argv_views(out@) =~= dry_run_of(rule.shell, argv_views(commands@)));
    out
}

/// The strings of `s` that are not empty, in order.
pub open spec fn non_empty(s: Seq<Seq<char>>) -> Seq<Seq<char>>
    decreases s.len(),
{
    if s.len() == 0 {
        seq![]
    } else if s.last().len() > 0 {
        non_empty(s.drop_last()).push(s.last())
    } else {
        non_empty(s.drop_last())
    }
}

/// What is hashed after a rule succeeds: its declared inputs, the inputs
/// its depfile reported, and its output, leaving out empty paths.
pub open spec fn paths_to_hash_of(r: RuleView, discovered: Seq<Seq<char>>) -> Seq<Seq<char>> {
    non_empty(r.inputs + discovered + seq![r.output])
}

/// Hash declared inputs, depfile-discovered inputs, and the output.
pub fn paths_to_hash(rule: &Rule, discovered: &Vec<String>) -> (r: Vec<String>)
    ensures
        views(r@) == paths_to_hash_of(rule@, views(discovered@)),
{
    let mut all = copy_strings(&rule.inputs);
    append_strings(&mut all, discovered);
    let ghost before = views(all@);
    all.push(copy_string(&rule.output));
    assert(views(all@) =~= before.push(rule.output@));
    let ghost a = views(all@);
    let mut out: Vec<String> = Vec::new();
    let mut i: usize = 0;
    while i < all.len()
        invariant
            i <= all@.len(),
            a == views(all@),
            views(out@) == non_empty(a.take(i as int)),
        decreases all@.len() - i,
    {
        assert(a.take(i + 1).drop_last() =~= a.take(i as int));
        assert(a.take(i + 1).last() == all@[i as int]@);
        if all[i].as_str().unicode_len() > 0 {
            let ghost b = views(out@);
            out.push(copy_string(&all[i]));
            assert(views(out@) =~= b.push(all@[i as int]@));
        }
        i = i + 1;
    }
    assert(a.take(all@.len() as int) =~= a);
    assert(a =~= rule@.inputs + views(discovered@) + seq![rule@.output]);
    out
}

/// The lock table after storing, for each `paths[i]` whose hash `hashes[i]`
/// is known, that hash.
pub open spec fn with_hashes(
    m: Map<Seq<char>, Seq<char>>,
    paths: Seq<Seq<char>>,
    hashes: Seq<Option<Seq<char>>>,
) -> Map<Seq<char>, Seq<char>>
    decreases paths.len(),
{
    if paths.len() == 0 || hashes.len() < paths.len() {
        m
    } else {
        let prev = with_hashes(m, paths.drop_last(), hashes.take(paths.len() - 1));
        match hashes[paths.len() - 1] {
            Some(h) => prev.insert(paths.last(), h),
            None => prev,
        }
    }
}

/// The lock table after a rule succeeded: the new hashes stored, then the
/// discovered depfile inputs remembered for the rule's output.
pub open spec fn after_success(
    m: Map<Seq<char>, Seq<char>>,
    paths: Seq<Seq<char>>,
    hashes: Seq<Option<Seq<char>>>,
    output: Seq<char>,
    discovered: Seq<Seq<char>>,
) -> Map<Seq<char>, Seq<char>> {
    let h = with_hashes(m, paths, hashes);
    if discovered.len() > 0 {
        h.insert(depfile_key_of(output), join(discovered, '\t'))
    } else {
        h
    }
}

/// Record what a successful rule leaves behind: the hash of each of
/// `paths` that exists (`hashes[i]` for `paths[i]`, `None` for a missing
/// file), and the depfile paths so the next run can merge them in.
pub fn record_success(
    lf: &mut LockFile,
    paths: &Vec<String>,
    hashes: &Vec<Option<String>>,
    output: &str,
    discovered: &Vec<String>,
)
    requires
        hashes@.len() == paths@.len(),
    ensures
        final(lf).view() == after_success(
            old(lf).view(),
            views(paths@),
            opt_views(hashes@),
            output@,
            views(discovered@),
        ),
{
    let ghost m0 = lf.view();
    let ghost p = views(paths@);
    let ghost h = opt_views(hashes@);
    let mut i: usize = 0;
    assert(p.take(0) =~= Seq::<Seq<char>>::empty());
    while i < paths.len()
        invariant
            i <= paths@.len(),
            hashes@.len() == paths@.len(),
            p == views(paths@),
            h == opt_views(hashes@),
            lf.view() == with_hashes(m0, p.take(i as int), h.take(i as int)),
        decreases paths@.len() - i,
    {
        assert(p.take(i + 1).drop_last() =~= p.take(i as int));
        assert(h.take(i + 1).take(i as int) =~= h.take(i as int));
        assert(p.take(i + 1).last() == paths@[i as int]@);
        assert(h.take(i + 1)[i as int] == opt_view(hashes@[i as int]));
        match &hashes[i] {
            Some(hash) => {
                lf.insert(copy_string(&paths[i]), copy_string(hash));
            },
            None => {},
        }
        i = i + 1;
    }
    assert(p.take(paths@.len() as int) =~= p);
    assert(h.take(paths@.len() as int) =~= h);
    store_depfile_inputs(lf, output, discovered);
}


/// Whether each rule would rebuild: `(target name, dirty)` in plan order,
/// where `current[i][j]` is the hash now of the `j`-th of `all_inputs` of
/// `rules[i]`.
pub open spec fn status_of(
    rs: Seq<RuleView>,
    lf: Map<Seq<char>, Seq<char>>,
    current: Seq<Seq<Option<Seq<char>>>>,
) -> Seq<(Seq<char>, bool)> {
    Seq::new(
        rs.len(),
        |i: int| (rs[i].target.1, inputs_dirty(lf, all_inputs_of(rs[i], lf), current[i])),
    )
}

/// The views of the hash lists of several rules.
pub open spec fn hash_lists(v: Seq<Vec<Option<String>>>) -> Seq<Seq<Option<Seq<char>>>> {
    v.map_values(|c: Vec<Option<String>>| opt_views(c@))
}

/// Check dirty state for a plan without running anything.
/// Returns `(target_name, would_rebuild)` for each rule in plan order.
pub fn check_status(rules: &Vec<Rule>, lf: &LockFile, current: &Vec<Vec<Option<String>>>) -> (r: Vec<
    (String, bool),
>)
    requires
        current@.len() == rules@.len(),
        forall|i: int|
            0 <= i < rules@.len() ==> (#[trigger] current@[i])@.len() == all_inputs_of(
                rules@[i]@,
                lf.view(),
            ).len(),
    ensures
        r@.map_values(|p: (String, bool)| (p.0@, p.1)) == status_of(
            rule_views(rules@),
            lf.view(),
            hash_lists(current@),
        ),
{
    let mut out: Vec<(String, bool)> = Vec::new();
    let mut i: usize = 0;
    while i < rules.len()
        invariant
            i <= rules@.len(),
            current@.len() == rules@.len(),
            forall|k: int|
                0 <= k < rules@.len() ==> (#[trigger] current@[k])@.len() == all_inputs_of(
                    rules@[k]@,
                    lf.view(),
                ).len(),
            out@.len() == i,
            forall|k: int|
                0 <= k < i ==> (#[trigger] out@[k]).0@ == rules@[k]@.target.1 && out@[k].1
                    == inputs_dirty(lf.view(), all_inputs_of(rules@[k]@, lf.view()), opt_views(current@[k]@)),
        decreases rules@.len() - i,
    {
        let inputs = all_inputs(&rules[i], lf);
        let dirty = any_dirty(lf, &inputs, &current[i]);
        out.push((rules[i].target.display_string(), dirty));
        i = i + 1;
    }
    assert(out@.map_values(|p: (String, bool)| (p.0@, p.1)) =~= status_of(
        rule_views(rules@),
        lf.view(),
        hash_lists(current@),
    ));
    out
}

/// Every dependency of `r` is among `done`.
pub open spec fn deps_done(r: RuleView, done: Seq<(bool, Seq<char>)>) -> bool {
    forall|k: int| 0 <= k < r.deps.len() ==> done.contains(#[trigger] r.deps[k])
}

/// The rules of `rs`, in order, whose dependencies are all done (`ready`)
/// or not (`!ready`).
pub open spec fn wave_part(rs: Seq<RuleView>, done: Seq<(bool, Seq<char>)>, ready: bool) -> Seq<
    RuleView,
>
    decreases rs.len(),
{
    if rs.len() == 0 {
        seq![]
    } else if deps_done(rs.last(), done) == ready {
        wave_part(rs.drop_last(), done, ready).push(rs.last())
    } else {
        wave_part(rs.drop_last(), done, ready)
    }
}

/// The message when no rule can start although none has failed.
pub open spec fn deadlock_message() -> Seq<char> {
    "dependency deadlock — build plan may be invalid"@
}

/// The message when rules failed under keep-going.
pub open spec fn failed_message(n: nat) -> Seq<char> {
    decimal_of(n) + " rule(s) failed"@
}

/// The plan being run in waves: the rules not yet started, the targets
/// finished, the targets rebuilt in this invocation, and the number of
/// rules that failed.
///
/// The plan is already topologically sorted (leaves first). It is run in
/// waves: all rules whose deps are done are collected, run in parallel,
/// and marked done; then the next wave is collected.
pub struct Scheduler {
    remaining: Vec<Rule>,
    done: Vec<Target>,
    rebuilt: Vec<Target>,
    failures: usize,
}

impl Scheduler {
    /// The rules not started yet.
    pub closed spec fn remaining(&self) -> Seq<RuleView> {
        rule_views(self.remaining@)
    }

    /// The targets finished (run or skipped) so far.
    pub closed spec fn done(&self) -> Seq<(bool, Seq<char>)> {
        target_views(self.done@)
    }

    /// The targets that ran in this invocation.
    pub closed spec fn rebuilt_targets(&self) -> Seq<(bool, Seq<char>)> {
        target_views(self.rebuilt@)
    }

    /// The number of rules that failed.
    pub closed spec fn failures(&self) -> nat {
        self.failures as nat
    }

    /// A schedule for `plan`, with nothing started yet.
    pub fn new(plan: Vec<Rule>) -> (s: Self)
        ensures
            s.remaining() == rule_views(plan@),
            s.done() == Seq::<(bool, Seq<char>)>::empty(),
            s.rebuilt_targets() == Seq::<(bool, Seq<char>)>::empty(),
            s.failures() == 0,
    {
        let s = Scheduler { remaining: plan, done: Vec::new(), rebuilt: Vec::new(), failures: 0 };
        assert(s.done() =~= Seq::<(bool, Seq<char>)>::empty());
        assert(s.rebuilt_targets() =~= Seq::<(bool, Seq<char>)>::empty());
        s
    }

    /// The targets rebuilt so far.
    pub fn rebuilt(&self) -> (v: &Vec<Target>)
        ensures
            target_views(v@) == self.rebuilt_targets(),
    {
        &self.rebuilt
    }

    /// Collect the next wave: the rules whose dependencies are all done.
    /// `Ok(None)` when nothing is left, or when the remaining rules wait on
    /// failed ones; an error when nothing can start and nothing failed.
    pub fn next_wave(&mut self) -> (r: Result<Option<Vec<Rule>>, String>)
        ensures
            final(self).done() == old(self).done(),
            final(self).rebuilt_targets() == old(self).rebuilt_targets(),
            final(self).failures() == old(self).failures(),
            ({
                let ready = wave_part(old(self).remaining(), old(self).done(), true);
                if old(self).remaining().len() == 0 {
                    r == Ok::<Option<Vec<Rule>>, String>(None) && final(self).remaining() == old(
                        self,
                    ).remaining()
                } else if ready.len() == 0 {
                    final(self).remaining() == old(self).remaining() && if old(self).failures()
                        == 0 {
                        r is Err && r->Err_0@ == deadlock_message()
                    } else {
                        r == Ok::<Option<Vec<Rule>>, String>(None)
                    }
                } else {
                    r is Ok && r->Ok_0 is Some && rule_views(r->Ok_0->Some_0@) == ready
                        && final(self).remaining() == wave_part(
                        old(self).remaining(),
                        old(self).done(),
                        false,
                    )
                }
            }),
            match r {
                Ok(Some(w)) => {
                    &&& forall|i: int, k: int|
                        0 <= i < w@.len() && 0 <= k < w@[i]@.deps.len() ==> old(self).done().contains(
                            #[trigger] w@[i]@.deps[k],
                        )
                    &&& forall|j: int|
                        #![trigger final(self).remaining()[j]]
                        0 <= j < final(self).remaining().len() ==> exists|k: int|
                            0 <= k < final(self).remaining()[j].deps.len() && !old(self).done().contains(
                                #[trigger] final(self).remaining()[j].deps[k],
                            )
                },
                _ => true,
            },
    {
        if self.remaining.len() == 0 {
            return Ok(None);
        }
        let mut rest: Vec<Rule> = Vec::new();
        std::mem::swap(&mut rest, &mut self.remaining);
        let ghost rs = rule_views(rest@);
        let ghost done = self.done();
        let mut ready: Vec<Rule> = Vec::new();
        let mut waiting: Vec<Rule> = Vec::new();
        let mut i: usize = 0;
        let n = rest.len();
        // Move the rules out one by one, front to back.
        while i < n
            invariant
                n == rs.len(),
                i <= n,
                rest@.len() == n - i,
                rule_views(rest@) == rs.skip(i as int),
                done == self.done(),
                rule_views(ready@) == wave_part(rs.take(i as int), done, true),
                rule_views(waiting@) == wave_part(rs.take(i as int), done, false),
            decreases n - i,
        {
            assert(rule_views(rest@).len() == rest@.len());
            assert(rule_views(rest@)[0] == rs[i as int]);
            let ghost before = rest@;
            let rule = rest.remove(0);
            assert(rest@ =~= before.skip(1));
            assert(rule_views(rest@) =~= rs.skip(i + 1)) by {
                assert forall|k: int| 0 <= k < rest@.len() implies #[trigger] rule_views(rest@)[k]
                    == rs.skip(i + 1)[k] by {
                    assert(rest@[k] == before[k + 1]);
                    assert(rule_views(before)[k + 1] == rs.skip(i as int)[k + 1]);
                }
            }
            assert(rs.take(i + 1).drop_last() =~= rs.take(i as int));
            assert(rs.take(i + 1).last() == rs[i as int]);
            if self.deps_all_done(&rule) {
                let ghost b = rule_views(ready@);
                ready.push(rule);
                assert(rule_views(ready@) =~= b.push(rs[i as int]));
            } else {
                let ghost b = rule_views(waiting@);
                waiting.push(rule);
                assert(rule_views(waiting@) =~= b.push(rs[i as int]));
            }
            i = i + 1;
        }
        assert(rs.take(n as int) =~= rs);
        if ready.len() == 0 {
            self.remaining = waiting;
            proof {
                lemma_wave_parts(rs, done);
            }
            if self.failures == 0 {
                return Err(String::from_str("dependency deadlock — build plan may be invalid"));
            }
            return Ok(None);
        }
        self.remaining = waiting;
        proof {
            lemma_wave_waits_for_deps(rs, done);
            assert forall|i: int| 0 <= i < ready@.len() implies #[trigger] ready@[i]@ == wave_part(rs, done, true)[i] by {
                assert(rule_views(ready@)[i] == ready@[i]@);
            }
        }
        Ok(Some(ready))
    }

    /// Whether every dependency of `rule` is done.
    fn deps_all_done(&self, rule: &Rule) -> (b: bool)
        ensures
            b == deps_done(rule@, self.done()),
    {
        let mut k: usize = 0;
        while k < rule.deps.len()
            invariant
                k <= rule.deps@.len(),
                forall|j: int| 0 <= j < k ==> self.done().contains(#[trigger] rule@.deps[j]),
            decreases rule.deps@.len() - k,
        {
            assert(rule@.deps[k as int] == rule.deps@[k as int]@);
            if !contains_target(&self.done, &rule.deps[k]) {
                return false;
            }
            k = k + 1;
        }
        true
    }

    /// A rule of the current wave finished: it ran (`rebuilt`) or was
    /// skipped as up to date.
    pub fn finished(&mut self, target: &Target, rebuilt: bool)
        ensures
            final(self).remaining() == old(self).remaining(),
            final(self).done() == old(self).done().push(target@),
            final(self).rebuilt_targets() == if rebuilt {
                old(self).rebuilt_targets().push(target@)
            } else {
                old(self).rebuilt_targets()
            },
            final(self).failures() == old(self).failures(),
    {
        let ghost d = self.done();
        let ghost rb = self.rebuilt_targets();
        self.done.push(target.duplicate());
        assert(self.done() =~= d.push(target@));
        if rebuilt {
            self.rebuilt.push(target.duplicate());
            assert(self.rebuilt_targets() =~= rb.push(target@));
        }
    }

    /// A rule of the current wave failed and the build keeps going.
    pub fn failed(&mut self)
        ensures
            final(self).remaining() == old(self).remaining(),
            final(self).done() == old(self).done(),
            final(self).rebuilt_targets() == old(self).rebuilt_targets(),
            final(self).failures() == if old(self).failures() < usize::MAX {
                old(self).failures() + 1
            } else {
                old(self).failures()
            },
    {
        if self.failures < usize::MAX {
            self.failures = self.failures + 1;
        }
    }

    /// The outcome once no wave is left: an error naming how many rules
    /// failed, if any did.
    pub fn finish(&self) -> (r: Result<(), String>)
        ensures
            self.failures() == 0 ==> r is Ok,
            self.failures() > 0 ==> r is Err && r->Err_0@ == failed_message(self.failures()),
    {
        if self.failures == 0 {
            return Ok(());
        }
        let n = decimal(self.failures as u64);
        Err(n.concat(" rule(s) failed"))
    }
}

/// Splitting into ready and waiting rules loses none of them.
proof fn lemma_wave_parts(rs: Seq<RuleView>, done: Seq<(bool, Seq<char>)>)
    ensures
        wave_part(rs, done, true).len() == 0 ==> wave_part(rs, done, false) == rs,
    decreases rs.len(),
{
    if rs.len() > 0 {
        lemma_wave_parts(rs.drop_last(), done);
        if wave_part(rs, done, true).len() == 0 {
            assert(rs.drop_last().push(rs.last()) =~= rs);
        }
    }
}


/// The two parts of a wave split hold each rule of `rs` once: every rule of
/// a part comes from `rs`, each ready rule has all its dependencies done,
/// each waiting rule has one that is not, and together the parts are as
/// long as `rs`.
pub proof fn lemma_wave_split(rs: Seq<RuleView>, done: Seq<(bool, Seq<char>)>)
    ensures
        wave_part(rs, done, true).len() + wave_part(rs, done, false).len() == rs.len(),
        forall|i: int|
            0 <= i < wave_part(rs, done, true).len() ==> rs.contains(
                #[trigger] wave_part(rs, done, true)[i],
            ) && deps_done(wave_part(rs, done, true)[i], done),
        forall|i: int|
            0 <= i < wave_part(rs, done, false).len() ==> rs.contains(
                #[trigger] wave_part(rs, done, false)[i],
            ) && !deps_done(wave_part(rs, done, false)[i], done),
    decreases rs.len(),
{
    if rs.len() > 0 {
        let init = rs.drop_last();
        lemma_wave_split(init, done);
        assert forall|i: int| 0 <= i < init.len() implies rs.contains(#[trigger] init[i]) by {
            assert(rs[i] == init[i]);
        }
        assert(rs[rs.len() - 1] == rs.last());
    }
}

/// A wave holds exactly the rules that can start: every rule put in the
/// wave has each of its dependencies among the finished targets `done`;
/// every rule left waiting has some dependency not finished; and any rule
/// whose dependencies are all finished is put in the wave.
pub proof fn lemma_wave_waits_for_deps(rs: Seq<RuleView>, done: Seq<(bool, Seq<char>)>)
    ensures
        forall|i: int, k: int|
            0 <= i < wave_part(rs, done, true).len() && 0 <= k < wave_part(rs, done, true)[i].deps.len()
                ==> done.contains(#[trigger] wave_part(rs, done, true)[i].deps[k]),
        forall|i: int|
            #![trigger wave_part(rs, done, false)[i]]
            0 <= i < wave_part(rs, done, false).len() ==> exists|k: int|
                0 <= k < wave_part(rs, done, false)[i].deps.len() && !done.contains(
                    #[trigger] wave_part(rs, done, false)[i].deps[k],
                ),
        forall|x: RuleView|
            rs.contains(x) && (forall|k: int| 0 <= k < x.deps.len() ==> done.contains(#[trigger] x.deps[k]))
                ==> #[trigger] wave_part(rs, done, true).contains(x),
{
    lemma_wave_split(rs, done);
    let ready = wave_part(rs, done, true);
    let waiting = wave_part(rs, done, false);
    assert forall|i: int, k: int| 0 <= i < ready.len() && 0 <= k < ready[i].deps.len() implies done.contains(
        #[trigger] ready[i].deps[k],
    ) by {
        assert(deps_done(ready[i], done));
    }
    assert forall|i: int| #![trigger waiting[i]] 0 <= i < waiting.len() implies exists|k: int|
        0 <= k < waiting[i].deps.len() && !done.contains(#[trigger] waiting[i].deps[k]) by {
        assert(!deps_done(waiting[i], done));
    }
    assert forall|x: RuleView|
        rs.contains(x) && (forall|k: int| 0 <= k < x.deps.len() ==> done.contains(#[trigger] x.deps[k]))
            implies #[trigger] wave_part(rs, done, true).contains(x) by {
        assert(deps_done(x, done));
        lemma_wave_holds(rs, done, x);
    }
}

/// A rule of `rs` whose dependencies are all done is in the ready part.
proof fn lemma_wave_holds(rs: Seq<RuleView>, done: Seq<(bool, Seq<char>)>, x: RuleView)
    requires
        rs.contains(x),
        deps_done(x, done),
    ensures
        wave_part(rs, done, true).contains(x),
    decreases rs.len(),
{
    if rs.last() == x {
        let w = wave_part(rs, done, true);
        assert(w[w.len() - 1] == x);
    } else {
        let init = rs.drop_last();
        let i = choose|i: int| 0 <= i < rs.len() && rs[i] == x;
        assert(init[i] == x);
        lemma_wave_holds(init, done, x);
        let w0 = wave_part(init, done, true);
        let j = choose|j: int| 0 <= j < w0.len() && w0[j] == x;
        assert(wave_part(rs, done, true)[j] == x);
    }
}

/// The first position in `pv`, at most `j`, of a rule that is in `remaining`.
proof fn lemma_first_remaining(pv: Seq<RuleView>, remaining: Seq<RuleView>, j: int) -> (m: int)
    requires
        0 <= j < pv.len(),
        remaining.contains(pv[j]),
    ensures
        0 <= m <= j,
        remaining.contains(pv[m]),
        forall|i: int| 0 <= i < m ==> !remaining.contains(#[trigger] pv[i]),
    decreases j,
{
    if exists|i: int| 0 <= i < j && remaining.contains(#[trigger] pv[i]) {
        let i = choose|i: int| 0 <= i < j && remaining.contains(#[trigger] pv[i]);
        lemma_first_remaining(pv, remaining, i)
    } else {
        j
    }
}

/// A plan cannot deadlock while nothing has failed: when every rule of the
/// plan (one that lists every rule after its dependencies, as `build_plan`
/// and `merge_plans` make them) that is no longer waiting has its target
/// done, some waiting rule is ready to run.
pub proof fn lemma_plan_progress(
    pv: Seq<RuleView>,
    remaining: Seq<RuleView>,
    done: Seq<(bool, Seq<char>)>,
)
    requires
        crate::graph::deps_first(pv),
        remaining.len() > 0,
        forall|i: int| 0 <= i < remaining.len() ==> pv.contains(#[trigger] remaining[i]),
        forall|j: int|
            0 <= j < pv.len() && !remaining.contains(#[trigger] pv[j]) ==> done.contains(pv[j].target),
    ensures
        wave_part(remaining, done, true).len() > 0,
{
    assert(pv.contains(remaining[0]));
    let j0 = choose|j: int| 0 <= j < pv.len() && pv[j] == remaining[0];
    assert(remaining.contains(pv[j0]));
    let m = lemma_first_remaining(pv, remaining, j0);
    let x = pv[m];
    assert forall|k: int| 0 <= k < x.deps.len() implies done.contains(#[trigger] x.deps[k]) by {
        assert(crate::graph::listed_before(pv, m, pv[m].deps[k]));
        let j = choose|j: int| 0 <= j < m && #[trigger] pv[j].target == pv[m].deps[k];
        assert(!remaining.contains(pv[j]));
    }
    lemma_wave_holds(remaining, done, x);
}

/// What follows a failed attempt of a rule.
pub enum Retry {
    /// Run the rule again; this is the number of the next attempt.
    Again(u64),
    /// Give up: the rule has failed.
    GiveUp,
}

/// After attempt number `attempt` (counting from 1) of a rule with
/// `retries` retries failed: another attempt follows while attempts remain
/// (`retries + 1` in all), unless the failure was a timeout, which is never
/// retried.
pub fn after_failure(attempt: u64, retries: u32, timed_out: bool) -> (r: Retry)
    ensures
        match r {
            Retry::Again(n) => !timed_out && attempt <= retries && n == attempt + 1,
            Retry::GiveUp => timed_out || attempt > retries,
        },
{
    if !timed_out && attempt <= retries as u64 {
        Retry::Again(attempt + 1)
    } else {
        Retry::GiveUp
    }
}

/// What follows one command of an attempt.
pub enum Step {
    /// Run the command at this position next.
    Next(usize),
    /// Every command succeeded: the attempt succeeded.
    Succeeded,
    /// This command failed: the attempt failed, and no later command runs.
    Failed,
}

/// The step after command `i` (counting from 0) of an attempt's `n`
/// commands finished, `ok` telling whether it succeeded.
pub open spec fn step_of(i: int, n: int, ok: bool) -> Step {
    if !ok {
        Step::Failed
    } else if i + 1 < n {
        Step::Next((i + 1) as usize)
    } else {
        Step::Succeeded
    }
}

/// An attempt runs its commands in order and stops at the first failure.
pub fn after_command(i: usize, n: usize, ok: bool) -> (s: Step)
    requires
        i < n,
    ensures
        s == step_of(i as int, n as int, ok),
{
    if !ok {
        Step::Failed
    } else if i + 1 < n {
        Step::Next(i + 1)
    } else {
        Step::Succeeded
    }
}

/// The positions of the commands an attempt runs from position `i` on,
/// following `step_of`, when command `j` would succeed exactly when
/// `oks[j]`.
pub open spec fn commands_run(oks: Seq<bool>, i: int) -> Seq<int>
    decreases oks.len() - i,
{
    if i < 0 || i >= oks.len() {
        seq![]
    } else {
        seq![i] + match step_of(i, oks.len() as int, oks[i]) {
            Step::Next(_) => commands_run(oks, i + 1),
            _ => seq![],
        }
    }
}

/// No command after a failing one runs: the commands an attempt runs are
/// the ones up to and including the first that fails (all of them when
/// none fails), in order, and the attempt fails exactly when one does.
pub proof fn lemma_attempt_stops_at_first_failure(oks: Seq<bool>, i: int)
    requires
        0 <= i <= oks.len(),
    ensures
        forall|k: int| 0 <= k < commands_run(oks, i).len() ==> #[trigger] commands_run(oks, i)[k] == i + k,
        forall|k: int| 0 <= k < commands_run(oks, i).len() - 1 ==> oks[#[trigger] commands_run(oks, i)[k]],
        commands_run(oks, i).len() == oks.len() - i || !oks[i + commands_run(oks, i).len() - 1],
    decreases oks.len() - i,
{
    if i < oks.len() {
        lemma_attempt_stops_at_first_failure(oks, i + 1);
        let rest = commands_run(oks, i + 1);
        if oks[i] && i + 1 < oks.len() {
            assert(commands_run(oks, i) == seq![i] + rest);
            assert forall|k: int| 0 <= k < commands_run(oks, i).len() implies #[trigger] commands_run(oks, i)[k] == i + k by {
                if k > 0 {
                    assert(commands_run(oks, i)[k] == rest[k - 1]);
                }
            }
            assert forall|k: int| 0 <= k < commands_run(oks, i).len() - 1 implies oks[#[trigger] commands_run(oks, i)[k]] by {
                if k > 0 {
                    assert(commands_run(oks, i)[k] == rest[k - 1]);
                }
            }
        } else {
            assert(commands_run(oks, i) == seq![i]);
        }
    } else {
        assert(commands_run(oks, i) == Seq::<int>::empty());
    }
}

/// Every non-empty path of `s` is kept by `non_empty`.
proof fn lemma_non_empty_keeps(s: Seq<Seq<char>>, p: Seq<char>)
    requires
        s.contains(p),
        p.len() > 0,
    ensures
        non_empty(s).contains(p),
    decreases s.len(),
{
    let j = choose|j: int| 0 <= j < s.len() && s[j] == p;
    if j == s.len() - 1 {
        assert(non_empty(s) == non_empty(s.drop_last()).push(p));
        assert(non_empty(s)[non_empty(s).len() - 1] == p);
    } else {
        assert(s.drop_last()[j] == p);
        lemma_non_empty_keeps(s.drop_last(), p);
        let q = choose|q: int| 0 <= q < non_empty(s.drop_last()).len() && non_empty(s.drop_last())[q] == p;
        if s.last().len() > 0 {
            assert(non_empty(s)[q] == p);
        }
    }
}

/// Hashing paths with the hash each path has: a path among them whose hash
/// is known ends up holding that hash.
pub proof fn lemma_with_hashes_holds(
    m: Map<Seq<char>, Seq<char>>,
    paths: Seq<Seq<char>>,
    hash: spec_fn(Seq<char>) -> Option<Seq<char>>,
    p: Seq<char>,
)
    requires
        paths.contains(p),
        hash(p) is Some,
    ensures
        stored(with_hashes(m, paths, paths.map_values(|q: Seq<char>| hash(q))), p) == hash(p),
    decreases paths.len(),
{
    let hs = paths.map_values(|q: Seq<char>| hash(q));
    let n = paths.len();
    let front = paths.drop_last();
    assert(hs.take(n - 1) =~= front.map_values(|q: Seq<char>| hash(q)));
    let prev = with_hashes(m, front, hs.take(n - 1));
    assert(hs[n - 1] == hash(paths.last()));
    if paths.last() == p {
        assert(with_hashes(m, paths, hs) == prev.insert(p, hash(p)->Some_0));
    } else {
        let j = choose|j: int| 0 <= j < n && paths[j] == p;
        assert(front[j] == p);
        lemma_with_hashes_holds(m, front, hash, p);
    }
}

/// A rule that has just been built is skipped on the next run when nothing
/// changed since: with the files hashing as `hash` says both after the build
/// and at the next check, no dependency rebuilt and no tracked variable
/// changed, the lock file the build leaves makes the rule clean. This holds
/// for a caching rule with inputs, all of them existing non-empty paths,
/// whose depfile (if it has one) reported inputs.
pub proof fn lemma_built_rule_is_skipped(
    lf: Map<Seq<char>, Seq<char>>,
    r: RuleView,
    discovered: Seq<Seq<char>>,
    hash: spec_fn(Seq<char>) -> Option<Seq<char>>,
)
    requires
        r.cache,
        r.inputs.len() + discovered.len() > 0,
        r.depfile is None ==> discovered.len() == 0,
        r.depfile is Some ==> discovered.len() > 0,
        forall|i: int| 0 <= i < discovered.len() ==> crate::depfile::is_word(#[trigger] discovered[i]),
        forall|i: int| 0 <= i < discovered.len() ==> (#[trigger] hash(discovered[i])) is Some,
        forall|i: int| 0 <= i < r.inputs.len() ==> (#[trigger] r.inputs[i]).len() > 0,
        forall|i: int| 0 <= i < r.inputs.len() ==> (#[trigger] hash(r.inputs[i])) is Some,
        r.depfile is Some ==> !(r.inputs + discovered).contains(depfile_key_of(r.output)),
    ensures
        ({
            let paths = paths_to_hash_of(r, discovered);
            let after = after_success(lf, paths, paths.map_values(|p: Seq<char>| hash(p)), r.output, discovered);
            let inputs = all_inputs_of(r, after);
            !must_run(after, r, inputs, inputs.map_values(|p: Seq<char>| hash(p)), seq![], false)
        }),
{
    let paths = paths_to_hash_of(r, discovered);
    let hashed = with_hashes(lf, paths, paths.map_values(|p: Seq<char>| hash(p)));
    let after = after_success(lf, paths, paths.map_values(|p: Seq<char>| hash(p)), r.output, discovered);
    let all = r.inputs + discovered + seq![r.output];
    let checked = r.inputs + discovered;
    if r.depfile is Some {
        assert forall|i: int| 0 <= i < discovered.len() implies !(#[trigger] discovered[i]).contains('\t') by {
            if discovered[i].contains('\t') {
                let k = choose|k: int| 0 <= k < discovered[i].len() && discovered[i][k] == '\t';
                assert(crate::text::is_ws(discovered[i][k]));
            }
        }
        crate::hash::lemma_split_join(discovered, '\t');
        assert(all_inputs_of(r, after) == checked);
    } else {
        assert(checked =~= r.inputs);
        assert(after == hashed);
    }
    let inputs = all_inputs_of(r, after);
    let current = inputs.map_values(|p: Seq<char>| hash(p));
    assert forall|i: int| 0 <= i < inputs.len() implies !#[trigger] input_dirty(after, inputs, current, i) by {
        let p = checked[i];
        if i < r.inputs.len() {
            assert(p == r.inputs[i]);
        } else {
            assert(p == discovered[i - r.inputs.len()]);
        }
        assert(all[i] == p);
        lemma_non_empty_keeps(all, p);
        lemma_with_hashes_holds(lf, paths, hash, p);
        if r.depfile is Some {
            assert(checked.contains(p));
            assert(p != depfile_key_of(r.output));
        }
    }
    assert(!dep_rebuilt_of(r, seq![]));
}

/// How a command's output reaches the terminal.
pub enum OutputRoute {
    /// Collected, and printed in one piece when the command ends.
    Capture,
    /// Passed through as it comes.
    Stream,
    /// The terminal itself, stdin included.
    Terminal,
}

/// How a rule's commands' output is routed: a `tty` rule gets the
/// terminal; a rule running alone in its wave streams its output unless its
/// progress mode holds output back; otherwise output is collected so that
/// rules running together do not interleave.
pub open spec fn route_of(tty: bool, alone: bool, progress: OutputMode) -> OutputRoute {
    if tty {
        OutputRoute::Terminal
    } else if alone && progress == OutputMode::Display {
        OutputRoute::Stream
    } else {
        OutputRoute::Capture
    }
}

/// The route of a rule's output when `alone` says whether it is the only
/// rule of its wave.
pub fn output_route(rule: &Rule, alone: bool) -> (r: OutputRoute)
    ensures
        r == route_of(rule.tty, alone, rule.progress),
{
    if rule.tty {
        OutputRoute::Terminal
    } else if alone && rule.progress == OutputMode::Display {
        OutputRoute::Stream
    } else {
        OutputRoute::Capture
    }
}

/// Whether collected output is printed: always for a failure, and on
/// success unless the rule's progress mode is `mute`.
pub fn shows_output(rule: &Rule, failed: bool) -> (b: bool)
    ensures
        b == (failed || rule.progress != OutputMode::Mute),
{
    failed || rule.progress != OutputMode::Mute
}

/// One token of a `for_each` rule for the matched file `file`: `{{file}}`
/// replaced by the file's path (other placeholders stay).
pub open spec fn file_token(file: Seq<char>, t: Seq<char>) -> Seq<char> {
    crate::config::interp(
        Map::<Seq<char>, Seq<char>>::empty().insert("file"@, file),
        Map::<Seq<char>, Seq<char>>::empty(),
        false,
        t,
    )
}

/// The commands of a `for_each` rule for the matched file `file`.
pub open spec fn file_commands_of(cmds: Seq<Seq<Seq<char>>>, file: Seq<char>) -> Seq<Seq<Seq<char>>> {
    cmds.map_values(|c: Seq<Seq<char>>| c.map_values(|t: Seq<char>| file_token(file, t)))
}

/// The commands a `for_each` rule runs for the matched file `file`.
pub fn file_commands(cmds: &Vec<Vec<String>>, file: &str) -> (r: Vec<Vec<String>>)
    ensures
        argv_views(r@) == file_commands_of(argv_views(cmds@), file@),
{
    let mut vars = crate::strmap::StrMap::new();
    vars.insert(String::from_str("file"), String::from_str(file));
    let none = crate::strmap::StrMap::new();
    let ghost fv = Map::<Seq<char>, Seq<char>>::empty().insert("file"@, file@);
    assert(vars.view() == fv);
    let ghost cv = argv_views(cmds@);
    let mut out: Vec<Vec<String>> = Vec::new();
    let mut i: usize = 0;
    while i < cmds.len()
        invariant
            i <= cmds@.len(),
            cv == argv_views(cmds@),
            fv == Map::<Seq<char>, Seq<char>>::empty().insert("file"@, file@),
            vars.view() == fv,
            none.view() == Map::<Seq<char>, Seq<char>>::empty(),
            argv_views(out@) == file_commands_of(cv.take(i as int), file@),
        decreases cmds@.len() - i,
    {
        let c = crate::config::interpolate_vec(&vars, &none, &cmds[i], false);
        let ghost before = argv_views(out@);
        out.push(c);
        assert(argv_views(out@) =~= before.push(views(c@)));
        assert(cv.take(i + 1) =~= cv.take(i as int).push(cv[i as int]));
        assert(cv[i as int] == views(cmds@[i as int]@));
        let ghost row = cv[i as int].map_values(|t: Seq<char>| file_token(file@, t));
        assert forall|j: int| 0 <= j < row.len() implies row[j] == views(c@)[j] by {
            assert(row[j] == file_token(file@, cv[i as int][j]));
            assert(views(c@)[j] == c@[j]@);
            assert(cv[i as int][j] == cmds@[i as int]@[j]@);
            assert(c@[j]@ == crate::config::interp(vars.view(), none.view(), false, cmds@[i as int]@[j]@));
        }
        assert(views(c@) =~= row);
        assert(file_commands_of(cv.take(i + 1), file@) =~= file_commands_of(cv.take(i as int), file@).push(
            row,
        ));
        i = i + 1;
    }
    assert(cv.take(cmds@.len() as int) =~= cv);
    out
}

} // verus!
