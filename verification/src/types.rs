//! Core data types: build targets and rules.

use vstd::prelude::*;

use crate::strmap::{copy_string, StrMap};
use crate::text::views;

verus! {

/// A build target — either a named file/artifact or a phony task name.
///
/// `File` targets participate in dirty-checking (hashed after build).
/// `Task` targets always run unless a dep cascade says otherwise.
#[derive(Debug, Clone, PartialEq, Eq, PartialOrd, Ord, Hash)]
pub enum Target {
    File(String),
    Task(String),
}

impl View for Target {
    /// Whether it is a task, and its name.
    type V = (bool, Seq<char>);

    open spec fn view(&self) -> (bool, Seq<char>) {
        match self {
            Target::File(p) => (false, p@),
            Target::Task(p) => (true, p@),
        }
    }
}

impl Target {
    /// The target's name.
    pub fn name(&self) -> (n: &String)
        ensures
            n@ == self@.1,
    {
        match self {
            Target::File(p) => p,
            Target::Task(p) => p,
        }
    }

    /// The text the target is shown as: its name.
    pub fn display_string(&self) -> (s: String)
        ensures
            s@ == self@.1,
    {
        copy_string(self.name())
    }

    /// Whether two targets are the same (same kind, same name).
    pub fn same(&self, other: &Target) -> (b: bool)
        ensures
            b == (self@ == other@),
    {
        match (self, other) {
            (Target::File(a), Target::File(b)) => a.eq(b),
            (Target::Task(a), Target::Task(b)) => a.eq(b),
            _ => false,
        }
    }

    /// A copy of the target.
    pub fn duplicate(&self) -> (t: Target)
        ensures
            t@ == self@,
    {
        match self {
            Target::File(p) => Target::File(copy_string(p)),
            Target::Task(p) => Target::Task(copy_string(p)),
        }
    }
}

/// How a rule's progress and command output is displayed.
#[derive(Debug, Clone, Copy, PartialEq, Eq, Structural)]
pub enum OutputMode {
    /// Show all output (default).
    Display,
    /// Suppress command output on success; show on error.
    Mute,
    /// For `for_each` rules: show a progress counter instead of per-file output.
    Percent,
}

impl Default for OutputMode {
    fn default() -> (m: Self)
        ensures
            m == OutputMode::Display,
    {
        OutputMode::Display
    }
}

/// The view of an optional string.
pub open spec fn opt_view(o: Option<String>) -> Option<Seq<char>> {
    match o {
        Some(s) => Some(s@),
        None => None,
    }
}

/// A copy of an optional string.
pub fn copy_opt(o: &Option<String>) -> (r: Option<String>)
    ensures
        opt_view(r) == opt_view(*o),
{
    match o {
        Some(s) => Some(copy_string(s)),
        None => None,
    }
}

/// A copy of a vector of strings.
pub fn copy_strings(v: &Vec<String>) -> (r: Vec<String>)
    ensures
        views(r@) == views(v@),
{
    let mut r: Vec<String> = Vec::new();
    let mut i: usize = 0;
    while i < v.len()
        invariant
            i <= v@.len(),
            r@.len() == i,
            forall|j: int| 0 <= j < i ==> #[trigger] r@[j]@ == v@[j]@,
        decreases v@.len() - i,
    {
        r.push(copy_string(&v[i]));
        i = i + 1;
    }
    assert(views(r@) =~= views(v@));
    r
}

/// The views of a sequence of targets.
pub open spec fn target_views(v: Seq<Target>) -> Seq<(bool, Seq<char>)> {
    v.map_values(|t: Target| t@)
}

/// Appends copies of `src` to `dst`.
pub fn append_strings(dst: &mut Vec<String>, src: &Vec<String>)
    ensures
        views(final(dst)@) == views(old(dst)@) + views(src@),
{
    let ghost d0 = views(dst@);
    let mut k: usize = 0;
    while k < src.len()
        invariant
            k <= src@.len(),
            views(dst@) == d0 + views(src@).take(k as int),
        decreases src@.len() - k,
    {
        let ghost before = dst@;
        dst.push(copy_string(&src[k]));
        assert(views(dst@) =~= views(before).push(src@[k as int]@));
        assert(views(src@).take(k + 1) =~= views(src@).take(k as int).push(src@[k as int]@));
        k = k + 1;
    }
    assert(views(src@).take(src@.len() as int) =~= views(src@));
}

/// A copy of a vector of targets.
pub fn copy_targets(v: &Vec<Target>) -> (r: Vec<Target>)
    ensures
        target_views(r@) == target_views(v@),
{
    let mut r: Vec<Target> = Vec::new();
    let mut i: usize = 0;
    while i < v.len()
        invariant
            i <= v@.len(),
            r@.len() == i,
            forall|j: int| 0 <= j < i ==> #[trigger] r@[j]@ == v@[j]@,
        decreases v@.len() - i,
    {
        r.push(v[i].duplicate());
        i = i + 1;
    }
    assert(target_views(r@) =~= target_views(v@));
    r
}

/// The views of a list of argument vectors.
pub open spec fn command_views(v: Seq<Vec<String>>) -> Seq<Seq<Seq<char>>> {
    v.map_values(|c: Vec<String>| views(c@))
}

/// A copy of a list of argument vectors.
pub fn copy_commands(v: &Vec<Vec<String>>) -> (r: Vec<Vec<String>>)
    ensures
        command_views(r@) == command_views(v@),
{
    let mut r: Vec<Vec<String>> = Vec::new();
    let mut i: usize = 0;
    while i < v.len()
        invariant
            i <= v@.len(),
            r@.len() == i,
            forall|j: int| 0 <= j < i ==> views(#[trigger] r@[j]@) == views(v@[j]@),
        decreases v@.len() - i,
    {
        r.push(copy_strings(&v[i]));
        i = i + 1;
    }
    assert(command_views(r@) =~= command_views(v@));
    r
}

/// A file to download and optionally extract before running a rule's commands.
#[derive(Debug, Clone)]
pub struct Download {
    /// URL to fetch.
    pub url: String,
    /// Local directory to place the downloaded/extracted files.
    pub dest: String,
    /// Archive format to extract: "tar.gz", "tar.xz", "tar.bz2", "tar", "zip", or "none".
    /// When omitted, the format is inferred from the URL extension.
    pub extract: Option<String>,
    /// Strip this many leading path components when extracting (like tar --strip-components).
    pub strip: u32,
}

impl View for Download {
    type V = (Seq<char>, Seq<char>, Option<Seq<char>>, u32);

    open spec fn view(&self) -> (Seq<char>, Seq<char>, Option<Seq<char>>, u32) {
        (self.url@, self.dest@, opt_view(self.extract), self.strip)
    }
}

/// The views of a sequence of downloads.
pub open spec fn download_views(v: Seq<Download>) -> Seq<
    (Seq<char>, Seq<char>, Option<Seq<char>>, u32),
> {
    v.map_values(|d: Download| d@)
}

/// A copy of a vector of downloads.
pub fn copy_downloads(v: &Vec<Download>) -> (r: Vec<Download>)
    ensures
        download_views(r@) == download_views(v@),
{
    let mut r: Vec<Download> = Vec::new();
    let mut i: usize = 0;
    while i < v.len()
        invariant
            i <= v@.len(),
            r@.len() == i,
            forall|j: int| 0 <= j < i ==> #[trigger] r@[j]@ == v@[j]@,
        decreases v@.len() - i,
    {
        let d = &v[i];
        r.push(
            Download {
                url: copy_string(&d.url),
                dest: copy_string(&d.dest),
                extract: copy_opt(&d.extract),
                strip: d.strip,
            },
        );
        i = i + 1;
    }
    assert(download_views(r@) =~= download_views(v@));
    r
}

/// A build rule.
#[derive(Debug, Clone)]
pub struct Rule {
    /// Maximum time this rule may run before it is killed.
    /// `None` means no limit. Inherited from `[config] max_time` if not set on the rule.
    pub max_time: Option<std::time::Duration>,
    /// Number of times to retry this rule on failure before giving up.
    /// Default 0 (no retries). Timeouts are not retried.
    pub retry: u32,
    /// The artifact or task this rule produces.
    pub target: Target,
    /// Targets that must be up-to-date before this runs.
    pub deps: Vec<Target>,
    /// Source files read by the command (for dirty-checking).
    pub inputs: Vec<String>,
    /// File written by the command (hashed after success; empty for tasks).
    pub output: String,
    /// Path to a compiler-written depfile (Make format). If set, discovered
    /// inputs are merged into the lock file and used for dirty-checking.
    pub depfile: Option<String>,
    /// One or more commands to run sequentially.
    /// Each inner `Vec<String>` is a single argv.
    pub commands: Vec<Vec<String>>,
    /// If true, each command is joined and run via `sh -c "..."`.
    pub shell: bool,
    /// Working directory for the command, relative to pbuild.toml.
    pub dir: Option<String>,
    /// Run `pbuild [target]` in the given subdirectory.
    /// If that directory has no pbuild.toml, falls back to `make [target]`.
    pub subdir: Option<String>,
    /// Run `make [target]` in the given subdirectory.
    pub makedir: Option<String>,
    /// Short description shown in `--list` output.
    pub description: Option<String>,
    /// Group heading for `--list` output (e.g. "Build", "Quality").
    pub group: Option<String>,
    /// Environment variables set for this rule's commands only.
    pub env: StrMap,
    /// If true, connect stdin to the terminal (for interactive programs like QEMU).
    pub tty: bool,
    /// If true, skip the rule when its inputs are unchanged.
    pub cache: bool,
    /// If set, run the rule's commands once per file matching this glob.
    /// `{{file}}` in commands is substituted with each matched path.
    pub for_each: Option<String>,
    /// Controls how command output and progress is displayed.
    pub progress: OutputMode,
    /// Files to download (and optionally extract) before running commands.
    pub downloads: Vec<Download>,
    /// Command to run if this rule fails (after all retries are exhausted).
    /// Empty vec means no cleanup command.
    pub on_failure: Vec<String>,
}

/// The mathematical value of a rule: every field by its view.
pub struct RuleView {
    pub max_time: Option<std::time::Duration>,
    pub retry: u32,
    pub target: (bool, Seq<char>),
    pub deps: Seq<(bool, Seq<char>)>,
    pub inputs: Seq<Seq<char>>,
    pub output: Seq<char>,
    pub depfile: Option<Seq<char>>,
    pub commands: Seq<Seq<Seq<char>>>,
    pub shell: bool,
    pub dir: Option<Seq<char>>,
    pub subdir: Option<Seq<char>>,
    pub makedir: Option<Seq<char>>,
    pub description: Option<Seq<char>>,
    pub group: Option<Seq<char>>,
    pub env: Map<Seq<char>, Seq<char>>,
    pub tty: bool,
    pub cache: bool,
    pub for_each: Option<Seq<char>>,
    pub progress: OutputMode,
    pub downloads: Seq<(Seq<char>, Seq<char>, Option<Seq<char>>, u32)>,
    pub on_failure: Seq<Seq<char>>,
}

impl View for Rule {
    type V = RuleView;

    open spec fn view(&self) -> RuleView {
        RuleView {
            max_time: self.max_time,
            retry: self.retry,
            target: self.target@,
            deps: target_views(self.deps@),
            inputs: views(self.inputs@),
            output: self.output@,
            depfile: opt_view(self.depfile),
            commands: command_views(self.commands@),
            shell: self.shell,
            dir: opt_view(self.dir),
            subdir: opt_view(self.subdir),
            makedir: opt_view(self.makedir),
            description: opt_view(self.description),
            group: opt_view(self.group),
            env: self.env.view(),
            tty: self.tty,
            cache: self.cache,
            for_each: opt_view(self.for_each),
            progress: self.progress,
            downloads: download_views(self.downloads@),
            on_failure: views(self.on_failure@),
        }
    }
}

/// The views of a sequence of rules.
pub open spec fn rule_views(v: Seq<Rule>) -> Seq<RuleView> {
    v.map_values(|r: Rule| r@)
}

impl Rule {
    /// A copy of the rule.
    pub fn duplicate(&self) -> (r: Rule)
        ensures
            r@ == self@,
    {
        Rule {
            max_time: self.max_time,
            retry: self.retry,
            target: self.target.duplicate(),
            deps: copy_targets(&self.deps),
            inputs: copy_strings(&self.inputs),
            output: copy_string(&self.output),
            depfile: copy_opt(&self.depfile),
            commands: copy_commands(&self.commands),
            shell: self.shell,
            dir: copy_opt(&self.dir),
            subdir: copy_opt(&self.subdir),
            makedir: copy_opt(&self.makedir),
            description: copy_opt(&self.description),
            group: copy_opt(&self.group),
            env: self.env.duplicate(),
            tty: self.tty,
            cache: self.cache,
            for_each: copy_opt(&self.for_each),
            progress: self.progress,
            downloads: copy_downloads(&self.downloads),
            on_failure: copy_strings(&self.on_failure),
        }
    }
}

} // verus!
