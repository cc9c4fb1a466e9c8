//! `pbuild.toml`: the build file's contents and how they become rules.
//!
//! ```toml
//! [config]
//! default = "app"
//!
//! [vars]
//! cargo = "cargo"
//!
//! ["main.o"]
//! command = ["{{cargo}}", "build"]
//! inputs  = ["main.c"]
//! output  = "main.o"
//! ```
//!
//! Rules default to `type = "file"`. Set `type = "task"` for phony targets
//! that should always run and are never hashed.

use vstd::prelude::*;
use vstd::string::StringExecFns;

use crate::strmap::{copy_string, distinct_names, name_index, StrMap, Table};
use crate::text::{decimal, decimal_of, digit_char, push_char, to_chars, views};
use crate::types::{append_strings, copy_opt, copy_strings, opt_view, OutputMode, Target};
use crate::ui::UiConfig;

verus! {

/// The kind of a rule in the build file.
#[derive(Debug, Clone, Copy, PartialEq, Eq, Structural)]
pub enum RawTargetType {
    File,
    Task,
}

impl Default for RawTargetType {
    fn default() -> (t: Self)
        ensures
            t == RawTargetType::File,
    {
        RawTargetType::File
    }
}

/// A download step: fetch a URL and optionally extract it.
#[derive(Debug, Clone)]
pub struct RawDownload {
    /// URL to fetch.
    pub url: String,
    /// Local directory to extract/place files into.
    pub dest: String,
    /// Archive format: "tar.gz", "tar.xz", "tar.bz2", "tar", "zip", or "none".
    /// Omit to auto-detect from URL extension.
    pub extract: Option<String>,
    /// Strip leading path components when extracting (default 0).
    pub strip: u32,
}

/// A rule as written in the build file.
#[derive(Debug, Clone)]
pub struct RawRule {
    /// `type = "file"` (default) or `"task"`.
    pub kind: RawTargetType,
    /// Single command shorthand: `command = ["cc", "-o", "app"]`
    pub command: Vec<String>,
    /// Multi-step commands: `commands = [["step1"], ["step2"]]`
    pub commands: Vec<Vec<String>>,
    pub deps: Vec<String>,
    pub inputs: Vec<String>,
    pub output: String,
    /// Path where the compiler will write a Make-style depfile.
    pub depfile: Option<String>,
    /// If true, join each command and run it via `sh -c`.
    pub shell: bool,
    /// Working directory for the command, relative to pbuild.toml.
    pub dir: Option<String>,
    /// Run `pbuild [target]` in this subdirectory (falls back to `make` if no pbuild.toml).
    pub subdir: Option<String>,
    /// Run `make [target]` in this subdirectory.
    pub makedir: Option<String>,
    /// Short description shown in `--list` output.
    pub description: Option<String>,
    /// Group heading for `--list` output.
    pub group: Option<String>,
    /// Environment variables set only for this rule's commands.
    pub env: StrMap,
    /// Pass stdin through to the process (for interactive programs like QEMU).
    pub tty: bool,
    /// Whether to cache this rule's results. Default true.
    pub cache: bool,
    /// Glob pattern: run the rule once per matching file, substituting
    /// `{{file}}` in commands with each path.
    pub for_each: Option<String>,
    /// How output is displayed: "display" (default), "mute", or "percent".
    pub progress: String,
    /// Files to download and optionally extract before running commands.
    pub downloads: Vec<RawDownload>,
    /// Maximum time this rule may run. Accepts "5m", "30s", "1h", or plain seconds.
    /// Overrides `[config] max_time` when set.
    pub max_time: Option<String>,
    /// Number of times to retry on failure (not on timeout). Default 0.
    pub retry: u32,
    /// Command to run after all retries are exhausted. Empty = no cleanup.
    pub on_failure: Vec<String>,
}

/// A named profile — activated with `--profile <name>`.
///
/// Profile values are merged on top of `[config]` and `[vars]`:
/// - `jobs`, `default`, `trust`: replace the base value when set.
/// - `env`: appended to the base list.
/// - `vars`: merged into `[vars]`, with profile values taking precedence.
#[derive(Debug, Clone)]
pub struct Profile {
    pub default: Option<String>,
    pub jobs: Option<usize>,
    pub env: Vec<String>,
    pub trust: bool,
    /// Var overrides merged into `[vars]` (profile wins on conflict).
    pub vars: StrMap,
}

/// The `[config]` section.
#[derive(Debug)]
pub struct BuildConfig {
    /// Target to build when none is specified on the CLI.
    pub default: Option<String>,
    /// Default number of parallel jobs (overridden by `-j` on the CLI).
    pub jobs: Option<usize>,
    /// Environment variables that trigger a full rebuild when their value changes.
    pub env: Vec<String>,
    /// Skip safety checks for dangerous commands (sudo, rm -rf, etc.).
    pub trust: bool,
    /// Keep building independent rules after a failure (like `-k`).
    pub keep_going: bool,
    /// Default timeout for all rules. Overridden per-rule by `max_time`.
    pub max_time: Option<String>,
    /// Named profiles that can be activated with `--profile <name>`.
    pub profiles: Table<Profile>,
}

impl BuildConfig {
    /// The settings of a build file without a `[config]` section.
    pub fn empty() -> (c: Self)
        ensures
            c.default is None,
            c.jobs is None,
            c.env@.len() == 0,
            !c.trust,
            !c.keep_going,
            c.max_time is None,
            c.profiles.entries().len() == 0,
    {
        BuildConfig {
            default: None,
            jobs: None,
            env: Vec::new(),
            trust: false,
            keep_going: false,
            max_time: None,
            profiles: Table::new(),
        }
    }
}

/// Parsed `pbuild.toml`: `[config]`, `[ui]`, `[vars]` and the rules, every
/// other top-level table being a rule named by its key.
#[derive(Debug)]
pub struct BuildFile {
    pub config: BuildConfig,
    pub ui: UiConfig,
    /// Variable definitions from `[vars]`. Used for `{{name}}` interpolation.
    pub vars: StrMap,
    pub rules: Table<RawRule>,
}

/// What went wrong while reading the build file.
#[derive(Debug, Clone, Copy, PartialEq, Eq, Structural)]
pub enum ErrorKind {
    /// "invalid duration: <subject>"
    InvalidDuration,
    /// "invalid duration: <subject> (trailing number with no unit)"
    TrailingNumber,
    /// "rule `<subject>`: unknown progress mode `<detail>` (expected display, mute, or percent)"
    UnknownProgress,
    /// "no profile named `<subject>`"
    NoProfile,
    /// "rule `<subject>` has no command"
    NoCommand,
    /// "rule `<subject>`: invalid max_time" (caused by `<detail>`)
    InvalidMaxTime,
    /// "rule `<subject>`: failed to expand inputs" (caused by `<detail>`)
    BadInputs,
    /// "invalid glob pattern: <subject>"
    InvalidGlob,
    /// "error reading glob pattern: <subject>"
    GlobRead,
    /// "non-UTF-8 path matched by <subject>"
    NonUtf8Path,
    /// "no rule for target: <subject>"
    NoRuleForTarget,
    /// "default target `<subject>` has no rule"
    DefaultHasNoRule,
    /// "no default target specified and multiple rules exist; pass a target
    /// name on the command line"
    NoDefaultTarget,
}

/// An error from reading the build file: its kind, what it is about, and
/// (for errors with a cause) the cause's message.
#[derive(Debug, Clone)]
pub struct ConfigError {
    pub kind: ErrorKind,
    pub subject: String,
    pub detail: String,
}

impl View for ConfigError {
    type V = (ErrorKind, Seq<char>, Seq<char>);

    open spec fn view(&self) -> (ErrorKind, Seq<char>, Seq<char>) {
        (self.kind, self.subject@, self.detail@)
    }
}

/// The message shown for an error.
pub open spec fn error_message(e: (ErrorKind, Seq<char>, Seq<char>)) -> Seq<char> {
    match e.0 {
        ErrorKind::InvalidDuration => "invalid duration: "@ + e.1,
        ErrorKind::TrailingNumber => "invalid duration: "@ + e.1
            + " (trailing number with no unit)"@,
        ErrorKind::UnknownProgress => "rule `"@ + e.1 + "`: unknown progress mode `"@ + e.2
            + "` (expected display, mute, or percent)"@,
        ErrorKind::NoProfile => "no profile named `"@ + e.1 + "`"@,
        ErrorKind::NoCommand => "rule `"@ + e.1 + "` has no command"@,
        ErrorKind::InvalidMaxTime => "rule `"@ + e.1 + "`: invalid max_time"@,
        ErrorKind::BadInputs => "rule `"@ + e.1 + "`: failed to expand inputs"@,
        ErrorKind::InvalidGlob => "invalid glob pattern: "@ + e.1,
        ErrorKind::GlobRead => "error reading glob pattern: "@ + e.1,
        ErrorKind::NonUtf8Path => "non-UTF-8 path matched by "@ + e.1,
        ErrorKind::NoRuleForTarget => "no rule for target: "@ + e.1,
        ErrorKind::DefaultHasNoRule => "default target `"@ + e.1 + "` has no rule"@,
        ErrorKind::NoDefaultTarget =>
            "no default target specified and multiple rules exist; pass a target name on the command line"@,
    }
}

impl ConfigError {
    /// An error without a cause.
    pub fn new(kind: ErrorKind, subject: &str) -> (e: ConfigError)
        ensures
            e@ == (kind, subject@, Seq::<char>::empty()),
    {
        ConfigError { kind, subject: String::from_str(subject), detail: String::new() }
    }

    /// The message shown for the error.
    pub fn message(&self) -> (m: String)
        ensures
            m@ == error_message(self@),
    {
        let s = self.subject.as_str();
        match self.kind {
            ErrorKind::InvalidDuration => String::from_str("invalid duration: ").concat(s),
            ErrorKind::TrailingNumber => String::from_str("invalid duration: ").concat(s).concat(
                " (trailing number with no unit)",
            ),
            ErrorKind::UnknownProgress => String::from_str("rule `").concat(s).concat(
                "`: unknown progress mode `",
            ).concat(self.detail.as_str()).concat("` (expected display, mute, or percent)"),
            ErrorKind::NoProfile => String::from_str("no profile named `").concat(s).concat("`"),
            ErrorKind::NoCommand => String::from_str("rule `").concat(s).concat(
                "` has no command",
            ),
            ErrorKind::InvalidMaxTime => String::from_str("rule `").concat(s).concat(
                "`: invalid max_time",
            ),
            ErrorKind::BadInputs => String::from_str("rule `").concat(s).concat(
                "`: failed to expand inputs",
            ),
            ErrorKind::InvalidGlob => String::from_str("invalid glob pattern: ").concat(s),
            ErrorKind::GlobRead => String::from_str("error reading glob pattern: ").concat(s),
            ErrorKind::NonUtf8Path => String::from_str("non-UTF-8 path matched by ").concat(s),
            ErrorKind::NoRuleForTarget => String::from_str("no rule for target: ").concat(s),
            ErrorKind::DefaultHasNoRule => String::from_str("default target `").concat(s).concat(
                "` has no rule",
            ),
            ErrorKind::NoDefaultTarget => String::from_str(
                "no default target specified and multiple rules exist; pass a target name on the command line",
            ),
        }
    }
}

/// The default of `cache`: true.
pub fn default_true() -> (b: bool)
    ensures
        b,
{
    true
}

// ---------------------------------------------------------------------------
// Durations

/// A decimal digit.
pub open spec fn is_digit(c: char) -> bool {
    48 <= (c as int) <= 57
}

/// The value of a run of decimal digits.
pub open spec fn digits_value(d: Seq<char>) -> int
    decreases d.len(),
{
    if d.len() == 0 {
        0
    } else {
        digits_value(d.drop_last()) * 10 + ((d.last() as int) - 48)
    }
}

/// Every character is a decimal digit.
pub open spec fn all_digits(d: Seq<char>) -> bool {
    forall|i: int| 0 <= i < d.len() ==> is_digit(#[trigger] d[i])
}

/// `u64::from_str`: an optional `+`, then one or more digits, with a value
/// that fits in a `u64`.
pub open spec fn parse_u64(s: Seq<char>) -> Option<int> {
    let d = if s.len() > 0 && s[0] == '+' {
        s.skip(1)
    } else {
        s
    };
    if d.len() > 0 && all_digits(d) && digits_value(d) <= u64::MAX {
        Some(digits_value(d))
    } else {
        None
    }
}

/// Seconds per unit letter.
pub open spec fn unit_secs(c: char) -> int {
    if c == 'h' {
        3600
    } else if c == 'm' {
        60
    } else {
        1
    }
}

/// A unit letter: `h`, `m` or `s`.
pub open spec fn is_unit(c: char) -> bool {
    c == 'h' || c == 'm' || c == 's'
}

/// Reading `<number><unit>...` groups, with `total` seconds read so far and
/// `buf` the digits of the number being read.
pub open spec fn units_from(s: Seq<char>, total: int, buf: Seq<char>) -> Result<int, ErrorKind>
    decreases s.len(),
{
    if s.len() == 0 {
        if buf.len() > 0 {
            Err(ErrorKind::TrailingNumber)
        } else {
            Ok(total)
        }
    } else if is_digit(s[0]) {
        units_from(s.skip(1), total, buf.push(s[0]))
    } else if is_unit(s[0]) {
        match parse_u64(buf) {
            Some(n) => units_from(s.skip(1), total + n * unit_secs(s[0]), seq![]),
            None => Err(ErrorKind::InvalidDuration),
        }
    } else {
        Err(ErrorKind::InvalidDuration)
    }
}

/// No product or sum that reading the groups computes leaves `u64`.
pub open spec fn units_fit(s: Seq<char>, total: int, buf: Seq<char>) -> bool
    decreases s.len(),
{
    if s.len() == 0 {
        true
    } else if is_digit(s[0]) {
        units_fit(s.skip(1), total, buf.push(s[0]))
    } else if is_unit(s[0]) {
        match parse_u64(buf) {
            Some(n) => n * unit_secs(s[0]) <= u64::MAX && total + n * unit_secs(s[0])
                <= u64::MAX && units_fit(s.skip(1), total + n * unit_secs(s[0]), seq![]),
            None => true,
        }
    } else {
        true
    }
}

/// The seconds a duration string stands for: a plain integer is seconds;
/// otherwise `<number><unit>` groups with units `h`, `m`, `s`, summed.
pub open spec fn duration_secs(s: Seq<char>) -> Result<int, ErrorKind> {
    match parse_u64(s) {
        Some(n) => Ok(n),
        None => units_from(s, 0, seq![]),
    }
}

/// Reading `s` as a duration computes nothing outside `u64`.
pub open spec fn duration_fits(s: Seq<char>) -> bool {
    parse_u64(s) is Some || units_fit(s, 0, seq![])
}

/// The `Duration` of a number of whole seconds, as `Duration::from_secs`
/// builds it.
pub uninterp spec fn duration_of_secs(secs: u64) -> std::time::Duration;

/// `std::time::Duration::from_secs`: the duration of `secs` whole seconds.
/// Claimed: it is `duration_of_secs(secs)`, the same for the same number.
#[verifier::external_body]
fn secs_to_duration(secs: u64) -> (d: std::time::Duration)
    ensures
        d == duration_of_secs(secs),
{
    std::time::Duration::from_secs(secs)
}

/// Longer runs of digits are worth no less.
proof fn lemma_digits_grow(d: Seq<char>, i: int)
    requires
        all_digits(d),
        0 <= i <= d.len(),
    ensures
        digits_value(d.take(i)) <= digits_value(d),
        digits_value(d.take(i)) >= 0,
    decreases d.len() - i,
{
    if i < d.len() {
        lemma_digits_grow(d, i + 1);
        let t = d.take(i + 1);
        assert(t.drop_last() =~= d.take(i));
        assert(is_digit(d[i]));
    } else {
        assert(d.take(i) =~= d);
    }
    lemma_digits_nonneg(d.take(i));
}

/// The value of digits is not negative.
proof fn lemma_digits_nonneg(d: Seq<char>)
    requires
        all_digits(d),
    ensures
        digits_value(d) >= 0,
    decreases d.len(),
{
    if d.len() > 0 {
        assert(all_digits(d.drop_last())) by {
            assert forall|i: int| 0 <= i < d.drop_last().len() implies is_digit(
                #[trigger] d.drop_last()[i],
            ) by {
                assert(d.drop_last()[i] == d[i]);
            }
        }
        lemma_digits_nonneg(d.drop_last());
        assert(is_digit(d[d.len() - 1]));
    }
}

/// The value of a run of digits, if it fits in a `u64`.
fn digits_u64(d: &[char], from: usize) -> (r: Option<u64>)
    requires
        from <= d@.len(),
    ensures
        ({
            let t = d@.skip(from as int);
            match r {
                Some(n) => t.len() > 0 && all_digits(t) && digits_value(t) <= u64::MAX && n
                    == digits_value(t),
                None => !(t.len() > 0 && all_digits(t) && digits_value(t) <= u64::MAX),
            }
        }),
{
    let ghost t = d@.skip(from as int);
    if from == d.len() {
        return None;
    }
    let mut v: u64 = 0;
    let mut i = from;
    while i < d.len()
        invariant
            from <= i <= d@.len(),
            t == d@.skip(from as int),
            all_digits(t.take(i - from)),
            v == digits_value(t.take(i - from)),
        decreases d@.len() - i,
    {
        let c = d[i];
        assert(t[i - from] == c);
        if !('0' <= c && c <= '9') {
            assert(!is_digit(t[i - from]));
            return None;
        }
        let dv = (c as u32 - '0' as u32) as u64;
        let ghost prefix = t.take(i - from + 1);
        assert(prefix.drop_last() =~= t.take(i - from));
        assert(prefix.last() == c);
        assert(all_digits(prefix)) by {
            assert forall|k: int| 0 <= k < prefix.len() implies is_digit(#[trigger] prefix[k]) by {
                if k < prefix.len() - 1 {
                    assert(prefix[k] == t.take(i - from)[k]);
                }
            }
        }
        if v > (u64::MAX - dv) / 10 {
            proof {
                assert(digits_value(prefix) > u64::MAX) by (nonlinear_arith)
                    requires
                        digits_value(prefix) == v * 10 + dv,
                        v > (u64::MAX - dv) / 10,
                        dv <= 9,
                ;
                if all_digits(t) {
                    lemma_digits_grow(t, i - from + 1);
                }
            }
            return None;
        }
        assert(v * 10 + dv <= u64::MAX) by (nonlinear_arith)
            requires
                v <= (u64::MAX - dv) / 10,
                dv <= 9,
        ;
        v = v * 10 + dv;
        i = i + 1;
    }
    assert(t.take(i - from) =~= t);
    Some(v)
}

/// `u64::from_str` on `s[from..]`.
pub fn parse_u64_exec(s: &[char]) -> (r: Option<u64>)
    ensures
        match r {
            Some(n) => parse_u64(s@) == Some(n as int),
            None => parse_u64(s@) is None,
        },
{
    assert(s@.skip(0) =~= s@);
    if s.len() > 0 && s[0] == '+' {
        digits_u64(s, 1)
    } else {
        digits_u64(s, 0)
    }
}

/// The seconds of a duration string, when reading it stays within `u64`.
pub fn duration_seconds(s: &str) -> (r: Result<u64, ErrorKind>)
    requires
        duration_fits(s@),
    ensures
        match r {
            Ok(n) => duration_secs(s@) == Ok::<int, ErrorKind>(n as int),
            Err(k) => duration_secs(s@) == Err::<int, ErrorKind>(k),
        },
{
    let cs = to_chars(s);
    match parse_u64_exec(cs.as_slice()) {
        Some(n) => {
            return Ok(n);
        },
        None => {},
    }
    let mut total: u64 = 0;
    let mut buf: Vec<char> = Vec::new();
    let mut i: usize = 0;
    assert(cs@.skip(0) =~= cs@);
    while i < cs.len()
        invariant
            i <= cs@.len(),
            cs@ == s@,
            parse_u64(s@) is None,
            units_from(cs@.skip(i as int), total as int, buf@) == units_from(
                cs@,
                0,
                seq![],
            ),
            units_fit(cs@.skip(i as int), total as int, buf@),
        decreases cs@.len() - i,
    {
        let c = cs[i];
        let ghost rest = cs@.skip(i as int);
        assert(rest[0] == c);
        assert(rest.skip(1) =~= cs@.skip(i + 1));
        if '0' <= c && c <= '9' {
            assert(is_digit(c));
            buf.push(c);
        } else if c == 'h' || c == 'm' || c == 's' {
            assert(!is_digit(c));
            assert(is_unit(c));
            let n = match parse_u64_exec(buf.as_slice()) {
                Some(n) => n,
                None => {
                    return Err(ErrorKind::InvalidDuration);
                },
            };
            let unit: u64 = if c == 'h' {
                3600
            } else if c == 'm' {
                60
            } else {
                1
            };
            assert(unit == unit_secs(c));
            total = total + n * unit;
            buf = Vec::new();
            assert(buf@ =~= Seq::<char>::empty());
        } else {
            assert(!is_digit(c));
            assert(!is_unit(c));
            assert(units_from(rest, total as int, buf@) == Err::<int, ErrorKind>(ErrorKind::InvalidDuration));
            return Err(ErrorKind::InvalidDuration);
        }
        i = i + 1;
    }
    assert(cs@.skip(i as int) =~= Seq::<char>::empty());
    if buf.len() > 0 {
        return Err(ErrorKind::TrailingNumber);
    }
    Ok(total)
}

/// Whether reading `s` as a duration stays within `u64` (what
/// `parse_duration` needs).
pub fn duration_in_range(s: &str) -> (b: bool)
    ensures
        b == duration_fits(s@),
{
    let cs = to_chars(s);
    if parse_u64_exec(cs.as_slice()).is_some() {
        return true;
    }
    let mut total: u64 = 0;
    let mut buf: Vec<char> = Vec::new();
    let mut i: usize = 0;
    assert(cs@.skip(0) =~= cs@);
    while i < cs.len()
        invariant
            i <= cs@.len(),
            cs@ == s@,
            parse_u64(s@) is None,
            units_fit(cs@.skip(i as int), total as int, buf@) == units_fit(cs@, 0, seq![]),
        decreases cs@.len() - i,
    {
        let c = cs[i];
        let ghost rest = cs@.skip(i as int);
        assert(rest[0] == c);
        assert(rest.skip(1) =~= cs@.skip(i + 1));
        if '0' <= c && c <= '9' {
            assert(is_digit(c));
            buf.push(c);
        } else if c == 'h' || c == 'm' || c == 's' {
            assert(!is_digit(c));
            let n = match parse_u64_exec(buf.as_slice()) {
                Some(n) => n,
                None => {
                    return true;
                },
            };
            let unit: u64 = if c == 'h' {
                3600
            } else if c == 'm' {
                60
            } else {
                1
            };
            assert(unit == unit_secs(c));
            let part = match n.checked_mul(unit) {
                Some(p) => p,
                None => {
                    return false;
                },
            };
            total = match total.checked_add(part) {
                Some(t) => t,
                None => {
                    return false;
                },
            };
            buf = Vec::new();
            assert(buf@ =~= Seq::<char>::empty());
        } else {
            assert(!is_digit(c) && !is_unit(c));
            return true;
        }
        i = i + 1;
    }
    true
}

/// Whether every rule's timeout reads within `u64` (what `to_rules` needs).
pub fn timeouts_in_range(bf: &BuildFile) -> (b: bool)
    ensures
        b == timeouts_fit(bf),
{
    let n = bf.rules.len();
    let mut i: usize = 0;
    while i < n
        invariant
            i <= n,
            n == bf.rules.entries().len(),
            forall|j: int|
                0 <= j < i ==> match rule_max_time(opt_view(bf.config.max_time), #[trigger] bf.rules.entries()[j].1) {
                    Some(t) => duration_fits(t),
                    None => true,
                },
        decreases n - i,
    {
        let raw = bf.rules.item_at(i);
        let chosen: Option<&String> = match &raw.max_time {
            Some(t) => Some(t),
            None => match &bf.config.max_time {
                Some(t) => Some(t),
                None => None,
            },
        };
        match chosen {
            Some(t) => {
                if !duration_in_range(t.as_str()) {
                    return false;
                }
            },
            None => {},
        }
        i = i + 1;
    }
    true
}

/// Parse a duration string like "5m", "30s", "1h", "1h30m", or a plain
/// integer (seconds).
pub fn parse_duration(s: &str) -> (r: Result<std::time::Duration, ConfigError>)
    requires
        duration_fits(s@),
    ensures
        match r {
            Ok(d) => exists|n: u64| #[trigger]
                duration_secs(s@) == Ok::<int, ErrorKind>(n as int) && d == duration_of_secs(n),
            Err(e) => exists|k: ErrorKind| #[trigger]
                duration_secs(s@) == Err::<int, ErrorKind>(k) && e@ == (k, s@, Seq::<char>::empty()),
        },
{
    match duration_seconds(s) {
        Ok(n) => Ok(secs_to_duration(n)),
        Err(k) => Err(ConfigError::new(k, s)),
    }
}

/// A number of seconds as hours, minutes and seconds, each part only when
/// it is not zero (`5m`, `1h30m`, `2h5m10s`; `0s` for nothing).
pub open spec fn duration_text_of(n: nat) -> Seq<char> {
    let h = n / 3600;
    let m = (n % 3600) / 60;
    let sec = n % 60;
    (if h > 0 {
        decimal_of(h) + "h"@
    } else {
        seq![]
    }) + (if m > 0 {
        decimal_of(m) + "m"@
    } else {
        seq![]
    }) + (if sec > 0 || n == 0 {
        decimal_of(sec) + "s"@
    } else {
        seq![]
    })
}

/// A timeout as text, the way it is written in `pbuild.toml`.
pub fn duration_text(n: u64) -> (s: String)
    ensures
        s@ == duration_text_of(n as nat),
{
    let h = n / 3600;
    let m = (n % 3600) / 60;
    let sec = n % 60;
    let mut out = String::new();
    if h > 0 {
        out = decimal(h).concat("h");
    }
    assert(out@ == (if h > 0 { decimal_of(h as nat) + "h"@ } else { Seq::<char>::empty() }));
    if m > 0 {
        out = out.concat(decimal(m).concat("m").as_str());
    }
    if sec > 0 || n == 0 {
        out = out.concat(decimal(sec).concat("s").as_str());
    }
    proof {
        assert(h as nat == (n as nat) / 3600);
        assert(m as nat == ((n as nat) % 3600) / 60);
        assert(sec as nat == (n as nat) % 60);
    }
    out
}

/// Decimal text is a non-empty run of digits worth the number.
proof fn lemma_decimal_digits(n: nat)
    ensures
        decimal_of(n).len() > 0,
        all_digits(decimal_of(n)),
        digits_value(decimal_of(n)) == n,
    decreases n,
{
    if n >= 10 {
        lemma_decimal_digits(n / 10);
        let d = decimal_of(n);
        assert(d == decimal_of(n / 10).push(digit_char(n % 10)));
        assert(d.drop_last() =~= decimal_of(n / 10));
        assert forall|i: int| 0 <= i < d.len() implies is_digit(#[trigger] d[i]) by {
            if i < d.len() - 1 {
                assert(d[i] == decimal_of(n / 10)[i]);
            }
        }
        assert((digit_char(n % 10) as int) - 48 == n % 10);
        assert(d.last() == digit_char(n % 10));
        assert(digits_value(d) == digits_value(d.drop_last()) * 10 + ((d.last() as int) - 48));
        assert(digits_value(d) == (n / 10) * 10 + n % 10);
        assert(n == (n / 10) * 10 + n % 10);
    } else {
        assert((digit_char(n) as int) - 48 == n);
        let d = decimal_of(n);
        assert(d.drop_last() =~= Seq::<char>::empty());
        assert(d.last() == digit_char(n));
        assert(digits_value(d) == digits_value(d.drop_last()) * 10 + ((d.last() as int) - 48));
        assert(is_digit(d[0]));
    }
}

/// Digits read into the number being read.
proof fn lemma_units_digits(d: Seq<char>, rest: Seq<char>, total: int, buf: Seq<char>)
    requires
        all_digits(d),
    ensures
        units_from(d + rest, total, buf) == units_from(rest, total, buf + d),
    decreases d.len(),
{
    if d.len() == 0 {
        assert(d + rest =~= rest);
        assert(buf + d =~= buf);
    } else {
        assert((d + rest)[0] == d[0]);
        assert(is_digit(d[0]));
        assert((d + rest).skip(1) =~= d.skip(1) + rest);
        assert(all_digits(d.skip(1))) by {
            assert forall|i: int| 0 <= i < d.skip(1).len() implies is_digit(#[trigger] d.skip(1)[i]) by {
                assert(d.skip(1)[i] == d[i + 1]);
            }
        }
        lemma_units_digits(d.skip(1), rest, total, buf.push(d[0]));
        assert(buf.push(d[0]) + d.skip(1) =~= buf + d);
    }
}

/// One `<number><unit>` group adds its seconds.
proof fn lemma_units_group(k: nat, u: char, rest: Seq<char>, total: int)
    requires
        is_unit(u),
        k <= u64::MAX,
    ensures
        units_from(decimal_of(k) + seq![u] + rest, total, seq![]) == units_from(
            rest,
            total + k * unit_secs(u),
            seq![],
        ),
{
    lemma_decimal_digits(k);
    let d = decimal_of(k);
    assert(d + seq![u] + rest =~= d + (seq![u] + rest));
    lemma_units_digits(d, seq![u] + rest, total, seq![]);
    assert(Seq::<char>::empty() + d =~= d);
    assert(d[0] != '+') by {
        assert(is_digit(d[0]));
    }
    assert(parse_u64(d) == Some(k as int));
    assert((seq![u] + rest)[0] == u);
    assert((seq![u] + rest).skip(1) =~= rest);
}

/// A group present only when `present`: empty otherwise.
pub open spec fn group_text(present: bool, k: nat, unit: Seq<char>) -> Seq<char> {
    if present {
        decimal_of(k) + unit
    } else {
        seq![]
    }
}

/// Reading back what `duration_text` writes gives the same number of
/// seconds: `parse_duration(duration_text(n))` is `n` seconds.
pub proof fn lemma_duration_round_trip(n: u64)
    ensures
        duration_secs(duration_text_of(n as nat)) == Ok::<int, ErrorKind>(n as int),
        duration_fits(duration_text_of(n as nat)),
{
    reveal_strlit("h");
    reveal_strlit("m");
    reveal_strlit("s");
    let x = n as nat;
    let h = x / 3600;
    let m = (x % 3600) / 60;
    let sec = x % 60;
    assert(x == h * 3600 + m * 60 + sec) by (nonlinear_arith)
        requires
            h == x / 3600,
            m == (x % 3600) / 60,
            sec == x % 60,
    ;
    let gh = group_text(h > 0, h, "h"@);
    let gm = group_text(m > 0, m, "m"@);
    let gs = group_text(sec > 0 || x == 0, sec, "s"@);
    let t = duration_text_of(x);
    assert(t =~= gh + gm + gs);
    lemma_duration_text_no_number(h, m, sec, x);
    // Each group adds its seconds.
    let th: int = if h > 0 { (h * 3600) as int } else { 0 };
    let tm: int = if m > 0 { (m * 60) as int } else { 0 };
    assert(units_from(gh + gm + gs, 0, seq![]) == units_from(gm + gs, th, seq![])) by {
        if h > 0 {
            assert(gh + gm + gs =~= decimal_of(h) + seq!['h'] + (gm + gs));
            lemma_units_group(h, 'h', gm + gs, 0);
        } else {
            assert(gh + gm + gs =~= gm + gs);
        }
    }
    assert(units_from(gm + gs, th, seq![]) == units_from(gs, th + tm, seq![])) by {
        if m > 0 {
            assert(gm + gs =~= decimal_of(m) + seq!['m'] + gs);
            lemma_units_group(m, 'm', gs, th);
        } else {
            assert(gm + gs =~= gs);
        }
    }
    assert(units_from(gs, th + tm, seq![]) == Ok::<int, ErrorKind>(n as int)) by {
        if sec > 0 || x == 0 {
            assert(gs =~= decimal_of(sec) + seq!['s'] + Seq::<char>::empty());
            lemma_units_group(sec, 's', seq![], th + tm);
        } else {
            assert(gs =~= Seq::<char>::empty());
        }
    }
    lemma_duration_fits(h, m, sec, x);
}

/// The text ends with a unit letter, so it is no plain number.
proof fn lemma_duration_text_no_number(h: nat, m: nat, sec: nat, x: nat)
    requires
        h == x / 3600,
        m == (x % 3600) / 60,
        sec == x % 60,
    ensures
        parse_u64(duration_text_of(x)) is None,
{
    reveal_strlit("h");
    reveal_strlit("m");
    reveal_strlit("s");
    let gh = group_text(h > 0, h, "h"@);
    let gm = group_text(m > 0, m, "m"@);
    let gs = group_text(sec > 0 || x == 0, sec, "s"@);
    let t = duration_text_of(x);
    assert(t =~= gh + gm + gs);
    assert(t.len() > 0 && !is_digit(t[t.len() - 1])) by {
        if sec > 0 || x == 0 {
            assert(t[t.len() - 1] == 's');
        } else if m > 0 {
            assert(gs =~= Seq::<char>::empty());
            assert(t[t.len() - 1] == 'm');
        } else {
            assert(h > 0) by (nonlinear_arith)
                requires
                    h == x / 3600,
                    m == (x % 3600) / 60,
                    sec == x % 60,
                    m == 0,
                    sec == 0,
                    x != 0,
            ;
            assert(gs =~= Seq::<char>::empty() && gm =~= Seq::<char>::empty());
            assert(t[t.len() - 1] == 'h');
        }
    }
    let d = if t[0] == '+' {
        t.skip(1)
    } else {
        t
    };
    if d.len() > 0 && all_digits(d) {
        assert(d[d.len() - 1] == t[t.len() - 1]);
    }
}

/// No step of reading the text leaves `u64`: each partial sum is at most `n`.
proof fn lemma_duration_fits(h: nat, m: nat, sec: nat, x: nat)
    requires
        x <= u64::MAX,
        h == x / 3600,
        m == (x % 3600) / 60,
        sec == x % 60,
        x == h * 3600 + m * 60 + sec,
    ensures
        duration_fits(duration_text_of(x)),
{
    reveal_strlit("h");
    reveal_strlit("m");
    reveal_strlit("s");
    let gh = group_text(h > 0, h, "h"@);
    let gm = group_text(m > 0, m, "m"@);
    let gs = group_text(sec > 0 || x == 0, sec, "s"@);
    let t = duration_text_of(x);
    assert(t =~= gh + gm + gs);
    let th: int = if h > 0 { (h * 3600) as int } else { 0 };
    let tm: int = if m > 0 { (m * 60) as int } else { 0 };
    assert(units_fit(gh + gm + gs, 0, seq![]) == units_fit(gm + gs, th, seq![])) by {
        if h > 0 {
            assert(gh + gm + gs =~= decimal_of(h) + seq!['h'] + (gm + gs));
            lemma_fit_group(h, 'h', gm + gs, 0);
        } else {
            assert(gh + gm + gs =~= gm + gs);
        }
    }
    assert(units_fit(gm + gs, th, seq![]) == units_fit(gs, th + tm, seq![])) by {
        if m > 0 {
            assert(gm + gs =~= decimal_of(m) + seq!['m'] + gs);
            lemma_fit_group(m, 'm', gs, th);
        } else {
            assert(gm + gs =~= gs);
        }
    }
    assert(units_fit(gs, th + tm, seq![])) by {
        if sec > 0 || x == 0 {
            assert(gs =~= decimal_of(sec) + seq!['s'] + Seq::<char>::empty());
            lemma_fit_group(sec, 's', seq![], th + tm);
        } else {
            assert(gs =~= Seq::<char>::empty());
        }
    }
}

/// Digits read into the number being read, for `units_fit`.
proof fn lemma_fit_digits(d: Seq<char>, rest: Seq<char>, total: int, buf: Seq<char>)
    requires
        all_digits(d),
    ensures
        units_fit(d + rest, total, buf) == units_fit(rest, total, buf + d),
    decreases d.len(),
{
    if d.len() == 0 {
        assert(d + rest =~= rest);
        assert(buf + d =~= buf);
    } else {
        assert((d + rest)[0] == d[0]);
        assert(is_digit(d[0]));
        assert((d + rest).skip(1) =~= d.skip(1) + rest);
        assert(all_digits(d.skip(1))) by {
            assert forall|i: int| 0 <= i < d.skip(1).len() implies is_digit(#[trigger] d.skip(1)[i]) by {
                assert(d.skip(1)[i] == d[i + 1]);
            }
        }
        lemma_fit_digits(d.skip(1), rest, total, buf.push(d[0]));
        assert(buf.push(d[0]) + d.skip(1) =~= buf + d);
    }
}

/// One group keeps within `u64` when its seconds and the new total do.
proof fn lemma_fit_group(k: nat, u: char, rest: Seq<char>, total: int)
    requires
        is_unit(u),
        k <= u64::MAX,
    ensures
        units_fit(decimal_of(k) + seq![u] + rest, total, seq![]) == (k * unit_secs(u) <= u64::MAX && total + k
            * unit_secs(u) <= u64::MAX && units_fit(rest, total + k * unit_secs(u), seq![])),
{
    lemma_decimal_digits(k);
    let d = decimal_of(k);
    assert(d + seq![u] + rest =~= d + (seq![u] + rest));
    lemma_fit_digits(d, seq![u] + rest, total, seq![]);
    assert(Seq::<char>::empty() + d =~= d);
    assert(d[0] != '+') by {
        assert(is_digit(d[0]));
    }
    assert(parse_u64(d) == Some(k as int));
    assert((seq![u] + rest)[0] == u);
    assert((seq![u] + rest).skip(1) =~= rest);
}

/// The output mode a `progress` value names, if any.
pub open spec fn output_mode_of(s: Seq<char>) -> Option<OutputMode> {
    if s == Seq::<char>::empty() || s == "display"@ {
        Some(OutputMode::Display)
    } else if s == "mute"@ {
        Some(OutputMode::Mute)
    } else if s == "percent"@ {
        Some(OutputMode::Percent)
    } else {
        None
    }
}

/// Parse a rule's `progress` value: "" or "display", "mute", "percent".
pub fn parse_output_mode(s: &str, rule_name: &str) -> (r: Result<OutputMode, ConfigError>)
    ensures
        match r {
            Ok(m) => output_mode_of(s@) == Some(m),
            Err(e) => output_mode_of(s@) is None && e@ == (ErrorKind::UnknownProgress, rule_name@, s@),
        },
{
    let t = String::from_str(s);
    if t.as_str().unicode_len() == 0 || crate::strmap::str_eq(s, "display") {
        proof {
            if t@.len() == 0 {
                assert(s@ =~= Seq::<char>::empty());
            }
        }
        Ok(OutputMode::Display)
    } else if crate::strmap::str_eq(s, "mute") {
        Ok(OutputMode::Mute)
    } else if crate::strmap::str_eq(s, "percent") {
        Ok(OutputMode::Percent)
    } else {
        Err(ConfigError { kind: ErrorKind::UnknownProgress, subject: String::from_str(rule_name), detail: t })
    }
}

// ---------------------------------------------------------------------------
// Interpolation

/// `{{`.
pub open spec fn open_braces() -> Seq<char> {
    seq!['{', '{']
}

/// `}}`.
pub open spec fn close_braces() -> Seq<char> {
    seq!['}', '}']
}

/// The value a placeholder name resolves to: the `[vars]` table first, then
/// (when allowed) the environment.
pub open spec fn lookup_var(
    vars: Map<Seq<char>, Seq<char>>,
    env: Map<Seq<char>, Seq<char>>,
    allow_env: bool,
    key: Seq<char>,
) -> Option<Seq<char>> {
    if vars.contains_key(key) {
        Some(vars[key])
    } else if allow_env && env.contains_key(key) {
        Some(env[key])
    } else {
        None
    }
}

/// `s[pos..]` with each `{{name}}` placeholder replaced by the value `name`
/// resolves to, left to right; a placeholder that resolves to nothing is
/// left as it is, and replaced text is not scanned again.
pub open spec fn interp_from(
    vars: Map<Seq<char>, Seq<char>>,
    env: Map<Seq<char>, Seq<char>>,
    allow_env: bool,
    s: Seq<char>,
    pos: int,
) -> Seq<char>
    decreases s.len() - pos,
    when 0 <= pos <= s.len()
{
    let a = crate::text::find_first(s, open_braces(), pos);
    if a < 0 {
        s.skip(pos)
    } else {
        let b = crate::text::find_first(s, close_braces(), a);
        if b < 0 {
            s.skip(pos)
        } else {
            proof {
                crate::text::lemma_find_first(s, open_braces(), pos);
                crate::text::lemma_find_first(s, close_braces(), a);
            }
            match lookup_var(vars, env, allow_env, s.subrange(a + 2, b)) {
                Some(v) => s.subrange(pos, a) + v + interp_from(vars, env, allow_env, s, b + 2),
                None => s.subrange(pos, b + 2) + interp_from(vars, env, allow_env, s, b + 2),
            }
        }
    }
}

/// `s` with its `{{name}}` placeholders resolved.
pub open spec fn interp(
    vars: Map<Seq<char>, Seq<char>>,
    env: Map<Seq<char>, Seq<char>>,
    allow_env: bool,
    s: Seq<char>,
) -> Seq<char> {
    interp_from(vars, env, allow_env, s, 0)
}

/// Appends `s[from..to]` to `out`.
fn append_range(out: &mut Vec<char>, s: &[char], from: usize, to: usize)
    requires
        from <= to <= s@.len(),
    ensures
        final(out)@ == old(out)@ + s@.subrange(from as int, to as int),
{
    let mut i = from;
    while i < to
        invariant
            from <= i <= to <= s@.len(),
            out@ == old(out)@ + s@.subrange(from as int, i as int),
        decreases to - i,
    {
        out.push(s[i]);
        assert(s@.subrange(from as int, i + 1) =~= s@.subrange(from as int, i as int).push(s@[i as int]));
        i = i + 1;
    }
}

/// Substitute `{{name}}` placeholders in `s`.
///
/// Resolution order:
/// 1. the `[vars]` table `vars`
/// 2. the environment `env` (when `allow_env`)
///
/// Unknown placeholders are left as-is so the error surfaces naturally when
/// the command runs. Env lookup should be off for `shell = true` rules, so
/// that values from the environment cannot inject shell syntax.
pub fn interpolate(vars: &StrMap, env: &StrMap, s: &str, allow_env: bool) -> (r: String)
    ensures
        r@ == interp(vars.view(), env.view(), allow_env, s@),
{
    let cs = to_chars(s);
    let open = vec!['{', '{'];
    let close = vec!['}', '}'];
    assert(open@ == open_braces());
    assert(close@ == close_braces());
    let mut out: Vec<char> = Vec::new();
    let mut pos: usize = 0;
    let ghost full = interp(vars.view(), env.view(), allow_env, cs@);
    loop
        invariant_except_break
            out@ + interp_from(vars.view(), env.view(), allow_env, cs@, pos as int) == full,
        invariant
            pos <= cs@.len(),
            cs@ == s@,
            open@ == open_braces(),
            close@ == close_braces(),
            full == interp(vars.view(), env.view(), allow_env, cs@),
        ensures
            out@ == full,
        decreases cs@.len() - pos,
    {
        let a = match crate::text::find_from(cs.as_slice(), open.as_slice(), pos) {
            None => {
                append_range(&mut out, cs.as_slice(), pos, cs.len());
                assert(cs@.subrange(pos as int, cs@.len() as int) =~= cs@.skip(pos as int));
                break;
            },
            Some(a) => a,
        };
        let b = match crate::text::find_from(cs.as_slice(), close.as_slice(), a) {
            None => {
                append_range(&mut out, cs.as_slice(), pos, cs.len());
                assert(cs@.subrange(pos as int, cs@.len() as int) =~= cs@.skip(pos as int));
                break;
            },
            Some(b) => b,
        };
        proof {
            assert(cs@.subrange(a as int, a + 2)[0] == '{');
            assert(cs@.subrange(b as int, b + 2)[0] == '}');
            assert(cs@.subrange(a as int, a + 2)[1] == '{');
            assert(cs@.subrange(b as int, b + 2)[1] == '}');
            assert(cs@[a as int] == '{' && cs@[a + 1] == '{');
            assert(cs@[b as int] == '}' && cs@[b + 1] == '}');
            assert(b >= a + 2);
            assert(b + 2 <= cs@.len());
        }
        assert(b + 2 <= cs.len());
        let key_chars = crate::text::sub_chars(cs.as_slice(), a + 2, b);
        let key = crate::text::from_chars(key_chars.as_slice());
        let value: Option<&String> = match vars.get(key.as_str()) {
            Some(v) => Some(v),
            None => if allow_env {
                env.get(key.as_str())
            } else {
                None
            },
        };
        let ghost before = out@;
        match value {
            Some(v) => {
                append_range(&mut out, cs.as_slice(), pos, a);
                let vc = to_chars(v.as_str());
                append_range(&mut out, vc.as_slice(), 0, vc.len());
                assert(vc@.subrange(0, vc@.len() as int) =~= vc@);
                assert(out@ =~= before + cs@.subrange(pos as int, a as int) + v@);
            },
            None => {
                append_range(&mut out, cs.as_slice(), pos, b + 2);
            },
        }
        pos = b + 2;
    }
    crate::text::from_chars(out.as_slice())
}

/// Interpolate `{{name}}` placeholders in a single string using the given
/// vars table, falling back to the environment `env` for unknown keys.
pub fn interpolate_pub(vars: &StrMap, env: &StrMap, s: &str) -> (r: String)
    ensures
        r@ == interp(vars.view(), env.view(), true, s@),
{
    interpolate(vars, env, s, true)
}

/// Interpolate each string of a list.
pub fn interpolate_vec(vars: &StrMap, env: &StrMap, v: &Vec<String>, allow_env: bool) -> (r: Vec<
    String,
>)
    ensures
        r@.len() == v@.len(),
        forall|i: int|
            0 <= i < v@.len() ==> (#[trigger] r@[i])@ == interp(
                vars.view(),
                env.view(),
                allow_env,
                v@[i]@,
            ),
{
    let mut r: Vec<String> = Vec::new();
    let mut i: usize = 0;
    while i < v.len()
        invariant
            i <= v@.len(),
            r@.len() == i,
            forall|j: int|
                0 <= j < i ==> (#[trigger] r@[j])@ == interp(
                    vars.view(),
                    env.view(),
                    allow_env,
                    v@[j]@,
                ),
        decreases v@.len() - i,
    {
        r.push(interpolate(vars, env, v[i].as_str(), allow_env));
        i = i + 1;
    }
    r
}

// ---------------------------------------------------------------------------
// Profiles

/// `after` is `before` with the profile `p` merged in: `jobs` and
/// `default` replace the base value when set, `trust` is or-ed in, `env` is
/// appended, and the profile's vars win over `[vars]`.
pub open spec fn merged_profile(before: &BuildFile, after: &BuildFile, p: Profile) -> bool {
    &&& after.config.jobs == (if p.jobs is Some {
        p.jobs
    } else {
        before.config.jobs
    })
    &&& opt_view(after.config.default) == (if p.default is Some {
        opt_view(p.default)
    } else {
        opt_view(before.config.default)
    })
    &&& after.config.trust == (before.config.trust || p.trust)
    &&& views(after.config.env@) == views(before.config.env@) + views(p.env@)
    &&& after.vars.view() == before.vars.view().union_prefer_right(p.vars.view())
}

/// `after` holds the same profile-controlled settings as `before`.
pub open spec fn same_settings(before: &BuildFile, after: &BuildFile) -> bool {
    &&& after.config.jobs == before.config.jobs
    &&& opt_view(after.config.default) == opt_view(before.config.default)
    &&& after.config.trust == before.config.trust
    &&& views(after.config.env@) == views(before.config.env@)
    &&& after.vars.view() == before.vars.view()
}

/// What a profile leaves alone.
pub open spec fn untouched_by_profile(before: &BuildFile, after: &BuildFile) -> bool {
    &&& after.config.max_time == before.config.max_time
    &&& after.config.keep_going == before.config.keep_going
    &&& after.config.profiles == before.config.profiles
    &&& after.rules == before.rules
    &&& after.ui == before.ui
}

/// Merges a named profile into the build file in place (see
/// `merged_profile`).
///
/// Returns an error, and changes nothing, if the profile name is not found.
pub fn apply_profile(bf: &mut BuildFile, name: &str) -> (r: Result<(), ConfigError>)
    ensures
        match r {
            Err(e) => {
                &&& name_index(old(bf).config.profiles.entries(), name@) == -1
                &&& e@ == (ErrorKind::NoProfile, name@, Seq::<char>::empty())
                &&& same_settings(old(bf), final(bf))
            },
            Ok(()) => {
                let i = name_index(old(bf).config.profiles.entries(), name@);
                &&& i >= 0
                &&& merged_profile(old(bf), final(bf), old(bf).config.profiles.entries()[i].1)
            },
        },
        untouched_by_profile(old(bf), final(bf)),
{
    let idx = match bf.config.profiles.find(name) {
        Some(i) => i,
        None => {
            return Err(ConfigError::new(ErrorKind::NoProfile, name));
        },
    };
    let profile = bf.config.profiles.item_at(idx);
    if let Some(j) = profile.jobs {
        bf.config.jobs = Some(j);
    }
    if let Some(d) = &profile.default {
        bf.config.default = Some(copy_string(d));
    }
    if profile.trust {
        bf.config.trust = true;
    }
    append_strings(&mut bf.config.env, &profile.env);
    merge_vars(&mut bf.vars, &profile.vars);
    Ok(())
}

/// A profile named `default` is applied on every run: merged in when the
/// build file has one (`true`), nothing changed otherwise (`false`).
pub fn apply_default_profile(bf: &mut BuildFile) -> (applied: bool)
    ensures
        applied == (name_index(old(bf).config.profiles.entries(), "default"@) >= 0),
        applied ==> merged_profile(
            old(bf),
            final(bf),
            old(bf).config.profiles.entries()[name_index(old(bf).config.profiles.entries(), "default"@)].1,
        ),
        !applied ==> same_settings(old(bf), final(bf)),
        untouched_by_profile(old(bf), final(bf)),
{
    match apply_profile(bf, "default") {
        Ok(()) => true,
        Err(_) => false,
    }
}

/// Stores every entry of `extra` into `base`, replacing values of keys that
/// are already there.
fn merge_vars(base: &mut StrMap, extra: &StrMap)
    ensures
        final(base).view() == old(base).view().union_prefer_right(extra.view()),
{
    let n = extra.len();
    let ghost e = extra.entries();
    let ghost b0 = base.view();
    let mut i: usize = 0;
    while i < n
        invariant
            n == extra.count(),
            n == e.len(),
            e == extra.entries(),
            i <= n,
            crate::strmap::distinct_keys(e),
            forall|k: Seq<char>|
                #![trigger base.view().contains_key(k)]
                base.view().contains_key(k) <==> (b0.contains_key(k) || exists|j: int|
                    0 <= j < i && #[trigger] e[j].0 == k),
            forall|k: Seq<char>|
                base.view().contains_key(k) && !(exists|j: int| 0 <= j < i && #[trigger] e[j].0
                    == k) ==> base.view()[k] == b0[k],
            forall|j: int| 0 <= j < i ==> base.view()[#[trigger] e[j].0] == e[j].1,
        decreases n - i,
    {
        let key = copy_string(extra.key_at(i));
        let value = copy_string(extra.value_at(i));
        let ghost before = base.view();
        base.insert(key, value);
        proof {
            assert forall|j: int| 0 <= j < i + 1 implies base.view()[#[trigger] e[j].0] == e[j].1 by {
                if j < i {
                    assert(e[j].0 != e[i as int].0);
                }
            }
            assert forall|k: Seq<char>| #![trigger base.view().contains_key(k)]
                base.view().contains_key(k) <==> (b0.contains_key(k) || exists|j: int|
                    0 <= j < i + 1 && #[trigger] e[j].0 == k) by {
                if k == e[i as int].0 {
                    assert(0 <= i < i + 1 && e[i as int].0 == k);
                }
                if exists|j: int| 0 <= j < i + 1 && #[trigger] e[j].0 == k {
                    let j = choose|j: int| 0 <= j < i + 1 && #[trigger] e[j].0 == k;
                    if j < i {
                        assert(before.contains_key(k));
                    }
                }
            }
            assert forall|k: Seq<char>|
                base.view().contains_key(k) && !(exists|j: int| 0 <= j < i + 1 && #[trigger] e[j].0
                    == k) implies base.view()[k] == b0[k] by {
                assert(k != e[i as int].0);
                assert(!(exists|j: int| 0 <= j < i && #[trigger] e[j].0 == k));
            }
        }
        i = i + 1;
    }
    proof {
        let u = b0.union_prefer_right(extra.view());
        assert forall|k: Seq<char>| #[trigger] base.view().contains_key(k) <==> u.contains_key(k) by {
            if exists|j: int| 0 <= j < n && #[trigger] e[j].0 == k {
                let j = choose|j: int| 0 <= j < n && #[trigger] e[j].0 == k;
                assert(extra.view().contains_key(e[j].0));
            }
            if extra.view().contains_key(k) {
                assert(crate::strmap::has_key(e, k));
            }
        }
        assert forall|k: Seq<char>| #[trigger] base.view().contains_key(k) implies base.view()[k] == u[k] by {
            if exists|j: int| 0 <= j < n && #[trigger] e[j].0 == k {
                let j = choose|j: int| 0 <= j < n && #[trigger] e[j].0 == k;
                assert(extra.view()[e[j].0] == e[j].1);
            } else {
                if extra.view().contains_key(k) {
                    assert(crate::strmap::has_key(e, k));
                }
            }
        }
        assert(base.view() =~= u);
    }
}

// ---------------------------------------------------------------------------
// Targets

/// The target a rule named `name` of kind `kind` produces.
pub open spec fn target_of(name: Seq<char>, kind: RawTargetType) -> (bool, Seq<char>) {
    (kind == RawTargetType::Task, name)
}

/// Build a `Target` from a rule's key and its explicit `type` field.
pub fn rule_target(name: &str, raw: &RawRule) -> (t: Target)
    ensures
        t@ == target_of(name@, raw.kind),
{
    match raw.kind {
        RawTargetType::Task => Target::Task(String::from_str(name)),
        RawTargetType::File => Target::File(String::from_str(name)),
    }
}

/// The target a dependency name stands for: the target of the rule with
/// that name, or a file of that name when no rule has it.
pub open spec fn dep_target(rules: Seq<(Seq<char>, RawRule)>, name: Seq<char>) -> (bool, Seq<char>) {
    let i = name_index(rules, name);
    if i >= 0 {
        target_of(name, rules[i].1.kind)
    } else {
        (false, name)
    }
}

/// Resolve a dependency string to a `Target` by looking it up in the build file.
/// Falls back to `File` if the name isn't a known rule key (e.g. a source file
/// listed as a dep directly).
pub fn resolve_dep(bf: &BuildFile, name: &str) -> (t: Target)
    ensures
        t@ == dep_target(bf.rules.entries(), name@),
{
    match bf.rules.get(name) {
        Some(raw) => rule_target(name, raw),
        None => Target::File(String::from_str(name)),
    }
}

/// What `resolve_target` gives for a requested target name (or none).
pub open spec fn resolved_target(
    rules: Seq<(Seq<char>, RawRule)>,
    default: Option<Seq<char>>,
    name: Option<Seq<char>>,
) -> Result<(bool, Seq<char>), (ErrorKind, Seq<char>, Seq<char>)> {
    match name {
        Some(n) => if name_index(rules, n) >= 0 {
            Ok(target_of(n, rules[name_index(rules, n)].1.kind))
        } else {
            Err((ErrorKind::NoRuleForTarget, n, Seq::<char>::empty()))
        },
        None => match default {
            Some(d) => if name_index(rules, d) >= 0 {
                Ok(target_of(d, rules[name_index(rules, d)].1.kind))
            } else {
                Err((ErrorKind::DefaultHasNoRule, d, Seq::<char>::empty()))
            },
            None => if rules.len() == 1 {
                Ok(target_of(rules[0].0, rules[0].1.kind))
            } else {
                Err((ErrorKind::NoDefaultTarget, Seq::<char>::empty(), Seq::<char>::empty()))
            },
        },
    }
}

/// Resolve the default or requested target name to a `Target`: the named
/// rule; without a name the `[config] default` rule, or the only rule when
/// there is exactly one.
pub fn resolve_target(bf: &BuildFile, name: Option<&str>) -> (r: Result<Target, ConfigError>)
    ensures
        match r {
            Ok(t) => resolved_target(
                bf.rules.entries(),
                opt_view(bf.config.default),
                opt_str_seq(name),
            ) == Ok::<(bool, Seq<char>), (ErrorKind, Seq<char>, Seq<char>)>(t@),
            Err(e) => resolved_target(
                bf.rules.entries(),
                opt_view(bf.config.default),
                opt_str_seq(name),
            ) == Err::<(bool, Seq<char>), (ErrorKind, Seq<char>, Seq<char>)>(e@),
        },
{
    match name {
        Some(n) => match bf.rules.get(n) {
            Some(raw) => Ok(rule_target(n, raw)),
            None => Err(ConfigError::new(ErrorKind::NoRuleForTarget, n)),
        },
        None => match &bf.config.default {
            Some(d) => match bf.rules.get(d.as_str()) {
                Some(raw) => Ok(rule_target(d.as_str(), raw)),
                None => Err(ConfigError::new(ErrorKind::DefaultHasNoRule, d.as_str())),
            },
            None => {
                if bf.rules.len() == 1 {
                    Ok(rule_target(bf.rules.name_at(0).as_str(), bf.rules.item_at(0)))
                } else {
                    Err(
                        ConfigError {
                            kind: ErrorKind::NoDefaultTarget,
                            subject: String::new(),
                            detail: String::new(),
                        },
                    )
                }
            },
        },
    }
}

/// The view of an optional string slice.
pub open spec fn opt_str_seq(o: Option<&str>) -> Option<Seq<char>> {
    match o {
        Some(s) => Some(s@),
        None => None,
    }
}

// ---------------------------------------------------------------------------
// Input globs

/// `glob::Paths`, the iterator `glob::glob` returns, carried through opaque.
#[verifier::external_type_specification]
#[verifier::external_body]
pub struct ExPaths(glob::Paths);

/// `std::path::PathBuf`, a matched path, carried through opaque.
#[verifier::external_type_specification]
#[verifier::external_body]
pub struct ExPathBuf(std::path::PathBuf);

/// `glob::GlobError`, the error item of `glob::Paths`, declared so that the
/// iterator type can be named.
#[verifier::external_type_specification]
#[verifier::external_body]
pub struct ExGlobError(glob::GlobError);


/// Whether `glob::glob` accepts `pattern` (the pattern, and each of its
/// path components, parse as glob patterns): a function of the pattern's
/// text alone.
pub uninterp spec fn glob_pattern_valid(pattern: Seq<char>) -> bool;

/// `glob::glob`: starts matching `pattern` against the file system. Fails,
/// with the pattern error's message, exactly when the pattern is invalid.
/// What it will match depends on the disk and is not stated.
#[verifier::external_body]
fn glob_start(pattern: &str) -> (r: Result<glob::Paths, String>)
    ensures
        r is Ok <==> glob_pattern_valid(pattern@),
{
    match glob::glob(pattern) {
        Ok(paths) => Ok(paths),
        Err(e) => Err(e.to_string()),
    }
}

/// `glob::Paths` as an iterator, run to its end: the matched paths in
/// order, or the message of the first error reading the file system.
/// Nothing is stated of what it yields: that depends on the disk.
#[verifier::external_body]
fn glob_collect(paths: glob::Paths) -> (r: Result<Vec<std::path::PathBuf>, String>) {
    match paths.collect::<Result<Vec<std::path::PathBuf>, glob::GlobError>>() {
        Ok(v) => Ok(v),
        Err(e) => Err(e.to_string()),
    }
}

/// `Path::to_str`, owned: the path as text, when it is valid UTF-8.
#[verifier::external_body]
fn path_text(p: &std::path::PathBuf) -> (r: Option<String>) {
    match p.to_str() {
        Some(s) => Some(s.to_string()),
        None => None,
    }
}

/// What one pattern contributes: its matches, or the pattern itself when it
/// matched nothing (so a missing literal input is reported by name later).
pub open spec fn pattern_paths(pattern: Seq<char>, matches: Seq<Seq<char>>) -> Seq<Seq<char>> {
    if matches.len() == 0 {
        seq![pattern]
    } else {
        matches
    }
}

/// The expansion of a list of patterns given each one's matches.
pub open spec fn merged_paths(patterns: Seq<Seq<char>>, matches: Seq<Seq<Seq<char>>>) -> Seq<
    Seq<char>,
>
    decreases patterns.len(),
{
    if patterns.len() == 0 || matches.len() == 0 {
        seq![]
    } else {
        merged_paths(patterns.drop_last(), matches.drop_last()) + pattern_paths(
            patterns.last(),
            matches.last(),
        )
    }
}

/// The views of a list of lists of strings.
pub open spec fn match_views(m: Seq<Vec<String>>) -> Seq<Seq<Seq<char>>> {
    m.map_values(|v: Vec<String>| views(v@))
}

/// The inputs a list of patterns expands to, given the paths each one
/// matched: the matches in order, with a pattern that matched nothing kept
/// as it is.
pub fn merge_glob_results(patterns: &Vec<String>, matches: &Vec<Vec<String>>) -> (r: Vec<String>)
    requires
        matches@.len() == patterns@.len(),
    ensures
        views(r@) == merged_paths(views(patterns@), match_views(matches@)),
{
    let mut r: Vec<String> = Vec::new();
    let mut i: usize = 0;
    while i < patterns.len()
        invariant
            matches@.len() == patterns@.len(),
            i <= patterns@.len(),
            views(r@) == merged_paths(
                views(patterns@).take(i as int),
                match_views(matches@).take(i as int),
            ),
        decreases patterns@.len() - i,
    {
        let ghost before = views(r@);
        proof {
            let p = views(patterns@).take(i + 1);
            let m = match_views(matches@).take(i + 1);
            assert(p.drop_last() =~= views(patterns@).take(i as int));
            assert(m.drop_last() =~= match_views(matches@).take(i as int));
        }
        if matches[i].len() == 0 {
            r.push(copy_string(&patterns[i]));
            assert(views(r@) =~= before + seq![patterns@[i as int]@]);
        } else {
            let mut k: usize = 0;
            while k < matches[i].len()
                invariant
                    i < patterns@.len(),
                    matches@.len() == patterns@.len(),
                    k <= matches@[i as int]@.len(),
                    views(r@) == before + views(matches@[i as int]@).take(k as int),
                decreases matches@[i as int]@.len() - k,
            {
                let ghost b2 = r@;
                r.push(copy_string(&matches[i][k]));
                assert(views(r@) =~= views(b2).push(matches@[i as int]@[k as int]@));
                assert(views(matches@[i as int]@).take(k + 1) =~= views(matches@[i as int]@).take(
                    k as int,
                ).push(matches@[i as int]@[k as int]@));
                k = k + 1;
            }
            assert(views(matches@[i as int]@).take(k as int) =~= views(matches@[i as int]@));
        }
        i = i + 1;
    }
    assert(views(patterns@).take(i as int) =~= views(patterns@));
    assert(match_views(matches@).take(i as int) =~= match_views(matches@));
    r
}

/// A glob error: its kind is one of the three glob failures and it names
/// one of the patterns; a pattern reported invalid is one `glob` rejects.
pub open spec fn glob_failure(patterns: Seq<Seq<char>>, e: (ErrorKind, Seq<char>, Seq<char>)) -> bool {
    exists|i: int|
        0 <= i < patterns.len() && #[trigger] patterns[i] == e.1 && (e.0 == ErrorKind::InvalidGlob
            && !glob_pattern_valid(patterns[i]) || e.0 == ErrorKind::GlobRead || e.0
            == ErrorKind::NonUtf8Path)
}

/// The paths each pattern matches, as text, in order.
fn glob_matches(patterns: &Vec<String>) -> (r: Result<Vec<Vec<String>>, ConfigError>)
    ensures
        match r {
            Ok(m) => m@.len() == patterns@.len(),
            Err(e) => glob_failure(views(patterns@), e@),
        },
        (forall|i: int| 0 <= i < patterns@.len() ==> glob_pattern_valid(#[trigger] patterns@[i]@))
            || r is Err,
{
    let mut matches: Vec<Vec<String>> = Vec::new();
    let mut i: usize = 0;
    while i < patterns.len()
        invariant
            i <= patterns@.len(),
            matches@.len() == i,
            forall|j: int| 0 <= j < i ==> glob_pattern_valid(#[trigger] patterns@[j]@),
        decreases patterns@.len() - i,
    {
        let pattern = patterns[i].as_str();
        let paths = match glob_start(pattern) {
            Ok(p) => p,
            Err(_) => {
                assert(views(patterns@)[i as int] == patterns@[i as int]@);
                return Err(ConfigError::new(ErrorKind::InvalidGlob, pattern));
            },
        };
        let found = match glob_collect(paths) {
            Ok(v) => v,
            Err(_) => {
                assert(views(patterns@)[i as int] == patterns@[i as int]@);
                return Err(ConfigError::new(ErrorKind::GlobRead, pattern));
            },
        };
        let mut texts: Vec<String> = Vec::new();
        let mut k: usize = 0;
        while k < found.len()
            invariant
                i < patterns@.len(),
                k <= found@.len(),
                pattern@ == patterns@[i as int]@,
            decreases found@.len() - k,
        {
            match path_text(&found[k]) {
                Some(t) => texts.push(t),
                None => {
                    assert(views(patterns@)[i as int] == patterns@[i as int]@);
                    return Err(ConfigError::new(ErrorKind::NonUtf8Path, pattern));
                },
            }
            k = k + 1;
        }
        matches.push(texts);
        i = i + 1;
    }
    Ok(matches)
}

/// Expand a list of glob patterns into concrete file paths: the matches of
/// each pattern, in order, or the pattern itself when it matches nothing.
pub fn expand_inputs(patterns: &Vec<String>) -> (r: Result<Vec<String>, ConfigError>)
    ensures
        match r {
            Ok(v) => exists|m: Seq<Seq<Seq<char>>>| #[trigger]
                merged_paths(views(patterns@), m) == views(v@) && m.len() == patterns@.len(),
            Err(e) => glob_failure(views(patterns@), e@),
        },
        (forall|i: int| 0 <= i < patterns@.len() ==> glob_pattern_valid(#[trigger] patterns@[i]@))
            || r is Err,
{
    let matches = match glob_matches(patterns) {
        Ok(m) => m,
        Err(e) => {
            return Err(e);
        },
    };
    let r = merge_glob_results(patterns, &matches);
    assert(merged_paths(views(patterns@), match_views(matches@)) == views(r@));
    Ok(r)
}

/// A pattern with a wildcard (`*`, `?` or `[`), as opposed to a literal path.
pub open spec fn is_wildcard(p: Seq<char>) -> bool {
    p.contains('*') || p.contains('?') || p.contains('[')
}

/// The warning for a glob pattern that matched no files.
pub open spec fn no_match_warning(p: Seq<char>) -> Seq<char> {
    "glob '"@ + p + "' matched no files"@
}

/// The warnings for patterns with a wildcard that matched nothing, in order,
/// given the paths each pattern matched. A literal path that matches nothing
/// gets none: it is kept, and reported as a missing input later.
pub open spec fn glob_warnings_of(patterns: Seq<Seq<char>>, matches: Seq<Seq<Seq<char>>>) -> Seq<
    Seq<char>,
>
    decreases patterns.len(),
{
    if patterns.len() == 0 || matches.len() == 0 {
        seq![]
    } else {
        glob_warnings_of(patterns.drop_last(), matches.drop_last()) + if matches.last().len() == 0
            && is_wildcard(patterns.last()) {
            seq![no_match_warning(patterns.last())]
        } else {
            seq![]
        }
    }
}

/// The warnings for the patterns that matched nothing, given each one's
/// matches.
pub fn glob_warnings(patterns: &Vec<String>, matches: &Vec<Vec<String>>) -> (w: Vec<String>)
    requires
        matches@.len() == patterns@.len(),
    ensures
        views(w@) == glob_warnings_of(views(patterns@), match_views(matches@)),
{
    let mut w: Vec<String> = Vec::new();
    let mut i: usize = 0;
    while i < patterns.len()
        invariant
            matches@.len() == patterns@.len(),
            i <= patterns@.len(),
            views(w@) == glob_warnings_of(
                views(patterns@).take(i as int),
                match_views(matches@).take(i as int),
            ),
        decreases patterns@.len() - i,
    {
        let ghost before = views(w@);
        proof {
            let p = views(patterns@).take(i + 1);
            let m = match_views(matches@).take(i + 1);
            assert(p.drop_last() =~= views(patterns@).take(i as int));
            assert(m.drop_last() =~= match_views(matches@).take(i as int));
            assert(p.last() == patterns@[i as int]@);
            assert(m.last() == views(matches@[i as int]@));
        }
        let cs = to_chars(patterns[i].as_str());
        let wild = crate::hash::index_of_char(cs.as_slice(), '*').is_some()
            || crate::hash::index_of_char(cs.as_slice(), '?').is_some()
            || crate::hash::index_of_char(cs.as_slice(), '[').is_some();
        if matches[i].len() == 0 && wild {
            let m = String::from_str("glob '").concat(patterns[i].as_str()).concat("' matched no files");
            w.push(m);
            assert(views(w@) =~= before + seq![no_match_warning(patterns@[i as int]@)]);
        } else {
            assert(views(w@) =~= before + Seq::<Seq<char>>::empty());
        }
        i = i + 1;
    }
    assert(views(patterns@).take(i as int) =~= views(patterns@));
    assert(match_views(matches@).take(i as int) =~= match_views(matches@));
    w
}

/// `expand_inputs`, together with the warnings for wildcard patterns that
/// matched no files: both come from the same matches.
pub fn expand_inputs_noting(patterns: &Vec<String>) -> (r: Result<(Vec<String>, Vec<String>), ConfigError>)
    ensures
        match r {
            Ok((v, w)) => exists|m: Seq<Seq<Seq<char>>>| #[trigger]
                merged_paths(views(patterns@), m) == views(v@) && m.len() == patterns@.len()
                    && glob_warnings_of(views(patterns@), m) == views(w@),
            Err(e) => glob_failure(views(patterns@), e@),
        },
        (forall|i: int| 0 <= i < patterns@.len() ==> glob_pattern_valid(#[trigger] patterns@[i]@))
            || r is Err,
{
    let matches = match glob_matches(patterns) {
        Ok(m) => m,
        Err(e) => {
            return Err(e);
        },
    };
    let v = merge_glob_results(patterns, &matches);
    let w = glob_warnings(patterns, &matches);
    assert(merged_paths(views(patterns@), match_views(matches@)) == views(v@));
    Ok((v, w))
}

// ---------------------------------------------------------------------------
// Rules

/// Each string of `v` interpolated.
pub open spec fn interp_all(
    vars: Map<Seq<char>, Seq<char>>,
    env: Map<Seq<char>, Seq<char>>,
    allow_env: bool,
    v: Seq<Seq<char>>,
) -> Seq<Seq<char>> {
    v.map_values(|x: Seq<char>| interp(vars, env, allow_env, x))
}

/// An optional string interpolated (with environment fallback).
pub open spec fn opt_interp(
    vars: Map<Seq<char>, Seq<char>>,
    env: Map<Seq<char>, Seq<char>>,
    o: Option<Seq<char>>,
) -> Option<Seq<char>> {
    match o {
        Some(x) => Some(interp(vars, env, true, x)),
        None => None,
    }
}

/// A rule's commands: `command` (when given) first, then each of
/// `commands`, interpolated — without the environment for shell rules.
pub open spec fn rule_commands(
    vars: Map<Seq<char>, Seq<char>>,
    env: Map<Seq<char>, Seq<char>>,
    raw: RawRule,
) -> Seq<Seq<Seq<char>>> {
    (if raw.command@.len() > 0 {
        seq![interp_all(vars, env, !raw.shell, views(raw.command@))]
    } else {
        seq![]
    }) + crate::types::command_views(raw.commands@).map_values(
        |c: Seq<Seq<char>>| interp_all(vars, env, !raw.shell, c),
    )
}

/// The timeout text that applies to a rule: its own, else `[config]`'s.
pub open spec fn rule_max_time(config_max: Option<Seq<char>>, raw: RawRule) -> Option<Seq<char>> {
    match opt_view(raw.max_time) {
        Some(t) => Some(t),
        None => config_max,
    }
}

/// The first problem with a rule, if any: no command, an unknown progress
/// mode, or a timeout that does not parse — checked in that order.
pub open spec fn rule_problem(
    config_max: Option<Seq<char>>,
    vars: Map<Seq<char>, Seq<char>>,
    env: Map<Seq<char>, Seq<char>>,
    name: Seq<char>,
    raw: RawRule,
) -> Option<(ErrorKind, Seq<char>, Seq<char>)> {
    if rule_commands(vars, env, raw).len() == 0 {
        Some((ErrorKind::NoCommand, name, Seq::<char>::empty()))
    } else if output_mode_of(raw.progress@) is None {
        Some((ErrorKind::UnknownProgress, name, raw.progress@))
    } else {
        match rule_max_time(config_max, raw) {
            Some(t) => match duration_secs(t) {
                Err(k) => Some(
                    (
                        ErrorKind::InvalidMaxTime,
                        name,
                        error_message((k, t, Seq::<char>::empty())),
                    ),
                ),
                Ok(_) => None,
            },
            None => None,
        }
    }
}

/// The rule a build file entry becomes, given its expanded inputs.
pub open spec fn rule_view_of(
    config_max: Option<Seq<char>>,
    rules: Seq<(Seq<char>, RawRule)>,
    vars: Map<Seq<char>, Seq<char>>,
    env: Map<Seq<char>, Seq<char>>,
    name: Seq<char>,
    raw: RawRule,
    inputs: Seq<Seq<char>>,
) -> crate::types::RuleView {
    crate::types::RuleView {
        max_time: match rule_max_time(config_max, raw) {
            Some(t) => match duration_secs(t) {
                Ok(n) => Some(duration_of_secs(n as u64)),
                Err(_) => None,
            },
            None => None,
        },
        retry: raw.retry,
        target: target_of(name, raw.kind),
        deps: views(raw.deps@).map_values(|d: Seq<char>| dep_target(rules, d)),
        inputs: inputs,
        output: interp(vars, env, true, raw.output@),
        depfile: opt_interp(vars, env, opt_view(raw.depfile)),
        commands: rule_commands(vars, env, raw),
        shell: raw.shell,
        dir: opt_interp(vars, env, opt_view(raw.dir)),
        subdir: opt_interp(vars, env, opt_view(raw.subdir)),
        makedir: opt_interp(vars, env, opt_view(raw.makedir)),
        description: opt_view(raw.description),
        group: opt_view(raw.group),
        env: raw.env.view().map_values(|v: Seq<char>| interp(vars, env, true, v)),
        tty: raw.tty,
        cache: raw.cache,
        for_each: opt_interp(vars, env, opt_view(raw.for_each)),
        progress: output_mode_of(raw.progress@).unwrap(),
        downloads: raw.downloads@.map_values(
            |d: RawDownload|
                (interp(vars, env, true, d.url@), interp(vars, env, true, d.dest@), opt_view(d.extract), d.strip),
        ),
        on_failure: interp_all(vars, env, !raw.shell, views(raw.on_failure@)),
    }
}

/// Every timeout a rule would parse reads without leaving `u64`.
pub open spec fn timeouts_fit(bf: &BuildFile) -> bool {
    forall|i: int|
        0 <= i < bf.rules.entries().len() ==> match rule_max_time(
            opt_view(bf.config.max_time),
            #[trigger] bf.rules.entries()[i].1,
        ) {
            Some(t) => duration_fits(t),
            None => true,
        }
}

/// An optional string, interpolated.
fn interpolate_opt(vars: &StrMap, env: &StrMap, o: &Option<String>) -> (r: Option<String>)
    ensures
        opt_view(r) == opt_interp(vars.view(), env.view(), opt_view(*o)),
{
    match o {
        Some(x) => Some(interpolate(vars, env, x.as_str(), true)),
        None => None,
    }
}

/// The commands of a rule, interpolated.
fn build_commands(vars: &StrMap, env: &StrMap, raw: &RawRule) -> (r: Vec<Vec<String>>)
    ensures
        crate::types::command_views(r@) == rule_commands(vars.view(), env.view(), *raw),
{
    let allow = !raw.shell;
    let ghost head: Seq<Seq<Seq<char>>> = if raw.command@.len() > 0 {
        seq![interp_all(vars.view(), env.view(), allow, views(raw.command@))]
    } else {
        seq![]
    };
    let ghost rest = crate::types::command_views(raw.commands@).map_values(
        |c: Seq<Seq<char>>| interp_all(vars.view(), env.view(), allow, c),
    );
    let mut r: Vec<Vec<String>> = Vec::new();
    if raw.command.len() > 0 {
        let c = interpolate_vec(vars, env, &raw.command, allow);
        assert(views(c@) =~= interp_all(vars.view(), env.view(), allow, views(raw.command@)));
        r.push(c);
    }
    assert(crate::types::command_views(r@) =~= head);
    let mut i: usize = 0;
    while i < raw.commands.len()
        invariant
            allow == !raw.shell,
            i <= raw.commands@.len(),
            rest == crate::types::command_views(raw.commands@).map_values(
                |c: Seq<Seq<char>>| interp_all(vars.view(), env.view(), allow, c),
            ),
            crate::types::command_views(r@) == head + rest.take(i as int),
        decreases raw.commands@.len() - i,
    {
        let c = interpolate_vec(vars, env, &raw.commands[i], allow);
        let ghost before = r@;
        r.push(c);
        proof {
            assert(views(c@) =~= interp_all(vars.view(), env.view(), allow, views(raw.commands@[i as int]@)));
            assert(rest[i as int] == views(c@));
            assert(rest.take(i + 1) =~= rest.take(i as int).push(rest[i as int]));
            assert(crate::types::command_views(r@) =~= crate::types::command_views(before).push(views(c@)));
        }
        i = i + 1;
    }
    assert(rest.take(i as int) =~= rest);
    r
}

/// The targets of a rule's dependency names.
fn resolve_deps(bf: &BuildFile, deps: &Vec<String>) -> (r: Vec<Target>)
    ensures
        crate::types::target_views(r@) == views(deps@).map_values(
            |d: Seq<char>| dep_target(bf.rules.entries(), d),
        ),
{
    let mut r: Vec<Target> = Vec::new();
    let mut i: usize = 0;
    while i < deps.len()
        invariant
            i <= deps@.len(),
            r@.len() == i,
            forall|j: int| 0 <= j < i ==> (#[trigger] r@[j])@ == dep_target(bf.rules.entries(), deps@[j]@),
        decreases deps@.len() - i,
    {
        r.push(resolve_dep(bf, deps[i].as_str()));
        i = i + 1;
    }
    assert(crate::types::target_views(r@) =~= views(deps@).map_values(
        |d: Seq<char>| dep_target(bf.rules.entries(), d),
    ));
    r
}

/// A rule's environment with each value interpolated.
fn interpolate_env(vars: &StrMap, env: &StrMap, m: &StrMap) -> (r: StrMap)
    ensures
        r.view() == m.view().map_values(|v: Seq<char>| interp(vars.view(), env.view(), true, v)),
{
    let n = m.len();
    let ghost e = m.entries();
    let mut r = StrMap::new();
    let mut i: usize = 0;
    while i < n
        invariant
            n == m.count(),
            n == e.len(),
            e == m.entries(),
            i <= n,
            crate::strmap::distinct_keys(e),
            forall|k: Seq<char>| #![trigger r.view().contains_key(k)]
                r.view().contains_key(k) <==> exists|j: int| 0 <= j < i && #[trigger] e[j].0 == k,
            forall|j: int| 0 <= j < i ==> r.view()[#[trigger] e[j].0] == interp(vars.view(), env.view(), true, e[j].1),
        decreases n - i,
    {
        let key = copy_string(m.key_at(i));
        let value = interpolate(vars, env, m.value_at(i).as_str(), true);
        let ghost before = r.view();
        r.insert(key, value);
        proof {
            assert forall|j: int| 0 <= j < i + 1 implies r.view()[#[trigger] e[j].0] == interp(vars.view(), env.view(), true, e[j].1) by {
                if j < i {
                    assert(e[j].0 != e[i as int].0);
                }
            }
            assert forall|k: Seq<char>| #![trigger r.view().contains_key(k)]
                r.view().contains_key(k) <==> exists|j: int| 0 <= j < i + 1 && #[trigger] e[j].0 == k by {
                if k == e[i as int].0 {
                    assert(0 <= i < i + 1 && e[i as int].0 == k);
                }
                if exists|j: int| 0 <= j < i + 1 && #[trigger] e[j].0 == k {
                    let j = choose|j: int| 0 <= j < i + 1 && #[trigger] e[j].0 == k;
                    if j < i {
                        assert(before.contains_key(k));
                    }
                }
            }
        }
        i = i + 1;
    }
    proof {
        let target = m.view().map_values(|v: Seq<char>| interp(vars.view(), env.view(), true, v));
        assert forall|k: Seq<char>| #[trigger] r.view().contains_key(k) <==> target.contains_key(k) by {
            if m.view().contains_key(k) {
                assert(crate::strmap::has_key(e, k));
            }
            if exists|j: int| 0 <= j < n && #[trigger] e[j].0 == k {
                let j = choose|j: int| 0 <= j < n && #[trigger] e[j].0 == k;
                assert(m.view().contains_key(e[j].0));
            }
        }
        assert forall|k: Seq<char>| #[trigger] r.view().contains_key(k) implies r.view()[k] == target[k] by {
            let j = choose|j: int| 0 <= j < n && #[trigger] e[j].0 == k;
            assert(m.view()[e[j].0] == e[j].1);
        }
        assert(r.view() =~= target);
    }
    r
}

/// The downloads of a rule, with URL and destination interpolated.
fn build_downloads(vars: &StrMap, env: &StrMap, v: &Vec<RawDownload>) -> (r: Vec<crate::types::Download>)
    ensures
        crate::types::download_views(r@) == v@.map_values(
            |d: RawDownload|
                (interp(vars.view(), env.view(), true, d.url@), interp(vars.view(), env.view(), true, d.dest@), opt_view(d.extract), d.strip),
        ),
{
    let mut r: Vec<crate::types::Download> = Vec::new();
    let mut i: usize = 0;
    while i < v.len()
        invariant
            i <= v@.len(),
            r@.len() == i,
            forall|j: int| 0 <= j < i ==> (#[trigger] r@[j])@ == (interp(vars.view(), env.view(), true, v@[j].url@), interp(vars.view(), env.view(), true, v@[j].dest@), opt_view(v@[j].extract), v@[j].strip),
        decreases v@.len() - i,
    {
        let d = &v[i];
        r.push(
            crate::types::Download {
                url: interpolate(vars, env, d.url.as_str(), true),
                dest: interpolate(vars, env, d.dest.as_str(), true),
                extract: copy_opt(&d.extract),
                strip: d.strip,
            },
        );
        i = i + 1;
    }
    assert(crate::types::download_views(r@) =~= v@.map_values(
        |d: RawDownload|
            (interp(vars.view(), env.view(), true, d.url@), interp(vars.view(), env.view(), true, d.dest@), opt_view(d.extract), d.strip),
    ));
    r
}

/// Turns one build file entry into a rule, given its expanded inputs.
pub fn build_rule(bf: &BuildFile, env: &StrMap, name: &str, raw: &RawRule, inputs: Vec<String>) -> (r:
    Result<crate::types::Rule, ConfigError>)
    requires
        match rule_max_time(opt_view(bf.config.max_time), *raw) {
            Some(t) => duration_fits(t),
            None => true,
        },
    ensures
        match r {
            Ok(rule) => rule_problem(opt_view(bf.config.max_time), bf.vars.view(), env.view(), name@, *raw)
                is None && rule@ == rule_view_of(
                opt_view(bf.config.max_time),
                bf.rules.entries(),
                bf.vars.view(),
                env.view(),
                name@,
                *raw,
                views(inputs@),
            ),
            Err(e) => rule_problem(opt_view(bf.config.max_time), bf.vars.view(), env.view(), name@, *raw)
                == Some(e@),
        },
{
    let vars = &bf.vars;
    let target = rule_target(name, raw);
    let deps = resolve_deps(bf, &raw.deps);
    let commands = build_commands(vars, env, raw);
    if commands.len() == 0 {
        return Err(ConfigError::new(ErrorKind::NoCommand, name));
    }
    let progress = match parse_output_mode(raw.progress.as_str(), name) {
        Ok(m) => m,
        Err(e) => {
            return Err(e);
        },
    };
    let chosen: Option<&String> = match &raw.max_time {
        Some(t) => Some(t),
        None => match &bf.config.max_time {
            Some(t) => Some(t),
            None => None,
        },
    };
    let max_time = match chosen {
        Some(t) => match parse_duration(t.as_str()) {
            Ok(d) => Some(d),
            Err(e) => {
                let detail = e.message();
                return Err(ConfigError { kind: ErrorKind::InvalidMaxTime, subject: String::from_str(name), detail });
            },
        },
        None => None,
    };
    let rule = crate::types::Rule {
        max_time,
        retry: raw.retry,
        target,
        deps,
        inputs,
        output: interpolate(vars, env, raw.output.as_str(), true),
        depfile: interpolate_opt(vars, env, &raw.depfile),
        commands,
        shell: raw.shell,
        dir: interpolate_opt(vars, env, &raw.dir),
        subdir: interpolate_opt(vars, env, &raw.subdir),
        makedir: interpolate_opt(vars, env, &raw.makedir),
        description: copy_opt(&raw.description),
        group: copy_opt(&raw.group),
        env: interpolate_env(vars, env, &raw.env),
        tty: raw.tty,
        cache: raw.cache,
        for_each: interpolate_opt(vars, env, &raw.for_each),
        progress,
        downloads: build_downloads(vars, env, &raw.downloads),
        on_failure: interpolate_vec(vars, env, &raw.on_failure, !raw.shell),
    };
    proof {
        assert(views(rule.on_failure@) =~= interp_all(vars.view(), env.view(), !raw.shell, views(raw.on_failure@)));
    }
    Ok(rule)
}

/// `inputs` is what a rule's input patterns, interpolated, expand to for
/// some outcome of matching them against the disk.
pub open spec fn expanded_inputs(
    vars: Map<Seq<char>, Seq<char>>,
    env: Map<Seq<char>, Seq<char>>,
    raw: RawRule,
    inputs: Seq<Seq<char>>,
) -> bool {
    exists|m: Seq<Seq<Seq<char>>>| #[trigger]
        merged_paths(interp_all(vars, env, true, views(raw.inputs@)), m) == inputs && m.len()
            == raw.inputs@.len()
}

/// The `i`-th entry of the build file has no problem.
pub open spec fn entry_fine(bf: &BuildFile, env: Map<Seq<char>, Seq<char>>, i: int) -> bool {
    rule_problem(
        opt_view(bf.config.max_time),
        bf.vars.view(),
        env,
        bf.rules.entries()[i].0,
        bf.rules.entries()[i].1,
    ) is None
}

/// `rs` are the rules of the build file's entries, in order.
pub open spec fn rules_of(bf: &BuildFile, env: Map<Seq<char>, Seq<char>>, rs: Seq<crate::types::RuleView>) -> bool {
    &&& rs.len() == bf.rules.entries().len()
    &&& forall|i: int|
        0 <= i < rs.len() ==> entry_fine(bf, env, i) && #[trigger] rs[i] == rule_view_of(
            opt_view(bf.config.max_time),
            bf.rules.entries(),
            bf.vars.view(),
            env,
            bf.rules.entries()[i].0,
            bf.rules.entries()[i].1,
            rs[i].inputs,
        ) && expanded_inputs(bf.vars.view(), env, bf.rules.entries()[i].1, rs[i].inputs)
}

/// `e` is the error of the `i`-th entry: the expansion of its inputs failed,
/// or it has a problem; every entry before it is fine.
pub open spec fn entry_error(
    bf: &BuildFile,
    env: Map<Seq<char>, Seq<char>>,
    i: int,
    e: (ErrorKind, Seq<char>, Seq<char>),
) -> bool {
    let name = bf.rules.entries()[i].0;
    let raw = bf.rules.entries()[i].1;
    &&& 0 <= i < bf.rules.entries().len()
    &&& forall|j: int| 0 <= j < i ==> #[trigger] entry_fine(bf, env, j)
    &&& ((exists|c: (ErrorKind, Seq<char>, Seq<char>)| #[trigger]
        glob_failure(interp_all(bf.vars.view(), env, true, views(raw.inputs@)), c) && e == (
        ErrorKind::BadInputs,
        name,
        error_message(c),
    )) || Some(e) == rule_problem(opt_view(bf.config.max_time), bf.vars.view(), env, name, raw))
}

/// Convert a `BuildFile` into a flat list of `Rule`s, one per entry, in the
/// entries' order. `env` is the environment that `{{name}}` placeholders
/// fall back to.
///
/// Glob patterns in `inputs` are expanded to concrete file paths at this point.
pub fn to_rules(bf: &BuildFile, env: &StrMap) -> (r: Result<Vec<crate::types::Rule>, ConfigError>)
    requires
        timeouts_fit(bf),
    ensures
        match r {
            Ok(rs) => rules_of(bf, env.view(), crate::types::rule_views(rs@)),
            Err(e) => exists|i: int| #[trigger] entry_error(bf, env.view(), i, e@),
        },
{
    let n = bf.rules.len();
    let mut out: Vec<crate::types::Rule> = Vec::new();
    let mut i: usize = 0;
    while i < n
        invariant
            n == bf.rules.entries().len(),
            timeouts_fit(bf),
            i <= n,
            out@.len() == i,
            forall|j: int| 0 <= j < i ==> #[trigger] entry_fine(bf, env.view(), j),
            forall|j: int|
                0 <= j < i ==> entry_fine(bf, env.view(), j) && #[trigger] out@[j]@ == rule_view_of(
                    opt_view(bf.config.max_time),
                    bf.rules.entries(),
                    bf.vars.view(),
                    env.view(),
                    bf.rules.entries()[j].0,
                    bf.rules.entries()[j].1,
                    out@[j]@.inputs,
                ) && expanded_inputs(bf.vars.view(), env.view(), bf.rules.entries()[j].1, out@[j]@.inputs),
        decreases n - i,
    {
        let name = bf.rules.name_at(i);
        let raw = bf.rules.item_at(i);
        let patterns = interpolate_vec(&bf.vars, env, &raw.inputs, true);
        assert(views(patterns@) =~= interp_all(bf.vars.view(), env.view(), true, views(raw.inputs@)));
        let inputs = match expand_inputs(&patterns) {
            Ok(v) => v,
            Err(c) => {
                let detail = c.message();
                let e = ConfigError { kind: ErrorKind::BadInputs, subject: copy_string(name), detail };
                assert(glob_failure(interp_all(bf.vars.view(), env.view(), true, views(raw.inputs@)), c@));
                assert(entry_error(bf, env.view(), i as int, e@));
                return Err(e);
            },
        };
        let ghost inputs_view = views(inputs@);
        assert(expanded_inputs(bf.vars.view(), env.view(), *raw, inputs_view));
        assert(match rule_max_time(opt_view(bf.config.max_time), bf.rules.entries()[i as int].1) {
            Some(t) => duration_fits(t),
            None => true,
        });
        let rule = match build_rule(bf, env, name.as_str(), raw, inputs) {
            Ok(rule) => rule,
            Err(e) => {
                assert(entry_error(bf, env.view(), i as int, e@));
                return Err(e);
            },
        };
        out.push(rule);
        i = i + 1;
    }
    assert(rules_of(bf, env.view(), crate::types::rule_views(out@)));
    Ok(out)
}

/// Without the environment fallback, interpolation reads only `[vars]`.
proof fn lemma_interp_from_no_env(
    vars: Map<Seq<char>, Seq<char>>,
    e1: Map<Seq<char>, Seq<char>>,
    e2: Map<Seq<char>, Seq<char>>,
    s: Seq<char>,
    pos: int,
)
    requires
        0 <= pos <= s.len(),
    ensures
        interp_from(vars, e1, false, s, pos) == interp_from(vars, e2, false, s, pos),
    decreases s.len() - pos,
{
    let a = crate::text::find_first(s, open_braces(), pos);
    if a >= 0 {
        let b = crate::text::find_first(s, close_braces(), a);
        if b >= 0 {
            crate::text::lemma_find_first(s, open_braces(), pos);
            crate::text::lemma_find_first(s, close_braces(), a);
            lemma_interp_from_no_env(vars, e1, e2, s, b + 2);
        }
    }
}

/// Each string interpolated without the environment fallback reads only
/// `[vars]`.
proof fn lemma_interp_all_no_env(
    vars: Map<Seq<char>, Seq<char>>,
    e1: Map<Seq<char>, Seq<char>>,
    e2: Map<Seq<char>, Seq<char>>,
    v: Seq<Seq<char>>,
)
    ensures
        interp_all(vars, e1, false, v) == interp_all(vars, e2, false, v),
{
    assert forall|k: int| 0 <= k < v.len() implies interp_all(vars, e1, false, v)[k] == interp_all(
        vars,
        e2,
        false,
        v,
    )[k] by {
        lemma_interp_from_no_env(vars, e1, e2, v[k], 0);
    }
    assert(interp_all(vars, e1, false, v) =~= interp_all(vars, e2, false, v));
}

/// The commands of a shell rule, and what it runs on failure, do not
/// depend on the environment: a `{{name}}` that `[vars]` does not define is
/// kept as it is, never filled in from the environment, so an environment
/// value cannot inject shell syntax. Whatever the two environments `e1` and
/// `e2`, the rules `to_rules` makes of the same build file agree on them.
pub proof fn lemma_shell_commands_ignore_env(
    bf: &BuildFile,
    e1: Map<Seq<char>, Seq<char>>,
    e2: Map<Seq<char>, Seq<char>>,
    rs1: Seq<crate::types::RuleView>,
    rs2: Seq<crate::types::RuleView>,
    i: int,
)
    requires
        rules_of(bf, e1, rs1),
        rules_of(bf, e2, rs2),
        0 <= i < rs1.len(),
        bf.rules.entries()[i].1.shell,
    ensures
        rs1[i].commands == rs2[i].commands,
        rs1[i].on_failure == rs2[i].on_failure,
{
    let raw = bf.rules.entries()[i].1;
    let vars = bf.vars.view();
    assert(rs1[i] == rule_view_of(opt_view(bf.config.max_time), bf.rules.entries(), vars, e1, bf.rules.entries()[i].0, raw, rs1[i].inputs));
    assert(rs2[i] == rule_view_of(opt_view(bf.config.max_time), bf.rules.entries(), vars, e2, bf.rules.entries()[i].0, raw, rs2[i].inputs));
    lemma_interp_all_no_env(vars, e1, e2, views(raw.command@));
    lemma_interp_all_no_env(vars, e1, e2, views(raw.on_failure@));
    let cs = crate::types::command_views(raw.commands@);
    assert forall|k: int| 0 <= k < cs.len() implies interp_all(vars, e1, false, #[trigger] cs[k]) == interp_all(
        vars,
        e2,
        false,
        cs[k],
    ) by {
        lemma_interp_all_no_env(vars, e1, e2, cs[k]);
    }
    assert(cs.map_values(|c: Seq<Seq<char>>| interp_all(vars, e1, false, c)) =~= cs.map_values(
        |c: Seq<Seq<char>>| interp_all(vars, e2, false, c),
    ));
    assert(rule_commands(vars, e1, raw) == rule_commands(vars, e2, raw));
}

/// The rules `to_rules` makes follow the build file's entries: one rule
/// per entry, in the entries' order, with the entry's target (a task when
/// its `type` says so), its dependencies resolved against the entries, its
/// `shell`, `tty`, `cache`, `retry`, `description` and `group`; its
/// `command` (interpolated) first, then its `commands`, never none; and its
/// own `max_time`, else `[config]`'s, read as a number of seconds.
pub proof fn lemma_rules_follow_entries(
    bf: &BuildFile,
    env: Map<Seq<char>, Seq<char>>,
    rs: Seq<crate::types::RuleView>,
    i: int,
)
    requires
        rules_of(bf, env, rs),
        0 <= i < rs.len(),
    ensures
        rs.len() == bf.rules.entries().len(),
        ({
            let (name, raw) = bf.rules.entries()[i];
            let allow_env = !raw.shell;
            &&& rs[i].target == target_of(name, raw.kind)
            &&& rs[i].deps.len() == raw.deps@.len()
            &&& forall|k: int|
                0 <= k < raw.deps@.len() ==> #[trigger] rs[i].deps[k] == dep_target(
                    bf.rules.entries(),
                    raw.deps@[k]@,
                )
            &&& rs[i].shell == raw.shell
            &&& rs[i].tty == raw.tty
            &&& rs[i].cache == raw.cache
            &&& rs[i].retry == raw.retry
            &&& rs[i].description == opt_view(raw.description)
            &&& rs[i].group == opt_view(raw.group)
            &&& rs[i].commands == rule_commands(bf.vars.view(), env, raw)
            &&& rs[i].commands.len() == (if raw.command@.len() > 0 { 1int } else { 0int }) + raw.commands@.len()
            &&& rs[i].commands.len() > 0
            &&& raw.command@.len() > 0 ==> rs[i].commands[0] == interp_all(
                bf.vars.view(),
                env,
                allow_env,
                views(raw.command@),
            )
            &&& match rule_max_time(opt_view(bf.config.max_time), raw) {
                Some(t) => exists|n: int|
                    #[trigger] duration_secs(t) == Ok::<int, ErrorKind>(n) && rs[i].max_time == Some(
                        duration_of_secs(n as u64),
                    ),
                None => rs[i].max_time is None,
            }
        }),
{
    let (name, raw) = bf.rules.entries()[i];
    lemma_every_step_kept(bf.vars.view(), env, raw);
    assert(entry_fine(bf, env, i));
    assert(rs[i] == rule_view_of(opt_view(bf.config.max_time), bf.rules.entries(), bf.vars.view(), env, name, raw, rs[i].inputs));
    match rule_max_time(opt_view(bf.config.max_time), raw) {
        Some(t) => {
            let n = duration_secs(t)->Ok_0;
            assert(duration_secs(t) == Ok::<int, ErrorKind>(n));
        },
        None => {},
    }
}

/// A rule runs its `command` (when it has one) and then every entry of its
/// `commands`, each once, in order, none dropped: the steps number one for
/// a non-empty `command` plus one per entry of `commands`, and each step
/// is its entry with every word interpolated (without the environment
/// fallback for a shell rule).
pub proof fn lemma_every_step_kept(
    vars: Map<Seq<char>, Seq<char>>,
    env: Map<Seq<char>, Seq<char>>,
    raw: RawRule,
)
    ensures
        ({
            let steps = rule_commands(vars, env, raw);
            let off: int = if raw.command@.len() > 0 { 1 } else { 0 };
            &&& steps.len() == off + raw.commands@.len()
            &&& off == 1 ==> steps[0].len() == raw.command@.len() && forall|j: int|
                0 <= j < raw.command@.len() ==> #[trigger] steps[0][j] == interp(
                    vars,
                    env,
                    !raw.shell,
                    raw.command@[j]@,
                )
            &&& forall|k: int|
                0 <= k < raw.commands@.len() ==> (#[trigger] steps[off + k]).len() == raw.commands@[k]@.len()
                    && forall|j: int|
                    0 <= j < raw.commands@[k]@.len() ==> #[trigger] steps[off + k][j] == interp(
                        vars,
                        env,
                        !raw.shell,
                        raw.commands@[k]@[j]@,
                    )
        }),
{
    let steps = rule_commands(vars, env, raw);
    let off: int = if raw.command@.len() > 0 { 1 } else { 0 };
    let head: Seq<Seq<Seq<char>>> = if raw.command@.len() > 0 {
        seq![interp_all(vars, env, !raw.shell, views(raw.command@))]
    } else {
        seq![]
    };
    let rest = crate::types::command_views(raw.commands@).map_values(
        |c: Seq<Seq<char>>| interp_all(vars, env, !raw.shell, c),
    );
    assert(steps == head + rest);
    assert(head.len() == off);
    assert forall|k: int| 0 <= k < raw.commands@.len() implies (#[trigger] steps[off + k]).len()
        == raw.commands@[k]@.len() && forall|j: int|
        0 <= j < raw.commands@[k]@.len() ==> #[trigger] steps[off + k][j] == interp(
            vars,
            env,
            !raw.shell,
            raw.commands@[k]@[j]@,
        ) by {
        assert(steps[off + k] == rest[k]);
        assert(crate::types::command_views(raw.commands@)[k] == views(raw.commands@[k]@));
        assert forall|j: int| 0 <= j < raw.commands@[k]@.len() implies #[trigger] steps[off + k][j] == interp(
            vars,
            env,
            !raw.shell,
            raw.commands@[k]@[j]@,
        ) by {
            assert(views(raw.commands@[k]@)[j] == raw.commands@[k]@[j]@);
        }
    }
    if off == 1 {
        assert(steps[0] == head[0]);
        assert forall|j: int| 0 <= j < raw.command@.len() implies #[trigger] steps[0][j] == interp(
            vars,
            env,
            !raw.shell,
            raw.command@[j]@,
        ) by {
            assert(views(raw.command@)[j] == raw.command@[j]@);
        }
    }
}

} // verus!
