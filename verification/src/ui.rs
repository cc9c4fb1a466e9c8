//! Display settings from the `[ui]` section of `pbuild.toml`.

use vstd::prelude::*;

use vstd::string::StringExecFns;

use crate::hash::join;
use crate::text::{decimal, decimal_of, views};
use crate::types::opt_view;

verus! {

/// Optional display tweaks from `[ui]` in `pbuild.toml`.
///
/// ```toml
/// [ui]
/// color  = true   # force color on/off; default: auto-detect TTY
/// prefix = "›"    # symbol printed before each target name; default "›"
/// ```
#[derive(Debug, Clone)]
pub struct UiConfig {
    /// Force color on (`Some(true)`) or off (`Some(false)`).
    /// `None` means auto-detect from TTY.
    pub color: Option<bool>,
    /// Symbol printed before a target name when it starts running.
    pub prefix: Option<String>,
}

impl UiConfig {
    /// The symbol printed before a target name: the configured one, or `›`.
    pub fn prefix(&self) -> (p: &str)
        ensures
            p@ == match opt_view(self.prefix) {
                Some(s) => s,
                None => "›"@,
            },
    {
        match &self.prefix {
            Some(s) => s.as_str(),
            None => "›",
        }
    }

    /// Whether to color output, given whether stdout is a terminal.
    pub fn colors(&self, stdout_is_terminal: bool) -> (b: bool)
        ensures
            b == match self.color {
                Some(c) => c,
                None => stdout_is_terminal,
            },
    {
        match self.color {
            Some(c) => c,
            None => stdout_is_terminal,
        }
    }
}


/// `s` wrapped in the ANSI code `code` when coloring.
pub open spec fn painted(colors: bool, code: Seq<char>, s: Seq<char>) -> Seq<char> {
    if colors {
        code + s + "\x1b[0m"@
    } else {
        s
    }
}

/// A copy of a line.
fn copy_text(s: &String) -> (r: String)
    ensures
        r@ == s@,
{
    s.clone()
}

/// `s` wrapped in an ANSI code when coloring.
fn paint(colors: bool, code: &str, s: &str) -> (r: String)
    ensures
        r@ == painted(colors, code@, s@),
{
    if colors {
        String::from_str(code).concat(s).concat("\x1b[0m")
    } else {
        String::from_str(s)
    }
}

/// A line for the terminal and the same line for the log file (which never
/// holds color codes).
pub type Lines = (String, String);

impl UiConfig {
    /// `› build` — printed when a rule starts.
    pub fn start_lines(&self, target: &str, tty: bool) -> (r: Lines)
        ensures
            r.0@ == painted(self.color_on(tty), "\x1b[1m"@, self.prefix_text()) + " "@ + target@,
            r.1@ == self.prefix_text() + " "@ + target@,
    {
        let c = self.colors(tty);
        let p = self.prefix();
        (paint(c, "\x1b[1m", p).concat(" ").concat(target), String::from_str(p).concat(" ").concat(target))
    }

    /// `    $ cargo build --release` — each command within a rule.
    pub fn command_lines(&self, cmd: &Vec<String>, tty: bool) -> (r: Lines)
        ensures
            r.0@ == "    "@ + painted(self.color_on(tty), "\x1b[2m"@, "$"@) + " "@ + painted(
                self.color_on(tty),
                "\x1b[2m"@,
                join(views(cmd@), ' '),
            ),
            r.1@ == "    $ "@ + join(views(cmd@), ' '),
    {
        let c = self.colors(tty);
        let joined = crate::hash::join_with(cmd, ' ');
        (
            String::from_str("    ").concat(paint(c, "\x1b[2m", "$").as_str()).concat(" ").concat(
                paint(c, "\x1b[2m", joined.as_str()).as_str(),
            ),
            String::from_str("    $ ").concat(joined.as_str()),
        )
    }

    /// `– build` (dim, verbose only).
    pub fn skip_lines(&self, target: &str, tty: bool) -> (r: Lines)
        ensures
            r.0@ == painted(self.color_on(tty), "\x1b[2m"@, "–"@) + " "@ + target@,
            r.1@ == "– "@ + target@,
    {
        let c = self.colors(tty);
        (paint(c, "\x1b[2m", "–").concat(" ").concat(target), String::from_str("– ").concat(target))
    }

    /// `    dry cargo build --release`.
    pub fn dry_run_lines(&self, cmd: &Vec<String>, tty: bool) -> (r: Lines)
        ensures
            r.0@ == "    "@ + painted(self.color_on(tty), "\x1b[33m"@, "dry"@) + " "@ + painted(
                self.color_on(tty),
                "\x1b[2m"@,
                join(views(cmd@), ' '),
            ),
            r.1@ == "    dry "@ + join(views(cmd@), ' '),
    {
        let c = self.colors(tty);
        let joined = crate::hash::join_with(cmd, ' ');
        (
            String::from_str("    ").concat(paint(c, "\x1b[33m", "dry").as_str()).concat(" ").concat(
                paint(c, "\x1b[2m", joined.as_str()).as_str(),
            ),
            String::from_str("    dry ").concat(joined.as_str()),
        )
    }

    /// `  ✓ build  <time>` — `time` is the elapsed time as text.
    pub fn done_lines(&self, target: &str, time: &str, tty: bool) -> (r: Lines)
        ensures
            r.0@ == "  "@ + painted(self.color_on(tty), "\x1b[32m"@, "✓"@) + " "@ + target@ + "  "@ + painted(
                self.color_on(tty),
                "\x1b[2m"@,
                time@,
            ),
            r.1@ == "  ✓ "@ + target@ + "  "@ + time@,
    {
        let c = self.colors(tty);
        (
            String::from_str("  ").concat(paint(c, "\x1b[32m", "✓").as_str()).concat(" ").concat(target).concat(
                "  ",
            ).concat(paint(c, "\x1b[2m", time).as_str()),
            String::from_str("  ✓ ").concat(target).concat("  ").concat(time),
        )
    }

    /// `  ✗ build`.
    pub fn fail_lines(&self, target: &str, tty: bool) -> (r: Lines)
        ensures
            r.0@ == "  "@ + painted(self.color_on(tty), "\x1b[31m"@, "✗"@) + " "@ + target@,
            r.1@ == "  ✗ "@ + target@,
    {
        let c = self.colors(tty);
        (
            String::from_str("  ").concat(paint(c, "\x1b[31m", "✗").as_str()).concat(" ").concat(target),
            String::from_str("  ✗ ").concat(target),
        )
    }

    /// `  ✗ test  timed out after 5m` — a rule killed by its `max_time`
    /// (`limit` is the timeout as text).
    pub fn timeout_lines(&self, target: &str, limit: &str, tty: bool) -> (r: Lines)
        ensures
            r.0@ == "  "@ + painted(self.color_on(tty), "\x1b[31m"@, "✗"@) + " "@ + target@ + "  timed out after "@
                + limit@,
            r.1@ == "  ✗ "@ + target@ + "  timed out after "@ + limit@,
    {
        let c = self.colors(tty);
        (
            String::from_str("  ").concat(paint(c, "\x1b[31m", "✗").as_str()).concat(" ").concat(target).concat(
                "  timed out after ",
            ).concat(limit),
            String::from_str("  ✗ ").concat(target).concat("  timed out after ").concat(limit),
        )
    }

    /// `    [42/1000] 4%  bench` — before the `done`-th of `total` files of a
    /// `for_each` rule with `progress = "percent"`.
    pub fn progress_lines(&self, target: &str, done: u64, total: u64, tty: bool) -> (r: Lines)
        requires
            0 < done <= total,
        ensures
            r.0@ == "    ["@ + decimal_of(done as nat) + "/"@ + decimal_of(total as nat) + "] "@ + decimal_of(
                ((done as int) * 100 / (total as int)) as nat,
            ) + "%  "@ + target@,
            r.1@ == r.0@,
    {
        let wide: u128 = (done as u128) * 100;
        let q: u128 = wide / (total as u128);
        assert(q <= 100) by (nonlinear_arith)
            requires
                q as int == (wide as int) / (total as int),
                wide as int == (done as int) * 100,
                0 < done <= total,
        ;
        let pct = q as u64;
        let line = String::from_str("    [").concat(decimal(done).as_str()).concat("/").concat(
            decimal(total).as_str(),
        ).concat("] ").concat(decimal(pct).as_str()).concat("%  ").concat(target);
        (copy_text(&line), line)
    }

    /// `  ↻ fetch  (attempt 2/4)` — before another attempt of a failed rule.
    pub fn retry_lines(&self, target: &str, attempt: u64, total: u64, tty: bool) -> (r: Lines)
        ensures
            r.0@ == "  "@ + painted(self.color_on(tty), "\x1b[33m"@, "↻"@) + " "@ + target@ + "  (attempt "@
                + decimal_of(attempt as nat) + "/"@ + decimal_of(total as nat) + ")"@,
            r.1@ == "  ↻ "@ + target@ + "  (attempt "@ + decimal_of(attempt as nat) + "/"@ + decimal_of(
                total as nat,
            ) + ")"@,
    {
        let c = self.colors(tty);
        let count = decimal(attempt).concat("/").concat(decimal(total).as_str()).concat(")");
        (
            String::from_str("  ").concat(paint(c, "\x1b[33m", "↻").as_str()).concat(" ").concat(target).concat(
                "  (attempt ",
            ).concat(count.as_str()),
            String::from_str("  ↻ ").concat(target).concat("  (attempt ").concat(count.as_str()),
        )
    }

    /// Env-dirty notice.
    pub fn env_dirty_lines(&self, tty: bool) -> (r: Lines)
        ensures
            r.0@ == painted(self.color_on(tty), "\x1b[33m"@, "  env vars changed — rebuilding all"@),
            r.1@ == "  env vars changed — rebuilding all"@,
    {
        let c = self.colors(tty);
        (
            paint(c, "\x1b[33m", "  env vars changed — rebuilding all"),
            String::from_str("  env vars changed — rebuilding all"),
        )
    }

    /// Whether to color, given whether stdout is a terminal.
    pub open spec fn color_on(&self, tty: bool) -> bool {
        match self.color {
            Some(c) => c,
            None => tty,
        }
    }

    /// The prefix symbol.
    pub open spec fn prefix_text(&self) -> Seq<char> {
        match opt_view(self.prefix) {
            Some(s) => s,
            None => "›"@,
        }
    }
}

} // verus!
