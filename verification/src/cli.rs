//! The command line: which subcommand runs, the options of a build, and the
//! text helpers the subcommands share.

use vstd::prelude::*;
use vstd::string::{StrSliceExecFns, StringExecFns};

use crate::hash::{first_index, index_of_char, opt_str_view};
use crate::strmap::{copy_string, str_eq};
use crate::text::{
    extend_chars, extend_str, find_first, find_from, from_chars, has_infix, has_prefix,
    lemma_find_first, occurs_at, starts_with, sub_chars, to_chars, views, contains_seq,
};

verus! {

/// What `--profile <name>`, `-p <name>` or `--profile=<name>` in `argv`
/// selects, looking from position `i` on: the first such option decides.
pub open spec fn profile_from(argv: Seq<Seq<char>>, i: int) -> Option<Seq<char>>
    decreases argv.len() - i,
{
    if i < 0 || i >= argv.len() {
        None
    } else if argv[i] == "--profile"@ || argv[i] == "-p"@ {
        if i + 1 < argv.len() {
            Some(argv[i + 1])
        } else {
            None
        }
    } else if starts_with(argv[i], "--profile="@) {
        Some(argv[i].skip("--profile="@.len() as int))
    } else {
        profile_from(argv, i + 1)
    }
}

/// Extract `--profile <name>` or `-p <name>` from a raw argv slice.
pub fn extract_profile(argv: &Vec<String>) -> (r: Option<&str>)
    ensures
        opt_str_view(r) == profile_from(views(argv@), 0),
{
    let ghost a = views(argv@);
    let mut i: usize = 0;
    while i < argv.len()
        invariant
            i <= argv@.len(),
            a == views(argv@),
            profile_from(a, 0) == profile_from(a, i as int),
        decreases argv@.len() - i,
    {
        let arg = argv[i].as_str();
        assert(a[i as int] == arg@);
        if str_eq(arg, "--profile") || str_eq(arg, "-p") {
            if i + 1 < argv.len() {
                assert(a[i + 1] == argv@[i + 1]@);
                return Some(argv[i + 1].as_str());
            }
            return None;
        }
        let cs = to_chars(arg);
        if has_prefix(cs.as_slice(), "--profile=") {
            let k = "--profile=".unicode_len();
            let n = arg.unicode_len();
            let v = arg.substring_char(k, n);
            assert(v@ =~= arg@.skip(k as int));
            return Some(v);
        }
        i = i + 1;
    }
    None
}

/// The assignment operators of a Makefile, tried in this order (longest
/// first to avoid ambiguity).
pub open spec fn assignment_op(k: int) -> Seq<char> {
    if k == 0 {
        ":="@
    } else if k == 1 {
        "?="@
    } else if k == 2 {
        "+="@
    } else if k == 3 {
        "!="@
    } else {
        "="@
    }
}

/// The assignment in `line`, trying operators from the `k`-th on: the text
/// before the first occurrence of the first operator that occurs, the
/// operator, and the text after it; none when the text before holds a
/// colon (that makes the line a target rule).
pub open spec fn assignment_from(line: Seq<char>, k: int) -> Option<(Seq<char>, Seq<char>, Seq<char>)>
    decreases 5 - k,
{
    if k < 0 || k >= 5 {
        None
    } else {
        let op = assignment_op(k);
        let pos = find_first(line, op, 0);
        if pos >= 0 {
            if line.take(pos).contains(':') {
                None
            } else {
                Some((line.take(pos), op, line.skip(pos + op.len())))
            }
        } else {
            assignment_from(line, k + 1)
        }
    }
}

/// The `k`-th assignment operator.
fn assignment_op_str(k: usize) -> (op: &'static str)
    requires
        k < 5,
    ensures
        op@ == assignment_op(k as int),
{
    if k == 0 {
        ":="
    } else if k == 1 {
        "?="
    } else if k == 2 {
        "+="
    } else if k == 3 {
        "!="
    } else {
        "="
    }
}

/// Find a variable assignment in `line`. Returns `(lhs, op, rhs)` or None.
pub fn find_assignment(line: &str) -> (r: Option<(String, &'static str, String)>)
    ensures
        match r {
            Some((lhs, op, rhs)) => assignment_from(line@, 0) == Some((lhs@, op@, rhs@)),
            None => assignment_from(line@, 0) is None,
        },
{
    let cs = to_chars(line);
    let n = cs.len();
    let mut k: usize = 0;
    while k < 5
        invariant
            k <= 5,
            cs@ == line@,
            n == cs@.len(),
            assignment_from(line@, 0) == assignment_from(line@, k as int),
        decreases 5 - k,
    {
        let op = assignment_op_str(k);
        let pat = to_chars(op);
        match find_from(cs.as_slice(), pat.as_slice(), 0) {
            Some(pos) => {
                proof {
                    lemma_find_first(line@, op@, 0);
                }
                let lhs = sub_chars(cs.as_slice(), 0, pos);
                assert(lhs@ =~= line@.take(pos as int));
                if index_of_char(lhs.as_slice(), ':').is_some() {
                    return None;
                }
                assert(occurs_at(cs@, pat@, pos as int));
                assert(pos + pat@.len() <= cs@.len());
                let rhs = sub_chars(cs.as_slice(), pos + pat.len(), n);
                assert(rhs@ =~= line@.skip(pos + op@.len()));
                return Some((from_chars(lhs.as_slice()), op, from_chars(rhs.as_slice())));
            },
            None => {},
        }
        k = k + 1;
    }
    None
}

/// The UTF-8 encoding of `c`.
pub open spec fn utf8_of(c: char) -> Seq<u8> {
    let n = c as u32 as int;
    if n < 0x80 {
        seq![n as u8]
    } else if n < 0x800 {
        seq![(0xC0 + n / 64) as u8, (0x80 + n % 64) as u8]
    } else if n < 0x10000 {
        seq![(0xE0 + n / 4096) as u8, (0x80 + (n / 64) % 64) as u8, (0x80 + n % 64) as u8]
    } else {
        seq![
            (0xF0 + n / 262144) as u8,
            (0x80 + (n / 4096) % 64) as u8,
            (0x80 + (n / 64) % 64) as u8,
            (0x80 + n % 64) as u8,
        ]
    }
}

/// The character that closes a reference opened with `open`.
pub open spec fn closer(open: char) -> char {
    if open == '(' {
        ')'
    } else {
        '}'
    }
}

/// A Make reference `$(` or `${` starts at `i` and is closed later.
pub open spec fn reference_at(s: Seq<char>, i: int) -> bool {
    0 <= i && i + 1 < s.len() && s[i] == '$' && (s[i + 1] == '(' || s[i + 1] == '{') && s.skip(
        i + 2,
    ).contains(closer(s[i + 1]))
}

/// The length of the name of the reference at `i`.
pub open spec fn reference_len(s: Seq<char>, i: int) -> int {
    first_index(s.skip(i + 2), closer(s[i + 1]))
}

/// The name of the reference at `i` has no space or tab.
pub open spec fn plain_reference(s: Seq<char>, i: int) -> bool {
    let name = s.subrange(i + 2, i + 2 + reference_len(s, i));
    !name.contains(' ') && !name.contains('\t')
}

/// What `make_vars_to_pbuild` makes of `s` from position `i` on: each
/// `$(NAME)` or `${NAME}` becomes `{{NAME}}`; a reference whose name holds a
/// space or a tab (a function call like `$(shell ...)`) is kept as is;
/// every other character is copied unchanged.
#[verifier::opaque]
pub open spec fn make_vars_from(s: Seq<char>, i: int) -> Seq<char>
    decreases s.len() - i,
{
    if i < 0 || i >= s.len() {
        seq![]
    } else if reference_at(s, i) {
        let end = reference_len(s, i);
        let name = s.subrange(i + 2, i + 2 + end);
        (if plain_reference(s, i) {
            "{{"@ + name + "}}"@
        } else {
            s.subrange(i, i + 3 + end)
        }) + if 0 <= end && i + 3 + end <= s.len() {
            make_vars_from(s, i + 3 + end)
        } else {
            seq![]
        }
    } else {
        seq![s[i]] + make_vars_from(s, i + 1)
    }
}

/// The reference at `i` ends within `s`, and what it turns into.
proof fn lemma_make_vars_reference(s: Seq<char>, i: int)
    requires
        reference_at(s, i),
    ensures
        0 <= reference_len(s, i),
        i + 3 + reference_len(s, i) <= s.len(),
        make_vars_from(s, i) == (if plain_reference(s, i) {
            "{{"@ + s.subrange(i + 2, i + 2 + reference_len(s, i)) + "}}"@
        } else {
            s.subrange(i, i + 3 + reference_len(s, i))
        }) + make_vars_from(s, i + 3 + reference_len(s, i)),
{
    reveal(make_vars_from);
    let u = s.skip(i + 2);
    let c = closer(s[i + 1]);
    let j = choose|j: int| 0 <= j < u.len() && u[j] == c;
    let m = lemma_min_index(u, c, j);
    crate::hash::lemma_first_index(u, c, m);
}

/// A first position of `c` in `s`, at most `j`.
proof fn lemma_min_index(s: Seq<char>, c: char, j: int) -> (m: int)
    requires
        0 <= j < s.len(),
        s[j] == c,
    ensures
        0 <= m <= j,
        s[m] == c,
        forall|k: int| 0 <= k < m ==> s[k] != c,
    decreases j,
{
    if exists|k: int| 0 <= k < j && s[k] == c {
        let k = choose|k: int| 0 <= k < j && s[k] == c;
        lemma_min_index(s, c, k)
    } else {
        j
    }
}

/// A character that starts no reference is copied unchanged.
proof fn lemma_make_vars_plain(s: Seq<char>, i: int)
    requires
        0 <= i < s.len(),
        !reference_at(s, i),
    ensures
        make_vars_from(s, i) == seq![s[i]] + make_vars_from(s, i + 1),
{
    reveal(make_vars_from);
}

/// Nothing is left at the end.
proof fn lemma_make_vars_end(s: Seq<char>)
    ensures
        make_vars_from(s, s.len() as int) == Seq::<char>::empty(),
{
    reveal(make_vars_from);
}

/// Where the reference at `i` closes, if one starts there.
fn reference_end(cs: &Vec<char>, i: usize) -> (r: Option<usize>)
    requires
        i < cs@.len(),
    ensures
        match r {
            Some(end) => reference_at(cs@, i as int) && end as int == reference_len(cs@, i as int),
            None => !reference_at(cs@, i as int),
        },
{
    let n = cs.len();
    if cs[i] == '$' && i + 1 < n && (cs[i + 1] == '(' || cs[i + 1] == '{') {
        let close = if cs[i + 1] == '(' {
            ')'
        } else {
            '}'
        };
        let rest = sub_chars(cs.as_slice(), i + 2, cs.len());
        assert(rest@ =~= cs@.skip(i + 2));
        index_of_char(rest.as_slice(), close)
    } else {
        None
    }
}

/// Appends what the reference at `i`, closing `end` characters after its
/// name starts, turns into.
#[verifier::rlimit(30)]
#[verifier::spinoff_prover]
fn push_reference(out: &mut Vec<char>, cs: &Vec<char>, i: usize, end: usize)
    requires
        reference_at(cs@, i as int),
        end as int == reference_len(cs@, i as int),
        i + 3 + end <= cs@.len(),
    ensures
        final(out)@ == old(out)@ + if plain_reference(cs@, i as int) {
            "{{"@ + cs@.subrange(i + 2, i + 2 + end) + "}}"@
        } else {
            cs@.subrange(i as int, i + 3 + end)
        },
{
    let n = cs.len();
    assert(i + 3 + end <= n);
    let name = sub_chars(cs.as_slice(), i + 2, i + 2 + end);
    let has_space = index_of_char(name.as_slice(), ' ').is_some();
    let has_tab = index_of_char(name.as_slice(), '\t').is_some();
    if has_space || has_tab {
        let whole = sub_chars(cs.as_slice(), i, i + 3 + end);
        extend_chars(out, whole.as_slice());
    } else {
        let ghost start = out@;
        extend_str(out, "{{");
        extend_chars(out, name.as_slice());
        extend_str(out, "}}");
        assert(out@ =~= start + ("{{"@ + name@ + "}}"@));
    }
}

/// Convert Make-style `$(VAR)` and `${VAR}` references to pbuild `{{VAR}}`.
/// Leaves `$(shell ...)` and complex expansions unchanged (they'll need manual review).
#[verifier::rlimit(40)]
#[verifier::spinoff_prover]
pub fn make_vars_to_pbuild(s: &str) -> (r: String)
    ensures
        r@ == make_vars_from(s@, 0),
{
    let cs = to_chars(s);
    let ghost t = cs@;
    let mut out: Vec<char> = Vec::new();
    let mut i: usize = 0;
    while i < cs.len()
        invariant
            i <= cs@.len(),
            t == cs@,
            out@ + make_vars_from(t, i as int) == make_vars_from(t, 0),
        decreases cs@.len() - i,
    {
        let found = reference_end(&cs, i);
        match found {
            Some(end) => {
                proof {
                    lemma_make_vars_reference(t, i as int);
                }
                assert(i + 3 + end <= cs@.len());
                let ghost before = out@;
                push_reference(&mut out, &cs, i, end);
                assert(out@ + make_vars_from(t, i + 3 + end) =~= before + make_vars_from(t, i as int));
                i = i + 3 + end;
            },
            None => {
                let ghost before = out@;
                out.push(cs[i]);
                proof {
                    lemma_make_vars_plain(t, i as int);
                }
                assert(out@ + make_vars_from(t, i + 1) =~= before + make_vars_from(t, i as int));
                i = i + 1;
            },
        }
    }
    proof {
        lemma_make_vars_end(t);
    }
    assert(out@ =~= out@ + Seq::<char>::empty());
    from_chars(out.as_slice())
}

/// The state of the quote-aware tokenizer after reading `s`: the words
/// finished, the word being read, and whether a single or a double quote
/// is open.
pub open spec fn split_state(s: Seq<char>) -> (Seq<Seq<char>>, Seq<char>, bool, bool)
    decreases s.len(),
{
    if s.len() == 0 {
        (seq![], seq![], false, false)
    } else {
        let (words, cur, sq, dq) = split_state(s.drop_last());
        let ch = s.last();
        if ch == '\'' && !dq {
            (words, cur, !sq, dq)
        } else if ch == '"' && !sq {
            (words, cur, sq, !dq)
        } else if (ch == ' ' || ch == '\t') && !sq && !dq {
            if cur.len() > 0 {
                (words.push(cur), seq![], sq, dq)
            } else {
                (words, cur, sq, dq)
            }
        } else {
            (words, cur.push(ch), sq, dq)
        }
    }
}

/// A recipe line holds shell syntax that the tokenizer leaves whole.
pub open spec fn has_shell_syntax(cmd: Seq<char>) -> bool {
    contains_seq(cmd, "&&"@) || contains_seq(cmd, "||"@) || contains_seq(cmd, ">>"@) || cmd.contains(
        ';',
    ) || cmd.contains('|')
}

/// The tokens of a recipe line: the whole line when it holds shell syntax,
/// else its words split at unquoted blanks, with quotes removed.
pub open spec fn shell_words(cmd: Seq<char>) -> Seq<Seq<char>> {
    if has_shell_syntax(cmd) {
        seq![cmd]
    } else {
        let (words, cur, _sq, _dq) = split_state(cmd);
        if cur.len() > 0 {
            words.push(cur)
        } else {
            words
        }
    }
}

/// Very simple shell tokenizer: splits on whitespace, handling single and
/// double quotes. Good enough for Makefile recipe lines.
pub fn shell_split(cmd: &str) -> (tokens: Vec<String>)
    ensures
        views(tokens@) == shell_words(cmd@),
{
    let cs = to_chars(cmd);
    // If the command contains shell metacharacters, return it as a single
    // token to preserve intent.
    if has_infix(cs.as_slice(), "&&") || has_infix(cs.as_slice(), "||") || has_infix(
        cs.as_slice(),
        ">>",
    ) || index_of_char(cs.as_slice(), ';').is_some() || index_of_char(cs.as_slice(), '|').is_some() {
        let mut v: Vec<String> = Vec::new();
        v.push(copy_string(&String::from_str(cmd)));
        assert(views(v@) =~= seq![cmd@]);
        return v;
    }
    let mut tokens: Vec<String> = Vec::new();
    let mut current: Vec<char> = Vec::new();
    let mut in_single = false;
    let mut in_double = false;
    let mut i: usize = 0;
    while i < cs.len()
        invariant
            i <= cs@.len(),
            cs@ == cmd@,
            split_state(cmd@.take(i as int)) == (views(tokens@), current@, in_single, in_double),
        decreases cs@.len() - i,
    {
        assert(cmd@.take(i + 1).drop_last() =~= cmd@.take(i as int));
        assert(cmd@.take(i + 1).last() == cs@[i as int]);
        let ch = cs[i];
        if ch == '\'' && !in_double {
            in_single = !in_single;
        } else if ch == '"' && !in_single {
            in_double = !in_double;
        } else if (ch == ' ' || ch == '\t') && !in_single && !in_double {
            if current.len() > 0 {
                let ghost before = views(tokens@);
                let ghost word = current@;
                tokens.push(from_chars(current.as_slice()));
                assert(views(tokens@) =~= before.push(word));
                current = Vec::new();
                assert(current@ =~= Seq::<char>::empty());
            }
        } else {
            current.push(ch);
        }
        i = i + 1;
    }
    assert(cmd@.take(cs@.len() as int) =~= cmd@);
    if current.len() > 0 {
        let ghost before = views(tokens@);
        tokens.push(from_chars(current.as_slice()));
        assert(views(tokens@) =~= before.push(current@));
    }
    tokens
}


/// The name of the final component of `path` as `std::path::Path::file_name`
/// gives it: `None` when the path ends in `..`, is empty or is a root.
pub uninterp spec fn path_file_name(path: Seq<char>) -> Option<Seq<char>>;

/// `std::path::Path::file_name` of a text path, as text. Claimed: the result
/// is `path_file_name(path)`, a function of the text alone (the name of a
/// `&str` path is valid UTF-8, so the conversion back to text never fails).
#[verifier::external_body]
pub(crate) fn file_name_of_path(path: &str) -> (r: Option<String>)
    ensures
        crate::types::opt_view(r) == path_file_name(path@),
{
    std::path::Path::new(path).file_name().and_then(|n| n.to_str()).map(|n| n.to_string())
}

/// Programs whose presence as the first token of a command is flagged.
pub open spec fn dangerous_programs() -> Seq<Seq<char>> {
    seq![
        "sudo"@, "su"@, "doas"@, "pkexec"@,  // privilege escalation
        "chmod"@, "chown"@, "chgrp"@,  // permission changes
        "dd"@, "mkfs"@, "fdisk"@, "parted"@,  // disk operations
        "passwd"@, "useradd"@, "userdel"@, "usermod"@,  // user management
        "iptables"@, "ip6tables"@, "nft"@,  // firewall changes
        "mount"@, "umount"@,  // filesystem mounting
        "systemctl"@, "service"@,  // system service control
        "crontab"@,  // scheduled task modification
        "at"@,  // one-off scheduled commands
        "install"@,  // copies files + sets permissions/owner
    ]
}

/// Shell command fragments that are flagged when `shell = true`.
pub open spec fn dangerous_shell_patterns() -> Seq<Seq<char>> {
    seq![
        "rm -rf"@, "rm -fr"@, "rm -f /"@, "> /dev/"@, "> /etc/"@, "| sh"@, "| bash"@, "| zsh"@,
        "| sudo"@, "eval "@, ":(){:|:&};:"@,  // fork bomb
    ]
}

/// Argument prefixes that indicate a system path destination.
pub open spec fn dangerous_path_prefixes() -> Seq<Seq<char>> {
    seq![
        "/etc/"@, "/usr/"@, "/bin/"@, "/sbin/"@, "/boot/"@, "/sys/"@, "/proc/"@, "/lib/"@, "/lib64/"@,
    ]
}

/// The views of a sequence of string slices.
pub open spec fn str_views(v: Seq<&str>) -> Seq<Seq<char>> {
    v.map_values(|s: &str| s@)
}

fn dangerous_program_list() -> (v: Vec<&'static str>)
    ensures
        str_views(v@) == dangerous_programs(),
{
    let v = vec![
        "sudo", "su", "doas", "pkexec", "chmod", "chown", "chgrp", "dd", "mkfs", "fdisk", "parted",
        "passwd", "useradd", "userdel", "usermod", "iptables", "ip6tables", "nft", "mount", "umount",
        "systemctl", "service", "crontab", "at", "install",
    ];
    assert(str_views(v@) =~= dangerous_programs());
    v
}

fn dangerous_pattern_list() -> (v: Vec<&'static str>)
    ensures
        str_views(v@) == dangerous_shell_patterns(),
{
    let v = vec![
        "rm -rf", "rm -fr", "rm -f /", "> /dev/", "> /etc/", "| sh", "| bash", "| zsh", "| sudo",
        "eval ", ":(){:|:&};:",
    ];
    assert(str_views(v@) =~= dangerous_shell_patterns());
    v
}

fn dangerous_prefix_list() -> (v: Vec<&'static str>)
    ensures
        str_views(v@) == dangerous_path_prefixes(),
{
    let v = vec!["/etc/", "/usr/", "/bin/", "/sbin/", "/boot/", "/sys/", "/proc/", "/lib/", "/lib64/"];
    assert(str_views(v@) =~= dangerous_path_prefixes());
    v
}

/// Whether `s` equals one of `list`.
fn listed(list: &Vec<&'static str>, s: &str) -> (b: bool)
    ensures
        b == str_views(list@).contains(s@),
{
    let mut i: usize = 0;
    while i < list.len()
        invariant
            i <= list@.len(),
            forall|j: int| 0 <= j < i ==> (#[trigger] list@[j])@ != s@,
        decreases list@.len() - i,
    {
        if str_eq(list[i], s) {
            assert(str_views(list@)[i as int] == s@);
            return true;
        }
        i = i + 1;
    }
    proof {
        if str_views(list@).contains(s@) {
            let j = choose|j: int| 0 <= j < str_views(list@).len() && str_views(list@)[j] == s@;
            assert(list@[j]@ == s@);
        }
    }
    false
}

/// `arg` starts with one of the system path prefixes.
pub open spec fn system_path(arg: Seq<char>) -> bool {
    exists|k: int| 0 <= k < dangerous_path_prefixes().len() && starts_with(arg, #[trigger] dangerous_path_prefixes()[k])
}

/// The first position from `k` on, past the program, of an argument that
/// names a system path, or -1.
pub open spec fn first_system_arg(cmd: Seq<Seq<char>>, k: int) -> int
    decreases cmd.len() - k,
{
    if k < 1 || k >= cmd.len() {
        -1
    } else if system_path(cmd[k]) {
        k
    } else {
        first_system_arg(cmd, k + 1)
    }
}

/// The warnings for the shell patterns, from the `k`-th on, found in `text`.
pub open spec fn pattern_warnings(name: Seq<char>, text: Seq<char>, k: int) -> Seq<Seq<char>>
    decreases dangerous_shell_patterns().len() - k,
{
    if k < 0 || k >= dangerous_shell_patterns().len() {
        seq![]
    } else {
        let p = dangerous_shell_patterns()[k];
        (if contains_seq(text, p) {
            seq!["rule `"@ + name + "` contains `"@ + p + "` in a shell command"@]
        } else {
            seq![]
        }) + pattern_warnings(name, text, k + 1)
    }
}

/// Everything that makes one command of the rule named `name` dangerous,
/// in order: a dangerous program, then (for a non-shell rule) the first
/// argument under a system path, then (for a shell rule) each dangerous
/// pattern in the joined command. `file_name` is the final path component
/// of the command's first token; the program checked is that name, or the
/// token itself when it has none.
pub open spec fn command_findings(
    name: Seq<char>,
    shell: bool,
    cmd: Seq<Seq<char>>,
    file_name: Option<Seq<char>>,
) -> Seq<Seq<char>> {
    let prog = match file_name {
        Some(n) => n,
        None => cmd[0],
    };
    (if cmd.len() > 0 && dangerous_programs().contains(prog) {
        seq![
            "rule `"@ + name + "` runs `"@ + prog
                + "` which requires elevated privileges or modifies system state"@,
        ]
    } else {
        seq![]
    }) + (if !shell && first_system_arg(cmd, 1) >= 1 {
        seq!["rule `"@ + name + "` writes to system path `"@ + cmd[first_system_arg(cmd, 1)] + "`"@]
    } else {
        seq![]
    }) + if shell {
        pattern_warnings(name, crate::hash::join(cmd, ' '), 0)
    } else {
        seq![]
    }
}

/// The warning for one command: the first of its findings, so that each
/// offending command gets exactly one warning and a harmless one none.
pub open spec fn command_warnings_of(
    name: Seq<char>,
    shell: bool,
    cmd: Seq<Seq<char>>,
    file_name: Option<Seq<char>>,
) -> Seq<Seq<char>> {
    let f = command_findings(name, shell, cmd, file_name);
    if f.len() > 0 {
        seq![f[0]]
    } else {
        seq![]
    }
}

/// Whether `arg` starts with a system path prefix.
fn is_system_path(prefixes: &Vec<&'static str>, arg: &str) -> (b: bool)
    requires
        str_views(prefixes@) == dangerous_path_prefixes(),
    ensures
        b == system_path(arg@),
{
    let cs = to_chars(arg);
    let mut k: usize = 0;
    while k < prefixes.len()
        invariant
            k <= prefixes@.len(),
            str_views(prefixes@) == dangerous_path_prefixes(),
            cs@ == arg@,
            forall|j: int| 0 <= j < k ==> !starts_with(arg@, #[trigger] dangerous_path_prefixes()[j]),
        decreases prefixes@.len() - k,
    {
        assert(dangerous_path_prefixes()[k as int] == prefixes@[k as int]@);
        if has_prefix(cs.as_slice(), prefixes[k]) {
            return true;
        }
        k = k + 1;
    }
    false
}

/// The warning for one command, if it is dangerous, given the final path
/// component of its first token (`None` when it has no normal one).
pub fn command_warnings(name: &str, shell: bool, cmd: &Vec<String>, file_name: Option<&str>) -> (w: Vec<
    String,
>)
    ensures
        views(w@) == command_warnings_of(name@, shell, views(cmd@), opt_str_view(file_name)),
{
    let ghost c = views(cmd@);
    let mut w: Vec<String> = Vec::new();
    // Check first token against the dangerous programs list.
    if cmd.len() > 0 {
        let prog: &str = match file_name {
            Some(n) => n,
            None => cmd[0].as_str(),
        };
        if listed(&dangerous_program_list(), prog) {
            let m = String::from_str("rule `").concat(name).concat("` runs `").concat(prog).concat(
                "` which requires elevated privileges or modifies system state",
            );
            w.push(m);
        }
    }
    assert(views(w@) =~= (if c.len() > 0 && dangerous_programs().contains(
        match opt_str_view(file_name) {
            Some(n) => n,
            None => c[0],
        },
    ) {
        seq![
            "rule `"@ + name@ + "` runs `"@ + match opt_str_view(file_name) {
                Some(n) => n,
                None => c[0],
            } + "` which requires elevated privileges or modifies system state"@,
        ]
    } else {
        seq![]
    }));
    let ghost w1 = views(w@);
    // For non-shell commands, check arguments for system path destinations.
    if !shell {
        let prefixes = dangerous_prefix_list();
        let mut k: usize = 1;
        while k < cmd.len()
            invariant_except_break
                views(w@) == w1,
                first_system_arg(c, 1) == first_system_arg(c, k as int),
            invariant
                1 <= k,
                c == views(cmd@),
                str_views(prefixes@) == dangerous_path_prefixes(),
            ensures
                views(w@) == w1 + (if first_system_arg(c, 1) >= 1 {
                    seq!["rule `"@ + name@ + "` writes to system path `"@ + c[first_system_arg(c, 1)] + "`"@]
                } else {
                    seq![]
                }),
            decreases cmd@.len() - k,
        {
            assert(c[k as int] == cmd@[k as int]@);
            if is_system_path(&prefixes, cmd[k].as_str()) {
                let m = String::from_str("rule `").concat(name).concat("` writes to system path `").concat(
                    cmd[k].as_str(),
                ).concat("`");
                w.push(m);
                assert(first_system_arg(c, k as int) == k);
                assert(views(w@) =~= w1 + seq![m@]);
                break;
            }
            k = k + 1;
        }
    }
    let ghost w2 = views(w@);
    assert(shell ==> w2 =~= w1 + Seq::<Seq<char>>::empty());
    assert(w2 =~= w1 + (if !shell && first_system_arg(c, 1) >= 1 {
        seq!["rule `"@ + name@ + "` writes to system path `"@ + c[first_system_arg(c, 1)] + "`"@]
    } else {
        seq![]
    }));
    // For shell rules, scan the joined command string for dangerous patterns.
    if shell {
        let joined = crate::hash::join_with(cmd, ' ');
        let jc = to_chars(joined.as_str());
        let patterns = dangerous_pattern_list();
        let mut k: usize = 0;
        while k < patterns.len()
            invariant
                k <= patterns@.len(),
                str_views(patterns@) == dangerous_shell_patterns(),
                jc@ == crate::hash::join(c, ' '),
                views(w@) + pattern_warnings(name@, jc@, k as int) == w2 + pattern_warnings(
                    name@,
                    jc@,
                    0,
                ),
            decreases patterns@.len() - k,
        {
            let ghost before = views(w@);
            let p = patterns[k];
            assert(dangerous_shell_patterns()[k as int] == p@);
            if has_infix(jc.as_slice(), p) {
                let m = String::from_str("rule `").concat(name).concat("` contains `").concat(p).concat(
                    "` in a shell command",
                );
                w.push(m);
                assert(views(w@) =~= before.push(m@));
            }
            assert(views(w@) + pattern_warnings(name@, jc@, k + 1) =~= before + pattern_warnings(
                name@,
                jc@,
                k as int,
            ));
            k = k + 1;
        }
        assert(pattern_warnings(name@, jc@, patterns@.len() as int) =~= Seq::<Seq<char>>::empty());
        assert(views(w@) =~= views(w@) + Seq::<Seq<char>>::empty());
    } else {
        assert(w2 =~= w2 + Seq::<Seq<char>>::empty());
    }
    let ghost found = views(w@);
    assert(found == command_findings(name@, shell, c, opt_str_view(file_name)));
    // One warning per offending command is enough.
    w.truncate(1);
    assert(views(w@) =~= (if found.len() > 0 {
        seq![found[0]]
    } else {
        seq![]
    }));
    w
}


/// The final path component of a command's first token, if it has one.
pub open spec fn program_file_name(cmd: Seq<Seq<char>>) -> Option<Seq<char>> {
    if cmd.len() > 0 {
        path_file_name(cmd[0])
    } else {
        None
    }
}

/// The warnings for the commands `cmds` of the rule named `name`, in order.
pub open spec fn commands_warnings(name: Seq<char>, shell: bool, cmds: Seq<Seq<Seq<char>>>) -> Seq<
    Seq<char>,
>
    decreases cmds.len(),
{
    if cmds.len() == 0 {
        seq![]
    } else {
        commands_warnings(name, shell, cmds.drop_last()) + command_warnings_of(
            name,
            shell,
            cmds.last(),
            program_file_name(cmds.last()),
        )
    }
}

/// The warnings for every command of every rule, in order.
pub open spec fn warnings_of(rs: Seq<crate::types::RuleView>) -> Seq<Seq<char>>
    decreases rs.len(),
{
    if rs.len() == 0 {
        seq![]
    } else {
        warnings_of(rs.drop_last()) + commands_warnings(
            rs.last().target.1,
            rs.last().shell,
            rs.last().commands,
        )
    }
}

/// Check every rule's commands for dangerous patterns.
/// Returns a list of human-readable warnings (one per offending command).
pub fn safety_warnings(rules: &Vec<crate::types::Rule>) -> (w: Vec<String>)
    ensures
        views(w@) == warnings_of(crate::types::rule_views(rules@)),
{
    let ghost rs = crate::types::rule_views(rules@);
    let mut w: Vec<String> = Vec::new();
    let mut i: usize = 0;
    while i < rules.len()
        invariant
            i <= rules@.len(),
            rs == crate::types::rule_views(rules@),
            views(w@) == warnings_of(rs.take(i as int)),
        decreases rules@.len() - i,
    {
        let rule = &rules[i];
        let name = rule.target.name();
        let ghost cs = rule@.commands;
        let ghost w0 = views(w@);
        let mut j: usize = 0;
        while j < rule.commands.len()
            invariant
                j <= rule.commands@.len(),
                cs == rule@.commands,
                name@ == rule@.target.1,
                views(w@) == w0 + commands_warnings(name@, rule.shell, cs.take(j as int)),
            decreases rule.commands@.len() - j,
        {
            let cmd = &rule.commands[j];
            assert(cs[j as int] == views(cmd@));
            let fname: Option<String> = if cmd.len() > 0 {
                file_name_of_path(cmd[0].as_str())
            } else {
                None
            };
            let f: Option<&str> = match &fname {
                Some(n) => Some(n.as_str()),
                None => None,
            };
            assert(opt_str_view(f) == program_file_name(cs[j as int]));
            let more = command_warnings(name.as_str(), rule.shell, cmd, f);
            let ghost before = views(w@);
            crate::types::append_strings(&mut w, &more);
            assert(cs.take(j + 1).drop_last() =~= cs.take(j as int));
            assert(cs.take(j + 1).last() == cs[j as int]);
            assert(views(w@) =~= w0 + commands_warnings(name@, rule.shell, cs.take(j + 1)));
            j = j + 1;
        }
        assert(cs.take(rule.commands@.len() as int) =~= cs);
        assert(rs.take(i + 1).drop_last() =~= rs.take(i as int));
        assert(rs.take(i + 1).last() == rule@);
        i = i + 1;
    }
    assert(rs.take(rules@.len() as int) =~= rs);
    w
}

/// The warnings that stop a build: none when the commands are trusted
/// (`--trust`, or `trust = true` in `[config]`), else every safety warning
/// for the rules that would run.
pub fn refusals(rules: &Vec<crate::types::Rule>, trust_flag: bool, config_trust: bool) -> (w: Vec<String>)
    ensures
        views(w@) == if trust_flag || config_trust {
            Seq::<Seq<char>>::empty()
        } else {
            warnings_of(crate::types::rule_views(rules@))
        },
{
    if trust_flag || config_trust {
        let w: Vec<String> = Vec::new();
        assert(views(w@) =~= Seq::<Seq<char>>::empty());
        w
    } else {
        safety_warnings(rules)
    }
}

/// The kind of project a directory holds, from the files it has.
pub struct Project {
    pub cargo: bool,
    pub npm: bool,
    pub python: bool,
    pub go: bool,
}

/// The command suggested for a well-known rule name in a project.
pub open spec fn suggestion(name: Seq<char>, p: Project) -> Seq<char> {
    if name == "build"@ {
        if p.cargo { "cargo build"@ } else if p.npm { "npm run build"@ } else if p.python { "python -m build"@ } else if p.go { "go build ./..."@ } else { ""@ }
    } else if name == "test"@ || name == "tests"@ {
        if p.cargo { "cargo test"@ } else if p.npm { "npm test"@ } else if p.python { "python -m pytest"@ } else if p.go { "go test ./..."@ } else { ""@ }
    } else if name == "lint"@ || name == "check"@ {
        if p.cargo { "cargo clippy -- -D warnings"@ } else if p.npm { "npm run lint"@ } else if p.python { "ruff check ."@ } else if p.go { "golangci-lint run"@ } else { ""@ }
    } else if name == "fmt"@ || name == "format"@ {
        if p.cargo { "cargo fmt --all"@ } else if p.npm { "npm run format"@ } else if p.python { "ruff format ."@ } else if p.go { "gofmt -w ."@ } else { ""@ }
    } else if name == "clean"@ {
        if p.cargo { "cargo clean"@ } else if p.npm { "rm -rf node_modules dist"@ } else if p.go { "go clean ./..."@ } else { ""@ }
    } else if name == "run"@ || name == "serve"@ || name == "start"@ {
        if p.cargo { "cargo run"@ } else if p.npm { "npm start"@ } else if p.python { "python -m app"@ } else if p.go { "go run ."@ } else { ""@ }
    } else if name == "release"@ {
        if p.cargo { "cargo build --release"@ } else { ""@ }
    } else if name == "install"@ {
        if p.cargo { "cargo install --path ."@ } else if p.npm { "npm install"@ } else { ""@ }
    } else {
        ""@
    }
}

/// Guess a sensible default command for a well-known rule name given the project type.
pub fn suggest_command(name: &str, p: &Project) -> (c: &'static str)
    ensures
        c@ == suggestion(name@, *p),
{
    if str_eq(name, "build") {
        if p.cargo { "cargo build" } else if p.npm { "npm run build" } else if p.python { "python -m build" } else if p.go { "go build ./..." } else { "" }
    } else if str_eq(name, "test") || str_eq(name, "tests") {
        if p.cargo { "cargo test" } else if p.npm { "npm test" } else if p.python { "python -m pytest" } else if p.go { "go test ./..." } else { "" }
    } else if str_eq(name, "lint") || str_eq(name, "check") {
        if p.cargo { "cargo clippy -- -D warnings" } else if p.npm { "npm run lint" } else if p.python { "ruff check ." } else if p.go { "golangci-lint run" } else { "" }
    } else if str_eq(name, "fmt") || str_eq(name, "format") {
        if p.cargo { "cargo fmt --all" } else if p.npm { "npm run format" } else if p.python { "ruff format ." } else if p.go { "gofmt -w ." } else { "" }
    } else if str_eq(name, "clean") {
        if p.cargo { "cargo clean" } else if p.npm { "rm -rf node_modules dist" } else if p.go { "go clean ./..." } else { "" }
    } else if str_eq(name, "run") || str_eq(name, "serve") || str_eq(name, "start") {
        if p.cargo { "cargo run" } else if p.npm { "npm start" } else if p.python { "python -m app" } else if p.go { "go run ." } else { "" }
    } else if str_eq(name, "release") {
        if p.cargo { "cargo build --release" } else { "" }
    } else if str_eq(name, "install") {
        if p.cargo { "cargo install --path ." } else if p.npm { "npm install" } else { "" }
    } else {
        ""
    }
}

/// A shell that completion scripts exist for.
pub enum Shell {
    Fish,
    Bash,
    Zsh,
}

/// The completion script for `shell`, as `pbuild --completion` prints it.
pub open spec fn completion_script_of(shell: Shell) -> Seq<char> {
    match shell {
        Shell::Fish => "# pbuild fish completion\n# Install: pbuild --completion fish > ~/.config/fish/completions/pbuild.fish\n\nfunction __pbuild_targets\n    if test -f pbuild.toml\n        pbuild --list 2>/dev/null | string match -r '^\\s+\\S+' | string trim | string match -r '^\\S+'\n    end\nend\n\ncomplete -c pbuild -f\n\n# Flags\ncomplete -c pbuild -s j -l jobs        -d 'Max parallel rules' -x\ncomplete -c pbuild -s n -l dry-run     -d 'Print commands without running'\ncomplete -c pbuild -s q -l quiet       -d 'Suppress status lines'\ncomplete -c pbuild -l explain          -d 'Show expanded commands without running'\ncomplete -c pbuild -l version          -d 'Print version'\ncomplete -c pbuild -s k -l keep-going  -d 'Keep building after a failure'\ncomplete -c pbuild -s v -l verbose     -d 'Print skipped rules'\ncomplete -c pbuild -s l -l list        -d 'List all targets'\ncomplete -c pbuild -s h -l help        -d 'Print help'\ncomplete -c pbuild -s w -l watch       -d 'Rebuild on file changes'\ncomplete -c pbuild -l trust            -d 'Skip safety checks'\ncomplete -c pbuild -l only             -d 'Build target without its deps'\ncomplete -c pbuild -l detect           -d 'Auto-detect project type (use with init)'\ncomplete -c pbuild -l log              -d 'Tee output to a file' -r\ncomplete -c pbuild -s p -l profile    -d 'Activate a named profile' -x\ncomplete -c pbuild -l completion       -d 'Print completion script' -x -a 'fish bash zsh'\n\n# Special subcommands\ncomplete -c pbuild -n '__fish_is_first_arg' -a 'init'   -d 'Write starter pbuild.toml'\ncomplete -c pbuild -n '__fish_is_first_arg' -a 'import' -d 'Convert a Makefile to pbuild.toml'\ncomplete -c pbuild -n '__fish_is_first_arg' -a 'add'    -d 'Add a new rule'\ncomplete -c pbuild -n '__fish_is_first_arg' -a 'edit'   -d 'Open pbuild.toml at target in $EDITOR'\ncomplete -c pbuild -n '__fish_is_first_arg' -a 'run'    -d 'Build a target (explicit subcommand)'\ncomplete -c pbuild -n '__fish_is_first_arg' -a 'status' -d 'Show dirty/clean state'\ncomplete -c pbuild -n '__fish_is_first_arg' -a 'clean'  -d 'Delete outputs and lock file'\ncomplete -c pbuild -n '__fish_is_first_arg' -a 'touch'  -d 'Mark target clean without building'\ncomplete -c pbuild -n '__fish_is_first_arg' -a 'prune'  -d 'Remove stale lock file entries'\ncomplete -c pbuild -n '__fish_is_first_arg' -a 'why'    -d 'Explain why a target rebuilds'\ncomplete -c pbuild -n '__fish_is_first_arg' -a 'graph'  -d 'Print dependency graph'\ncomplete -c pbuild -n '__fish_is_first_arg' -a 'retry'  -d 'Re-run the last failed target'\ncomplete -c pbuild -n '__fish_is_first_arg' -a 'doctor' -d 'Check config health'\n\n# Targets from pbuild.toml\ncomplete -c pbuild -n '__fish_is_first_arg' -a '(__pbuild_targets)'\n"@,
        Shell::Bash => "# pbuild bash completion\n# Install: eval \"$(pbuild --completion bash)\"\n\n_pbuild_complete() {\n    local cur=\"${COMP_WORDS[COMP_CWORD]}\"\n    local prev=\"${COMP_WORDS[COMP_CWORD-1]}\"\n\n    case \"$prev\" in\n        -j|--jobs) return ;;\n        --log)     COMPREPLY=($(compgen -f -- \"$cur\")); return ;;\n        -p|--profile) return ;;\n        --completion) COMPREPLY=($(compgen -W \"fish bash zsh\" -- \"$cur\")); return ;;\n    esac\n\n    if [[ \"$cur\" == -* ]]; then\n        COMPREPLY=($(compgen -W \"\n            -j --jobs -n --dry-run -k --keep-going -v --verbose\n            -l --list -h --help -w --watch -p --profile\n            --trust --only --detect --log --completion\n            -q --quiet --explain --version\n        \" -- \"$cur\"))\n        return\n    fi\n\n    local targets=\"\"\n    if [[ -f pbuild.toml ]]; then\n        targets=$(pbuild --list 2>/dev/null | grep -oP '^\\s+\\K\\S+')\n    fi\n    COMPREPLY=($(compgen -W \"init import add edit run status clean touch prune retry doctor why graph $targets\" -- \"$cur\"))\n}\n\ncomplete -F _pbuild_complete pbuild\n"@,
        Shell::Zsh => "#compdef pbuild\n# pbuild zsh completion\n# Install: pbuild --completion zsh > \"${fpath[1]}/_pbuild\"\n\n_pbuild() {\n    local -a targets\n    if [[ -f pbuild.toml ]]; then\n        targets=(${(f)\"$(pbuild --list 2>/dev/null | grep -oP '^\\s+\\K\\S+')\"})\n    fi\n\n    _arguments \\\n        '(-j --jobs)'{-j,--jobs}'[Max parallel rules]:jobs' \\\n        '(-n --dry-run)'{-n,--dry-run}'[Print commands without running]' \\\n        '(-q --quiet)'{-q,--quiet}'[Suppress status lines]' \\\n        '--explain[Show expanded commands without running]' \\\n        '--version[Print version]' \\\n        '(-k --keep-going)'{-k,--keep-going}'[Keep building after failure]' \\\n        '(-v --verbose)'{-v,--verbose}'[Print skipped rules]' \\\n        '(-l --list)'{-l,--list}'[List all targets]' \\\n        '(-h --help)'{-h,--help}'[Print help]' \\\n        '(-w --watch)'{-w,--watch}'[Rebuild on file changes]' \\\n        '--trust[Skip safety checks]' \\\n        '--only[Build target without its deps]' \\\n        '--detect[Auto-detect project type (use with init)]' \\\n        '--log[Tee output to a file]:file:_files' \\\n        '(-p --profile)'{-p,--profile}'[Activate a named profile]:profile' \\\n        '--completion[Print completion script]:shell:(fish bash zsh)' \\\n        ':target:(init import add edit run status clean touch prune retry doctor why graph '\"${targets[@]}\"')'\n}\n\n_pbuild\n"@,
    }
}

/// The completion script for `shell`.
pub fn completion_script(shell: Shell) -> (s: String)
    ensures
        s@ == completion_script_of(shell),
{
    match shell {
        Shell::Fish => String::from_str("# pbuild fish completion\n# Install: pbuild --completion fish > ~/.config/fish/completions/pbuild.fish\n\nfunction __pbuild_targets\n    if test -f pbuild.toml\n        pbuild --list 2>/dev/null | string match -r '^\\s+\\S+' | string trim | string match -r '^\\S+'\n    end\nend\n\ncomplete -c pbuild -f\n\n# Flags\ncomplete -c pbuild -s j -l jobs        -d 'Max parallel rules' -x\ncomplete -c pbuild -s n -l dry-run     -d 'Print commands without running'\ncomplete -c pbuild -s q -l quiet       -d 'Suppress status lines'\ncomplete -c pbuild -l explain          -d 'Show expanded commands without running'\ncomplete -c pbuild -l version          -d 'Print version'\ncomplete -c pbuild -s k -l keep-going  -d 'Keep building after a failure'\ncomplete -c pbuild -s v -l verbose     -d 'Print skipped rules'\ncomplete -c pbuild -s l -l list        -d 'List all targets'\ncomplete -c pbuild -s h -l help        -d 'Print help'\ncomplete -c pbuild -s w -l watch       -d 'Rebuild on file changes'\ncomplete -c pbuild -l trust            -d 'Skip safety checks'\ncomplete -c pbuild -l only             -d 'Build target without its deps'\ncomplete -c pbuild -l detect           -d 'Auto-detect project type (use with init)'\ncomplete -c pbuild -l log              -d 'Tee output to a file' -r\ncomplete -c pbuild -s p -l profile    -d 'Activate a named profile' -x\ncomplete -c pbuild -l completion       -d 'Print completion script' -x -a 'fish bash zsh'\n\n# Special subcommands\ncomplete -c pbuild -n '__fish_is_first_arg' -a 'init'   -d 'Write starter pbuild.toml'\ncomplete -c pbuild -n '__fish_is_first_arg' -a 'import' -d 'Convert a Makefile to pbuild.toml'\ncomplete -c pbuild -n '__fish_is_first_arg' -a 'add'    -d 'Add a new rule'\ncomplete -c pbuild -n '__fish_is_first_arg' -a 'edit'   -d 'Open pbuild.toml at target in $EDITOR'\ncomplete -c pbuild -n '__fish_is_first_arg' -a 'run'    -d 'Build a target (explicit subcommand)'\ncomplete -c pbuild -n '__fish_is_first_arg' -a 'status' -d 'Show dirty/clean state'\ncomplete -c pbuild -n '__fish_is_first_arg' -a 'clean'  -d 'Delete outputs and lock file'\ncomplete -c pbuild -n '__fish_is_first_arg' -a 'touch'  -d 'Mark target clean without building'\ncomplete -c pbuild -n '__fish_is_first_arg' -a 'prune'  -d 'Remove stale lock file entries'\ncomplete -c pbuild -n '__fish_is_first_arg' -a 'why'    -d 'Explain why a target rebuilds'\ncomplete -c pbuild -n '__fish_is_first_arg' -a 'graph'  -d 'Print dependency graph'\ncomplete -c pbuild -n '__fish_is_first_arg' -a 'retry'  -d 'Re-run the last failed target'\ncomplete -c pbuild -n '__fish_is_first_arg' -a 'doctor' -d 'Check config health'\n\n# Targets from pbuild.toml\ncomplete -c pbuild -n '__fish_is_first_arg' -a '(__pbuild_targets)'\n"),
        Shell::Bash => String::from_str("# pbuild bash completion\n# Install: eval \"$(pbuild --completion bash)\"\n\n_pbuild_complete() {\n    local cur=\"${COMP_WORDS[COMP_CWORD]}\"\n    local prev=\"${COMP_WORDS[COMP_CWORD-1]}\"\n\n    case \"$prev\" in\n        -j|--jobs) return ;;\n        --log)     COMPREPLY=($(compgen -f -- \"$cur\")); return ;;\n        -p|--profile) return ;;\n        --completion) COMPREPLY=($(compgen -W \"fish bash zsh\" -- \"$cur\")); return ;;\n    esac\n\n    if [[ \"$cur\" == -* ]]; then\n        COMPREPLY=($(compgen -W \"\n            -j --jobs -n --dry-run -k --keep-going -v --verbose\n            -l --list -h --help -w --watch -p --profile\n            --trust --only --detect --log --completion\n            -q --quiet --explain --version\n        \" -- \"$cur\"))\n        return\n    fi\n\n    local targets=\"\"\n    if [[ -f pbuild.toml ]]; then\n        targets=$(pbuild --list 2>/dev/null | grep -oP '^\\s+\\K\\S+')\n    fi\n    COMPREPLY=($(compgen -W \"init import add edit run status clean touch prune retry doctor why graph $targets\" -- \"$cur\"))\n}\n\ncomplete -F _pbuild_complete pbuild\n"),
        Shell::Zsh => String::from_str("#compdef pbuild\n# pbuild zsh completion\n# Install: pbuild --completion zsh > \"${fpath[1]}/_pbuild\"\n\n_pbuild() {\n    local -a targets\n    if [[ -f pbuild.toml ]]; then\n        targets=(${(f)\"$(pbuild --list 2>/dev/null | grep -oP '^\\s+\\K\\S+')\"})\n    fi\n\n    _arguments \\\n        '(-j --jobs)'{-j,--jobs}'[Max parallel rules]:jobs' \\\n        '(-n --dry-run)'{-n,--dry-run}'[Print commands without running]' \\\n        '(-q --quiet)'{-q,--quiet}'[Suppress status lines]' \\\n        '--explain[Show expanded commands without running]' \\\n        '--version[Print version]' \\\n        '(-k --keep-going)'{-k,--keep-going}'[Keep building after failure]' \\\n        '(-v --verbose)'{-v,--verbose}'[Print skipped rules]' \\\n        '(-l --list)'{-l,--list}'[List all targets]' \\\n        '(-h --help)'{-h,--help}'[Print help]' \\\n        '(-w --watch)'{-w,--watch}'[Rebuild on file changes]' \\\n        '--trust[Skip safety checks]' \\\n        '--only[Build target without its deps]' \\\n        '--detect[Auto-detect project type (use with init)]' \\\n        '--log[Tee output to a file]:file:_files' \\\n        '(-p --profile)'{-p,--profile}'[Activate a named profile]:profile' \\\n        '--completion[Print completion script]:shell:(fish bash zsh)' \\\n        ':target:(init import add edit run status clean touch prune retry doctor why graph '\"${targets[@]}\"')'\n}\n\n_pbuild\n"),
    }
}

/// The completion shell named `name`, or the error for another name.
pub fn completion_shell(name: &str) -> (r: Result<Shell, String>)
    ensures
        match r {
            Ok(Shell::Fish) => name@ == "fish"@,
            Ok(Shell::Bash) => name@ == "bash"@,
            Ok(Shell::Zsh) => name@ == "zsh"@,
            Err(e) => name@ != "fish"@ && name@ != "bash"@ && name@ != "zsh"@ && e@ == "unknown shell `"@
                + name@ + "` — supported: fish, bash, zsh"@,
        },
{
    if str_eq(name, "fish") {
        Ok(Shell::Fish)
    } else if str_eq(name, "bash") {
        Ok(Shell::Bash)
    } else if str_eq(name, "zsh") {
        Ok(Shell::Zsh)
    } else {
        Err(String::from_str("unknown shell `").concat(name).concat("` — supported: fish, bash, zsh"))
    }
}


/// The options of a build invocation.
pub struct Args {
    /// Explicitly set via `-j`; `None` means "not set, defer to config or default".
    pub jobs: Option<usize>,
    pub dry_run: bool,
    pub verbose: bool,
    pub keep_going: bool,
    /// Suppress pbuild's own status lines; command output is still shown.
    pub quiet: bool,
    pub list: bool,
    pub help: bool,
    pub trust: bool,
    pub only: bool,
    pub watch: bool,
    pub detect: bool,
    /// Show what each rule of the plan would run, and run nothing.
    pub explain: bool,
    /// Print the version.
    pub version: bool,
    pub completion: Option<String>,
    pub log: Option<String>,
    pub profile: Option<String>,
    pub target: Option<String>,
    /// Every target named, in order (`target` is the last of them).
    pub targets: Vec<String>,
    /// Extra arguments passed after `--` on the command line.
    pub extra_args: Vec<String>,
}

/// The options of a build invocation, as values.
pub struct ArgsView {
    pub jobs: Option<usize>,
    pub dry_run: bool,
    pub verbose: bool,
    pub keep_going: bool,
    pub quiet: bool,
    pub list: bool,
    pub help: bool,
    pub trust: bool,
    pub only: bool,
    pub watch: bool,
    pub detect: bool,
    pub explain: bool,
    pub version: bool,
    pub completion: Option<Seq<char>>,
    pub log: Option<Seq<char>>,
    pub profile: Option<Seq<char>>,
    pub target: Option<Seq<char>>,
    pub targets: Seq<Seq<char>>,
    pub extra_args: Seq<Seq<char>>,
}

impl View for Args {
    type V = ArgsView;

    open spec fn view(&self) -> ArgsView {
        ArgsView {
            jobs: self.jobs,
            dry_run: self.dry_run,
            verbose: self.verbose,
            keep_going: self.keep_going,
            quiet: self.quiet,
            list: self.list,
            help: self.help,
            trust: self.trust,
            only: self.only,
            watch: self.watch,
            detect: self.detect,
            explain: self.explain,
            version: self.version,
            completion: crate::types::opt_view(self.completion),
            log: crate::types::opt_view(self.log),
            profile: crate::types::opt_view(self.profile),
            target: crate::types::opt_view(self.target),
            targets: views(self.targets@),
            extra_args: views(self.extra_args@),
        }
    }
}

/// No option given.
pub open spec fn no_args() -> ArgsView {
    ArgsView {
        jobs: None,
        dry_run: false,
        verbose: false,
        keep_going: false,
        quiet: false,
        list: false,
        help: false,
        trust: false,
        only: false,
        watch: false,
        detect: false,
        explain: false,
        version: false,
        completion: None,
        log: None,
        profile: None,
        target: None,
        targets: seq![],
        extra_args: seq![],
    }
}

/// `usize::from_str`.
pub open spec fn parse_usize(s: Seq<char>) -> Option<int> {
    match crate::config::parse_u64(s) {
        Some(v) => if v <= usize::MAX {
            Some(v)
        } else {
            None
        },
        None => None,
    }
}

/// One step of reading options.
pub enum ArgStep {
    /// Reading stops with these options.
    Done(ArgsView),
    /// Reading goes on at the given position with these options.
    Next(int, ArgsView),
    /// Reading fails with this message.
    Fail(Seq<char>),
}

/// The options that take no value: `a` with the one `arg` names set.
pub open spec fn switch_of(arg: Seq<char>, a: ArgsView) -> Option<ArgsView> {
    if arg == "-n"@ || arg == "--dry-run"@ {
        Some(ArgsView { dry_run: true, ..a })
    } else if arg == "-v"@ || arg == "--verbose"@ {
        Some(ArgsView { verbose: true, ..a })
    } else if arg == "-k"@ || arg == "--keep-going"@ {
        Some(ArgsView { keep_going: true, ..a })
    } else if arg == "-q"@ || arg == "--quiet"@ {
        Some(ArgsView { quiet: true, ..a })
    } else if arg == "-l"@ || arg == "--list"@ {
        Some(ArgsView { list: true, ..a })
    } else if arg == "-h"@ || arg == "--help"@ {
        Some(ArgsView { help: true, ..a })
    } else if arg == "--trust"@ {
        Some(ArgsView { trust: true, ..a })
    } else if arg == "--only"@ {
        Some(ArgsView { only: true, ..a })
    } else if arg == "-w"@ || arg == "--watch"@ {
        Some(ArgsView { watch: true, ..a })
    } else if arg == "--detect"@ {
        Some(ArgsView { detect: true, ..a })
    } else if arg == "--explain"@ {
        Some(ArgsView { explain: true, ..a })
    } else if arg == "--version"@ {
        Some(ArgsView { version: true, ..a })
    } else {
        None
    }
}

/// The switches are spelled differently from one another.
proof fn lemma_switch_names_distinct()
    ensures
        "-n"@ != "--dry-run"@,
        "-n"@ != "-v"@,
        "-n"@ != "--verbose"@,
        "-n"@ != "-k"@,
        "-n"@ != "--keep-going"@,
        "-n"@ != "-q"@,
        "-n"@ != "--quiet"@,
        "-n"@ != "-l"@,
        "-n"@ != "--list"@,
        "-n"@ != "-h"@,
        "-n"@ != "--help"@,
        "-n"@ != "--trust"@,
        "-n"@ != "--only"@,
        "-n"@ != "-w"@,
        "-n"@ != "--watch"@,
        "-n"@ != "--detect"@,
        "-n"@ != "--explain"@,
        "-n"@ != "--version"@,
        "--dry-run"@ != "-v"@,
        "--dry-run"@ != "--verbose"@,
        "--dry-run"@ != "-k"@,
        "--dry-run"@ != "--keep-going"@,
        "--dry-run"@ != "-q"@,
        "--dry-run"@ != "--quiet"@,
        "--dry-run"@ != "-l"@,
        "--dry-run"@ != "--list"@,
        "--dry-run"@ != "-h"@,
        "--dry-run"@ != "--help"@,
        "--dry-run"@ != "--trust"@,
        "--dry-run"@ != "--only"@,
        "--dry-run"@ != "-w"@,
        "--dry-run"@ != "--watch"@,
        "--dry-run"@ != "--detect"@,
        "--dry-run"@ != "--explain"@,
        "--dry-run"@ != "--version"@,
        "-v"@ != "--verbose"@,
        "-v"@ != "-k"@,
        "-v"@ != "--keep-going"@,
        "-v"@ != "-q"@,
        "-v"@ != "--quiet"@,
        "-v"@ != "-l"@,
        "-v"@ != "--list"@,
        "-v"@ != "-h"@,
        "-v"@ != "--help"@,
        "-v"@ != "--trust"@,
        "-v"@ != "--only"@,
        "-v"@ != "-w"@,
        "-v"@ != "--watch"@,
        "-v"@ != "--detect"@,
        "-v"@ != "--explain"@,
        "-v"@ != "--version"@,
        "--verbose"@ != "-k"@,
        "--verbose"@ != "--keep-going"@,
        "--verbose"@ != "-q"@,
        "--verbose"@ != "--quiet"@,
        "--verbose"@ != "-l"@,
        "--verbose"@ != "--list"@,
        "--verbose"@ != "-h"@,
        "--verbose"@ != "--help"@,
        "--verbose"@ != "--trust"@,
        "--verbose"@ != "--only"@,
        "--verbose"@ != "-w"@,
        "--verbose"@ != "--watch"@,
        "--verbose"@ != "--detect"@,
        "--verbose"@ != "--explain"@,
        "--verbose"@ != "--version"@,
        "-k"@ != "--keep-going"@,
        "-k"@ != "-q"@,
        "-k"@ != "--quiet"@,
        "-k"@ != "-l"@,
        "-k"@ != "--list"@,
        "-k"@ != "-h"@,
        "-k"@ != "--help"@,
        "-k"@ != "--trust"@,
        "-k"@ != "--only"@,
        "-k"@ != "-w"@,
        "-k"@ != "--watch"@,
        "-k"@ != "--detect"@,
        "-k"@ != "--explain"@,
        "-k"@ != "--version"@,
        "--keep-going"@ != "-q"@,
        "--keep-going"@ != "--quiet"@,
        "--keep-going"@ != "-l"@,
        "--keep-going"@ != "--list"@,
        "--keep-going"@ != "-h"@,
        "--keep-going"@ != "--help"@,
        "--keep-going"@ != "--trust"@,
        "--keep-going"@ != "--only"@,
        "--keep-going"@ != "-w"@,
        "--keep-going"@ != "--watch"@,
        "--keep-going"@ != "--detect"@,
        "--keep-going"@ != "--explain"@,
        "--keep-going"@ != "--version"@,
        "-q"@ != "--quiet"@,
        "-q"@ != "-l"@,
        "-q"@ != "--list"@,
        "-q"@ != "-h"@,
        "-q"@ != "--help"@,
        "-q"@ != "--trust"@,
        "-q"@ != "--only"@,
        "-q"@ != "-w"@,
        "-q"@ != "--watch"@,
        "-q"@ != "--detect"@,
        "-q"@ != "--explain"@,
        "-q"@ != "--version"@,
        "--quiet"@ != "-l"@,
        "--quiet"@ != "--list"@,
        "--quiet"@ != "-h"@,
        "--quiet"@ != "--help"@,
        "--quiet"@ != "--trust"@,
        "--quiet"@ != "--only"@,
        "--quiet"@ != "-w"@,
        "--quiet"@ != "--watch"@,
        "--quiet"@ != "--detect"@,
        "--quiet"@ != "--explain"@,
        "--quiet"@ != "--version"@,
        "-l"@ != "--list"@,
        "-l"@ != "-h"@,
        "-l"@ != "--help"@,
        "-l"@ != "--trust"@,
        "-l"@ != "--only"@,
        "-l"@ != "-w"@,
        "-l"@ != "--watch"@,
        "-l"@ != "--detect"@,
        "-l"@ != "--explain"@,
        "-l"@ != "--version"@,
        "--list"@ != "-h"@,
        "--list"@ != "--help"@,
        "--list"@ != "--trust"@,
        "--list"@ != "--only"@,
        "--list"@ != "-w"@,
        "--list"@ != "--watch"@,
        "--list"@ != "--detect"@,
        "--list"@ != "--explain"@,
        "--list"@ != "--version"@,
        "-h"@ != "--help"@,
        "-h"@ != "--trust"@,
        "-h"@ != "--only"@,
        "-h"@ != "-w"@,
        "-h"@ != "--watch"@,
        "-h"@ != "--detect"@,
        "-h"@ != "--explain"@,
        "-h"@ != "--version"@,
        "--help"@ != "--trust"@,
        "--help"@ != "--only"@,
        "--help"@ != "-w"@,
        "--help"@ != "--watch"@,
        "--help"@ != "--detect"@,
        "--help"@ != "--explain"@,
        "--help"@ != "--version"@,
        "--trust"@ != "--only"@,
        "--trust"@ != "-w"@,
        "--trust"@ != "--watch"@,
        "--trust"@ != "--detect"@,
        "--trust"@ != "--explain"@,
        "--trust"@ != "--version"@,
        "--only"@ != "-w"@,
        "--only"@ != "--watch"@,
        "--only"@ != "--detect"@,
        "--only"@ != "--explain"@,
        "--only"@ != "--version"@,
        "-w"@ != "--watch"@,
        "-w"@ != "--detect"@,
        "-w"@ != "--explain"@,
        "-w"@ != "--version"@,
        "--watch"@ != "--detect"@,
        "--watch"@ != "--explain"@,
        "--watch"@ != "--version"@,
        "--detect"@ != "--explain"@,
        "--detect"@ != "--version"@,
        "--explain"@ != "--version"@,
{
    reveal_strlit("-n");
    reveal_strlit("--dry-run");
    reveal_strlit("-v");
    reveal_strlit("--verbose");
    reveal_strlit("-k");
    reveal_strlit("--keep-going");
    reveal_strlit("-q");
    reveal_strlit("--quiet");
    reveal_strlit("-l");
    reveal_strlit("--list");
    reveal_strlit("-h");
    reveal_strlit("--help");
    reveal_strlit("--trust");
    reveal_strlit("--only");
    reveal_strlit("-w");
    reveal_strlit("--watch");
    reveal_strlit("--detect");
    reveal_strlit("--explain");
    reveal_strlit("--version");
    assert("-n"@ != "--dry-run"@) by { assert("-n"@.len() != "--dry-run"@.len()); }
    assert("-n"@ != "-v"@) by { assert("-n"@[1] != "-v"@[1]); }
    assert("-n"@ != "--verbose"@) by { assert("-n"@.len() != "--verbose"@.len()); }
    assert("-n"@ != "-k"@) by { assert("-n"@[1] != "-k"@[1]); }
    assert("-n"@ != "--keep-going"@) by { assert("-n"@.len() != "--keep-going"@.len()); }
    assert("-n"@ != "-q"@) by { assert("-n"@[1] != "-q"@[1]); }
    assert("-n"@ != "--quiet"@) by { assert("-n"@.len() != "--quiet"@.len()); }
    assert("-n"@ != "-l"@) by { assert("-n"@[1] != "-l"@[1]); }
    assert("-n"@ != "--list"@) by { assert("-n"@.len() != "--list"@.len()); }
    assert("-n"@ != "-h"@) by { assert("-n"@[1] != "-h"@[1]); }
    assert("-n"@ != "--help"@) by { assert("-n"@.len() != "--help"@.len()); }
    assert("-n"@ != "--trust"@) by { assert("-n"@.len() != "--trust"@.len()); }
    assert("-n"@ != "--only"@) by { assert("-n"@.len() != "--only"@.len()); }
    assert("-n"@ != "-w"@) by { assert("-n"@[1] != "-w"@[1]); }
    assert("-n"@ != "--watch"@) by { assert("-n"@.len() != "--watch"@.len()); }
    assert("-n"@ != "--detect"@) by { assert("-n"@.len() != "--detect"@.len()); }
    assert("-n"@ != "--explain"@) by { assert("-n"@.len() != "--explain"@.len()); }
    assert("-n"@ != "--version"@) by { assert("-n"@.len() != "--version"@.len()); }
    assert("--dry-run"@ != "-v"@) by { assert("--dry-run"@.len() != "-v"@.len()); }
    assert("--dry-run"@ != "--verbose"@) by { assert("--dry-run"@[2] != "--verbose"@[2]); }
    assert("--dry-run"@ != "-k"@) by { assert("--dry-run"@.len() != "-k"@.len()); }
    assert("--dry-run"@ != "--keep-going"@) by { assert("--dry-run"@.len() != "--keep-going"@.len()); }
    assert("--dry-run"@ != "-q"@) by { assert("--dry-run"@.len() != "-q"@.len()); }
    assert("--dry-run"@ != "--quiet"@) by { assert("--dry-run"@.len() != "--quiet"@.len()); }
    assert("--dry-run"@ != "-l"@) by { assert("--dry-run"@.len() != "-l"@.len()); }
    assert("--dry-run"@ != "--list"@) by { assert("--dry-run"@.len() != "--list"@.len()); }
    assert("--dry-run"@ != "-h"@) by { assert("--dry-run"@.len() != "-h"@.len()); }
    assert("--dry-run"@ != "--help"@) by { assert("--dry-run"@.len() != "--help"@.len()); }
    assert("--dry-run"@ != "--trust"@) by { assert("--dry-run"@.len() != "--trust"@.len()); }
    assert("--dry-run"@ != "--only"@) by { assert("--dry-run"@.len() != "--only"@.len()); }
    assert("--dry-run"@ != "-w"@) by { assert("--dry-run"@.len() != "-w"@.len()); }
    assert("--dry-run"@ != "--watch"@) by { assert("--dry-run"@.len() != "--watch"@.len()); }
    assert("--dry-run"@ != "--detect"@) by { assert("--dry-run"@.len() != "--detect"@.len()); }
    assert("--dry-run"@ != "--explain"@) by { assert("--dry-run"@[2] != "--explain"@[2]); }
    assert("--dry-run"@ != "--version"@) by { assert("--dry-run"@[2] != "--version"@[2]); }
    assert("-v"@ != "--verbose"@) by { assert("-v"@.len() != "--verbose"@.len()); }
    assert("-v"@ != "-k"@) by { assert("-v"@[1] != "-k"@[1]); }
    assert("-v"@ != "--keep-going"@) by { assert("-v"@.len() != "--keep-going"@.len()); }
    assert("-v"@ != "-q"@) by { assert("-v"@[1] != "-q"@[1]); }
    assert("-v"@ != "--quiet"@) by { assert("-v"@.len() != "--quiet"@.len()); }
    assert("-v"@ != "-l"@) by { assert("-v"@[1] != "-l"@[1]); }
    assert("-v"@ != "--list"@) by { assert("-v"@.len() != "--list"@.len()); }
    assert("-v"@ != "-h"@) by { assert("-v"@[1] != "-h"@[1]); }
    assert("-v"@ != "--help"@) by { assert("-v"@.len() != "--help"@.len()); }
    assert("-v"@ != "--trust"@) by { assert("-v"@.len() != "--trust"@.len()); }
    assert("-v"@ != "--only"@) by { assert("-v"@.len() != "--only"@.len()); }
    assert("-v"@ != "-w"@) by { assert("-v"@[1] != "-w"@[1]); }
    assert("-v"@ != "--watch"@) by { assert("-v"@.len() != "--watch"@.len()); }
    assert("-v"@ != "--detect"@) by { assert("-v"@.len() != "--detect"@.len()); }
    assert("-v"@ != "--explain"@) by { assert("-v"@.len() != "--explain"@.len()); }
    assert("-v"@ != "--version"@) by { assert("-v"@.len() != "--version"@.len()); }
    assert("--verbose"@ != "-k"@) by { assert("--verbose"@.len() != "-k"@.len()); }
    assert("--verbose"@ != "--keep-going"@) by { assert("--verbose"@.len() != "--keep-going"@.len()); }
    assert("--verbose"@ != "-q"@) by { assert("--verbose"@.len() != "-q"@.len()); }
    assert("--verbose"@ != "--quiet"@) by { assert("--verbose"@.len() != "--quiet"@.len()); }
    assert("--verbose"@ != "-l"@) by { assert("--verbose"@.len() != "-l"@.len()); }
    assert("--verbose"@ != "--list"@) by { assert("--verbose"@.len() != "--list"@.len()); }
    assert("--verbose"@ != "-h"@) by { assert("--verbose"@.len() != "-h"@.len()); }
    assert("--verbose"@ != "--help"@) by { assert("--verbose"@.len() != "--help"@.len()); }
    assert("--verbose"@ != "--trust"@) by { assert("--verbose"@.len() != "--trust"@.len()); }
    assert("--verbose"@ != "--only"@) by { assert("--verbose"@.len() != "--only"@.len()); }
    assert("--verbose"@ != "-w"@) by { assert("--verbose"@.len() != "-w"@.len()); }
    assert("--verbose"@ != "--watch"@) by { assert("--verbose"@.len() != "--watch"@.len()); }
    assert("--verbose"@ != "--detect"@) by { assert("--verbose"@.len() != "--detect"@.len()); }
    assert("--verbose"@ != "--explain"@) by { assert("--verbose"@[2] != "--explain"@[2]); }
    assert("--verbose"@ != "--version"@) by { assert("--verbose"@[5] != "--version"@[5]); }
    assert("-k"@ != "--keep-going"@) by { assert("-k"@.len() != "--keep-going"@.len()); }
    assert("-k"@ != "-q"@) by { assert("-k"@[1] != "-q"@[1]); }
    assert("-k"@ != "--quiet"@) by { assert("-k"@.len() != "--quiet"@.len()); }
    assert("-k"@ != "-l"@) by { assert("-k"@[1] != "-l"@[1]); }
    assert("-k"@ != "--list"@) by { assert("-k"@.len() != "--list"@.len()); }
    assert("-k"@ != "-h"@) by { assert("-k"@[1] != "-h"@[1]); }
    assert("-k"@ != "--help"@) by { assert("-k"@.len() != "--help"@.len()); }
    assert("-k"@ != "--trust"@) by { assert("-k"@.len() != "--trust"@.len()); }
    assert("-k"@ != "--only"@) by { assert("-k"@.len() != "--only"@.len()); }
    assert("-k"@ != "-w"@) by { assert("-k"@[1] != "-w"@[1]); }
    assert("-k"@ != "--watch"@) by { assert("-k"@.len() != "--watch"@.len()); }
    assert("-k"@ != "--detect"@) by { assert("-k"@.len() != "--detect"@.len()); }
    assert("-k"@ != "--explain"@) by { assert("-k"@.len() != "--explain"@.len()); }
    assert("-k"@ != "--version"@) by { assert("-k"@.len() != "--version"@.len()); }
    assert("--keep-going"@ != "-q"@) by { assert("--keep-going"@.len() != "-q"@.len()); }
    assert("--keep-going"@ != "--quiet"@) by { assert("--keep-going"@.len() != "--quiet"@.len()); }
    assert("--keep-going"@ != "-l"@) by { assert("--keep-going"@.len() != "-l"@.len()); }
    assert("--keep-going"@ != "--list"@) by { assert("--keep-going"@.len() != "--list"@.len()); }
    assert("--keep-going"@ != "-h"@) by { assert("--keep-going"@.len() != "-h"@.len()); }
    assert("--keep-going"@ != "--help"@) by { assert("--keep-going"@.len() != "--help"@.len()); }
    assert("--keep-going"@ != "--trust"@) by { assert("--keep-going"@.len() != "--trust"@.len()); }
    assert("--keep-going"@ != "--only"@) by { assert("--keep-going"@.len() != "--only"@.len()); }
    assert("--keep-going"@ != "-w"@) by { assert("--keep-going"@.len() != "-w"@.len()); }
    assert("--keep-going"@ != "--watch"@) by { assert("--keep-going"@.len() != "--watch"@.len()); }
    assert("--keep-going"@ != "--detect"@) by { assert("--keep-going"@.len() != "--detect"@.len()); }
    assert("--keep-going"@ != "--explain"@) by { assert("--keep-going"@.len() != "--explain"@.len()); }
    assert("--keep-going"@ != "--version"@) by { assert("--keep-going"@.len() != "--version"@.len()); }
    assert("-q"@ != "--quiet"@) by { assert("-q"@.len() != "--quiet"@.len()); }
    assert("-q"@ != "-l"@) by { assert("-q"@[1] != "-l"@[1]); }
    assert("-q"@ != "--list"@) by { assert("-q"@.len() != "--list"@.len()); }
    assert("-q"@ != "-h"@) by { assert("-q"@[1] != "-h"@[1]); }
    assert("-q"@ != "--help"@) by { assert("-q"@.len() != "--help"@.len()); }
    assert("-q"@ != "--trust"@) by { assert("-q"@.len() != "--trust"@.len()); }
    assert("-q"@ != "--only"@) by { assert("-q"@.len() != "--only"@.len()); }
    assert("-q"@ != "-w"@) by { assert("-q"@[1] != "-w"@[1]); }
    assert("-q"@ != "--watch"@) by { assert("-q"@.len() != "--watch"@.len()); }
    assert("-q"@ != "--detect"@) by { assert("-q"@.len() != "--detect"@.len()); }
    assert("-q"@ != "--explain"@) by { assert("-q"@.len() != "--explain"@.len()); }
    assert("-q"@ != "--version"@) by { assert("-q"@.len() != "--version"@.len()); }
    assert("--quiet"@ != "-l"@) by { assert("--quiet"@.len() != "-l"@.len()); }
    assert("--quiet"@ != "--list"@) by { assert("--quiet"@.len() != "--list"@.len()); }
    assert("--quiet"@ != "-h"@) by { assert("--quiet"@.len() != "-h"@.len()); }
    assert("--quiet"@ != "--help"@) by { assert("--quiet"@.len() != "--help"@.len()); }
    assert("--quiet"@ != "--trust"@) by { assert("--quiet"@[2] != "--trust"@[2]); }
    assert("--quiet"@ != "--only"@) by { assert("--quiet"@.len() != "--only"@.len()); }
    assert("--quiet"@ != "-w"@) by { assert("--quiet"@.len() != "-w"@.len()); }
    assert("--quiet"@ != "--watch"@) by { assert("--quiet"@[2] != "--watch"@[2]); }
    assert("--quiet"@ != "--detect"@) by { assert("--quiet"@.len() != "--detect"@.len()); }
    assert("--quiet"@ != "--explain"@) by { assert("--quiet"@.len() != "--explain"@.len()); }
    assert("--quiet"@ != "--version"@) by { assert("--quiet"@.len() != "--version"@.len()); }
    assert("-l"@ != "--list"@) by { assert("-l"@.len() != "--list"@.len()); }
    assert("-l"@ != "-h"@) by { assert("-l"@[1] != "-h"@[1]); }
    assert("-l"@ != "--help"@) by { assert("-l"@.len() != "--help"@.len()); }
    assert("-l"@ != "--trust"@) by { assert("-l"@.len() != "--trust"@.len()); }
    assert("-l"@ != "--only"@) by { assert("-l"@.len() != "--only"@.len()); }
    assert("-l"@ != "-w"@) by { assert("-l"@[1] != "-w"@[1]); }
    assert("-l"@ != "--watch"@) by { assert("-l"@.len() != "--watch"@.len()); }
    assert("-l"@ != "--detect"@) by { assert("-l"@.len() != "--detect"@.len()); }
    assert("-l"@ != "--explain"@) by { assert("-l"@.len() != "--explain"@.len()); }
    assert("-l"@ != "--version"@) by { assert("-l"@.len() != "--version"@.len()); }
    assert("--list"@ != "-h"@) by { assert("--list"@.len() != "-h"@.len()); }
    assert("--list"@ != "--help"@) by { assert("--list"@[2] != "--help"@[2]); }
    assert("--list"@ != "--trust"@) by { assert("--list"@.len() != "--trust"@.len()); }
    assert("--list"@ != "--only"@) by { assert("--list"@[2] != "--only"@[2]); }
    assert("--list"@ != "-w"@) by { assert("--list"@.len() != "-w"@.len()); }
    assert("--list"@ != "--watch"@) by { assert("--list"@.len() != "--watch"@.len()); }
    assert("--list"@ != "--detect"@) by { assert("--list"@.len() != "--detect"@.len()); }
    assert("--list"@ != "--explain"@) by { assert("--list"@.len() != "--explain"@.len()); }
    assert("--list"@ != "--version"@) by { assert("--list"@.len() != "--version"@.len()); }
    assert("-h"@ != "--help"@) by { assert("-h"@.len() != "--help"@.len()); }
    assert("-h"@ != "--trust"@) by { assert("-h"@.len() != "--trust"@.len()); }
    assert("-h"@ != "--only"@) by { assert("-h"@.len() != "--only"@.len()); }
    assert("-h"@ != "-w"@) by { assert("-h"@[1] != "-w"@[1]); }
    assert("-h"@ != "--watch"@) by { assert("-h"@.len() != "--watch"@.len()); }
    assert("-h"@ != "--detect"@) by { assert("-h"@.len() != "--detect"@.len()); }
    assert("-h"@ != "--explain"@) by { assert("-h"@.len() != "--explain"@.len()); }
    assert("-h"@ != "--version"@) by { assert("-h"@.len() != "--version"@.len()); }
    assert("--help"@ != "--trust"@) by { assert("--help"@.len() != "--trust"@.len()); }
    assert("--help"@ != "--only"@) by { assert("--help"@[2] != "--only"@[2]); }
    assert("--help"@ != "-w"@) by { assert("--help"@.len() != "-w"@.len()); }
    assert("--help"@ != "--watch"@) by { assert("--help"@.len() != "--watch"@.len()); }
    assert("--help"@ != "--detect"@) by { assert("--help"@.len() != "--detect"@.len()); }
    assert("--help"@ != "--explain"@) by { assert("--help"@.len() != "--explain"@.len()); }
    assert("--help"@ != "--version"@) by { assert("--help"@.len() != "--version"@.len()); }
    assert("--trust"@ != "--only"@) by { assert("--trust"@.len() != "--only"@.len()); }
    assert("--trust"@ != "-w"@) by { assert("--trust"@.len() != "-w"@.len()); }
    assert("--trust"@ != "--watch"@) by { assert("--trust"@[2] != "--watch"@[2]); }
    assert("--trust"@ != "--detect"@) by { assert("--trust"@.len() != "--detect"@.len()); }
    assert("--trust"@ != "--explain"@) by { assert("--trust"@.len() != "--explain"@.len()); }
    assert("--trust"@ != "--version"@) by { assert("--trust"@.len() != "--version"@.len()); }
    assert("--only"@ != "-w"@) by { assert("--only"@.len() != "-w"@.len()); }
    assert("--only"@ != "--watch"@) by { assert("--only"@.len() != "--watch"@.len()); }
    assert("--only"@ != "--detect"@) by { assert("--only"@.len() != "--detect"@.len()); }
    assert("--only"@ != "--explain"@) by { assert("--only"@.len() != "--explain"@.len()); }
    assert("--only"@ != "--version"@) by { assert("--only"@.len() != "--version"@.len()); }
    assert("-w"@ != "--watch"@) by { assert("-w"@.len() != "--watch"@.len()); }
    assert("-w"@ != "--detect"@) by { assert("-w"@.len() != "--detect"@.len()); }
    assert("-w"@ != "--explain"@) by { assert("-w"@.len() != "--explain"@.len()); }
    assert("-w"@ != "--version"@) by { assert("-w"@.len() != "--version"@.len()); }
    assert("--watch"@ != "--detect"@) by { assert("--watch"@.len() != "--detect"@.len()); }
    assert("--watch"@ != "--explain"@) by { assert("--watch"@.len() != "--explain"@.len()); }
    assert("--watch"@ != "--version"@) by { assert("--watch"@.len() != "--version"@.len()); }
    assert("--detect"@ != "--explain"@) by { assert("--detect"@.len() != "--explain"@.len()); }
    assert("--detect"@ != "--version"@) by { assert("--detect"@.len() != "--version"@.len()); }
    assert("--explain"@ != "--version"@) by { assert("--explain"@[2] != "--version"@[2]); }
}

/// Each switch sets its own option and nothing else, and a long switch
/// does exactly what its short form does: `--dry-run` as `-n`,
/// `--verbose` as `-v`, `--keep-going` as `-k`, `--quiet` as `-q`,
/// `--list` as `-l`, `--help` as `-h`, `--watch` as `-w`. So no switch,
/// long or short, is taken for a target.
pub proof fn lemma_switches_set_their_option(a: ArgsView)
    ensures
        switch_of("-n"@, a) == Some(ArgsView { dry_run: true, ..a }),
        switch_of("--dry-run"@, a) == switch_of("-n"@, a),
        switch_of("-v"@, a) == Some(ArgsView { verbose: true, ..a }),
        switch_of("--verbose"@, a) == switch_of("-v"@, a),
        switch_of("-k"@, a) == Some(ArgsView { keep_going: true, ..a }),
        switch_of("--keep-going"@, a) == switch_of("-k"@, a),
        switch_of("-q"@, a) == Some(ArgsView { quiet: true, ..a }),
        switch_of("--quiet"@, a) == switch_of("-q"@, a),
        switch_of("-l"@, a) == Some(ArgsView { list: true, ..a }),
        switch_of("--list"@, a) == switch_of("-l"@, a),
        switch_of("-h"@, a) == Some(ArgsView { help: true, ..a }),
        switch_of("--help"@, a) == switch_of("-h"@, a),
        switch_of("-w"@, a) == Some(ArgsView { watch: true, ..a }),
        switch_of("--watch"@, a) == switch_of("-w"@, a),
        switch_of("--trust"@, a) == Some(ArgsView { trust: true, ..a }),
        switch_of("--only"@, a) == Some(ArgsView { only: true, ..a }),
        switch_of("--detect"@, a) == Some(ArgsView { detect: true, ..a }),
        switch_of("--explain"@, a) == Some(ArgsView { explain: true, ..a }),
        switch_of("--version"@, a) == Some(ArgsView { version: true, ..a }),
{
    lemma_switch_names_distinct();
}

/// What the option at `argv[i]` does to `a`.
pub open spec fn arg_step(argv: Seq<Seq<char>>, i: int, a: ArgsView) -> ArgStep {
    let arg = argv[i];
    if arg == "--"@ {
        ArgStep::Done(ArgsView { extra_args: argv.skip(i + 1), ..a })
    } else if switch_of(arg, a) is Some {
        ArgStep::Next(i + 1, switch_of(arg, a)->Some_0)
    } else {
        valued_step(argv, i, a)
    }
}

/// What an option that takes a value, or the target, at `argv[i]` does to `a`.
pub open spec fn valued_step(argv: Seq<Seq<char>>, i: int, a: ArgsView) -> ArgStep {
    match setting_at(argv, i) {
        Ok((j, st)) => ArgStep::Next(j, applied(a, st)),
        Err(e) => ArgStep::Fail(e),
    }
}

/// An option value, or the target.
pub enum SettingView {
    Completion(Seq<char>),
    Log(Seq<char>),
    Profile(Seq<char>),
    Jobs(usize),
    Target(Seq<char>),
}

/// The options `a` with the setting `st` made.
pub open spec fn applied(a: ArgsView, st: SettingView) -> ArgsView {
    match st {
        SettingView::Completion(v) => ArgsView { completion: Some(v), ..a },
        SettingView::Log(v) => ArgsView { log: Some(v), ..a },
        SettingView::Profile(v) => ArgsView { profile: Some(v), ..a },
        SettingView::Jobs(n) => ArgsView { jobs: Some(n), ..a },
        SettingView::Target(v) => ArgsView { target: Some(v), targets: a.targets.push(v), ..a },
    }
}

/// What the option with a value (or the target) at `argv[i]` sets, and
/// where reading goes on; or the error for a missing or bad value.
pub open spec fn setting_at(argv: Seq<Seq<char>>, i: int) -> Result<(int, SettingView), Seq<char>> {
    let arg = argv[i];
    if arg == "--completion"@ {
        if i + 1 < argv.len() {
            Ok((i + 2, SettingView::Completion(argv[i + 1])))
        } else {
            Err("--completion requires a shell (fish, bash, zsh)"@)
        }
    } else if arg == "--log"@ {
        if i + 1 < argv.len() {
            Ok((i + 2, SettingView::Log(argv[i + 1])))
        } else {
            Err("--log requires a file path"@)
        }
    } else if arg == "--profile"@ || arg == "-p"@ {
        if i + 1 < argv.len() {
            Ok((i + 2, SettingView::Profile(argv[i + 1])))
        } else {
            Err("--profile requires a name"@)
        }
    } else if arg == "-j"@ || arg == "--jobs"@ {
        if i + 1 < argv.len() {
            match parse_usize(argv[i + 1]) {
                Some(n) => Ok((i + 2, SettingView::Jobs(n as usize))),
                None => Err("-j requires a positive integer"@),
            }
        } else {
            Err("-j requires a value"@)
        }
    } else if starts_with(arg, "-j"@) {
        match parse_usize(arg.skip("-j"@.len() as int)) {
            Some(n) => Ok((i + 1, SettingView::Jobs(n as usize))),
            None => Err("-j requires a positive integer"@),
        }
    } else {
        Ok((i + 1, SettingView::Target(arg)))
    }
}

/// The options read from `argv[i..]` on top of `a`, or the error for a
/// missing or bad option value. `--` passes everything after it on as
/// extra arguments; a word that is no option is the target (the last one
/// wins).
pub open spec fn args_from(argv: Seq<Seq<char>>, i: int, a: ArgsView) -> Result<ArgsView, Seq<char>>
    decreases argv.len() - i,
{
    if i < 0 || i >= argv.len() {
        Ok(a)
    } else {
        match arg_step(argv, i, a) {
            ArgStep::Done(b) => Ok(b),
            ArgStep::Fail(e) => Err(e),
            ArgStep::Next(j, b) => if i < j {
                args_from(argv, j, b)
            } else {
                Ok(b)
            },
        }
    }
}

/// The options of `argv` (the arguments after the program name); a
/// leading `run` is an alias that is skipped.
pub open spec fn args_of(argv: Seq<Seq<char>>) -> Result<ArgsView, Seq<char>> {
    if argv.len() > 0 && argv[0] == "run"@ {
        args_from(argv, 1, no_args())
    } else {
        args_from(argv, 0, no_args())
    }
}

/// `usize::from_str` on text.
fn parse_usize_exec(s: &[char]) -> (r: Option<usize>)
    ensures
        match r {
            Some(n) => parse_usize(s@) == Some(n as int),
            None => parse_usize(s@) is None,
        },
{
    match crate::config::parse_u64_exec(s) {
        Some(v) => if v <= usize::MAX as u64 {
            Some(v as usize)
        } else {
            None
        },
        None => None,
    }
}

/// A copy of the options.
fn copy_args(a: &Args) -> (b: Args)
    ensures
        b@ == a@,
{
    Args {
        jobs: a.jobs,
        dry_run: a.dry_run,
        verbose: a.verbose,
        keep_going: a.keep_going,
        quiet: a.quiet,
        list: a.list,
        help: a.help,
        trust: a.trust,
        only: a.only,
        watch: a.watch,
        detect: a.detect,
        explain: a.explain,
        version: a.version,
        completion: crate::types::copy_opt(&a.completion),
        log: crate::types::copy_opt(&a.log),
        profile: crate::types::copy_opt(&a.profile),
        target: crate::types::copy_opt(&a.target),
        targets: crate::types::copy_strings(&a.targets),
        extra_args: crate::types::copy_strings(&a.extra_args),
    }
}

/// The outcome of one step, executably.
enum Stepped {
    Done(Args),
    Next(usize, Args),
    Fail(String),
}

/// The options that take no value, executably.
#[verifier::rlimit(60)]
#[verifier::spinoff_prover]
fn read_switch(arg: &str, a: &Args) -> (r: Option<Args>)
    ensures
        match r {
            Some(b) => switch_of(arg@, a@) == Some(b@),
            None => switch_of(arg@, a@) is None,
        },
{
    let mut b = copy_args(a);
    if str_eq(arg, "-n") || str_eq(arg, "--dry-run") {
        b.dry_run = true;
        return Some(b);
    }
    if str_eq(arg, "-v") || str_eq(arg, "--verbose") {
        b.verbose = true;
        return Some(b);
    }
    if str_eq(arg, "-k") || str_eq(arg, "--keep-going") {
        b.keep_going = true;
        return Some(b);
    }
    if str_eq(arg, "-q") || str_eq(arg, "--quiet") {
        b.quiet = true;
        return Some(b);
    }
    if str_eq(arg, "-l") || str_eq(arg, "--list") {
        b.list = true;
        return Some(b);
    }
    if str_eq(arg, "-h") || str_eq(arg, "--help") {
        b.help = true;
        return Some(b);
    }
    if str_eq(arg, "--trust") {
        b.trust = true;
        return Some(b);
    }
    if str_eq(arg, "--only") {
        b.only = true;
        return Some(b);
    }
    if str_eq(arg, "-w") || str_eq(arg, "--watch") {
        b.watch = true;
        return Some(b);
    }
    if str_eq(arg, "--detect") {
        b.detect = true;
        return Some(b);
    }
    if str_eq(arg, "--explain") {
        b.explain = true;
        return Some(b);
    }
    if str_eq(arg, "--version") {
        b.version = true;
        return Some(b);
    }
    None
}

/// An option value, or the target, executably.
enum Setting {
    Completion(String),
    Log(String),
    Profile(String),
    Jobs(usize),
    Target(String),
}

impl Setting {
    spec fn view(&self) -> SettingView {
        match self {
            Setting::Completion(v) => SettingView::Completion(v@),
            Setting::Log(v) => SettingView::Log(v@),
            Setting::Profile(v) => SettingView::Profile(v@),
            Setting::Jobs(n) => SettingView::Jobs(*n),
            Setting::Target(v) => SettingView::Target(v@),
        }
    }
}

/// Read an option that takes a value, or the target, at `argv[i]`.
fn read_setting(argv: &Vec<String>, i: usize) -> (r: Result<(usize, Setting), String>)
    requires
        i < argv@.len(),
    ensures
        match (r, setting_at(views(argv@), i as int)) {
            (Ok((j, st)), Ok((k, sv))) => j == k && st.view() == sv && i < j <= argv@.len(),
            (Err(e), Err(ev)) => e@ == ev,
            _ => false,
        },
{
    let ghost v = views(argv@);
    let n = argv.len();
    let arg = argv[i].as_str();
    assert(v[i as int] == arg@);
    if str_eq(arg, "--completion") {
        if i + 1 >= n {
            return Err(String::from_str("--completion requires a shell (fish, bash, zsh)"));
        }
        assert(v[i + 1] == argv@[i + 1]@);
        return Ok((i + 2, Setting::Completion(copy_string(&argv[i + 1]))));
    }
    if str_eq(arg, "--log") {
        if i + 1 >= n {
            return Err(String::from_str("--log requires a file path"));
        }
        assert(v[i + 1] == argv@[i + 1]@);
        return Ok((i + 2, Setting::Log(copy_string(&argv[i + 1]))));
    }
    if str_eq(arg, "--profile") || str_eq(arg, "-p") {
        if i + 1 >= n {
            return Err(String::from_str("--profile requires a name"));
        }
        assert(v[i + 1] == argv@[i + 1]@);
        return Ok((i + 2, Setting::Profile(copy_string(&argv[i + 1]))));
    }
    if str_eq(arg, "-j") || str_eq(arg, "--jobs") {
        if i + 1 >= n {
            return Err(String::from_str("-j requires a value"));
        }
        assert(v[i + 1] == argv@[i + 1]@);
        let cs = to_chars(argv[i + 1].as_str());
        return match parse_usize_exec(cs.as_slice()) {
            Some(j) => Ok((i + 2, Setting::Jobs(j))),
            None => Err(String::from_str("-j requires a positive integer")),
        };
    }
    let cs = to_chars(arg);
    if has_prefix(cs.as_slice(), "-j") {
        let k = "-j".unicode_len();
        let rest = sub_chars(cs.as_slice(), k, cs.len());
        assert(rest@ =~= arg@.skip(k as int));
        return match parse_usize_exec(rest.as_slice()) {
            Some(j) => Ok((i + 1, Setting::Jobs(j))),
            None => Err(String::from_str("-j requires a positive integer")),
        };
    }
    Ok((i + 1, Setting::Target(copy_string(&argv[i]))))
}

/// The options `a` with the setting `st` made.
#[verifier::rlimit(60)]
#[verifier::spinoff_prover]
fn apply_setting(a: &Args, st: Setting) -> (b: Args)
    ensures
        b@ == applied(a@, st.view()),
{
    let mut b = copy_args(a);
    match st {
        Setting::Completion(v) => b.completion = Some(v),
        Setting::Log(v) => b.log = Some(v),
        Setting::Profile(v) => b.profile = Some(v),
        Setting::Jobs(n) => b.jobs = Some(n),
        Setting::Target(v) => {
            let ghost before = views(b.targets@);
            b.targets.push(copy_string(&v));
            assert(views(b.targets@) =~= before.push(v@));
            b.target = Some(v);
        },
    }
    b
}

/// Read the option at `argv[i]`.
fn read_option(argv: &Vec<String>, i: usize, a: &Args) -> (r: Stepped)
    requires
        i < argv@.len(),
    ensures
        match (r, arg_step(views(argv@), i as int, a@)) {
            (Stepped::Done(b), ArgStep::Done(bv)) => b@ == bv,
            (Stepped::Next(j, b), ArgStep::Next(k, bv)) => j == k && b@ == bv && i < j <= argv@.len(),
            (Stepped::Fail(e), ArgStep::Fail(ev)) => e@ == ev,
            _ => false,
        },
{
    let ghost v = views(argv@);
    let n = argv.len();
    let arg = argv[i].as_str();
    assert(v[i as int] == arg@);
    let mut b = copy_args(a);
    if str_eq(arg, "--") {
        let mut extra: Vec<String> = Vec::new();
        let mut k = i + 1;
        while k < n
            invariant
                i < k <= n,
                n == argv@.len(),
                v == views(argv@),
                views(extra@) == v.subrange(i + 1, k as int),
            decreases n - k,
        {
            let ghost before = views(extra@);
            extra.push(copy_string(&argv[k]));
            assert(views(extra@) =~= before.push(argv@[k as int]@));
            assert(views(extra@) =~= v.subrange(i + 1, k + 1));
            k = k + 1;
        }
        assert(v.subrange(i + 1, n as int) =~= v.skip(i + 1));
        b.extra_args = extra;
        return Stepped::Done(b);
    }
    match read_switch(arg, a) {
        Some(c) => {
            return Stepped::Next(i + 1, c);
        },
        None => {},
    }
    match read_setting(argv, i) {
        Ok((j, st)) => Stepped::Next(j, apply_setting(a, st)),
        Err(e) => Stepped::Fail(e),
    }
}

/// The options of a build invocation, from the arguments after the
/// program name.
pub fn parse_args(argv: &Vec<String>) -> (r: Result<Args, String>)
    ensures
        match r {
            Ok(a) => args_of(views(argv@)) == Ok::<ArgsView, Seq<char>>(a@),
            Err(e) => args_of(views(argv@)) == Err::<ArgsView, Seq<char>>(e@),
        },
{
    let ghost v = views(argv@);
    let mut args = Args {
        jobs: None,
        dry_run: false,
        verbose: false,
        keep_going: false,
        quiet: false,
        list: false,
        help: false,
        trust: false,
        only: false,
        watch: false,
        detect: false,
        explain: false,
        version: false,
        completion: None,
        log: None,
        profile: None,
        target: None,
        targets: Vec::new(),
        extra_args: Vec::new(),
    };
    assert(views(args.extra_args@) =~= Seq::<Seq<char>>::empty());
    assert(views(args.targets@) =~= Seq::<Seq<char>>::empty());
    assert(args@ == no_args());
    // `pbuild run <target> [-- extra]` is an alias for `pbuild <target> [-- extra]`.
    let mut i: usize = 0;
    if argv.len() > 0 && str_eq(argv[0].as_str(), "run") {
        i = 1;
    }
    let n = argv.len();
    while i < n
        invariant
            i <= n,
            n == argv@.len(),
            v == views(argv@),
            args_of(v) == args_from(v, i as int, args@),
        decreases n - i,
    {
        match read_option(argv, i, &args) {
            Stepped::Done(b) => {
                return Ok(b);
            },
            Stepped::Fail(e) => {
                return Err(e);
            },
            Stepped::Next(j, b) => {
                args = b;
                i = j;
            },
        }
    }
    Ok(args)
}


/// What `pbuild` is asked to do, as far as the arguments before the build
/// options tell.
pub enum Command {
    /// `why [--json] <target>`, with the profile that `--profile` names,
    /// and whether JSON is asked for.
    Why(String, Option<String>, bool),
    /// `status [--json] [target]`, with the profile that `--profile` names,
    /// and whether JSON is asked for.
    Status(Option<String>, Option<String>, bool),
    /// `add <name>`.
    Add(String),
    /// `import [Makefile]`.
    Import(String),
    /// `edit [target]`.
    Edit(Option<String>),
    /// `clean <target>`.
    CleanTarget(String),
    /// `prune`.
    Prune,
    /// `touch <target>`.
    Touch(String),
    /// `graph [--dot|--json] [target]`: whether DOT is asked for, whether
    /// JSON is, and the target.
    Graph(bool, bool, Option<String>),
    /// `doctor`.
    Doctor,
    /// `retry`.
    Retry,
    /// `--completion <shell>` anywhere.
    Completion(String),
    /// A build, with the options `parse_args` reads.
    Build,
}

/// A subcommand, as values.
pub enum CommandView {
    Why(Seq<char>, Option<Seq<char>>, bool),
    Status(Option<Seq<char>>, Option<Seq<char>>, bool),
    Add(Seq<char>),
    Import(Seq<char>),
    Edit(Option<Seq<char>>),
    CleanTarget(Seq<char>),
    Prune,
    Touch(Seq<char>),
    Graph(bool, bool, Option<Seq<char>>),
    Doctor,
    Retry,
    Completion(Seq<char>),
    Build,
}

impl View for Command {
    type V = CommandView;

    open spec fn view(&self) -> CommandView {
        match self {
            Command::Why(t, p, j) => CommandView::Why(t@, crate::types::opt_view(*p), *j),
            Command::Status(t, p, j) => CommandView::Status(crate::types::opt_view(*t), crate::types::opt_view(*p), *j),
            Command::Add(n) => CommandView::Add(n@),
            Command::Import(f) => CommandView::Import(f@),
            Command::Edit(t) => CommandView::Edit(crate::types::opt_view(*t)),
            Command::CleanTarget(t) => CommandView::CleanTarget(t@),
            Command::Prune => CommandView::Prune,
            Command::Touch(t) => CommandView::Touch(t@),
            Command::Graph(d, j, t) => CommandView::Graph(*d, *j, crate::types::opt_view(*t)),
            Command::Doctor => CommandView::Doctor,
            Command::Retry => CommandView::Retry,
            Command::Completion(sh) => CommandView::Completion(sh@),
            Command::Build => CommandView::Build,
        }
    }
}

/// The first argument from position `k` on that is no option (does not
/// start with `-`) and is not `skip`.
pub open spec fn first_positional(argv: Seq<Seq<char>>, k: int, skip: Seq<char>) -> Option<Seq<char>>
    decreases argv.len() - k,
{
    if k < 0 || k >= argv.len() {
        None
    } else if !starts_with(argv[k], "-"@) && argv[k] != skip {
        Some(argv[k])
    } else {
        first_positional(argv, k + 1, skip)
    }
}

/// The first argument from position `k` on that is neither `w` nor `x`.
pub open spec fn first_other(argv: Seq<Seq<char>>, k: int, w: Seq<char>, x: Seq<char>) -> Option<Seq<char>>
    decreases argv.len() - k,
{
    if k < 0 || k >= argv.len() {
        None
    } else if argv[k] != w && argv[k] != x {
        Some(argv[k])
    } else {
        first_other(argv, k + 1, w, x)
    }
}

/// The first position from `k` on holding `w`, or -1.
pub open spec fn position_of(argv: Seq<Seq<char>>, k: int, w: Seq<char>) -> int
    decreases argv.len() - k,
{
    if k < 0 || k >= argv.len() {
        -1
    } else if argv[k] == w {
        k
    } else {
        position_of(argv, k + 1, w)
    }
}

/// The argument at `k`, if there is one.
pub open spec fn arg_at(argv: Seq<Seq<char>>, k: int) -> Option<Seq<char>> {
    if 0 <= k < argv.len() {
        Some(argv[k])
    } else {
        None
    }
}

/// The subcommand `argv` asks for (the arguments after the program name),
/// or the usage error of one that misses its argument.
pub open spec fn command_of(argv: Seq<Seq<char>>) -> Result<CommandView, Seq<char>> {
    let first = arg_at(argv, 0);
    let profile = profile_from(argv, 0);
    let skip = match profile {
        Some(p) => p,
        None => ""@,
    };
    let json = position_of(argv, 1, "--json"@) >= 0;
    if first == Some("why"@) {
        match first_positional(argv, 1, skip) {
            Some(t) => Ok(CommandView::Why(t, profile, json)),
            None => Err("usage: pbuild why <target>"@),
        }
    } else if first == Some("status"@) {
        Ok(CommandView::Status(first_positional(argv, 1, skip), profile, json))
    } else if first == Some("add"@) {
        match arg_at(argv, 1) {
            Some(n) => Ok(CommandView::Add(n)),
            None => Err("usage: pbuild add <name>"@),
        }
    } else if first == Some("import"@) {
        Ok(
            CommandView::Import(
                match arg_at(argv, 1) {
                    Some(f) => f,
                    None => "Makefile"@,
                },
            ),
        )
    } else if first == Some("edit"@) {
        Ok(CommandView::Edit(arg_at(argv, 1)))
    } else if first == Some("clean"@) && arg_at(argv, 1) is Some {
        Ok(CommandView::CleanTarget(argv[1]))
    } else if first == Some("prune"@) {
        Ok(CommandView::Prune)
    } else if first == Some("touch"@) {
        match arg_at(argv, 1) {
            Some(t) => Ok(CommandView::Touch(t)),
            None => Err("usage: pbuild touch <target>"@),
        }
    } else if first == Some("graph"@) {
        Ok(CommandView::Graph(position_of(argv, 0, "--dot"@) >= 0, json, first_other(argv, 1, "--dot"@, "--json"@)))
    } else if first == Some("doctor"@) {
        Ok(CommandView::Doctor)
    } else if first == Some("retry"@) {
        Ok(CommandView::Retry)
    } else if position_of(argv, 0, "--completion"@) >= 0 {
        match arg_at(argv, position_of(argv, 0, "--completion"@) + 1) {
            Some(sh) => Ok(CommandView::Completion(sh)),
            None => Err("--completion requires a shell (fish, bash, zsh)"@),
        }
    } else {
        Ok(CommandView::Build)
    }
}

/// The first argument from position `k` on that is no option and not `skip`.
fn find_positional(argv: &Vec<String>, k: usize, skip: &str) -> (r: Option<String>)
    ensures
        crate::types::opt_view(r) == first_positional(views(argv@), k as int, skip@),
{
    let ghost v = views(argv@);
    let mut j = k;
    while j < argv.len()
        invariant
            k <= j,
            v == views(argv@),
            first_positional(v, k as int, skip@) == first_positional(v, j as int, skip@),
        decreases argv@.len() - j,
    {
        assert(v[j as int] == argv@[j as int]@);
        let cs = to_chars(argv[j].as_str());
        if !has_prefix(cs.as_slice(), "-") && !str_eq(argv[j].as_str(), skip) {
            return Some(copy_string(&argv[j]));
        }
        j = j + 1;
    }
    None
}

/// The first argument from position `k` on that is neither `w` nor `x`.
fn find_other(argv: &Vec<String>, k: usize, w: &str, x: &str) -> (r: Option<String>)
    ensures
        crate::types::opt_view(r) == first_other(views(argv@), k as int, w@, x@),
{
    let ghost v = views(argv@);
    let mut j = k;
    while j < argv.len()
        invariant
            k <= j,
            v == views(argv@),
            first_other(v, k as int, w@, x@) == first_other(v, j as int, w@, x@),
        decreases argv@.len() - j,
    {
        assert(v[j as int] == argv@[j as int]@);
        if !str_eq(argv[j].as_str(), w) && !str_eq(argv[j].as_str(), x) {
            return Some(copy_string(&argv[j]));
        }
        j = j + 1;
    }
    None
}

/// The first position from `k` on holding `w`.
fn find_word(argv: &Vec<String>, k: usize, w: &str) -> (r: Option<usize>)
    ensures
        match r {
            Some(p) => p as int == position_of(views(argv@), k as int, w@) && p < argv@.len(),
            None => position_of(views(argv@), k as int, w@) == -1,
        },
{
    let ghost v = views(argv@);
    let mut j: usize = k;
    while j < argv.len()
        invariant
            k <= j,
            v == views(argv@),
            position_of(v, k as int, w@) == position_of(v, j as int, w@),
        decreases argv@.len() - j,
    {
        assert(v[j as int] == argv@[j as int]@);
        if str_eq(argv[j].as_str(), w) {
            return Some(j);
        }
        j = j + 1;
    }
    None
}

/// The argument at `k`, copied.
fn copy_arg(argv: &Vec<String>, k: usize) -> (r: Option<String>)
    ensures
        crate::types::opt_view(r) == arg_at(views(argv@), k as int),
{
    if k < argv.len() {
        Some(copy_string(&argv[k]))
    } else {
        None
    }
}

/// Whether the first argument is `w`.
fn first_is(argv: &Vec<String>, w: &str) -> (b: bool)
    ensures
        b == (arg_at(views(argv@), 0) == Some(w@)),
{
    argv.len() > 0 && str_eq(argv[0].as_str(), w)
}

/// Detect the subcommands that take their own positional argument before
/// full option parsing.
pub fn subcommand(argv: &Vec<String>) -> (r: Result<Command, String>)
    ensures
        match r {
            Ok(c) => command_of(views(argv@)) == Ok::<CommandView, Seq<char>>(c@),
            Err(e) => command_of(views(argv@)) == Err::<CommandView, Seq<char>>(e@),
        },
{
    let ghost v = views(argv@);
    let early_profile = extract_profile(argv);
    let skip: &str = match early_profile {
        Some(p) => p,
        None => "",
    };
    let profile: Option<String> = match early_profile {
        Some(p) => Some(String::from_str(p)),
        None => None,
    };
    let json = find_word(argv, 1, "--json").is_some();
    if first_is(argv, "why") {
        return match find_positional(argv, 1, skip) {
            Some(t) => Ok(Command::Why(t, profile, json)),
            None => Err(String::from_str("usage: pbuild why <target>")),
        };
    }
    if first_is(argv, "status") {
        return Ok(Command::Status(find_positional(argv, 1, skip), profile, json));
    }
    if first_is(argv, "add") {
        return match copy_arg(argv, 1) {
            Some(n) => Ok(Command::Add(n)),
            None => Err(String::from_str("usage: pbuild add <name>")),
        };
    }
    if first_is(argv, "import") {
        return match copy_arg(argv, 1) {
            Some(f) => Ok(Command::Import(f)),
            None => Ok(Command::Import(String::from_str("Makefile"))),
        };
    }
    if first_is(argv, "edit") {
        return Ok(Command::Edit(copy_arg(argv, 1)));
    }
    // `pbuild clean <target>` — clean just one target.
    // `pbuild clean` (no arg) — a build of the target `clean`.
    if first_is(argv, "clean") {
        match copy_arg(argv, 1) {
            Some(t) => {
                return Ok(Command::CleanTarget(t));
            },
            None => {},
        }
    }
    if first_is(argv, "prune") {
        return Ok(Command::Prune);
    }
    if first_is(argv, "touch") {
        return match copy_arg(argv, 1) {
            Some(t) => Ok(Command::Touch(t)),
            None => Err(String::from_str("usage: pbuild touch <target>")),
        };
    }
    if first_is(argv, "graph") {
        let dot = find_word(argv, 0, "--dot").is_some();
        return Ok(Command::Graph(dot, json, find_other(argv, 1, "--dot", "--json")));
    }
    if first_is(argv, "doctor") {
        return Ok(Command::Doctor);
    }
    if first_is(argv, "retry") {
        return Ok(Command::Retry);
    }
    // --completion doesn't need a pbuild.toml — detect it early.
    match find_word(argv, 0, "--completion") {
        Some(pos) => {
            let n = argv.len();
            assert(pos < n);
            return match copy_arg(argv, pos + 1) {
                Some(sh) => Ok(Command::Completion(sh)),
                None => Err(String::from_str("--completion requires a shell (fish, bash, zsh)")),
            };
        },
        None => {},
    }
    Ok(Command::Build)
}

} // verus!
