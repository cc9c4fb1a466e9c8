//! Decisions of the smaller subcommands: `--only`, `--watch`, `touch`,
//! `prune`, `clean`, `add`, `edit`, and the fallback candidates of `[vars]`.

use vstd::prelude::*;
use vstd::string::StringExecFns;

use crate::config::BuildFile;
use crate::depfile::{whitespace_words, words};
use crate::engine::{opt_views, remembered_inputs, with_hashes};
use crate::hash::{lines, load_depfile_inputs, split_lines, LockFile};
use crate::strmap::{copy_string, str_eq};
use crate::text::{
    contains_seq, decimal, decimal_of, ends_with, escape_quotes, escape_quotes_exec, has_infix,
    has_prefix, has_suffix, join_str, join_strings, starts_with, to_chars, trim, trim_ws, views,
};
use crate::types::{append_strings, copy_strings, opt_view, rule_views, Rule, RuleView, Target};

verus! {

/// The position of the first rule for `t` from position `k` on, or -1.
pub open spec fn first_rule_for(rs: Seq<RuleView>, t: (bool, Seq<char>), k: int) -> int
    decreases rs.len() - k,
{
    if k < 0 || k >= rs.len() {
        -1
    } else if rs[k].target == t {
        k
    } else {
        first_rule_for(rs, t, k + 1)
    }
}

/// With `--only`: just the first rule for the root, its dependencies
/// cleared so the scheduler does not wait for them.
pub fn only_plan(rules: Vec<Rule>, root: &Target) -> (r: Result<Vec<Rule>, String>)
    ensures
        match r {
            Ok(plan) => {
                let k = first_rule_for(rule_views(rules@), root@, 0);
                &&& k >= 0
                &&& plan@.len() == 1
                &&& plan@[0]@ == (RuleView { deps: seq![], ..rule_views(rules@)[k] })
            },
            Err(e) => first_rule_for(rule_views(rules@), root@, 0) == -1 && e@ == "no rule for target: "@
                + root@.1,
        },
{
    let ghost rs = rule_views(rules@);
    let mut rest = rules;
    let mut k: usize = 0;
    let n = rest.len();
    while k < n
        invariant
            k <= n,
            n == rest@.len(),
            rs == rule_views(rest@),
            rs == rule_views(rules@),
            first_rule_for(rs, root@, 0) == first_rule_for(rs, root@, k as int),
        decreases n - k,
    {
        assert(rs[k as int] == rest@[k as int]@);
        if rest[k].target.same(root) {
            let ghost orig = rest@[k as int]@;
            assert(rs[k as int] == orig);
            assert(orig.target == root@);
            assert(first_rule_for(rs, root@, k as int) == k);
            let mut r = rest.swap_remove(k);
            assert(r@ == orig);
            r.deps = Vec::new();
            assert(r@.deps =~= Seq::<(bool, Seq<char>)>::empty());
            assert(r@ == (RuleView { deps: seq![], ..orig }));
            let mut plan: Vec<Rule> = Vec::new();
            plan.push(r);
            assert(plan@[0]@ == (RuleView { deps: seq![], ..rs[k as int] }));
            return Ok(plan);
        }
        k = k + 1;
    }
    Err(String::from_str("no rule for target: ").concat(root.name().as_str()))
}

/// The inputs of the first `k` rules, in order.
pub open spec fn plan_inputs(pv: Seq<RuleView>, k: int) -> Seq<Seq<char>>
    decreases k,
{
    if k <= 0 {
        seq![]
    } else {
        plan_inputs(pv, k - 1) + pv[k - 1].inputs
    }
}

/// What `--watch` watches: every input of the plan, then `pbuild.toml`.
pub fn watch_paths(plan: &Vec<Rule>) -> (r: Vec<String>)
    ensures
        views(r@) == plan_inputs(rule_views(plan@), plan@.len() as int) + seq!["pbuild.toml"@],
{
    let ghost pv = rule_views(plan@);
    let mut r: Vec<String> = Vec::new();
    let mut i: usize = 0;
    while i < plan.len()
        invariant
            i <= plan@.len(),
            pv == rule_views(plan@),
            views(r@) == plan_inputs(pv, i as int),
        decreases plan@.len() - i,
    {
        assert(pv[i as int] == plan@[i as int]@);
        append_strings(&mut r, &plan[i].inputs);
        i = i + 1;
    }
    let ghost before = views(r@);
    r.push(String::from_str("pbuild.toml"));
    assert(views(r@) =~= before + seq!["pbuild.toml"@]);
    r
}

/// What `touch` hashes: a rule's expanded inputs, then its output when it
/// has one.
pub open spec fn touch_paths_of(inputs: Seq<Seq<char>>, output: Seq<char>) -> Seq<Seq<char>> {
    inputs + if output.len() > 0 {
        seq![output]
    } else {
        seq![]
    }
}

/// The paths `touch` hashes.
pub fn touch_paths(inputs: &Vec<String>, output: &str) -> (r: Vec<String>)
    ensures
        views(r@) == touch_paths_of(views(inputs@), output@),
{
    let mut r = copy_strings(inputs);
    let ghost before = views(r@);
    if output.unicode_len() > 0 {
        r.push(String::from_str(output));
        assert(views(r@) =~= before + seq![output@]);
    } else {
        assert(views(r@) =~= before + Seq::<Seq<char>>::empty());
    }
    r
}

/// How many of `hashes` are known.
pub open spec fn known_count(hashes: Seq<Option<Seq<char>>>) -> nat
    decreases hashes.len(),
{
    if hashes.len() == 0 {
        0
    } else {
        known_count(hashes.drop_last()) + if hashes.last() is Some {
            1nat
        } else {
            0nat
        }
    }
}

/// Store the hash of each of `paths` that exists (`hashes[i]` for
/// `paths[i]`), marking a target clean without building it. Returns how
/// many files were hashed.
pub fn record_touched(lf: &mut LockFile, paths: &Vec<String>, hashes: &Vec<Option<String>>) -> (n: usize)
    requires
        hashes@.len() == paths@.len(),
    ensures
        final(lf).view() == with_hashes(old(lf).view(), views(paths@), opt_views(hashes@)),
        n == known_count(opt_views(hashes@)),
{
    let ghost m0 = lf.view();
    let ghost p = views(paths@);
    let ghost h = opt_views(hashes@);
    let mut n: usize = 0;
    let mut i: usize = 0;
    assert(p.take(0) =~= Seq::<Seq<char>>::empty());
    while i < paths.len()
        invariant
            i <= paths@.len(),
            hashes@.len() == paths@.len(),
            p == views(paths@),
            h == opt_views(hashes@),
            lf.view() == with_hashes(m0, p.take(i as int), h.take(i as int)),
            n == known_count(h.take(i as int)),
            n <= i,
        decreases paths@.len() - i,
    {
        assert(p.take(i + 1).drop_last() =~= p.take(i as int));
        assert(h.take(i + 1).take(i as int) =~= h.take(i as int));
        assert(h.take(i + 1).drop_last() =~= h.take(i as int));
        assert(p.take(i + 1).last() == paths@[i as int]@);
        assert(h.take(i + 1)[i as int] == opt_view(hashes@[i as int]));
        match &hashes[i] {
            Some(hash) => {
                lf.insert(copy_string(&paths[i]), copy_string(hash));
                n = n + 1;
            },
            None => {},
        }
        i = i + 1;
    }
    assert(p.take(paths@.len() as int) =~= p);
    assert(h.take(paths@.len() as int) =~= h);
    n
}

/// The paths the rules of the build file still refer to: each rule's
/// declared inputs, its output when it has one, and the inputs the lock
/// file remembers under its depfile's path.
pub open spec fn referenced_paths(bf: &BuildFile, lf: Map<Seq<char>, Seq<char>>, k: int) -> Seq<Seq<char>>
    decreases k,
{
    if k <= 0 {
        seq![]
    } else {
        let raw = bf.rules.entries()[k - 1].1;
        referenced_paths(bf, lf, k - 1) + views(raw.inputs@) + (if raw.output@.len() > 0 {
            seq![raw.output@]
        } else {
            seq![]
        }) + match opt_view(raw.depfile) {
            Some(df) => remembered_inputs(lf, df),
            None => seq![],
        }
    }
}

/// The entries `prune` may remove when their file is gone: keys that are
/// not `env:`/`dep:` entries and that no rule refers to.
pub open spec fn prune_candidates_of(entries: Seq<(Seq<char>, Seq<char>)>, referenced: Seq<Seq<char>>) -> Seq<
    Seq<char>,
>
    decreases entries.len(),
{
    if entries.len() == 0 {
        seq![]
    } else {
        let k = entries.last().0;
        prune_candidates_of(entries.drop_last(), referenced) + if !starts_with(k, "env:"@) && !starts_with(
            k,
            "dep:"@,
        ) && !referenced.contains(k) {
            seq![k]
        } else {
            seq![]
        }
    }
}

/// The paths the build file's rules refer to.
fn referenced(bf: &BuildFile, lf: &LockFile) -> (r: Vec<String>)
    ensures
        views(r@) == referenced_paths(bf, lf.view(), bf.rules.entries().len() as int),
{
    let n = bf.rules.len();
    let mut r: Vec<String> = Vec::new();
    let mut i: usize = 0;
    while i < n
        invariant
            i <= n,
            n == bf.rules.entries().len(),
            views(r@) == referenced_paths(bf, lf.view(), i as int),
        decreases n - i,
    {
        let raw = bf.rules.item_at(i);
        let ghost before = views(r@);
        append_strings(&mut r, &raw.inputs);
        let ghost mid = views(r@);
        if raw.output.as_str().unicode_len() > 0 {
            r.push(copy_string(&raw.output));
            assert(views(r@) =~= mid + seq![raw.output@]);
        } else {
            assert(views(r@) =~= mid + Seq::<Seq<char>>::empty());
        }
        let ghost mid2 = views(r@);
        match &raw.depfile {
            Some(df) => {
                let found = load_depfile_inputs(lf, df.as_str());
                append_strings(&mut r, &found);
            },
            None => {
                assert(views(r@) =~= mid2 + Seq::<Seq<char>>::empty());
            },
        }
        i = i + 1;
    }
    r
}

/// The lock file keys `prune` checks on disk: a stale entry is one of these
/// whose file no longer exists. With no readable build file nothing counts
/// as referenced.
pub fn prune_candidates(lf: &LockFile, bf: Option<&BuildFile>) -> (r: Vec<String>)
    ensures
        views(r@) == prune_candidates_of(
            lf.entries(),
            match bf {
                Some(b) => referenced_paths(b, lf.view(), b.rules.entries().len() as int),
                None => seq![],
            },
        ),
{
    let refs: Vec<String> = match bf {
        Some(b) => referenced(b, lf),
        None => Vec::new(),
    };
    let ghost rv = views(refs@);
    assert(rv =~= match bf {
        Some(b) => referenced_paths(b, lf.view(), b.rules.entries().len() as int),
        None => seq![],
    });
    let n = lf.len();
    let mut r: Vec<String> = Vec::new();
    let mut i: usize = 0;
    while i < n
        invariant
            i <= n,
            n == lf.entries().len(),
            n == lf.count(),
            rv == views(refs@),
            views(r@) == prune_candidates_of(lf.entries().take(i as int), rv),
        decreases n - i,
    {
        assert(lf.entries().take(i + 1).drop_last() =~= lf.entries().take(i as int));
        let key = lf.key_at(i);
        assert(lf.entries().take(i + 1).last().0 == key@);
        let cs = to_chars(key.as_str());
        let synthetic = has_prefix(cs.as_slice(), "env:") || has_prefix(cs.as_slice(), "dep:");
        if !synthetic && !crate::import::holds(&refs, key.as_str()) {
            let ghost before = views(r@);
            r.push(copy_string(key));
            assert(views(r@) =~= before + seq![key@]);
        } else {
            assert(views(r@) =~= views(r@) + Seq::<Seq<char>>::empty());
        }
        i = i + 1;
    }
    assert(lf.entries().take(n as int) =~= lf.entries());
    r
}

/// The outputs of the rules that have one, in entry order: what `clean`
/// removes.
pub open spec fn outputs_of(bf: &BuildFile, k: int) -> Seq<Seq<char>>
    decreases k,
{
    if k <= 0 {
        seq![]
    } else {
        let o = bf.rules.entries()[k - 1].1.output@;
        outputs_of(bf, k - 1) + if o.len() > 0 {
            seq![o]
        } else {
            seq![]
        }
    }
}

/// The outputs `clean` removes.
pub fn rule_outputs(bf: &BuildFile) -> (r: Vec<String>)
    ensures
        views(r@) == outputs_of(bf, bf.rules.entries().len() as int),
{
    let n = bf.rules.len();
    let mut r: Vec<String> = Vec::new();
    let mut i: usize = 0;
    while i < n
        invariant
            i <= n,
            n == bf.rules.entries().len(),
            views(r@) == outputs_of(bf, i as int),
        decreases n - i,
    {
        let o = &bf.rules.item_at(i).output;
        let ghost before = views(r@);
        if o.as_str().unicode_len() > 0 {
            r.push(copy_string(o));
            assert(views(r@) =~= before + seq![o@]);
        } else {
            assert(views(r@) =~= before + Seq::<Seq<char>>::empty());
        }
        i = i + 1;
    }
    r
}

/// The lock table without the entries of `paths`.
pub open spec fn without_keys(m: Map<Seq<char>, Seq<char>>, paths: Seq<Seq<char>>) -> Map<Seq<char>, Seq<char>>
    decreases paths.len(),
{
    if paths.len() == 0 {
        m
    } else {
        without_keys(m, paths.drop_last()).remove(paths.last())
    }
}

/// Forget what the lock file holds about one rule: its inputs' and its
/// output's hashes.
pub fn remove_rule_entries(lf: &mut LockFile, inputs: &Vec<String>, output: &str)
    ensures
        final(lf).view() == without_keys(old(lf).view(), touch_paths_of(views(inputs@), output@)),
{
    let paths = touch_paths(inputs, output);
    let ghost m0 = lf.view();
    let ghost p = views(paths@);
    let mut i: usize = 0;
    assert(p.take(0) =~= Seq::<Seq<char>>::empty());
    while i < paths.len()
        invariant
            i <= paths@.len(),
            p == views(paths@),
            lf.view() == without_keys(m0, p.take(i as int)),
        decreases paths@.len() - i,
    {
        assert(p.take(i + 1).drop_last() =~= p.take(i as int));
        assert(p.take(i + 1).last() == paths@[i as int]@);
        lf.remove(paths[i].as_str());
        i = i + 1;
    }
    assert(p.take(paths@.len() as int) =~= p);
}

/// The text already holds a table for `name`.
pub open spec fn has_rule_table(text: Seq<char>, name: Seq<char>) -> bool {
    contains_seq(text, "["@ + name + "]"@) || contains_seq(text, "[\""@ + name + "\"]"@)
}

/// Whether the build file's text already has a rule `name`.
pub fn rule_exists(text: &str, name: &str) -> (b: bool)
    ensures
        b == has_rule_table(text@, name@),
{
    let cs = to_chars(text);
    let plain = String::from_str("[").concat(name).concat("]");
    let quoted = String::from_str("[\"").concat(name).concat("\"]");
    has_infix(cs.as_slice(), plain.as_str()) || has_infix(cs.as_slice(), quoted.as_str())
}

/// The header of a rule's table: quoted when the name holds `.`, a space
/// or `/`.
pub open spec fn rule_key(name: Seq<char>) -> Seq<char> {
    if name.contains('.') || name.contains(' ') || name.contains('/') {
        "[\""@ + name + "\"]"@
    } else {
        "["@ + name + "]"@
    }
}

/// The words of a command, each quoted with its quotes escaped.
pub open spec fn quoted_words(command: Seq<char>) -> Seq<Seq<char>> {
    words(command).map_values(|w: Seq<char>| "\""@ + escape_quotes(w) + "\""@)
}

/// The table `add` appends for a rule.
pub open spec fn rule_snippet(
    name: Seq<char>,
    rule_type: Seq<char>,
    description: Seq<char>,
    group: Seq<char>,
    command: Seq<char>,
) -> Seq<char> {
    "\n"@ + rule_key(name) + "\n"@ + (if group.len() > 0 {
        "group       = \""@ + group + "\"\n"@
    } else {
        seq![]
    }) + (if description.len() > 0 {
        "description = \""@ + description + "\"\n"@
    } else {
        seq![]
    }) + (if rule_type == "task"@ {
        "type        = \"task\"\n"@
    } else {
        seq![]
    }) + "command     = ["@ + join_str(quoted_words(command), ", "@) + "]\n"@
}

/// The build file's text with the rule appended (after a newline when the
/// text does not end in one), or the error for an empty command.
pub open spec fn added_text(
    existing: Seq<char>,
    name: Seq<char>,
    rule_type: Seq<char>,
    description: Seq<char>,
    group: Seq<char>,
    command: Seq<char>,
) -> Result<Seq<char>, Seq<char>> {
    if command.len() == 0 {
        Err("command is required"@)
    } else {
        Ok(
            existing + (if !ends_with(existing, "\n"@) {
                "\n"@
            } else {
                seq![]
            }) + rule_snippet(name, rule_type, description, group, command),
        )
    }
}

/// Append a new rule to the text of `pbuild.toml`.
pub fn add_rule(
    existing: &str,
    name: &str,
    rule_type: &str,
    description: &str,
    group: &str,
    command: &str,
) -> (r: Result<String, String>)
    ensures
        match r {
            Ok(t) => added_text(existing@, name@, rule_type@, description@, group@, command@) == Ok::<
                Seq<char>,
                Seq<char>,
            >(t@),
            Err(e) => added_text(existing@, name@, rule_type@, description@, group@, command@) == Err::<
                Seq<char>,
                Seq<char>,
            >(e@),
        },
{
    if command.unicode_len() == 0 {
        return Err(String::from_str("command is required"));
    }
    // Split the command string into an argv array for TOML.
    let cc = to_chars(command);
    let argv = whitespace_words(cc.as_slice());
    let mut quoted: Vec<String> = Vec::new();
    let mut i: usize = 0;
    while i < argv.len()
        invariant
            i <= argv@.len(),
            quoted@.len() == i,
            forall|j: int| 0 <= j < i ==> (#[trigger] quoted@[j])@ == "\""@ + escape_quotes(argv@[j]@) + "\""@,
        decreases argv@.len() - i,
    {
        quoted.push(String::from_str("\"").concat(escape_quotes_exec(argv[i].as_str()).as_str()).concat("\""));
        i = i + 1;
    }
    assert(views(quoted@) =~= quoted_words(command@));
    let argv_toml = join_strings(&quoted, ", ");
    // Build the TOML snippet.
    let nc = to_chars(name);
    let key = if crate::hash::index_of_char(nc.as_slice(), '.').is_some() || crate::hash::index_of_char(
        nc.as_slice(),
        ' ',
    ).is_some() || crate::hash::index_of_char(nc.as_slice(), '/').is_some() {
        String::from_str("[\"").concat(name).concat("\"]")
    } else {
        String::from_str("[").concat(name).concat("]")
    };
    assert(key@ == rule_key(name@));
    let mut snippet = String::from_str("\n").concat(key.as_str()).concat("\n");
    let ghost s1 = snippet@;
    let ghost g_part: Seq<char> = if group@.len() > 0 {
        "group       = \""@ + group@ + "\"\n"@
    } else {
        seq![]
    };
    if group.unicode_len() > 0 {
        snippet.append("group       = \"");
        snippet.append(group);
        snippet.append("\"\n");
    }
    assert(snippet@ =~= s1 + g_part);
    let ghost s2 = snippet@;
    let ghost d_part: Seq<char> = if description@.len() > 0 {
        "description = \""@ + description@ + "\"\n"@
    } else {
        seq![]
    };
    if description.unicode_len() > 0 {
        snippet.append("description = \"");
        snippet.append(description);
        snippet.append("\"\n");
    }
    assert(snippet@ =~= s2 + d_part);
    let ghost s3 = snippet@;
    let ghost t_part: Seq<char> = if rule_type@ == "task"@ {
        "type        = \"task\"\n"@
    } else {
        seq![]
    };
    if str_eq(rule_type, "task") {
        snippet.append("type        = \"task\"\n");
    }
    assert(snippet@ =~= s3 + t_part);
    snippet.append("command     = [");
    snippet.append(argv_toml.as_str());
    snippet.append("]\n");
    assert(snippet@ =~= rule_snippet(name@, rule_type@, description@, group@, command@));
    let ec = to_chars(existing);
    let mut content = String::from_str(existing);
    // Ensure a trailing newline before appending.
    let ghost nl: Seq<char> = if !ends_with(existing@, "\n"@) {
        "\n"@
    } else {
        seq![]
    };
    if !has_suffix(ec.as_slice(), "\n") {
        content.append("\n");
    }
    assert(content@ =~= existing@ + nl);
    content.append(snippet.as_str());
    assert(content@ =~= existing@ + nl + rule_snippet(name@, rule_type@, description@, group@, command@));
    Ok(content)
}

/// The first line number (from 1), from position `k` on, whose trimmed text
/// is the table header of `name`, or 0.
pub open spec fn header_line_from(ls: Seq<Seq<char>>, name: Seq<char>, k: int) -> nat
    decreases ls.len() - k,
{
    if k < 0 || k >= ls.len() {
        0
    } else if trim_ws(ls[k]) == "["@ + name + "]"@ || trim_ws(ls[k]) == "[\""@ + name + "\"]"@ {
        (k + 1) as nat
    } else {
        header_line_from(ls, name, k + 1)
    }
}

/// The line number of the rule `name`'s header in the text of `pbuild.toml`.
pub fn header_line(text: &str, name: &str) -> (r: Option<usize>)
    ensures
        match r {
            Some(n) => n > 0 && n == header_line_from(lines(text@), name@, 0),
            None => header_line_from(lines(text@), name@, 0) == 0,
        },
{
    let ls = split_lines(text);
    let ghost lv = views(ls@);
    let plain = String::from_str("[").concat(name).concat("]");
    let quoted = String::from_str("[\"").concat(name).concat("\"]");
    let mut k: usize = 0;
    while k < ls.len()
        invariant
            k <= ls@.len(),
            lv == views(ls@),
            lv == lines(text@),
            plain@ == "["@ + name@ + "]"@,
            quoted@ == "[\""@ + name@ + "\"]"@,
            header_line_from(lv, name@, 0) == header_line_from(lv, name@, k as int),
        decreases ls@.len() - k,
    {
        assert(lv[k as int] == ls@[k as int]@);
        let lc = to_chars(ls[k].as_str());
        let t = crate::text::from_chars(trim(lc.as_slice()).as_slice());
        if str_eq(t.as_str(), plain.as_str()) || str_eq(t.as_str(), quoted.as_str()) {
            return Some(k + 1);
        }
        k = k + 1;
    }
    None
}

/// The editor is VS Code, which takes `file:line`.
pub open spec fn is_code(bin: Seq<char>) -> bool {
    bin == "code"@ || bin == "code-insiders"@
}

/// The arguments the editor gets: a line jump when the line is known
/// (`pbuild.toml:<n>` for VS Code, `+<n>` for the others), then the file
/// for editors other than VS Code. `bin` is the editor's file name.
pub open spec fn editor_args_of(bin: Seq<char>, line: Option<nat>) -> Seq<Seq<char>> {
    (match line {
        Some(n) => if is_code(bin) {
            seq!["pbuild.toml:"@ + decimal_of(n)]
        } else {
            seq!["+"@ + decimal_of(n)]
        },
        None => seq![],
    }) + if !is_code(bin) {
        seq!["pbuild.toml"@]
    } else {
        seq![]
    }
}

/// The arguments for the editor `editor` (a command or a path to one).
pub fn editor_args(editor: &str, line: Option<usize>) -> (r: Vec<String>)
    ensures
        views(r@) == editor_args_of(
            match crate::cli::path_file_name(editor@) {
                Some(b) => b,
                None => editor@,
            },
            match line {
                Some(n) => Some(n as nat),
                None => None,
            },
        ),
{
    let bin = match crate::cli::file_name_of_path(editor) {
        Some(b) => b,
        None => String::from_str(editor),
    };
    let code = str_eq(bin.as_str(), "code") || str_eq(bin.as_str(), "code-insiders");
    let mut r: Vec<String> = Vec::new();
    match line {
        Some(n) => {
            let num = decimal(n as u64);
            if code {
                r.push(String::from_str("pbuild.toml:").concat(num.as_str()));
            } else {
                r.push(String::from_str("+").concat(num.as_str()));
            }
        },
        None => {},
    }
    let ghost before = views(r@);
    if !code {
        r.push(String::from_str("pbuild.toml"));
        assert(views(r@) =~= before + seq!["pbuild.toml"@]);
    } else {
        assert(views(r@) =~= before + Seq::<Seq<char>>::empty());
    }
    r
}

/// A `[vars]` candidate names a file (it starts with `.` or `/`, or holds
/// a `/`) rather than a program.
pub open spec fn is_path_candidate(c: Seq<char>) -> bool {
    starts_with(c, "."@) || starts_with(c, "/"@) || c.contains('/')
}

/// Return true if `candidate` can be resolved to an executable or existing
/// file: a path when `path_exists` (the file exists), a bare program name
/// when `on_path` (some directory of `PATH` holds it).
pub fn resolve_candidate(candidate: &str, path_exists: bool, on_path: bool) -> (b: bool)
    ensures
        b == if is_path_candidate(candidate@) {
            path_exists
        } else {
            on_path
        },
{
    let cs = to_chars(candidate);
    if has_prefix(cs.as_slice(), ".") || has_prefix(cs.as_slice(), "/") || crate::hash::index_of_char(
        cs.as_slice(),
        '/',
    ).is_some() {
        return path_exists;
    }
    on_path
}

/// The first candidate that resolved, else the last one; an error when
/// there is none.
pub open spec fn chosen_candidate(key: Seq<char>, candidates: Seq<Seq<char>>, resolved: Seq<bool>) -> Result<
    Seq<char>,
    Seq<char>,
> {
    if candidates.len() == 0 {
        Err("[vars] `"@ + key + "`: fallback array must not be empty"@)
    } else if crate::engine::first_set(resolved, 0) >= 0 {
        Ok(candidates[crate::engine::first_set(resolved, 0)])
    } else {
        Ok(candidates.last())
    }
}

/// The value of a `[vars]` entry given as an array of fallback candidates:
/// the first that resolved (`resolved[i]` for `candidates[i]`), else the
/// last, so that the error surfaces when the command runs.
pub fn pick_candidate(key: &str, candidates: &Vec<String>, resolved: &Vec<bool>) -> (r: Result<String, String>)
    requires
        resolved@.len() == candidates@.len(),
    ensures
        match r {
            Ok(v) => chosen_candidate(key@, views(candidates@), resolved@) == Ok::<Seq<char>, Seq<char>>(
                v@,
            ),
            Err(e) => chosen_candidate(key@, views(candidates@), resolved@) == Err::<
                Seq<char>,
                Seq<char>,
            >(e@),
        },
{
    if candidates.len() == 0 {
        return Err(String::from_str("[vars] `").concat(key).concat("`: fallback array must not be empty"));
    }
    let mut i: usize = 0;
    while i < resolved.len()
        invariant
            i <= resolved@.len(),
            resolved@.len() == candidates@.len(),
            crate::engine::first_set(resolved@, 0) == crate::engine::first_set(resolved@, i as int),
        decreases resolved@.len() - i,
    {
        if resolved[i] {
            assert(crate::engine::first_set(resolved@, i as int) == i);
            return Ok(copy_string(&candidates[i]));
        }
        i = i + 1;
    }
    let last = candidates.len() - 1;
    Ok(copy_string(&candidates[last]))
}

/// `touch` marks a target clean: once its inputs and output are hashed
/// into the lock file (`hash` giving each file's hash, unchanged until the
/// next check), inputs that all exist are all clean.
pub proof fn lemma_touched_inputs_are_clean(
    lf: Map<Seq<char>, Seq<char>>,
    inputs: Seq<Seq<char>>,
    output: Seq<char>,
    hash: spec_fn(Seq<char>) -> Option<Seq<char>>,
)
    requires
        inputs.len() > 0,
        forall|i: int| 0 <= i < inputs.len() ==> (#[trigger] hash(inputs[i])) is Some,
    ensures
        ({
            let paths = touch_paths_of(inputs, output);
            let after = with_hashes(lf, paths, paths.map_values(|p: Seq<char>| hash(p)));
            !crate::engine::inputs_dirty(after, inputs, inputs.map_values(|p: Seq<char>| hash(p)))
        }),
{
    let paths = touch_paths_of(inputs, output);
    let after = with_hashes(lf, paths, paths.map_values(|p: Seq<char>| hash(p)));
    let current = inputs.map_values(|p: Seq<char>| hash(p));
    assert forall|i: int| 0 <= i < inputs.len() implies !#[trigger] crate::engine::input_dirty(
        after,
        inputs,
        current,
        i,
    ) by {
        assert(paths[i] == inputs[i]);
        crate::engine::lemma_with_hashes_holds(lf, paths, hash, inputs[i]);
    }
}

} // verus!
