//! Consistency checks of a build file: outputs that two rules claim,
//! dependencies that no rule builds, and the programs the rules run.

use vstd::prelude::*;
use vstd::string::StringExecFns;

use crate::config::{error_message, BuildFile, ConfigError, RawRule};
use crate::strmap::{copy_string, name_index, str_eq};
use crate::text::views;
use crate::types::{rule_views, Rule, RuleView};

verus! {

/// The position of the first of the first `k` entries whose output is `o`,
/// or -1.
pub open spec fn first_claim(es: Seq<(Seq<char>, RawRule)>, o: Seq<char>, k: int) -> int
    decreases k,
{
    if k <= 0 {
        -1
    } else if first_claim(es, o, k - 1) >= 0 {
        first_claim(es, o, k - 1)
    } else if es[k - 1].1.output@ == o {
        k - 1
    } else {
        -1
    }
}

/// The message for an output that two rules declare.
pub open spec fn conflict_message(output: Seq<char>, first: Seq<char>, second: Seq<char>) -> Seq<char> {
    "output `"@ + output + "` claimed by both `"@ + first + "` and `"@ + second + "`"@
}

/// One message for each of the first `k` rules whose (non-empty) output an
/// earlier rule declares already, naming the first such rule.
pub open spec fn conflict_lines(es: Seq<(Seq<char>, RawRule)>, k: int) -> Seq<Seq<char>>
    decreases k,
{
    if k <= 0 {
        seq![]
    } else {
        let o = es[k - 1].1.output@;
        let f = first_claim(es, o, k - 1);
        conflict_lines(es, k - 1) + if o.len() > 0 && f >= 0 {
            seq![conflict_message(o, es[f].0, es[k - 1].0)]
        } else {
            seq![]
        }
    }
}

/// The position of the first rule (before `k`) that declares `output`.
fn first_claimant(bf: &BuildFile, output: &str, k: usize) -> (r: Option<usize>)
    requires
        k <= bf.rules.entries().len(),
    ensures
        match r {
            Some(f) => f < k && f as int == first_claim(bf.rules.entries(), output@, k as int),
            None => first_claim(bf.rules.entries(), output@, k as int) == -1,
        },
{
    let ghost es = bf.rules.entries();
    let mut j: usize = 0;
    while j < k
        invariant
            j <= k,
            k <= es.len(),
            es == bf.rules.entries(),
            first_claim(es, output@, j as int) == -1,
        decreases k - j,
    {
        if str_eq(bf.rules.item_at(j).output.as_str(), output) {
            proof {
                lemma_first_claim_stays(es, output@, j + 1, k as int);
            }
            return Some(j);
        }
        j = j + 1;
    }
    None
}

/// Once found, the first claim stays the first.
proof fn lemma_first_claim_stays(es: Seq<(Seq<char>, RawRule)>, o: Seq<char>, j: int, k: int)
    requires
        0 < j <= k,
        first_claim(es, o, j) >= 0,
    ensures
        first_claim(es, o, k) == first_claim(es, o, j),
    decreases k - j,
{
    if j < k {
        lemma_first_claim_stays(es, o, j, k - 1);
    }
}

/// The outputs that more than one rule declares: a message for each rule
/// whose output an earlier rule declares already.
pub fn output_conflicts(bf: &BuildFile) -> (r: Vec<String>)
    ensures
        views(r@) == conflict_lines(bf.rules.entries(), bf.rules.entries().len() as int),
{
    let ghost es = bf.rules.entries();
    let n = bf.rules.len();
    let mut out: Vec<String> = Vec::new();
    let mut k: usize = 0;
    while k < n
        invariant
            k <= n,
            n == es.len(),
            es == bf.rules.entries(),
            views(out@) == conflict_lines(es, k as int),
        decreases n - k,
    {
        let raw = bf.rules.item_at(k);
        let name = bf.rules.name_at(k);
        if raw.output.unicode_len() > 0 {
            match first_claimant(bf, raw.output.as_str(), k) {
                Some(f) => {
                    let ghost before = views(out@);
                    let msg = String::from_str("output `").concat(raw.output.as_str()).concat(
                        "` claimed by both `",
                    ).concat(bf.rules.name_at(f).as_str()).concat("` and `").concat(name.as_str()).concat("`");
                    out.push(msg);
                    assert(views(out@) =~= before.push(msg@));
                },
                None => {},
            }
        } else {
            assert(es[k as int].1.output@.len() == 0);
        }
        k = k + 1;
    }
    out
}

/// The message for a dependency that no rule builds.
pub open spec fn unknown_dep_message(rule: Seq<char>, dep: Seq<char>) -> Seq<char> {
    "rule `"@ + rule + "` depends on unknown target `"@ + dep + "`"@
}

/// A message for each of `deps` that names no rule.
pub open spec fn missing_dep_lines(es: Seq<(Seq<char>, RawRule)>, rule: Seq<char>, deps: Seq<Seq<char>>) -> Seq<
    Seq<char>,
>
    decreases deps.len(),
{
    if deps.len() == 0 {
        seq![]
    } else {
        missing_dep_lines(es, rule, deps.drop_last()) + if name_index(es, deps.last()) < 0 {
            seq![unknown_dep_message(rule, deps.last())]
        } else {
            seq![]
        }
    }
}

/// The unknown dependencies of the first `k` rules, in order.
pub open spec fn unknown_dep_lines(es: Seq<(Seq<char>, RawRule)>, k: int) -> Seq<Seq<char>>
    decreases k,
{
    if k <= 0 {
        seq![]
    } else {
        unknown_dep_lines(es, k - 1) + missing_dep_lines(es, es[k - 1].0, views(es[k - 1].1.deps@))
    }
}

/// The dependencies that name no rule: a message for each.
pub fn unknown_deps(bf: &BuildFile) -> (r: Vec<String>)
    ensures
        views(r@) == unknown_dep_lines(bf.rules.entries(), bf.rules.entries().len() as int),
{
    let ghost es = bf.rules.entries();
    let n = bf.rules.len();
    let mut out: Vec<String> = Vec::new();
    let mut k: usize = 0;
    while k < n
        invariant
            k <= n,
            n == es.len(),
            es == bf.rules.entries(),
            views(out@) == unknown_dep_lines(es, k as int),
        decreases n - k,
    {
        let raw = bf.rules.item_at(k);
        let name = bf.rules.name_at(k);
        let ghost deps = views(raw.deps@);
        let ghost start = views(out@);
        let mut d: usize = 0;
        while d < raw.deps.len()
            invariant
                d <= raw.deps@.len(),
                deps == views(raw.deps@),
                es == bf.rules.entries(),
                views(out@) == start + missing_dep_lines(es, name@, deps.take(d as int)),
            decreases raw.deps@.len() - d,
        {
            assert(deps.take(d + 1).drop_last() =~= deps.take(d as int));
            assert(deps.take(d + 1).last() == raw.deps@[d as int]@);
            let ghost before = views(out@);
            if bf.rules.find(raw.deps[d].as_str()).is_none() {
                let msg = String::from_str("rule `").concat(name.as_str()).concat(
                    "` depends on unknown target `",
                ).concat(raw.deps[d].as_str()).concat("`");
                out.push(msg);
                assert(views(out@) =~= before.push(msg@));
            } else {
                assert(views(out@) =~= before + Seq::<Seq<char>>::empty());
            }
            d = d + 1;
        }
        assert(deps.take(raw.deps@.len() as int) =~= deps);
        k = k + 1;
    }
    out
}

/// The programs of one rule's own commands: the first word of each
/// command that has one. A shell rule runs `sh`; a rule that delegates to a
/// subdirectory runs `pbuild` or `make`, so neither is listed.
pub open spec fn rule_programs(r: RuleView) -> Seq<(Seq<char>, Seq<char>)>
    decreases r.commands.len(),
{
    if r.shell || r.subdir is Some || r.makedir is Some || r.commands.len() == 0 {
        seq![]
    } else {
        rule_programs(RuleView { commands: r.commands.drop_last(), ..r }) + if r.commands.last().len() > 0 {
            seq![(r.target.1, r.commands.last()[0])]
        } else {
            seq![]
        }
    }
}

/// The programs the rules run, each with its rule's name.
pub open spec fn programs_of(rs: Seq<RuleView>) -> Seq<(Seq<char>, Seq<char>)>
    decreases rs.len(),
{
    if rs.len() == 0 {
        seq![]
    } else {
        programs_of(rs.drop_last()) + rule_programs(rs.last())
    }
}

/// The pairs' views.
pub open spec fn pair_views(v: Seq<(String, String)>) -> Seq<(Seq<char>, Seq<char>)> {
    v.map_values(|p: (String, String)| (p.0@, p.1@))
}

/// The programs each rule runs directly, for checking that they exist:
/// the rule's name and the program.
pub fn command_programs(rules: &Vec<Rule>) -> (r: Vec<(String, String)>)
    ensures
        pair_views(r@) == programs_of(rule_views(rules@)),
{
    let ghost rs = rule_views(rules@);
    let mut out: Vec<(String, String)> = Vec::new();
    let mut i: usize = 0;
    while i < rules.len()
        invariant
            i <= rules@.len(),
            rs == rule_views(rules@),
            pair_views(out@) == programs_of(rs.take(i as int)),
        decreases rules@.len() - i,
    {
        let rule = &rules[i];
        let ghost r = rule@;
        assert(rs.take(i + 1).drop_last() =~= rs.take(i as int));
        assert(rs.take(i + 1).last() == r);
        let ghost start = pair_views(out@);
        if !rule.shell && rule.subdir.is_none() && rule.makedir.is_none() {
            let mut c: usize = 0;
            while c < rule.commands.len()
                invariant
                    c <= rule.commands@.len(),
                    r == rule@,
                    !r.shell && r.subdir is None && r.makedir is None,
                    pair_views(out@) == start + rule_programs(
                        RuleView { commands: r.commands.take(c as int), ..r },
                    ),
                decreases rule.commands@.len() - c,
            {
                let ghost before = pair_views(out@);
                let ghost cs = r.commands.take(c + 1);
                assert(cs.drop_last() =~= r.commands.take(c as int));
                assert(cs.last() == views(rule.commands@[c as int]@));
                if rule.commands[c].len() > 0 {
                    let name = rule.target.display_string();
                    let program = copy_string(&rule.commands[c][0]);
                    out.push((name, program));
                    assert(pair_views(out@) =~= before.push((name@, program@)));
                } else {
                    assert(pair_views(out@) =~= before + Seq::<(Seq<char>, Seq<char>)>::empty());
                }
                c = c + 1;
            }
            assert(r.commands.take(rule.commands@.len() as int) =~= r.commands);
            assert(RuleView { commands: r.commands, ..r } == r);
        } else {
            assert(pair_views(out@) =~= start + Seq::<(Seq<char>, Seq<char>)>::empty());
        }
        i = i + 1;
    }
    assert(rs.take(rules@.len() as int) =~= rs);
    out
}

/// What the doctor says of one input pattern of the rule named `rule`,
/// given what expanding it gave and whether a file of that name exists:
/// a pattern that cannot be expanded, or that is kept as it is (it matched
/// nothing) and names no file, is a problem.
pub open spec fn input_problem_of(
    rule: Seq<char>,
    pattern: Seq<char>,
    expansion: Result<Seq<Seq<char>>, (crate::config::ErrorKind, Seq<char>, Seq<char>)>,
    exists: bool,
) -> Option<Seq<char>> {
    match expansion {
        Err(e) => Some("rule `"@ + rule + "`: "@ + error_message(e)),
        Ok(found) => if found.len() == 1 && found[0] == pattern && !exists {
            Some("rule `"@ + rule + "`: input `"@ + pattern + "` matches no files"@)
        } else {
            None
        },
    }
}

/// The doctor's finding for one input pattern (see `input_problem_of`).
pub fn input_problem(rule: &str, pattern: &str, expansion: &Result<Vec<String>, ConfigError>, exists: bool) -> (r:
    Option<String>)
    ensures
        crate::types::opt_view(r) == input_problem_of(
            rule@,
            pattern@,
            match expansion {
                Ok(v) => Ok(views(v@)),
                Err(e) => Err(e@),
            },
            exists,
        ),
{
    match expansion {
        Err(e) => Some(String::from_str("rule `").concat(rule).concat("`: ").concat(e.message().as_str())),
        Ok(found) => {
            if found.len() == 1 && str_eq(found[0].as_str(), pattern) && !exists {
                Some(
                    String::from_str("rule `").concat(rule).concat("`: input `").concat(pattern).concat(
                        "` matches no files",
                    ),
                )
            } else {
                None
            }
        },
    }
}

/// `lines`, each on a line of its own indented by two spaces.
pub open spec fn indented_lines(lines: Seq<Seq<char>>) -> Seq<char>
    decreases lines.len(),
{
    if lines.len() == 0 {
        seq![]
    } else {
        indented_lines(lines.drop_last()) + "\n  "@ + lines.last()
    }
}

/// The error loading gives for the outputs two rules declare.
pub open spec fn conflict_report(lines: Seq<Seq<char>>) -> Seq<char> {
    "output conflicts detected:"@ + indented_lines(lines)
}

/// Whether a build file can be loaded: it is refused, with every conflict
/// listed, when two rules declare the same output.
pub fn load_problems(bf: &BuildFile) -> (r: Result<(), String>)
    ensures
        ({
            let lines = conflict_lines(bf.rules.entries(), bf.rules.entries().len() as int);
            match r {
                Ok(_) => lines.len() == 0,
                Err(m) => lines.len() > 0 && m@ == conflict_report(lines),
            }
        }),
{
    let conflicts = output_conflicts(bf);
    if conflicts.len() == 0 {
        return Ok(());
    }
    let mut msg = String::from_str("output conflicts detected:");
    let mut i: usize = 0;
    while i < conflicts.len()
        invariant
            i <= conflicts@.len(),
            msg@ == "output conflicts detected:"@ + indented_lines(views(conflicts@).take(i as int)),
        decreases conflicts@.len() - i,
    {
        let ghost before = msg@;
        proof {
            let t = views(conflicts@).take(i + 1);
            assert(t.drop_last() =~= views(conflicts@).take(i as int));
            assert(t.last() == conflicts@[i as int]@);
        }
        msg = msg.concat("\n  ").concat(conflicts[i].as_str());
        assert(msg@ =~= before + "\n  "@ + conflicts@[i as int]@);
        i = i + 1;
    }
    assert(views(conflicts@).take(i as int) =~= views(conflicts@));
    Err(msg)
}

} // verus!
