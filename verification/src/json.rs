//! JSON output of `status --json`, `graph --json` and `why --json`.

use vstd::prelude::*;
use vstd::string::StringExecFns;

use crate::text::{join_str, join_strings, push_char, to_chars, views};
use crate::types::{rule_views, Rule, RuleView};

verus! {

/// The lowercase hex digit for `n` (below 16).
pub open spec fn hex_char_of(n: u32) -> char {
    if n < 10 {
        (('0' as u32) + n) as char
    } else {
        (('a' as u32) + n - 10) as char
    }
}

/// A character inside a JSON string: quotes, backslashes and control
/// characters escaped.
pub open spec fn json_char(c: char) -> Seq<char> {
    if c == '"' {
        seq!['\\', '"']
    } else if c == '\\' {
        seq!['\\', '\\']
    } else if c == '\n' {
        seq!['\\', 'n']
    } else if c == '\r' {
        seq!['\\', 'r']
    } else if c == '\t' {
        seq!['\\', 't']
    } else if (c as u32) < 0x20 {
        seq!['\\', 'u', '0', '0', hex_char_of((c as u32) / 16), hex_char_of((c as u32) % 16)]
    } else {
        seq![c]
    }
}

/// The characters of `s` escaped for a JSON string.
pub open spec fn json_escape(s: Seq<char>) -> Seq<char>
    decreases s.len(),
{
    if s.len() == 0 {
        seq![]
    } else {
        json_escape(s.drop_last()) + json_char(s.last())
    }
}

/// `s` as a JSON string.
pub open spec fn json_quote(s: Seq<char>) -> Seq<char> {
    seq!['"'] + json_escape(s) + seq!['"']
}

fn hex_char(n: u32) -> (c: char)
    requires
        n < 16,
    ensures
        c == hex_char_of(n),
{
    if n < 10 {
        proof {
            assert(0x30 <= '0' as u32 + n <= 0x39);
        }
        char_of(('0' as u32) + n)
    } else {
        proof {
            assert(0x61 <= 'a' as u32 + n - 10 <= 0x66);
        }
        char_of(('a' as u32) + n - 10)
    }
}

/// The character with an ASCII code.
fn char_of(n: u32) -> (c: char)
    requires
        n < 0x80,
    ensures
        c == n as char,
{
    let b: u8 = n as u8;
    b as char
}

/// Append `c` escaped for a JSON string.
fn push_json_char(out: &mut Vec<char>, c: char)
    ensures
        final(out)@ == old(out)@ + json_char(c),
{
    let ghost start = out@;
    if c == '"' || c == '\\' {
        out.push('\\');
        out.push(c);
    } else if c == '\n' {
        out.push('\\');
        out.push('n');
    } else if c == '\r' {
        out.push('\\');
        out.push('r');
    } else if c == '\t' {
        out.push('\\');
        out.push('t');
    } else if (c as u32) < 0x20 {
        let n = c as u32;
        out.push('\\');
        out.push('u');
        out.push('0');
        out.push('0');
        out.push(hex_char(n / 16));
        out.push(hex_char(n % 16));
    } else {
        out.push(c);
    }
    assert(out@ =~= start + json_char(c));
}

/// `s` as a JSON string, quoted and escaped.
pub fn json_string(s: &str) -> (r: String)
    ensures
        r@ == json_quote(s@),
{
    let cs = to_chars(s);
    let mut out: Vec<char> = Vec::new();
    out.push('"');
    let mut i: usize = 0;
    while i < cs.len()
        invariant
            i <= cs@.len(),
            cs@ == s@,
            out@ == seq!['"'] + json_escape(s@.take(i as int)),
        decreases cs@.len() - i,
    {
        assert(s@.take(i + 1).drop_last() =~= s@.take(i as int));
        assert(s@.take(i + 1).last() == cs@[i as int]);
        push_json_char(&mut out, cs[i]);
        i = i + 1;
    }
    assert(s@.take(cs@.len() as int) =~= s@);
    out.push('"');
    let mut r = String::new();
    let mut k: usize = 0;
    while k < out.len()
        invariant
            k <= out@.len(),
            r@ == out@.take(k as int),
        decreases out@.len() - k,
    {
        push_char(&mut r, out[k]);
        assert(out@.take(k + 1) =~= out@.take(k as int).push(out@[k as int]));
        k = k + 1;
    }
    assert(out@.take(out@.len() as int) =~= out@);
    r
}

/// One entry of `status --json`.
pub open spec fn status_entry(p: (Seq<char>, bool)) -> Seq<char> {
    "{\"target\": "@ + json_quote(p.0) + ", \"state\": "@ + if p.1 {
        "\"dirty\"}"@
    } else {
        "\"clean\"}"@
    }
}

/// `status --json`: an array of the targets and their states.
pub open spec fn status_json_of(statuses: Seq<(Seq<char>, bool)>) -> Seq<char> {
    "["@ + join_str(statuses.map_values(|p: (Seq<char>, bool)| status_entry(p)), ", "@) + "]"@
}

/// The JSON of `status --json` for the statuses `check_status` gives.
pub fn status_json(statuses: &Vec<(String, bool)>) -> (r: String)
    ensures
        r@ == status_json_of(statuses@.map_values(|p: (String, bool)| (p.0@, p.1))),
{
    let ghost sv = statuses@.map_values(|p: (String, bool)| (p.0@, p.1));
    let mut entries: Vec<String> = Vec::new();
    let mut i: usize = 0;
    while i < statuses.len()
        invariant
            i <= statuses@.len(),
            sv == statuses@.map_values(|p: (String, bool)| (p.0@, p.1)),
            views(entries@) == sv.take(i as int).map_values(|p: (Seq<char>, bool)| status_entry(p)),
        decreases statuses@.len() - i,
    {
        let state = if statuses[i].1 {
            "\"dirty\"}"
        } else {
            "\"clean\"}"
        };
        let e = String::from_str("{\"target\": ").concat(json_string(statuses[i].0.as_str()).as_str()).concat(
            ", \"state\": ",
        ).concat(state);
        let ghost before = views(entries@);
        entries.push(e);
        assert(sv[i as int] == (statuses@[i as int].0@, statuses@[i as int].1));
        assert(views(entries@) =~= before.push(e@));
        assert(sv.take(i + 1).map_values(|p: (Seq<char>, bool)| status_entry(p)) =~= sv.take(i as int).map_values(
            |p: (Seq<char>, bool)| status_entry(p),
        ).push(status_entry(sv[i as int])));
        i = i + 1;
    }
    assert(sv.take(statuses@.len() as int) =~= sv);
    String::from_str("[").concat(join_strings(&entries, ", ").as_str()).concat("]")
}

/// One entry of `graph --json`: a rule's target and its dependencies.
pub open spec fn graph_entry(r: RuleView) -> Seq<char> {
    "{\"target\": "@ + json_quote(r.target.1) + ", \"deps\": ["@ + join_str(
        r.deps.map_values(|d: (bool, Seq<char>)| json_quote(d.1)),
        ", "@,
    ) + "]}"@
}

/// `graph --json`: an array of the plan's rules with their dependencies.
pub open spec fn graph_json_of(rs: Seq<RuleView>) -> Seq<char> {
    "["@ + join_str(rs.map_values(|r: RuleView| graph_entry(r)), ", "@) + "]"@
}

/// The JSON of `graph --json` for a plan.
pub fn graph_json(plan: &Vec<Rule>) -> (r: String)
    ensures
        r@ == graph_json_of(rule_views(plan@)),
{
    let ghost rs = rule_views(plan@);
    let mut entries: Vec<String> = Vec::new();
    let mut i: usize = 0;
    while i < plan.len()
        invariant
            i <= plan@.len(),
            rs == rule_views(plan@),
            views(entries@) == rs.take(i as int).map_values(|r: RuleView| graph_entry(r)),
        decreases plan@.len() - i,
    {
        let rule = &plan[i];
        let ghost dv = rule@.deps;
        let mut deps: Vec<String> = Vec::new();
        let mut k: usize = 0;
        while k < rule.deps.len()
            invariant
                k <= rule.deps@.len(),
                dv == rule@.deps,
                views(deps@) == dv.take(k as int).map_values(|d: (bool, Seq<char>)| json_quote(d.1)),
            decreases rule.deps@.len() - k,
        {
            let q = json_string(rule.deps[k].name().as_str());
            let ghost before = views(deps@);
            deps.push(q);
            assert(dv[k as int] == rule.deps@[k as int]@);
            assert(views(deps@) =~= before.push(q@));
            assert(dv.take(k + 1).map_values(|d: (bool, Seq<char>)| json_quote(d.1)) =~= dv.take(
                k as int,
            ).map_values(|d: (bool, Seq<char>)| json_quote(d.1)).push(json_quote(dv[k as int].1)));
            k = k + 1;
        }
        assert(dv.take(rule.deps@.len() as int) =~= dv);
        let e = String::from_str("{\"target\": ").concat(json_string(rule.target.name().as_str()).as_str()).concat(
            ", \"deps\": [",
        ).concat(join_strings(&deps, ", ").as_str()).concat("]}");
        let ghost before = views(entries@);
        entries.push(e);
        assert(rs[i as int] == rule@);
        assert(views(entries@) =~= before.push(e@));
        assert(rs.take(i + 1).map_values(|r: RuleView| graph_entry(r)) =~= rs.take(i as int).map_values(
            |r: RuleView| graph_entry(r),
        ).push(graph_entry(rs[i as int])));
        i = i + 1;
    }
    assert(rs.take(plan@.len() as int) =~= rs);
    String::from_str("[").concat(join_strings(&entries, ", ").as_str()).concat("]")
}

/// `why --json`: the target, whether it would rebuild, and why (or that
/// it is up to date).
pub open spec fn why_json_of(name: Seq<char>, reason: Option<Seq<char>>) -> Seq<char> {
    "{\"target\": "@ + json_quote(name) + match reason {
        Some(r) => ", \"dirty\": true, \"reason\": "@ + json_quote(r),
        None => ", \"dirty\": false, \"reason\": "@ + json_quote("up to date"@),
    } + "}"@
}

/// The JSON of `why --json`, given the reason `why_reason` found.
pub fn why_json(name: &str, reason: &Option<String>) -> (r: String)
    ensures
        r@ == why_json_of(name@, crate::types::opt_view(*reason)),
{
    let head = String::from_str("{\"target\": ").concat(json_string(name).as_str());
    let tail = match reason {
        Some(text) => String::from_str(", \"dirty\": true, \"reason\": ").concat(json_string(text.as_str()).as_str()),
        None => String::from_str(", \"dirty\": false, \"reason\": ").concat(json_string("up to date").as_str()),
    };
    head.concat(tail.as_str()).concat("}")
}

} // verus!
