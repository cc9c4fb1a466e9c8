//! The dependency graph: which rules a target needs, in an order that runs
//! every dependency before the rules that need it.

use vstd::prelude::*;
use vstd::set_lib::{lemma_int_range, lemma_len_subset, set_int_range};
use vstd::string::StringExecFns;

use crate::strmap::copy_string;
use crate::text::{escape_quotes, escape_quotes_exec, views};
use crate::types::{rule_views, target_views, Rule, RuleView, Target};

verus! {

broadcast use vstd::seq_lib::seq_to_set_is_finite;

/// The position of the rule for `t` among the first `n` rules: the last one
/// whose target is `t`, or -1.
pub open spec fn rule_index_upto(rs: Seq<RuleView>, t: (bool, Seq<char>), n: int) -> int
    decreases n,
{
    if n <= 0 {
        -1
    } else if rs[n - 1].target == t {
        n - 1
    } else {
        rule_index_upto(rs, t, n - 1)
    }
}

/// The position of the rule that builds `t`: the last rule whose target is
/// `t` (a later rule for the same target replaces an earlier one), or -1.
pub open spec fn rule_index(rs: Seq<RuleView>, t: (bool, Seq<char>)) -> int {
    rule_index_upto(rs, t, rs.len() as int)
}

/// Some rule builds `t`.
pub open spec fn has_rule(rs: Seq<RuleView>, t: (bool, Seq<char>)) -> bool {
    rule_index(rs, t) >= 0
}

/// The rule that builds `a` lists `b` among its dependencies.
pub open spec fn depends_on(rs: Seq<RuleView>, a: (bool, Seq<char>), b: (bool, Seq<char>)) -> bool {
    has_rule(rs, a) && rs[rule_index(rs, a)].deps.contains(b)
}

/// A non-empty sequence of targets, each depending on the next.
pub open spec fn is_chain(rs: Seq<RuleView>, p: Seq<(bool, Seq<char>)>) -> bool {
    &&& p.len() >= 1
    &&& forall|i: int| 0 <= i < p.len() - 1 ==> #[trigger] depends_on(rs, p[i], p[i + 1])
}

/// `t` is `root` or is reached from it through dependencies.
pub open spec fn reachable(rs: Seq<RuleView>, root: (bool, Seq<char>), t: (bool, Seq<char>)) -> bool {
    exists|p: Seq<(bool, Seq<char>)>| #[trigger] is_chain(rs, p) && p[0] == root && p.last() == t
}

/// `t` depends, through one or more steps, on itself.
pub open spec fn on_cycle(rs: Seq<RuleView>, t: (bool, Seq<char>)) -> bool {
    exists|p: Seq<(bool, Seq<char>)>|
        #[trigger] is_chain(rs, p) && p.len() >= 2 && p[0] == t && p.last() == t
}

/// Every target reached from `root` has a rule and lies on no cycle.
pub open spec fn well_formed(rs: Seq<RuleView>, root: (bool, Seq<char>)) -> bool {
    forall|t: (bool, Seq<char>)| #[trigger]
        reachable(rs, root, t) ==> has_rule(rs, t) && !on_cycle(rs, t)
}

/// The targets of a sequence of rules.
pub open spec fn targets_of(pv: Seq<RuleView>) -> Seq<(bool, Seq<char>)> {
    pv.map_values(|r: RuleView| r.target)
}

/// `d` is the target of one of the first `i` rules of `pv`.
pub open spec fn listed_before(pv: Seq<RuleView>, i: int, d: (bool, Seq<char>)) -> bool {
    exists|j: int| 0 <= j < i && #[trigger] pv[j].target == d
}

/// `pv` lists rules of `rs` for targets reached from `root`: each target once,
/// each with the rule that builds it, each after all of its dependencies.
pub open spec fn ordered_rules(rs: Seq<RuleView>, root: (bool, Seq<char>), pv: Seq<RuleView>) -> bool {
    &&& targets_of(pv).no_duplicates()
    &&& forall|i: int|
        0 <= i < pv.len() ==> has_rule(rs, #[trigger] pv[i].target) && pv[i] == rs[rule_index(
            rs,
            pv[i].target,
        )] && reachable(rs, root, pv[i].target)
    &&& forall|i: int, k: int|
        0 <= i < pv.len() && 0 <= k < pv[i].deps.len() ==> listed_before(
            pv,
            i,
            #[trigger] pv[i].deps[k],
        )
}

/// A build plan for `root`: ordered rules, ending with the rule for `root`.
pub open spec fn is_plan(rs: Seq<RuleView>, root: (bool, Seq<char>), pv: Seq<RuleView>) -> bool {
    &&& ordered_rules(rs, root, pv)
    &&& pv.len() > 0
    &&& pv.last().target == root
}

/// The message for a target that no rule builds.
pub open spec fn missing_message(t: (bool, Seq<char>)) -> Seq<char> {
    "No rule for target: "@ + t.1
}

/// The message for a target that depends on itself.
pub open spec fn cycle_message(t: (bool, Seq<char>)) -> Seq<char> {
    "Cycle detected at: "@ + t.1
}

/// `msg` names a target reached from `root` that has no rule, or one that
/// lies on a cycle.
pub open spec fn plan_error(rs: Seq<RuleView>, root: (bool, Seq<char>), msg: Seq<char>) -> bool {
    exists|t: (bool, Seq<char>)|
        #[trigger] reachable(rs, root, t) && ((!has_rule(rs, t) && msg == missing_message(t)) || (
        on_cycle(rs, t) && msg == cycle_message(t)))
}

/// What `rule_index_upto` is.
pub proof fn lemma_rule_index_upto(rs: Seq<RuleView>, t: (bool, Seq<char>), n: int)
    requires
        0 <= n <= rs.len(),
    ensures
        -1 <= rule_index_upto(rs, t, n) < n,
        rule_index_upto(rs, t, n) >= 0 ==> rs[rule_index_upto(rs, t, n)].target == t,
        forall|j: int| rule_index_upto(rs, t, n) < j < n ==> rs[j].target != t,
    decreases n,
{
    if n > 0 {
        lemma_rule_index_upto(rs, t, n - 1);
    }
}

/// The rule for `t` is the last one with target `t`.
pub proof fn lemma_rule_index(rs: Seq<RuleView>, t: (bool, Seq<char>))
    ensures
        -1 <= rule_index(rs, t) < rs.len(),
        has_rule(rs, t) ==> rs[rule_index(rs, t)].target == t,
        forall|j: int| rule_index(rs, t) < j < rs.len() ==> rs[j].target != t,
{
    lemma_rule_index_upto(rs, t, rs.len() as int);
}

/// A rule whose target is `t`, with no later one, is the rule for `t`.
proof fn lemma_rule_index_is(rs: Seq<RuleView>, t: (bool, Seq<char>), i: int, n: int)
    requires
        0 <= i < n <= rs.len(),
        rs[i].target == t,
        forall|j: int| i < j < n ==> rs[j].target != t,
    ensures
        rule_index_upto(rs, t, n) == i,
    decreases n,
{
    if n - 1 > i {
        lemma_rule_index_is(rs, t, i, n - 1);
    }
}

/// No rule with target `t` among the first `n`: no index.
proof fn lemma_rule_index_none(rs: Seq<RuleView>, t: (bool, Seq<char>), n: int)
    requires
        0 <= n <= rs.len(),
        forall|j: int| 0 <= j < n ==> rs[j].target != t,
    ensures
        rule_index_upto(rs, t, n) == -1,
    decreases n,
{
    if n > 0 {
        lemma_rule_index_none(rs, t, n - 1);
    }
}

/// A sequence of distinct targets that all have rules is no longer than the
/// list of rules.
proof fn lemma_stack_bound(rs: Seq<RuleView>, st: Seq<(bool, Seq<char>)>)
    requires
        st.no_duplicates(),
        forall|i: int| 0 <= i < st.len() ==> has_rule(rs, #[trigger] st[i]),
    ensures
        st.len() <= rs.len(),
{
    let idx = st.map_values(|t: (bool, Seq<char>)| rule_index(rs, t));
    assert forall|i: int, j: int| 0 <= i < idx.len() && 0 <= j < idx.len() && i != j implies idx[i]
        != idx[j] by {
        lemma_rule_index(rs, st[i]);
        lemma_rule_index(rs, st[j]);
        assert(has_rule(rs, st[i]) && has_rule(rs, st[j]));
    }
    idx.unique_seq_to_set();
    lemma_int_range(0, rs.len() as int);
    assert forall|x: int| idx.to_set().contains(x) implies set_int_range(0, rs.len() as int).contains(
        x,
    ) by {
        let i = choose|i: int| 0 <= i < idx.len() && idx[i] == x;
        lemma_rule_index(rs, st[i]);
        assert(has_rule(rs, st[i]));
    }
    lemma_len_subset(idx.to_set(), set_int_range(0, rs.len() as int));
}

/// What the depth-first search keeps while it runs: the stack of targets
/// being expanded is a chain from `root` ending in a target that depends on
/// `t` (or is empty with `t` the root), each with a rule, none twice.
spec fn stack_ok(
    rs: Seq<RuleView>,
    root: (bool, Seq<char>),
    sv: Seq<(bool, Seq<char>)>,
    t: (bool, Seq<char>),
) -> bool {
    &&& sv.no_duplicates()
    &&& forall|i: int| 0 <= i < sv.len() ==> has_rule(rs, #[trigger] sv[i])
    &&& sv.len() == 0 ==> t == root
    &&& sv.len() > 0 ==> sv[0] == root && is_chain(rs, sv) && depends_on(rs, sv.last(), t)
}

/// No target on the stack is already in the plan.
spec fn disjoint(sv: Seq<(bool, Seq<char>)>, pv: Seq<RuleView>) -> bool {
    forall|i: int| 0 <= i < sv.len() ==> !targets_of(pv).contains(#[trigger] sv[i])
}

/// The stack followed by `t` is a chain from the root to `t`.
proof fn lemma_stack_reaches(
    rs: Seq<RuleView>,
    root: (bool, Seq<char>),
    sv: Seq<(bool, Seq<char>)>,
    t: (bool, Seq<char>),
)
    requires
        stack_ok(rs, root, sv, t),
    ensures
        reachable(rs, root, t),
        is_chain(rs, sv.push(t)),
{
    let c = sv.push(t);
    assert forall|i: int| 0 <= i < c.len() - 1 implies #[trigger] depends_on(rs, c[i], c[i + 1]) by {
        if i < sv.len() - 1 {
            assert(c[i] == sv[i] && c[i + 1] == sv[i + 1]);
            assert(depends_on(rs, sv[i], sv[i + 1]));
        } else {
            assert(c[i] == sv.last() && c[i + 1] == t);
        }
    }
    assert(is_chain(rs, c));
    assert(c[0] == root && c.last() == t);
}

/// A target already on the stack closes a cycle.
proof fn lemma_stack_cycle(
    rs: Seq<RuleView>,
    root: (bool, Seq<char>),
    sv: Seq<(bool, Seq<char>)>,
    t: (bool, Seq<char>),
    p: int,
)
    requires
        stack_ok(rs, root, sv, t),
        0 <= p < sv.len(),
        sv[p] == t,
    ensures
        reachable(rs, root, t),
        on_cycle(rs, t),
{
    lemma_stack_reaches(rs, root, sv, t);
    let full = sv.push(t);
    let c = full.subrange(p, full.len() as int);
    assert forall|i: int| 0 <= i < c.len() - 1 implies #[trigger] depends_on(rs, c[i], c[i + 1]) by {
        assert(c[i] == full[p + i] && c[i + 1] == full[p + i + 1]);
        assert(depends_on(rs, full[p + i], full[p + i + 1]));
    }
    assert(is_chain(rs, c));
    assert(c[0] == t && c.last() == t && c.len() >= 2);
}

/// The rule for target `t` within `rules`, as `rule_index` gives it.
fn find_rule(rules: &Vec<Rule>, t: &Target) -> (r: Option<usize>)
    ensures
        match r {
            Some(i) => i < rules@.len() && i == rule_index(rule_views(rules@), t@),
            None => !has_rule(rule_views(rules@), t@),
        },
{
    let ghost rs = rule_views(rules@);
    let mut i = rules.len();
    while i > 0
        invariant
            i <= rules@.len(),
            rs == rule_views(rules@),
            forall|j: int| i <= j < rules@.len() ==> rs[j].target != t@,
        decreases i,
    {
        i = i - 1;
        if rules[i].target.same(t) {
            proof {
                lemma_rule_index_is(rs, t@, i as int, rs.len() as int);
            }
            return Some(i);
        }
    }
    proof {
        lemma_rule_index_none(rs, t@, rs.len() as int);
    }
    None
}

/// Whether one of `v` has target `t`.
fn stack_position(v: &Vec<Target>, t: &Target) -> (r: Option<usize>)
    ensures
        match r {
            Some(i) => i < v@.len() && v@[i as int]@ == t@,
            None => !target_views(v@).contains(t@),
        },
{
    let mut i: usize = 0;
    while i < v.len()
        invariant
            i <= v@.len(),
            forall|j: int| 0 <= j < i ==> v@[j]@ != t@,
        decreases v@.len() - i,
    {
        if v[i].same(t) {
            return Some(i);
        }
        i = i + 1;
    }
    proof {
        if target_views(v@).contains(t@) {
            let j = choose|j: int| 0 <= j < target_views(v@).len() && target_views(v@)[j] == t@;
            assert(v@[j]@ == t@);
        }
    }
    None
}

/// Whether one of the rules in `acc` has target `t`.
fn planned(acc: &Vec<Rule>, t: &Target) -> (b: bool)
    ensures
        b == targets_of(rule_views(acc@)).contains(t@),
{
    let mut i: usize = 0;
    while i < acc.len()
        invariant
            i <= acc@.len(),
            forall|j: int| 0 <= j < i ==> acc@[j]@.target != t@,
        decreases acc@.len() - i,
    {
        if acc[i].target.same(t) {
            assert(targets_of(rule_views(acc@))[i as int] == t@);
            return true;
        }
        i = i + 1;
    }
    proof {
        if targets_of(rule_views(acc@)).contains(t@) {
            let j = choose|j: int|
                0 <= j < targets_of(rule_views(acc@)).len() && targets_of(rule_views(acc@))[j]
                    == t@;
            assert(acc@[j]@.target == t@);
        }
    }
    false
}

/// "No rule for target: <t>".
fn missing_text(t: &Target) -> (s: String)
    ensures
        s@ == missing_message(t@),
{
    let s = String::from_str("No rule for target: ");
    s.concat(t.name().as_str())
}

/// "Cycle detected at: <t>".
fn cycle_text(t: &Target) -> (s: String)
    ensures
        s@ == cycle_message(t@),
{
    let s = String::from_str("Cycle detected at: ");
    s.concat(t.name().as_str())
}

/// The depth-first walk that builds a plan: from `t`, with `st` the targets
/// being expanded and `acc` the rules planned so far. A planned target adds
/// nothing; a target on the stack closes a cycle; a target without a rule
/// is missing; otherwise its dependencies are walked in order, then its rule
/// is appended. The first problem met is the result.
pub open spec fn dfs_of(
    rs: Seq<RuleView>,
    t: (bool, Seq<char>),
    st: Seq<(bool, Seq<char>)>,
    acc: Seq<RuleView>,
) -> Result<Seq<RuleView>, Seq<char>>
    decreases rs.len() - st.len(), 1int, 0int,
{
    if targets_of(acc).contains(t) {
        Ok(acc)
    } else if st.contains(t) {
        Err(cycle_message(t))
    } else if !has_rule(rs, t) {
        Err(missing_message(t))
    } else if st.len() >= rs.len() {
        // A stack of distinct targets with rules is never this long.
        Err(cycle_message(t))
    } else {
        let r = rs[rule_index(rs, t)];
        match deps_of(rs, r.deps, r.deps.len() as int, st.push(t), acc) {
            Ok(a) => Ok(a.push(r)),
            Err(e) => Err(e),
        }
    }
}

/// The walk over the first `k` dependencies `deps`, in order, with `st` the
/// targets being expanded.
pub open spec fn deps_of(
    rs: Seq<RuleView>,
    deps: Seq<(bool, Seq<char>)>,
    k: int,
    st: Seq<(bool, Seq<char>)>,
    acc: Seq<RuleView>,
) -> Result<Seq<RuleView>, Seq<char>>
    decreases rs.len() - st.len() + 1, 0int, k,
{
    if k <= 0 || k > deps.len() {
        Ok(acc)
    } else if st.len() > rs.len() {
        Ok(acc)
    } else {
        match deps_of(rs, deps, k - 1, st, acc) {
            Ok(a) => dfs_of(rs, deps[k - 1], st, a),
            Err(e) => Err(e),
        }
    }
}

/// A walk over dependencies that failed at the `k`-th fails the same way
/// over more of them.
proof fn lemma_deps_err(
    rs: Seq<RuleView>,
    deps: Seq<(bool, Seq<char>)>,
    k: int,
    m: int,
    st: Seq<(bool, Seq<char>)>,
    acc: Seq<RuleView>,
)
    requires
        0 < k <= m <= deps.len(),
        st.len() <= rs.len(),
        deps_of(rs, deps, k, st, acc) is Err,
    ensures
        deps_of(rs, deps, m, st, acc) == deps_of(rs, deps, k, st, acc),
    decreases m - k,
{
    if m > k {
        lemma_deps_err(rs, deps, k, m - 1, st, acc);
    }
}

/// Depth-first search from `target`: appends to `acc` the rules `target`
/// needs that are not there yet, each after its dependencies, ending with
/// the rule for `target`.
fn dfs(
    rules: &Vec<Rule>,
    target: &Target,
    stack: &mut Vec<Target>,
    acc: &mut Vec<Rule>,
    Ghost(root): Ghost<(bool, Seq<char>)>,
) -> (r: Result<(), String>)
    requires
        stack_ok(rule_views(rules@), root, target_views(old(stack)@), target@),
        ordered_rules(rule_views(rules@), root, rule_views(old(acc)@)),
        disjoint(target_views(old(stack)@), rule_views(old(acc)@)),
    ensures
        match r {
            Ok(()) => {
                &&& final(stack)@ == old(stack)@
                &&& ordered_rules(rule_views(rules@), root, rule_views(final(acc)@))
                &&& final(acc)@.len() >= old(acc)@.len()
                &&& final(acc)@.take(old(acc)@.len() as int) == old(acc)@
                &&& targets_of(rule_views(final(acc)@)).contains(target@)
                &&& disjoint(target_views(old(stack)@), rule_views(final(acc)@))
                &&& !targets_of(rule_views(old(acc)@)).contains(target@) ==> final(acc)@.last()@.target
                    == target@
            },
            Err(e) => plan_error(rule_views(rules@), root, e@),
        },
        dfs_of(rule_views(rules@), target@, target_views(old(stack)@), rule_views(old(acc)@)) == match r {
            Ok(_) => Ok::<Seq<RuleView>, Seq<char>>(rule_views(final(acc)@)),
            Err(e) => Err(e@),
        },
    decreases rules@.len() - old(stack)@.len(),
{
    let ghost rs = rule_views(rules@);
    let ghost sv0 = target_views(stack@);
    let ghost acc0 = acc@;
    if planned(acc, target) {
        assert(acc@.take(acc@.len() as int) == acc@);
        return Ok(());
    }
    match stack_position(stack, target) {
        Some(p) => {
            proof {
                assert(sv0[p as int] == target@);
                assert(sv0.contains(target@));
                lemma_stack_cycle(rs, root, sv0, target@, p as int);
            }
            return Err(cycle_text(target));
        },
        None => {},
    }
    let idx = match find_rule(rules, target) {
        None => {
            proof {
                lemma_stack_reaches(rs, root, sv0, target@);
            }
            return Err(missing_text(target));
        },
        Some(i) => i,
    };
    proof {
        lemma_rule_index(rs, target@);
        lemma_stack_reaches(rs, root, sv0, target@);
        let sv1 = sv0.push(target@);
        assert forall|a: int, b: int| 0 <= a < sv1.len() && 0 <= b < sv1.len() && a != b implies sv1[a]
            != sv1[b] by {
            if a < sv0.len() && b < sv0.len() {
                assert(sv1[a] == sv0[a] && sv1[b] == sv0[b]);
            } else if a < sv0.len() {
                assert(sv1[a] == sv0[a]);
                assert(sv0.contains(sv0[a]));
            } else {
                assert(sv1[b] == sv0[b]);
                assert(sv0.contains(sv0[b]));
            }
        }
        assert forall|i: int| 0 <= i < sv1.len() implies has_rule(rs, #[trigger] sv1[i]) by {
            if i < sv0.len() {
                assert(sv1[i] == sv0[i]);
            }
        }
        lemma_stack_bound(rs, sv1);
    }
    stack.push(target.duplicate());
    let ghost sv1 = target_views(stack@);
    assert(sv1 == sv0.push(target@));
    let ghost stack1 = stack@;
    let n = rules[idx].deps.len();
    let mut k: usize = 0;
    while k < n
        invariant
            rs == rule_views(rules@),
            idx < rules@.len(),
            idx == rule_index(rs, target@),
            has_rule(rs, target@),
            rs[idx as int].target == target@,
            n == rules@[idx as int].deps@.len(),
            k <= n,
            stack@ == stack1,
            sv0 == target_views(old(stack)@),
            target_views(stack@) == sv0.push(target@),
            stack_ok(rs, root, sv0, target@),
            sv0.push(target@).no_duplicates(),
            forall|i: int| 0 <= i < sv0.push(target@).len() ==> has_rule(rs, #[trigger] sv0.push(target@)[i]),
            is_chain(rs, sv0.push(target@)),
            sv0.push(target@)[0] == root,
            sv0.push(target@).len() <= rs.len(),
            !sv0.contains(target@),
            ordered_rules(rs, root, rule_views(acc@)),
            acc@.len() >= acc0.len(),
            acc@.take(acc0.len() as int) == acc0,
            disjoint(sv0.push(target@), rule_views(acc@)),
            forall|j: int| 0 <= j < k ==> targets_of(rule_views(acc@)).contains(#[trigger] rs[idx as int].deps[j]),
            acc0 == old(acc)@,
            !targets_of(rule_views(acc0)).contains(target@),
            deps_of(rs, rs[idx as int].deps, k as int, sv0.push(target@), rule_views(acc0)) == Ok::<
                Seq<RuleView>,
                Seq<char>,
            >(rule_views(acc@)),
        decreases n - k,
    {
        let ghost acc_before = acc@;
        proof {
            let sv1 = sv0.push(target@);
            assert(rs[idx as int].deps[k as int] == rules@[idx as int].deps@[k as int]@);
            assert(depends_on(rs, sv1.last(), rules@[idx as int].deps@[k as int]@));
            assert(stack@.len() == sv1.len());
            assert(rs.len() == rules@.len());
            assert(old(stack)@.len() == sv0.len());
        }
        let res = dfs(rules, &rules[idx].deps[k], stack, acc, Ghost(root));
        proof {
            assert(rules@[idx as int].deps@[k as int]@ == rs[idx as int].deps[k as int]);
            assert(deps_of(rs, rs[idx as int].deps, k + 1, sv0.push(target@), rule_views(acc0)) == dfs_of(
                rs,
                rs[idx as int].deps[k as int],
                sv0.push(target@),
                rule_views(acc_before),
            ));
        }
        match res {
            Err(e) => {
                proof {
                    lemma_deps_err(rs, rs[idx as int].deps, k + 1, n as int, sv0.push(target@), rule_views(acc0));
                    assert(rs[idx as int].deps.len() == n);
                    assert(dfs_of(rs, target@, sv0, rule_views(acc0)) == deps_of(
                        rs,
                        rs[idx as int].deps,
                        n as int,
                        sv0.push(target@),
                        rule_views(acc0),
                    ));
                }
                return Err(e);
            },
            Ok(()) => {},
        }
        proof {
            assert forall|j: int| 0 <= j <= k implies targets_of(rule_views(acc@)).contains(
                #[trigger] rs[idx as int].deps[j],
            ) by {
                if j < k {
                    let d = rs[idx as int].deps[j];
                    assert(targets_of(rule_views(acc_before)).contains(d));
                    let m = choose|m: int|
                        0 <= m < targets_of(rule_views(acc_before)).len() && targets_of(
                            rule_views(acc_before),
                        )[m] == d;
                    assert(acc@.take(acc_before.len() as int) == acc_before);
                    assert(acc@[m] == acc_before[m]);
                    assert(targets_of(rule_views(acc@))[m] == d);
                } else {
                    assert(rs[idx as int].deps[j] == rules@[idx as int].deps@[k as int]@);
                }
            }
            assert(acc@.take(acc0.len() as int) == acc0) by {
                assert(acc@.take(acc_before.len() as int) == acc_before);
                assert(acc_before.take(acc0.len() as int) == acc0);
                assert(acc@.take(acc0.len() as int) =~= acc_before.take(acc0.len() as int));
            }
        }
        k = k + 1;
    }
    let _ = stack.pop();
    assert(stack@ == stack1.drop_last());
    let ghost acc1 = acc@;
    let entry = rules[idx].duplicate();
    acc.push(entry);
    proof {
        let pv1 = rule_views(acc1);
        let pv2 = rule_views(acc@);
        assert(pv2 == pv1.push(rs[idx as int]));
        assert(!targets_of(pv1).contains(target@)) by {
            assert(sv0.push(target@)[sv0.len() as int] == target@);
        }
        assert(targets_of(pv2) == targets_of(pv1).push(target@));
        // distinct targets
        assert forall|a: int, b: int|
            0 <= a < targets_of(pv2).len() && 0 <= b < targets_of(pv2).len() && a != b implies targets_of(
            pv2,
        )[a] != targets_of(pv2)[b] by {
            if a < pv1.len() && b < pv1.len() {
                assert(targets_of(pv2)[a] == targets_of(pv1)[a]);
                assert(targets_of(pv2)[b] == targets_of(pv1)[b]);
            } else if a < pv1.len() {
                assert(targets_of(pv2)[a] == targets_of(pv1)[a]);
            } else {
                assert(targets_of(pv2)[b] == targets_of(pv1)[b]);
            }
        }
        assert forall|i: int| 0 <= i < pv2.len() implies has_rule(rs, #[trigger] pv2[i].target)
            && pv2[i] == rs[rule_index(rs, pv2[i].target)] && reachable(rs, root, pv2[i].target) by {
            if i < pv1.len() {
                assert(pv2[i] == pv1[i]);
            }
        }
        assert forall|i: int, kk: int| 0 <= i < pv2.len() && 0 <= kk < pv2[i].deps.len() implies listed_before(
            pv2,
            i,
            #[trigger] pv2[i].deps[kk],
        ) by {
            if i < pv1.len() {
                assert(pv2[i] == pv1[i]);
                assert(listed_before(pv1, i, pv1[i].deps[kk]));
                let j = choose|j: int| 0 <= j < i && #[trigger] pv1[j].target == pv1[i].deps[kk];
                assert(pv2[j] == pv1[j]);
            } else {
                let d = pv2[i].deps[kk];
                assert(d == rs[idx as int].deps[kk]);
                assert(targets_of(pv1).contains(d));
                let j = choose|j: int| 0 <= j < targets_of(pv1).len() && targets_of(pv1)[j] == d;
                assert(pv2[j] == pv1[j]);
                assert(pv2[j].target == d);
            }
        }
        assert forall|i: int| 0 <= i < sv0.len() implies !targets_of(pv2).contains(#[trigger] sv0[i]) by {
            assert(sv0.push(target@)[i] == sv0[i]);
            assert(!targets_of(pv1).contains(sv0[i]));
            if targets_of(pv2).contains(sv0[i]) {
                let j = choose|j: int| 0 <= j < targets_of(pv2).len() && targets_of(pv2)[j] == sv0[i];
                if j < pv1.len() {
                    assert(targets_of(pv1)[j] == sv0[i]);
                } else {
                    assert(sv0.contains(target@));
                }
            }
        }
        assert(targets_of(pv2)[pv1.len() as int] == target@);
        assert(acc@.take(acc0.len() as int) == acc0) by {
            assert(acc@.take(acc1.len() as int) == acc1);
            assert(acc@.take(acc0.len() as int) =~= acc1.take(acc0.len() as int));
        }
    }
    Ok(())
}

/// Given all known rules and a root target, return a topologically sorted
/// list of rules to execute (leaves first, root last), or an error string.
/// The order, and the error when there is one, are those of the
/// depth-first walk `dfs_of`: dependencies in the order they are listed.
///
/// Errors:
///   * "No rule for target: <t>"  — a dependency has no matching rule
///   * "Cycle detected at: <t>"  — the dependency graph contains a cycle
pub fn build_plan(rules: &Vec<Rule>, root: &Target) -> (r: Result<Vec<Rule>, String>)
    ensures
        match r {
            Ok(plan) => is_plan(rule_views(rules@), root@, rule_views(plan@)),
            Err(e) => plan_error(rule_views(rules@), root@, e@),
        },
        dfs_of(rule_views(rules@), root@, Seq::empty(), Seq::empty()) == match r {
            Ok(plan) => Ok::<Seq<RuleView>, Seq<char>>(rule_views(plan@)),
            Err(e) => Err(e@),
        },
{
    let mut acc: Vec<Rule> = Vec::new();
    let mut stack: Vec<Target> = Vec::new();
    proof {
        assert(target_views(stack@) =~= Seq::<(bool, Seq<char>)>::empty());
        assert(rule_views(acc@) =~= Seq::<RuleView>::empty());
        assert(targets_of(rule_views(acc@)) =~= Seq::<(bool, Seq<char>)>::empty());
    }
    match dfs(rules, root, &mut stack, &mut acc, Ghost(root@)) {
        Ok(()) => {
            proof {
                assert(!targets_of(rule_views(Seq::<Rule>::empty())).contains(root@));
                assert(rule_views(acc@).last() == acc@.last()@);
            }
            Ok(acc)
        },
        Err(e) => Err(e),
    }
}

/// A plan holds every target reached from its root.
pub proof fn lemma_plan_complete(rs: Seq<RuleView>, root: (bool, Seq<char>), pv: Seq<RuleView>)
    requires
        is_plan(rs, root, pv),
    ensures
        forall|t: (bool, Seq<char>)| #[trigger]
            reachable(rs, root, t) ==> targets_of(pv).contains(t),
{
    assert forall|t: (bool, Seq<char>)| #[trigger] reachable(rs, root, t) implies targets_of(
        pv,
    ).contains(t) by {
        let p = choose|p: Seq<(bool, Seq<char>)>| #[trigger]
            is_chain(rs, p) && p[0] == root && p.last() == t;
        lemma_chain_in_plan(rs, root, pv, p, p.len() - 1);
    }
}

/// Each target of a chain from the root is in the plan.
proof fn lemma_chain_in_plan(
    rs: Seq<RuleView>,
    root: (bool, Seq<char>),
    pv: Seq<RuleView>,
    p: Seq<(bool, Seq<char>)>,
    i: int,
)
    requires
        is_plan(rs, root, pv),
        is_chain(rs, p),
        p[0] == root,
        0 <= i < p.len(),
    ensures
        targets_of(pv).contains(p[i]),
    decreases i,
{
    if i == 0 {
        assert(targets_of(pv)[pv.len() - 1] == root);
    } else {
        lemma_chain_in_plan(rs, root, pv, p, i - 1);
        let j = choose|j: int| 0 <= j < targets_of(pv).len() && targets_of(pv)[j] == p[i - 1];
        assert(pv[j].target == p[i - 1]);
        let h = i - 1;
        assert(depends_on(rs, p[h], p[h + 1]));
        assert(h + 1 == i);
        let deps = rs[rule_index(rs, p[i - 1])].deps;
        let k = choose|k: int| 0 <= k < deps.len() && deps[k] == p[i];
        assert(pv[j].deps[k] == p[i]);
        assert(listed_before(pv, j, pv[j].deps[k]));
        let m = choose|m: int| 0 <= m < j && #[trigger] pv[m].target == p[i];
        assert(targets_of(pv)[m] == p[i]);
    }
}

/// Following a chain from a planned target only ever moves to earlier
/// positions of the plan.
proof fn lemma_chain_descends(
    rs: Seq<RuleView>,
    root: (bool, Seq<char>),
    pv: Seq<RuleView>,
    c: Seq<(bool, Seq<char>)>,
    j0: int,
    i: int,
)
    requires
        ordered_rules(rs, root, pv),
        is_chain(rs, c),
        0 <= j0 < pv.len(),
        pv[j0].target == c[0],
        1 <= i < c.len(),
    ensures
        exists|j: int| 0 <= j < j0 && #[trigger] pv[j].target == c[i],
    decreases i,
{
    let (ja, a) = if i == 1 {
        (j0, c[0])
    } else {
        lemma_chain_descends(rs, root, pv, c, j0, i - 1);
        let ja = choose|j: int| 0 <= j < j0 && #[trigger] pv[j].target == c[i - 1];
        (ja, c[i - 1])
    };
    assert(pv[ja].target == c[i - 1]);
    let h = i - 1;
    assert(depends_on(rs, c[h], c[h + 1]));
    assert(h + 1 == i);
    let deps = rs[rule_index(rs, c[i - 1])].deps;
    let k = choose|k: int| 0 <= k < deps.len() && deps[k] == c[i];
    assert(pv[ja].deps[k] == c[i]);
    assert(listed_before(pv, ja, pv[ja].deps[k]));
}

/// A plan exists only for a well-formed graph: every target reached from
/// the root has a rule and none lies on a cycle.
pub proof fn lemma_plan_acyclic(rs: Seq<RuleView>, root: (bool, Seq<char>), pv: Seq<RuleView>)
    requires
        is_plan(rs, root, pv),
    ensures
        well_formed(rs, root),
{
    lemma_plan_complete(rs, root, pv);
    assert forall|t: (bool, Seq<char>)| #[trigger] reachable(rs, root, t) implies has_rule(rs, t)
        && !on_cycle(rs, t) by {
        assert(targets_of(pv).contains(t));
        let j0 = choose|j: int| 0 <= j < targets_of(pv).len() && targets_of(pv)[j] == t;
        assert(pv[j0].target == t);
        if on_cycle(rs, t) {
            let c = choose|c: Seq<(bool, Seq<char>)>| #[trigger]
                is_chain(rs, c) && c.len() >= 2 && c[0] == t && c.last() == t;
            lemma_chain_descends(rs, root, pv, c, j0, c.len() - 1);
            let j = choose|j: int| 0 <= j < j0 && #[trigger] pv[j].target == c[c.len() - 1];
            assert(targets_of(pv)[j] == targets_of(pv)[j0]);
        }
    }
}

/// `build_plan` succeeds exactly when every target the root needs has a
/// rule and no such target depends on itself.
pub proof fn lemma_plan_outcome(
    rs: Seq<RuleView>,
    root: (bool, Seq<char>),
    res: Result<Seq<RuleView>, Seq<char>>,
)
    requires
        match res {
            Ok(pv) => is_plan(rs, root, pv),
            Err(m) => plan_error(rs, root, m),
        },
    ensures
        res is Ok <==> well_formed(rs, root),
{
    match res {
        Ok(pv) => {
            lemma_plan_acyclic(rs, root, pv);
        },
        Err(m) => {
            let t = choose|t: (bool, Seq<char>)| #[trigger]
                reachable(rs, root, t) && ((!has_rule(rs, t) && m == missing_message(t)) || (
                on_cycle(rs, t) && m == cycle_message(t)));
            assert(reachable(rs, root, t));
        },
    }
}


/// The connector before a node of the tree: `└── ` for the last child,
/// `├── ` for the others.
pub open spec fn connector(last: bool) -> Seq<char> {
    if last {
        "└── "@
    } else {
        "├── "@
    }
}

/// What the children of a node are indented with.
pub open spec fn indent(last: bool) -> Seq<char> {
    if last {
        "    "@
    } else {
        "│   "@
    }
}

/// The tree lines of target `t` under `prefix`, and the targets seen
/// afterwards. A target without a rule is marked `[missing]`; one already
/// shown is marked `[...]` and not expanded again; `fuel` bounds the depth.
pub open spec fn node_lines(
    rs: Seq<RuleView>,
    t: (bool, Seq<char>),
    prefix: Seq<char>,
    last: bool,
    seen: Seq<(bool, Seq<char>)>,
    fuel: nat,
) -> (Seq<Seq<char>>, Seq<(bool, Seq<char>)>)
    decreases fuel, 0nat,
{
    if !has_rule(rs, t) {
        (seq![prefix + connector(last) + t.1 + " [missing]"@], seen)
    } else if seen.contains(t) {
        (seq![prefix + connector(last) + t.1 + " [...]"@], seen)
    } else if fuel == 0 {
        (seq![], seen)
    } else {
        let below = deps_lines(
            rs,
            rs[rule_index(rs, t)].deps,
            0,
            prefix + indent(last),
            seen.push(t),
            (fuel - 1) as nat,
        );
        (seq![prefix + connector(last) + t.1] + below.0, below.1)
    }
}

/// The tree lines of the dependencies `deps[k..]`, each under `prefix`.
pub open spec fn deps_lines(
    rs: Seq<RuleView>,
    deps: Seq<(bool, Seq<char>)>,
    k: int,
    prefix: Seq<char>,
    seen: Seq<(bool, Seq<char>)>,
    fuel: nat,
) -> (Seq<Seq<char>>, Seq<(bool, Seq<char>)>)
    decreases fuel, (deps.len() - k) as nat,
{
    if k < 0 || k >= deps.len() {
        (seq![], seen)
    } else {
        let first = node_lines(rs, deps[k], prefix, k == deps.len() - 1, seen, fuel);
        let rest = deps_lines(rs, deps, k + 1, prefix, first.1, fuel);
        (first.0 + rest.0, rest.1)
    }
}

/// The ASCII dependency tree rooted at `root`:
///
/// ```text
/// build
/// ├── rust
/// └── python
/// ```
///
/// Deps with no matching rule are shown as `name [missing]`; already
/// visited nodes (diamonds) as `name [...]`.
pub open spec fn graph_text(rs: Seq<RuleView>, root: (bool, Seq<char>)) -> Seq<Seq<char>> {
    seq![root.1] + if has_rule(rs, root) {
        deps_lines(rs, rs[rule_index(rs, root)].deps, 0, ""@, seq![root], (rs.len() + 1) as nat).0
    } else {
        seq![]
    }
}

/// Appends the tree lines of `t`; see `node_lines`.
fn node_text(
    rules: &Vec<Rule>,
    t: &Target,
    prefix: &str,
    last: bool,
    seen: &mut Vec<Target>,
    fuel: usize,
    out: &mut Vec<String>,
)
    ensures
        ({
            let r = node_lines(rule_views(rules@), t@, prefix@, last, target_views(old(seen)@), fuel as nat);
            &&& views(final(out)@) == views(old(out)@) + r.0
            &&& target_views(final(seen)@) == r.1
        }),
    decreases fuel, 0nat,
{
    let conn: &str = if last {
        "└── "
    } else {
        "├── "
    };
    let idx = match find_rule(rules, t) {
        Some(i) => i,
        None => {
            let ghost before = views(out@);
            let line = String::from_str(prefix).concat(conn).concat(t.name().as_str()).concat(" [missing]");
            out.push(line);
            assert(views(out@) =~= before + seq![line@]);
            return ;
        },
    };
    match stack_position(seen, t) {
        Some(j) => {
            assert(target_views(seen@)[j as int] == t@);
            let ghost before = views(out@);
            let line = String::from_str(prefix).concat(conn).concat(t.name().as_str()).concat(" [...]");
            out.push(line);
            assert(views(out@) =~= before + seq![line@]);
            return ;
        },
        None => {},
    }
    if fuel == 0 {
        assert(views(out@) =~= views(out@) + Seq::<Seq<char>>::empty());
        return ;
    }
    let ghost before = views(out@);
    let line = String::from_str(prefix).concat(conn).concat(t.name().as_str());
    out.push(line);
    let ghost s0 = target_views(seen@);
    seen.push(t.duplicate());
    assert(target_views(seen@) =~= s0.push(t@));
    let child = String::from_str(prefix).concat(if last {
        "    "
    } else {
        "│   "
    });
    let ghost mid = views(out@);
    deps_text(rules, &rules[idx].deps, 0, child.as_str(), seen, fuel - 1, out);
    assert(rule_views(rules@)[idx as int].deps == target_views(rules@[idx as int].deps@));
    assert(views(out@) =~= before + (seq![line@] + (views(out@).subrange(mid.len() as int, views(out@).len() as int))));
}

/// Appends the tree lines of `deps[k..]`; see `deps_lines`.
fn deps_text(
    rules: &Vec<Rule>,
    deps: &Vec<Target>,
    k: usize,
    prefix: &str,
    seen: &mut Vec<Target>,
    fuel: usize,
    out: &mut Vec<String>,
)
    ensures
        ({
            let r = deps_lines(
                rule_views(rules@),
                target_views(deps@),
                k as int,
                prefix@,
                target_views(old(seen)@),
                fuel as nat,
            );
            &&& views(final(out)@) == views(old(out)@) + r.0
            &&& target_views(final(seen)@) == r.1
        }),
    decreases fuel, (deps@.len() - k) as nat,
{
    if k >= deps.len() {
        assert(views(out@) =~= views(out@) + Seq::<Seq<char>>::empty());
        return ;
    }
    let ghost before = views(out@);
    let last = k == deps.len() - 1;
    node_text(rules, &deps[k], prefix, last, seen, fuel, out);
    let ghost mid = views(out@);
    deps_text(rules, deps, k + 1, prefix, seen, fuel, out);
    assert(views(out@) =~= before + (mid.subrange(before.len() as int, mid.len() as int) + views(
        out@,
    ).subrange(mid.len() as int, views(out@).len() as int)));
}

/// The lines of the ASCII dependency tree rooted at `root`; see
/// `graph_text`.
pub fn graph_lines(rules: &Vec<Rule>, root: &Target) -> (r: Vec<String>)
    requires
        rules@.len() < usize::MAX,
    ensures
        views(r@) == graph_text(rule_views(rules@), root@),
{
    let mut out: Vec<String> = Vec::new();
    out.push(root.display_string());
    let ghost head = views(out@);
    assert(head =~= seq![root@.1]);
    match find_rule(rules, root) {
        Some(i) => {
            let mut seen: Vec<Target> = Vec::new();
            seen.push(root.duplicate());
            assert(target_views(seen@) =~= seq![root@]);
            deps_text(rules, &rules[i].deps, 0, "", &mut seen, rules.len() + 1, &mut out);
            assert(rule_views(rules@)[i as int].deps == target_views(rules@[i as int].deps@));
            proof {
                reveal_strlit("");
            }
        },
        None => {
            assert(views(out@) =~= head + Seq::<Seq<char>>::empty());
        },
    }
    out
}


/// The targets that have a rule and are not among `seen`.
pub open spec fn unseen(rs: Seq<RuleView>, seen: Seq<(bool, Seq<char>)>) -> Set<(bool, Seq<char>)> {
    targets_of(rs).to_set().difference(seen.to_set())
}

/// Seeing one more target with a rule leaves one fewer unseen.
proof fn lemma_unseen_push(rs: Seq<RuleView>, seen: Seq<(bool, Seq<char>)>, t: (bool, Seq<char>))
    requires
        has_rule(rs, t),
        !seen.contains(t),
    ensures
        unseen(rs, seen.push(t)).len() + 1 == unseen(rs, seen).len(),
{
    lemma_rule_index(rs, t);
    let i = rule_index(rs, t);
    assert(targets_of(rs)[i] == t);
    assert(targets_of(rs).to_set().contains(t));
    seen.lemma_push_to_set_commute(t);
    assert(unseen(rs, seen.push(t)) =~= unseen(rs, seen).remove(t));
    assert(unseen(rs, seen).contains(t));
}

/// Seeing more leaves no more unseen.
proof fn lemma_unseen_shrinks(rs: Seq<RuleView>, s1: Seq<(bool, Seq<char>)>, s2: Seq<(bool, Seq<char>)>)
    requires
        forall|x: (bool, Seq<char>)| s1.contains(x) ==> s2.contains(x),
    ensures
        unseen(rs, s2).len() <= unseen(rs, s1).len(),
{
    assert(unseen(rs, s2).subset_of(unseen(rs, s1)));
    lemma_len_subset(unseen(rs, s2), unseen(rs, s1));
}

/// With more depth left than unseen targets, one more level changes
/// nothing, and the targets seen only grow.
proof fn lemma_node_fuel(
    rs: Seq<RuleView>,
    t: (bool, Seq<char>),
    prefix: Seq<char>,
    last: bool,
    seen: Seq<(bool, Seq<char>)>,
    fuel: nat,
)
    requires
        fuel > unseen(rs, seen).len(),
    ensures
        node_lines(rs, t, prefix, last, seen, fuel) == node_lines(rs, t, prefix, last, seen, fuel + 1),
        forall|x: (bool, Seq<char>)|
            seen.contains(x) ==> #[trigger] node_lines(rs, t, prefix, last, seen, fuel).1.contains(x),
    decreases fuel, 0nat,
{
    if has_rule(rs, t) && !seen.contains(t) {
        lemma_unseen_push(rs, seen, t);
        let s2 = seen.push(t);
        let deps = rs[rule_index(rs, t)].deps;
        lemma_deps_fuel(rs, deps, 0, prefix + indent(last), s2, (fuel - 1) as nat);
        assert forall|x: (bool, Seq<char>)| seen.contains(x) implies s2.contains(x) by {
            let j = choose|j: int| 0 <= j < seen.len() && seen[j] == x;
            assert(s2[j] == x);
        }
    }
}

/// The same for the dependencies `deps[k..]`.
proof fn lemma_deps_fuel(
    rs: Seq<RuleView>,
    deps: Seq<(bool, Seq<char>)>,
    k: int,
    prefix: Seq<char>,
    seen: Seq<(bool, Seq<char>)>,
    fuel: nat,
)
    requires
        fuel > unseen(rs, seen).len(),
    ensures
        deps_lines(rs, deps, k, prefix, seen, fuel) == deps_lines(rs, deps, k, prefix, seen, fuel + 1),
        forall|x: (bool, Seq<char>)|
            seen.contains(x) ==> #[trigger] deps_lines(rs, deps, k, prefix, seen, fuel).1.contains(x),
    decreases fuel, (deps.len() - k) as nat,
{
    if 0 <= k < deps.len() {
        lemma_node_fuel(rs, deps[k], prefix, k == deps.len() - 1, seen, fuel);
        let s1 = node_lines(rs, deps[k], prefix, k == deps.len() - 1, seen, fuel).1;
        lemma_unseen_shrinks(rs, seen, s1);
        lemma_deps_fuel(rs, deps, k + 1, prefix, s1, fuel);
    }
}

/// The depth bound of the dependency tree never cuts it short: with any
/// more depth allowed, the tree below the root has the same lines.
pub proof fn lemma_tree_uncut(rs: Seq<RuleView>, root: (bool, Seq<char>), f: nat)
    requires
        has_rule(rs, root),
        f >= rs.len() + 1,
    ensures
        deps_lines(rs, rs[rule_index(rs, root)].deps, 0, ""@, seq![root], f) == deps_lines(
            rs,
            rs[rule_index(rs, root)].deps,
            0,
            ""@,
            seq![root],
            (rs.len() + 1) as nat,
        ),
    decreases f,
{
    if f > rs.len() + 1 {
        lemma_tree_uncut(rs, root, (f - 1) as nat);
        targets_of(rs).lemma_cardinality_of_set();
        lemma_len_subset(unseen(rs, seq![root]), targets_of(rs).to_set());
        lemma_deps_fuel(rs, rs[rule_index(rs, root)].deps, 0, ""@, seq![root], (f - 1) as nat);
    }
}

/// A node of the Graphviz output: the target's name, quoted.
pub open spec fn dot_id(name: Seq<char>) -> Seq<char> {
    "\""@ + escape_quotes(name) + "\""@
}

/// The Graphviz lines of one rule: an edge to each of its dependencies, or
/// the node alone when it has none.
pub open spec fn dot_rule(r: RuleView) -> Seq<Seq<char>> {
    if r.deps.len() == 0 {
        seq!["  "@ + dot_id(r.target.1) + ";"@]
    } else {
        Seq::new(r.deps.len(), |i: int| "  "@ + dot_id(r.target.1) + " -> "@ + dot_id(r.deps[i].1) + ";"@)
    }
}

/// The Graphviz lines of the rules, in order.
pub open spec fn dot_body(rs: Seq<RuleView>) -> Seq<Seq<char>>
    decreases rs.len(),
{
    if rs.len() == 0 {
        seq![]
    } else {
        dot_body(rs.drop_last()) + dot_rule(rs.last())
    }
}

/// The dependency graph of a plan in Graphviz DOT format.
pub open spec fn dot_text(rs: Seq<RuleView>) -> Seq<Seq<char>> {
    seq!["digraph pbuild {"@] + dot_body(rs) + seq!["}"@]
}

/// A target's name as a DOT node.
fn dot_quoted(t: &Target) -> (s: String)
    ensures
        s@ == dot_id(t@.1),
{
    String::from_str("\"").concat(escape_quotes_exec(t.name().as_str()).as_str()).concat("\"")
}

/// The dependency graph of a plan (as `build_plan` makes it) in Graphviz
/// DOT format: one edge from each rule to each of its dependencies.
pub fn dot_lines(plan: &Vec<Rule>) -> (r: Vec<String>)
    ensures
        views(r@) == dot_text(rule_views(plan@)),
{
    let ghost rs = rule_views(plan@);
    let mut out: Vec<String> = Vec::new();
    out.push(String::from_str("digraph pbuild {"));
    assert(views(out@) =~= seq!["digraph pbuild {"@] + dot_body(rs.take(0)));
    let mut i: usize = 0;
    while i < plan.len()
        invariant
            i <= plan@.len(),
            rs == rule_views(plan@),
            views(out@) == seq!["digraph pbuild {"@] + dot_body(rs.take(i as int)),
        decreases plan@.len() - i,
    {
        let rule = &plan[i];
        let ghost before = views(out@);
        assert(rs.take(i + 1).drop_last() =~= rs.take(i as int));
        assert(rs.take(i + 1).last() == rule@);
        let node = String::from_str("  ").concat(dot_quoted(&rule.target).as_str());
        if rule.deps.len() == 0 {
            out.push(node.concat(";"));
            assert(views(out@) =~= before + dot_rule(rule@));
        } else {
            let mut k: usize = 0;
            while k < rule.deps.len()
                invariant
                    k <= rule.deps@.len(),
                    rule.deps@.len() > 0,
                    node@ == "  "@ + dot_id(rule@.target.1),
                    views(out@) == before + dot_rule(rule@).take(k as int),
                decreases rule.deps@.len() - k,
            {
                let edge = copy_string(&node).concat(" -> ").concat(dot_quoted(&rule.deps[k]).as_str()).concat(
                    ";",
                );
                let ghost mid = views(out@);
                out.push(edge);
                assert(rule@.deps[k as int] == rule.deps@[k as int]@);
                assert(dot_rule(rule@).take(k + 1) =~= dot_rule(rule@).take(k as int).push(dot_rule(rule@)[k as int]));
                assert(views(out@) =~= mid.push(edge@));
                k = k + 1;
            }
            assert(dot_rule(rule@).take(rule.deps@.len() as int) =~= dot_rule(rule@));
        }
        i = i + 1;
    }
    assert(rs.take(plan@.len() as int) =~= rs);
    let ghost body = views(out@);
    out.push(String::from_str("}"));
    assert(views(out@) =~= body.push("}"@));
    out
}

/// The rules of `b` whose targets are not in `seen`, in order.
pub open spec fn new_rules(seen: Seq<(bool, Seq<char>)>, b: Seq<RuleView>) -> Seq<RuleView>
    decreases b.len(),
{
    if b.len() == 0 {
        seq![]
    } else {
        new_rules(seen, b.drop_last()) + if seen.contains(b.last().target) {
            seq![]
        } else {
            seq![b.last()]
        }
    }
}

/// No target twice, and every rule after all of its dependencies: what
/// the scheduler needs of a plan.
pub open spec fn deps_first(pv: Seq<RuleView>) -> bool {
    &&& targets_of(pv).no_duplicates()
    &&& forall|i: int, k: int|
        0 <= i < pv.len() && 0 <= k < pv[i].deps.len() ==> listed_before(pv, i, #[trigger] pv[i].deps[k])
}

/// Whether a rule of `plan` builds `t`.
fn plan_has(plan: &Vec<Rule>, t: &Target) -> (b: bool)
    ensures
        b == targets_of(rule_views(plan@)).contains(t@),
{
    let ghost ts = targets_of(rule_views(plan@));
    let mut i: usize = 0;
    while i < plan.len()
        invariant
            i <= plan@.len(),
            ts == targets_of(rule_views(plan@)),
            forall|j: int| 0 <= j < i ==> #[trigger] ts[j] != t@,
        decreases plan@.len() - i,
    {
        if plan[i].target.same(t) {
            assert(ts[i as int] == t@);
            return true;
        }
        i = i + 1;
    }
    false
}

/// The plans for several targets as one: the rules of `a`, then those of
/// `b` for targets `a` does not build already.
pub fn merge_plans(a: Vec<Rule>, b: Vec<Rule>) -> (r: Vec<Rule>)
    ensures
        rule_views(r@) == rule_views(a@) + new_rules(targets_of(rule_views(a@)), rule_views(b@)),
{
    let ghost seen = targets_of(rule_views(a@));
    let ghost bv = rule_views(b@);
    let mut extra: Vec<Rule> = Vec::new();
    let mut i: usize = 0;
    while i < b.len()
        invariant
            i <= b@.len(),
            seen == targets_of(rule_views(a@)),
            bv == rule_views(b@),
            rule_views(extra@) == new_rules(seen, bv.take(i as int)),
        decreases b@.len() - i,
    {
        assert(bv.take(i + 1).drop_last() =~= bv.take(i as int));
        assert(bv.take(i + 1).last() == b@[i as int]@);
        let ghost before = rule_views(extra@);
        if !plan_has(&a, &b[i].target) {
            extra.push(b[i].duplicate());
            assert(rule_views(extra@) =~= before + seq![b@[i as int]@]);
        } else {
            assert(rule_views(extra@) =~= before + Seq::<RuleView>::empty());
        }
        i = i + 1;
    }
    assert(bv.take(b@.len() as int) =~= bv);
    let mut r = a;
    let ghost av = rule_views(r@);
    let mut k: usize = 0;
    let ghost ev = rule_views(extra@);
    while k < extra.len()
        invariant
            k <= extra@.len(),
            ev == rule_views(extra@),
            rule_views(r@) == av + ev.take(k as int),
        decreases extra@.len() - k,
    {
        let ghost before = rule_views(r@);
        r.push(extra[k].duplicate());
        assert(rule_views(r@) =~= before.push(ev[k as int]));
        assert(ev.take(k + 1) =~= ev.take(k as int).push(ev[k as int]));
        k = k + 1;
    }
    assert(ev.take(extra@.len() as int) =~= ev);
    r
}

/// The targets of the new rules are those of `b` that are not in `seen`.
pub proof fn lemma_new_rules_targets(seen: Seq<(bool, Seq<char>)>, b: Seq<RuleView>)
    ensures
        forall|t: (bool, Seq<char>)|
            #[trigger] targets_of(new_rules(seen, b)).contains(t) <==> (targets_of(b).contains(t) && !seen.contains(
                t,
            )),
    decreases b.len(),
{
    if b.len() > 0 {
        let b0 = b.drop_last();
        let x = b.last();
        lemma_new_rules_targets(seen, b0);
        let n0 = new_rules(seen, b0);
        assert(targets_of(b) =~= targets_of(b0).push(x.target));
        if seen.contains(x.target) {
            assert(new_rules(seen, b) =~= n0);
            assert forall|t: (bool, Seq<char>)| #[trigger]
                targets_of(new_rules(seen, b)).contains(t) <==> (targets_of(b).contains(t) && !seen.contains(t)) by {
                if targets_of(b).contains(t) && !seen.contains(t) {
                    let j = choose|j: int| 0 <= j < targets_of(b).len() && targets_of(b)[j] == t;
                    assert(j < b0.len());
                    assert(targets_of(b0)[j] == t);
                }
                if targets_of(b0).contains(t) {
                    let j = choose|j: int| 0 <= j < targets_of(b0).len() && targets_of(b0)[j] == t;
                    assert(targets_of(b)[j] == t);
                }
            }
        } else {
            assert(new_rules(seen, b) =~= n0.push(x));
            assert(targets_of(new_rules(seen, b)) =~= targets_of(n0).push(x.target));
            assert forall|t: (bool, Seq<char>)| #[trigger]
                targets_of(new_rules(seen, b)).contains(t) <==> (targets_of(b).contains(t) && !seen.contains(t)) by {
                let nt = targets_of(n0).push(x.target);
                if targets_of(b).contains(t) && !seen.contains(t) {
                    let j = choose|j: int| 0 <= j < targets_of(b).len() && targets_of(b)[j] == t;
                    if j < b0.len() {
                        assert(targets_of(b0)[j] == t);
                        assert(targets_of(b0).contains(t));
                        assert(targets_of(n0).contains(t));
                        let q = choose|q: int| 0 <= q < targets_of(n0).len() && targets_of(n0)[q] == t;
                        assert(nt[q] == t);
                    } else {
                        assert(nt[nt.len() - 1] == t);
                    }
                }
                if nt.contains(t) {
                    let q = choose|q: int| 0 <= q < nt.len() && nt[q] == t;
                    if q < targets_of(n0).len() {
                        assert(targets_of(n0)[q] == t);
                        assert(targets_of(n0).contains(t));
                        assert(targets_of(b0).contains(t));
                        let j = choose|j: int| 0 <= j < targets_of(b0).len() && targets_of(b0)[j] == t;
                        assert(targets_of(b)[j] == t);
                    } else {
                        assert(targets_of(b)[b.len() - 1] == t);
                    }
                }
            }
        }
    } else {
        assert(targets_of(new_rules(seen, b)) =~= Seq::<(bool, Seq<char>)>::empty());
        assert(targets_of(b) =~= Seq::<(bool, Seq<char>)>::empty());
    }
}

/// Merging keeps what the scheduler needs: when two plans each list no
/// target twice and every rule after its dependencies, so does their merge.
pub proof fn lemma_merge_deps_first(a: Seq<RuleView>, b: Seq<RuleView>)
    requires
        deps_first(a),
        deps_first(b),
    ensures
        deps_first(a + new_rules(targets_of(a), b)),
    decreases b.len(),
{
    let seen = targets_of(a);
    if b.len() == 0 {
        assert(a + new_rules(seen, b) =~= a);
        return;
    }
    let b0 = b.drop_last();
    let x = b.last();
    assert(targets_of(b0) =~= targets_of(b).drop_last());
    assert forall|i: int, j: int| 0 <= i < j < targets_of(b0).len() implies targets_of(b0)[i] != targets_of(
        b0,
    )[j] by {
        assert(targets_of(b)[i] == targets_of(b0)[i] && targets_of(b)[j] == targets_of(b0)[j]);
    }
    assert forall|i: int, k: int| 0 <= i < b0.len() && 0 <= k < b0[i].deps.len() implies listed_before(
        b0,
        i,
        #[trigger] b0[i].deps[k],
    ) by {
        assert(b[i] == b0[i]);
        assert(listed_before(b, i, b[i].deps[k]));
        let j = choose|j: int| 0 <= j < i && #[trigger] b[j].target == b[i].deps[k];
        assert(b0[j] == b[j]);
    }
    lemma_merge_deps_first(a, b0);
    let n0 = new_rules(seen, b0);
    let m0 = a + n0;
    if seen.contains(x.target) {
        assert(new_rules(seen, b) =~= n0);
        return;
    }
    let m = a + new_rules(seen, b);
    assert(new_rules(seen, b) =~= n0.push(x));
    assert(m =~= m0.push(x));
    lemma_new_rules_targets(seen, b0);
    assert(targets_of(m0) =~= seen + targets_of(n0));
    assert(targets_of(m) =~= targets_of(m0).push(x.target));
    // The new target is neither in `a` nor among the rules kept from `b` before it.
    assert(!targets_of(b0).contains(x.target)) by {
        if targets_of(b0).contains(x.target) {
            let j = choose|j: int| 0 <= j < targets_of(b0).len() && targets_of(b0)[j] == x.target;
            assert(targets_of(b)[j] == targets_of(b)[b.len() - 1]);
        }
    }
    assert(!targets_of(m0).contains(x.target)) by {
        if targets_of(m0).contains(x.target) {
            let j = choose|j: int| 0 <= j < targets_of(m0).len() && targets_of(m0)[j] == x.target;
            if j < seen.len() {
                assert(seen[j] == x.target);
            } else {
                assert(targets_of(n0)[j - seen.len()] == x.target);
                assert(targets_of(n0).contains(x.target));
            }
        }
    }
    assert forall|i: int, j: int| 0 <= i < j < targets_of(m).len() implies targets_of(m)[i] != targets_of(
        m,
    )[j] by {
        if j < targets_of(m0).len() {
            assert(targets_of(m)[i] == targets_of(m0)[i] && targets_of(m)[j] == targets_of(m0)[j]);
        } else {
            assert(targets_of(m)[i] == targets_of(m0)[i]);
        }
    }
    assert forall|i: int, k: int| 0 <= i < m.len() && 0 <= k < m[i].deps.len() implies listed_before(
        m,
        i,
        #[trigger] m[i].deps[k],
    ) by {
        let d = m[i].deps[k];
        if i < m0.len() {
            assert(m[i] == m0[i]);
            assert(listed_before(m0, i, m0[i].deps[k]));
            let j = choose|j: int| 0 <= j < i && #[trigger] m0[j].target == m0[i].deps[k];
            assert(m[j] == m0[j]);
        } else {
            assert(m[i] == x);
            assert(listed_before(b, b.len() - 1, x.deps[k]));
            let j = choose|j: int| 0 <= j < b.len() - 1 && #[trigger] b[j].target == x.deps[k];
            if seen.contains(d) {
                let q = choose|q: int| 0 <= q < seen.len() && seen[q] == d;
                assert(m[q] == a[q]);
                assert(m[q].target == d);
            } else {
                assert(targets_of(b0)[j] == d);
                assert(targets_of(n0).contains(d));
                let q = choose|q: int| 0 <= q < targets_of(n0).len() && targets_of(n0)[q] == d;
                assert(m[a.len() + q] == n0[q]);
                assert(m[a.len() + q].target == d);
            }
        }
    }
}

/// A plan for a target lists no target twice and every rule after its
/// dependencies.
pub proof fn lemma_plan_deps_first(rs: Seq<RuleView>, root: (bool, Seq<char>), pv: Seq<RuleView>)
    requires
        is_plan(rs, root, pv),
    ensures
        deps_first(pv),
{
}

} // verus!
