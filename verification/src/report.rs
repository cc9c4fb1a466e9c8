//! The text the subcommands print: `status`, `--list` and `why`.

use vstd::prelude::*;
use vstd::string::StringExecFns;

use crate::cli::utf8_of;
use crate::config::{duration_text, duration_text_of, BuildFile, RawRule};
use crate::engine::{argv_views, first_set};
use crate::hash::{join, join_with, key_less, key_lt, lemma_key_lt};
use crate::strmap::{copy_string, str_eq, Table};
use crate::text::{decimal, decimal_of, dedup, push_char, to_chars, views};
use crate::types::{opt_view, Rule};

verus! {

/// The position of the entry with the least name among the first `k` of
/// `s` (the first such entry on ties).
pub open spec fn least_index<A>(s: Seq<(Seq<char>, A)>, k: int) -> int
    decreases k,
{
    if k <= 1 {
        0
    } else {
        let m = least_index(s, k - 1);
        if key_lt(s[k - 1].0, s[m].0) {
            k - 1
        } else {
            m
        }
    }
}

/// `s` sorted by name, keeping the order of entries with equal names (a
/// stable sort).
pub open spec fn sorted_by_name<A>(s: Seq<(Seq<char>, A)>) -> Seq<(Seq<char>, A)>
    decreases s.len(),
{
    if s.len() == 0 {
        seq![]
    } else {
        let m = least_index(s, s.len() as int);
        proof {
            lemma_least_index(s, s.len() as int);
        }
        seq![s[m]] + sorted_by_name(s.remove(m))
    }
}

/// Where `least_index` points.
pub proof fn lemma_least_index<A>(s: Seq<(Seq<char>, A)>, k: int)
    requires
        1 <= k <= s.len(),
    ensures
        0 <= least_index(s, k) < k,
    decreases k,
{
    if k > 1 {
        lemma_least_index(s, k - 1);
    }
}

/// The views of pairs of a name and a position.
pub open spec fn pair_views(v: Seq<(String, usize)>) -> Seq<(Seq<char>, usize)> {
    v.map_values(|p: (String, usize)| (p.0@, p.1))
}

/// Sort entries by name (stably).
pub fn sort_by_name(v: Vec<(String, usize)>) -> (r: Vec<(String, usize)>)
    ensures
        pair_views(r@) == sorted_by_name(pair_views(v@)),
{
    let ghost whole = sorted_by_name(pair_views(v@));
    let mut rest = v;
    let mut out: Vec<(String, usize)> = Vec::new();
    assert(pair_views(out@) + sorted_by_name(pair_views(rest@)) =~= whole);
    while rest.len() > 0
        invariant
            pair_views(out@) + sorted_by_name(pair_views(rest@)) == whole,
        decreases rest@.len(),
    {
        let ghost rv = pair_views(rest@);
        let n = rest.len();
        let mut m: usize = 0;
        let mut i: usize = 1;
        while i < n
            invariant
                1 <= i <= n,
                n == rest@.len(),
                rv == pair_views(rest@),
                m as int == least_index(rv, i as int),
                m < i,
            decreases n - i,
        {
            proof {
                lemma_least_index(rv, i as int);
            }
            let a = to_chars(rest[i].0.as_str());
            let b = to_chars(rest[m].0.as_str());
            assert(rv[i as int].0 == rest@[i as int].0@);
            assert(rv[m as int].0 == rest@[m as int].0@);
            if key_less(a.as_slice(), b.as_slice()) {
                m = i;
            }
            i = i + 1;
        }
        let ghost before = pair_views(out@);
        let e = rest.remove(m);
        assert(pair_views(rest@) =~= rv.remove(m as int));
        out.push(e);
        assert(pair_views(out@) =~= before.push(rv[m as int]));
        assert(sorted_by_name(rv) == seq![rv[m as int]] + sorted_by_name(rv.remove(m as int)));
        assert(pair_views(out@) + sorted_by_name(pair_views(rest@)) =~= before + sorted_by_name(rv));
    }
    assert(pair_views(out@) =~= pair_views(out@) + Seq::<(Seq<char>, usize)>::empty());
    out
}

/// The strings paired with their positions.
pub open spec fn numbered(s: Seq<Seq<char>>) -> Seq<(Seq<char>, usize)> {
    Seq::new(s.len(), |i: int| (s[i], i as usize))
}

/// The names of a sequence of pairs.
pub open spec fn names_of<A>(s: Seq<(Seq<char>, A)>) -> Seq<Seq<char>> {
    s.map_values(|p: (Seq<char>, A)| p.0)
}

/// Strings in sorted order (stably).
pub open spec fn sorted_strings(s: Seq<Seq<char>>) -> Seq<Seq<char>> {
    names_of(sorted_by_name(numbered(s)))
}

/// Sort strings.
pub fn sort_strings(v: &Vec<String>) -> (r: Vec<String>)
    ensures
        views(r@) == sorted_strings(views(v@)),
{
    let mut pairs: Vec<(String, usize)> = Vec::new();
    let mut i: usize = 0;
    while i < v.len()
        invariant
            i <= v@.len(),
            pair_views(pairs@) == numbered(views(v@)).take(i as int),
        decreases v@.len() - i,
    {
        let ghost before = pair_views(pairs@);
        pairs.push((copy_string(&v[i]), i));
        assert(numbered(views(v@))[i as int] == (v@[i as int]@, i));
        assert(pair_views(pairs@) =~= before.push((v@[i as int]@, i)));
        assert(pair_views(pairs@) =~= numbered(views(v@)).take(i + 1));
        i = i + 1;
    }
    assert(numbered(views(v@)).take(v@.len() as int) =~= numbered(views(v@)));
    let sorted = sort_by_name(pairs);
    let mut r: Vec<String> = Vec::new();
    let mut k: usize = 0;
    while k < sorted.len()
        invariant
            k <= sorted@.len(),
            r@.len() == k,
            forall|j: int| 0 <= j < k ==> (#[trigger] r@[j])@ == sorted@[j].0@,
        decreases sorted@.len() - k,
    {
        r.push(copy_string(&sorted[k].0));
        k = k + 1;
    }
    assert(views(r@) =~= names_of(pair_views(sorted@)));
    assert(names_of(pair_views(sorted@)) =~= sorted_strings(views(v@)));
    r
}

/// The number of bytes of `s` in UTF-8 (what `str::len` counts).
pub open spec fn byte_len(s: Seq<char>) -> nat
    decreases s.len(),
{
    if s.len() == 0 {
        0
    } else {
        byte_len(s.drop_last()) + utf8_of(s.last()).len()
    }
}

/// The UTF-8 length of one character.
fn char_bytes(c: char) -> (n: usize)
    ensures
        n == utf8_of(c).len(),
        1 <= n <= 4,
{
    let v: u32 = c as u32;
    if v < 0x80 {
        1
    } else if v < 0x800 {
        2
    } else if v < 0x10000 {
        3
    } else {
        4
    }
}

/// `byte_len` only grows with more characters.
proof fn lemma_byte_len_grows(s: Seq<char>, i: int, j: int)
    requires
        0 <= i <= j <= s.len(),
    ensures
        byte_len(s.take(i)) <= byte_len(s.take(j)),
    decreases j - i,
{
    if i < j {
        lemma_byte_len_grows(s, i, j - 1);
        assert(s.take(j).drop_last() =~= s.take(j - 1));
    }
}

/// The number of bytes of `s` in UTF-8.
pub fn utf8_len(s: &str) -> (n: usize)
    requires
        byte_len(s@) <= usize::MAX,
    ensures
        n == byte_len(s@),
{
    let cs = to_chars(s);
    let mut n: usize = 0;
    let mut i: usize = 0;
    while i < cs.len()
        invariant
            i <= cs@.len(),
            cs@ == s@,
            n == byte_len(s@.take(i as int)),
            byte_len(s@) <= usize::MAX,
        decreases cs@.len() - i,
    {
        assert(s@.take(i + 1).drop_last() =~= s@.take(i as int));
        proof {
            lemma_byte_len_grows(s@, i + 1, s@.len() as int);
            assert(s@.take(s@.len() as int) =~= s@);
        }
        n = n + char_bytes(cs[i]);
        i = i + 1;
    }
    assert(s@.take(cs@.len() as int) =~= s@);
    n
}

/// `n` spaces.
pub open spec fn spaces(n: int) -> Seq<char>
    decreases n,
{
    if n <= 0 {
        seq![]
    } else {
        spaces(n - 1).push(' ')
    }
}

/// `s` left-aligned in a field of `width` characters (`{:<width$}`).
pub open spec fn pad(s: Seq<char>, width: int) -> Seq<char> {
    s + spaces(width - s.len())
}

/// `s` padded with spaces to `width` characters.
pub fn pad_to(s: &str, width: usize) -> (r: String)
    ensures
        r@ == pad(s@, width as int),
{
    let mut r = String::from_str(s);
    let n = s.unicode_len();
    let mut k = n;
    assert(s@ + spaces(0) =~= s@);
    while k < width
        invariant
            n <= k <= if width > n {
                width
            } else {
                n
            },
            n == s@.len(),
            r@ == s@ + spaces(k - n),
        decreases width - k,
    {
        push_char(&mut r, ' ');
        assert(spaces(k + 1 - n) == spaces(k - n).push(' '));
        k = k + 1;
    }
    r
}

/// The widest name, in bytes, of the first `k` of `names`.
pub open spec fn widest(names: Seq<Seq<char>>, k: int) -> nat
    decreases k,
{
    if k <= 0 {
        0
    } else {
        let w = widest(names, k - 1);
        if byte_len(names[k - 1]) > w {
            byte_len(names[k - 1])
        } else {
            w
        }
    }
}

/// The width of the name column: the widest name in bytes, plus two.
pub open spec fn column_width(names: Seq<Seq<char>>) -> nat {
    widest(names, names.len() as int) + 2
}

/// The width of the name column of `names`.
fn name_column(names: &Vec<String>) -> (w: usize)
    requires
        widest(views(names@), names@.len() as int) + 2 <= usize::MAX,
    ensures
        w == column_width(views(names@)),
{
    let ghost v = views(names@);
    let mut w: usize = 0;
    let mut i: usize = 0;
    while i < names.len()
        invariant
            i <= names@.len(),
            v == views(names@),
            w == widest(v, i as int),
            widest(v, names@.len() as int) + 2 <= usize::MAX,
        decreases names@.len() - i,
    {
        proof {
            lemma_widest_grows(v, i + 1, names@.len() as int);
        }
        assert(byte_len(v[i as int]) <= widest(v, i + 1));
        assert(v[i as int] == names@[i as int]@);
        let b = utf8_len(names[i].as_str());
        if b > w {
            w = b;
        }
        i = i + 1;
    }
    w + 2
}

/// `widest` only grows with more names.
proof fn lemma_widest_grows(names: Seq<Seq<char>>, j: int, k: int)
    requires
        0 <= j <= k,
    ensures
        widest(names, j) <= widest(names, k),
    decreases k - j,
{
    if j < k {
        lemma_widest_grows(names, j, k - 1);
    }
}

/// `status` output: `  <name padded> dirty` or `  <name padded> clean`.
pub open spec fn status_text(statuses: Seq<(Seq<char>, bool)>) -> Seq<Seq<char>> {
    let col = column_width(names_of(statuses));
    statuses.map_values(
        |p: (Seq<char>, bool)|
            "  "@ + pad(p.0, col as int) + if p.1 {
                " dirty"@
            } else {
                " clean"@
            },
    )
}

/// The views of name–flag pairs.
pub open spec fn flag_views(v: Seq<(String, bool)>) -> Seq<(Seq<char>, bool)> {
    v.map_values(|p: (String, bool)| (p.0@, p.1))
}

/// The names of name–flag pairs.
fn flag_names(v: &Vec<(String, bool)>) -> (r: Vec<String>)
    ensures
        views(r@) == names_of(flag_views(v@)),
{
    let mut r: Vec<String> = Vec::new();
    let mut i: usize = 0;
    while i < v.len()
        invariant
            i <= v@.len(),
            r@.len() == i,
            forall|j: int| 0 <= j < i ==> (#[trigger] r@[j])@ == v@[j].0@,
        decreases v@.len() - i,
    {
        r.push(copy_string(&v[i].0));
        i = i + 1;
    }
    assert(views(r@) =~= names_of(flag_views(v@)));
    r
}

/// The lines `pbuild status` prints for `(target, dirty)` pairs.
pub fn status_lines(statuses: &Vec<(String, bool)>) -> (r: Vec<String>)
    requires
        column_width(names_of(flag_views(statuses@))) <= usize::MAX,
    ensures
        views(r@) == status_text(flag_views(statuses@)),
{
    let names = flag_names(statuses);
    let col = name_column(&names);
    let mut r: Vec<String> = Vec::new();
    let mut i: usize = 0;
    while i < statuses.len()
        invariant
            i <= statuses@.len(),
            col == column_width(names_of(flag_views(statuses@))),
            r@.len() == i,
            forall|j: int|
                0 <= j < i ==> (#[trigger] r@[j])@ == "  "@ + pad(statuses@[j].0@, col as int) + if statuses@[j].1 {
                    " dirty"@
                } else {
                    " clean"@
                },
        decreases statuses@.len() - i,
    {
        let line = String::from_str("  ").concat(pad_to(statuses[i].0.as_str(), col).as_str()).concat(
            if statuses[i].1 {
                " dirty"
            } else {
                " clean"
            },
        );
        r.push(line);
        i = i + 1;
    }
    assert(views(r@) =~= status_text(flag_views(statuses@)));
    r
}


/// The rules of the build file by name, sorted, each with its position
/// among the entries.
pub open spec fn listed(bf: &BuildFile) -> Seq<(Seq<char>, usize)> {
    sorted_by_name(numbered(names_of(bf.rules.entries())))
}

/// The group of the `i`-th entry (`""` when it has none).
pub open spec fn group_at(bf: &BuildFile, i: int) -> Seq<char> {
    match opt_view(bf.rules.entries()[i].1.group) {
        Some(g) => g,
        None => ""@,
    }
}

/// The non-empty groups of the listed entries, in order.
pub open spec fn groups_seen(bf: &BuildFile, es: Seq<(Seq<char>, usize)>) -> Seq<Seq<char>>
    decreases es.len(),
{
    if es.len() == 0 {
        seq![]
    } else {
        let g = group_at(bf, es.last().1 as int);
        groups_seen(bf, es.drop_last()) + if g.len() > 0 {
            seq![g]
        } else {
            seq![]
        }
    }
}

/// The named groups, sorted.
pub open spec fn named_groups(bf: &BuildFile) -> Seq<Seq<char>> {
    sorted_strings(dedup(groups_seen(bf, listed(bf))))
}

/// The last flag given for `name`, if any.
pub open spec fn last_flag(statuses: Seq<(Seq<char>, bool)>, name: Seq<char>) -> Option<bool>
    decreases statuses.len(),
{
    if statuses.len() == 0 {
        None
    } else if statuses.last().0 == name {
        Some(statuses.last().1)
    } else {
        last_flag(statuses.drop_last(), name)
    }
}

/// The line `--list` prints for one rule: a dirty marker (only on a
/// terminal), the name, padded before its description when it has one,
/// and `(default)` for the default target.
pub open spec fn entry_line(
    bf: &BuildFile,
    e: (Seq<char>, usize),
    col: nat,
    statuses: Seq<(Seq<char>, bool)>,
    tty: bool,
) -> Seq<char> {
    let state = if tty {
        if last_flag(statuses, e.0) == Some(true) {
            "  \x1b[33m*\x1b[0m"@
        } else {
            "   "@
        }
    } else {
        " "@
    };
    let marker = if opt_view(bf.config.default) == Some(e.0) {
        "  (default)"@
    } else {
        ""@
    };
    state + "  "@ + match opt_view(bf.rules.entries()[e.1 as int].1.description) {
        Some(d) => pad(e.0, col as int) + d,
        None => e.0,
    } + marker
}

/// The lines of the listed entries of group `g`, in order.
pub open spec fn group_entries(
    bf: &BuildFile,
    es: Seq<(Seq<char>, usize)>,
    g: Seq<char>,
    col: nat,
    statuses: Seq<(Seq<char>, bool)>,
    tty: bool,
) -> Seq<Seq<char>>
    decreases es.len(),
{
    if es.len() == 0 {
        seq![]
    } else {
        group_entries(bf, es.drop_last(), g, col, statuses, tty) + if group_at(bf, es.last().1 as int)
            == g {
            seq![entry_line(bf, es.last(), col, statuses, tty)]
        } else {
            seq![]
        }
    }
}

/// Each named group's heading followed by its entries.
pub open spec fn named_lines(
    bf: &BuildFile,
    gs: Seq<Seq<char>>,
    es: Seq<(Seq<char>, usize)>,
    col: nat,
    statuses: Seq<(Seq<char>, bool)>,
    tty: bool,
) -> Seq<Seq<char>>
    decreases gs.len(),
{
    if gs.len() == 0 {
        seq![]
    } else {
        named_lines(bf, gs.drop_last(), es, col, statuses, tty) + seq![gs.last()] + group_entries(
            bf,
            es,
            gs.last(),
            col,
            statuses,
            tty,
        )
    }
}

/// What `pbuild --list` prints: named groups in order, each with its rules
/// sorted by name, then the rules without a group (under `Other` when
/// there are named groups). `statuses` tells which targets are dirty.
pub open spec fn list_text(bf: &BuildFile, statuses: Seq<(Seq<char>, bool)>, tty: bool) -> Seq<Seq<char>> {
    let es = listed(bf);
    let col = column_width(names_of(es));
    let gs = named_groups(bf);
    let ungrouped = group_entries(bf, es, ""@, col, statuses, tty);
    named_lines(bf, gs, es, col, statuses, tty) + if ungrouped.len() > 0 {
        (if gs.len() > 0 {
            seq!["Other"@]
        } else {
            seq![]
        }) + ungrouped
    } else {
        seq![]
    }
}

/// The last flag given for `name`.
fn flag_of(statuses: &Vec<(String, bool)>, name: &str) -> (r: Option<bool>)
    ensures
        r == last_flag(flag_views(statuses@), name@),
{
    let ghost f = flag_views(statuses@);
    let mut i = statuses.len();
    assert(f.take(i as int) =~= f);
    while i > 0
        invariant
            i <= statuses@.len(),
            f == flag_views(statuses@),
            last_flag(f, name@) == last_flag(f.take(i as int), name@),
        decreases i,
    {
        assert(f.take(i as int).drop_last() =~= f.take(i - 1));
        assert(f.take(i as int).last() == (statuses@[i - 1].0@, statuses@[i - 1].1));
        if str_eq(statuses[i - 1].0.as_str(), name) {
            return Some(statuses[i - 1].1);
        }
        i = i - 1;
    }
    None
}

/// The group of the `i`-th entry.
fn group_text(bf: &BuildFile, i: usize) -> (g: &str)
    requires
        i < bf.rules.entries().len(),
    ensures
        g@ == group_at(bf, i as int),
{
    match &bf.rules.item_at(i).group {
        Some(g) => g.as_str(),
        None => "",
    }
}

/// The line for one listed entry.
fn entry_text(
    bf: &BuildFile,
    e: &(String, usize),
    col: usize,
    statuses: &Vec<(String, bool)>,
    tty: bool,
) -> (line: String)
    requires
        e.1 < bf.rules.entries().len(),
    ensures
        line@ == entry_line(bf, (e.0@, e.1), col as nat, flag_views(statuses@), tty),
{
    let name = e.0.as_str();
    let state: &str = if tty {
        match flag_of(statuses, name) {
            Some(true) => "  \x1b[33m*\x1b[0m",
            _ => "   ",
        }
    } else {
        " "
    };
    let is_default = match &bf.config.default {
        Some(d) => str_eq(d.as_str(), name),
        None => false,
    };
    let marker: &str = if is_default {
        "  (default)"
    } else {
        ""
    };
    let mut line = String::from_str(state).concat("  ");
    match &bf.rules.item_at(e.1).description {
        Some(d) => {
            line.append(pad_to(name, col).as_str());
            line.append(d.as_str());
        },
        None => {
            line.append(name);
        },
    }
    line.append(marker);
    line
}

/// The lines of group `g`'s entries.
fn group_text_lines(
    bf: &BuildFile,
    es: &Vec<(String, usize)>,
    g: &str,
    col: usize,
    statuses: &Vec<(String, bool)>,
    tty: bool,
) -> (r: Vec<String>)
    requires
        forall|k: int| 0 <= k < es@.len() ==> (#[trigger] es@[k]).1 < bf.rules.entries().len(),
    ensures
        views(r@) == group_entries(bf, pair_views(es@), g@, col as nat, flag_views(statuses@), tty),
{
    let ghost ev = pair_views(es@);
    let mut r: Vec<String> = Vec::new();
    let mut i: usize = 0;
    while i < es.len()
        invariant
            i <= es@.len(),
            ev == pair_views(es@),
            forall|k: int| 0 <= k < es@.len() ==> (#[trigger] es@[k]).1 < bf.rules.entries().len(),
            views(r@) == group_entries(bf, ev.take(i as int), g@, col as nat, flag_views(statuses@), tty),
        decreases es@.len() - i,
    {
        assert(ev.take(i + 1).drop_last() =~= ev.take(i as int));
        assert(ev.take(i + 1).last() == (es@[i as int].0@, es@[i as int].1));
        assert(es@[i as int].1 < bf.rules.entries().len());
        if str_eq(group_text(bf, es[i].1), g) {
            let ghost before = views(r@);
            let line = entry_text(bf, &es[i], col, statuses, tty);
            r.push(line);
            assert(views(r@) =~= before + seq![line@]);
        } else {
            assert(views(r@) =~= views(r@) + Seq::<Seq<char>>::empty());
        }
        i = i + 1;
    }
    assert(ev.take(es@.len() as int) =~= ev);
    r
}

/// The names of name–position pairs.
fn pair_names(v: &Vec<(String, usize)>) -> (r: Vec<String>)
    ensures
        views(r@) == names_of(pair_views(v@)),
{
    let mut r: Vec<String> = Vec::new();
    let mut i: usize = 0;
    while i < v.len()
        invariant
            i <= v@.len(),
            r@.len() == i,
            forall|j: int| 0 <= j < i ==> (#[trigger] r@[j])@ == v@[j].0@,
        decreases v@.len() - i,
    {
        r.push(copy_string(&v[i].0));
        i = i + 1;
    }
    assert(views(r@) =~= names_of(pair_views(v@)));
    r
}

/// Sorting keeps every entry's position among the entries.
proof fn lemma_sorted_positions(s: Seq<(Seq<char>, usize)>, bound: int)
    requires
        forall|k: int| 0 <= k < s.len() ==> (#[trigger] s[k]).1 < bound,
    ensures
        forall|k: int|
            0 <= k < sorted_by_name(s).len() ==> (#[trigger] sorted_by_name(s)[k]).1 < bound,
        sorted_by_name(s).len() == s.len(),
    decreases s.len(),
{
    if s.len() > 0 {
        let m = least_index(s, s.len() as int);
        lemma_least_index(s, s.len() as int);
        let r = s.remove(m);
        assert forall|k: int| 0 <= k < r.len() implies (#[trigger] r[k]).1 < bound by {
            if k < m {
                assert(r[k] == s[k]);
            } else {
                assert(r[k] == s[k + 1]);
            }
        }
        lemma_sorted_positions(r, bound);
        let t = sorted_by_name(s);
        assert forall|k: int| 0 <= k < t.len() implies (#[trigger] t[k]).1 < bound by {
            if k > 0 {
                assert(t[k] == sorted_by_name(r)[k - 1]);
            }
        }
    }
}

/// What `pbuild --list` prints for the build file; `statuses` are the
/// `(target, dirty)` pairs of its rules, `tty` whether stdout is a terminal.
pub fn list_lines(bf: &BuildFile, statuses: &Vec<(String, bool)>, tty: bool) -> (r: Vec<String>)
    requires
        column_width(names_of(listed(bf))) <= usize::MAX,
    ensures
        views(r@) == list_text(bf, flag_views(statuses@), tty),
{
    let n = bf.rules.len();
    let mut pairs: Vec<(String, usize)> = Vec::new();
    let ghost names = names_of(bf.rules.entries());
    let mut i: usize = 0;
    while i < n
        invariant
            i <= n,
            n == bf.rules.entries().len(),
            names == names_of(bf.rules.entries()),
            pair_views(pairs@) == numbered(names).take(i as int),
            forall|k: int| 0 <= k < pairs@.len() ==> (#[trigger] pairs@[k]).1 < n,
        decreases n - i,
    {
        let ghost before = pair_views(pairs@);
        let nm = copy_string(bf.rules.name_at(i));
        let ghost nv = nm@;
        pairs.push((nm, i));
        assert(nv == bf.rules.entries()[i as int].0);
        assert(numbered(names)[i as int] == (bf.rules.entries()[i as int].0, i));
        assert(pair_views(pairs@) =~= before.push((nv, i)));
        assert(pair_views(pairs@) =~= numbered(names).take(i + 1));
        i = i + 1;
    }
    assert(numbered(names).take(n as int) =~= numbered(names));
    proof {
        lemma_sorted_positions(numbered(names), n as int);
    }
    let es = sort_by_name(pairs);
    let ghost ev = pair_views(es@);
    assert(ev == listed(bf));
    assert forall|k: int| 0 <= k < es@.len() implies (#[trigger] es@[k]).1 < n by {
        assert(ev[k].1 == es@[k].1);
    }
    let col = name_column(&pair_names(&es));
    // Named groups, sorted.
    let mut seen: Vec<String> = Vec::new();
    let mut k: usize = 0;
    while k < es.len()
        invariant
            k <= es@.len(),
            ev == pair_views(es@),
            forall|j: int| 0 <= j < es@.len() ==> (#[trigger] es@[j]).1 < n,
            n == bf.rules.entries().len(),
            views(seen@) == dedup(groups_seen(bf, ev.take(k as int))),
        decreases es@.len() - k,
    {
        assert(ev.take(k + 1).drop_last() =~= ev.take(k as int));
        assert(ev.take(k + 1).last() == (es@[k as int].0@, es@[k as int].1));
        assert(es@[k as int].1 < n);
        let g = group_text(bf, es[k].1);
        let ghost prev = groups_seen(bf, ev.take(k as int));
        if g.unicode_len() > 0 {
            proof {
                crate::text::lemma_dedup_contains(prev, g@);
                assert((prev + seq![g@]).drop_last() =~= prev);
                assert((prev + seq![g@]).last() == g@);
            }
            if !crate::import::holds(&seen, g) {
                let ghost b = views(seen@);
                seen.push(String::from_str(g));
                assert(views(seen@) =~= b.push(g@));
            }
        } else {
            assert(groups_seen(bf, ev.take(k + 1)) =~= prev);
        }
        k = k + 1;
    }
    assert(ev.take(es@.len() as int) =~= ev);
    let groups = sort_strings(&seen);
    let mut out: Vec<String> = Vec::new();
    let mut j: usize = 0;
    while j < groups.len()
        invariant
            j <= groups@.len(),
            ev == pair_views(es@),
            ev == listed(bf),
            views(groups@) == named_groups(bf),
            forall|q: int| 0 <= q < es@.len() ==> (#[trigger] es@[q]).1 < bf.rules.entries().len(),
            col == column_width(names_of(ev)),
            views(out@) == named_lines(bf, views(groups@).take(j as int), ev, col as nat, flag_views(statuses@), tty),
        decreases groups@.len() - j,
    {
        let ghost gv = views(groups@);
        assert(gv.take(j + 1).drop_last() =~= gv.take(j as int));
        assert(gv.take(j + 1).last() == groups@[j as int]@);
        let ghost before = views(out@);
        out.push(copy_string(&groups[j]));
        let lines = group_text_lines(bf, &es, groups[j].as_str(), col, statuses, tty);
        crate::types::append_strings(&mut out, &lines);
        assert(views(out@) =~= before + seq![groups@[j as int]@] + views(lines@));
        j = j + 1;
    }
    assert(views(groups@).take(groups@.len() as int) =~= views(groups@));
    let ungrouped = group_text_lines(bf, &es, "", col, statuses, tty);
    let ghost named = views(out@);
    if ungrouped.len() > 0 {
        if groups.len() > 0 {
            out.push(String::from_str("Other"));
        }
        crate::types::append_strings(&mut out, &ungrouped);
        assert(views(out@) =~= named + ((if groups@.len() > 0 {
            seq!["Other"@]
        } else {
            seq![]
        }) + views(ungrouped@)));
    } else {
        assert(views(out@) =~= named + Seq::<Seq<char>>::empty());
    }
    out
}


/// `CHANGED` or `clean`.
pub open spec fn change_word(changed: bool) -> Seq<char> {
    if changed {
        "CHANGED"@
    } else {
        "clean"@
    }
}

/// `    <path>  <CHANGED|clean>` for each path.
pub open spec fn path_lines(paths: Seq<Seq<char>>, changed: Seq<bool>) -> Seq<Seq<char>> {
    Seq::new(paths.len(), |i: int| "    "@ + paths[i] + "  "@ + change_word(changed[i]))
}

/// A dependency counts as built when its rule has an output that the lock
/// file holds.
pub open spec fn dep_built(bf: &BuildFile, lf: Map<Seq<char>, Seq<char>>, dep: Seq<char>) -> bool {
    let i = crate::strmap::name_index(bf.rules.entries(), dep);
    i >= 0 && bf.rules.entries()[i].1.output@.len() > 0 && lf.contains_key(bf.rules.entries()[i].1.output@)
}

/// The line for a tracked environment variable, given its value now and
/// the value stored in the lock file.
pub open spec fn env_line(var: Seq<char>, current: Option<Seq<char>>, stored: Option<Seq<char>>) -> Seq<char> {
    let shown = match current {
        Some(v) => var + "="@ + v,
        None => var + " (unset)"@,
    };
    if current != stored {
        "    "@ + shown + "  CHANGED ("@ + match stored {
            Some(v) => "was: "@ + v,
            None => "was: unset"@,
        } + ")"@
    } else {
        "    "@ + shown + "  clean"@
    }
}

/// The value of `k` in a map, if any.
pub open spec fn lookup(m: Map<Seq<char>, Seq<char>>, k: Seq<char>) -> Option<Seq<char>> {
    if m.contains_key(k) {
        Some(m[k])
    } else {
        None
    }
}

/// The heading and input lines of `why`.
pub open spec fn why_inputs_part(
    name: Seq<char>,
    inputs: Seq<Seq<char>>,
    input_changed: Seq<bool>,
    discovered: Seq<Seq<char>>,
    discovered_changed: Seq<bool>,
) -> Seq<Seq<char>> {
    seq!["target: "@ + name] + if inputs.len() == 0 && discovered.len() == 0 {
        seq!["  no inputs declared — always runs"@]
    } else {
        seq!["  inputs:"@] + path_lines(inputs, input_changed) + if discovered.len() > 0 {
            seq!["  depfile inputs (auto-discovered):"@] + path_lines(discovered, discovered_changed)
        } else {
            seq![]
        }
    }
}

/// The dependency lines of `why`.
pub open spec fn why_deps_part(bf: &BuildFile, raw: RawRule, lf: Map<Seq<char>, Seq<char>>) -> Seq<Seq<char>> {
    let deps = views(raw.deps@);
    if deps.len() > 0 {
        seq!["  deps:"@] + Seq::new(
            deps.len(),
            |i: int|
                "    "@ + deps[i] + "  "@ + if dep_built(bf, lf, deps[i]) {
                    "built"@
                } else {
                    "never built"@
                },
        )
    } else {
        seq![]
    }
}

/// The tracked-variable lines of `why`.
pub open spec fn why_env_part(
    bf: &BuildFile,
    lf: Map<Seq<char>, Seq<char>>,
    env: Map<Seq<char>, Seq<char>>,
) -> Seq<Seq<char>> {
    let vars = views(bf.config.env@);
    if vars.len() > 0 {
        seq!["  env:"@] + Seq::new(
            vars.len(),
            |i: int| env_line(vars[i], lookup(env, vars[i]), lookup(lf, crate::hash::env_key_of(vars[i]))),
        )
    } else {
        seq![]
    }
}

/// The rule's own environment, sorted by name.
pub open spec fn why_overrides_part(raw: RawRule) -> Seq<Seq<char>> {
    let keys = sorted_strings(names_of(raw.env.entries()));
    if keys.len() > 0 {
        seq!["  rule env overrides:"@] + Seq::new(
            keys.len(),
            |i: int| "    "@ + keys[i] + "="@ + raw.env.view()[keys[i]],
        )
    } else {
        seq![]
    }
}

/// What `pbuild why <name>` prints for the rule `raw` of that name. `inputs`
/// are its expanded inputs and `discovered` the inputs its depfile reported
/// earlier, `changed` telling for each whether it is dirty; `env` is the
/// environment now.
pub open spec fn why_text(
    bf: &BuildFile,
    name: Seq<char>,
    raw: RawRule,
    lf: Map<Seq<char>, Seq<char>>,
    env: Map<Seq<char>, Seq<char>>,
    inputs: Seq<Seq<char>>,
    input_changed: Seq<bool>,
    discovered: Seq<Seq<char>>,
    discovered_changed: Seq<bool>,
) -> Seq<Seq<char>> {
    why_inputs_part(name, inputs, input_changed, discovered, discovered_changed) + why_deps_part(bf, raw, lf)
        + why_env_part(bf, lf, env) + why_overrides_part(raw)
}

/// `    <path>  <CHANGED|clean>` lines.
fn path_text(out: &mut Vec<String>, paths: &Vec<String>, changed: &Vec<bool>)
    requires
        changed@.len() == paths@.len(),
    ensures
        views(final(out)@) == views(old(out)@) + path_lines(views(paths@), changed@),
{
    let ghost start = views(out@);
    let mut i: usize = 0;
    while i < paths.len()
        invariant
            i <= paths@.len(),
            changed@.len() == paths@.len(),
            views(out@) == start + path_lines(views(paths@), changed@).take(i as int),
        decreases paths@.len() - i,
    {
        let ghost before = views(out@);
        let line = String::from_str("    ").concat(paths[i].as_str()).concat("  ").concat(
            if changed[i] {
                "CHANGED"
            } else {
                "clean"
            },
        );
        out.push(line);
        assert(views(out@) =~= before.push(line@));
        assert(path_lines(views(paths@), changed@).take(i + 1) =~= path_lines(views(paths@), changed@).take(
            i as int,
        ).push(line@));
        i = i + 1;
    }
    assert(path_lines(views(paths@), changed@).take(paths@.len() as int) =~= path_lines(
        views(paths@),
        changed@,
    ));
}

/// Whether the rule named `dep` has an output the lock file holds.
fn built(bf: &BuildFile, lf: &crate::hash::LockFile, dep: &str) -> (b: bool)
    ensures
        b == dep_built(bf, lf.view(), dep@),
{
    match bf.rules.get(dep) {
        Some(r) => r.output.as_str().unicode_len() > 0 && lf.contains_key(r.output.as_str()),
        None => false,
    }
}

/// The view of an optional reference to a string.
pub open spec fn opt_ref_view(o: Option<&String>) -> Option<Seq<char>> {
    match o {
        Some(s) => Some(s@),
        None => None,
    }
}

/// The line for one tracked variable.
fn env_text(var: &str, current: Option<&String>, stored: Option<&str>) -> (line: String)
    ensures
        line@ == env_line(var@, opt_ref_view(current), crate::hash::opt_str_view(stored)),
{
    let shown = match current {
        Some(v) => String::from_str(var).concat("=").concat(v.as_str()),
        None => String::from_str(var).concat(" (unset)"),
    };
    let same = match (current, stored) {
        (Some(c), Some(s)) => str_eq(c.as_str(), s),
        (None, None) => true,
        _ => false,
    };
    if !same {
        let was = match stored {
            Some(v) => String::from_str("was: ").concat(v),
            None => String::from_str("was: unset"),
        };
        String::from_str("    ").concat(shown.as_str()).concat("  CHANGED (").concat(was.as_str()).concat(")")
    } else {
        String::from_str("    ").concat(shown.as_str()).concat("  clean")
    }
}

/// Sorting keeps only entries of the input.
proof fn lemma_sorted_members<A>(s: Seq<(Seq<char>, A)>)
    ensures
        forall|k: int| 0 <= k < sorted_by_name(s).len() ==> s.contains(#[trigger] sorted_by_name(s)[k]),
        sorted_by_name(s).len() == s.len(),
    decreases s.len(),
{
    if s.len() > 0 {
        let m = least_index(s, s.len() as int);
        lemma_least_index(s, s.len() as int);
        let r = s.remove(m);
        lemma_sorted_members(r);
        let t = sorted_by_name(s);
        assert forall|k: int| 0 <= k < t.len() implies s.contains(#[trigger] t[k]) by {
            if k == 0 {
                assert(s[m] == t[0]);
            } else {
                assert(t[k] == sorted_by_name(r)[k - 1]);
                let j = choose|j: int| 0 <= j < r.len() && r[j] == t[k];
                if j < m {
                    assert(s[j] == r[j]);
                } else {
                    assert(s[j + 1] == r[j]);
                }
            }
        }
    }
}

/// Sorted strings are strings of the input.
proof fn lemma_sorted_strings_members(s: Seq<Seq<char>>)
    ensures
        forall|k: int| 0 <= k < sorted_strings(s).len() ==> s.contains(#[trigger] sorted_strings(s)[k]),
{
    let n = numbered(s);
    lemma_sorted_members(n);
    assert forall|k: int| 0 <= k < sorted_strings(s).len() implies s.contains(#[trigger] sorted_strings(s)[k]) by {
        let p = sorted_by_name(n)[k];
        assert(n.contains(p));
        let j = choose|j: int| 0 <= j < n.len() && n[j] == p;
        assert(s[j] == p.0);
    }
}

/// Appends the heading and input lines of `why`.
fn why_inputs(
    out: &mut Vec<String>,
    name: &str,
    inputs: &Vec<String>,
    input_changed: &Vec<bool>,
    discovered: &Vec<String>,
    discovered_changed: &Vec<bool>,
)
    requires
        input_changed@.len() == inputs@.len(),
        discovered_changed@.len() == discovered@.len(),
    ensures
        views(final(out)@) == views(old(out)@) + why_inputs_part(
            name@,
            views(inputs@),
            input_changed@,
            views(discovered@),
            discovered_changed@,
        ),
{
    let ghost o0 = views(out@);
    out.push(String::from_str("target: ").concat(name));
    let ghost o1 = views(out@);
    assert(o1 =~= o0 + seq!["target: "@ + name@]);
    if inputs.len() == 0 && discovered.len() == 0 {
        out.push(String::from_str("  no inputs declared — always runs"));
        assert(views(out@) =~= o1 + seq!["  no inputs declared — always runs"@]);
    } else {
        out.push(String::from_str("  inputs:"));
        let ghost o2 = views(out@);
        assert(o2 =~= o1 + seq!["  inputs:"@]);
        path_text(out, inputs, input_changed);
        let ghost o3 = views(out@);
        if discovered.len() > 0 {
            out.push(String::from_str("  depfile inputs (auto-discovered):"));
            let ghost o4 = views(out@);
            assert(o4 =~= o3 + seq!["  depfile inputs (auto-discovered):"@]);
            path_text(out, discovered, discovered_changed);
            assert(views(out@) =~= o1 + (seq!["  inputs:"@] + path_lines(views(inputs@), input_changed@) + (
            seq!["  depfile inputs (auto-discovered):"@] + path_lines(views(discovered@), discovered_changed@))));
        } else {
            assert(views(out@) =~= o1 + (seq!["  inputs:"@] + path_lines(views(inputs@), input_changed@)
                + Seq::<Seq<char>>::empty()));
        }
    }
    assert(views(out@) =~= o0 + why_inputs_part(
        name@,
        views(inputs@),
        input_changed@,
        views(discovered@),
        discovered_changed@,
    ));
}

/// Appends the dependency lines of `why`.
fn why_deps(out: &mut Vec<String>, bf: &BuildFile, raw: &RawRule, lf: &crate::hash::LockFile)
    ensures
        views(final(out)@) == views(old(out)@) + why_deps_part(bf, *raw, lf.view()),
{
    let ghost o0 = views(out@);
    let ghost deps = views(raw.deps@);
    if raw.deps.len() == 0 {
        assert(views(out@) =~= o0 + Seq::<Seq<char>>::empty());
        return ;
    }
    out.push(String::from_str("  deps:"));
    let ghost start = views(out@);
    assert(start =~= o0 + seq!["  deps:"@]);
    let mut i: usize = 0;
    while i < raw.deps.len()
        invariant
            i <= raw.deps@.len(),
            deps == views(raw.deps@),
            views(out@).len() == start.len() + i,
            views(out@).take(start.len() as int) == start,
            forall|q: int|
                start.len() <= q < start.len() + i ==> #[trigger] views(out@)[q] == "    "@ + deps[q
                    - start.len()] + "  "@ + if dep_built(bf, lf.view(), deps[q - start.len()]) {
                    "built"@
                } else {
                    "never built"@
                },
        decreases raw.deps@.len() - i,
    {
        let d = raw.deps[i].as_str();
        let status = if built(bf, lf, d) {
            "built"
        } else {
            "never built"
        };
        let ghost before = views(out@);
        out.push(String::from_str("    ").concat(d).concat("  ").concat(status));
        assert(views(out@) =~= before.push(views(out@).last()));
        assert(views(out@).take(start.len() as int) =~= before.take(start.len() as int));
        i = i + 1;
    }
    assert forall|q: int| 0 <= q < start.len() implies views(out@)[q] == start[q] by {
        assert(views(out@).take(start.len() as int)[q] == views(out@)[q]);
    }
    let ghost tail = Seq::new(
        deps.len(),
        |j: int|
            "    "@ + deps[j] + "  "@ + if dep_built(bf, lf.view(), deps[j]) {
                "built"@
            } else {
                "never built"@
            },
    );
    assert(why_deps_part(bf, *raw, lf.view()) == seq!["  deps:"@] + tail);
    assert forall|q: int| 0 <= q < views(out@).len() implies views(out@)[q] == (start + tail)[q] by {
        if q >= start.len() {
            assert(tail[q - start.len()] == views(out@)[q]);
        }
    }
    assert(views(out@) =~= start + tail);
    assert(views(out@) =~= o0 + why_deps_part(bf, *raw, lf.view()));
}

/// Appends the tracked-variable lines of `why`.
fn why_env(out: &mut Vec<String>, bf: &BuildFile, lf: &crate::hash::LockFile, env: &crate::strmap::StrMap)
    ensures
        views(final(out)@) == views(old(out)@) + why_env_part(bf, lf.view(), env.view()),
{
    let ghost o0 = views(out@);
    let ghost vars = views(bf.config.env@);
    if bf.config.env.len() == 0 {
        assert(views(out@) =~= o0 + Seq::<Seq<char>>::empty());
        return ;
    }
    out.push(String::from_str("  env:"));
    let ghost start = views(out@);
    assert(start =~= o0 + seq!["  env:"@]);
    let mut i: usize = 0;
    while i < bf.config.env.len()
        invariant
            i <= bf.config.env@.len(),
            vars == views(bf.config.env@),
            views(out@).len() == start.len() + i,
            views(out@).take(start.len() as int) == start,
            forall|q: int|
                start.len() <= q < start.len() + i ==> #[trigger] views(out@)[q] == env_line(
                    vars[q - start.len()],
                    lookup(env.view(), vars[q - start.len()]),
                    lookup(lf.view(), crate::hash::env_key_of(vars[q - start.len()])),
                ),
        decreases bf.config.env@.len() - i,
    {
        let var = bf.config.env[i].as_str();
        let current = env.get(var);
        let stored = crate::hash::env_stored_value(lf, var);
        let line = env_text(var, current, stored);
        let ghost before = views(out@);
        out.push(line);
        assert(views(out@) =~= before.push(line@));
        assert(views(out@).take(start.len() as int) =~= before.take(start.len() as int));
        i = i + 1;
    }
    assert forall|q: int| 0 <= q < start.len() implies views(out@)[q] == start[q] by {
        assert(views(out@).take(start.len() as int)[q] == views(out@)[q]);
    }
    let ghost tail = Seq::new(
        vars.len(),
        |j: int| env_line(vars[j], lookup(env.view(), vars[j]), lookup(lf.view(), crate::hash::env_key_of(vars[j]))),
    );
    assert(why_env_part(bf, lf.view(), env.view()) == seq!["  env:"@] + tail);
    assert forall|q: int| 0 <= q < views(out@).len() implies views(out@)[q] == (start + tail)[q] by {
        if q >= start.len() {
            assert(tail[q - start.len()] == views(out@)[q]);
        }
    }
    assert(views(out@) =~= start + tail);
    assert(views(out@) =~= o0 + why_env_part(bf, lf.view(), env.view()));
}

/// Appends the rule's own environment, sorted by name.
fn why_overrides(out: &mut Vec<String>, raw: &RawRule)
    ensures
        views(final(out)@) == views(old(out)@) + why_overrides_part(*raw),
{
    let ghost o0 = views(out@);
    let nkeys = raw.env.len();
    let mut keys: Vec<String> = Vec::new();
    let mut i: usize = 0;
    while i < nkeys
        invariant
            i <= nkeys,
            nkeys == raw.env.entries().len(),
            nkeys == raw.env.count(),
            views(keys@) == names_of(raw.env.entries()).take(i as int),
        decreases nkeys - i,
    {
        let ghost b = views(keys@);
        let kc = copy_string(raw.env.key_at(i));
        let ghost kv = kc@;
        keys.push(kc);
        assert(views(keys@) =~= b.push(kv));
        assert(views(keys@) =~= names_of(raw.env.entries()).take(i + 1));
        i = i + 1;
    }
    assert(names_of(raw.env.entries()).take(nkeys as int) =~= names_of(raw.env.entries()));
    let sorted = sort_strings(&keys);
    let ghost ks = views(sorted@);
    proof {
        lemma_sorted_strings_members(names_of(raw.env.entries()));
    }
    if sorted.len() == 0 {
        assert(views(out@) =~= o0 + Seq::<Seq<char>>::empty());
        return ;
    }
    out.push(String::from_str("  rule env overrides:"));
    let ghost start = views(out@);
    assert(start =~= o0 + seq!["  rule env overrides:"@]);
    let mut k: usize = 0;
    while k < sorted.len()
        invariant
            k <= sorted@.len(),
            ks == views(sorted@),
            ks == sorted_strings(names_of(raw.env.entries())),
            forall|q: int| 0 <= q < ks.len() ==> names_of(raw.env.entries()).contains(#[trigger] ks[q]),
            nkeys == raw.env.entries().len(),
            forall|q: int| 0 <= q < nkeys ==> raw.env.view().contains_key(#[trigger] raw.env.entries()[q].0),
            views(out@).len() == start.len() + k,
            views(out@).take(start.len() as int) == start,
            forall|q: int|
                start.len() <= q < start.len() + k ==> #[trigger] views(out@)[q] == "    "@ + ks[q
                    - start.len()] + "="@ + raw.env.view()[ks[q - start.len()]],
        decreases sorted@.len() - k,
    {
        let key = sorted[k].as_str();
        proof {
            assert(names_of(raw.env.entries()).contains(ks[k as int]));
            let j = choose|j: int|
                0 <= j < names_of(raw.env.entries()).len() && names_of(raw.env.entries())[j] == ks[k as int];
            assert(raw.env.entries()[j].0 == ks[k as int]);
            assert(raw.env.view().contains_key(raw.env.entries()[j].0));
        }
        let value: &str = match raw.env.get(key) {
            Some(v) => v.as_str(),
            None => "",
        };
        let ghost before = views(out@);
        out.push(String::from_str("    ").concat(key).concat("=").concat(value));
        assert(views(out@) =~= before.push(views(out@).last()));
        assert(views(out@).take(start.len() as int) =~= before.take(start.len() as int));
        k = k + 1;
    }
    assert forall|q: int| 0 <= q < start.len() implies views(out@)[q] == start[q] by {
        assert(views(out@).take(start.len() as int)[q] == views(out@)[q]);
    }
    let ghost tail = Seq::new(ks.len(), |j: int| "    "@ + ks[j] + "="@ + raw.env.view()[ks[j]]);
    assert(why_overrides_part(*raw) == seq!["  rule env overrides:"@] + tail);
    assert forall|q: int| 0 <= q < views(out@).len() implies views(out@)[q] == (start + tail)[q] by {
        if q >= start.len() {
            assert(tail[q - start.len()] == views(out@)[q]);
        }
    }
    assert(views(out@) =~= start + tail);
    assert(views(out@) =~= o0 + why_overrides_part(*raw));
}

/// What `pbuild why <name>` prints; see `why_text`. `None` when no rule has
/// that name.
pub fn why_lines(
    bf: &BuildFile,
    name: &str,
    lf: &crate::hash::LockFile,
    env: &crate::strmap::StrMap,
    inputs: &Vec<String>,
    input_changed: &Vec<bool>,
    discovered: &Vec<String>,
    discovered_changed: &Vec<bool>,
) -> (r: Option<Vec<String>>)
    requires
        input_changed@.len() == inputs@.len(),
        discovered_changed@.len() == discovered@.len(),
    ensures
        crate::strmap::name_index(bf.rules.entries(), name@) < 0 ==> r is None,
        crate::strmap::name_index(bf.rules.entries(), name@) >= 0 ==> r is Some && views(r->Some_0@)
            == why_text(
            bf,
            name@,
            bf.rules.entries()[crate::strmap::name_index(bf.rules.entries(), name@)].1,
            lf.view(),
            env.view(),
            views(inputs@),
            input_changed@,
            views(discovered@),
            discovered_changed@,
        ),
{
    let raw = match bf.rules.get(name) {
        Some(r) => r,
        None => {
            return None;
        },
    };
    let mut out: Vec<String> = Vec::new();
    assert(views(out@) =~= Seq::<Seq<char>>::empty());
    why_inputs(&mut out, name, inputs, input_changed, discovered, discovered_changed);
    why_deps(&mut out, bf, raw, lf);
    why_env(&mut out, bf, lf, env);
    why_overrides(&mut out, raw);
    Some(out)
}
/// What `--explain` shows for a rule without running it: the commands as
/// they would run (`cmds`), the directory they run in, the rule's own
/// environment, its timeout (`max_time_secs`, in whole seconds) and how
/// often it is retried.
pub open spec fn explain_text(
    rule: &Rule,
    cmds: Seq<Seq<Seq<char>>>,
    dir: Option<Seq<char>>,
    max_time_secs: Option<nat>,
) -> Seq<Seq<char>> {
    seq!["target: "@ + rule.target@.1] + cmds.map_values(|c: Seq<Seq<char>>| "  $ "@ + join(c, ' ')) + (match dir {
        Some(d) => seq!["  dir: "@ + d],
        None => seq![],
    }) + rule.env.entries().map_values(|e: (Seq<char>, Seq<char>)| "  env: "@ + e.0 + "="@ + e.1) + (
    match max_time_secs {
        Some(n) => seq!["  max_time: "@ + duration_text_of(n)],
        None => seq![],
    }) + if rule.retry > 0 {
        seq!["  retry: "@ + decimal_of(rule.retry as nat)]
    } else {
        seq![]
    }
}

/// The lines of `--explain` for a rule; see `explain_text`. `cmds` and
/// `dir` are what `effective_commands` gives for the rule.
pub fn explain_lines(rule: &Rule, cmds: &Vec<Vec<String>>, dir: &Option<String>, max_time_secs: Option<u64>) -> (r: Vec<
    String,
>)
    ensures
        views(r@) == explain_text(
            rule,
            argv_views(cmds@),
            opt_view(*dir),
            match max_time_secs {
                Some(n) => Some(n as nat),
                None => None,
            },
        ),
{
    let ghost cv = argv_views(cmds@);
    let mut out: Vec<String> = Vec::new();
    out.push(String::from_str("target: ").concat(rule.target.name().as_str()));
    let ghost head = views(out@);
    assert(head =~= seq!["target: "@ + rule.target@.1]);
    let mut i: usize = 0;
    while i < cmds.len()
        invariant
            i <= cmds@.len(),
            cv == argv_views(cmds@),
            views(out@) == head + cv.take(i as int).map_values(|c: Seq<Seq<char>>| "  $ "@ + join(c, ' ')),
        decreases cmds@.len() - i,
    {
        let ghost before = views(out@);
        let line = String::from_str("  $ ").concat(join_with(&cmds[i], ' ').as_str());
        let ghost lv = line@;
        out.push(line);
        assert(views(out@) =~= before.push(lv));
        assert(cv[i as int] == views(cmds@[i as int]@));
        assert(cv.take(i + 1).map_values(|c: Seq<Seq<char>>| "  $ "@ + join(c, ' ')) =~= cv.take(
            i as int,
        ).map_values(|c: Seq<Seq<char>>| "  $ "@ + join(c, ' ')).push(lv));
        assert(views(out@) =~= head + cv.take(i + 1).map_values(|c: Seq<Seq<char>>| "  $ "@ + join(c, ' ')));
        i = i + 1;
    }
    assert(cv.take(cmds@.len() as int) =~= cv);
    let ghost with_cmds = views(out@);
    match dir {
        Some(d) => {
            out.push(String::from_str("  dir: ").concat(d.as_str()));
            assert(views(out@) =~= with_cmds + seq!["  dir: "@ + d@]);
        },
        None => {
            assert(views(out@) =~= with_cmds + Seq::<Seq<char>>::empty());
        },
    }
    let ghost with_dir = views(out@);
    let ghost es = rule.env.entries();
    let n = rule.env.len();
    let mut k: usize = 0;
    while k < n
        invariant
            k <= n,
            n == es.len(),
            n == rule.env.count(),
            es == rule.env.entries(),
            views(out@) == with_dir + es.take(k as int).map_values(
                |e: (Seq<char>, Seq<char>)| "  env: "@ + e.0 + "="@ + e.1,
            ),
        decreases n - k,
    {
        let ghost before = views(out@);
        let line = String::from_str("  env: ").concat(rule.env.key_at(k).as_str()).concat("=").concat(
            rule.env.value_at(k).as_str(),
        );
        let ghost lv = line@;
        out.push(line);
        assert(views(out@) =~= before.push(lv));
        assert(es.take(k + 1).map_values(|e: (Seq<char>, Seq<char>)| "  env: "@ + e.0 + "="@ + e.1) =~= es.take(
            k as int,
        ).map_values(|e: (Seq<char>, Seq<char>)| "  env: "@ + e.0 + "="@ + e.1).push(lv));
        assert(views(out@) =~= with_dir + es.take(k + 1).map_values(
            |e: (Seq<char>, Seq<char>)| "  env: "@ + e.0 + "="@ + e.1,
        ));
        k = k + 1;
    }
    assert(es.take(n as int) =~= es);
    let ghost with_env = views(out@);
    match max_time_secs {
        Some(secs) => {
            out.push(String::from_str("  max_time: ").concat(duration_text(secs).as_str()));
            assert(views(out@) =~= with_env + seq!["  max_time: "@ + duration_text_of(secs as nat)]);
        },
        None => {
            assert(views(out@) =~= with_env + Seq::<Seq<char>>::empty());
        },
    }
    let ghost with_time = views(out@);
    if rule.retry > 0 {
        out.push(String::from_str("  retry: ").concat(decimal(rule.retry as u64).as_str()));
        assert(views(out@) =~= with_time + seq!["  retry: "@ + decimal_of(rule.retry as nat)]);
    } else {
        assert(views(out@) =~= with_time + Seq::<Seq<char>>::empty());
    }
    out
}

/// Whether each tracked variable changed: its value now differs from the
/// one the lock file stores.
pub open spec fn env_changes(
    bf: &BuildFile,
    lf: Map<Seq<char>, Seq<char>>,
    env: Map<Seq<char>, Seq<char>>,
) -> Seq<bool> {
    let vars = views(bf.config.env@);
    Seq::new(vars.len(), |i: int| lookup(env, vars[i]) != lookup(lf, crate::hash::env_key_of(vars[i])))
}

/// Whether each dependency of the rule was never built.
pub open spec fn unbuilt_deps(bf: &BuildFile, raw: RawRule, lf: Map<Seq<char>, Seq<char>>) -> Seq<bool> {
    let deps = views(raw.deps@);
    Seq::new(deps.len(), |i: int| !dep_built(bf, lf, deps[i]))
}

/// Why the rule `raw` would rebuild, the first reason that holds: a
/// tracked variable changed, a dependency was never built, an input (a
/// declared one, then one its depfile reported) changed, it has no inputs
/// at all, or it does not cache. `None` when it is up to date.
pub open spec fn why_reason_of(
    bf: &BuildFile,
    raw: RawRule,
    lf: Map<Seq<char>, Seq<char>>,
    env: Map<Seq<char>, Seq<char>>,
    inputs: Seq<Seq<char>>,
    input_changed: Seq<bool>,
    discovered: Seq<Seq<char>>,
    discovered_changed: Seq<bool>,
) -> Option<Seq<char>> {
    let deps = views(raw.deps@);
    if first_set(env_changes(bf, lf, env), 0) >= 0 {
        Some("env vars changed"@)
    } else if first_set(unbuilt_deps(bf, raw, lf), 0) >= 0 {
        Some("dep never built: "@ + deps[first_set(unbuilt_deps(bf, raw, lf), 0)])
    } else if first_set(input_changed, 0) >= 0 {
        Some("changed: "@ + inputs[first_set(input_changed, 0)])
    } else if first_set(discovered_changed, 0) >= 0 {
        Some("changed: "@ + discovered[first_set(discovered_changed, 0)])
    } else if inputs.len() == 0 && discovered.len() == 0 {
        Some("no inputs — always runs"@)
    } else if !raw.cache {
        Some("cache = false — always runs"@)
    } else {
        None
    }
}

/// The position of the first `true`.
fn first_true(flags: &Vec<bool>) -> (r: Option<usize>)
    ensures
        match r {
            Some(k) => k < flags@.len() && k as int == first_set(flags@, 0),
            None => first_set(flags@, 0) == -1,
        },
{
    let mut k: usize = 0;
    while k < flags.len()
        invariant
            k <= flags@.len(),
            first_set(flags@, 0) == first_set(flags@, k as int),
        decreases flags@.len() - k,
    {
        if flags[k] {
            return Some(k);
        }
        k = k + 1;
    }
    None
}

/// Why `pbuild why` finds the rule `raw` would rebuild; see
/// `why_reason_of`. `None` when it is up to date.
pub fn why_reason(
    bf: &BuildFile,
    raw: &RawRule,
    lf: &crate::hash::LockFile,
    env: &crate::strmap::StrMap,
    inputs: &Vec<String>,
    input_changed: &Vec<bool>,
    discovered: &Vec<String>,
    discovered_changed: &Vec<bool>,
) -> (r: Option<String>)
    requires
        input_changed@.len() == inputs@.len(),
        discovered_changed@.len() == discovered@.len(),
    ensures
        opt_view(r) == why_reason_of(
            bf,
            *raw,
            lf.view(),
            env.view(),
            views(inputs@),
            input_changed@,
            views(discovered@),
            discovered_changed@,
        ),
{
    let ghost vars = views(bf.config.env@);
    let mut env_flags: Vec<bool> = Vec::new();
    let mut i: usize = 0;
    while i < bf.config.env.len()
        invariant
            i <= bf.config.env@.len(),
            vars == views(bf.config.env@),
            env_flags@ == env_changes(bf, lf.view(), env.view()).take(i as int),
        decreases bf.config.env@.len() - i,
    {
        let var = bf.config.env[i].as_str();
        let current = env.get(var);
        let stored = crate::hash::env_stored_value(lf, var);
        let changed = match (current, stored) {
            (Some(c), Some(s)) => !str_eq(c.as_str(), s),
            (None, None) => false,
            _ => true,
        };
        env_flags.push(changed);
        assert(env_flags@ =~= env_changes(bf, lf.view(), env.view()).take(i + 1));
        i = i + 1;
    }
    assert(env_flags@ =~= env_changes(bf, lf.view(), env.view()));
    if first_true(&env_flags).is_some() {
        return Some(String::from_str("env vars changed"));
    }
    let ghost deps = views(raw.deps@);
    let mut dep_flags: Vec<bool> = Vec::new();
    let mut k: usize = 0;
    while k < raw.deps.len()
        invariant
            k <= raw.deps@.len(),
            deps == views(raw.deps@),
            dep_flags@ == unbuilt_deps(bf, *raw, lf.view()).take(k as int),
        decreases raw.deps@.len() - k,
    {
        dep_flags.push(!built(bf, lf, raw.deps[k].as_str()));
        assert(dep_flags@ =~= unbuilt_deps(bf, *raw, lf.view()).take(k + 1));
        k = k + 1;
    }
    assert(dep_flags@ =~= unbuilt_deps(bf, *raw, lf.view()));
    match first_true(&dep_flags) {
        Some(d) => {
            return Some(String::from_str("dep never built: ").concat(raw.deps[d].as_str()));
        },
        None => {},
    }
    match first_true(input_changed) {
        Some(j) => {
            return Some(String::from_str("changed: ").concat(inputs[j].as_str()));
        },
        None => {},
    }
    match first_true(discovered_changed) {
        Some(j) => {
            return Some(String::from_str("changed: ").concat(discovered[j].as_str()));
        },
        None => {},
    }
    if inputs.len() == 0 && discovered.len() == 0 {
        return Some(String::from_str("no inputs — always runs"));
    }
    if !raw.cache {
        return Some(String::from_str("cache = false — always runs"));
    }
    None
}

} // verus!
