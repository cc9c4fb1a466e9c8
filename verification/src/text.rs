//! Character-level helpers shared by the parsers of this crate.
//!
//! Text is processed as sequences of `char`; the spec functions here state
//! the meaning of the few `str` operations the tool relies on
//! (`split_whitespace`, `find`, `starts_with`, `trim`, ...).

use vstd::prelude::*;
use vstd::string::StringExecFns;

verus! {

broadcast use vstd::string::group_string_axioms;

/// Unicode `White_Space`, the set that `char::is_whitespace` tests.
pub open spec fn is_ws(c: char) -> bool {
    let n = c as u32;
    ||| (0x09 <= n && n <= 0x0D)
    ||| n == 0x20
    ||| n == 0x85
    ||| n == 0xA0
    ||| n == 0x1680
    ||| (0x2000 <= n && n <= 0x200A)
    ||| n == 0x2028
    ||| n == 0x2029
    ||| n == 0x202F
    ||| n == 0x205F
    ||| n == 0x3000
}

/// `char::is_whitespace`.
pub fn is_whitespace(c: char) -> (b: bool)
    ensures
        b == is_ws(c),
{
    let n = c as u32;
    (0x09 <= n && n <= 0x0D) || n == 0x20 || n == 0x85 || n == 0xA0 || n == 0x1680 || (0x2000
        <= n && n <= 0x200A) || n == 0x2028 || n == 0x2029 || n == 0x202F || n == 0x205F || n
        == 0x3000
}

/// The view of each string of a sequence.
pub open spec fn views(v: Seq<String>) -> Seq<Seq<char>> {
    v.map_values(|s: String| s@)
}

/// The view of each character vector of a sequence.
pub open spec fn cviews(v: Seq<Vec<char>>) -> Seq<Seq<char>> {
    v.map_values(|s: Vec<char>| s@)
}

/// `String::push`: appends one character.
#[verifier::external_body]
pub(crate) fn push_char(s: &mut String, c: char)
    ensures
        final(s)@ == old(s)@.push(c),
{
    s.push(c);
}

/// The characters of `s`, in order.
pub fn to_chars(s: &str) -> (v: Vec<char>)
    ensures
        v@ == s@,
{
    let mut v: Vec<char> = Vec::new();
    for c in it: s.chars()
        invariant
            v@ == it.seq().take(it.index()),
    {
        v.push(c);
    }
    v
}

/// A `String` holding exactly the characters `v`.
pub fn from_chars(v: &[char]) -> (s: String)
    ensures
        s@ == v@,
{
    let mut s = String::new();
    let mut i: usize = 0;
    while i < v.len()
        invariant
            i <= v@.len(),
            s@ == v@.take(i as int),
        decreases v@.len() - i,
    {
        push_char(&mut s, v[i]);
        assert(v@.take(i + 1) == v@.take(i as int).push(v@[i as int]));
        i = i + 1;
    }
    assert(v@.take(v@.len() as int) == v@);
    s
}

/// The characters `s[from..to]` as a new vector.
pub fn sub_chars(s: &[char], from: usize, to: usize) -> (r: Vec<char>)
    requires
        from <= to <= s@.len(),
    ensures
        r@ == s@.subrange(from as int, to as int),
{
    let mut r: Vec<char> = Vec::new();
    let mut i = from;
    while i < to
        invariant
            from <= i <= to <= s@.len(),
            r@ == s@.subrange(from as int, i as int),
        decreases to - i,
    {
        r.push(s[i]);
        assert(s@.subrange(from as int, i + 1) == s@.subrange(from as int, i as int).push(s@[i as int]));
        i = i + 1;
    }
    r
}

/// Strings holding the given character vectors, in order.
pub fn strings_of(v: &Vec<Vec<char>>) -> (r: Vec<String>)
    ensures
        views(r@) == cviews(v@),
{
    let mut r: Vec<String> = Vec::new();
    let mut i: usize = 0;
    while i < v.len()
        invariant
            i <= v@.len(),
            r@.len() == i,
            forall|j: int| 0 <= j < i ==> #[trigger] r@[j]@ == v@[j]@,
        decreases v@.len() - i,
    {
        let s = from_chars(v[i].as_slice());
        r.push(s);
        i = i + 1;
    }
    assert(views(r@) =~= cviews(v@));
    r
}

/// Whether a vector of character vectors holds `x`.
pub fn contains_chars(v: &Vec<Vec<char>>, x: &[char]) -> (r: bool)
    ensures
        r == cviews(v@).contains(x@),
{
    let mut i: usize = 0;
    while i < v.len()
        invariant
            i <= v@.len(),
            forall|j: int| 0 <= j < i ==> cviews(v@)[j] != x@,
        decreases v@.len() - i,
    {
        if chars_eq(v[i].as_slice(), x) {
            assert(cviews(v@)[i as int] == x@);
            return true;
        }
        i = i + 1;
    }
    false
}

/// The elements of `s` with every repeat of an earlier element left out.
pub open spec fn dedup<A>(s: Seq<A>) -> Seq<A>
    decreases s.len(),
{
    if s.len() == 0 {
        s
    } else {
        let p = dedup(s.drop_last());
        if s.drop_last().contains(s.last()) {
            p
        } else {
            p.push(s.last())
        }
    }
}

/// The elements of `t.push(l)` are those of `t` and `l`.
pub proof fn lemma_push_contains<A>(t: Seq<A>, l: A, x: A)
    ensures
        t.push(l).contains(x) == (t.contains(x) || x == l),
{
    let s = t.push(l);
    if t.contains(x) {
        let k = choose|k: int| 0 <= k < t.len() && t[k] == x;
        assert(s[k] == x);
    }
    if x == l {
        assert(s[t.len() as int] == x);
    }
    if s.contains(x) {
        let k = choose|k: int| 0 <= k < s.len() && s[k] == x;
        if k < t.len() {
            assert(t[k] == x);
        }
    }
}

/// `dedup` keeps exactly the elements of its argument.
pub proof fn lemma_dedup_contains<A>(s: Seq<A>, x: A)
    ensures
        dedup(s).contains(x) == s.contains(x),
    decreases s.len(),
{
    if s.len() > 0 {
        let t = s.drop_last();
        let l = s.last();
        lemma_dedup_contains(t, x);
        assert(s == t.push(l));
        lemma_push_contains(t, l, x);
        lemma_push_contains(dedup(t), l, x);
        if t.contains(l) && x == l {
            lemma_dedup_contains(t, l);
        }
    }
}

/// `dedup` never repeats an element.
pub proof fn lemma_dedup_distinct<A>(s: Seq<A>)
    ensures
        dedup(s).no_duplicates(),
    decreases s.len(),
{
    if s.len() > 0 {
        let t = s.drop_last();
        let l = s.last();
        lemma_dedup_distinct(t);
        if !t.contains(l) {
            lemma_dedup_contains(t, l);
            let d = dedup(t).push(l);
            assert forall|i: int, j: int| 0 <= i < d.len() && 0 <= j < d.len() && i != j implies d[i] != d[j] by {
                if i == d.len() - 1 {
                    assert(dedup(t)[j] == d[j]);
                } else if j == d.len() - 1 {
                    assert(dedup(t)[i] == d[i]);
                } else {
                    assert(dedup(t)[i] == d[i] && dedup(t)[j] == d[j]);
                }
            }
        }
    }
}

/// Whether two character sequences are equal.
pub fn chars_eq(a: &[char], b: &[char]) -> (r: bool)
    ensures
        r == (a@ == b@),
{
    if a.len() != b.len() {
        return false;
    }
    let mut i: usize = 0;
    while i < a.len()
        invariant
            a@.len() == b@.len(),
            i <= a@.len(),
            forall|j: int| 0 <= j < i ==> a@[j] == b@[j],
        decreases a@.len() - i,
    {
        if a[i] != b[i] {
            return false;
        }
        i = i + 1;
    }
    assert(a@ =~= b@);
    true
}

/// Whether `pat` occurs in `s` at position `i`.
pub open spec fn occurs_at(s: Seq<char>, pat: Seq<char>, i: int) -> bool {
    0 <= i && i + pat.len() <= s.len() && s.subrange(i, i + pat.len()) == pat
}

/// Whether `s` contains `pat` at or after position `from`.
pub open spec fn occurs_from(s: Seq<char>, pat: Seq<char>, from: int) -> bool {
    exists|i: int| from <= i && #[trigger] occurs_at(s, pat, i)
}

/// `str::contains` with a string pattern.
pub open spec fn contains_seq(s: Seq<char>, pat: Seq<char>) -> bool {
    occurs_from(s, pat, 0)
}

/// `str::starts_with`.
pub open spec fn starts_with(s: Seq<char>, pat: Seq<char>) -> bool {
    pat.len() <= s.len() && s.take(pat.len() as int) == pat
}

/// `str::ends_with`.
pub open spec fn ends_with(s: Seq<char>, pat: Seq<char>) -> bool {
    pat.len() <= s.len() && s.skip(s.len() - pat.len()) == pat
}

/// The first position, at or after `from`, where `pat` occurs in `s`.
pub open spec fn first_occurrence(s: Seq<char>, pat: Seq<char>, from: int) -> int
    recommends
        occurs_from(s, pat, from),
{
    choose|i: int| from <= i && occurs_at(s, pat, i) && forall|j: int| from <= j < i ==> !occurs_at(s, pat, j)
}

/// The first position at or after `i` where `pat` occurs in `s`, or -1.
pub open spec fn find_first(s: Seq<char>, pat: Seq<char>, i: int) -> int
    decreases s.len() + 1 - i,
{
    if i < 0 || i > s.len() {
        -1
    } else if occurs_at(s, pat, i) {
        i
    } else {
        find_first(s, pat, i + 1)
    }
}

/// What `find_first` finds.
pub proof fn lemma_find_first(s: Seq<char>, pat: Seq<char>, i: int)
    requires
        0 <= i,
    ensures
        find_first(s, pat, i) == -1 || (i <= find_first(s, pat, i) && occurs_at(
            s,
            pat,
            find_first(s, pat, i),
        ) && find_first(s, pat, i) + pat.len() <= s.len()),
        forall|j: int| i <= j < find_first(s, pat, i) ==> !occurs_at(s, pat, j),
        find_first(s, pat, i) == -1 ==> forall|j: int| i <= j ==> !occurs_at(s, pat, j),
    decreases s.len() + 1 - i,
{
    if i <= s.len() && !occurs_at(s, pat, i) {
        lemma_find_first(s, pat, i + 1);
    }
}

/// Whether `pat` occurs in `s` at position `i` (executable form).
pub fn matches_at(s: &[char], pat: &[char], i: usize) -> (r: bool)
    ensures
        r == occurs_at(s@, pat@, i as int),
{
    if i > s.len() || pat.len() > s.len() - i {
        return false;
    }
    let mut k: usize = 0;
    while k < pat.len()
        invariant
            s@.len() == s.len(),
            i + pat@.len() <= s@.len(),
            k <= pat@.len(),
            forall|j: int| 0 <= j < k ==> s@[i + j] == pat@[j],
        decreases pat@.len() - k,
    {
        if s[i + k] != pat[k] {
            assert(s@.subrange(i as int, i + pat@.len())[k as int] != pat@[k as int]);
            return false;
        }
        k = k + 1;
    }
    assert(s@.subrange(i as int, i + pat@.len()) =~= pat@);
    true
}

/// The first position at or after `from` where `pat` occurs in `s`, if any
/// (`str::find` on the suffix that starts at `from`).
pub fn find_from(s: &[char], pat: &[char], from: usize) -> (r: Option<usize>)
    ensures
        match r {
            Some(i) => from <= i && occurs_at(s@, pat@, i as int) && (forall|j: int|
                from <= j < i ==> !occurs_at(s@, pat@, j)) && i == find_first(s@, pat@, from as int),
            None => !occurs_from(s@, pat@, from as int) && find_first(s@, pat@, from as int) == -1,
        },
{
    proof {
        lemma_find_first(s@, pat@, from as int);
    }
    let mut i = from;
    while i < s.len()
        invariant
            from <= i,
            forall|j: int| from <= j < i ==> !occurs_at(s@, pat@, j),
            find_first(s@, pat@, from as int) == -1 || (from <= find_first(s@, pat@, from as int)
                && occurs_at(s@, pat@, find_first(s@, pat@, from as int))),
            forall|j: int| from <= j < find_first(s@, pat@, from as int) ==> !occurs_at(s@, pat@, j),
            find_first(s@, pat@, from as int) == -1 ==> forall|j: int| from <= j ==> !occurs_at(s@, pat@, j),
        decreases s@.len() - i,
    {
        if matches_at(s, pat, i) {
            assert(find_first(s@, pat@, from as int) == i as int);
            return Some(i);
        }
        i = i + 1;
    }
    if i == s.len() && matches_at(s, pat, i) {
        assert(find_first(s@, pat@, from as int) == i as int);
        return Some(i);
    }
    assert forall|j: int| from <= j implies !#[trigger] occurs_at(s@, pat@, j) by {
        if j < i {
        } else {
            assert(j + pat@.len() > s@.len() || j == i);
        }
    }
    None
}

/// The first position of `pat` in `s` at or after `from`, stated through
/// `first_occurrence`.
pub proof fn lemma_first_occurrence(s: Seq<char>, pat: Seq<char>, from: int, i: int)
    requires
        from <= i,
        occurs_at(s, pat, i),
        forall|j: int| from <= j < i ==> !occurs_at(s, pat, j),
    ensures
        first_occurrence(s, pat, from) == i,
{
    let k = first_occurrence(s, pat, from);
    assert(occurs_from(s, pat, from));
    if k < i {
        assert(!occurs_at(s, pat, k));
    }
    if k > i {
        assert(!occurs_at(s, pat, i));
    }
}


/// The decimal digit character for `d` (below 10).
pub open spec fn digit_char(d: nat) -> char {
    if d == 0 {
        '0'
    } else if d == 1 {
        '1'
    } else if d == 2 {
        '2'
    } else if d == 3 {
        '3'
    } else if d == 4 {
        '4'
    } else if d == 5 {
        '5'
    } else if d == 6 {
        '6'
    } else if d == 7 {
        '7'
    } else if d == 8 {
        '8'
    } else {
        '9'
    }
}

/// `n` written in decimal, without leading zeros.
pub open spec fn decimal_of(n: nat) -> Seq<char>
    decreases n,
{
    if n < 10 {
        seq![digit_char(n)]
    } else {
        decimal_of(n / 10).push(digit_char(n % 10))
    }
}

/// `s` back to front.
pub open spec fn reversed(s: Seq<char>) -> Seq<char>
    decreases s.len(),
{
    if s.len() == 0 {
        seq![]
    } else {
        seq![s.last()] + reversed(s.drop_last())
    }
}

fn digit(d: u64) -> (c: char)
    requires
        d < 10,
    ensures
        c == digit_char(d as nat),
{
    if d == 0 {
        '0'
    } else if d == 1 {
        '1'
    } else if d == 2 {
        '2'
    } else if d == 3 {
        '3'
    } else if d == 4 {
        '4'
    } else if d == 5 {
        '5'
    } else if d == 6 {
        '6'
    } else if d == 7 {
        '7'
    } else if d == 8 {
        '8'
    } else {
        '9'
    }
}

/// `n` in decimal, as `format!("{n}")` writes it.
pub fn decimal(n: u64) -> (s: String)
    ensures
        s@ == decimal_of(n as nat),
{
    let mut m: u64 = n / 10;
    let mut low: Vec<char> = Vec::new();
    low.push(digit(n % 10));
    assert(low@ =~= seq![digit_char((n % 10) as nat)]);
    assert(reversed(low@) =~= seq![digit_char((n % 10) as nat)]) by {
        assert(low@.drop_last() =~= Seq::<char>::empty());
        assert(reversed(Seq::<char>::empty()) =~= Seq::<char>::empty());
    }
    while m > 0
        invariant
            decimal_of(n as nat) == (if m == 0 {
                Seq::<char>::empty()
            } else {
                decimal_of(m as nat)
            }) + reversed(low@),
        decreases m,
    {
        let ghost before = low@;
        low.push(digit(m % 10));
        assert(low@.drop_last() =~= before);
        assert(reversed(low@) == seq![digit_char((m % 10) as nat)] + reversed(before));
        let next = m / 10;
        assert(decimal_of(m as nat) == (if next == 0 {
            Seq::<char>::empty()
        } else {
            decimal_of(next as nat)
        }).push(digit_char((m % 10) as nat)));
        m = next;
    }
    let mut s = String::new();
    let mut i: usize = low.len();
    assert(low@.take(i as int) =~= low@);
    while i > 0
        invariant
            i <= low@.len(),
            s@ + reversed(low@.take(i as int)) == reversed(low@),
        decreases i,
    {
        let ghost before = s@;
        push_char(&mut s, low[i - 1]);
        assert(low@.take(i as int).drop_last() =~= low@.take(i - 1));
        assert(reversed(low@.take(i as int)) == seq![low@[i - 1]] + reversed(low@.take(i - 1)));
        assert(before + reversed(low@.take(i as int)) =~= s@ + reversed(low@.take(i - 1)));
        i = i - 1;
    }
    assert(reversed(low@.take(0)) =~= Seq::<char>::empty());
    assert(s@ =~= s@ + Seq::<char>::empty());
    s
}


/// Whether `s` ends with `suffix`.
pub fn has_suffix(s: &[char], suffix: &str) -> (b: bool)
    ensures
        b == ends_with(s@, suffix@),
{
    let pat = to_chars(suffix);
    if pat.len() > s.len() {
        return false;
    }
    let start = s.len() - pat.len();
    let r = matches_at(s, pat.as_slice(), start);
    assert(s@.subrange(start as int, start + pat@.len()) =~= s@.skip(start as int));
    r
}

/// Whether `s` starts with `prefix`.
pub fn has_prefix(s: &[char], prefix: &str) -> (b: bool)
    ensures
        b == starts_with(s@, prefix@),
{
    let pat = to_chars(prefix);
    let r = matches_at(s, pat.as_slice(), 0);
    assert(r ==> s@.subrange(0, pat@.len() as int) =~= s@.take(pat@.len() as int));
    assert(starts_with(s@, prefix@) ==> s@.subrange(0, pat@.len() as int) =~= s@.take(pat@.len() as int));
    r
}

/// Whether `s` contains `pat` anywhere.
pub fn has_infix(s: &[char], pat: &str) -> (b: bool)
    ensures
        b == contains_seq(s@, pat@),
{
    let p = to_chars(pat);
    let r = find_from(s, p.as_slice(), 0);
    r.is_some()
}


/// Appends the characters `s` to `out`.
pub fn extend_chars(out: &mut Vec<char>, s: &[char])
    ensures
        final(out)@ == old(out)@ + s@,
{
    let ghost start = out@;
    let mut i: usize = 0;
    while i < s.len()
        invariant
            i <= s@.len(),
            out@ == start + s@.take(i as int),
        decreases s@.len() - i,
    {
        out.push(s[i]);
        assert(s@.take(i + 1) =~= s@.take(i as int).push(s@[i as int]));
        assert(out@ =~= start + s@.take(i + 1));
        i = i + 1;
    }
    assert(s@.take(s@.len() as int) =~= s@);
}

/// Appends the characters of `s` to `out`.
pub fn extend_str(out: &mut Vec<char>, s: &str)
    ensures
        final(out)@ == old(out)@ + s@,
{
    let cs = to_chars(s);
    extend_chars(out, cs.as_slice());
}


/// `s` without trailing whitespace (`str::trim_end`).
pub open spec fn trim_end_ws(s: Seq<char>) -> Seq<char>
    decreases s.len(),
{
    if s.len() > 0 && is_ws(s.last()) {
        trim_end_ws(s.drop_last())
    } else {
        s
    }
}

/// `s` without leading whitespace (`str::trim_start`).
pub open spec fn trim_start_ws(s: Seq<char>) -> Seq<char>
    decreases s.len(),
{
    if s.len() > 0 && is_ws(s[0]) {
        trim_start_ws(s.skip(1))
    } else {
        s
    }
}

/// `s` without leading and trailing whitespace (`str::trim`).
pub open spec fn trim_ws(s: Seq<char>) -> Seq<char> {
    trim_end_ws(trim_start_ws(s))
}

/// `s` without trailing `c`s (`str::trim_end_matches` with a character).
pub open spec fn trim_end_char(s: Seq<char>, c: char) -> Seq<char>
    decreases s.len(),
{
    if s.len() > 0 && s.last() == c {
        trim_end_char(s.drop_last(), c)
    } else {
        s
    }
}

/// `s` without leading `c`s (`str::trim_start_matches` with a character).
pub open spec fn trim_start_char(s: Seq<char>, c: char) -> Seq<char>
    decreases s.len(),
{
    if s.len() > 0 && s[0] == c {
        trim_start_char(s.skip(1), c)
    } else {
        s
    }
}

/// Trailing whitespace removed.
pub fn trim_end(s: &[char]) -> (r: Vec<char>)
    ensures
        r@ == trim_end_ws(s@),
{
    let mut j: usize = s.len();
    assert(s@.take(j as int) =~= s@);
    while j > 0 && is_whitespace(s[j - 1])
        invariant
            j <= s@.len(),
            trim_end_ws(s@) == trim_end_ws(s@.take(j as int)),
        decreases j,
    {
        assert(s@.take(j as int).drop_last() =~= s@.take(j - 1));
        j = j - 1;
    }
    sub_chars(s, 0, j)
}

/// Leading whitespace removed.
pub fn trim_start(s: &[char]) -> (r: Vec<char>)
    ensures
        r@ == trim_start_ws(s@),
{
    let mut i: usize = 0;
    assert(s@.skip(0) =~= s@);
    while i < s.len() && is_whitespace(s[i])
        invariant
            i <= s@.len(),
            trim_start_ws(s@) == trim_start_ws(s@.skip(i as int)),
        decreases s@.len() - i,
    {
        assert(s@.skip(i as int).skip(1) =~= s@.skip(i + 1));
        i = i + 1;
    }
    let r = sub_chars(s, i, s.len());
    assert(r@ =~= s@.skip(i as int));
    r
}

/// Leading and trailing whitespace removed.
pub fn trim(s: &[char]) -> (r: Vec<char>)
    ensures
        r@ == trim_ws(s@),
{
    let a = trim_start(s);
    trim_end(a.as_slice())
}

/// Trailing `c`s removed.
pub fn trim_end_matching(s: &[char], c: char) -> (r: Vec<char>)
    ensures
        r@ == trim_end_char(s@, c),
{
    let mut j: usize = s.len();
    assert(s@.take(j as int) =~= s@);
    while j > 0 && s[j - 1] == c
        invariant
            j <= s@.len(),
            trim_end_char(s@, c) == trim_end_char(s@.take(j as int), c),
        decreases j,
    {
        assert(s@.take(j as int).drop_last() =~= s@.take(j - 1));
        j = j - 1;
    }
    sub_chars(s, 0, j)
}

/// Leading `c`s removed.
pub fn trim_start_matching(s: &[char], c: char) -> (r: Vec<char>)
    ensures
        r@ == trim_start_char(s@, c),
{
    let mut i: usize = 0;
    assert(s@.skip(0) =~= s@);
    while i < s.len() && s[i] == c
        invariant
            i <= s@.len(),
            trim_start_char(s@, c) == trim_start_char(s@.skip(i as int), c),
        decreases s@.len() - i,
    {
        assert(s@.skip(i as int).skip(1) =~= s@.skip(i + 1));
        i = i + 1;
    }
    let r = sub_chars(s, i, s.len());
    assert(r@ =~= s@.skip(i as int));
    r
}

/// The pieces of `parts` joined with `sep` between neighbours.
pub open spec fn join_str(parts: Seq<Seq<char>>, sep: Seq<char>) -> Seq<char>
    decreases parts.len(),
{
    if parts.len() == 0 {
        seq![]
    } else if parts.len() == 1 {
        parts[0]
    } else {
        join_str(parts.drop_last(), sep) + sep + parts.last()
    }
}

/// The pieces of `v` joined with `sep` between neighbours (`[String]::join`).
pub fn join_strings(v: &Vec<String>, sep: &str) -> (s: String)
    ensures
        s@ == join_str(views(v@), sep@),
{
    if v.len() == 0 {
        return String::new();
    }
    let mut s = String::from_str(v[0].as_str());
    let ghost w = views(v@);
    assert(w.take(1) =~= seq![w[0]]);
    let mut i: usize = 1;
    while i < v.len()
        invariant
            1 <= i <= v@.len(),
            w == views(v@),
            s@ == join_str(w.take(i as int), sep@),
        decreases v@.len() - i,
    {
        assert(w.take(i + 1).drop_last() =~= w.take(i as int));
        assert(w.take(i + 1).last() == v@[i as int]@);
        s.append(sep);
        s.append(v[i].as_str());
        i = i + 1;
    }
    assert(w.take(v@.len() as int) =~= w);
    s
}

/// `s` with every `"` written as `\"` (`str::replace('"', "\\\"")`).
pub open spec fn escape_quotes(s: Seq<char>) -> Seq<char>
    decreases s.len(),
{
    if s.len() == 0 {
        seq![]
    } else {
        escape_quotes(s.drop_last()) + if s.last() == '"' {
            seq!['\\', '"']
        } else {
            seq![s.last()]
        }
    }
}

/// Quotes escaped with a backslash.
pub fn escape_quotes_exec(s: &str) -> (r: String)
    ensures
        r@ == escape_quotes(s@),
{
    let cs = to_chars(s);
    let mut out: Vec<char> = Vec::new();
    let mut i: usize = 0;
    while i < cs.len()
        invariant
            i <= cs@.len(),
            cs@ == s@,
            out@ == escape_quotes(s@.take(i as int)),
        decreases cs@.len() - i,
    {
        assert(s@.take(i + 1).drop_last() =~= s@.take(i as int));
        assert(s@.take(i + 1).last() == cs@[i as int]);
        let ghost before = out@;
        if cs[i] == '"' {
            out.push('\\');
            out.push('"');
            assert(out@ =~= before + seq!['\\', '"']);
        } else {
            out.push(cs[i]);
            assert(out@ =~= before + seq![cs@[i as int]]);
        }
        i = i + 1;
    }
    assert(s@.take(cs@.len() as int) =~= s@);
    from_chars(out.as_slice())
}

} // verus!
