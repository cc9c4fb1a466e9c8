//! Make-style depfiles, as compilers write them with `-MF foo.d`:
//!
//! ```text
//! foo.o: foo.c include/foo.h \
//!   include/util.h
//! ```
//!
//! Only the paths on the right-hand side of the first `:` matter.

use vstd::prelude::*;

use crate::text::{
    contains_chars, contains_seq, cviews, dedup, find_from, first_occurrence, is_whitespace, is_ws,
    lemma_dedup_contains, lemma_dedup_distinct, lemma_first_occurrence, strings_of, sub_chars, to_chars, views,
};

verus! {

/// `s` with every backslash-newline pair (left to right, not overlapping)
/// turned into one space.
pub open spec fn join_continuations(s: Seq<char>) -> Seq<char>
    decreases s.len(),
{
    if s.len() == 0 {
        s
    } else if s.len() >= 2 && s[0] == '\\' && s[1] == '\n' {
        seq![' '] + join_continuations(s.skip(2))
    } else {
        seq![s[0]] + join_continuations(s.skip(1))
    }
}

/// The whitespace-separated words of `s`, where `cur` is the word being read
/// when `s` starts.
pub open spec fn words_from(s: Seq<char>, cur: Seq<char>) -> Seq<Seq<char>>
    decreases s.len(),
{
    if s.len() == 0 {
        if cur.len() > 0 {
            seq![cur]
        } else {
            seq![]
        }
    } else if is_ws(s[0]) {
        (if cur.len() > 0 {
            seq![cur]
        } else {
            seq![]
        }) + words_from(s.skip(1), seq![])
    } else {
        words_from(s.skip(1), cur.push(s[0]))
    }
}

/// `str::split_whitespace`: the maximal runs of non-whitespace characters.
pub open spec fn words(s: Seq<char>) -> Seq<Seq<char>> {
    words_from(s, seq![])
}

/// The paths a depfile names: the words after the first `:`, once each, in
/// order of first appearance; none when there is no `:`.
pub open spec fn depfile_paths(src: Seq<char>) -> Seq<Seq<char>> {
    if contains_seq(src, seq![':']) {
        let i = first_occurrence(src, seq![':'], 0);
        dedup(words(join_continuations(src.skip(i + 1))))
    } else {
        seq![]
    }
}

/// A non-empty run of non-whitespace characters.
pub open spec fn is_word(w: Seq<char>) -> bool {
    w.len() > 0 && forall|k: int| 0 <= k < w.len() ==> !is_ws(#[trigger] w[k])
}

/// Every word is non-empty and free of whitespace.
pub proof fn lemma_words_shape(s: Seq<char>, cur: Seq<char>)
    requires
        forall|k: int| 0 <= k < cur.len() ==> !is_ws(#[trigger] cur[k]),
    ensures
        forall|j: int| 0 <= j < words_from(s, cur).len() ==> is_word(#[trigger] words_from(s, cur)[j]),
    decreases s.len(),
{
    let w = words_from(s, cur);
    if s.len() == 0 {
        if cur.len() > 0 {
            assert(w == seq![cur]);
            assert(is_word(w[0]));
        }
    } else if is_ws(s[0]) {
        lemma_words_shape(s.skip(1), seq![]);
        let head: Seq<Seq<char>> = if cur.len() > 0 {
            seq![cur]
        } else {
            seq![]
        };
        let tail = words_from(s.skip(1), seq![]);
        assert(w == head + tail);
        assert forall|j: int| 0 <= j < w.len() implies is_word(#[trigger] w[j]) by {
            if j < head.len() {
                assert(w[j] == cur);
            } else {
                assert(w[j] == tail[j - head.len()]);
            }
        }
    } else {
        let c2 = cur.push(s[0]);
        assert forall|k: int| 0 <= k < c2.len() implies !is_ws(#[trigger] c2[k]) by {
            if k < cur.len() {
                assert(c2[k] == cur[k]);
            }
        }
        lemma_words_shape(s.skip(1), c2);
        assert(w == words_from(s.skip(1), c2));
    }
}

fn join_continuations_exec(s: &[char]) -> (r: Vec<char>)
    ensures
        r@ == join_continuations(s@),
{
    let mut r: Vec<char> = Vec::new();
    let mut i: usize = 0;
    assert(s@.skip(0) == s@);
    assert(r@ + join_continuations(s@) == join_continuations(s@));
    while i < s.len()
        invariant
            i <= s@.len(),
            r@ + join_continuations(s@.skip(i as int)) == join_continuations(s@),
        decreases s@.len() - i,
    {
        let ghost rest = s@.skip(i as int);
        if i + 1 < s.len() && s[i] == '\\' && s[i + 1] == '\n' {
            assert(rest.skip(2) == s@.skip(i + 2));
            r.push(' ');
            i = i + 2;
        } else {
            assert(rest.skip(1) == s@.skip(i + 1));
            r.push(s[i]);
            i = i + 1;
        }
        assert(r@ + join_continuations(s@.skip(i as int)) == join_continuations(s@));
    }
    assert(s@.skip(i as int) == Seq::<char>::empty());
    assert(r@ + join_continuations(s@.skip(i as int)) == r@);
    r
}

fn words_exec(s: &[char]) -> (r: Vec<Vec<char>>)
    ensures
        cviews(r@) == words(s@),
{
    let mut r: Vec<Vec<char>> = Vec::new();
    let mut cur: Vec<char> = Vec::new();
    let mut i: usize = 0;
    assert(s@.skip(0) == s@);
    assert(cviews(r@) + words(s@) == words(s@));
    while i < s.len()
        invariant
            i <= s@.len(),
            cviews(r@) + words_from(s@.skip(i as int), cur@) == words(s@),
        decreases s@.len() - i,
    {
        let ghost rest = s@.skip(i as int);
        let ghost before = cviews(r@);
        assert(rest.skip(1) == s@.skip(i + 1));
        if is_whitespace(s[i]) {
            if cur.len() > 0 {
                let w = cur;
                r.push(w);
                assert(cviews(r@) == before.push(w@));
                assert(cviews(r@) + words_from(s@.skip(i + 1), seq![]) == before + (seq![w@]
                    + words_from(s@.skip(i + 1), seq![])));
            } else {
                assert(before + words_from(s@.skip(i + 1), seq![]) == before + (Seq::<
                    Seq<char>,
                >::empty() + words_from(s@.skip(i + 1), seq![])));
            }
            cur = Vec::new();
            assert(cur@ == Seq::<char>::empty());
        } else {
            cur.push(s[i]);
        }
        i = i + 1;
    }
    assert(s@.skip(i as int) == Seq::<char>::empty());
    if cur.len() > 0 {
        let ghost before = cviews(r@);
        let w = cur;
        r.push(w);
        assert(cviews(r@) == before.push(w@));
        assert(before + seq![w@] == before.push(w@));
    } else {
        assert(cviews(r@) + Seq::<Seq<char>>::empty() == cviews(r@));
    }
    r
}

fn dedup_exec(v: &Vec<Vec<char>>) -> (r: Vec<Vec<char>>)
    ensures
        cviews(r@) == dedup(cviews(v@)),
{
    let mut r: Vec<Vec<char>> = Vec::new();
    let mut i: usize = 0;
    assert(cviews(v@).take(0) == Seq::<Seq<char>>::empty());
    assert(cviews(r@) == Seq::<Seq<char>>::empty());
    while i < v.len()
        invariant
            i <= v@.len(),
            cviews(r@) == dedup(cviews(v@).take(i as int)),
        decreases v@.len() - i,
    {
        let ghost t = cviews(v@).take(i as int + 1);
        assert(t.drop_last() == cviews(v@).take(i as int));
        proof {
            lemma_dedup_contains(cviews(v@).take(i as int), cviews(v@)[i as int]);
        }
        let ghost before = cviews(r@);
        if !contains_chars(&r, v[i].as_slice()) {
            let w = sub_chars(v[i].as_slice(), 0, v[i].len());
            assert(v[i as int]@.subrange(0, v[i as int]@.len() as int) == v[i as int]@);
            r.push(w);
            assert(cviews(r@) == before.push(t.last()));
        }
        assert(cviews(v@).take(i as int).push(cviews(v@)[i as int]) == t);
        i = i + 1;
    }
    assert(cviews(v@).take(v@.len() as int) == cviews(v@));
    r
}

/// Parse a Make-style depfile into the list of dependency paths it names.
///
/// Backslash-newline continuations are joined and repeated paths are
/// kept once, in order of first appearance.
pub fn parse(src: &str) -> (paths: Vec<String>)
    ensures
        views(paths@) == depfile_paths(src@),
        views(paths@).no_duplicates(),
        forall|j: int| 0 <= j < paths@.len() ==> is_word(#[trigger] paths@[j]@),
{
    let chars = to_chars(src);
    let colon = vec![':'];
    assert(colon@ == seq![':']);
    match find_from(chars.as_slice(), colon.as_slice(), 0) {
        None => {
            let r: Vec<String> = Vec::new();
            assert(views(r@) =~= Seq::<Seq<char>>::empty());
            r
        },
        Some(i) => {
            proof {
                lemma_first_occurrence(chars@, colon@, 0, i as int);
            }
            assert(i < chars.len());
            let rhs = sub_chars(chars.as_slice(), i + 1, chars.len());
            assert(rhs@ == chars@.skip(i + 1));
            let joined = join_continuations_exec(rhs.as_slice());
            let ws = words_exec(joined.as_slice());
            let unique = dedup_exec(&ws);
            let r = strings_of(&unique);
            proof {
                lemma_dedup_distinct(cviews(ws@));
                lemma_words_shape(joined@, seq![]);
                assert forall|j: int| 0 <= j < r@.len() implies is_word(#[trigger] r@[j]@) by {
                    assert(views(r@)[j] == r@[j]@);
                    assert(cviews(unique@).contains(r@[j]@));
                    lemma_dedup_contains(cviews(ws@), r@[j]@);
                    let k = choose|k: int| 0 <= k < cviews(ws@).len() && cviews(ws@)[k] == r@[j]@;
                    assert(is_word(words(joined@)[k]));
                }
            }
            r
        },
    }
}


/// The whitespace-separated words of `s` (`str::split_whitespace`).
pub fn whitespace_words(s: &[char]) -> (r: Vec<String>)
    ensures
        views(r@) == words(s@),
{
    let w = words_exec(s);
    strings_of(&w)
}

} // verus!
