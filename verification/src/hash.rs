//! Content hashes and the `.pbuild.lock` table that remembers them.
//!
//! The lock file maps each hashed path to the SHA-256 of its contents (hex),
//! `env:<VAR>` to the last seen value of a tracked environment variable, and
//! `dep:<output>` to the tab-separated inputs a depfile reported.

use vstd::prelude::*;
use sha2::Digest;
use vstd::string::StringExecFns;

use crate::strmap::{copy_string, StrMap};
use crate::text::{from_chars, push_char, to_chars, views};

verus! {

/// A content hash, as lowercase hex.
pub type FileHash = String;

/// The lock file's table.
pub type LockFile = StrMap;

/// The SHA-256 digest of `data` (FIPS 180-4), as computed by `sha2`.
pub uninterp spec fn sha256(data: Seq<u8>) -> Seq<u8>;

/// `sha2::Sha256::digest`: the 32-byte SHA-256 digest of `data`.
#[verifier::external_body]
fn sha256_digest(data: &[u8]) -> (d: Vec<u8>)
    ensures
        d@ == sha256(data@),
        d@.len() == 32,
{
    sha2::Sha256::digest(data).to_vec()
}

/// The lowercase hex digit for `n` (below 16).
pub open spec fn hex_digit(n: u8) -> char {
    if n < 10 {
        (('0' as u8) + n) as char
    } else {
        (('a' as u8) + n - 10) as char
    }
}

/// Lowercase hex: two digits per byte, high nibble first.
pub open spec fn hex_of(data: Seq<u8>) -> Seq<char>
    decreases data.len(),
{
    if data.len() == 0 {
        seq![]
    } else {
        seq![hex_digit(data[0] / 16), hex_digit(data[0] % 16)] + hex_of(data.skip(1))
    }
}

/// `hex::encode`: each byte as two lowercase hex digits, high nibble first.
#[verifier::external_body]
fn hex_encode(data: &[u8]) -> (s: String)
    ensures
        s@ == hex_of(data@),
{
    hex::encode(data)
}

/// The hash the lock file stores for contents `data`.
pub open spec fn content_hash(data: Seq<u8>) -> Seq<char> {
    hex_of(sha256(data))
}

/// Hex text has two digits per byte.
pub proof fn lemma_hex_len(data: Seq<u8>)
    ensures
        hex_of(data).len() == 2 * data.len(),
    decreases data.len(),
{
    if data.len() > 0 {
        lemma_hex_len(data.skip(1));
    }
}

/// Hash file contents with SHA-256, as lowercase hex: 64 characters.
pub fn hash_bytes(data: &[u8]) -> (h: FileHash)
    ensures
        h@ == content_hash(data@),
        h@.len() == 64,
{
    let d = sha256_digest(data);
    proof {
        lemma_hex_len(d@);
    }
    hex_encode(d.as_slice())
}

/// The lock entry for `key`, if any, as an option of views.
pub open spec fn stored(lf: Map<Seq<char>, Seq<char>>, key: Seq<char>) -> Option<Seq<char>> {
    if lf.contains_key(key) {
        Some(lf[key])
    } else {
        None
    }
}

/// The view of an optional string slice.
pub open spec fn opt_str_view(o: Option<&str>) -> Option<Seq<char>> {
    match o {
        Some(s) => Some(s@),
        None => None,
    }
}

/// True if the file's current hash differs from the stored hash.
/// `current` is the file's hash now, `None` when the file does not exist.
/// A missing file or missing lock entry is always dirty.
pub fn is_dirty(lf: &LockFile, path: &str, current: Option<&str>) -> (b: bool)
    ensures
        b == (current is None || opt_str_view(current) != stored(lf.view(), path@)),
{
    match (current, lf.get(path)) {
        (Some(c), Some(s)) => !crate::strmap::str_eq(c, s.as_str()),
        _ => true,
    }
}

/// The lock key for an environment variable: `env:<var>`.
pub open spec fn env_key_of(var: Seq<char>) -> Seq<char> {
    "env:"@ + var
}

/// The lock key for the depfile inputs of an output: `dep:<output>`.
pub open spec fn depfile_key_of(output: Seq<char>) -> Seq<char> {
    "dep:"@ + output
}

/// Lock file key for an environment variable.
pub fn env_key(var: &str) -> (k: String)
    ensures
        k@ == env_key_of(var@),
{
    String::from_str("env:").concat(var)
}

/// Lock file key for the discovered depfile inputs of a rule output.
pub fn depfile_key(output: &str) -> (k: String)
    ensures
        k@ == depfile_key_of(output@),
{
    String::from_str("dep:").concat(output)
}

/// The pieces of `parts` joined with `sep` between neighbours.
pub open spec fn join(parts: Seq<Seq<char>>, sep: char) -> Seq<char>
    decreases parts.len(),
{
    if parts.len() == 0 {
        seq![]
    } else if parts.len() == 1 {
        parts[0]
    } else {
        parts[0] + seq![sep] + join(parts.skip(1), sep)
    }
}

/// `str::split` on a character: the pieces between separators (at least
/// one), where `cur` is the piece being read when `s` starts.
pub open spec fn split_from(s: Seq<char>, sep: char, cur: Seq<char>) -> Seq<Seq<char>>
    decreases s.len(),
{
    if s.len() == 0 {
        seq![cur]
    } else if s[0] == sep {
        seq![cur] + split_from(s.skip(1), sep, seq![])
    } else {
        split_from(s.skip(1), sep, cur.push(s[0]))
    }
}

/// `str::split` on a character.
pub open spec fn split(s: Seq<char>, sep: char) -> Seq<Seq<char>> {
    split_from(s, sep, seq![])
}

/// Joining one more piece adds a separator and the piece.
proof fn lemma_join_push(parts: Seq<Seq<char>>, x: Seq<char>, sep: char)
    requires
        parts.len() > 0,
    ensures
        join(parts.push(x), sep) == join(parts, sep) + seq![sep] + x,
    decreases parts.len(),
{
    if parts.len() == 1 {
        assert(parts.push(x).skip(1) =~= seq![x]);
        assert(join(seq![x], sep) == x);
        assert(parts.push(x)[0] == parts[0]);
        assert(join(parts.push(x), sep) == parts[0] + seq![sep] + x);
    } else {
        lemma_join_push(parts.skip(1), x, sep);
        assert(parts.push(x).skip(1) =~= parts.skip(1).push(x));
        assert(join(parts.push(x), sep) =~= join(parts, sep) + seq![sep] + x);
    }
}

/// Reading a piece without separators extends the current piece.
proof fn lemma_split_piece(p: Seq<char>, rest: Seq<char>, sep: char, cur: Seq<char>)
    requires
        !p.contains(sep),
    ensures
        split_from(p + rest, sep, cur) == split_from(rest, sep, cur + p),
    decreases p.len(),
{
    if p.len() == 0 {
        assert(p + rest =~= rest);
        assert(cur + p =~= cur);
    } else {
        assert((p + rest).skip(1) =~= p.skip(1) + rest);
        assert((p + rest)[0] == p[0]);
        assert(!p.skip(1).contains(sep)) by {
            if p.skip(1).contains(sep) {
                let k = choose|k: int| 0 <= k < p.skip(1).len() && p.skip(1)[k] == sep;
                assert(p[k + 1] == sep);
            }
        }
        lemma_split_piece(p.skip(1), rest, sep, cur.push(p[0]));
        assert(cur.push(p[0]) + p.skip(1) =~= cur + p);
    }
}

/// Splitting what was joined gives back the pieces, when there is at least
/// one and none holds the separator.
pub proof fn lemma_split_join(parts: Seq<Seq<char>>, sep: char)
    requires
        parts.len() > 0,
        forall|i: int| 0 <= i < parts.len() ==> !(#[trigger] parts[i]).contains(sep),
    ensures
        split(join(parts, sep), sep) == parts,
    decreases parts.len(),
{
    if parts.len() == 1 {
        lemma_split_piece(parts[0], seq![], sep, seq![]);
        assert(parts[0] + Seq::<char>::empty() =~= parts[0]);
        assert(Seq::<char>::empty() + parts[0] =~= parts[0]);
        assert(split(join(parts, sep), sep) =~= parts);
    } else {
        let rest = parts.skip(1);
        assert forall|i: int| 0 <= i < rest.len() implies !(#[trigger] rest[i]).contains(sep) by {
            assert(rest[i] == parts[i + 1]);
        }
        lemma_split_join(rest, sep);
        let tail = seq![sep] + join(rest, sep);
        assert(join(parts, sep) =~= parts[0] + tail);
        lemma_split_piece(parts[0], tail, sep, seq![]);
        assert(Seq::<char>::empty() + parts[0] =~= parts[0]);
        assert(tail.skip(1) =~= join(rest, sep));
        assert(split(join(parts, sep), sep) =~= seq![parts[0]] + rest);
        assert(seq![parts[0]] + rest =~= parts);
    }
}

/// The pieces of `v`, joined with `sep` between neighbours.
pub fn join_with(v: &Vec<String>, sep: char) -> (s: String)
    ensures
        s@ == join(views(v@), sep),
{
    if v.len() == 0 {
        return String::new();
    }
    let mut s = copy_string(&v[0]);
    assert(views(v@).take(1) =~= seq![v@[0]@]);
    let mut i: usize = 1;
    while i < v.len()
        invariant
            1 <= i <= v@.len(),
            s@ == join(views(v@).take(i as int), sep),
        decreases v@.len() - i,
    {
        proof {
            lemma_join_push(views(v@).take(i as int), v@[i as int]@, sep);
            assert(views(v@).take(i as int).push(v@[i as int]@) =~= views(v@).take(i + 1));
        }
        push_char(&mut s, sep);
        s.append(v[i].as_str());
        i = i + 1;
    }
    assert(views(v@).take(v@.len() as int) =~= views(v@));
    s
}

/// The pieces of `s` between tabs.
fn split_tabs(s: &str) -> (v: Vec<String>)
    ensures
        views(v@) == split(s@, '\t'),
{
    let cs = to_chars(s);
    let mut v: Vec<String> = Vec::new();
    let mut cur: Vec<char> = Vec::new();
    let mut i: usize = 0;
    assert(cs@.skip(0) =~= cs@);
    assert(views(v@) + split_from(cs@, '\t', seq![]) =~= split(s@, '\t'));
    while i < cs.len()
        invariant
            i <= cs@.len(),
            views(v@) + split_from(cs@.skip(i as int), '\t', cur@) == split(s@, '\t'),
        decreases cs@.len() - i,
    {
        let ghost before = views(v@);
        assert(cs@.skip(i as int).skip(1) =~= cs@.skip(i + 1));
        if cs[i] == '\t' {
            let piece = from_chars(cur.as_slice());
            v.push(piece);
            assert(views(v@) =~= before.push(cur@));
            assert(before + (seq![cur@] + split_from(cs@.skip(i + 1), '\t', seq![])) =~= views(v@)
                + split_from(cs@.skip(i + 1), '\t', seq![]));
            cur = Vec::new();
            assert(cur@ =~= Seq::<char>::empty());
        } else {
            cur.push(cs[i]);
        }
        i = i + 1;
    }
    assert(cs@.skip(i as int) =~= Seq::<char>::empty());
    let ghost before = views(v@);
    let piece = from_chars(cur.as_slice());
    v.push(piece);
    assert(views(v@) =~= before + seq![cur@]);
    v
}

/// Store discovered depfile paths in the lock file (tab-separated).
/// Nothing is stored for an empty list.
pub fn store_depfile_inputs(lf: &mut LockFile, output: &str, paths: &Vec<String>)
    ensures
        paths@.len() == 0 ==> final(lf).view() == old(lf).view(),
        paths@.len() > 0 ==> final(lf).view() == old(lf).view().insert(
            depfile_key_of(output@),
            join(views(paths@), '\t'),
        ),
{
    if paths.len() == 0 {
        return ;
    }
    let key = depfile_key(output);
    let value = join_with(paths, '\t');
    lf.insert(key, value);
}

/// Load previously discovered depfile paths from the lock file: the stored
/// value split at tabs, or nothing when there is none.
pub fn load_depfile_inputs(lf: &LockFile, output: &str) -> (paths: Vec<String>)
    ensures
        views(paths@) == match stored(lf.view(), depfile_key_of(output@)) {
            Some(v) => split(v, '\t'),
            None => seq![],
        },
{
    let key = depfile_key(output);
    match lf.get(key.as_str()) {
        Some(v) => split_tabs(v.as_str()),
        None => {
            let r: Vec<String> = Vec::new();
            assert(views(r@) =~= Seq::<Seq<char>>::empty());
            r
        },
    }
}

/// What `store_depfile_inputs` stores, `load_depfile_inputs` gives back:
/// a non-empty list of paths without tabs survives the round trip.
pub proof fn lemma_depfile_inputs_round_trip(
    before: Map<Seq<char>, Seq<char>>,
    output: Seq<char>,
    paths: Seq<Seq<char>>,
)
    requires
        paths.len() > 0,
        forall|i: int| 0 <= i < paths.len() ==> !(#[trigger] paths[i]).contains('\t'),
    ensures
        ({
            let after = before.insert(depfile_key_of(output), join(paths, '\t'));
            stored(after, depfile_key_of(output)) == Some(join(paths, '\t')) && split(
                join(paths, '\t'),
                '\t',
            ) == paths
        }),
{
    lemma_split_join(paths, '\t');
}

/// True if the env var's current value differs from the stored value.
/// `current` is the variable's value now (`None` when unset). An unset
/// variable with no lock entry is clean; any other mismatch is dirty.
pub fn env_is_dirty(lf: &LockFile, var: &str, current: Option<&str>) -> (b: bool)
    ensures
        b == (opt_str_view(current) != stored(lf.view(), env_key_of(var@))),
{
    let key = env_key(var);
    match (current, lf.get(key.as_str())) {
        (None, None) => false,
        (Some(c), Some(s)) => !crate::strmap::str_eq(c, s.as_str()),
        _ => true,
    }
}

/// The tracked variable `var`, now `value` (`None` when unset), differs from
/// what the lock file remembers.
pub open spec fn env_var_dirty(lf: Map<Seq<char>, Seq<char>>, var: Seq<char>, value: Option<Seq<char>>) -> bool {
    value != stored(lf, env_key_of(var))
}

/// Whether any tracked variable changed since the last run, given each
/// one's value now: then every rule rebuilds.
pub fn any_env_dirty(lf: &LockFile, vars: &Vec<String>, values: &Vec<Option<String>>) -> (b: bool)
    requires
        values@.len() == vars@.len(),
    ensures
        b == exists|i: int|
            0 <= i < vars@.len() && #[trigger] env_var_dirty(
                lf.view(),
                vars@[i]@,
                crate::types::opt_view(values@[i]),
            ),
{
    let mut i: usize = 0;
    while i < vars.len()
        invariant
            values@.len() == vars@.len(),
            i <= vars@.len(),
            forall|j: int|
                0 <= j < i ==> !#[trigger] env_var_dirty(lf.view(), vars@[j]@, crate::types::opt_view(values@[j])),
        decreases vars@.len() - i,
    {
        let v: Option<&str> = match &values[i] {
            Some(x) => Some(x.as_str()),
            None => None,
        };
        if env_is_dirty(lf, vars[i].as_str(), v) {
            assert(env_var_dirty(lf.view(), vars@[i as int]@, crate::types::opt_view(values@[i as int])));
            return true;
        }
        i = i + 1;
    }
    false
}

/// The lock table after remembering each tracked variable's value now; an
/// unset variable leaves its entry as it was.
pub open spec fn with_env_values(
    m: Map<Seq<char>, Seq<char>>,
    vars: Seq<Seq<char>>,
    values: Seq<Option<Seq<char>>>,
) -> Map<Seq<char>, Seq<char>>
    decreases vars.len(),
{
    if vars.len() == 0 || values.len() < vars.len() {
        m
    } else {
        let prev = with_env_values(m, vars.drop_last(), values.take(vars.len() - 1));
        match values[vars.len() - 1] {
            Some(v) => prev.insert(env_key_of(vars.last()), v),
            None => prev,
        }
    }
}

/// Remembers each tracked variable's value now (`values[i]` for
/// `vars[i]`, `None` when unset), so that the next run sees what changed.
pub fn record_env_values(lf: &mut LockFile, vars: &Vec<String>, values: &Vec<Option<String>>)
    requires
        values@.len() == vars@.len(),
    ensures
        final(lf).view() == with_env_values(
            old(lf).view(),
            views(vars@),
            values@.map_values(|o: Option<String>| crate::types::opt_view(o)),
        ),
{
    let ghost m0 = lf.view();
    let ghost vs = views(vars@);
    let ghost os = values@.map_values(|o: Option<String>| crate::types::opt_view(o));
    let mut i: usize = 0;
    while i < vars.len()
        invariant
            values@.len() == vars@.len(),
            i <= vars@.len(),
            vs == views(vars@),
            os == values@.map_values(|o: Option<String>| crate::types::opt_view(o)),
            lf.view() == with_env_values(m0, vs.take(i as int), os.take(i as int)),
        decreases vars@.len() - i,
    {
        proof {
            assert(vs.take(i + 1).drop_last() =~= vs.take(i as int));
            assert(os.take(i + 1).take(i as int) =~= os.take(i as int));
            assert(vs.take(i + 1).last() == vars@[i as int]@);
            assert(os.take(i + 1)[i as int] == crate::types::opt_view(values@[i as int]));
        }
        match &values[i] {
            Some(v) => {
                lf.insert(env_key(vars[i].as_str()), copy_string(v));
            },
            None => {},
        }
        i = i + 1;
    }
    assert(vs.take(i as int) =~= vs);
    assert(os.take(i as int) =~= os);
}

/// The previously stored value of an env var, if any.
pub fn env_stored_value<'a>(lf: &'a LockFile, var: &str) -> (v: Option<&'a str>)
    ensures
        opt_str_view(v) == stored(lf.view(), env_key_of(var@)),
{
    let key = env_key(var);
    match lf.get(key.as_str()) {
        Some(s) => Some(s.as_str()),
        None => None,
    }
}

/// `l` without one trailing carriage return.
pub open spec fn strip_cr(l: Seq<char>) -> Seq<char> {
    if l.len() > 0 && l.last() == '\r' {
        l.drop_last()
    } else {
        l
    }
}

/// `str::lines`, where `cur` is the line being read when `s` starts: lines
/// end at `\n` (a `\r` just before it is dropped too); a last line without
/// `\n` counts when it is not empty.
pub open spec fn lines_from(s: Seq<char>, cur: Seq<char>) -> Seq<Seq<char>>
    decreases s.len(),
{
    if s.len() == 0 {
        if cur.len() > 0 {
            seq![cur]
        } else {
            seq![]
        }
    } else if s[0] == '\n' {
        seq![strip_cr(cur)] + lines_from(s.skip(1), seq![])
    } else {
        lines_from(s.skip(1), cur.push(s[0]))
    }
}

/// `str::lines`.
pub open spec fn lines(s: Seq<char>) -> Seq<Seq<char>> {
    lines_from(s, seq![])
}

/// The first position of `c` in `s` (when `s` holds it).
pub open spec fn first_index(s: Seq<char>, c: char) -> int {
    choose|i: int| 0 <= i < s.len() && s[i] == c && forall|j: int| 0 <= j < i ==> s[j] != c
}

/// `str::split_once('\t')`: the parts before and after the first tab.
pub open spec fn split_at_tab(l: Seq<char>) -> Option<(Seq<char>, Seq<char>)> {
    if l.contains('\t') {
        let i = first_index(l, '\t');
        Some((l.take(i), l.skip(i + 1)))
    } else {
        None
    }
}

/// A position holding `c` with none before it is the first.
pub proof fn lemma_first_index(s: Seq<char>, c: char, i: int)
    requires
        0 <= i < s.len(),
        s[i] == c,
        forall|j: int| 0 <= j < i ==> s[j] != c,
    ensures
        s.contains(c),
        first_index(s, c) == i,
{
    assert(s.contains(c));
    let k = first_index(s, c);
    assert(0 <= k < s.len() && s[k] == c && forall|j: int| 0 <= j < k ==> s[j] != c);
    if k < i {
        assert(s[k] != c);
    }
    if k > i {
        assert(s[i] != c);
    }
}

/// The `(path, hash)` pairs of the lines that hold a tab, in order.
pub open spec fn lock_pairs(ls: Seq<Seq<char>>) -> Seq<(Seq<char>, Seq<char>)>
    decreases ls.len(),
{
    if ls.len() == 0 {
        seq![]
    } else {
        lock_pairs(ls.drop_last()) + match split_at_tab(ls.last()) {
            Some(p) => seq![p],
            None => seq![],
        }
    }
}

/// The table a lock file's text holds: one `path<TAB>hash` entry per line;
/// lines without a tab are skipped; a later line for a path wins.
pub open spec fn parse_lock(s: Seq<char>) -> Map<Seq<char>, Seq<char>> {
    crate::strmap::pairs_map(lock_pairs(lines(s)))
}

/// The first position of `c` in `v`, if any.
pub fn index_of_char(v: &[char], c: char) -> (r: Option<usize>)
    ensures
        match r {
            Some(i) => v@.contains(c) && i == first_index(v@, c) && i < v@.len(),
            None => !v@.contains(c),
        },
{
    let mut i: usize = 0;
    while i < v.len()
        invariant
            i <= v@.len(),
            forall|j: int| 0 <= j < i ==> v@[j] != c,
        decreases v@.len() - i,
    {
        if v[i] == c {
            proof {
                lemma_first_index(v@, c, i as int);
            }
            return Some(i);
        }
        i = i + 1;
    }
    None
}

/// Adds the entry of one line, if the line holds a tab.
fn add_line(m: &mut StrMap, line: &Vec<char>)
    ensures
        final(m).view() == match split_at_tab(line@) {
            Some(p) => old(m).view().insert(p.0, p.1),
            None => old(m).view(),
        },
{
    match index_of_char(line.as_slice(), '\t') {
        Some(i) => {
            let k = crate::text::sub_chars(line.as_slice(), 0, i);
            assert(i < line.len());
            let v = crate::text::sub_chars(line.as_slice(), i + 1, line.len());
            assert(k@ == line@.take(i as int));
            assert(v@ == line@.skip(i + 1));
            m.insert(from_chars(k.as_slice()), from_chars(v.as_slice()));
        },
        None => {},
    }
}

/// `cur` without a trailing carriage return.
fn strip_cr_exec(cur: Vec<char>) -> (r: Vec<char>)
    ensures
        r@ == strip_cr(cur@),
{
    let mut r = cur;
    if r.len() > 0 && r[r.len() - 1] == '\r' {
        let _ = r.pop();
    }
    r
}

/// Parse the text of a lock file.
pub fn parse_lock_file(s: &str) -> (lf: LockFile)
    ensures
        lf.view() == parse_lock(s@),
{
    let cs = to_chars(s);
    let mut m = StrMap::new();
    let mut cur: Vec<char> = Vec::new();
    let ghost mut done: Seq<Seq<char>> = seq![];
    let mut i: usize = 0;
    assert(cs@.skip(0) =~= cs@);
    assert(done + lines_from(cs@, seq![]) =~= lines(s@));
    assert(lock_pairs(done) =~= Seq::<(Seq<char>, Seq<char>)>::empty());
    while i < cs.len()
        invariant
            i <= cs@.len(),
            done + lines_from(cs@.skip(i as int), cur@) == lines(s@),
            m.view() == crate::strmap::pairs_map(lock_pairs(done)),
        decreases cs@.len() - i,
    {
        assert(cs@.skip(i as int).skip(1) =~= cs@.skip(i + 1));
        if cs[i] == '\n' {
            let line = strip_cr_exec(cur);
            add_line(&mut m, &line);
            proof {
                let nd = done.push(line@);
                assert(nd.drop_last() =~= done);
                assert(lock_pairs(nd) == lock_pairs(done) + match split_at_tab(line@) {
                    Some(p) => seq![p],
                    None => seq![],
                });
                match split_at_tab(line@) {
                    Some(p) => {
                        assert(lock_pairs(nd).drop_last() =~= lock_pairs(done));
                        assert(lock_pairs(nd).last() == p);
                    },
                    None => {
                        assert(lock_pairs(nd) =~= lock_pairs(done));
                    },
                }
                assert(nd + lines_from(cs@.skip(i + 1), seq![]) =~= done + (seq![line@]
                    + lines_from(cs@.skip(i + 1), seq![])));
                done = nd;
            }
            cur = Vec::new();
            assert(cur@ =~= Seq::<char>::empty());
        } else {
            cur.push(cs[i]);
        }
        i = i + 1;
    }
    assert(cs@.skip(i as int) =~= Seq::<char>::empty());
    if cur.len() > 0 {
        add_line(&mut m, &cur);
        proof {
            let nd = done.push(cur@);
            assert(nd.drop_last() =~= done);
            match split_at_tab(cur@) {
                Some(p) => {
                    assert(lock_pairs(nd).drop_last() =~= lock_pairs(done));
                    assert(lock_pairs(nd).last() == p);
                },
                None => {
                    assert(lock_pairs(nd) =~= lock_pairs(done));
                },
            }
            assert(nd == done + seq![cur@]);
        }
    } else {
        assert(done + Seq::<Seq<char>>::empty() =~= done);
    }
    m
}

/// `a` sorts before `b`: lexicographic order on characters, which is the
/// order `str` comparison gives (UTF-8 keeps code point order).
pub open spec fn key_lt(a: Seq<char>, b: Seq<char>) -> bool
    decreases a.len(),
{
    if a.len() == 0 {
        b.len() > 0
    } else if b.len() == 0 {
        false
    } else if a[0] == b[0] {
        key_lt(a.skip(1), b.skip(1))
    } else {
        (a[0] as int) < (b[0] as int)
    }
}

/// `key_lt` is a strict total order.
pub proof fn lemma_key_lt(a: Seq<char>, b: Seq<char>, c: Seq<char>)
    ensures
        !key_lt(a, a),
        key_lt(a, b) ==> !key_lt(b, a),
        a != b ==> key_lt(a, b) || key_lt(b, a),
        key_lt(a, b) && key_lt(b, c) ==> key_lt(a, c),
    decreases a.len() + b.len() + c.len(),
{
    if a.len() > 0 && b.len() > 0 && c.len() > 0 {
        lemma_key_lt(a.skip(1), b.skip(1), c.skip(1));
    } else if a.len() > 0 && b.len() > 0 {
        lemma_key_lt(a.skip(1), b.skip(1), seq![]);
    } else if a.len() > 0 {
        lemma_key_lt(a.skip(1), seq![], seq![]);
    }
    if a != b && a.len() > 0 && b.len() > 0 && a[0] == b[0] {
        assert(a.skip(1) != b.skip(1)) by {
            if a.skip(1) == b.skip(1) {
                assert(a =~= seq![a[0]] + a.skip(1));
                assert(b =~= seq![b[0]] + b.skip(1));
            }
        }
    }
    if a.len() > 0 && b.len() > 0 && a[0] != b[0] {
        assert((a[0] as int) != (b[0] as int));
    }
    if a.len() == 0 && b.len() == 0 {
        assert(a =~= b);
    }
}

/// Whether `a` sorts before `b`.
pub fn key_less(a: &[char], b: &[char]) -> (r: bool)
    ensures
        r == key_lt(a@, b@),
{
    let mut i: usize = 0;
    assert(a@.skip(0) =~= a@ && b@.skip(0) =~= b@);
    while i < a.len() && i < b.len()
        invariant
            i <= a@.len(),
            i <= b@.len(),
            a@.take(i as int) == b@.take(i as int),
            key_lt(a@, b@) == key_lt(a@.skip(i as int), b@.skip(i as int)),
        decreases a@.len() - i,
    {
        assert(a@.skip(i as int).skip(1) =~= a@.skip(i + 1));
        assert(b@.skip(i as int).skip(1) =~= b@.skip(i + 1));
        if a[i] != b[i] {
            return a[i] < b[i];
        }
        assert(a@.take(i + 1) =~= a@.take(i as int).push(a@[i as int]));
        assert(b@.take(i + 1) =~= b@.take(i as int).push(b@[i as int]));
        i = i + 1;
    }
    i == a.len() && i < b.len()
}

/// The text of one entry: `path<TAB>hash<LF>`.
pub open spec fn entry_line(p: (Seq<char>, Seq<char>)) -> Seq<char> {
    p.0 + seq!['\t'] + p.1 + seq!['\n']
}

/// The lines of a list of entries, in order.
pub open spec fn entries_text(es: Seq<(Seq<char>, Seq<char>)>) -> Seq<char>
    decreases es.len(),
{
    if es.len() == 0 {
        seq![]
    } else {
        entry_line(es[0]) + entries_text(es.skip(1))
    }
}

/// `es` lists the table `m`: every entry once, sorted by key.
pub open spec fn is_listing(m: Map<Seq<char>, Seq<char>>, es: Seq<(Seq<char>, Seq<char>)>) -> bool {
    &&& forall|i: int, j: int|
        #![trigger es[i], es[j]]
        0 <= i < j < es.len() ==> key_lt(es[i].0, es[j].0)
    &&& forall|i: int|
        0 <= i < es.len() ==> m.contains_key(#[trigger] es[i].0) && m[es[i].0] == es[i].1
    &&& es.len() == m.dom().len()
    &&& m.dom().finite()
}

/// Appending an entry appends its line.
proof fn lemma_entries_text_push(es: Seq<(Seq<char>, Seq<char>)>, e: (Seq<char>, Seq<char>))
    ensures
        entries_text(es.push(e)) == entries_text(es) + entry_line(e),
    decreases es.len(),
{
    if es.len() == 0 {
        assert(es.push(e).skip(1) =~= Seq::<(Seq<char>, Seq<char>)>::empty());
        assert(es.push(e)[0] == e);
        assert(entries_text(es.push(e).skip(1)) == Seq::<char>::empty());
        assert(entries_text(es.push(e)) =~= entry_line(e) + Seq::<char>::empty());
        assert(entries_text(es) =~= Seq::<char>::empty());
    } else {
        lemma_entries_text_push(es.skip(1), e);
        assert(es.push(e).skip(1) =~= es.skip(1).push(e));
        assert(entries_text(es.push(e)) =~= entries_text(es) + entry_line(e));
    }
}

/// The text of a lock file: one `path<TAB>hash` line per entry, sorted by
/// path.
pub fn serialize_lock_file(lf: &LockFile) -> (s: String)
    ensures
        exists|es: Seq<(Seq<char>, Seq<char>)>| #[trigger]
            is_listing(lf.view(), es) && s@ == entries_text(es),
{
    let n = lf.len();
    let ghost e = lf.entries();
    let mut keys: Vec<Vec<char>> = Vec::new();
    let mut i: usize = 0;
    while i < n
        invariant
            n == e.len(),
            n == lf.count(),
            e == lf.entries(),
            i <= n,
            keys@.len() == i,
            forall|j: int| 0 <= j < i ==> (#[trigger] keys@[j])@ == e[j].0,
        decreases n - i,
    {
        keys.push(to_chars(lf.key_at(i).as_str()));
        i = i + 1;
    }
    // Insertion sort of the entry positions by key.
    let mut order: Vec<usize> = Vec::new();
    i = 0;
    while i < n
        invariant
            n == e.len(),
            e == lf.entries(),
            i <= n,
            keys@.len() == n,
            forall|j: int| 0 <= j < n ==> (#[trigger] keys@[j])@ == e[j].0,
            crate::strmap::distinct_keys(e),
            order@.len() == i,
            forall|a: int| 0 <= a < i ==> #[trigger] order@[a] < i,
            forall|x: int| 0 <= x < i ==> #[trigger] order@.contains(x as usize),
            forall|a: int, b: int|
                #![trigger order@[a], order@[b]]
                0 <= a < b < i ==> key_lt(e[order@[a] as int].0, e[order@[b] as int].0),
        decreases n - i,
    {
        let mut p: usize = 0;
        while p < order.len() && key_less(keys[order[p]].as_slice(), keys[i].as_slice())
            invariant
                n == e.len(),
                keys@.len() == n,
                forall|j: int| 0 <= j < n ==> (#[trigger] keys@[j])@ == e[j].0,
                i < n,
                order@.len() == i,
                forall|a: int| 0 <= a < i ==> #[trigger] order@[a] < i,
                p <= order@.len(),
                forall|a: int| 0 <= a < p ==> key_lt(e[(#[trigger] order@[a]) as int].0, e[i as int].0),
            decreases order@.len() - p,
        {
            p = p + 1;
        }
        let ghost old_order = order@;
        proof {
            if p < i {
                assert(!key_lt(e[old_order[p as int] as int].0, e[i as int].0));
                lemma_key_lt(e[old_order[p as int] as int].0, e[i as int].0, e[i as int].0);
                assert(e[old_order[p as int] as int].0 != e[i as int].0);
            }
        }
        order.insert(p, i);
        proof {
            let o = order@;
            assert(o == old_order.insert(p as int, i));
            assert forall|x: int| 0 <= x < i + 1 implies #[trigger] o.contains(x as usize) by {
                if x == i {
                    assert(o[p as int] == i);
                } else {
                    assert(old_order.contains(x as usize));
                    let a = choose|a: int| 0 <= a < old_order.len() && old_order[a] == x as usize;
                    if a < p {
                        assert(o[a] == x as usize);
                    } else {
                        assert(o[a + 1] == x as usize);
                    }
                }
            }
            assert forall|a: int, b: int|
                #![trigger o[a], o[b]]
                0 <= a < b < i + 1 implies key_lt(e[o[a] as int].0, e[o[b] as int].0) by {
                if b < p {
                    assert(o[a] == old_order[a] && o[b] == old_order[b]);
                } else if b == p {
                    assert(o[a] == old_order[a]);
                } else if a < p {
                    assert(o[a] == old_order[a] && o[b] == old_order[b - 1]);
                    assert(key_lt(e[old_order[a] as int].0, e[i as int].0));
                    if p < i {
                        lemma_key_lt(e[i as int].0, e[old_order[p as int] as int].0, e[old_order[b - 1] as int].0);
                        if b - 1 > p {
                            assert(key_lt(e[old_order[p as int] as int].0, e[old_order[b - 1] as int].0));
                        }
                    }
                    lemma_key_lt(e[old_order[a] as int].0, e[i as int].0, e[old_order[b - 1] as int].0);
                } else if a == p {
                    assert(o[a] == i && o[b] == old_order[b - 1]);
                    lemma_key_lt(e[i as int].0, e[old_order[p as int] as int].0, e[old_order[b - 1] as int].0);
                    if b - 1 > p {
                        assert(key_lt(e[old_order[p as int] as int].0, e[old_order[b - 1] as int].0));
                    }
                } else {
                    assert(o[a] == old_order[a - 1] && o[b] == old_order[b - 1]);
                }
            }
            assert forall|a: int| 0 <= a < i + 1 implies #[trigger] o[a] < i + 1 by {
                if a < p {
                    assert(o[a] == old_order[a]);
                } else if a > p {
                    assert(o[a] == old_order[a - 1]);
                }
            }
        }
        i = i + 1;
    }
    // Write the entries in that order.
    let ghost es = order@.map_values(|k: usize| e[k as int]);
    let mut out = String::new();
    let mut j: usize = 0;
    assert(es.take(0) =~= Seq::<(Seq<char>, Seq<char>)>::empty());
    while j < n
        invariant
            n == e.len(),
            n == lf.count(),
            e == lf.entries(),
            order@.len() == n,
            forall|a: int| 0 <= a < n ==> #[trigger] order@[a] < n,
            es == order@.map_values(|k: usize| e[k as int]),
            j <= n,
            out@ == entries_text(es.take(j as int)),
        decreases n - j,
    {
        let k = order[j];
        proof {
            lemma_entries_text_push(es.take(j as int), es[j as int]);
            assert(es.take(j as int).push(es[j as int]) =~= es.take(j + 1));
        }
        out.append(lf.key_at(k).as_str());
        push_char(&mut out, '\t');
        out.append(lf.value_at(k).as_str());
        push_char(&mut out, '\n');
        j = j + 1;
    }
    proof {
        assert(es.take(n as int) =~= es);
        assert forall|a: int, b: int| #![trigger es[a], es[b]] 0 <= a < b < es.len() implies key_lt(es[a].0, es[b].0) by {
            assert(es[a] == e[order@[a] as int] && es[b] == e[order@[b] as int]);
        }
        assert forall|a: int| 0 <= a < es.len() implies lf.view().contains_key(#[trigger] es[a].0) && lf.view()[es[a].0] == es[a].1 by {
            assert(es[a] == e[order@[a] as int]);
        }
        assert(is_listing(lf.view(), es));
    }
    out
}

/// The line an entry is written as, without its line feed.
pub open spec fn entry_body(p: (Seq<char>, Seq<char>)) -> Seq<char> {
    p.0 + seq!['\t'] + p.1
}

/// An entry that the lock file's text keeps as it is: no tab or line feed in
/// the path, no line feed in the value, and no carriage return ending it.
pub open spec fn storable(k: Seq<char>, v: Seq<char>) -> bool {
    &&& !k.contains('\t')
    &&& !k.contains('\n')
    &&& !v.contains('\n')
    &&& !(v.len() > 0 && v.last() == '\r')
}

/// Reading characters other than line feeds extends the current line.
proof fn lemma_lines_piece(p: Seq<char>, rest: Seq<char>, cur: Seq<char>)
    requires
        !p.contains('\n'),
    ensures
        lines_from(p + rest, cur) == lines_from(rest, cur + p),
    decreases p.len(),
{
    if p.len() == 0 {
        assert(p + rest =~= rest);
        assert(cur + p =~= cur);
    } else {
        assert((p + rest).skip(1) =~= p.skip(1) + rest);
        assert((p + rest)[0] == p[0]);
        assert(!p.skip(1).contains('\n')) by {
            if p.skip(1).contains('\n') {
                let k = choose|k: int| 0 <= k < p.skip(1).len() && p.skip(1)[k] == '\n';
                assert(p[k + 1] == '\n');
            }
        }
        lemma_lines_piece(p.skip(1), rest, cur.push(p[0]));
        assert(cur.push(p[0]) + p.skip(1) =~= cur + p);
    }
}

/// The lines of the text of storable entries are their bodies.
proof fn lemma_lines_of_entries(es: Seq<(Seq<char>, Seq<char>)>)
    requires
        forall|i: int| 0 <= i < es.len() ==> storable(#[trigger] es[i].0, es[i].1),
    ensures
        lines(entries_text(es)) == es.map_values(|p: (Seq<char>, Seq<char>)| entry_body(p)),
    decreases es.len(),
{
    if es.len() == 0 {
        assert(es.map_values(|p: (Seq<char>, Seq<char>)| entry_body(p)) =~= Seq::<Seq<char>>::empty());
    } else {
        let e0 = es[0];
        let rest = es.skip(1);
        assert forall|i: int| 0 <= i < rest.len() implies storable(#[trigger] rest[i].0, rest[i].1) by {
            assert(rest[i] == es[i + 1]);
        }
        lemma_lines_of_entries(rest);
        let body = entry_body(e0);
        assert(storable(es[0].0, es[0].1));
        assert(!body.contains('\n')) by {
            if body.contains('\n') {
                let k = choose|k: int| 0 <= k < body.len() && body[k] == '\n';
                if k < e0.0.len() {
                    assert(e0.0[k] == '\n');
                } else if k > e0.0.len() {
                    assert(e0.1[k - e0.0.len() - 1] == '\n');
                }
            }
        }
        let tail = seq!['\n'] + entries_text(rest);
        assert(entries_text(es) =~= body + tail);
        lemma_lines_piece(body, tail, seq![]);
        assert(Seq::<char>::empty() + body =~= body);
        assert(tail.skip(1) =~= entries_text(rest));
        assert(strip_cr(body) == body) by {
            if e0.1.len() > 0 {
                assert(body.last() == e0.1.last());
            } else {
                assert(body.last() == '\t');
            }
        }
        assert(lines(entries_text(es)) =~= seq![body] + lines(entries_text(rest)));
        assert(es.map_values(|p: (Seq<char>, Seq<char>)| entry_body(p)) =~= seq![body]
            + rest.map_values(|p: (Seq<char>, Seq<char>)| entry_body(p)));
    }
}

/// The pairs read back from storable entry bodies are the entries.
proof fn lemma_pairs_of_bodies(es: Seq<(Seq<char>, Seq<char>)>)
    requires
        forall|i: int| 0 <= i < es.len() ==> storable(#[trigger] es[i].0, es[i].1),
    ensures
        lock_pairs(es.map_values(|p: (Seq<char>, Seq<char>)| entry_body(p))) == es,
    decreases es.len(),
{
    let ls = es.map_values(|p: (Seq<char>, Seq<char>)| entry_body(p));
    if es.len() == 0 {
    } else {
        let t = es.drop_last();
        assert forall|i: int| 0 <= i < t.len() implies storable(#[trigger] t[i].0, t[i].1) by {
            assert(t[i] == es[i]);
        }
        lemma_pairs_of_bodies(t);
        assert(ls.drop_last() =~= t.map_values(|p: (Seq<char>, Seq<char>)| entry_body(p)));
        let e = es.last();
        assert(storable(es[es.len() - 1].0, es[es.len() - 1].1));
        let b = entry_body(e);
        assert(ls.last() == b);
        assert(b[e.0.len() as int] == '\t');
        assert forall|j: int| 0 <= j < e.0.len() implies b[j] != '\t' by {
            assert(b[j] == e.0[j]);
        }
        lemma_first_index(b, '\t', e.0.len() as int);
        assert(b.take(e.0.len() as int) =~= e.0);
        assert(b.skip(e.0.len() as int + 1) =~= e.1);
        assert(lock_pairs(ls) =~= es);
    }
}

/// Reading back the text written for a table gives the table, when every
/// entry is storable.
pub proof fn lemma_lock_round_trip(m: Map<Seq<char>, Seq<char>>, es: Seq<(Seq<char>, Seq<char>)>)
    requires
        is_listing(m, es),
        forall|k: Seq<char>| #[trigger] m.contains_key(k) ==> storable(k, m[k]),
    ensures
        parse_lock(entries_text(es)) == m,
{
    assert forall|i: int| 0 <= i < es.len() implies storable(#[trigger] es[i].0, es[i].1) by {
        assert(m.contains_key(es[i].0));
    }
    lemma_lines_of_entries(es);
    lemma_pairs_of_bodies(es);
    assert(crate::strmap::distinct_keys(es)) by {
        assert forall|i: int, j: int| #![trigger es[i], es[j]] 0 <= i < es.len() && 0 <= j < es.len() && i != j implies es[i].0 != es[j].0 by {
            lemma_key_lt(es[i].0, es[j].0, es[j].0);
            if i < j {
                assert(key_lt(es[i].0, es[j].0));
            } else {
                assert(key_lt(es[j].0, es[i].0));
            }
        }
    }
    crate::strmap::lemma_pairs_map(es);
    let pm = crate::strmap::pairs_map(es);
    let ks = es.map_values(|p: (Seq<char>, Seq<char>)| p.0);
    assert forall|a: int, b: int| 0 <= a < ks.len() && 0 <= b < ks.len() && a != b implies ks[a] != ks[b] by {
        assert(ks[a] == es[a].0 && ks[b] == es[b].0);
    }
    ks.unique_seq_to_set();
    assert(ks.to_set().subset_of(m.dom())) by {
        assert forall|k: Seq<char>| ks.to_set().contains(k) implies m.dom().contains(k) by {
            let i = choose|i: int| 0 <= i < ks.len() && ks[i] == k;
            assert(m.contains_key(es[i].0));
        }
    }
    vstd::set_lib::lemma_subset_equality(ks.to_set(), m.dom());
    assert forall|k: Seq<char>| #[trigger] pm.contains_key(k) <==> m.contains_key(k) by {
        if m.contains_key(k) {
            assert(ks.to_set().contains(k));
            let i = choose|i: int| 0 <= i < ks.len() && ks[i] == k;
            assert(es[i].0 == k);
        }
        if pm.contains_key(k) {
            let i = choose|i: int| 0 <= i < es.len() && #[trigger] es[i].0 == k;
            assert(m.contains_key(es[i].0));
        }
    }
    assert forall|k: Seq<char>| #[trigger] pm.contains_key(k) implies pm[k] == m[k] by {
        let i = choose|i: int| 0 <= i < es.len() && #[trigger] es[i].0 == k;
        assert(pm[es[i].0] == es[i].1);
    }
    assert(pm =~= m);
}


/// The lines of `s` (`str::lines`).
pub fn split_lines(s: &str) -> (v: Vec<String>)
    ensures
        views(v@) == lines(s@),
{
    let cs = to_chars(s);
    let mut v: Vec<String> = Vec::new();
    let mut cur: Vec<char> = Vec::new();
    let mut i: usize = 0;
    assert(cs@.skip(0) =~= cs@);
    assert(views(v@) + lines_from(cs@, seq![]) =~= lines(s@));
    while i < cs.len()
        invariant
            i <= cs@.len(),
            views(v@) + lines_from(cs@.skip(i as int), cur@) == lines(s@),
        decreases cs@.len() - i,
    {
        assert(cs@.skip(i as int).skip(1) =~= cs@.skip(i + 1));
        if cs[i] == '\n' {
            let line = strip_cr_exec(cur);
            let ghost before = views(v@);
            v.push(from_chars(line.as_slice()));
            assert(views(v@) =~= before.push(line@));
            assert(views(v@) + lines_from(cs@.skip(i + 1), seq![]) =~= before + (seq![line@]
                + lines_from(cs@.skip(i + 1), seq![])));
            cur = Vec::new();
            assert(cur@ =~= Seq::<char>::empty());
        } else {
            cur.push(cs[i]);
        }
        i = i + 1;
    }
    assert(cs@.skip(i as int) =~= Seq::<char>::empty());
    if cur.len() > 0 {
        let ghost before = views(v@);
        v.push(from_chars(cur.as_slice()));
        assert(views(v@) =~= before + seq![cur@]);
    } else {
        assert(views(v@) + Seq::<Seq<char>>::empty() =~= views(v@));
    }
    v
}

} // verus!
