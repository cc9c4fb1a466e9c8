//! What to do with a file to download: the archive format it is extracted
//! as, and where a raw download is saved.
//!
//! The transfer itself, and unpacking, happen outside this crate's logic.

use vstd::prelude::*;
use vstd::string::StringExecFns;

use crate::hash::{first_index, index_of_char};
use crate::strmap::str_eq;
use crate::text::{ends_with, from_chars, has_suffix, sub_chars, to_chars};
use crate::types::{opt_view, Download};

verus! {

/// `s` up to the first `c` (all of `s` when it holds none): what
/// `s.split(c).next()` gives.
pub open spec fn before_char(s: Seq<char>, c: char) -> Seq<char> {
    if s.contains(c) {
        s.take(first_index(s, c))
    } else {
        s
    }
}

/// The path of a URL: the URL without its query string and fragment.
pub open spec fn url_path(url: Seq<char>) -> Seq<char> {
    before_char(before_char(url, '?'), '#')
}

/// The archive format of a URL, from the extension of its path.
pub open spec fn format_of(url: Seq<char>) -> Seq<char> {
    let p = url_path(url);
    if ends_with(p, ".tar.gz"@) || ends_with(p, ".tgz"@) {
        "tar.gz"@
    } else if ends_with(p, ".tar.xz"@) || ends_with(p, ".txz"@) {
        "tar.xz"@
    } else if ends_with(p, ".tar.bz2"@) || ends_with(p, ".tbz2"@) {
        "tar.bz2"@
    } else if ends_with(p, ".tar"@) {
        "tar"@
    } else if ends_with(p, ".zip"@) {
        "zip"@
    } else {
        "none"@
    }
}

/// `s` up to the first `c`.
fn cut_at(s: &[char], c: char) -> (r: Vec<char>)
    ensures
        r@ == before_char(s@, c),
{
    match index_of_char(s, c) {
        Some(i) => sub_chars(s, 0, i),
        None => sub_chars(s, 0, s.len()),
    }
}

/// Infer archive format from a URL's file extension.
pub fn infer_format(url: &str) -> (f: &'static str)
    ensures
        f@ == format_of(url@),
{
    // Strip query string / fragment.
    let all = to_chars(url);
    let q = cut_at(all.as_slice(), '?');
    let path = cut_at(q.as_slice(), '#');
    let p = path.as_slice();
    if has_suffix(p, ".tar.gz") || has_suffix(p, ".tgz") {
        "tar.gz"
    } else if has_suffix(p, ".tar.xz") || has_suffix(p, ".txz") {
        "tar.xz"
    } else if has_suffix(p, ".tar.bz2") || has_suffix(p, ".tbz2") {
        "tar.bz2"
    } else if has_suffix(p, ".tar") {
        "tar"
    } else if has_suffix(p, ".zip") {
        "zip"
    } else {
        "none"
    }
}

/// The last position of `c` in `s`, or -1.
pub open spec fn last_index(s: Seq<char>, c: char) -> int
    decreases s.len(),
{
    if s.len() == 0 {
        -1
    } else if s.last() == c {
        s.len() - 1
    } else {
        last_index(s.drop_last(), c)
    }
}

/// The last `/`-separated piece of a URL: the name a raw download is saved
/// under.
pub open spec fn file_name_of(url: Seq<char>) -> Seq<char> {
    url.skip(last_index(url, '/') + 1)
}

/// What `last_index` finds.
proof fn lemma_last_index(s: Seq<char>, c: char)
    ensures
        -1 <= last_index(s, c) < s.len(),
        last_index(s, c) >= 0 ==> s[last_index(s, c)] == c,
        forall|j: int| last_index(s, c) < j < s.len() ==> s[j] != c,
    decreases s.len(),
{
    if s.len() > 0 && s.last() != c {
        lemma_last_index(s.drop_last(), c);
        assert forall|j: int| last_index(s, c) < j < s.len() implies s[j] != c by {
            if j < s.len() - 1 {
                assert(s[j] == s.drop_last()[j]);
            }
        }
        if last_index(s, c) >= 0 {
            assert(s[last_index(s, c)] == s.drop_last()[last_index(s, c)]);
        }
    }
}

/// The name a raw download of `url` is saved under.
pub fn file_name(url: &str) -> (n: String)
    ensures
        n@ == file_name_of(url@),
{
    let cs = to_chars(url);
    let mut i: usize = cs.len();
    proof {
        lemma_last_index(cs@, '/');
    }
    while i > 0 && cs[i - 1] != '/'
        invariant
            i <= cs@.len(),
            cs@ == url@,
            forall|j: int| i <= j < cs@.len() ==> cs@[j] != '/',
        decreases i,
    {
        i = i - 1;
    }
    proof {
        lemma_last_index(cs@, '/');
        let k = last_index(cs@, '/');
        if i > 0 {
            assert(cs@[i - 1] == '/');
            assert(k >= i - 1);
            assert(k == i - 1);
        } else {
            assert(k == -1);
        }
    }
    from_chars(sub_chars(cs.as_slice(), i, cs.len()).as_slice())
}

/// How a downloaded file is handled.
pub enum Extraction {
    /// A gzipped tar archive, unpacked into the destination.
    TarGz,
    /// A tar archive, unpacked into the destination.
    Tar,
    /// Saved as is, under this name in the destination.
    Raw(String),
}

/// The format a download is handled as: the one it names, or the one its
/// URL suggests.
pub open spec fn chosen_format(d: (Seq<char>, Seq<char>, Option<Seq<char>>, u32)) -> Seq<char> {
    match d.2 {
        Some(f) => f,
        None => format_of(d.0),
    }
}

/// What happens with a download: `Ok` with the way it is handled, or the
/// error for a format that cannot be extracted.
pub open spec fn extraction_of(d: (Seq<char>, Seq<char>, Option<Seq<char>>, u32)) -> Result<
    (u8, Seq<char>),
    Seq<char>,
> {
    let f = chosen_format(d);
    if f == "tar.gz"@ || f == "tgz"@ {
        Ok((0, seq![]))
    } else if f == "tar.xz"@ || f == "txz"@ {
        Err("tar.xz extraction not yet supported — use tar.gz"@)
    } else if f == "tar.bz2"@ || f == "tbz2"@ {
        Err("tar.bz2 extraction not yet supported — use tar.gz"@)
    } else if f == "tar"@ {
        Ok((1, seq![]))
    } else if f == "none"@ {
        Ok((2, file_name_of(d.0)))
    } else {
        Err("unsupported archive format: "@ + f)
    }
}

impl Extraction {
    /// The extraction as a tag and the raw file name.
    pub open spec fn code(&self) -> (u8, Seq<char>) {
        match self {
            Extraction::TarGz => (0, seq![]),
            Extraction::Tar => (1, seq![]),
            Extraction::Raw(n) => (2, n@),
        }
    }
}

/// Decide how a download is handled once fetched.
pub fn extraction(dl: &Download) -> (r: Result<Extraction, String>)
    ensures
        match r {
            Ok(x) => extraction_of(dl@) == Ok::<(u8, Seq<char>), Seq<char>>(x.code()),
            Err(e) => extraction_of(dl@) == Err::<(u8, Seq<char>), Seq<char>>(e@),
        },
{
    let format: &str = match &dl.extract {
        Some(f) => f.as_str(),
        None => infer_format(dl.url.as_str()),
    };
    if str_eq(format, "tar.gz") || str_eq(format, "tgz") {
        Ok(Extraction::TarGz)
    } else if str_eq(format, "tar.xz") || str_eq(format, "txz") {
        Err(String::from_str("tar.xz extraction not yet supported — use tar.gz"))
    } else if str_eq(format, "tar.bz2") || str_eq(format, "tbz2") {
        Err(String::from_str("tar.bz2 extraction not yet supported — use tar.gz"))
    } else if str_eq(format, "tar") {
        Ok(Extraction::Tar)
    } else if str_eq(format, "none") {
        Ok(Extraction::Raw(file_name(dl.url.as_str())))
    } else {
        Err(String::from_str("unsupported archive format: ").concat(format))
    }
}

/// Where the kept part of an archive entry's path starts, given how many
/// components it has: `None` when stripping `strip` leading components
/// leaves nothing (the entry is skipped).
pub fn kept_components(count: usize, strip: u32) -> (r: Option<usize>)
    ensures
        match r {
            Some(k) => count > strip && k == strip,
            None => count <= strip,
        },
{
    if count as u64 <= strip as u64 {
        None
    } else {
        Some(strip as usize)
    }
}

} // verus!
