//! Source locators: where a fetched source is kept, how it is fetched, and
//! how it is unpacked.
use vstd::prelude::*;
use crate::text::{occurs_at, text_occurs_at};

verus! {

/// The position of the last `c` in `s`.
pub open spec fn rfind_of(s: Seq<char>, c: char) -> Option<int>
    decreases s.len(),
{
    if s.len() == 0 {
        None
    } else if s.last() == c {
        Some(s.len() - 1)
    } else {
        rfind_of(s.drop_last(), c)
    }
}

/// The position of the first occurrence of `pat` at or after `i`.
pub open spec fn find_from(s: Seq<char>, pat: Seq<char>, i: int) -> Option<int>
    decreases s.len() + 1 - i,
{
    if i < 0 || i + pat.len() > s.len() {
        None
    } else if occurs_at(s, pat, i) {
        Some(i)
    } else {
        find_from(s, pat, i + 1)
    }
}

pub open spec fn find_of(s: Seq<char>, pat: Seq<char>) -> Option<int> {
    find_from(s, pat, 0)
}

pub open spec fn ends_with_of(s: Seq<char>, suffix: Seq<char>) -> bool {
    s.len() >= suffix.len() && s.skip(s.len() - suffix.len()) == suffix
}

pub open spec fn starts_with_of(s: Seq<char>, prefix: Seq<char>) -> bool {
    s.len() >= prefix.len() && s.take(prefix.len() as int) == prefix
}

/// The name under which a source is kept: the text after the last `/`, cut
/// before its first `.git`; a locator without `/` is its own name.
pub open spec fn archive_name_of(src: Seq<char>) -> Seq<char> {
    match rfind_of(src, '/') {
        None => src,
        Some(i) => {
            let name = src.skip(i + 1);
            match find_of(name, ".git"@) {
                Some(p) => name.take(p),
                None => name,
            }
        },
    }
}

/// How a source is fetched.
pub enum Fetch {
    /// A clone of `url`, on `branch` if it is not empty, shallow unless `full`.
    Git { url: String, branch: String, full: bool },
    /// A download of the locator itself.
    Http,
    /// Nothing to fetch.
    Local,
}

pub enum FetchModel {
    Git { url: Seq<char>, branch: Seq<char>, full: bool },
    Http,
    Local,
}

impl View for Fetch {
    type V = FetchModel;

    open spec fn view(&self) -> FetchModel {
        match self {
            Fetch::Git { url, branch, full } => FetchModel::Git {
                url: url@,
                branch: branch@,
                full: *full,
            },
            Fetch::Http => FetchModel::Http,
            Fetch::Local => FetchModel::Local,
        }
    }
}

/// A locator holding `.git` is cloned from the text before it; what follows
/// `.git:` names a branch, and `,full` after it asks for the full history.
/// Any other locator starting with `http` is downloaded.
pub open spec fn fetch_of(src: Seq<char>) -> FetchModel {
    match find_of(src, ".git"@) {
        Some(pos) => {
            let url = src.take(pos);
            if pos + 4 < src.len() && src[pos + 4] == ':' {
                let opts = src.skip(pos + 5);
                match find_of(opts, ",full"@) {
                    Some(p) => FetchModel::Git { url, branch: opts.take(p), full: true },
                    None => FetchModel::Git { url, branch: opts, full: false },
                }
            } else {
                FetchModel::Git { url, branch: seq![], full: false }
            }
        },
        None => if starts_with_of(src, "http"@) {
            FetchModel::Http
        } else {
            FetchModel::Local
        },
    }
}

/// How a fetched source is unpacked into the source directory.
#[derive(Clone, Copy, Debug, PartialEq, Eq, Structural)]
pub enum Unpack {
    /// Extract the archive.
    Extract,
    /// Link the clone into the work directory.
    Link,
    Nothing,
}

pub open spec fn unpack_of(src: Seq<char>) -> Unpack {
    if ends_with_of(src, ".tar.xz"@) || ends_with_of(src, ".tar.gz"@) || ends_with_of(
        src,
        ".tar.bz2"@,
    ) || ends_with_of(src, ".tar.zst"@) {
        Unpack::Extract
    } else if find_of(src, ".git"@) is Some {
        Unpack::Link
    } else {
        Unpack::Nothing
    }
}

pub fn rfind_char(s: &str, c: char) -> (r: Option<usize>)
    ensures
        r matches Some(i) ==> rfind_of(s@, c) == Some(i as int),
        r is None ==> rfind_of(s@, c) is None,
{
    let n = s.unicode_len();
    let mut i: usize = n;
    assert(s@.take(n as int) =~= s@);
    while i > 0
        invariant
            i <= n == s@.len(),
            rfind_of(s@, c) == rfind_of(s@.take(i as int), c),
        decreases i,
    {
        assert(s@.take(i as int).last() == s@[i - 1]);
        if s.get_char(i - 1) == c {
            return Some(i - 1);
        }
        assert(s@.take(i as int).drop_last() =~= s@.take(i - 1));
        i = i - 1;
    }
    None
}

pub fn find_text(s: &str, pat: &str) -> (r: Option<usize>)
    ensures
        r matches Some(i) ==> find_of(s@, pat@) == Some(i as int),
        r is None ==> find_of(s@, pat@) is None,
{
    let n = s.unicode_len();
    let m = pat.unicode_len();
    if m > n {
        return None;
    }
    let mut i: usize = 0;
    while i <= n - m
        invariant
            m <= n == s@.len(),
            m == pat@.len(),
            i <= n - m + 1,
            find_of(s@, pat@) == find_from(s@, pat@, i as int),
        decreases n - m + 1 - i,
    {
        if text_occurs_at(s, pat, i) {
            return Some(i);
        }
        if i == n - m {
            assert(find_from(s@, pat@, i + 1) is None);
            return None;
        }
        i = i + 1;
    }
    None
}

pub fn ends_with_text(s: &str, suffix: &str) -> (r: bool)
    ensures
        r == ends_with_of(s@, suffix@),
{
    let n = s.unicode_len();
    let m = suffix.unicode_len();
    if m > n {
        return false;
    }
    let r = text_occurs_at(s, suffix, n - m);
    assert(r == (s@.subrange(n - m, n as int) == suffix@));
    assert(s@.subrange(n - m, n as int) =~= s@.skip(n - m));
    r
}

pub fn starts_with_text(s: &str, prefix: &str) -> (r: bool)
    ensures
        r == starts_with_of(s@, prefix@),
{
    let r = text_occurs_at(s, prefix, 0);
    assert(s@.len() >= prefix@.len() ==> s@.subrange(0, prefix@.len() as int) =~= s@.take(
        prefix@.len() as int,
    ));
    r
}

/// The name under which a fetched source is kept.
pub fn archive_name(src: &str) -> (r: String)
    ensures
        r@ == archive_name_of(src@),
{
    let n = src.unicode_len();
    match rfind_char(src, '/') {
        None => String::from_str(src),
        Some(i) => {
            proof {
                lemma_rfind_bounds(src@, '/');
            }
            let name = src.substring_char(i + 1, n);
            assert(name@ =~= src@.skip(i + 1));
            let git = ".git";
            match find_text(name, git) {
                Some(p) => {
                    proof {
                        lemma_find_bounds(name@, git@, 0);
                    }
                    let r = String::from_str(name.substring_char(0, p));
                    assert(r@ =~= name@.take(p as int));
                    r
                },
                None => String::from_str(name),
            }
        },
    }
}

pub proof fn lemma_rfind_bounds(s: Seq<char>, c: char)
    ensures
        rfind_of(s, c) matches Some(i) ==> 0 <= i < s.len() && s[i] == c,
    decreases s.len(),
{
    if s.len() > 0 {
        lemma_rfind_bounds(s.drop_last(), c);
    }
}

pub proof fn lemma_find_bounds(s: Seq<char>, pat: Seq<char>, i: int)
    ensures
        find_from(s, pat, i) matches Some(p) ==> i <= p && p + pat.len() <= s.len() && occurs_at(
            s,
            pat,
            p,
        ),
    decreases s.len() + 1 - i,
{
    if !(i < 0 || i + pat.len() > s.len()) && !occurs_at(s, pat, i) {
        lemma_find_bounds(s, pat, i + 1);
    }
}

/// How a source is fetched.
pub fn fetch_method(src: &str) -> (r: Fetch)
    ensures
        r@ == fetch_of(src@),
{
    let n = src.unicode_len();
    let git = ".git";
    match find_text(src, git) {
        Some(pos) => {
            proof {
                lemma_find_bounds(src@, git@, 0);
                reveal_strlit(".git");
            }
            let url = String::from_str(src.substring_char(0, pos));
            assert(url@ =~= src@.take(pos as int));
            if pos + 4 < n && src.get_char(pos + 4) == ':' {
                let opts = src.substring_char(pos + 5, n);
                assert(opts@ =~= src@.skip(pos + 5));
                let full = ",full";
                match find_text(opts, full) {
                    Some(p) => {
                        proof {
                            lemma_find_bounds(opts@, full@, 0);
                        }
                        let branch = String::from_str(opts.substring_char(0, p));
                        assert(branch@ =~= opts@.take(p as int));
                        Fetch::Git { url, branch, full: true }
                    },
                    None => Fetch::Git { url, branch: String::from_str(opts), full: false },
                }
            } else {
                let r = Fetch::Git { url, branch: String::new(), full: false };
                assert(r@ == FetchModel::Git { url: src@.take(pos as int), branch: seq![], full: false });
                r
            }
        },
        None => if starts_with_text(src, "http") {
            Fetch::Http
        } else {
            Fetch::Local
        },
    }
}

/// How a fetched source is unpacked.
pub fn unpack_method(src: &str) -> (r: Unpack)
    ensures
        r == unpack_of(src@),
{
    if ends_with_text(src, ".tar.xz") || ends_with_text(src, ".tar.gz") || ends_with_text(
        src,
        ".tar.bz2",
    ) || ends_with_text(src, ".tar.zst") {
        Unpack::Extract
    } else if find_text(src, ".git").is_some() {
        Unpack::Link
    } else {
        Unpack::Nothing
    }
}

/// The arguments of the clone command for a git source kept at `path`.
pub open spec fn clone_args_of(
    url: Seq<char>,
    branch: Seq<char>,
    full: bool,
    recurse_submodules: bool,
    path: Seq<char>,
) -> Seq<Seq<char>> {
    seq!["clone"@, url] + (if full {
        seq![]
    } else {
        seq!["--depth=1"@]
    }) + (if branch.len() > 0 {
        seq!["-b"@, branch]
    } else {
        seq![]
    }) + (if recurse_submodules {
        seq!["--recurse-submodules"@]
    } else {
        seq![]
    }) + seq![path]
}

pub fn clone_args(url: &String, branch: &String, full: bool, recurse_submodules: bool, path: &String) -> (r:
    Vec<String>)
    ensures
        r.deep_view() == clone_args_of(url@, branch@, full, recurse_submodules, path@),
{
    let mut r: Vec<String> = Vec::new();
    r.push(String::from_str("clone"));
    r.push(url.clone());
    if !full {
        r.push(String::from_str("--depth=1"));
    }
    if !branch.as_str().is_empty() {
        r.push(String::from_str("-b"));
        r.push(branch.clone());
    }
    if recurse_submodules {
        r.push(String::from_str("--recurse-submodules"));
    }
    r.push(path.clone());
    assert(r.deep_view() =~= clone_args_of(url@, branch@, full, recurse_submodules, path@));
    r
}

} // verus!
