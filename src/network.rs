//! Download decisions: what kind of source a specifier names, which
//! revision a Git fragment asks for, whether an HTTP download resumes, how
//! the response headers shape the progress bar, and when a lane repaints.
//! The transfers themselves are made by the caller, which hands the
//! outcomes back as plain values.
use vstd::prelude::*;

use crate::package::{file_name_of, url_of, url_parts, BuildFile, PackageError};
use crate::path::{is_within, join, join_path, within};
use crate::text::{
    chars_of, copy_str, decimal, has_prefix, push_char, push_decimal, push_str, starts_with,
    string_of,
};
use crate::util::{is_digit, digit_value, UtilError};

verus! {

/// Why fetching a source failed.
#[derive(Debug)]
pub enum NetworkError {
    CreateDir(String, String),
    RemoveDir(String, String),
    Canonicalize(String, String),
    TargetFile(String, String),
    Metadata(String, String),
    /// Reading the response body failed: the URL and the cause.
    Download(String, String),
    Write(String, String),
    /// A file source resolves outside the recipe directory.
    InvalidSource(String),
    Util(UtilError),
    Package(PackageError),
    UnknownScheme(String),
    UnknownFragment(String),
    /// A Git operation failed: the recipe and the cause.
    Git(String, String),
    /// An HTTP request failed: the recipe and the cause.
    Reqwest(String, String),
    /// A finished download has another size than the server announced:
    /// the file, its size, and the announced size.
    Incomplete(String, u64, u64),
}

/// How a source is fetched.
#[derive(Debug)]
pub enum SourceKind {
    /// Download over HTTP(S) into the file `filename` of the source directory.
    Http { url: String, filename: String },
    /// Clone `clone_url` into the directory `filename`, then check out what
    /// `fragment` names.
    Git { clone_url: String, fragment: Option<String>, filename: String },
    /// Copy the file tree at this path, relative to the recipe's directory.
    File { path: String },
}

pub open spec fn is_http_scheme(s: Seq<char>) -> bool {
    s == "http"@ || s == "https"@
}

pub open spec fn is_git_scheme(s: Seq<char>) -> bool {
    s == "git"@ || s == "git+http"@ || s == "git+https"@ || s == "git+ssh"@
}

/// The URL a Git source is cloned from: the URL without its fragment, and
/// without the `git+` prefix of its scheme.
pub open spec fn clone_url_of(without_fragment: Seq<char>) -> Seq<char> {
    if has_prefix(without_fragment, "git+"@) {
        without_fragment.skip(4)
    } else {
        without_fragment
    }
}

fn str_eq(a: &str, b: &str) -> (r: bool)
    ensures
        r == (a@ == b@),
{
    let x = string_of(chars_of(a).as_slice());
    let y = string_of(chars_of(b).as_slice());
    x == y
}

impl SourceKind {
    /// Sorts a source specifier. One that parses as a URL is named by its
    /// last path segment (and refused without one); its scheme must be
    /// `http`, `https`, `git`, `git+http`, `git+https` or `git+ssh`. One that
    /// does not parse is a file path.
    pub fn classify(src: &str) -> (r: Result<SourceKind, NetworkError>)
        ensures
            match url_parts(src@) {
                None => r matches Ok(SourceKind::File { path }) && path@ == src@,
                Some(parts) => match file_name_of(src@) {
                    None => r matches Err(NetworkError::Package(PackageError::UnknownFilePath(u)))
                        && u@ == src@,
                    Some(name) => if is_http_scheme(parts.0) {
                        r matches Ok(SourceKind::Http { url, filename }) && url@ == src@
                            && filename@ == name
                    } else if is_git_scheme(parts.0) {
                        r matches Ok(SourceKind::Git { clone_url, fragment, filename })
                            && clone_url@ == clone_url_of(parts.3) && filename@ == name
                            && crate::package::opt_view(fragment) == parts.2
                    } else {
                        r matches Err(NetworkError::UnknownScheme(u)) && u@ == src@
                    },
                },
            },
    {
        proof {
            reveal_strlit("git+");
        }
        match url_of(src) {
            None => Ok(SourceKind::File { path: copy_str(src) }),
            Some(parts) => {
                let filename = match BuildFile::file_path(src) {
                    Ok(f) => f,
                    Err(e) => {
                        return Err(NetworkError::Package(e));
                    },
                };
                let scheme = parts.scheme.as_str();
                if str_eq(scheme, "http") || str_eq(scheme, "https") {
                    Ok(SourceKind::Http { url: copy_str(src), filename })
                } else if str_eq(scheme, "git") || str_eq(scheme, "git+http") || str_eq(
                    scheme,
                    "git+https",
                ) || str_eq(scheme, "git+ssh") {
                    let full = chars_of(parts.without_fragment.as_str());
                    let prefix = chars_of("git+");
                    let clone_url = if starts_with(full.as_slice(), prefix.as_slice()) {
                        let mut c = String::new();
                        let mut i: usize = 4;
                        while i < full.len()
                            invariant
                                4 <= i <= full@.len(),
                                c@ == full@.subrange(4, i as int),
                            decreases full@.len() - i,
                        {
                            push_char(&mut c, full[i]);
                            i = i + 1;
                            assert(full@.subrange(4, i as int) =~= full@.subrange(4, i - 1).push(
                                full@[i - 1],
                            ));
                        }
                        assert(full@.subrange(4, full@.len() as int) =~= full@.skip(4));
                        c
                    } else {
                        parts.without_fragment
                    };
                    Ok(SourceKind::Git { clone_url, fragment: parts.fragment, filename })
                } else {
                    Err(NetworkError::UnknownScheme(copy_str(src)))
                }
            },
        }
    }
}

/// What a Git fragment asks to check out.
#[derive(Debug)]
pub enum Checkout {
    /// No fragment: keep what the clone checked out.
    Default,
    /// Point HEAD at this reference (`refs/remotes/origin/<branch>`).
    Branch(String),
    /// Detach HEAD at the object this tag peels to.
    Tag(String),
    /// Detach HEAD at this commit.
    Commit(String),
}

/// `s` with the prefix `p` removed, when it starts with it.
fn strip(s: &Vec<char>, p: &str) -> (r: Option<String>)
    ensures
        has_prefix(s@, p@) ==> (r matches Some(t) && t@ == s@.skip(p@.len() as int)),
        !has_prefix(s@, p@) ==> r is None,
{
    let pc = chars_of(p);
    if !starts_with(s.as_slice(), pc.as_slice()) {
        return None;
    }
    let mut t = String::new();
    let mut i: usize = pc.len();
    while i < s.len()
        invariant
            pc@.len() <= i <= s@.len(),
            pc@ == p@,
            t@ == s@.subrange(pc@.len() as int, i as int),
        decreases s@.len() - i,
    {
        push_char(&mut t, s[i]);
        i = i + 1;
        assert(s@.subrange(pc@.len() as int, i as int) =~= s@.subrange(pc@.len() as int, i - 1).push(
            s@[i - 1],
        ));
    }
    assert(s@.subrange(pc@.len() as int, s@.len() as int) =~= s@.skip(pc@.len() as int));
    Some(t)
}

impl Checkout {
    /// Reads a Git fragment: `branch=B`, `tag=T` or `commit=C`; any other
    /// fragment is refused with the source `url`.
    pub fn from_fragment(fragment: Option<&str>, url: &str) -> (r: Result<Checkout, NetworkError>)
        ensures
            match fragment {
                None => r matches Ok(Checkout::Default),
                Some(f) => if has_prefix(f@, "branch="@) {
                    r matches Ok(Checkout::Branch(b)) && b@ == "refs/remotes/origin/"@ + f@.skip(7)
                } else if has_prefix(f@, "tag="@) {
                    r matches Ok(Checkout::Tag(t)) && t@ == f@.skip(4)
                } else if has_prefix(f@, "commit="@) {
                    r matches Ok(Checkout::Commit(c)) && c@ == f@.skip(7)
                } else {
                    r matches Err(NetworkError::UnknownFragment(u)) && u@ == url@
                },
            },
    {
        proof {
            reveal_strlit("branch=");
            reveal_strlit("tag=");
            reveal_strlit("commit=");
        }
        match fragment {
            None => Ok(Checkout::Default),
            Some(f) => {
                let fc = chars_of(f);
                if let Some(b) = strip(&fc, "branch=") {
                    let mut r = copy_str("refs/remotes/origin/");
                    push_str(&mut r, b.as_str());
                    Ok(Checkout::Branch(r))
                } else if let Some(t) = strip(&fc, "tag=") {
                    Ok(Checkout::Tag(t))
                } else if let Some(c) = strip(&fc, "commit=") {
                    Ok(Checkout::Commit(c))
                } else {
                    Err(NetworkError::UnknownFragment(copy_str(url)))
                }
            },
        }
    }
}

/// What to do about an existing Git checkout.
#[derive(Debug)]
pub enum GitPlan {
    /// Fetch this branch from `origin` into the existing repository.
    Fetch(String),
    /// Remove what is there, then clone.
    Reclone,
    /// Nothing is there: clone.
    Clone,
}

/// Decides how to bring a Git source up to date. An existing repository
/// whose HEAD is a branch (`head_branch`) is fetched into unless clobbering;
/// anything else that exists is removed and cloned again.
pub fn plan_git(exists: bool, clobber: bool, head_branch: Option<String>) -> (r: GitPlan)
    ensures
        !exists ==> r is Clone,
        exists && !clobber && head_branch is Some ==> (r matches GitPlan::Fetch(b) && b == head_branch->Some_0),
        exists && (clobber || head_branch is None) ==> r is Reclone,
{
    if !exists {
        GitPlan::Clone
    } else if clobber {
        GitPlan::Reclone
    } else {
        match head_branch {
            Some(b) => GitPlan::Fetch(b),
            None => GitPlan::Reclone,
        }
    }
}

/// How an HTTP download proceeds.
#[derive(Clone, Copy, PartialEq, Eq, Structural, Debug)]
pub enum HttpPlan {
    /// The whole file is already here.
    Complete,
    /// Ask for the bytes from this offset on and append them.
    Resume(u64),
    /// Download the whole file, replacing anything there.
    Fresh,
}

/// How an HTTP download proceeds, as `plan_http` decides it.
pub open spec fn http_plan(exists: bool, clobber: bool, remote_len: Option<u64>, local_len: u64) -> HttpPlan {
    if exists && !clobber && remote_len is Some {
        let len = remote_len->Some_0;
        if local_len == len {
            HttpPlan::Complete
        } else if local_len < len {
            HttpPlan::Resume(local_len)
        } else {
            HttpPlan::Fresh
        }
    } else {
        HttpPlan::Fresh
    }
}

/// A download that lost the last `k` bytes of a `len`-byte resource served
/// in byte ranges is resumed at the offset where the file now ends, so that
/// exactly the missing bytes are asked for and appended; an intact one is
/// left alone.
pub proof fn lemma_resume_after_truncation(len: u64, k: u64)
    requires
        k <= len,
    ensures
        k > 0 ==> http_plan(true, false, Some(len), (len - k) as u64) == HttpPlan::Resume(
            (len - k) as u64,
        ),
        k == 0 ==> http_plan(true, false, Some(len), len) == HttpPlan::Complete,
{
}

/// Decides how an HTTP download proceeds. `remote_len` is the length the
/// server reported for a resource it serves in byte ranges (`None` when it
/// does not, or reported no length); `local_len` is the size of the file
/// already present. Unless clobbering, a present file of that exact length
/// is complete and a shorter one is resumed; otherwise the file is fetched
/// from scratch.
pub fn plan_http(exists: bool, clobber: bool, remote_len: Option<u64>, local_len: u64) -> (r: HttpPlan)
    ensures
        r == http_plan(exists, clobber, remote_len, local_len),
{
    if exists && !clobber {
        if let Some(len) = remote_len {
            if local_len == len {
                return HttpPlan::Complete;
            } else if local_len < len {
                return HttpPlan::Resume(local_len);
            }
        }
    }
    HttpPlan::Fresh
}

/// The value of the `Range` header that asks for the bytes from `from` on.
pub fn range_header(from: u64) -> (r: String)
    ensures
        r@ == "bytes="@ + decimal(from as nat) + "-"@,
{
    let mut s = copy_str("bytes=");
    push_decimal(&mut s, from);
    push_str(&mut s, "-");
    s
}

/// Whether an `Accept-Ranges` value announces byte ranges: one of its
/// comma-separated units, with surrounding spaces removed, is `bytes`.
pub open spec fn announces_bytes(v: Seq<char>) -> bool
    decreases v.len(),
{
    let c = index_of(v, ',');
    if c < 0 || c >= v.len() {
        trim_spaces(v) == "bytes"@
    } else {
        trim_spaces(v.take(c)) == "bytes"@ || announces_bytes(v.skip(c + 1))
    }
}

pub open spec fn trim_start(v: Seq<char>) -> Seq<char>
    decreases v.len(),
{
    if v.len() > 0 && (v[0] == ' ' || v[0] == '\t') {
        trim_start(v.drop_first())
    } else {
        v
    }
}

pub open spec fn trim_end(v: Seq<char>) -> Seq<char>
    decreases v.len(),
{
    if v.len() > 0 && (v.last() == ' ' || v.last() == '\t') {
        trim_end(v.drop_last())
    } else {
        v
    }
}

pub open spec fn trim_spaces(v: Seq<char>) -> Seq<char> {
    trim_end(trim_start(v))
}

fn trimmed(cs: &Vec<char>, from: usize, to: usize) -> (r: String)
    requires
        from <= to <= cs@.len(),
    ensures
        r@ == trim_spaces(cs@.subrange(from as int, to as int)),
{
    let ghost v = cs@.subrange(from as int, to as int);
    let mut a: usize = from;
    assert(cs@.subrange(from as int, to as int) =~= v);
    while a < to && (cs[a] == ' ' || cs[a] == '\t')
        invariant
            from <= a <= to <= cs@.len(),
            v == cs@.subrange(from as int, to as int),
            trim_start(cs@.subrange(a as int, to as int)) == trim_start(v),
        decreases to - a,
    {
        assert(cs@.subrange(a as int, to as int).drop_first() =~= cs@.subrange(a + 1, to as int));
        a = a + 1;
    }
    assert(trim_start(v) == cs@.subrange(a as int, to as int));
    let mut b: usize = to;
    while b > a && (cs[b - 1] == ' ' || cs[b - 1] == '\t')
        invariant
            from <= a <= b <= to <= cs@.len(),
            trim_end(cs@.subrange(a as int, b as int)) == trim_spaces(v),
        decreases b,
    {
        assert(cs@.subrange(a as int, b as int).drop_last() =~= cs@.subrange(a as int, b - 1));
        b = b - 1;
    }
    let mut out = String::new();
    let mut i: usize = a;
    while i < b
        invariant
            a <= i <= b <= cs@.len(),
            out@ == cs@.subrange(a as int, i as int),
        decreases b - i,
    {
        push_char(&mut out, cs[i]);
        i = i + 1;
        assert(cs@.subrange(a as int, i as int) =~= cs@.subrange(a as int, i - 1).push(cs@[i - 1]));
    }
    assert(trim_end(cs@.subrange(a as int, b as int)) == cs@.subrange(a as int, b as int));
    out
}

/// Whether an `Accept-Ranges` value announces byte ranges, as
/// `announces_bytes` states.
pub fn accepts_byte_ranges(v: &str) -> (r: bool)
    ensures
        r == announces_bytes(v@),
{
    let cs = chars_of(v);
    let n = cs.len();
    let mut start: usize = 0;
    assert(cs@.skip(0) =~= cs@);
    loop
        invariant
            start <= n == cs@.len(),
            cs@ == v@,
            announces_bytes(cs@.skip(start as int)) == announces_bytes(v@),
        decreases n - start,
    {
        let ghost rest = cs@.skip(start as int);
        proof {
            lemma_index_of(rest, ',');
        }
        match find_char(&cs, start, ',') {
            None => {
                assert(rest =~= cs@.subrange(start as int, n as int));
                let t = trimmed(&cs, start, n);
                return str_eq(t.as_str(), "bytes");
            },
            Some(c) => {
                assert(rest.take(c - start) =~= cs@.subrange(start as int, c as int));
                assert(rest.skip(c - start + 1) =~= cs@.skip(c + 1));
                let t = trimmed(&cs, start, c);
                if str_eq(t.as_str(), "bytes") {
                    return true;
                }
                start = c + 1;
            },
        }
    }
}

/// The length of a resource the server serves in byte ranges: the
/// `Content-Length` when the `Accept-Ranges` value announces bytes.
pub fn range_length(accept_ranges: Option<&str>, content_length: Option<u64>) -> (r: Option<u64>)
    ensures
        r == (match accept_ranges {
            Some(v) => if announces_bytes(v@) {
                content_length
            } else {
                None
            },
            None => None,
        }),
{
    match accept_ranges {
        None => None,
        Some(v) => {
            if accepts_byte_ranges(v) {
                content_length
            } else {
                None
            }
        },
    }
}

pub open spec fn all_digits(s: Seq<char>) -> bool {
    forall|i: int| 0 <= i < s.len() ==> is_digit(#[trigger] s[i])
}

/// The value of a string of decimal digits.
pub open spec fn digits_value(s: Seq<char>) -> nat
    decreases s.len(),
{
    if s.len() == 0 {
        0
    } else {
        digits_value(s.drop_last()) * 10 + digit_value(s.last())
    }
}

/// A non-empty run of digits whose value fits in a `u64`.
pub open spec fn is_u64_text(s: Seq<char>) -> bool {
    s.len() > 0 && all_digits(s) && digits_value(s) <= u64::MAX
}

/// The position of the first `c` in `s`, or -1.
pub open spec fn index_of(s: Seq<char>, c: char) -> int
    decreases s.len(),
{
    if s.len() == 0 {
        -1
    } else if s[0] == c {
        0
    } else {
        let k = index_of(s.drop_first(), c);
        if k < 0 {
            -1
        } else {
            k + 1
        }
    }
}

proof fn lemma_index_of(s: Seq<char>, c: char)
    ensures
        -1 <= index_of(s, c) < s.len(),
        index_of(s, c) >= 0 ==> s[index_of(s, c)] == c,
        forall|j: int| 0 <= j < s.len() && (index_of(s, c) < 0 || j < index_of(s, c)) ==> s[j] != c,
    decreases s.len(),
{
    if s.len() > 0 && s[0] != c {
        lemma_index_of(s.drop_first(), c);
        let k = index_of(s.drop_first(), c);
        assert forall|j: int| 0 <= j < s.len() && (index_of(s, c) < 0 || j < index_of(s, c)) implies s[j] != c by {
            if j > 0 {
                assert(s[j] == s.drop_first()[j - 1]);
            }
        }
    }
}

/// When no `c` occurs before position `n` and `s[n]` is `c` (or `n` is the
/// length of `s`), `n` is where `index_of` finds `c`.
pub(crate) proof fn lemma_index_of_first(s: Seq<char>, c: char, n: int)
    requires
        0 <= n <= s.len(),
        forall|j: int| 0 <= j < n ==> s[j] != c,
        n == s.len() || s[n] == c,
    ensures
        n < s.len() ==> index_of(s, c) == n,
        n == s.len() ==> index_of(s, c) < 0,
    decreases s.len(),
{
    if s.len() > 0 && n > 0 {
        assert forall|j: int| 0 <= j < n - 1 implies s.drop_first()[j] != c by {
            assert(s[j + 1] != c);
        }
        lemma_index_of_first(s.drop_first(), c, n - 1);
    }
}

/// The first and last byte positions, and the complete length when given,
/// of a `Content-Range` value of the form `bytes <first>-<last>/<length or *>`.
pub open spec fn content_range_of(v: Seq<char>) -> Option<(u64, u64, Option<u64>)> {
    if !has_prefix(v, "bytes "@) {
        None
    } else {
        let b = v.skip(6);
        let d = index_of(b, '-');
        if d < 0 {
            None
        } else {
            let first = b.take(d);
            let rest = b.skip(d + 1);
            let sl = index_of(rest, '/');
            if sl < 0 {
                None
            } else {
                let last = rest.take(sl);
                let total = rest.skip(sl + 1);
                if is_u64_text(first) && is_u64_text(last) && (is_u64_text(total) || total
                    == seq!['*']) {
                    Some(
                        (
                            digits_value(first) as u64,
                            digits_value(last) as u64,
                            if total == seq!['*'] {
                                None
                            } else {
                                Some(digits_value(total) as u64)
                            },
                        ),
                    )
                } else {
                    None
                }
            }
        }
    }
}

/// The position of the first `c` in `s` at or after `from`.
fn find_char(s: &Vec<char>, from: usize, c: char) -> (r: Option<usize>)
    requires
        from <= s@.len(),
    ensures
        index_of(s@.skip(from as int), c) < 0 ==> r is None,
        index_of(s@.skip(from as int), c) >= 0 ==> r == Some(
            (from + index_of(s@.skip(from as int), c)) as usize,
        ),
        r matches Some(k) ==> from <= k < s@.len() && k as int == from + index_of(
            s@.skip(from as int),
            c,
        ),
{
    let mut i: usize = from;
    while i < s.len()
        invariant
            from <= i <= s@.len(),
            forall|j: int| from <= j < i ==> s@[j] != c,
        decreases s@.len() - i,
    {
        if s[i] == c {
            proof {
                let t = s@.skip(from as int);
                lemma_index_of(t, c);
                let k = index_of(t, c);
                assert(t[i - from] == s@[i as int]);
                if k >= 0 && k < i - from {
                    assert(t[k] == s@[from + k]);
                }
            }
            return Some(i);
        }
        i = i + 1;
    }
    proof {
        let t = s@.skip(from as int);
        lemma_index_of(t, c);
        let k = index_of(t, c);
        if k >= 0 {
            assert(t[k] == s@[from + k]);
        }
    }
    None
}

/// The value of the digits `s[from..to]`, if they are a non-empty run of
/// digits that fits in a `u64`.
fn parse_digits(s: &Vec<char>, from: usize, to: usize) -> (r: Option<u64>)
    requires
        from <= to <= s@.len(),
    ensures
        is_u64_text(s@.subrange(from as int, to as int)) ==> r == Some(
            digits_value(s@.subrange(from as int, to as int)) as u64,
        ),
        !is_u64_text(s@.subrange(from as int, to as int)) ==> r is None,
{
    if from == to {
        return None;
    }
    let mut acc: u64 = 0;
    let mut i: usize = from;
    while i < to
        invariant
            from <= i <= to <= s@.len(),
            all_digits(s@.subrange(from as int, i as int)),
            acc == digits_value(s@.subrange(from as int, i as int)),
        decreases to - i,
    {
        let c = s[i];
        assert(s@.subrange(from as int, i + 1).drop_last() =~= s@.subrange(from as int, i as int));
        if !('0' <= c && c <= '9') {
            assert(s@.subrange(from as int, to as int)[i - from] == c);
            return None;
        }
        let d = (c as u32 - '0' as u32) as u64;
        if acc > (18446744073709551615 - d) / 10 {
            proof {
                lemma_digits_grow(s@.subrange(from as int, to as int), (i + 1 - from) as int);
                assert(s@.subrange(from as int, to as int).take((i + 1 - from) as int) =~= s@.subrange(from as int, i + 1));
            }
            return None;
        }
        acc = acc * 10 + d;
        i = i + 1;
        assert(all_digits(s@.subrange(from as int, i as int))) by {
            assert forall|j: int| 0 <= j < i - from implies is_digit(#[trigger] s@.subrange(from as int, i as int)[j]) by {
                if j < i - 1 - from {
                    assert(s@.subrange(from as int, i as int)[j] == s@.subrange(from as int, i - 1)[j]);
                }
            }
        }
    }
    Some(acc)
}

/// A digit string is worth at least any of its prefixes.
proof fn lemma_digits_grow(s: Seq<char>, n: int)
    requires
        0 <= n <= s.len(),
    ensures
        digits_value(s.take(n)) <= digits_value(s),
    decreases s.len(),
{
    if n < s.len() {
        lemma_digits_grow(s.drop_last(), n);
        assert(s.drop_last().take(n) =~= s.take(n));
    } else {
        assert(s.take(n) =~= s);
    }
}

/// Reads a `Content-Range` value as `content_range_of` states.
pub fn parse_content_range(v: &str) -> (r: Option<(u64, u64, Option<u64>)>)
    ensures
        r == content_range_of(v@),
{
    proof {
        reveal_strlit("bytes ");
    }
    let cs = chars_of(v);
    let pre = chars_of("bytes ");
    if !starts_with(cs.as_slice(), pre.as_slice()) {
        return None;
    }
    let ghost b = v@.skip(6);
    let n = cs.len();
    assert(cs@.skip(6) =~= b);
    let d = match find_char(&cs, 6, '-') {
        Some(d) => d,
        None => {
            return None;
        },
    };
    assert(b.take(d - 6) =~= cs@.subrange(6, d as int));
    assert(index_of(b, '-') == d - 6);
    let ghost rest = b.skip(d - 6 + 1);
    assert(rest =~= cs@.skip(d + 1));
    assert(d + 1 <= n);
    let sl = match find_char(&cs, d + 1, '/') {
        Some(sl) => sl,
        None => {
            return None;
        },
    };
    assert(rest.take(sl - d - 1) =~= cs@.subrange(d + 1, sl as int));
    assert(rest.skip(sl - d - 1 + 1) =~= cs@.subrange(sl + 1, cs@.len() as int));
    let first = parse_digits(&cs, 6, d);
    let last = parse_digits(&cs, d + 1, sl);
    let total = parse_digits(&cs, sl + 1, cs.len());
    let star = cs.len() - sl == 2 && cs[sl + 1] == '*';
    assert(star == (cs@.subrange(sl + 1, cs@.len() as int) == seq!['*'])) by {
        if cs@.subrange(sl + 1, cs@.len() as int) == seq!['*'] {
            assert(cs@.subrange(sl + 1, cs@.len() as int)[0] == cs@[sl + 1]);
        }
        if star {
            assert(cs@.subrange(sl + 1, cs@.len() as int) =~= seq!['*']);
        }
    }
    match (first, last) {
        (Some(a), Some(z)) => {
            if star {
                Some((a, z, None))
            } else if total.is_some() {
                Some((a, z, total))
            } else {
                None
            }
        },
        _ => None,
    }
}

/// How a lane's bar shows a download.
#[derive(Clone, Copy, PartialEq, Eq, Structural, Debug)]
pub enum BarSetup {
    /// A byte bar of this length, starting at this position.
    Bytes { length: u64, position: u64 },
    /// A byte counter with no known end.
    Spinner,
}

/// Picks the bar for a response: a partial response (`Content-Range`)
/// gives its first and last byte positions as position and length; else a
/// `Content-Length` gives the length from zero; else a spinner.
pub fn bar_for_response(content_range: Option<&str>, content_length: Option<u64>) -> (r: BarSetup)
    ensures
        r == (match (match content_range {
            Some(v) => content_range_of(v@),
            None => None,
        }) {
            Some((from, to, _)) => BarSetup::Bytes { length: to, position: from },
            None => match content_length {
                Some(len) => BarSetup::Bytes { length: len, position: 0 },
                None => BarSetup::Spinner,
            },
        }),
{
    let range = match content_range {
        Some(v) => parse_content_range(v),
        None => None,
    };
    match range {
        Some((from, to, _)) => BarSetup::Bytes { length: to, position: from },
        None => match content_length {
            Some(len) => BarSetup::Bytes { length: len, position: 0 },
            None => BarSetup::Spinner,
        },
    }
}

/// The least time between two repaints of a lane, in milliseconds.
pub const WAIT_TIME_MILLIS: u64 = 250;

/// The same time in nanoseconds.
pub const WAIT_TIME_NANOS: u32 = 250000000;

/// Whether a lane is due for a repaint, given the time since the last one
/// as whole seconds and the nanoseconds beyond them.
pub fn update_due(secs: u64, subsec_nanos: u32) -> (r: bool)
    ensures
        r == (secs > 0 || subsec_nanos >= WAIT_TIME_NANOS),
{
    secs > 0 || subsec_nanos >= WAIT_TIME_NANOS
}

/// Which bar a Git transfer shows.
#[derive(Clone, Copy, PartialEq, Eq, Structural, Debug)]
pub enum GitStyle {
    Objects,
    Deltas,
}

/// A change to a lane's bar.
#[derive(Debug)]
pub struct BarUpdate {
    /// A new bar style, when the transfer entered a new phase.
    pub style: Option<GitStyle>,
    /// A new bar length, set with a new style.
    pub length: Option<u64>,
    pub position: u64,
}

/// Which phases of a Git transfer a lane has already shown.
#[derive(Debug)]
pub struct GitBar {
    pub objects: bool,
    pub deltas: bool,
}

impl GitBar {
    /// A lane that has shown no phase yet.
    pub fn new() -> (r: GitBar)
        ensures
            !r.objects && !r.deltas,
    {
        GitBar { objects: false, deltas: false }
    }

    /// The bar change for a transfer progress report. While objects are
    /// still arriving the bar counts received objects; once all have
    /// arrived it counts indexed deltas. The first report of each phase
    /// also switches the style and sets the length.
    pub fn on_progress(
        &mut self,
        total_objects: u64,
        received_objects: u64,
        total_deltas: u64,
        indexed_deltas: u64,
    ) -> (r: BarUpdate)
        ensures
            total_objects == received_objects ==> {
                &&& r.position == indexed_deltas
                &&& final(self).deltas
                &&& final(self).objects == old(self).objects
                &&& !old(self).deltas ==> r.style == Some(GitStyle::Deltas) && r.length == Some(
                    total_deltas,
                )
                &&& old(self).deltas ==> r.style is None && r.length is None
            },
            total_objects != received_objects ==> {
                &&& r.position == received_objects
                &&& final(self).objects
                &&& final(self).deltas == old(self).deltas
                &&& !old(self).objects ==> r.style == Some(GitStyle::Objects) && r.length == Some(
                    total_objects,
                )
                &&& old(self).objects ==> r.style is None && r.length is None
            },
    {
        if total_objects == received_objects {
            let first = !self.deltas;
            self.deltas = true;
            BarUpdate {
                style: if first { Some(GitStyle::Deltas) } else { None },
                length: if first { Some(total_deltas) } else { None },
                position: indexed_deltas,
            }
        } else {
            let first = !self.objects;
            self.objects = true;
            BarUpdate {
                style: if first { Some(GitStyle::Objects) } else { None },
                length: if first { Some(total_objects) } else { None },
                position: received_objects,
            }
        }
    }
}

/// Where a file source points before its path is made canonical: the
/// source under the recipe's directory under the recipe root.
pub fn file_source_path(root: &str, parent: &str, src: &str) -> (r: String)
    ensures
        r@ == join(join(root@, parent@), src@),
{
    let dir = join_path(root, parent);
    join_path(dir.as_str(), src)
}

/// Accepts the canonical path of a file source only when it lies under the
/// canonical recipe root.
pub fn check_file_source(root: &str, resolved: &str) -> (r: Result<String, NetworkError>)
    ensures
        within(root@, resolved@) ==> (r matches Ok(p) && p@ == resolved@),
        !within(root@, resolved@) ==> (r matches Err(NetworkError::InvalidSource(p)) && p@
            == resolved@),
{
    if is_within(root, resolved) {
        Ok(copy_str(resolved))
    } else {
        Err(NetworkError::InvalidSource(copy_str(resolved)))
    }
}

/// A lane's prefix while it fetches source number `index` (from zero) of
/// recipe `name`: the name, a slash, and the one-based number.
pub fn source_prefix(name: &str, index: usize) -> (r: String)
    requires
        index < u64::MAX,
    ensures
        r@ == name@ + "/"@ + decimal(index as nat + 1),
{
    let mut s = copy_str(name);
    push_str(&mut s, "/");
    push_decimal(&mut s, index as u64 + 1);
    s
}

/// Each message in turn, separated by a newline and a tab.
pub open spec fn joined(msgs: Seq<Seq<char>>) -> Seq<char>
    decreases msgs.len(),
{
    if msgs.len() == 0 {
        Seq::empty()
    } else if msgs.len() == 1 {
        msgs[0]
    } else {
        joined(msgs.drop_last()) + "\n\t"@ + msgs.last()
    }
}

/// The failed sources of one recipe's download stage.
#[derive(Debug)]
pub struct SourceReport {
    pub failures: Vec<String>,
}

impl SourceReport {
    /// No source has failed yet.
    pub fn new() -> (r: SourceReport)
        ensures
            r.failures@.len() == 0,
    {
        SourceReport { failures: Vec::new() }
    }

    /// Records a failed source. The remaining sources are still tried,
    /// unless the run stops on failure.
    pub fn record(&mut self, msg: String, fail_fast: bool) -> (go_on: bool)
        ensures
            final(self).failures@ == old(self).failures@.push(msg),
            go_on == !fail_fast,
    {
        self.failures.push(msg);
        !fail_fast
    }

    /// The stage's outcome: a recipe with any failed source fails, with
    /// every failure in its message.
    pub fn outcome(&self) -> (r: Result<(), String>)
        ensures
            r is Ok <==> self.failures@.len() == 0,
            r matches Err(m) ==> m@ == joined(crate::package::strs(self.failures@)),
    {
        let n = self.failures.len();
        if n == 0 {
            return Ok(());
        }
        let ghost fs = crate::package::strs(self.failures@);
        let mut s = self.failures[0].clone();
        let mut i: usize = 1;
        assert(fs.take(1) =~= seq![fs[0]]);
        while i < n
            invariant
                1 <= i <= n == self.failures@.len(),
                fs == crate::package::strs(self.failures@),
                s@ == joined(fs.take(i as int)),
            decreases n - i,
        {
            push_str(&mut s, "\n\t");
            push_str(&mut s, self.failures[i].as_str());
            i = i + 1;
            assert(fs.take(i as int).drop_last() =~= fs.take(i - 1));
        }
        assert(fs.take(n as int) =~= fs);
        Err(s)
    }
}

/// The size a finished download must have: the complete length a partial
/// response names, else one past its last byte; for a whole response, its
/// `Content-Length`; nothing when the response names none.
pub open spec fn expected_size(content_range: Option<Seq<char>>, content_length: Option<u64>) -> Option<u64> {
    match (match content_range {
        Some(v) => content_range_of(v),
        None => None,
    }) {
        Some((_, last, Some(total))) => Some(total),
        Some((_, last, None)) => if last < u64::MAX {
            Some((last + 1) as u64)
        } else {
            None
        },
        None => content_length,
    }
}

pub open spec fn opt_str_view(o: Option<&str>) -> Option<Seq<char>> {
    match o {
        Some(v) => Some(v@),
        None => None,
    }
}

/// The size a finished download must have, as `expected_size` states.
pub fn download_size(content_range: Option<&str>, content_length: Option<u64>) -> (r: Option<u64>)
    ensures
        r == expected_size(opt_str_view(content_range), content_length),
{
    let range = match content_range {
        Some(v) => parse_content_range(v),
        None => None,
    };
    match range {
        Some((_, _, Some(total))) => Some(total),
        Some((_, last, None)) => if last < u64::MAX {
            Some(last + 1)
        } else {
            None
        },
        None => content_length,
    }
}

/// Whether the body is appended to the file already there: only when the
/// download resumes and the server answered with a partial response. A
/// server that ignores the range sends the whole file, which then replaces
/// the old one.
pub fn append_body(plan: HttpPlan, content_range: Option<&str>) -> (r: bool)
    ensures
        r == (plan is Resume && (match content_range {
            Some(v) => content_range_of(v@) is Some,
            None => false,
        })),
{
    match plan {
        HttpPlan::Resume(_) => match content_range {
            Some(v) => parse_content_range(v).is_some(),
            None => false,
        },
        _ => false,
    }
}

/// Checks a finished download against the size the server announced;
/// without an announced size there is nothing to check.
pub fn check_complete(path: &str, expected: Option<u64>, actual: u64) -> (r: Result<(), NetworkError>)
    ensures
        match expected {
            Some(n) => if n == actual {
                r is Ok
            } else {
                r matches Err(NetworkError::Incomplete(p, a, e)) && p@ == path@ && a == actual && e == n
            },
            None => r is Ok,
        },
{
    match expected {
        Some(n) => if n == actual {
            Ok(())
        } else {
            Err(NetworkError::Incomplete(copy_str(path), actual, n))
        },
        None => Ok(()),
    }
}

impl NetworkError {
    /// The explanation shown to the user.
    pub open spec fn text(&self) -> Seq<char> {
        match self {
            NetworkError::CreateDir(a, b) => "could not create directory '"@ + a@ + "': "@ + b@,
            NetworkError::RemoveDir(a, b) => "could not remove directory '"@ + a@ + "': "@ + b@,
            NetworkError::Canonicalize(a, b) => "could not get real path for file '"@ + a@ + "': "@ + b@,
            NetworkError::TargetFile(a, b) => "could not create file '"@ + a@ + "': "@ + b@,
            NetworkError::Metadata(a, b) => "could not read metadata for file '"@ + a@ + "': "@ + b@,
            NetworkError::Download(a, b) => "failed to download data from '"@ + a@ + "': "@ + b@,
            NetworkError::Write(a, b) => "failed to write to '"@ + a@ + "': "@ + b@,
            NetworkError::InvalidSource(a) => "'"@ + a@ + "' is an invalid source file path"@,
            NetworkError::Util(a) => a.text(),
            NetworkError::Package(a) => a.text(),
            NetworkError::UnknownScheme(a) => "invalid scheme for the URL '"@ + a@ + "'"@,
            NetworkError::UnknownFragment(a) => "unknown fragment type for the URL '"@ + a@ + "'"@,
            NetworkError::Git(a, b) => "failed to download '"@ + a@ + "': "@ + b@,
            NetworkError::Reqwest(a, b) => "failed to download '"@ + a@ + "': "@ + b@,
            NetworkError::Incomplete(a, b, c) => "downloaded file '"@ + a@ + "' has "@ + decimal(
                *b as nat,
            ) + " bytes instead of "@ + decimal(*c as nat),
        }
    }

    /// The explanation shown to the user, as `text` states.
    pub fn message(&self) -> (r: String)
        ensures
            r@ == self.text(),
    {
        let mut s = String::new();
        match self {
            NetworkError::CreateDir(a, b) => {
                push_str(&mut s, "could not create directory '");
                push_str(&mut s, a.as_str());
                push_str(&mut s, "': ");
                push_str(&mut s, b.as_str());
                assert(s@ =~= self.text());
            },
            NetworkError::RemoveDir(a, b) => {
                push_str(&mut s, "could not remove directory '");
                push_str(&mut s, a.as_str());
                push_str(&mut s, "': ");
                push_str(&mut s, b.as_str());
                assert(s@ =~= self.text());
            },
            NetworkError::Canonicalize(a, b) => {
                push_str(&mut s, "could not get real path for file '");
                push_str(&mut s, a.as_str());
                push_str(&mut s, "': ");
                push_str(&mut s, b.as_str());
                assert(s@ =~= self.text());
            },
            NetworkError::TargetFile(a, b) => {
                push_str(&mut s, "could not create file '");
                push_str(&mut s, a.as_str());
                push_str(&mut s, "': ");
                push_str(&mut s, b.as_str());
                assert(s@ =~= self.text());
            },
            NetworkError::Metadata(a, b) => {
                push_str(&mut s, "could not read metadata for file '");
                push_str(&mut s, a.as_str());
                push_str(&mut s, "': ");
                push_str(&mut s, b.as_str());
                assert(s@ =~= self.text());
            },
            NetworkError::Download(a, b) => {
                push_str(&mut s, "failed to download data from '");
                push_str(&mut s, a.as_str());
                push_str(&mut s, "': ");
                push_str(&mut s, b.as_str());
                assert(s@ =~= self.text());
            },
            NetworkError::Write(a, b) => {
                push_str(&mut s, "failed to write to '");
                push_str(&mut s, a.as_str());
                push_str(&mut s, "': ");
                push_str(&mut s, b.as_str());
                assert(s@ =~= self.text());
            },
            NetworkError::InvalidSource(a) => {
                push_str(&mut s, "'");
                push_str(&mut s, a.as_str());
                push_str(&mut s, "' is an invalid source file path");
                assert(s@ =~= self.text());
            },
            NetworkError::Util(a) => {
                push_str(&mut s, a.message().as_str());
                assert(s@ =~= self.text());
            },
            NetworkError::Package(a) => {
                push_str(&mut s, a.message().as_str());
                assert(s@ =~= self.text());
            },
            NetworkError::UnknownScheme(a) => {
                push_str(&mut s, "invalid scheme for the URL '");
                push_str(&mut s, a.as_str());
                push_str(&mut s, "'");
                assert(s@ =~= self.text());
            },
            NetworkError::UnknownFragment(a) => {
                push_str(&mut s, "unknown fragment type for the URL '");
                push_str(&mut s, a.as_str());
                push_str(&mut s, "'");
                assert(s@ =~= self.text());
            },
            NetworkError::Git(a, b) => {
                push_str(&mut s, "failed to download '");
                push_str(&mut s, a.as_str());
                push_str(&mut s, "': ");
                push_str(&mut s, b.as_str());
                assert(s@ =~= self.text());
            },
            NetworkError::Reqwest(a, b) => {
                push_str(&mut s, "failed to download '");
                push_str(&mut s, a.as_str());
                push_str(&mut s, "': ");
                push_str(&mut s, b.as_str());
                assert(s@ =~= self.text());
            },
            NetworkError::Incomplete(a, b, c) => {
                push_str(&mut s, "downloaded file '");
                push_str(&mut s, a.as_str());
                push_str(&mut s, "' has ");
                push_decimal(&mut s, *b);
                push_str(&mut s, " bytes instead of ");
                push_decimal(&mut s, *c);
                assert(s@ =~= self.text());
            },
        }
        s
    }
}

} // verus!
