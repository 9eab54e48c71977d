//! Recipes: loading a parsed recipe (check-step rule, variable
//! substitution, version parsing), the per-recipe directory layout, and the
//! file name that a source is stored under.
use vstd::prelude::*;

use crate::config::Config;
use crate::path::{join, join_path};
use crate::text::{
    chars_of, copy_str, decimal, has_prefix, push_char, push_chars, push_decimal, push_str,
};

verus! {

/// Whether `c` may continue a Unicode identifier (the `XID_Continue`
/// property): a function of the character alone.
pub uninterp spec fn xid_continue(c: char) -> bool;

/// Relies on `unicode_xid::UnicodeXID::is_xid_continue`: whether `c` has the
/// `XID_Continue` property.
#[verifier::external_body]
fn is_xid_continue(c: char) -> (r: bool)
    ensures
        r == xid_continue(c),
{
    unicode_xid::UnicodeXID::is_xid_continue(c)
}

/// `s` with every occurrence of `key` replaced by `value`, scanning left to
/// right without overlap, except where the occurrence is directly followed by
/// an identifier-continue character: those occurrences stay as they are.
pub open spec fn subst(s: Seq<char>, key: Seq<char>, value: Seq<char>) -> Seq<char>
    decreases s.len(),
{
    if key.len() == 0 || s.len() == 0 {
        s
    } else if has_prefix(s, key) {
        let rest = s.skip(key.len() as int);
        (if rest.len() > 0 && xid_continue(rest[0]) {
            key
        } else {
            value
        }) + subst(rest, key, value)
    } else {
        seq![s[0]] + subst(s.drop_first(), key, value)
    }
}

/// Whether `p` occurs in `s` starting at position `i`.
fn occurs_at(s: &Vec<char>, i: usize, p: &Vec<char>) -> (r: bool)
    requires
        i <= s@.len(),
    ensures
        r == has_prefix(s@.skip(i as int), p@),
{
    if p.len() > s.len() - i {
        return false;
    }
    let mut j: usize = 0;
    while j < p.len()
        invariant
            i <= s@.len(),
            p@.len() <= s@.len() - i,
            j <= p@.len(),
            forall|k: int| 0 <= k < j ==> s@[i + k] == p@[k],
        decreases p@.len() - j,
    {
        assert(i + j < s.len());
        if s[i + j] != p[j] {
            assert(s@.skip(i as int).take(p@.len() as int)[j as int] != p@[j as int]);
            return false;
        }
        j = j + 1;
    }
    assert(s@.skip(i as int).take(p@.len() as int) =~= p@);
    true
}

/// Replaces the occurrences of `key` in `input` by `value` as `subst` states.
pub fn subst_vars(input: &str, key: &str, value: &str) -> (r: String)
    ensures
        r@ == subst(input@, key@, value@),
{
    let s = chars_of(input);
    let k = chars_of(key);
    let v = chars_of(value);
    let mut out = String::new();
    if k.len() == 0 {
        push_chars(&mut out, s.as_slice());
        return out;
    }
    let mut i: usize = 0;
    assert(s@.skip(0) =~= s@);
    assert(out@ =~= Seq::<char>::empty());
    while i < s.len()
        invariant
            i <= s@.len(),
            k@.len() > 0,
            s@ == input@,
            k@ == key@,
            v@ == value@,
            out@ + subst(s@.skip(i as int), k@, v@) == subst(input@, key@, value@),
        decreases s@.len() - i,
    {
        let ghost rest = s@.skip(i as int);
        if occurs_at(&s, i, &k) {
            let after = i + k.len();
            assert(rest.skip(k@.len() as int) =~= s@.skip(after as int));
            if after < s.len() && is_xid_continue(s[after]) {
                push_chars(&mut out, k.as_slice());
            } else {
                push_chars(&mut out, v.as_slice());
            }
            i = after;
        } else {
            push_char(&mut out, s[i]);
            assert(rest.drop_first() =~= s@.skip(i + 1));
            i = i + 1;
        }
    }
    assert(s@.skip(i as int).len() == 0);
    out
}

/// The text of each string in `v`.
pub open spec fn strs(v: Seq<String>) -> Seq<Seq<char>> {
    v.map_values(|s: String| s@)
}

/// The text of each key and value in `v`.
pub open spec fn pairs_view(v: Seq<(String, String)>) -> Seq<(Seq<char>, Seq<char>)> {
    v.map_values(|p: (String, String)| (p.0@, p.1@))
}

pub open spec fn opt_view(o: Option<String>) -> Option<Seq<char>> {
    match o {
        Some(s) => Some(s@),
        None => None,
    }
}

/// Replaces `key` by `value` in each string of `items`.
pub fn subst_each(items: Vec<String>, key: &str, value: &str) -> (r: Vec<String>)
    ensures
        strs(r@) == strs(items@).map_values(|t: Seq<char>| subst(t, key@, value@)),
{
    let mut out: Vec<String> = Vec::new();
    let mut i: usize = 0;
    while i < items.len()
        invariant
            i <= items@.len(),
            strs(out@) == strs(items@).take(i as int).map_values(
                |t: Seq<char>| subst(t, key@, value@),
            ),
        decreases items@.len() - i,
    {
        let t = subst_vars(items[i].as_str(), key, value);
        let ghost prev = strs(out@);
        out.push(t);
        assert(strs(out@) =~= prev.push(subst(items@[i as int]@, key@, value@)));
        i = i + 1;
        assert(strs(items@).take(i as int) =~= strs(items@).take(i - 1).push(items@[i - 1]@));
        assert(strs(out@) =~= strs(items@).take(i as int).map_values(
            |t: Seq<char>| subst(t, key@, value@),
        ));
    }
    assert(strs(items@).take(i as int) =~= strs(items@));
    out
}

/// `"$"` followed by `name`: how a variable is written in recipe text.
pub open spec fn var_ref(name: Seq<char>) -> Seq<char> {
    seq!['$'] + name
}

/// `s` after substituting each variable of `env` in turn, first to last.
pub open spec fn subst_env(s: Seq<char>, env: Seq<(Seq<char>, Seq<char>)>) -> Seq<char>
    decreases env.len(),
{
    if env.len() == 0 {
        s
    } else {
        subst(subst_env(s, env.drop_last()), var_ref(env.last().0), env.last().1)
    }
}

/// `env` with `key` bound to `value`: earlier bindings of `key` are dropped
/// and the new one is placed last.
pub open spec fn bind(env: Seq<(Seq<char>, Seq<char>)>, key: Seq<char>, value: Seq<char>) -> Seq<
    (Seq<char>, Seq<char>),
> {
    env.filter(key_differs(key)).push((key, value))
}

/// Holds of a binding whose name is not `key`.
pub open spec fn key_differs(key: Seq<char>) -> spec_fn((Seq<char>, Seq<char>)) -> bool {
    |p: (Seq<char>, Seq<char>)| p.0 != key
}

/// No name is bound twice in `env`.
pub open spec fn keys_unique(env: Seq<(Seq<char>, Seq<char>)>) -> bool {
    forall|i: int, j: int| 0 <= i < j < env.len() ==> #[trigger] env[i].0 != #[trigger] env[j].0
}

/// Binds `key` to `value` in `env` as `bind` states; names stay unique.
pub fn set_var(env: Vec<(String, String)>, key: &str, value: String) -> (r: Vec<(String, String)>)
    ensures
        pairs_view(r@) == bind(pairs_view(env@), key@, value@),
        keys_unique(pairs_view(env@)) ==> keys_unique(pairs_view(r@)),
{
    let mut out: Vec<(String, String)> = Vec::new();
    let k = copy_str(key);
    let mut i: usize = 0;
    let ghost pv = pairs_view(env@);
    let ghost keep = key_differs(key@);
    while i < env.len()
        invariant
            i <= env@.len(),
            pv == pairs_view(env@),
            keep == key_differs(key@),
            k@ == key@,
            pairs_view(out@) == pv.take(i as int).filter(keep),
            keys_unique(pv) ==> keys_unique(pairs_view(out@)),
            forall|m: int| 0 <= m < out@.len() ==> #[trigger] pairs_view(out@)[m].0 != key@,
            forall|m: int|
                0 <= m < out@.len() ==> exists|j: int|
                    0 <= j < i && #[trigger] pairs_view(out@)[m].0 == pv[j].0,
        decreases env@.len() - i,
    {
        let ghost before = pairs_view(out@);
        assert(pv[i as int] == (env@[i as int].0@, env@[i as int].1@));
        assert(pv.take(i + 1) =~= pv.take(i as int).push(pv[i as int]));
        proof {
            pv.take(i as int).lemma_filter_push(pv[i as int], keep);
        }
        let same = env[i].0.eq(&k);
        if !same {
            let a = copy_str(env[i].0.as_str());
            let b = copy_str(env[i].1.as_str());
            out.push((a, b));
            assert(pairs_view(out@) =~= before.push(pv[i as int]));

        } else {
            assert(pairs_view(out@) =~= before);
        }
        i = i + 1;
    }
    assert(pv.take(i as int) =~= pv);
    let ghost before = pairs_view(out@);
    out.push((k, value));
    assert(pairs_view(out@) =~= before.push((key@, value@)));
    proof {
        let po = pairs_view(out@);
        if keys_unique(pv) {
            assert forall|x: int, y: int| 0 <= x < y < po.len() implies #[trigger] po[x].0
                != #[trigger] po[y].0 by {
                if y == before.len() {
                    assert(before[x].0 != key@);
                } else {
                    assert(po[x] == before[x] && po[y] == before[y]);
                }
            }
        }
    }
    out
}

/// Whether no name is bound twice in `env`.
pub fn env_keys_unique(env: &Vec<(String, String)>) -> (r: bool)
    ensures
        r == keys_unique(pairs_view(env@)),
{
    let ghost pv = pairs_view(env@);
    let mut j: usize = 0;
    while j < env.len()
        invariant
            j <= env@.len(),
            pv == pairs_view(env@),
            forall|x: int, y: int| 0 <= x < y < j ==> #[trigger] pv[x].0 != #[trigger] pv[y].0,
        decreases env@.len() - j,
    {
        let mut i: usize = 0;
        while i < j
            invariant
                i <= j < env@.len(),
                pv == pairs_view(env@),
                forall|x: int| 0 <= x < i ==> #[trigger] pv[x].0 != pv[j as int].0,
            decreases j - i,
        {
            if env[i].0.eq(&env[j].0) {
                assert(pv[i as int].0 == pv[j as int].0);
                return false;
            }
            i = i + 1;
        }
        j = j + 1;
    }
    true
}

/// A semantic version: three numbers, then optional pre-release and build
/// labels (empty when absent).
#[derive(Debug)]
pub struct Version {
    pub major: u64,
    pub minor: u64,
    pub patch: u64,
    pub pre: String,
    pub build: String,
}

/// What `semver` reads from a version string: the three numbers and the
/// pre-release and build labels, or nothing when the text is not a
/// semantic version.
pub uninterp spec fn semver_parts(s: Seq<char>) -> Option<(u64, u64, u64, Seq<char>, Seq<char>)>;

/// Relies on `semver::Version::parse`, with the labels read through
/// `Prerelease::as_str` and `BuildMetadata::as_str`.
#[verifier::external_body]
fn parse_semver(s: &str) -> (r: Result<Version, String>)
    ensures
        r is Ok <==> semver_parts(s@) is Some,
        r matches Ok(v) ==> semver_parts(s@) == Some((v.major, v.minor, v.patch, v.pre@, v.build@)),
{
    match semver::Version::parse(s) {
        Ok(v) => Ok(Version {
            major: v.major,
            minor: v.minor,
            patch: v.patch,
            pre: v.pre.as_str().to_string(),
            build: v.build.as_str().to_string(),
        }),
        Err(e) => Err(e.to_string()),
    }
}

impl Version {
    /// The version `major.minor.patch` with no labels.
    pub fn new(major: u64, minor: u64, patch: u64) -> (r: Version)
        ensures
            r.major == major && r.minor == minor && r.patch == patch,
            r.pre@.len() == 0 && r.build@.len() == 0,
    {
        Version { major, minor, patch, pre: String::new(), build: String::new() }
    }

    /// Reads a semantic version; the error is the reason it is not one.
    pub fn parse(s: &str) -> (r: Result<Version, String>)
        ensures
            r is Ok <==> semver_parts(s@) is Some,
            r matches Ok(v) ==> semver_parts(s@) == Some(
                (v.major, v.minor, v.patch, v.pre@, v.build@),
            ),
    {
        parse_semver(s)
    }

    /// The written form: `major.minor.patch`, then `-pre` and `+build` when
    /// those labels are present.
    pub open spec fn text(&self) -> Seq<char> {
        decimal(self.major as nat) + seq!['.'] + decimal(self.minor as nat) + seq!['.'] + decimal(
            self.patch as nat,
        ) + (if self.pre@.len() > 0 {
            seq!['-'] + self.pre@
        } else {
            Seq::empty()
        }) + (if self.build@.len() > 0 {
            seq!['+'] + self.build@
        } else {
            Seq::empty()
        })
    }

    /// Appends the written form to `s`.
    pub fn push_text(&self, s: &mut String)
        ensures
            final(s)@ == old(s)@ + self.text(),
    {
        let ghost s0 = s@;
        push_decimal(s, self.major);
        push_char(s, '.');
        push_decimal(s, self.minor);
        push_char(s, '.');
        push_decimal(s, self.patch);
        let ghost s1 = s@;
        let pre = chars_of(self.pre.as_str());
        if pre.len() > 0 {
            push_char(s, '-');
            push_chars(s, pre.as_slice());
        }
        let ghost s2 = s@;
        let build = chars_of(self.build.as_str());
        if build.len() > 0 {
            push_char(s, '+');
            push_chars(s, build.as_slice());
        }
        assert(s@ =~= s0 + self.text());
    }

    /// The written form.
    pub fn to_text(&self) -> (r: String)
        ensures
            r@ == self.text(),
    {
        let mut s = String::new();
        self.push_text(&mut s);
        s
    }
}

/// Why a recipe could not be used.
#[derive(Debug)]
pub enum PackageError {
    /// The URL has no final path segment to name the downloaded file.
    UnknownFilePath(String),
    /// The recipe has no check step and does not skip it.
    NeedsCheck,
    /// The version (after substitution) is not a semantic version: the
    /// text and the reason.
    InvalidVersion(String, String),
}

/// A recipe as read from its file, before any checking or substitution.
#[derive(Debug)]
pub struct BuildFileRaw {
    pub env: Option<Vec<(String, String)>>,
    pub package: PackageRaw,
}

/// The `package` section of a recipe as read from its file.
#[derive(Debug)]
pub struct PackageRaw {
    pub name: String,
    pub version: String,
    pub description: String,
    pub license: Vec<String>,
    pub source: Vec<String>,
    pub skip_extract: Option<bool>,
    pub skip_check: Option<bool>,
    pub prepare: Option<Vec<String>>,
    pub build: Option<Vec<String>>,
    pub check: Option<Vec<String>>,
    pub install: Option<Vec<String>>,
}

/// A loaded recipe.
#[derive(Debug)]
pub struct BuildFile {
    /// The recipe file, relative to the recipe directory.
    pub path: String,
    /// The variables handed to build commands.
    pub env: Vec<(String, String)>,
    pub package: Package,
}

/// The package a recipe describes, with variables substituted.
#[derive(Debug)]
pub struct Package {
    pub name: String,
    pub version: Version,
    pub description: String,
    pub license: Vec<String>,
    pub source: Vec<String>,
    pub skip_extract: Option<bool>,
    pub skip_check: Option<bool>,
    pub prepare: Option<Vec<String>>,
    pub build: Option<Vec<String>>,
    pub check: Option<Vec<String>>,
    pub install: Option<Vec<String>>,
}

/// The variables a raw recipe declares.
pub open spec fn raw_env(raw: BuildFileRaw) -> Seq<(Seq<char>, Seq<char>)> {
    match raw.env {
        Some(e) => pairs_view(e@),
        None => Seq::empty(),
    }
}

/// The recipe needs a check step it does not have.
pub open spec fn needs_check(raw: BuildFileRaw) -> bool {
    !(raw.package.skip_check == Some(true)) && raw.package.check is None
}

pub open spec fn name_var() -> Seq<char> {
    seq!['$', 'n', 'a', 'm', 'e']
}

pub open spec fn version_var() -> Seq<char> {
    seq!['$', 'v', 'e', 'r', 's', 'i', 'o', 'n']
}

/// The package name after substitution.
pub open spec fn loaded_name(raw: BuildFileRaw) -> Seq<char> {
    subst_env(raw.package.name@, raw_env(raw))
}

/// The version text after substitution.
pub open spec fn loaded_version(raw: BuildFileRaw) -> Seq<char> {
    subst_env(raw.package.version@, raw_env(raw))
}

/// Text that also sees `$name` and `$version`: the declared variables
/// first, then those two.
pub open spec fn loaded_text(raw: BuildFileRaw, t: Seq<char>) -> Seq<char> {
    subst(
        subst(subst_env(t, raw_env(raw)), name_var(), loaded_name(raw)),
        version_var(),
        loaded_version(raw),
    )
}

/// The variables of a loaded recipe: the declared ones, with `name` and
/// `version` bound to the substituted name and version text.
pub open spec fn loaded_env(raw: BuildFileRaw) -> Seq<(Seq<char>, Seq<char>)> {
    bind(
        bind(raw_env(raw), seq!['n', 'a', 'm', 'e'], loaded_name(raw)),
        seq!['v', 'e', 'r', 's', 'i', 'o', 'n'],
        loaded_version(raw),
    )
}

/// Substitutes each variable of `env` into `t`, in order.
fn subst_all(t: String, env: &Vec<(String, String)>) -> (r: String)
    ensures
        r@ == subst_env(t@, pairs_view(env@)),
{
    let ghost t0 = t@;
    let mut t = t;
    let mut i: usize = 0;
    let ghost pv = pairs_view(env@);
    assert(pv.take(0) =~= Seq::<(Seq<char>, Seq<char>)>::empty());
    while i < env.len()
        invariant
            i <= env@.len(),
            pv == pairs_view(env@),
            t@ == subst_env(t0, pv.take(i as int)),
        decreases env@.len() - i,
    {
        let mut key = String::new();
        push_char(&mut key, '$');
        push_str(&mut key, env[i].0.as_str());
        t = subst_vars(t.as_str(), key.as_str(), env[i].1.as_str());
        i = i + 1;
        assert(pv.take(i as int).drop_last() =~= pv.take(i - 1));
    }
    assert(pv.take(i as int) =~= pv);
    t
}

/// Substitutes each variable of `env` into every string of `items`.
fn subst_all_each(items: Vec<String>, env: &Vec<(String, String)>) -> (r: Vec<String>)
    ensures
        strs(r@) == strs(items@).map_values(|t: Seq<char>| subst_env(t, pairs_view(env@))),
{
    let mut out: Vec<String> = Vec::new();
    let mut i: usize = 0;
    while i < items.len()
        invariant
            i <= items@.len(),
            strs(out@) == strs(items@).take(i as int).map_values(
                |t: Seq<char>| subst_env(t, pairs_view(env@)),
            ),
        decreases items@.len() - i,
    {
        let t = subst_all(items[i].clone(), env);
        let ghost prev = strs(out@);
        out.push(t);
        assert(strs(out@) =~= prev.push(subst_env(items@[i as int]@, pairs_view(env@))));
        i = i + 1;
        assert(strs(items@).take(i as int) =~= strs(items@).take(i - 1).push(items@[i - 1]@));
        assert(strs(out@) =~= strs(items@).take(i as int).map_values(
            |t: Seq<char>| subst_env(t, pairs_view(env@)),
        ));
    }
    assert(strs(items@).take(i as int) =~= strs(items@));
    out
}

impl BuildFile {
    /// Loads a parsed recipe found at `pkgname` under the recipe directory.
    ///
    /// A recipe without a check step must skip it. Each declared variable
    /// `$KEY` is then substituted, in order, into the name, version,
    /// description, licenses and sources; `$name` and `$version` are then
    /// substituted into the description and the sources, and both join the
    /// variables. Last, the version text must be a semantic version.
    pub fn open(pkgname: &str, raw: BuildFileRaw) -> (r: Result<BuildFile, PackageError>)
        requires
            keys_unique(raw_env(raw)),
        ensures
            needs_check(raw) ==> r matches Err(PackageError::NeedsCheck),
            !needs_check(raw) && semver_parts(loaded_version(raw)) is None ==> (r matches Err(
                PackageError::InvalidVersion(v, _),
            ) && v@ == loaded_version(raw)),
            r is Ok <==> !needs_check(raw) && semver_parts(loaded_version(raw)) is Some,
            r matches Ok(b) ==> {
                &&& b.path@ == pkgname@
                &&& pairs_view(b.env@) == loaded_env(raw)
                &&& keys_unique(pairs_view(b.env@))
                &&& b.package.name@ == loaded_name(raw)
                &&& semver_parts(loaded_version(raw)) == Some(
                    (
                        b.package.version.major,
                        b.package.version.minor,
                        b.package.version.patch,
                        b.package.version.pre@,
                        b.package.version.build@,
                    ),
                )
                &&& b.package.description@ == loaded_text(raw, raw.package.description@)
                &&& strs(b.package.license@) == strs(raw.package.license@).map_values(
                    |t: Seq<char>| subst_env(t, raw_env(raw)),
                )
                &&& strs(b.package.source@) == strs(raw.package.source@).map_values(
                    |t: Seq<char>| loaded_text(raw, t),
                )
                &&& b.package.skip_extract == raw.package.skip_extract
                &&& b.package.skip_check == raw.package.skip_check
                &&& b.package.prepare == raw.package.prepare
                &&& b.package.build == raw.package.build
                &&& b.package.check == raw.package.check
                &&& b.package.install == raw.package.install
            },
    {
        let ghost raw0 = raw;
        let skip_check = match raw.package.skip_check {
            Some(b) => b,
            None => false,
        };
        if !skip_check && raw.package.check.is_none() {
            return Err(PackageError::NeedsCheck);
        }
        let env = match raw.env {
            Some(e) => e,
            None => Vec::new(),
        };
        assert(pairs_view(env@) == raw_env(raw0));
        let p = raw.package;
        let name = subst_all(p.name, &env);
        let version = subst_all(p.version, &env);
        let description = subst_all(p.description, &env);
        let license = subst_all_each(p.license, &env);
        let source = subst_all_each(p.source, &env);

        let env = set_var(env, "name", name.clone());
        let env = set_var(env, "version", version.clone());
        proof {
            reveal_strlit("name");
            reveal_strlit("version");
            reveal_strlit("$name");
            reveal_strlit("$version");
        }
        assert("name"@ =~= seq!['n', 'a', 'm', 'e']);
        assert("version"@ =~= seq!['v', 'e', 'r', 's', 'i', 'o', 'n']);
        assert("$name"@ =~= name_var());
        assert("$version"@ =~= version_var());

        let description = subst_vars(description.as_str(), "$name", name.as_str());
        let description = subst_vars(description.as_str(), "$version", version.as_str());
        let source = subst_each(source, "$name", name.as_str());
        let source = subst_each(source, "$version", version.as_str());
        assert(strs(source@) =~= strs(raw0.package.source@).map_values(
            |t: Seq<char>| loaded_text(raw0, t),
        ));

        let parsed = match Version::parse(version.as_str()) {
            Ok(v) => v,
            Err(e) => {
                return Err(PackageError::InvalidVersion(version, e));
            },
        };
        Ok(BuildFile {
            path: copy_str(pkgname),
            env,
            package: Package {
                name,
                version: parsed,
                description,
                license,
                source,
                skip_extract: p.skip_extract,
                skip_check: p.skip_check,
                prepare: p.prepare,
                build: p.build,
                check: p.check,
                install: p.install,
            },
        })
    }
}

/// The parts of a URL that the download logic reads: the scheme, the last
/// path segment (absent for URLs that cannot be a base), the fragment, and
/// the whole URL without its fragment.
#[derive(Debug)]
pub struct UrlParts {
    pub scheme: String,
    pub last_segment: Option<String>,
    pub fragment: Option<String>,
    pub without_fragment: String,
}

impl UrlParts {
    pub open spec fn view_tuple(&self) -> (Seq<char>, Option<Seq<char>>, Option<Seq<char>>, Seq<char>) {
        (self.scheme@, opt_view(self.last_segment), opt_view(self.fragment), self.without_fragment@)
    }
}

/// What the `url` crate reads from `s`: scheme, last path segment, fragment
/// and the serialization without the fragment; nothing when `s` is not an
/// absolute URL.
pub uninterp spec fn url_parts(s: Seq<char>) -> Option<
    (Seq<char>, Option<Seq<char>>, Option<Seq<char>>, Seq<char>),
>;

/// Relies on `url::Url::parse`, with `Url::scheme`, the last item of
/// `Url::path_segments`, `Url::fragment`, and the serialization after
/// `Url::set_fragment(None)`.
#[verifier::external_body]
fn parse_url(s: &str) -> (r: Option<UrlParts>)
    ensures
        r is Some <==> url_parts(s@) is Some,
        r matches Some(u) ==> url_parts(s@) == Some(u.view_tuple()),
{
    match url::Url::parse(s) {
        Ok(mut u) => {
            let last_segment = u.path_segments().and_then(Iterator::last).map(String::from);
            let fragment = u.fragment().map(String::from);
            u.set_fragment(None);
            let scheme = u.scheme().to_string();
            Some(UrlParts { scheme, last_segment, fragment, without_fragment: u.to_string() })
        },
        Err(_) => None,
    }
}

/// Reads the parts of `s` when it is an absolute URL.
pub fn url_of(s: &str) -> (r: Option<UrlParts>)
    ensures
        r is Some <==> url_parts(s@) is Some,
        r matches Some(u) ==> url_parts(s@) == Some(u.view_tuple()),
{
    parse_url(s)
}

/// The name a source is stored under: the last path segment of a URL, or
/// the source itself when it is not a URL. A URL with no (or an empty) last
/// segment has none.
pub open spec fn file_name_of(src: Seq<char>) -> Option<Seq<char>> {
    match url_parts(src) {
        None => Some(src),
        Some(parts) => match parts.1 {
            Some(seg) => if seg.len() > 0 {
                Some(seg)
            } else {
                None
            },
            None => None,
        },
    }
}

/// The text of a list of strings as `Debug` writes it.
pub uninterp spec fn debug_list(items: Seq<Seq<char>>) -> Seq<char>;

/// Relies on std's `Debug` formatting of a slice of strings.
#[verifier::external_body]
fn debug_strings(items: &[String]) -> (r: String)
    ensures
        r@ == debug_list(strs(items@)),
{
    format!("{:?}", items)
}

/// The directory that holds `p`: the text before its last separator (the
/// root for a path directly under it, empty for a bare name).
pub open spec fn parent_of(p: Seq<char>) -> Seq<char>
    decreases p.len(),
{
    if p.len() == 0 {
        p
    } else if p.last() == '/' {
        if p.len() == 1 {
            p
        } else {
            p.drop_last()
        }
    } else {
        parent_of(p.drop_last())
    }
}

fn parent_text(p: &str) -> (r: String)
    ensures
        r@ == parent_of(p@),
{
    let cs = chars_of(p);
    let mut n: usize = cs.len();
    assert(cs@.take(n as int) =~= cs@);
    while n > 0 && cs[n - 1] != '/'
        invariant
            n <= cs@.len(),
            parent_of(cs@.take(n as int)) == parent_of(p@),
            cs@ == p@,
        decreases n,
    {
        assert(cs@.take(n as int).drop_last() =~= cs@.take(n - 1));
        n = n - 1;
    }
    let end: usize = if n <= 1 { n } else { n - 1 };
    let mut out = String::new();
    let mut i: usize = 0;
    while i < end
        invariant
            end <= n <= cs@.len(),
            i <= end,
            out@ == cs@.take(i as int),
        decreases end - i,
    {
        push_char(&mut out, cs[i]);
        i = i + 1;
        assert(cs@.take(i as int) =~= cs@.take(i - 1).push(cs@[i - 1]));
    }
    proof {
        let t = cs@.take(n as int);
        if n > 1 {
            assert(t.drop_last() =~= cs@.take(end as int));
        } else {
            assert(t =~= cs@.take(end as int));
        }
    }
    out
}

impl Package {
    /// `<name>-<version>`: the name of the recipe's directory and artifact.
    pub open spec fn dir_name(&self) -> Seq<char> {
        self.name@ + seq!['-'] + self.version.text()
    }

    pub open spec fn spec_base_dir(&self, build_dir: Seq<char>) -> Seq<char> {
        join(build_dir, self.dir_name())
    }

    pub open spec fn spec_log_dir(&self, build_dir: Seq<char>) -> Seq<char> {
        join(self.spec_base_dir(build_dir), "log"@)
    }

    pub open spec fn spec_build_dir(&self, build_dir: Seq<char>) -> Seq<char> {
        join(self.spec_base_dir(build_dir), "build"@)
    }

    pub open spec fn spec_pkg_dir(&self, build_dir: Seq<char>) -> Seq<char> {
        join(self.spec_base_dir(build_dir), "pkg"@)
    }

    pub open spec fn spec_download_dir(&self, build_dir: Seq<char>) -> Seq<char> {
        join(self.spec_base_dir(build_dir), "src"@)
    }

    pub open spec fn spec_artifact(&self, build_dir: Seq<char>) -> Seq<char> {
        join(self.spec_base_dir(build_dir), self.dir_name() + ".tar.xz"@)
    }

    pub open spec fn spec_tar(&self, build_dir: Seq<char>) -> Seq<char> {
        join(self.spec_base_dir(build_dir), self.dir_name() + ".tar"@)
    }

    fn dir_name_text(&self) -> (r: String)
        ensures
            r@ == self.dir_name(),
    {
        let mut s = self.name.clone();
        push_char(&mut s, '-');
        self.version.push_text(&mut s);
        s
    }

    /// The log of what build commands wrote to standard output.
    pub fn stdout_log(&self, config: &Config) -> (r: String)
        ensures
            r@ == join(self.spec_log_dir(config.build_dir@), "stdout.log"@),
    {
        join_path(self.log_dir(config).as_str(), "stdout.log")
    }

    /// The log of what build commands wrote to standard error.
    pub fn stderr_log(&self, config: &Config) -> (r: String)
        ensures
            r@ == join(self.spec_log_dir(config.build_dir@), "stderr.log"@),
    {
        join_path(self.log_dir(config).as_str(), "stderr.log")
    }

    /// The recipe's own directory, `<build_dir>/<name>-<version>`.
    pub fn base_dir(&self, config: &Config) -> (r: String)
        ensures
            r@ == self.spec_base_dir(config.build_dir@),
    {
        join_path(config.build_dir.as_str(), self.dir_name_text().as_str())
    }

    pub fn log_dir(&self, config: &Config) -> (r: String)
        ensures
            r@ == self.spec_log_dir(config.build_dir@),
    {
        join_path(self.base_dir(config).as_str(), "log")
    }

    /// Where archives are extracted and build and install commands run.
    pub fn build_dir(&self, config: &Config) -> (r: String)
        ensures
            r@ == self.spec_build_dir(config.build_dir@),
    {
        join_path(self.base_dir(config).as_str(), "build")
    }

    /// The staging root of the installed files.
    pub fn pkg_dir(&self, config: &Config) -> (r: String)
        ensures
            r@ == self.spec_pkg_dir(config.build_dir@),
    {
        join_path(self.base_dir(config).as_str(), "pkg")
    }

    pub fn pkgbuild_dir<'a>(&self, config: &'a Config) -> (r: &'a str)
        ensures
            r@ == config.pkgbuild_dir@,
    {
        config.pkgbuild_dir.as_str()
    }

    /// Where sources are downloaded.
    pub fn download_dir(&self, config: &Config) -> (r: String)
        ensures
            r@ == self.spec_download_dir(config.build_dir@),
    {
        join_path(self.base_dir(config).as_str(), "src")
    }

    /// Where archives are extracted: the build directory.
    pub fn archive_out_dir(&self, config: &Config) -> (r: String)
        ensures
            r@ == self.spec_build_dir(config.build_dir@),
    {
        self.build_dir(config)
    }

    /// The packaged artifact, `<base>/<name>-<version>.tar.xz`.
    pub fn artifact_path(&self, config: &Config) -> (r: String)
        ensures
            r@ == self.spec_artifact(config.build_dir@),
    {
        let mut n = self.dir_name_text();
        push_str(&mut n, ".tar.xz");
        join_path(self.base_dir(config).as_str(), n.as_str())
    }

    /// The intermediate tar file written before compression.
    pub fn tar_path(&self, config: &Config) -> (r: String)
        ensures
            r@ == self.spec_tar(config.build_dir@),
    {
        let mut n = self.dir_name_text();
        push_str(&mut n, ".tar");
        join_path(self.base_dir(config).as_str(), n.as_str())
    }

    /// Name, version and licenses on one line, the description on the next.
    pub fn info(&self) -> (r: String)
        ensures
            r@ == self.name@ + " "@ + self.version.text() + " "@ + debug_list(strs(self.license@))
                + "\n"@ + self.description@,
    {
        let mut s = self.name.clone();
        push_str(&mut s, " ");
        self.version.push_text(&mut s);
        push_str(&mut s, " ");
        push_str(&mut s, debug_strings(self.license.as_slice()).as_str());
        push_str(&mut s, "\n");
        push_str(&mut s, self.description.as_str());
        s
    }

    /// The name a source is stored under, as `file_name_of` states; a URL
    /// without a final segment is refused.
    pub fn file_path(src: &str) -> (r: Result<String, PackageError>)
        ensures
            match file_name_of(src@) {
                Some(n) => r matches Ok(f) && f@ == n,
                None => r matches Err(PackageError::UnknownFilePath(u)) && u@ == src@,
            },
    {
        match url_of(src) {
            None => Ok(copy_str(src)),
            Some(parts) => match parts.last_segment {
                Some(seg) => {
                    if chars_of(seg.as_str()).len() > 0 {
                        Ok(seg)
                    } else {
                        Err(PackageError::UnknownFilePath(copy_str(src)))
                    }
                },
                None => Err(PackageError::UnknownFilePath(copy_str(src))),
            },
        }
    }

    /// Where a source is downloaded: its file name under the download
    /// directory.
    pub fn file_download_path(&self, config: &Config, src: &str) -> (r: Result<
        String,
        PackageError,
    >)
        ensures
            match file_name_of(src@) {
                Some(n) => r matches Ok(f) && f@ == join(self.spec_download_dir(config.build_dir@), n),
                None => r matches Err(PackageError::UnknownFilePath(u)) && u@ == src@,
            },
    {
        let name = Package::file_path(src)?;
        Ok(join_path(self.download_dir(config).as_str(), name.as_str()))
    }
}

/// The list a recipe gives for a step, if it gives one.
fn step_list(step: &Option<Vec<String>>) -> (r: Option<&Vec<String>>)
    ensures
        r is Some <==> step is Some,
        r matches Some(v) ==> *v == step->Some_0,
{
    match step {
        Some(v) => Some(v),
        None => None,
    }
}

impl BuildFile {
    /// A recipe with the given sources and nothing else: empty name and
    /// text, version 0.0.0, no variables and no steps.
    pub fn with_urls(urls: Vec<String>) -> (r: BuildFile)
        ensures
            r.package.source == urls,
            r.package.name@.len() == 0,
            r.env@.len() == 0,
            r.package.skip_extract is None,
            r.package.prepare is None && r.package.build is None,
            r.package.check is None && r.package.install is None,
    {
        BuildFile {
            path: String::new(),
            env: Vec::new(),
            package: Package {
                name: String::new(),
                version: Version::new(0, 0, 0),
                description: String::new(),
                license: Vec::new(),
                source: urls,
                skip_extract: None,
                skip_check: None,
                prepare: None,
                build: None,
                check: None,
                install: None,
            },
        }
    }

    /// The recipe file, relative to the recipe directory.
    pub fn path(&self) -> (r: &str)
        ensures
            r@ == self.path@,
    {
        self.path.as_str()
    }

    /// The directory that holds the recipe file, as `parent_of` states.
    pub fn parent_dir(&self) -> (r: String)
        ensures
            r@ == parent_of(self.path@),
    {
        parent_text(self.path.as_str())
    }

    pub fn env(&self) -> (r: &Vec<(String, String)>)
        ensures
            *r == self.env,
    {
        &self.env
    }

    pub fn name(&self) -> (r: &str)
        ensures
            r@ == self.package.name@,
    {
        self.package.name.as_str()
    }

    pub fn version(&self) -> (r: &Version)
        ensures
            *r == self.package.version,
    {
        &self.package.version
    }

    pub fn description(&self) -> (r: &str)
        ensures
            r@ == self.package.description@,
    {
        self.package.description.as_str()
    }

    pub fn license(&self) -> (r: &[String])
        ensures
            r@ == self.package.license@,
    {
        self.package.license.as_slice()
    }

    pub fn source(&self) -> (r: &[String])
        ensures
            r@ == self.package.source@,
    {
        self.package.source.as_slice()
    }

    /// Whether extraction is skipped (it is not unless the recipe says so).
    pub fn skip_extract(&self) -> (r: bool)
        ensures
            r == (self.package.skip_extract == Some(true)),
    {
        match self.package.skip_extract {
            Some(b) => b,
            None => false,
        }
    }

    /// Whether the check step is skipped (it is not unless the recipe says so).
    pub fn skip_check(&self) -> (r: bool)
        ensures
            r == (self.package.skip_check == Some(true)),
    {
        match self.package.skip_check {
            Some(b) => b,
            None => false,
        }
    }

    pub fn prepare(&self) -> (r: Option<&Vec<String>>)
        ensures
            r is Some <==> self.package.prepare is Some,
            r matches Some(v) ==> *v == self.package.prepare->Some_0,
    {
        step_list(&self.package.prepare)
    }

    pub fn build(&self) -> (r: Option<&Vec<String>>)
        ensures
            r is Some <==> self.package.build is Some,
            r matches Some(v) ==> *v == self.package.build->Some_0,
    {
        step_list(&self.package.build)
    }

    pub fn check(&self) -> (r: Option<&Vec<String>>)
        ensures
            r is Some <==> self.package.check is Some,
            r matches Some(v) ==> *v == self.package.check->Some_0,
    {
        step_list(&self.package.check)
    }

    pub fn install(&self) -> (r: Option<&Vec<String>>)
        ensures
            r is Some <==> self.package.install is Some,
            r matches Some(v) ==> *v == self.package.install->Some_0,
    {
        step_list(&self.package.install)
    }

    pub fn base_dir(&self, config: &Config) -> (r: String)
        ensures
            r@ == self.package.spec_base_dir(config.build_dir@),
    {
        self.package.base_dir(config)
    }

    pub fn build_dir(&self, config: &Config) -> (r: String)
        ensures
            r@ == self.package.spec_build_dir(config.build_dir@),
    {
        self.package.build_dir(config)
    }

    pub fn pkg_dir(&self, config: &Config) -> (r: String)
        ensures
            r@ == self.package.spec_pkg_dir(config.build_dir@),
    {
        self.package.pkg_dir(config)
    }

    pub fn pkgbuild_dir<'a>(&self, config: &'a Config) -> (r: &'a str)
        ensures
            r@ == config.pkgbuild_dir@,
    {
        self.package.pkgbuild_dir(config)
    }

    pub fn log_dir(&self, config: &Config) -> (r: String)
        ensures
            r@ == self.package.spec_log_dir(config.build_dir@),
    {
        self.package.log_dir(config)
    }

    pub fn download_dir(&self, config: &Config) -> (r: String)
        ensures
            r@ == self.package.spec_download_dir(config.build_dir@),
    {
        self.package.download_dir(config)
    }

    pub fn archive_out_dir(&self, config: &Config) -> (r: String)
        ensures
            r@ == self.package.spec_build_dir(config.build_dir@),
    {
        self.package.archive_out_dir(config)
    }

    pub fn stdout_log(&self, config: &Config) -> (r: String)
        ensures
            r@ == join(self.package.spec_log_dir(config.build_dir@), "stdout.log"@),
    {
        self.package.stdout_log(config)
    }

    pub fn stderr_log(&self, config: &Config) -> (r: String)
        ensures
            r@ == join(self.package.spec_log_dir(config.build_dir@), "stderr.log"@),
    {
        self.package.stderr_log(config)
    }

    pub fn artifact_path(&self, config: &Config) -> (r: String)
        ensures
            r@ == self.package.spec_artifact(config.build_dir@),
    {
        self.package.artifact_path(config)
    }

    pub fn tar_path(&self, config: &Config) -> (r: String)
        ensures
            r@ == self.package.spec_tar(config.build_dir@),
    {
        self.package.tar_path(config)
    }

    pub fn info(&self) -> (r: String)
        ensures
            r@ == self.package.name@ + " "@ + self.package.version.text() + " "@ + debug_list(
                strs(self.package.license@),
            ) + "\n"@ + self.package.description@,
    {
        self.package.info()
    }

    pub fn file_path(src: &str) -> (r: Result<String, PackageError>)
        ensures
            match file_name_of(src@) {
                Some(n) => r matches Ok(f) && f@ == n,
                None => r matches Err(PackageError::UnknownFilePath(u)) && u@ == src@,
            },
    {
        Package::file_path(src)
    }

    pub fn file_download_path(&self, config: &Config, src: &str) -> (r: Result<
        String,
        PackageError,
    >)
        ensures
            match file_name_of(src@) {
                Some(n) => r matches Ok(f) && f@ == join(
                    self.package.spec_download_dir(config.build_dir@),
                    n,
                ),
                None => r matches Err(PackageError::UnknownFilePath(u)) && u@ == src@,
            },
    {
        self.package.file_download_path(config, src)
    }
}

impl PackageError {
    /// The explanation shown to the user.
    pub open spec fn text(&self) -> Seq<char> {
        match self {
            PackageError::UnknownFilePath(a) => "could not determine file path from the URL: "@ + a@,
            PackageError::NeedsCheck => "the check step is required unless skip_check is true"@,
            PackageError::InvalidVersion(a, b) => "invalid version '"@ + a@ + "': "@ + b@,
        }
    }

    /// The explanation shown to the user, as `text` states.
    pub fn message(&self) -> (r: String)
        ensures
            r@ == self.text(),
    {
        let mut s = String::new();
        match self {
            PackageError::UnknownFilePath(a) => {
                push_str(&mut s, "could not determine file path from the URL: ");
                push_str(&mut s, a.as_str());
                assert(s@ =~= self.text());
            },
            PackageError::NeedsCheck => {
                push_str(&mut s, "the check step is required unless skip_check is true");
                assert(s@ =~= self.text());
            },
            PackageError::InvalidVersion(a, b) => {
                push_str(&mut s, "invalid version '");
                push_str(&mut s, a.as_str());
                push_str(&mut s, "': ");
                push_str(&mut s, b.as_str());
                assert(s@ =~= self.text());
            },
        }
        s
    }
}


/// The layout is a pure function of the build directory, the package name
/// and the version text: two packages that agree on those get the same
/// paths, for every directory and file of the layout, whatever else differs.
pub proof fn lemma_layout_deterministic(a: &Package, b: &Package, build_a: Seq<char>, build_b: Seq<char>)
    requires
        build_a == build_b,
        a.name@ == b.name@,
        a.version.text() == b.version.text(),
    ensures
        a.spec_base_dir(build_a) == b.spec_base_dir(build_b),
        a.spec_log_dir(build_a) == b.spec_log_dir(build_b),
        a.spec_build_dir(build_a) == b.spec_build_dir(build_b),
        a.spec_pkg_dir(build_a) == b.spec_pkg_dir(build_b),
        a.spec_download_dir(build_a) == b.spec_download_dir(build_b),
        a.spec_artifact(build_a) == b.spec_artifact(build_b),
        a.spec_tar(build_a) == b.spec_tar(build_b),
{
}


/// A variable name as recipes write it: non-empty, of identifier-continue
/// characters, none of them `$`.
pub open spec fn is_var_name(name: Seq<char>) -> bool {
    &&& name.len() > 0
    &&& forall|i: int| 0 <= i < name.len() ==> xid_continue(#[trigger] name[i]) && name[i] != '$'
}

/// `value` holds no `$` and none of the characters of `name`.
pub open spec fn value_apart(value: Seq<char>, name: Seq<char>) -> bool {
    forall|i: int| 0 <= i < value.len() ==> #[trigger] value[i] != '$' && !name.contains(value[i])
}

/// What substitution makes of a text that does not start with `key` but
/// with some other character.
proof fn lemma_subst_plain_head(t: Seq<char>, key: Seq<char>, value: Seq<char>)
    requires
        key.len() > 0,
        t.len() > 0,
        !has_prefix(t, key),
    ensures
        subst(t, key, value) == seq![t[0]] + subst(t.drop_first(), key, value),
{
}


/// A value apart from `name` holds none of the characters of a part `w`
/// of the name.
proof fn lemma_value_apart_chars(value: Seq<char>, name: Seq<char>, w: Seq<char>)
    requires
        value_apart(value, name),
        forall|i: int| 0 <= i < w.len() ==> name.contains(#[trigger] w[i]),
    ensures
        forall|i: int| 0 <= i < w.len() ==> !value.contains(#[trigger] w[i]),
{
    assert forall|i: int| 0 <= i < w.len() implies !value.contains(#[trigger] w[i]) by {
        if value.contains(w[i]) {
            let j = choose|j: int| 0 <= j < value.len() && value[j] == w[i];
            assert(name.contains(value[j]));
        }
    }
}

/// Substitution passes over a leading run of characters other than `$`.
proof fn lemma_subst_plain_prefix(t: Seq<char>, name: Seq<char>, value: Seq<char>, w: Seq<char>)
    requires
        has_prefix(t, w),
        forall|i: int| 0 <= i < w.len() ==> #[trigger] w[i] != '$',
    ensures
        subst(t, var_ref(name), value) == w + subst(t.skip(w.len() as int), var_ref(name), value),
    decreases w.len(),
{
    let key = var_ref(name);
    if w.len() == 0 {
        assert(t.skip(0) =~= t);
        assert(w + subst(t, key, value) =~= subst(t, key, value));
    } else {
        assert(t[0] == w[0]);
        assert(key[0] == '$');
        if has_prefix(t, key) {
            assert(t.take(key.len() as int)[0] == t[0]);
        }
        lemma_subst_plain_head(t, key, value);
        let t1 = t.drop_first();
        let w1 = w.drop_first();
        assert(t1.take(w1.len() as int) =~= t.take(w.len() as int).drop_first());
        assert forall|i: int| 0 <= i < w1.len() implies #[trigger] w1[i] != '$' by {
            assert(w1[i] == w[i + 1]);
        }
        lemma_subst_plain_prefix(t1, name, value, w1);
        assert(t1.skip(w1.len() as int) =~= t.skip(w.len() as int));
        assert(w =~= seq![w[0]] + w1);
    }
}

/// Every occurrence of `$name` in `t` is followed by an identifier-continue
/// character.
pub open spec fn guarded(t: Seq<char>, name: Seq<char>) -> bool {
    forall|p: int|
        0 <= p < t.len() && has_prefix(#[trigger] t.skip(p), var_ref(name)) ==> p + var_ref(name).len()
            < t.len() && xid_continue(t[p + var_ref(name).len()])
}

proof fn lemma_guarded_skip(s: Seq<char>, name: Seq<char>, k: int)
    requires
        guarded(s, name),
        0 <= k <= s.len(),
    ensures
        guarded(s.skip(k), name),
{
    let t = s.skip(k);
    assert forall|p: int| 0 <= p < t.len() && has_prefix(#[trigger] t.skip(p), var_ref(name)) implies p
        + var_ref(name).len() < t.len() && xid_continue(t[p + var_ref(name).len()]) by {
        assert(t.skip(p) =~= s.skip(k + p));
    }
}

/// When the text begins with `w` and then a character `c` that may
/// continue an identifier, substitution keeps `w` and puts `c` right after it.
proof fn lemma_subst_keeps_follow(t: Seq<char>, name: Seq<char>, value: Seq<char>, w: Seq<char>)
    requires
        !xid_continue('$'),
        has_prefix(t, w),
        w.len() < t.len(),
        xid_continue(t[w.len() as int]),
        forall|i: int| 0 <= i < w.len() ==> #[trigger] w[i] != '$',
    ensures
        w.len() < subst(t, var_ref(name), value).len(),
        subst(t, var_ref(name), value)[w.len() as int] == t[w.len() as int],
{
    let key = var_ref(name);
    lemma_subst_plain_prefix(t, name, value, w);
    let r = t.skip(w.len() as int);
    assert(r[0] == t[w.len() as int]);
    assert(key[0] == '$');
    if has_prefix(r, key) {
        assert(r.take(key.len() as int)[0] == r[0]);
    }
    lemma_subst_plain_head(r, key, value);
}

/// When the substituted text begins with `w` (non-empty, made of characters
/// of the name that are identifier-continue and not `$`, none of which the
/// value holds), the text before substitution began with `w` too.
proof fn lemma_subst_prefix_back(t: Seq<char>, name: Seq<char>, value: Seq<char>, w: Seq<char>)
    requires
        w.len() > 0,
        forall|i: int| 0 <= i < w.len() ==> !value.contains(#[trigger] w[i]),
        forall|i: int| 0 <= i < w.len() ==> xid_continue(#[trigger] w[i]) && w[i] != '$',
        has_prefix(subst(t, var_ref(name), value), w),
    ensures
        has_prefix(t, w),
    decreases t.len(),
{
    let key = var_ref(name);
    let out = subst(t, key, value);
    assert(out.take(w.len() as int)[0] == w[0]);
    if t.len() == 0 {
    } else if has_prefix(t, key) {
        let rest = t.skip(key.len() as int);
        if rest.len() > 0 && xid_continue(rest[0]) {
            assert(out[0] == key[0]);
            assert(key[0] == '$');
        } else if value.len() > 0 {
            assert(out[0] == value[0]);
            assert(value.contains(w[0]));
        } else {
            assert(out =~= subst(rest, key, value));
            lemma_subst_prefix_back(rest, name, value, w);
            assert(rest.take(w.len() as int)[0] == w[0]);
        }
    } else {
        lemma_subst_plain_head(t, key, value);
        let t1 = t.drop_first();
        assert(out[0] == t[0]);
        if w.len() > 1 {
            let w1 = w.drop_first();
            assert(subst(t1, key, value).take(w1.len() as int) =~= out.take(w.len() as int).drop_first());
            assert forall|i: int| 0 <= i < w1.len() implies !value.contains(#[trigger] w1[i]) by {
                assert(w1[i] == w[i + 1]);
            }
            assert forall|i: int| 0 <= i < w1.len() implies xid_continue(#[trigger] w1[i]) && w1[i] != '$' by {
                assert(w1[i] == w[i + 1]);
            }
            lemma_subst_prefix_back(t1, name, value, w1);
            assert(t.take(w.len() as int) =~= seq![t[0]] + t1.take(w1.len() as int));
            assert(w =~= seq![w[0]] + w1);
        } else {
            assert(t.take(w.len() as int) =~= seq![t[0]]);
            assert(w =~= seq![w[0]]);
        }
    }
}

/// Substituting a variable leaves no occurrence of it behind but where an
/// identifier-continue character follows: after `$K` is replaced by a
/// value that holds no `$` and no character of the name `K`, every `$K`
/// left in the text is followed by an identifier-continue character. (This
/// rests on `$` not being an identifier-continue character, as Unicode has
/// it.)
pub proof fn lemma_subst_leaves_guarded_only(s: Seq<char>, name: Seq<char>, value: Seq<char>, p: int)
    requires
        is_var_name(name),
        value_apart(value, name),
        !xid_continue('$'),
        0 <= p < subst(s, var_ref(name), value).len(),
        has_prefix(subst(s, var_ref(name), value).skip(p), var_ref(name)),
    ensures
        p + var_ref(name).len() < subst(s, var_ref(name), value).len(),
        xid_continue(subst(s, var_ref(name), value)[p + var_ref(name).len()]),
    decreases s.len(),
{
    let key = var_ref(name);
    let n = key.len() as int;
    let out = subst(s, key, value);
    assert(key[0] == '$');
    assert(out.skip(p).take(n)[0] == '$');
    assert(out[p] == '$');
    if s.len() == 0 {
    } else if has_prefix(s, key) {
        let rest = s.skip(n);
        let x = if rest.len() > 0 && xid_continue(rest[0]) {
            key
        } else {
            value
        };
        let tail = subst(rest, key, value);
        assert(out == x + tail);
        if p >= x.len() {
            assert(tail.skip(p - x.len()) =~= out.skip(p));
            lemma_subst_leaves_guarded_only(rest, name, value, p - x.len());
            assert(out[p + n] == tail[p - x.len() + n]);
        } else if x == key {
            assert(out[p] == key[p]);
            if p > 0 {
                assert(key[p] == name[p - 1]);
            }
            assert(p == 0);
            if has_prefix(rest, key) {
                assert(rest.take(n)[0] == rest[0]);
                assert(rest[0] == '$');
            } else {
                lemma_subst_plain_head(rest, key, value);
                assert(tail[0] == rest[0]);
                assert(out[n] == tail[0]);
            }
        } else {
            assert(out[p] == value[p]);
        }
    } else {
        lemma_subst_plain_head(s, key, value);
        let t = s.drop_first();
        let tail = subst(t, key, value);
        assert(out =~= seq![s[0]] + tail);
        if p >= 1 {
            assert(tail.skip(p - 1) =~= out.skip(p));
            lemma_subst_leaves_guarded_only(t, name, value, p - 1);
            assert(out[p + n] == tail[p - 1 + n]);
        } else {
            assert(s[0] == '$');
            assert(tail.take(name.len() as int) =~= out.skip(p).take(n).drop_first());
            assert(out.skip(p).take(n).drop_first() =~= name);
            lemma_value_apart_chars(value, name, name);
            lemma_subst_prefix_back(t, name, value, name);
            assert(s.take(n) =~= seq![s[0]] + t.take(name.len() as int));
            assert(s.take(n) =~= key);
        }
    }
}


/// Substituting `$n2` keeps every `$n1` of the text guarded, when `n1` and
/// `n2` are different variable names and the value holds no `$` and no
/// character of `n1`.
proof fn lemma_subst_other_at(s: Seq<char>, n1: Seq<char>, n2: Seq<char>, v2: Seq<char>, p: int)
    requires
        is_var_name(n1),
        is_var_name(n2),
        n1 != n2,
        value_apart(v2, n1),
        !xid_continue('$'),
        guarded(s, n1),
        0 <= p < subst(s, var_ref(n2), v2).len(),
        has_prefix(subst(s, var_ref(n2), v2).skip(p), var_ref(n1)),
    ensures
        p + var_ref(n1).len() < subst(s, var_ref(n2), v2).len(),
        xid_continue(subst(s, var_ref(n2), v2)[p + var_ref(n1).len()]),
    decreases s.len(),
{
    let k1 = var_ref(n1);
    let k2 = var_ref(n2);
    let n = k1.len() as int;
    let out = subst(s, k2, v2);
    assert(k1[0] == '$');
    assert(k2[0] == '$');
    assert(out.skip(p).take(n)[0] == '$');
    assert(out[p] == '$');
    if s.len() == 0 {
    } else if has_prefix(s, k2) {
        let rest = s.skip(k2.len() as int);
        let keep = rest.len() > 0 && xid_continue(rest[0]);
        let x = if keep {
            k2
        } else {
            v2
        };
        let tail = subst(rest, k2, v2);
        assert(out == x + tail);
        if p >= x.len() {
            lemma_guarded_skip(s, n1, k2.len() as int);
            assert(tail.skip(p - x.len()) =~= out.skip(p));
            lemma_subst_other_at(rest, n1, n2, v2, p - x.len());
            assert(out[p + n] == tail[p - x.len() + n]);
        } else if keep {
            assert(out[p] == k2[p]);
            if p > 0 {
                assert(k2[p] == n2[p - 1]);
            }
            assert(p == 0);
            assert(out.skip(0) =~= out);
            assert(out.take(n) == k1);
            if n1.len() < n2.len() {
                assert(out[n] == k2[n]);
                assert(k2[n] == n2[n - 1]);
            } else if n1.len() == n2.len() {
                assert(out.take(n) =~= k2);
                assert(n1 =~= k1.drop_first());
                assert(n2 =~= k2.drop_first());
            } else {
                let w = k1.skip(k2.len() as int);
                assert(k1.take(k2.len() as int) =~= out.take(k2.len() as int));
                assert(out.take(k2.len() as int) =~= k2);
                assert(tail.take(w.len() as int) =~= out.take(n).skip(k2.len() as int));
                assert forall|i: int| 0 <= i < w.len() implies n1.contains(#[trigger] w[i]) by {
                    assert(w[i] == n1[n2.len() + i]);
                }
                assert forall|i: int| 0 <= i < w.len() implies xid_continue(#[trigger] w[i]) && w[i] != '$' by {
                    assert(w[i] == n1[n2.len() + i]);
                }
                lemma_value_apart_chars(v2, n1, w);
                lemma_subst_prefix_back(rest, n2, v2, w);
                assert(s.take(n) =~= k2 + rest.take(w.len() as int));
                assert(k1 =~= k2 + w);
                assert(s.skip(0) =~= s);
                assert(has_prefix(s.skip(0), k1));
                assert(rest[w.len() as int] == s[n]);
                lemma_subst_keeps_follow(rest, n2, v2, w);
                assert(out[n] == tail[w.len() as int]);
            }
        } else {
            assert(out[p] == v2[p]);
        }
    } else {
        lemma_subst_plain_head(s, k2, v2);
        let t = s.drop_first();
        let tail = subst(t, k2, v2);
        assert(out =~= seq![s[0]] + tail);
        if p >= 1 {
            lemma_guarded_skip(s, n1, 1);
            assert(s.skip(1) =~= t);
            assert(tail.skip(p - 1) =~= out.skip(p));
            lemma_subst_other_at(t, n1, n2, v2, p - 1);
            assert(out[p + n] == tail[p - 1 + n]);
        } else {
            assert(s[0] == '$');
            assert(tail.take(n1.len() as int) =~= out.skip(p).take(n).drop_first());
            assert(out.skip(p).take(n).drop_first() =~= n1);
            assert forall|i: int| 0 <= i < n1.len() implies n1.contains(#[trigger] n1[i]) by {
            }
            lemma_value_apart_chars(v2, n1, n1);
            lemma_subst_prefix_back(t, n2, v2, n1);
            assert(s.take(n) =~= seq![s[0]] + t.take(n1.len() as int));
            assert(s.take(n) =~= k1);
            assert(s.skip(0) =~= s);
            assert(t[n1.len() as int] == s[n]);
            lemma_subst_keeps_follow(t, n2, v2, n1);
            assert(out[n] == tail[n1.len() as int]);
        }
    }
}

/// One substitution step keeps `$n1` guarded: the step for `n1` itself
/// makes it so, and a step for another name keeps it so.
proof fn lemma_subst_step_guarded(s: Seq<char>, n1: Seq<char>, n2: Seq<char>, v2: Seq<char>)
    requires
        is_var_name(n1),
        is_var_name(n2),
        value_apart(v2, n1),
        !xid_continue('$'),
        n1 != n2 ==> guarded(s, n1),
    ensures
        guarded(subst(s, var_ref(n2), v2), n1),
{
    let out = subst(s, var_ref(n2), v2);
    assert forall|p: int| 0 <= p < out.len() && has_prefix(#[trigger] out.skip(p), var_ref(n1)) implies p
        + var_ref(n1).len() < out.len() && xid_continue(out[p + var_ref(n1).len()]) by {
        if n1 == n2 {
            lemma_subst_leaves_guarded_only(s, n1, v2, p);
        } else {
            lemma_subst_other_at(s, n1, n2, v2, p);
        }
    }
}

/// Every binding of `env` has a variable name.
pub open spec fn all_var_names(env: Seq<(Seq<char>, Seq<char>)>) -> bool {
    forall|j: int| 0 <= j < env.len() ==> is_var_name(#[trigger] env[j].0)
}

/// `v` holds no `$` and no character of any name bound in `env`.
pub open spec fn apart_from_all(v: Seq<char>, env: Seq<(Seq<char>, Seq<char>)>) -> bool {
    forall|j: int| 0 <= j < env.len() ==> value_apart(v, #[trigger] env[j].0)
}

/// Each value of `env` is apart from every name of `env`.
pub open spec fn values_apart(env: Seq<(Seq<char>, Seq<char>)>) -> bool {
    forall|j: int| 0 <= j < env.len() ==> apart_from_all(#[trigger] env[j].1, env)
}

proof fn lemma_env_guarded(s: Seq<char>, env: Seq<(Seq<char>, Seq<char>)>, i: int)
    requires
        all_var_names(env),
        values_apart(env),
        !xid_continue('$'),
        0 <= i < env.len(),
    ensures
        guarded(subst_env(s, env), env[i].0),
    decreases env.len(),
{
    let d = env.drop_last();
    let last = env.last();
    assert(all_var_names(d)) by {
        assert forall|j: int| 0 <= j < d.len() implies is_var_name(#[trigger] d[j].0) by {
            assert(d[j] == env[j]);
        }
    }
    assert(values_apart(d)) by {
        assert forall|j: int| 0 <= j < d.len() implies apart_from_all(#[trigger] d[j].1, d) by {
            assert(d[j] == env[j]);
            assert(apart_from_all(env[j].1, env));
            assert forall|m: int| 0 <= m < d.len() implies value_apart(d[j].1, #[trigger] d[m].0) by {
                assert(d[m] == env[m]);
            }
        }
    }
    assert(is_var_name(last.0));
    assert(apart_from_all(last.1, env));
    assert(value_apart(last.1, env[i].0));
    assert(value_apart(last.1, env[env.len() - 1].0));
    if i < env.len() - 1 {
        lemma_env_guarded(s, d, i);
        assert(d[i] == env[i]);
    }
    lemma_subst_step_guarded(subst_env(s, d), env[i].0, last.0, last.1);
}

proof fn lemma_loaded_text_guarded(raw: BuildFileRaw, i: int, t: Seq<char>)
    requires
        all_var_names(raw_env(raw)),
        values_apart(raw_env(raw)),
        apart_from_all(loaded_name(raw), raw_env(raw)),
        apart_from_all(loaded_version(raw), raw_env(raw)),
        !xid_continue('$'),
        is_var_name(name_var().drop_first()),
        is_var_name(version_var().drop_first()),
        0 <= i < raw_env(raw).len(),
    ensures
        guarded(loaded_text(raw, t), raw_env(raw)[i].0),
{
    let env = raw_env(raw);
    let k = env[i].0;
    assert(is_var_name(k));
    assert(value_apart(loaded_name(raw), k));
    assert(value_apart(loaded_version(raw), k));
    assert(name_var() =~= var_ref(name_var().drop_first()));
    assert(version_var() =~= var_ref(version_var().drop_first()));
    lemma_env_guarded(t, env, i);
    let a = subst_env(t, env);
    lemma_subst_step_guarded(a, k, name_var().drop_first(), loaded_name(raw));
    let b = subst(a, name_var(), loaded_name(raw));
    lemma_subst_step_guarded(b, k, version_var().drop_first(), loaded_version(raw));
}

/// Loading a recipe substitutes its declared variables completely: in the
/// name, version, description, licenses and sources of the loaded recipe,
/// an occurrence of `$K` for a declared variable `K` is left only where an
/// identifier-continue character follows it. This holds when every
/// variable is named by identifier characters, and the values, like the
/// substituted name and version, hold no `$` and no character of any
/// variable's name. (It rests on `$` not continuing identifiers and on
/// `name` and `version` being identifiers, as Unicode has them.)
pub proof fn lemma_load_substitutes_declared(raw: BuildFileRaw, i: int)
    requires
        all_var_names(raw_env(raw)),
        values_apart(raw_env(raw)),
        apart_from_all(loaded_name(raw), raw_env(raw)),
        apart_from_all(loaded_version(raw), raw_env(raw)),
        !xid_continue('$'),
        is_var_name(name_var().drop_first()),
        is_var_name(version_var().drop_first()),
        0 <= i < raw_env(raw).len(),
    ensures
        guarded(loaded_name(raw), raw_env(raw)[i].0),
        guarded(loaded_version(raw), raw_env(raw)[i].0),
        guarded(loaded_text(raw, raw.package.description@), raw_env(raw)[i].0),
        forall|j: int|
            0 <= j < raw.package.license@.len() ==> guarded(
                subst_env(#[trigger] raw.package.license@[j]@, raw_env(raw)),
                raw_env(raw)[i].0,
            ),
        forall|j: int|
            0 <= j < raw.package.source@.len() ==> guarded(
                loaded_text(raw, #[trigger] raw.package.source@[j]@),
                raw_env(raw)[i].0,
            ),
{
    let env = raw_env(raw);
    let k = env[i].0;
    assert(is_var_name(k));
    assert(value_apart(loaded_name(raw), k));
    assert(value_apart(loaded_version(raw), k));
    assert(name_var() =~= var_ref(name_var().drop_first()));
    assert(version_var() =~= var_ref(version_var().drop_first()));
    lemma_env_guarded(raw.package.name@, env, i);
    lemma_env_guarded(raw.package.version@, env, i);
    lemma_loaded_text_guarded(raw, i, raw.package.description@);
    assert forall|j: int| 0 <= j < raw.package.source@.len() implies guarded(
        loaded_text(raw, #[trigger] raw.package.source@[j]@),
        k,
    ) by {
        lemma_loaded_text_guarded(raw, i, raw.package.source@[j]@);
    }
    assert forall|j: int| 0 <= j < raw.package.license@.len() implies guarded(
        subst_env(#[trigger] raw.package.license@[j]@, env),
        k,
    ) by {
        lemma_env_guarded(raw.package.license@[j]@, env, i);
    }
}

} // verus!
