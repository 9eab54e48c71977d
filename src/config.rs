//! What a run is asked to do, and with which settings.
use vstd::prelude::*;

use crate::package::strs;
use crate::text::chars_of;

verus! {

/// The subcommand and the recipe files it names.
#[derive(Debug)]
pub enum Action {
    /// Fetch the sources of each recipe.
    Download { pkgs: Vec<String> },
    /// Fetch, build and package each recipe.
    Build { pkgs: Vec<String> },
    /// Print a short description of each recipe.
    Describe { pkgs: Vec<String> },
}

/// Settings of one run.
#[derive(Debug)]
pub struct Config {
    /// Directory that holds the recipe files.
    pub pkgbuild_dir: String,
    /// Directory under which each recipe gets its own tree.
    pub build_dir: String,
    /// Reserved: logs are kept under each recipe's tree.
    pub log_dir: String,
    /// Accepted license identifiers.
    pub licenses: Vec<String>,
    pub verbose: bool,
    pub clobber: bool,
    pub fail_fast: bool,
    pub parallel_build: Option<u32>,
    pub parallel_download: Option<u32>,
    pub action: Action,
}

/// `a` sorts before `b`: character by character, by code point, with a
/// proper prefix first. (On UTF-8 text this is the byte order.)
pub open spec fn lex_lt(a: Seq<char>, b: Seq<char>) -> bool
    decreases a.len(),
{
    if a.len() == 0 {
        b.len() > 0
    } else if b.len() == 0 {
        false
    } else if a[0] != b[0] {
        a[0] < b[0]
    } else {
        lex_lt(a.drop_first(), b.drop_first())
    }
}

proof fn lemma_lex_irreflexive(a: Seq<char>)
    ensures
        !lex_lt(a, a),
    decreases a.len(),
{
    if a.len() > 0 {
        lemma_lex_irreflexive(a.drop_first());
    }
}

proof fn lemma_lex_total(a: Seq<char>, b: Seq<char>)
    ensures
        a == b || lex_lt(a, b) || lex_lt(b, a),
    decreases a.len(),
{
    if a.len() > 0 && b.len() > 0 && a[0] == b[0] {
        lemma_lex_total(a.drop_first(), b.drop_first());
        if a.drop_first() == b.drop_first() {
            assert(a =~= seq![a[0]] + a.drop_first());
            assert(b =~= seq![b[0]] + b.drop_first());
        }
    } else if a.len() == 0 && b.len() == 0 {
        assert(a =~= b);
    }
}

proof fn lemma_lex_trans(a: Seq<char>, b: Seq<char>, c: Seq<char>)
    requires
        lex_lt(a, b),
        lex_lt(b, c),
    ensures
        lex_lt(a, c),
    decreases a.len(),
{
    if a.len() > 0 && b.len() > 0 && c.len() > 0 && a[0] == b[0] && b[0] == c[0] {
        lemma_lex_trans(a.drop_first(), b.drop_first(), c.drop_first());
    }
}

proof fn lemma_lex_asym(a: Seq<char>, b: Seq<char>)
    requires
        lex_lt(a, b),
    ensures
        !lex_lt(b, a),
    decreases a.len(),
{
    if a.len() > 0 && b.len() > 0 && a[0] == b[0] {
        lemma_lex_asym(a.drop_first(), b.drop_first());
    }
}

fn lex_less(a: &Vec<char>, b: &Vec<char>) -> (r: bool)
    ensures
        r == lex_lt(a@, b@),
{
    let mut i: usize = 0;
    assert(a@.skip(0) =~= a@);
    assert(b@.skip(0) =~= b@);
    while i < a.len() && i < b.len() && a[i] == b[i]
        invariant
            i <= a@.len(),
            i <= b@.len(),
            lex_lt(a@.skip(i as int), b@.skip(i as int)) == lex_lt(a@, b@),
        decreases a@.len() - i,
    {
        assert(a@.skip(i as int).drop_first() =~= a@.skip(i + 1));
        assert(b@.skip(i as int).drop_first() =~= b@.skip(i + 1));
        i = i + 1;
    }
    proof {
        assert(a@.skip(0) =~= a@);
        assert(b@.skip(0) =~= b@);
    }
    if i == a.len() {
        i < b.len()
    } else if i == b.len() {
        false
    } else {
        a[i] < b[i]
    }
}

/// Every string of `v` sorts before every later one.
pub open spec fn strictly_sorted(v: Seq<Seq<char>>) -> bool {
    forall|i: int, j: int| 0 <= i < j < v.len() ==> lex_lt(#[trigger] v[i], #[trigger] v[j])
}

/// The distinct strings of `names`, in sorted order.
pub fn sorted_unique(names: &Vec<String>) -> (r: Vec<String>)
    ensures
        strictly_sorted(strs(r@)),
        forall|s: Seq<char>| strs(r@).contains(s) <==> strs(names@).contains(s),
{
    let mut out: Vec<String> = Vec::new();
    let mut keys: Vec<Vec<char>> = Vec::new();
    let mut n: usize = 0;
    while n < names.len()
        invariant
            n <= names@.len(),
            keys@.len() == out@.len(),
            forall|i: int| 0 <= i < keys@.len() ==> #[trigger] keys@[i]@ == out@[i]@,
            strictly_sorted(strs(out@)),
            forall|s: Seq<char>| strs(out@).contains(s) <==> strs(names@).take(n as int).contains(s),
        decreases names@.len() - n,
    {
        let x = chars_of(names[n].as_str());
        let mut i: usize = 0;
        while i < keys.len() && lex_less(&keys[i], &x)
            invariant
                i <= keys@.len(),
                keys@.len() == out@.len(),
                forall|k: int| 0 <= k < keys@.len() ==> #[trigger] keys@[k]@ == out@[k]@,
                forall|k: int| 0 <= k < i ==> lex_lt(#[trigger] out@[k]@, x@),
            decreases keys@.len() - i,
        {
            i = i + 1;
        }
        let ghost so = strs(out@);
        let ghost xs = x@;
        assert(strs(names@).take(n + 1) =~= strs(names@).take(n as int).push(names@[n as int]@));
        let dup = i < keys.len() && !lex_less(&x, &keys[i]);
        if dup {
            proof {
                lemma_lex_total(so[i as int], xs);
            }
            assert(so[i as int] == xs);
        } else {
            proof {
                if i < keys@.len() {
                    lemma_lex_total(so[i as int], xs);
                }
            }
            out.insert(i, names[n].clone());
            keys.insert(i, x);
            proof {
                let sn = strs(out@);
                assert(sn =~= so.insert(i as int, xs));
                assert forall|a: int, b: int| 0 <= a < b < sn.len() implies lex_lt(#[trigger] sn[a], #[trigger] sn[b]) by {
                    if b < i {
                    } else if a < i && b == i {
                    } else if a < i && b > i {
                        assert(lex_lt(so[a], xs));
                        if b - 1 > i {
                            lemma_lex_trans(xs, so[i as int], so[b - 1]);
                        }
                        lemma_lex_trans(so[a], xs, so[b - 1]);
                    } else if a == i {
                        lemma_lex_total(so[i as int], xs);
                        if b - 1 > i {
                            lemma_lex_trans(xs, so[i as int], so[b - 1]);
                        }
                    } else {
                        assert(sn[a] == so[a - 1] && sn[b] == so[b - 1]);
                    }
                }
                assert forall|k: int| 0 <= k < keys@.len() implies #[trigger] keys@[k]@ == out@[k]@ by {
                    if k < i {
                    } else if k == i {
                    } else {
                    }
                }
                assert forall|s: Seq<char>| sn.contains(s) <==> (so.contains(s) || s == xs) by {
                    if sn.contains(s) {
                        let j = choose|j: int| 0 <= j < sn.len() && sn[j] == s;
                        if j < i {
                            assert(so[j] == s);
                        } else if j > i {
                            assert(so[j - 1] == s);
                        }
                    }
                    if so.contains(s) {
                        let j = choose|j: int| 0 <= j < so.len() && so[j] == s;
                        if j < i {
                            assert(sn[j] == s);
                        } else {
                            assert(sn[j + 1] == s);
                        }
                    }
                    if s == xs {
                        assert(sn[i as int] == s);
                    }
                }
            }
        }
        proof {
            let sn = strs(out@);
            assert forall|s: Seq<char>| sn.contains(s) <==> strs(names@).take(n + 1).contains(s) by {
                let t = strs(names@).take(n as int);
                if t.push(xs).contains(s) && s != xs {
                    let j = choose|j: int| 0 <= j < t.len() + 1 && t.push(xs)[j] == s;
                    assert(t[j] == s);
                }
                if t.contains(s) {
                    let j = choose|j: int| 0 <= j < t.len() && t[j] == s;
                    assert(t.push(xs)[j] == s);
                }
                assert(t.push(xs)[t.len() as int] == xs);
                if dup && s == xs {
                    assert(so[i as int] == xs);
                }
            }
        }
        n = n + 1;
    }
    assert(strs(names@).take(n as int) =~= strs(names@));
    out
}

impl Action {
    /// The recipe files the action names.
    pub fn pkgs(&self) -> (r: &Vec<String>)
        ensures
            *r == match self {
                Action::Download { pkgs } => *pkgs,
                Action::Build { pkgs } => *pkgs,
                Action::Describe { pkgs } => *pkgs,
            },
    {
        match self {
            Action::Download { pkgs } => pkgs,
            Action::Build { pkgs } => pkgs,
            Action::Describe { pkgs } => pkgs,
        }
    }

    /// The recipe files to work on: each one named, once, in sorted order.
    pub fn package_names(&self) -> (r: Vec<String>)
        ensures
            strictly_sorted(strs(r@)),
            forall|s: Seq<char>| strs(r@).contains(s) <==> strs(self.pkgs_spec()@).contains(s),
    {
        sorted_unique(self.pkgs())
    }

    pub open spec fn pkgs_spec(&self) -> Vec<String> {
        match self {
            Action::Download { pkgs } => *pkgs,
            Action::Build { pkgs } => *pkgs,
            Action::Describe { pkgs } => *pkgs,
        }
    }
}

} // verus!
