//! Paths as text: joining a relative part onto a directory, and containment
//! of one canonical path in another.
use vstd::prelude::*;

use crate::text::{chars_of, copy_str, has_prefix, push_char, push_str, starts_with};

verus! {

/// `part` placed under `base`: an absolute `part` stands alone; otherwise a
/// separator goes between the two unless `base` is empty or already ends
/// with one.
pub open spec fn join(base: Seq<char>, part: Seq<char>) -> Seq<char> {
    if part.len() > 0 && part[0] == '/' {
        part
    } else if base.len() == 0 || base.last() == '/' {
        base + part
    } else {
        base + seq!['/'] + part
    }
}

/// Joins `part` onto `base` as `join` states.
pub fn join_path(base: &str, part: &str) -> (r: String)
    ensures
        r@ == join(base@, part@),
{
    let b = chars_of(base);
    let p = chars_of(part);
    if p.len() > 0 && p[0] == '/' {
        return copy_str(part);
    }
    let mut s = copy_str(base);
    if !(b.len() == 0 || b[b.len() - 1] == '/') {
        push_char(&mut s, '/');
    }
    push_str(&mut s, part);
    s
}

/// `p` is `root` or lies beneath it. For canonical paths (absolute, with no
/// `.` or `..` components and no repeated or trailing separator) this is
/// the component-wise prefix relation.
pub open spec fn within(root: Seq<char>, p: Seq<char>) -> bool {
    p == root || (root.len() > 0 && root.last() == '/' && has_prefix(p, root)) || has_prefix(
        p,
        root + seq!['/'],
    )
}

/// Whether the canonical path `path` lies under the canonical path `root`.
pub fn is_within(root: &str, path: &str) -> (r: bool)
    ensures
        r == within(root@, path@),
{
    let rc = chars_of(root);
    let pc = chars_of(path);
    if !starts_with(pc.as_slice(), rc.as_slice()) {
        proof {
            let n = root@.len() as int;
            assert(root@.take(n) =~= root@);
            assert((root@ + seq!['/']).take(n) =~= root@);
            if has_prefix(path@, root@ + seq!['/']) {
                assert(path@.take(n) =~= path@.take(n + 1).take(n));
            }
        }
        return false;
    }
    if pc.len() == rc.len() {
        assert(path@ =~= path@.take(root@.len() as int));
        return true;
    }
    if rc.len() > 0 && rc[rc.len() - 1] == '/' {
        return true;
    }
    let sep = pc[rc.len()] == '/';
    proof {
        if sep {
            assert(path@.take(root@.len() + 1 as int) =~= root@ + seq!['/']);
        } else {
            assert(path@ != root@);
            if has_prefix(path@, root@ + seq!['/']) {
                assert(path@.take(root@.len() + 1 as int)[root@.len() as int] == '/');
            }
        }
    }
    sep
}

} // verus!
