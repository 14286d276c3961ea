use vstd::prelude::*;

use crate::text::has_prefix;

verus! {

/// `candidate` is `base` itself, or lies below it: `base` is a prefix of it
/// that ends at a `/` boundary.
pub open spec fn within(candidate: Seq<char>, base: Seq<char>) -> bool {
    ||| candidate == base
    ||| {
        &&& base.len() < candidate.len()
        &&& candidate.take(base.len() as int) == base
        &&& (candidate[base.len() as int] == '/' || (base.len() > 0 && base.last() == '/'))
    }
}

/// Whether `candidate` lies in the subtree rooted at `base`: a purely textual
/// test on normalized absolute paths.
pub fn is_within(candidate: &str, base: &str) -> (r: bool)
    ensures
        r == within(candidate@, base@),
{
    if !has_prefix(candidate, base) {
        assert(!within(candidate@, base@)) by {
            if candidate@ == base@ {
                assert(candidate@.take(base@.len() as int) =~= base@);
            }
        }
        return false;
    }
    let n = base.unicode_len();
    let m = candidate.unicode_len();
    if n == m {
        assert(candidate@ =~= base@) by {
            assert(candidate@.take(n as int) =~= candidate@);
        }
        return true;
    }
    if candidate.get_char(n) == '/' {
        return true;
    }
    n > 0 && base.get_char(n - 1) == '/'
}

/// Whether the current directory `cwd` lies within the directory that a cache
/// recorded; with no cache there is nothing to lie within.
pub fn get_is_subdirectory_of_cached_cwd(cwd: &str, cached_cwd: Option<&str>) -> (r: bool)
    ensures
        r == (cached_cwd matches Some(d) && within(cwd@, d@)),
{
    match cached_cwd {
        Some(d) => is_within(cwd, d),
        None => false,
    }
}

/// Every path lies within itself.
pub proof fn lemma_within_reflexive(p: Seq<char>)
    ensures
        within(p, p),
{
}

/// A path made of `parent`, a separator and anything after lies within
/// `parent`.
pub proof fn lemma_within_child(parent: Seq<char>, rest: Seq<char>)
    ensures
        within(parent + seq!['/'] + rest, parent),
{
    let c = parent + seq!['/'] + rest;
    assert(c.take(parent.len() as int) =~= parent);
    assert(c[parent.len() as int] == '/');
}

/// A path shorter than `base`, such as one of its ancestors, does not lie
/// within it.
pub proof fn lemma_not_within_ancestor(candidate: Seq<char>, base: Seq<char>)
    requires
        candidate.len() < base.len(),
    ensures
        !within(candidate, base),
{
}

/// Two different entries of one directory do not lie within each other.
pub proof fn lemma_not_within_sibling(parent: Seq<char>, a: Seq<char>, b: Seq<char>)
    requires
        a != b,
        a.len() > 0,
        b.len() > 0,
        forall|i: int| 0 <= i < a.len() ==> a[i] != '/',
        forall|i: int| 0 <= i < b.len() ==> b[i] != '/',
    ensures
        !within(parent + seq!['/'] + a, parent + seq!['/'] + b),
{
    let p = parent + seq!['/'];
    let c = p + a;
    let base = p + b;
    if c == base {
        assert(c.skip(p.len() as int) =~= a);
        assert(base.skip(p.len() as int) =~= b);
    }
    if base.len() < c.len() && c.take(base.len() as int) == base {
        let k = base.len() as int;
        assert(c[k] == a[k - p.len()]);
        assert(base.last() == b[b.len() - 1]);
    }
}

} // verus!
