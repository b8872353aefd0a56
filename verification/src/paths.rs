//! File paths as text, with `/` between their parts.

use crate::text::{chars_of, ends_with, opt, same, starts_with, string_of};
use vstd::prelude::*;
use vstd::string::StringExecFns;

verus! {

/// `rel` as seen from `base`. An absolute path is the same from everywhere.
pub open spec fn path_join(base: Seq<char>, rel: Seq<char>) -> Seq<char> {
    if "/"@.is_prefix_of(rel) {
        rel
    } else if base.len() == 0 || "/"@.is_suffix_of(base) {
        base + rel
    } else {
        base + "/"@ + rel
    }
}

/// `rel` as seen from `base`.
pub fn join_path(base: &str, rel: &str) -> (r: String)
    ensures
        r@ == path_join(base@, rel@),
{
    if starts_with(rel, "/") {
        rel.to_owned()
    } else if base.is_empty() || ends_with(base, "/") {
        base.to_owned().concat(rel)
    } else {
        base.to_owned().concat("/").concat(rel)
    }
}

/// The position behind the last slash of `path`.
pub open spec fn name_start(path: Seq<char>) -> int
    decreases path.len(),
{
    if path.len() == 0 || path.last() == '/' {
        path.len() as int
    } else {
        name_start(path.drop_last())
    }
}

/// The position behind the last slash lies in the path.
pub proof fn lemma_name_start(path: Seq<char>)
    ensures
        0 <= name_start(path) <= path.len(),
    decreases path.len(),
{
    if path.len() > 0 && path.last() != '/' {
        lemma_name_start(path.drop_last());
    }
}

/// What stands behind the last slash of `path`.
pub open spec fn file_name(path: Seq<char>) -> Seq<char> {
    path.skip(name_start(path))
}

/// What stands behind the last slash of `path`.
pub fn base_name(path: &str) -> (r: String)
    ensures
        r@ == file_name(path@),
{
    let v = chars_of(path);
    let n: usize = v.len();
    let mut i: usize = n;
    assert(v@.take(n as int) =~= v@);
    while i > 0 && v[i - 1] != '/'
        invariant
            i <= n == v@.len(),
            v@ == path@,
            name_start(v@.take(i as int)) == name_start(path@),
        decreases i,
    {
        assert(v@.take(i as int).drop_last() =~= v@.take(i - 1));
        i -= 1;
    }
    assert(v@.subrange(i as int, n as int) =~= path@.skip(i as int));
    string_of(v.as_slice(), i, n)
}

/// Whether `path` names a file with the given extension, which begins with a dot. A name that
/// is all extension has none.
pub open spec fn has_extension(path: Seq<char>, extension: Seq<char>) -> bool {
    extension.is_suffix_of(file_name(path)) && file_name(path).len() > extension.len()
}

/// Whether `path` names a file with the given extension.
pub fn extension_is(path: &str, extension: &str) -> (r: bool)
    ensures
        r == has_extension(path@, extension@),
{
    let name = base_name(path);
    ends_with(name.as_str(), extension) && chars_of(name.as_str()).len() > chars_of(
        extension,
    ).len()
}

/// `path` without the slashes that it ends with, but for one that is all of it.
pub open spec fn unslashed(path: Seq<char>) -> Seq<char>
    decreases path.len(),
{
    if path.len() > 1 && path.last() == '/' {
        unslashed(path.drop_last())
    } else {
        path
    }
}

fn unslash(v: &[char], n: usize) -> (m: usize)
    requires
        n <= v@.len(),
    ensures
        m <= n,
        v@.take(m as int) == unslashed(v@.take(n as int)),
{
    let mut m: usize = n;
    while m > 1 && v[m - 1] == '/'
        invariant
            m <= n <= v@.len(),
            unslashed(v@.take(m as int)) == unslashed(v@.take(n as int)),
        decreases m,
    {
        assert(v@.take(m as int).drop_last() =~= v@.take(m - 1));
        m -= 1;
    }
    m
}

/// The directory that holds what `path` names; none for the root and the empty path.
pub open spec fn parent_of(path: Seq<char>) -> Option<Seq<char>> {
    let p = unslashed(path);
    if p.len() == 0 || p == "/"@ {
        None
    } else {
        Some(unslashed(p.take(name_start(p))))
    }
}

/// The directory that holds what `path` names.
pub fn parent(path: &str) -> (r: Option<String>)
    ensures
        opt(r) == parent_of(path@),
{
    let v = chars_of(path);
    assert(v@.take(v@.len() as int) =~= v@);
    let m: usize = unslash(v.as_slice(), v.len());
    let p = string_of(v.as_slice(), 0, m);
    assert(p@ =~= v@.take(m as int));
    if m == 0 || same(p.as_str(), "/") {
        return None;
    }
    proof {
        lemma_name_start(p@);
    }
    let name = chars_of(base_name(p.as_str()).as_str());
    let start: usize = m - name.len();
    let w = chars_of(p.as_str());
    let k: usize = unslash(w.as_slice(), start);
    let head = string_of(w.as_slice(), 0, k);
    assert(head@ =~= w@.take(k as int));
    Some(head)
}

/// `url` without the slashes that it ends with.
pub open spec fn bare(url: Seq<char>) -> Seq<char>
    decreases url.len(),
{
    if url.len() > 0 && url.last() == '/' {
        bare(url.drop_last())
    } else {
        url
    }
}

/// `url` without the slashes that it ends with.
pub fn bare_url(url: &str) -> (r: String)
    ensures
        r@ == bare(url@),
{
    let v = chars_of(url);
    let mut m: usize = v.len();
    assert(v@.take(m as int) =~= v@);
    while m > 0 && v[m - 1] == '/'
        invariant
            m <= v@.len(),
            bare(v@.take(m as int)) == bare(v@),
        decreases m,
    {
        assert(v@.take(m as int).drop_last() =~= v@.take(m - 1));
        m -= 1;
    }
    assert(v@.subrange(0, m as int) =~= v@.take(m as int));
    string_of(v.as_slice(), 0, m)
}

/// `rel` without the slashes that it begins with.
pub open spec fn unrooted(rel: Seq<char>) -> Seq<char>
    decreases rel.len(),
{
    if rel.len() > 0 && rel[0] == '/' {
        unrooted(rel.skip(1))
    } else {
        rel
    }
}

/// `rel` without the slashes that it begins with.
pub fn unroot(rel: &str) -> (r: String)
    ensures
        r@ == unrooted(rel@),
{
    let v = chars_of(rel);
    let mut i: usize = 0;
    assert(v@.skip(0) =~= v@);
    while i < v.len() && v[i] == '/'
        invariant
            i <= v@.len(),
            v@ == rel@,
            unrooted(v@.skip(i as int)) == unrooted(rel@),
        decreases v@.len() - i,
    {
        assert(v@.skip(i as int).skip(1) =~= v@.skip(i + 1));
        i += 1;
    }
    assert(v@.subrange(i as int, v@.len() as int) =~= v@.skip(i as int));
    string_of(v.as_slice(), i, v.len())
}

} // verus!
