//! What goes into an archive, and under which name.

use crate::paths::{join_path, path_join};
use crate::text::{opt, pieces, same, split, texts};
use vstd::prelude::*;

verus! {

/// Whether a file or directory of that name is left out: what was built can be built again.
pub open spec fn is_skipped(name: Seq<char>) -> bool {
    name == "target"@ || name == ".git"@
}

/// Whether a file or directory of that name is left out.
pub fn skipped(name: &str) -> (r: bool)
    ensures
        r == is_skipped(name@),
{
    same(name, "target") || same(name, ".git")
}

/// The name in an archive of what stands at `rel` under a directory that is packed as `name`:
/// none for the directory itself and for what is left out.
pub open spec fn archived(name: Seq<char>, rel: Seq<char>) -> Option<Seq<char>> {
    if rel.len() == 0 || exists|i: int|
        0 <= i < pieces(rel, '/').len() && is_skipped(#[trigger] pieces(rel, '/')[i]) {
        None
    } else {
        Some(path_join(name, rel))
    }
}

/// The name in an archive of what stands at `rel` under a directory that is packed as `name`.
pub fn archived_name(name: &str, rel: &str) -> (r: Option<String>)
    ensures
        opt(r) == archived(name@, rel@),
{
    if rel.is_empty() {
        return None;
    }
    let parts = split(rel, '/');
    let ghost all = pieces(rel@, '/');
    let mut i: usize = 0;
    while i < parts.len()
        invariant
            i <= parts@.len(),
            texts(parts@) == all,
            all == pieces(rel@, '/'),
            forall|j: int| 0 <= j < i ==> !is_skipped(#[trigger] all[j]),
        decreases parts@.len() - i,
    {
        assert(all[i as int] == parts@[i as int]@);
        if skipped(parts[i].as_str()) {
            assert(is_skipped(all[i as int]));
            return None;
        }
        i += 1;
    }
    Some(join_path(name, rel))
}

} // verus!
