//! Paths as lists of components, for picking the files to work on.

use vstd::prelude::*;

verus! {

/// Whether the components of `path` from `start` on are those of `subpath`,
/// as far as `path` goes.
pub open spec fn continues_with(path: Seq<String>, subpath: Seq<String>, start: int) -> bool {
    forall|j: int|
        0 <= j < subpath.len() && start + j < path.len() ==> (#[trigger] path[start + j])@
            == subpath[j]@
}

/// Whether `subpath` stands in `path`, component by component, from some
/// component of `path` on. A `subpath` that `path` ends in the middle of
/// counts as well; in a `path` without components nothing stands.
pub open spec fn holds_subpath(path: Seq<String>, subpath: Seq<String>) -> bool {
    exists|start: int| 0 <= start < path.len() && continues_with(path, subpath, start)
}

/// Whether one of `skip_list` stands in `path`.
pub open spec fn is_skipped(path: Seq<String>, skip_list: Seq<Vec<String>>) -> bool {
    exists|k: int| 0 <= k < skip_list.len() && holds_subpath(path, (#[trigger] skip_list[k])@)
}

/// Whether the components of `path` from `start` on are those of `subpath`,
/// as far as `path` goes.
fn continues_at(path: &Vec<String>, subpath: &Vec<String>, start: usize) -> (b: bool)
    requires
        start <= path@.len(),
    ensures
        b == continues_with(path@, subpath@, start as int),
{
    let mut j: usize = 0;
    while j < subpath.len() && j < path.len() - start
        invariant
            start <= path@.len(),
            forall|i: int| 0 <= i < j ==> (#[trigger] path@[start + i])@ == subpath@[i]@,
        decreases subpath@.len() - j,
    {
        if path[start + j] != subpath[j] {
            return false;
        }
        j = j + 1;
    }
    true
}

/// Whether `subpath` stands in `path`, component by component.
pub fn is_subpath(path: &Vec<String>, subpath: &Vec<String>) -> (b: bool)
    ensures
        b == holds_subpath(path@, subpath@),
{
    for start in 0..path.len()
        invariant
            forall|i: int| 0 <= i < start ==> !continues_with(path@, subpath@, i),
    {
        if continues_at(path, subpath, start) {
            return true;
        }
    }
    false
}

/// Whether `path` is to be left out: one of `skip_list` stands in it.
pub fn is_file_skip(path: &Vec<String>, skip_list: &Vec<Vec<String>>) -> (b: bool)
    ensures
        b == is_skipped(path@, skip_list@),
{
    for k in 0..skip_list.len()
        invariant
            forall|i: int| 0 <= i < k ==> !holds_subpath(path@, (#[trigger] skip_list@[i])@),
    {
        if is_subpath(path, &skip_list[k]) {
            return true;
        }
    }
    false
}

} // verus!
