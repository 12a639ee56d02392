//! The sandbox rule: every path a request names is resolved to an absolute
//! path and held against the server's root directory.  Uploads and listings
//! fall back to the root itself when the path escapes; downloads refuse.

use vstd::prelude::*;
use vstd::slice::slice_to_vec;

verus! {

/// A requested path the server will not serve.
#[derive(Clone, Copy, Debug, PartialEq, Eq, Structural)]
pub enum PathError {
    /// The resolved absolute path is not a descendant of the root.
    OutsideRoot,
    /// The path names nothing, or not a regular file.
    NotFound,
}

/// Whether the absolute path `path` lies at or under the absolute path
/// `root`: the two are equal, or `path` extends `root` at a separator.
pub open spec fn spec_path_within(root: Seq<u8>, path: Seq<u8>) -> bool {
    path == root || (path.len() > root.len() && path.subrange(0, root.len() as int) == root
        && path[root.len() as int] == 47)
}

/// Decide [`spec_path_within`].
pub fn path_within(root: &Vec<u8>, path: &Vec<u8>) -> (r: bool)
    ensures
        r == spec_path_within(root@, path@),
{
    let n = root.len();
    if path.len() < n {
        return false;
    }
    for i in 0..n
        invariant
            n == root@.len(),
            n <= path@.len(),
            forall|j: int| 0 <= j < i ==> path@[j] == root@[j],
    {
        if path[i] != root[i] {
            proof {
                assert(path@ != root@);
                assert(path@.subrange(0, n as int)[i as int] != root@[i as int]);
            }
            return false;
        }
    }
    proof {
        assert(path@.subrange(0, n as int) =~= root@);
    }
    if path.len() == n {
        proof {
            assert(path@ =~= root@);
        }
        return true;
    }
    path[n] == 47
}

/// Where an upload or listing lands: the resolved path itself when it lies
/// under the root, the root itself otherwise.
pub fn resolve_under_root(root: &Vec<u8>, resolved: Vec<u8>) -> (r: Vec<u8>)
    ensures
        spec_path_within(root@, resolved@) ==> r@ == resolved@,
        !spec_path_within(root@, resolved@) ==> r@ == root@,
{
    if path_within(root, &resolved) {
        resolved
    } else {
        slice_to_vec(root.as_slice())
    }
}

/// Whether a download may touch the resolved path: only a descendant of the
/// root is served; anything else is refused, never read.
pub fn check_path_in_root(root: &Vec<u8>, resolved: &Vec<u8>) -> (r: Result<(), PathError>)
    ensures
        r is Ok <==> spec_path_within(root@, resolved@),
        !spec_path_within(root@, resolved@) ==> r == Err::<(), PathError>(PathError::OutsideRoot),
{
    if path_within(root, resolved) {
        Ok(())
    } else {
        Err(PathError::OutsideRoot)
    }
}

} // verus!
