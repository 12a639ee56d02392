//! The per-request server handlers' state: each holds the absolute root
//! directory its requests are resolved under.  The handling itself is the
//! dispatch, path, codec and transfer logic of the other modules; the loop
//! that reads streams and performs file I/O drives it from outside.

use vstd::prelude::*;

verus! {

/// The listing handler's state.
pub struct LsCommandServer(pub Vec<u8>);

impl LsCommandServer {
    pub fn new(abs_root_dir: Vec<u8>) -> (r: Self)
        ensures
            r.0@ == abs_root_dir@,
    {
        LsCommandServer(abs_root_dir)
    }
}

/// The upload handler's state.
pub struct PutCommandServer(pub Vec<u8>);

impl PutCommandServer {
    pub fn new(abs_root_dir: Vec<u8>) -> (r: Self)
        ensures
            r.0@ == abs_root_dir@,
    {
        PutCommandServer(abs_root_dir)
    }
}

/// The download handler's state.
pub struct GetCommandServer(pub Vec<u8>);

impl GetCommandServer {
    pub fn new(abs_root_dir: Vec<u8>) -> (r: Self)
        ensures
            r.0@ == abs_root_dir@,
    {
        GetCommandServer(abs_root_dir)
    }
}

} // verus!
