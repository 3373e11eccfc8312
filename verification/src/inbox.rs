//! Agent inbox requests: the list page bound and the clear request.
use vstd::prelude::*;

verus! {

/// Maximum number of items a single list request returns.
pub const MAX_PAGE_SIZE: u32 = 200;

/// Items a list request returns when it names no limit.
pub const DEFAULT_PAGE_SIZE: u32 = 50;

/// The page size of a list request: the requested limit (fifty when
/// absent), capped at [`MAX_PAGE_SIZE`].
pub fn inbox_page_limit(limit: Option<u32>) -> (n: u32)
    ensures
        n == ({
            let want = match limit { Some(l) => l, None => DEFAULT_PAGE_SIZE };
            if want < MAX_PAGE_SIZE { want } else { MAX_PAGE_SIZE }
        }),
{
    let want = match limit {
        Some(l) => l,
        None => DEFAULT_PAGE_SIZE,
    };
    if want < MAX_PAGE_SIZE { want } else { MAX_PAGE_SIZE }
}

/// Clear the inbox: done messages only, or all of them.
#[derive(Clone, Copy, Debug, PartialEq, Eq, Structural)]
pub struct ClearParams {
    pub all: bool,
}

impl Default for ClearParams {
    fn default() -> (r: ClearParams)
        ensures !r.all,
    {
        ClearParams { all: false }
    }
}

/// How many messages a clear removed.
#[derive(Clone, Copy, Debug, PartialEq, Eq, Structural)]
pub struct ClearResponse {
    pub cleared: usize,
}

} // verus!
