//! Ready-made responses for common routes.
use vstd::prelude::*;
use crate::http::response::{Response, ResponseView};

verus! {

/// A `301 Moved Permanently` to `location`.
pub fn redirect(location: &str) -> (r: Response)
    ensures
        r@ == (ResponseView { status: 301, headers: seq![("Location"@, location@)], body: Seq::empty() }),
{
    let r = Response::empty(301).with_header("Location", location);
    assert(r@.headers =~= seq![("Location"@, location@)]);
    r
}

} // verus!
