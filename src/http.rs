//! The HTTP codec: methods, versions, request heads and responses.
use vstd::prelude::*;

pub mod body;
pub mod cookie;
pub mod headers;
pub mod laws;
pub mod method;
pub mod mime;
pub mod parse;
pub mod request;
pub mod response;
pub mod text;

verus! {

} // verus!
