//! Pieces of the capture middleware that do not depend on a framework.
use vstd::prelude::*;

pub mod request_id;
pub mod messages;
pub mod controller;
pub mod host_extract;

verus! {

} // verus!
