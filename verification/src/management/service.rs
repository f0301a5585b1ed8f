//! Recognising the MCP service among the running processes.
use vstd::prelude::*;

use crate::fields::{contains_text, occurs_at};

verus! {

/// The file name of the MCP service's program.
pub const SERVICE_IMAGE: &'static str = "AISkillBox-mcp.exe";

/// Whether a process listing (the output of `tasklist` filtered on the
/// service's image name) shows the service: the image name occurs in it.
pub fn listing_shows_service(listing: &str) -> (r: bool)
    ensures
        r == exists|i: int| occurs_at(listing@, SERVICE_IMAGE@, i),
{
    contains_text(listing, SERVICE_IMAGE)
}

} // verus!
