//! Settings shared by every role.
use vstd::prelude::*;

verus! {

/// Transport name and optional route cache location.
#[derive(Debug, Clone)]
pub struct CommonConfig {
    pub transport: String,
    pub route_cache_path: Option<String>,
}

} // verus!
