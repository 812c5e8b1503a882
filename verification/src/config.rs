use vstd::prelude::*;

verus! {

/// The whole rule set the repeater runs with, read once at startup.
#[derive(Debug, Clone)]
pub struct Config {
    pub mdns: Vec<MdnsConfig>,
}

/// One forwarding rule. Queries arriving on a `destinations` interface go
/// out on the `sources` interfaces; answers arriving on a `sources`
/// interface go out on the `destinations` interfaces. An empty `filters`
/// list matches every record name; a non-empty one matches only the names
/// it lists.
#[derive(Debug, Clone)]
pub struct MdnsConfig {
    pub destinations: Vec<String>,
    pub sources: Vec<String>,
    pub filters: Vec<String>,
}

} // verus!
