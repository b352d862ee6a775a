use vstd::prelude::*;

verus! {

/// A load balancer as the remote API lists it.
#[derive(Debug, Clone, PartialEq, Eq)]
pub struct Balancer {
    pub id: u64,
    pub ipv4: String,
    pub region: String,
    pub cluster_id: u64,
}

/// A traffic-routing configuration of one balancer.
#[derive(Debug, Clone, PartialEq, Eq)]
pub struct RouteConfig {
    pub id: u64,
    pub balancer_id: u64,
    pub algorithm: String,
    pub port: u64,
    pub check_up: u64,
    pub check_down: u64,
}

/// A backend node targeted by one route configuration.
#[derive(Debug, Clone, PartialEq, Eq)]
pub struct Node {
    pub id: u64,
    pub config_id: u64,
    pub address: String,
    pub status: String,
}

/// One entity of any of the three tiers, as handed to the mirror writer.
#[derive(Debug, Clone, PartialEq, Eq)]
pub enum Record {
    Balancer(Balancer),
    Config(RouteConfig),
    Node(Node),
}

/// One decoded page of a listing: `{data, page, pages, results}`.
#[derive(Debug, Clone)]
pub struct Listing<T> {
    pub data: Vec<T>,
    pub page: u64,
    pub pages: u64,
    pub results: u64,
}

/// One of the three hierarchy levels of the discovery pipeline.
#[derive(Debug, Clone, Copy, PartialEq, Eq, Structural)]
pub enum Tier {
    Balancers,
    Configs,
    Nodes,
}

/// Why a listing request produced no usable page.
#[derive(Debug, Clone, Copy, PartialEq, Eq, Structural)]
pub enum RemoteError {
    /// The remote answered with this non-success HTTP status.
    Status(u16),
    /// The payload could not be decoded as a listing envelope.
    Malformed,
}

} // verus!
