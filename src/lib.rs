//! Mirrors a three-level hierarchy of load balancers, their route
//! configurations and backend nodes from a paginated remote listing API
//! into a local store keyed by remote id.
pub mod limiter;
pub mod mirror;
pub mod model;
pub mod paging;
pub mod pipeline;
pub mod timestamp;
