//! Content-addressed resource resolver for shard-partitioned game-asset
//! archives: given one or two root content hashes it discovers and fetches the
//! full dependency closure, verifying every blob against its address, caching
//! verified bytes in memory for the run and on disk across runs, and fetching
//! each hash at most once.

pub mod backup;
pub mod db;
pub mod digest;
pub mod hexstr;
pub mod models;
pub mod paths;
pub mod resolver;
pub mod resrc;
pub mod store;
