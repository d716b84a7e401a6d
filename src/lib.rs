// Pre-execution core of a validator: a load balancer that routes each
// transaction to the consensus sink and to one proxy (round robin with
// failover), and per-proxy dependency tracking that orders transactions whose
// object footprints overlap.
use vstd::prelude::*;

pub mod dependency_controller;
pub mod footprint;
pub mod load_balancer;
pub mod proxy;

verus! {

} // verus!
