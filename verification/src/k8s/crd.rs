//! The address pools of the cluster.

use vstd::prelude::*;

verus! {

#[derive(Debug)]
pub struct CiliumLoadBalancerIPPoolSpec {
    pub blocks: Vec<CiliumLoadBalancerIPPoolIPBlock>,
}

#[derive(Debug)]
pub struct CiliumLoadBalancerIPPoolIPBlock {
    pub cidr: Option<String>,
}

} // verus!
