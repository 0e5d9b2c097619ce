//! The subgraph client: it builds the GraphQL request that fetches a
//! pool's state. Sending the request is the surrounding program's job.

use vstd::prelude::*;

use crate::data_source::{DataClient, PoolRequest};

verus! {

use vstd::string::StringExecFns;

/// The client for the subgraph data source.
#[derive(Debug, Clone, Copy, PartialEq, Eq, Structural)]
pub struct TheGraphClient;

impl TheGraphClient {
    pub fn new() -> (r: Self)
        ensures
            r == (TheGraphClient {  }),
    {
        Self {  }
    }
}

/// The pool query: fetches a pool's fee-growth counters, tokens and
/// current tick by pool id.
#[derive(Debug, Clone, Copy, PartialEq, Eq, Structural)]
pub struct GetPool;

impl GetPool {
    /// The GraphQL document of the pool query.
    pub fn query_document() -> (r: &'static str)
        ensures
            r@
                == "query ($id: ID!) { pool(id: $id) { id feeTier liquidity tick sqrtPrice token0Price token1Price feeGrowthGlobal0X128 feeGrowthGlobal1X128 totalValueLockedUSD token0 { id name symbol volumeUSD decimals totalValueLockedUSD poolCount } token1 { id name symbol volumeUSD decimals totalValueLockedUSD poolCount } } }"@,
    {
        "query ($id: ID!) { pool(id: $id) { id feeTier liquidity tick sqrtPrice token0Price token1Price feeGrowthGlobal0X128 feeGrowthGlobal1X128 totalValueLockedUSD token0 { id name symbol volumeUSD decimals totalValueLockedUSD poolCount } token1 { id name symbol volumeUSD decimals totalValueLockedUSD poolCount } } }"
    }

    /// The serialized request body of the pool query for one pool id: the
    /// document and the id wired into the variables object.
    pub fn build_query(id: &str) -> (r: String)
        ensures
            r@ == "{\"query\":\"query ($id: ID!) { pool(id: $id) { id feeTier liquidity tick sqrtPrice token0Price token1Price feeGrowthGlobal0X128 feeGrowthGlobal1X128 totalValueLockedUSD token0 { id name symbol volumeUSD decimals totalValueLockedUSD poolCount } token1 { id name symbol volumeUSD decimals totalValueLockedUSD poolCount } } }\",\"variables\":{\"id\":\""@
                + id@ + "\"}}"@,
    {
        let mut body = String::from_str(
            "{\"query\":\"query ($id: ID!) { pool(id: $id) { id feeTier liquidity tick sqrtPrice token0Price token1Price feeGrowthGlobal0X128 feeGrowthGlobal1X128 totalValueLockedUSD token0 { id name symbol volumeUSD decimals totalValueLockedUSD poolCount } token1 { id name symbol volumeUSD decimals totalValueLockedUSD poolCount } } }\",\"variables\":{\"id\":\"",
        );
        body.append(id);
        body.append("\"}}");
        body
    }
}

impl DataClient for TheGraphClient {
    fn pool_request(&self, subgraph_url: &str, id: &str) -> (r: PoolRequest) {
        PoolRequest { url: String::from_str(subgraph_url), body: GetPool::build_query(id) }
    }
}

} // verus!
