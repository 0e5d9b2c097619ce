//! Chooses the client that serves a data source.

use vstd::prelude::*;

use crate::data_source::DataSource;
use crate::thegraph::TheGraphClient;

verus! {

/// The client serving the given data source. Every supported source is
/// currently served by the subgraph client.
pub fn create_client(data_source: &DataSource) -> (r: TheGraphClient)
    ensures
        r == (TheGraphClient {  }),
{
    match data_source {
        DataSource::TheGraph => TheGraphClient::new(),
    }
}

} // verus!
