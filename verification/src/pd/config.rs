use vstd::prelude::*;
use std::path::PathBuf;

verus! {

#[verifier::external_type_specification]
#[verifier::external_body]
pub struct ExPathBuf(PathBuf);

/// Settings of the placement driver.
#[derive(Debug)]
pub struct PdConfig {
    pub cluster_id: u64,
    pub grpc_addr: String,
    pub http_addr: String,
    pub data_dir: PathBuf,
    pub advertise_client_urls: Vec<String>,
    pub advertise_peer_urls: Vec<String>,
}

impl PdConfig {
    pub fn new(
        cluster_id: u64,
        grpc_addr: String,
        http_addr: String,
        data_dir: PathBuf,
        advertise_client_urls: Vec<String>,
        advertise_peer_urls: Vec<String>,
    ) -> (r: Self)
        ensures
            r.cluster_id == cluster_id,
            r.grpc_addr@ == grpc_addr@,
            r.http_addr@ == http_addr@,
            r.data_dir == data_dir,
            r.advertise_client_urls@ == advertise_client_urls@,
            r.advertise_peer_urls@ == advertise_peer_urls@,
    {
        PdConfig {
            cluster_id,
            grpc_addr,
            http_addr,
            data_dir,
            advertise_client_urls,
            advertise_peer_urls,
        }
    }
}

} // verus!
