//! The worker's configuration, loaded once at startup.
use vstd::prelude::*;

verus! {

#[derive(Debug)]
pub struct Settings {
    pub google_oauth_client_id: String,
    pub google_oauth_client_secret: String,
    /// URL for the etcd instance for cluster coordination. Only used if `clustered` is `true`.
    pub etcd_url: Option<String>,
    pub clustered: bool,
    pub node_name: String,
}

/// `clustered` is on unless the configuration turns it off.
pub fn clustered_default() -> (clustered: bool)
    ensures
        clustered,
{
    true
}

impl Settings {
    /// The coordination store to join: `etcd_url` when running clustered; `None` when not
    /// clustered or when no endpoint is set, in which case the node does not join a cluster.
    pub fn cluster_endpoint(&self) -> (endpoint: Option<&String>)
        ensures
            match endpoint {
                Some(url) => self.clustered && self.etcd_url == Some(*url),
                None => !self.clustered || self.etcd_url is None,
            },
    {
        if self.clustered {
            match &self.etcd_url {
                Some(url) => Some(url),
                None => None,
            }
        } else {
            None
        }
    }
}

} // verus!
