//! The central service's own configuration.

use crate::text::texts;
use vstd::prelude::*;

verus! {

/// Where the configuration lies unless the environment says otherwise.
pub const DEFAULT_CONFIG_PATH: &'static str =
    "/Users/hanxiaoqing/log-searching/logs_filter/config/config.yaml";

/// The addresses that the central service connects to.
#[derive(Debug, Clone, PartialEq, Eq)]
pub struct ConnectIps {
    /// The address of the search backend.
    pub elasticsearch: String,
    /// The addresses of the edge agents, each as `host:port`.
    pub log_source_edges: Vec<String>,
}

/// The configuration document of the central service.
#[derive(Debug, Clone, PartialEq, Eq)]
pub struct Config {
    pub connect_ips: ConnectIps,
}

/// The path of the configuration: the one that the environment binds, or
/// the default where it binds none.
pub fn config_path(bound: Option<String>) -> (r: String)
    ensures
        r@ == match bound {
            Some(path) => path@,
            None => DEFAULT_CONFIG_PATH@,
        },
{
    match bound {
        Some(path) => path,
        None => DEFAULT_CONFIG_PATH.to_owned(),
    }
}

impl Config {
    /// The address of the search backend.
    pub fn search_backend(&self) -> (r: String)
        ensures
            r@ == self.connect_ips.elasticsearch@,
    {
        self.connect_ips.elasticsearch.clone()
    }

    /// The addresses of the edge agents, in the order of the configuration.
    pub fn edges(&self) -> (r: Vec<String>)
        ensures
            texts(r@) == texts(self.connect_ips.log_source_edges@),
    {
        crate::text::copy_texts(&self.connect_ips.log_source_edges)
    }
}

} // verus!
