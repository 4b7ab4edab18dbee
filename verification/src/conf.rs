//! The client SDK's bootstrap configuration: server addresses, the service
//! descriptor, subscribed config ids and namespace tokens, and the load
//! balancing strategy names.

use vstd::prelude::*;
use vstd::string::StringExecFns;

use crate::digest::{md5_hex, md5_hex_of};
use crate::text::{endpoint_key, spec_endpoint_key};
use vstd::utf8::encode_utf8;

verus! {

/// Where the servers are: one address, a cluster list, or not yet set.
pub enum ServerAddr {
    Single(String),
    Cluster(Vec<String>),
    Unset,
}

/// Relies on rand::random_range: a uniform draw below the bound.
#[verifier::external_body]
fn random_below(n: usize) -> (r: usize)
    requires
        n > 0,
    ensures
        r < n,
{
    rand::random_range(0..n)
}

impl Default for ServerAddr {
    /// An address starts out unset.
    fn default() -> (r: ServerAddr)
        ensures
            r is Unset,
    {
        ServerAddr::Unset
    }
}

impl ServerAddr {
    /// The URL of one endpoint: a single address is always used; from a
    /// cluster one address is drawn at random, so retries re-select. An
    /// unset address is an error.
    pub fn build_url(&self, path: &str) -> (r: Result<String, ()>)
        requires
            self is Cluster ==> self->Cluster_0@.len() > 0,
        ensures
            match r {
                Ok(u) => match self {
                    ServerAddr::Single(a) => u@ == "http://"@ + a@ + path@,
                    ServerAddr::Cluster(addrs) => exists|i: int|
                        0 <= i < addrs@.len() && u@ == "http://"@ + (#[trigger] addrs@[i])@
                            + path@,
                    ServerAddr::Unset => false,
                },
                Err(_) => self is Unset,
            },
    {
        match self {
            ServerAddr::Single(a) => {
                let mut s = "http://".to_owned();
                s.append(a.as_str());
                s.append(path);
                Ok(s)
            },
            ServerAddr::Cluster(addrs) => {
                let i = random_below(addrs.len());
                let mut s = "http://".to_owned();
                s.append(addrs[i].as_str());
                s.append(path);
                proof {
                    assert(s@ == "http://"@ + addrs@[i as int]@ + path@);
                }
                Ok(s)
            },
            ServerAddr::Unset => Err(()),
        }
    }
}

/// The client's own endpoint, registered as the service instance.
pub struct ClientConfig {
    pub address: String,
    pub port: u16,
}

impl ClientConfig {
    /// The default listen address.
    pub fn default_address() -> (r: String)
        ensures
            r@ == "127.0.0.1"@,
    {
        "127.0.0.1".to_owned()
    }

    /// The deterministic instance id of this client, the MD5 hex of
    /// `address:port`; registering twice yields the same id.
    pub fn gen_instance_id(&self) -> (r: String)
        ensures
            r@ == md5_hex_of(encode_utf8(spec_endpoint_key(self.address@, self.port as int))),
    {
        let key = endpoint_key(self.address.as_str(), self.port);
        md5_hex(key.as_str())
    }
}

impl Default for ClientConfig {
    /// The default client endpoint.
    fn default() -> (r: ClientConfig)
        ensures
            r.address@ == "127.0.0.1"@,
            r.port == 8080,
    {
        ClientConfig { address: ClientConfig::default_address(), port: 8080 }
    }
}

/// The config-center section of the bootstrap file.
pub struct ConfigConfig {
    pub server_addr: ServerAddr,
    pub namespace: String,
    pub config_ids: Vec<String>,
    pub auth_token: Option<String>,
}

impl ConfigConfig {
    /// The default namespace.
    pub fn default_namespace() -> (r: String)
        ensures
            r@ == "public"@,
    {
        "public".to_owned()
    }
}

/// The discovery section of the bootstrap file.
pub struct DiscoveryConfig {
    pub server_addr: ServerAddr,
    pub namespace: String,
    pub meta: Vec<(String, String)>,
    pub auth_token: Option<String>,
}

impl DiscoveryConfig {
    /// The default namespace.
    pub fn default_namespace() -> (r: String)
        ensures
            r@ == "public"@,
    {
        "public".to_owned()
    }
}

/// The whole bootstrap configuration.
pub struct ConRegConfig {
    pub service_id: String,
    pub client: ClientConfig,
    pub config: Option<ConfigConfig>,
    pub discovery: Option<DiscoveryConfig>,
}

/// How an outbound call picks among a service's instances.
pub enum LoadBalanceStrategy {
    RoundRobin,
    WeightedRoundRobin,
    Random,
    WeightedRandom,
}

impl Default for LoadBalanceStrategy {
    /// Unconfigured services are balanced at random.
    fn default() -> (r: LoadBalanceStrategy)
        ensures
            r is Random,
    {
        LoadBalanceStrategy::Random
    }
}

impl LoadBalanceStrategy {
    /// The URL scheme that forces this strategy.
    pub fn as_schema(&self) -> (r: &'static str)
        ensures
            r@ == match self {
                LoadBalanceStrategy::RoundRobin => "lb-rr"@,
                LoadBalanceStrategy::WeightedRoundRobin => "lb-wrr"@,
                LoadBalanceStrategy::Random => "lb-r"@,
                LoadBalanceStrategy::WeightedRandom => "lb-wr"@,
            },
    {
        match self {
            LoadBalanceStrategy::RoundRobin => "lb-rr",
            LoadBalanceStrategy::WeightedRoundRobin => "lb-wrr",
            LoadBalanceStrategy::Random => "lb-r",
            LoadBalanceStrategy::WeightedRandom => "lb-wr",
        }
    }
}

} // verus!
