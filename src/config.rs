//! The settings the proxy starts from.
use vstd::prelude::*;

verus! {

/// Where spans are exported to.
pub struct TraceConfig {
    pub service_name: String,
    pub agent_endpoint: String,
}

/// The listener addresses and tracing settings of a proxy.
pub struct ServerConfig {
    pub bind_addresses: Vec<String>,
    pub trace: Option<TraceConfig>,
}

/// The address listened on when none is configured.
pub open spec fn default_bind_address() -> Seq<char> {
    "0.0.0.0:5353"@
}

impl ServerConfig {
    /// The settings read from a configuration source: the listed bind addresses,
    /// or the default address alone where the source names none.
    pub fn new(bind_addresses: Option<Vec<String>>, trace: Option<TraceConfig>) -> (r: ServerConfig)
        ensures
            r.trace == trace,
            match bind_addresses {
                Some(b) => r.bind_addresses@ == b@,
                None => r.bind_addresses@.len() == 1 && r.bind_addresses@[0]@ == default_bind_address(),
            },
    {
        let bind_addresses = match bind_addresses {
            Some(b) => b,
            None => {
                proof {
                    reveal_strlit("0.0.0.0:5353");
                }
                let mut b: Vec<String> = Vec::new();
                b.push("0.0.0.0:5353".to_owned());
                b
            },
        };
        ServerConfig { bind_addresses, trace }
    }
}

} // verus!
