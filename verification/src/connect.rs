use vstd::prelude::*;
use vstd::string::StringSliceAdditionalSpecFns;
use crate::capabilities::{
    resolve_capabilities, spec_default_capabilities, spec_resolve_capabilities, Capabilities,
};
use crate::endpoint::Options;

verus! {

/// An endpoint naming the in-memory engine by the `mem:` shorthand.
pub open spec fn is_memory_shorthand(b: Seq<u8>) -> bool {
    b.len() >= 4 && b[0] == 109 && b[1] == 101 && b[2] == 109 && b[3] == 58
}

/// Normalizes the endpoint string: the in-memory shorthand becomes the
/// engine's canonical `memory` endpoint, anything else names its backing
/// store unchanged.
pub fn normalize_endpoint(endpoint: &str) -> (r: String)
    ensures
        is_memory_shorthand(endpoint.spec_bytes()) ==> r@ == "memory"@,
        !is_memory_shorthand(endpoint.spec_bytes()) ==> r@ == endpoint@,
{
    let b = endpoint.as_bytes();
    if b.len() >= 4 && b[0] == 109 && b[1] == 101 && b[2] == 109 && b[3] == 58 {
        "memory".to_owned()
    } else {
        endpoint.to_owned()
    }
}

/// Everything the engine is configured with at connect time, once the
/// host's options are parsed and the capability policy is resolved.
/// Consumed to set up the engine instance, not retained.
#[derive(Debug, PartialEq)]
pub struct EngineConfig {
    pub endpoint: String,
    pub strict: bool,
    pub query_timeout_secs: Option<u8>,
    pub transaction_timeout_secs: Option<u8>,
    pub capabilities: Capabilities,
}

/// Builds the engine configuration: the endpoint is normalized, absent
/// options fall back to a non-strict engine with no timeouts and the
/// baseline capability set, and a present capability policy is resolved.
pub fn configure(endpoint: &str, opts: Option<Options>) -> (r: EngineConfig)
    ensures
        is_memory_shorthand(endpoint.spec_bytes()) ==> r.endpoint@ == "memory"@,
        !is_memory_shorthand(endpoint.spec_bytes()) ==> r.endpoint@ == endpoint@,
        match opts {
            Option::Some(o) => {
                &&& r.strict == (match o.strict {
                    Option::Some(b) => b,
                    Option::None => false,
                })
                &&& r.query_timeout_secs == o.query_timeout
                &&& r.transaction_timeout_secs == o.transaction_timeout
                &&& r.capabilities == (match o.capabilities {
                    Option::Some(c) => spec_resolve_capabilities(c),
                    Option::None => spec_default_capabilities(),
                })
            },
            Option::None => {
                &&& r.strict == false
                &&& r.query_timeout_secs is None
                &&& r.transaction_timeout_secs is None
                &&& r.capabilities == spec_default_capabilities()
            },
        },
{
    let endpoint_name = normalize_endpoint(endpoint);
    match opts {
        Option::Some(o) => {
            let strict = match o.strict {
                Option::Some(b) => b,
                Option::None => false,
            };
            let capabilities = match o.capabilities {
                Option::Some(c) => resolve_capabilities(c),
                Option::None => Capabilities::default_set(),
            };
            EngineConfig {
                endpoint: endpoint_name,
                strict,
                query_timeout_secs: o.query_timeout,
                transaction_timeout_secs: o.transaction_timeout,
                capabilities,
            }
        },
        Option::None => EngineConfig {
            endpoint: endpoint_name,
            strict: false,
            query_timeout_secs: None,
            transaction_timeout_secs: None,
            capabilities: Capabilities::default_set(),
        },
    }
}

} // verus!
