//! Engine configuration, as far as the HTTP core reads it.

use crate::framing::MAX_INFORMATIONAL_RESPONSES;
use crate::types::HttpLimits;
use vstd::prelude::*;

verus! {

/// Engine configuration. Durations are counted in nanoseconds.
#[derive(Clone, Copy, Debug, PartialEq, Eq, Structural)]
pub struct EngineConfig {
    pub max_connections: usize,
    pub max_connections_per_origin: usize,
    pub max_idle_connections: usize,
    pub max_idle_connections_per_origin: usize,
    pub idle_connection_timeout: u64,
    pub max_response_body_bytes: usize,
    pub max_header_bytes: usize,
    pub max_header_count: usize,
}

/// Bounds on connections.
#[derive(Clone, Copy, Debug, PartialEq, Eq, Structural)]
pub struct ConnectionLimits {
    pub global: usize,
    pub per_origin: usize,
    pub idle_global: usize,
    pub idle_per_origin: usize,
    pub idle_timeout: u64,
}

impl ConnectionLimits {
    pub fn from_config(config: &EngineConfig) -> (result: Self)
        ensures
            result == (ConnectionLimits {
                global: config.max_connections,
                per_origin: config.max_connections_per_origin,
                idle_global: config.max_idle_connections,
                idle_per_origin: config.max_idle_connections_per_origin,
                idle_timeout: config.idle_connection_timeout,
            }),
    {
        ConnectionLimits {
            global: config.max_connections,
            per_origin: config.max_connections_per_origin,
            idle_global: config.max_idle_connections,
            idle_per_origin: config.max_idle_connections_per_origin,
            idle_timeout: config.idle_connection_timeout,
        }
    }
}

/// The least of a number and the greatest `usize`.
pub open spec fn saturated(number: nat) -> nat {
    if number > usize::MAX {
        usize::MAX as nat
    } else {
        number
    }
}

/// How many bytes of one response may wait in the socket layer: every head that may come, a whole
/// body, and one buffer more.
pub open spec fn receive_bound(limits: HttpLimits) -> nat {
    saturated(
        (limits.header_bytes * (MAX_INFORMATIONAL_RESPONSES + 2) + limits.body_bytes + 16384) as nat,
    )
}

impl HttpLimits {
    pub fn from_config(config: &EngineConfig) -> (result: Self)
        ensures
            result == (HttpLimits {
                body_bytes: config.max_response_body_bytes,
                header_bytes: config.max_header_bytes,
                header_count: config.max_header_count,
            }),
    {
        HttpLimits {
            body_bytes: config.max_response_body_bytes,
            header_bytes: config.max_header_bytes,
            header_count: config.max_header_count,
        }
    }

    /// How many bytes of one response may wait in the socket layer.
    pub fn reactor_receive_limit(self) -> (result: usize)
        ensures
            result == receive_bound(self),
    {
        let heads = match self.header_bytes.checked_mul(10) {
            Some(heads) => heads,
            None => {
                return usize::MAX;
            },
        };
        heads.saturating_add(self.body_bytes).saturating_add(16 * 1024)
    }
}

} // verus!
