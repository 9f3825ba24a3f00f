//! How engines come about.

use crate::backend::{fresh_backend, NativeHttpBackend};
use crate::config::{ConnectionLimits, EngineConfig};
use crate::resolver::LookupEngine;
use crate::tcp::TcpEngine;
use crate::turn::NativeEngines;
use crate::types::{plain_error, Error, ErrorKind, HttpLimits};
use vstd::prelude::*;
use vstd::string::*;

verus! {

/// Where names are looked up.
#[derive(Debug)]
pub enum ResolverSource {
    /// Nowhere.
    Absent,
    /// Where the system says.
    System,
    /// At one name server, with suffixes to try.
    Nameserver { address: Vec<u8>, suffixes: Vec<Vec<u8>> },
}

/// Whom TLS trusts.
#[derive(Debug)]
pub enum TlsSource {
    /// There is no TLS.
    Absent,
    /// Whom the platform trusts.
    Platform,
    /// One certificate, in its DER encoding.
    Root(Vec<u8>),
}

/// What engines are made from.
#[derive(Debug)]
pub struct NativeHttpFactory {
    pub limits: HttpLimits,
    pub connection_limits: ConnectionLimits,
    pub resolver: ResolverSource,
    pub tls: TlsSource,
}

/// The bounds that a configuration sets on messages.
pub open spec fn configured_limits(config: EngineConfig) -> HttpLimits {
    HttpLimits {
        body_bytes: config.max_response_body_bytes,
        header_bytes: config.max_header_bytes,
        header_count: config.max_header_count,
    }
}

/// The bounds that a configuration sets on connections.
pub open spec fn configured_connections(config: EngineConfig) -> ConnectionLimits {
    ConnectionLimits {
        global: config.max_connections,
        per_origin: config.max_connections_per_origin,
        idle_global: config.max_idle_connections,
        idle_per_origin: config.max_idle_connections_per_origin,
        idle_timeout: config.idle_connection_timeout,
    }
}

/// Each bound is the one that the configuration names for it.
pub proof fn lemma_configured_bounds_are_kept(config: EngineConfig)
    ensures
        configured_limits(config).body_bytes == config.max_response_body_bytes,
        configured_limits(config).header_bytes == config.max_header_bytes,
        configured_limits(config).header_count == config.max_header_count,
        configured_connections(config).global == config.max_connections,
        configured_connections(config).per_origin == config.max_connections_per_origin,
        configured_connections(config).idle_global == config.max_idle_connections,
        configured_connections(config).idle_per_origin == config.max_idle_connections_per_origin,
        configured_connections(config).idle_timeout == config.idle_connection_timeout,
{
}

impl NativeHttpFactory {
    fn assemble(config: &EngineConfig, resolver: ResolverSource, tls: TlsSource) -> (result: Self)
        ensures
            result == (NativeHttpFactory {
                limits: configured_limits(*config),
                connection_limits: configured_connections(*config),
                resolver,
                tls,
            }),
    {
        NativeHttpFactory {
            limits: HttpLimits::from_config(config),
            connection_limits: ConnectionLimits::from_config(config),
            resolver,
            tls,
        }
    }

    /// Without a resolver and without TLS.
    pub fn new(config: &EngineConfig) -> (result: Self)
        ensures
            result == (NativeHttpFactory {
                limits: configured_limits(*config),
                connection_limits: configured_connections(*config),
                resolver: ResolverSource::Absent,
                tls: TlsSource::Absent,
            }),
    {
        Self::assemble(config, ResolverSource::Absent, TlsSource::Absent)
    }

    /// With one name server and without TLS.
    pub fn new_with_nameserver(config: &EngineConfig, nameserver: Vec<u8>) -> (result: Self)
        ensures
            result.limits == configured_limits(*config),
            result.connection_limits == configured_connections(*config),
            result.resolver matches ResolverSource::Nameserver { address, suffixes } && address
                == nameserver && suffixes@.len() == 0,
            result.tls is Absent,
    {
        Self::new_with_nameserver_and_search_suffixes(config, nameserver, Vec::new())
    }

    /// With one name server and suffixes to try, and without TLS.
    pub fn new_with_nameserver_and_search_suffixes(
        config: &EngineConfig,
        nameserver: Vec<u8>,
        suffixes: Vec<Vec<u8>>,
    ) -> (result: Self)
        ensures
            result == (NativeHttpFactory {
                limits: configured_limits(*config),
                connection_limits: configured_connections(*config),
                resolver: ResolverSource::Nameserver { address: nameserver, suffixes },
                tls: TlsSource::Absent,
            }),
    {
        Self::assemble(
            config,
            ResolverSource::Nameserver { address: nameserver, suffixes },
            TlsSource::Absent,
        )
    }

    /// With the resolver of the system and without TLS.
    pub fn new_with_system_dns(config: &EngineConfig) -> (result: Self)
        ensures
            result == (NativeHttpFactory {
                limits: configured_limits(*config),
                connection_limits: configured_connections(*config),
                resolver: ResolverSource::System,
                tls: TlsSource::Absent,
            }),
    {
        Self::assemble(config, ResolverSource::System, TlsSource::Absent)
    }

    /// With one name server and the trust of the platform.
    pub fn new_with_nameserver_and_platform_tls(config: &EngineConfig, nameserver: Vec<u8>) -> (
        result: Self)
        ensures
            result.limits == configured_limits(*config),
            result.connection_limits == configured_connections(*config),
            result.resolver matches ResolverSource::Nameserver { address, suffixes } && address
                == nameserver && suffixes@.len() == 0,
            result.tls is Platform,
    {
        Self::assemble(
            config,
            ResolverSource::Nameserver { address: nameserver, suffixes: Vec::new() },
            TlsSource::Platform,
        )
    }

    /// With the resolver of the system and the trust of the platform.
    pub fn new_with_system_dns_and_platform_tls(config: &EngineConfig) -> (result: Self)
        ensures
            result == (NativeHttpFactory {
                limits: configured_limits(*config),
                connection_limits: configured_connections(*config),
                resolver: ResolverSource::System,
                tls: TlsSource::Platform,
            }),
    {
        Self::assemble(config, ResolverSource::System, TlsSource::Platform)
    }

    /// With one name server and trust in one certificate.
    pub fn new_with_nameserver_and_test_root(
        config: &EngineConfig,
        nameserver: Vec<u8>,
        root_der: Vec<u8>,
    ) -> (result: Self)
        ensures
            result.limits == configured_limits(*config),
            result.connection_limits == configured_connections(*config),
            result.resolver matches ResolverSource::Nameserver { address, suffixes } && address
                == nameserver && suffixes@.len() == 0,
            result.tls == TlsSource::Root(root_der),
    {
        Self::assemble(
            config,
            ResolverSource::Nameserver { address: nameserver, suffixes: Vec::new() },
            TlsSource::Root(root_der),
        )
    }

    /// Makes the engines. Without room for a single connection there are none.
    pub fn into_backend(self) -> (result: Result<NativeEngines, Error>)
        ensures
            match result {
                Ok(engines) => {
                    &&& self.connection_limits.global > 0 && self.connection_limits.per_origin > 0
                    &&& engines.wf()
                    &&& engines.http@ == fresh_backend(
                        self.limits,
                        !(self.tls is Absent),
                        self.connection_limits,
                    )
                    &&& engines.tcp@ == crate::tcp::fresh_tcp_engine(!(self.resolver is Absent))
                    &&& engines.lookups@ == crate::resolver::fresh_lookups(
                        !(self.resolver is Absent),
                    )
                },
                Err(error) => {
                    &&& self.connection_limits.global == 0 || self.connection_limits.per_origin
                        == 0
                    &&& error@ == plain_error(
                        ErrorKind::Internal,
                        "native connection limits are invalid"@,
                    )
                },
            },
    {
        let has_tls = match self.tls {
            TlsSource::Absent => false,
            _ => true,
        };
        let has_resolver = self.supports_public_resolver();
        let http = NativeHttpBackend::new(self.limits, has_tls, self.connection_limits)?;
        Ok(
            NativeEngines {
                http,
                tcp: TcpEngine::new(has_resolver),
                lookups: LookupEngine::new(has_resolver),
            },
        )
    }

    /// Connections are counted.
    pub fn connection_metrics_available(&self) -> (result: bool)
        ensures
            result,
    {
        true
    }

    /// Responses can be delivered while they arrive.
    pub fn supports_streaming(&self) -> (result: bool)
        ensures
            result,
    {
        true
    }

    /// Reports whether names can be looked up.
    pub fn supports_public_resolver(&self) -> (result: bool)
        ensures
            result == !(self.resolver is Absent),
    {
        match &self.resolver {
            ResolverSource::Absent => false,
            _ => true,
        }
    }

    /// Connections that carry no HTTP can be made.
    pub fn supports_standalone_tcp(&self) -> (result: bool)
        ensures
            result,
    {
        true
    }
}

} // verus!
