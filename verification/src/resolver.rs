//! The fallback resolver: chooses a resolver configuration in three tiers —
//! the platform's own configuration, then `nameserver` entries parsed from a
//! fallback file, then a hardcoded public resolver — and builds the DNS
//! client from it.
//!
//! The DNS client itself is the `hickory-resolver` crate; every call into it
//! stands behind a trusted item whose contract states what that crate's
//! source shows.

use std::sync::Arc;

use vstd::prelude::*;

use crate::config::add_nameservers_from_resolv_conf;
use crate::config::entries_for_ips;
use crate::config::fallback_entries;
use crate::config::lemma_entries_count;
use crate::config::google_entries;
use crate::config::nameserver_ips;
use crate::config::DnsConfig;
use crate::config::NameServerEntry;
use crate::config::Protocol;

verus! {

#[verifier::external_type_specification]
#[verifier::external_body]
pub struct ExResolverConfig(hickory_resolver::config::ResolverConfig);

#[verifier::external_type_specification]
#[verifier::external_body]
pub struct ExResolverOpts(hickory_resolver::config::ResolverOpts);

/// Shared handle to the built DNS client.  The client type's declaration
/// carries a trait-bound generic the verifier refuses, so the handle is
/// opaque to it; the field is public for the asynchronous lookup adapter
/// around the library.
#[verifier::external_body]
pub struct DnsClientHandle {
    pub resolver: Arc<hickory_resolver::TokioResolver>,
}

impl DnsClientHandle {
    /// Relies on `Arc::clone`: another handle to the same client.
    #[verifier::external_body]
    pub fn duplicate(&self) -> (r: DnsClientHandle)
        ensures
            r == *self,
    {
        DnsClientHandle { resolver: Arc::clone(&self.resolver) }
    }
}

/// The (address, port, protocol) triples of a DNS client configuration's
/// name servers, one per configured connection, in order.
pub uninterp spec fn config_name_servers(
    c: hickory_resolver::config::ResolverConfig,
) -> Seq<NameServerEntry>;

/// Relies on `hickory_resolver::system_conf::read_system_conf`: reads the
/// platform's own DNS configuration.  The outcome depends on the machine,
/// so nothing is assumed of it; a failed read becomes `None`.
#[verifier::external_body]
fn read_system_conf_opt() -> Option<
    (hickory_resolver::config::ResolverConfig, hickory_resolver::config::ResolverOpts),
> {
    hickory_resolver::system_conf::read_system_conf().ok()
}

/// Relies on `hickory_resolver::config::ResolverConfig::from_name_servers`:
/// a configuration built from an empty list has no name servers.
#[verifier::external_body]
fn empty_config() -> (c: hickory_resolver::config::ResolverConfig)
    ensures
        config_name_servers(c) == Seq::<NameServerEntry>::empty(),
{
    hickory_resolver::config::ResolverConfig::from_name_servers(Vec::new())
}

/// Relies on `hickory_resolver::config::ResolverConfig::add_name_server` and
/// `NameServerConfig::new`: appends one name server with a single connection
/// carrying the entry's port and protocol.
#[verifier::external_body]
fn config_add_entry(c: &mut hickory_resolver::config::ResolverConfig, entry: &NameServerEntry)
    ensures
        config_name_servers(*final(c)) == config_name_servers(*old(c)).push(*entry),
{
    let ip = match entry.ip {
        crate::ip::IpAddress::V4(a, b, c, d) => [a, b, c, d].into(),
        crate::ip::IpAddress::V6(s0, s1, s2, s3, s4, s5, s6, s7) => {
            [s0, s1, s2, s3, s4, s5, s6, s7].into()
        },
    };
    let mut conn = hickory_resolver::config::ConnectionConfig::new(match entry.protocol {
        Protocol::Udp => hickory_resolver::config::ProtocolConfig::Udp,
        Protocol::Tcp => hickory_resolver::config::ProtocolConfig::Tcp,
    });
    conn.port = entry.port;
    c.add_name_server(hickory_resolver::config::NameServerConfig::new(ip, true, vec![conn]));
}

/// Relies on `hickory_resolver::config::ResolverConfig::udp_and_tcp` and the
/// `GOOGLE` server group: 8.8.8.8, 8.8.4.4, 2001:4860:4860::8888 and
/// 2001:4860:4860::8844, each with a UDP and a TCP connection on port 53,
/// in that order.
#[verifier::external_body]
fn google_config() -> (c: hickory_resolver::config::ResolverConfig)
    ensures
        config_name_servers(c) == google_entries(),
{
    hickory_resolver::config::ResolverConfig::udp_and_tcp(&hickory_resolver::config::GOOGLE)
}

/// Relies on `hickory_resolver::config::ResolverOpts::default`: the client
/// library's default resolution options.
#[verifier::external_body]
fn default_opts() -> hickory_resolver::config::ResolverOpts {
    hickory_resolver::config::ResolverOpts::default()
}

/// Relies on `hickory_resolver::Resolver::builder_with_config`,
/// `ResolverBuilder::options_mut` and `ResolverBuilder::build`: builds the
/// Tokio-based DNS client from the configuration and options; a rejected
/// configuration becomes `Err` with the client library's message.
#[verifier::external_body]
fn build_tokio_resolver(
    config: hickory_resolver::config::ResolverConfig,
    options: hickory_resolver::config::ResolverOpts,
) -> Result<DnsClientHandle, String> {
    let mut builder = hickory_resolver::Resolver::builder_with_config(
        config,
        hickory_resolver::net::runtime::TokioRuntimeProvider::default(),
    );
    *builder.options_mut() = options;
    match builder.build() {
        Ok(resolver) => Ok(DnsClientHandle { resolver: Arc::new(resolver) }),
        Err(e) => Err(e.to_string()),
    }
}

// ---------------------------------------------------------------------------
// Tier selection
// ---------------------------------------------------------------------------

/// Which fallback tier produced the configuration.
#[derive(Clone, Copy, PartialEq, Eq, Structural, Debug)]
pub enum ConfigSource {
    System,
    PrefixFile,
    DefaultServers,
}

/// The view of an optional borrowed text.
pub open spec fn text_view(t: Option<&str>) -> Option<Seq<char>> {
    match t {
        Some(s) => Some(s@),
        None => None,
    }
}

/// Choose the configuration in strict priority order: a present system
/// configuration is returned verbatim; otherwise the `nameserver` entries
/// parsed from the fallback file text when there are any; otherwise the
/// hardcoded public resolver, with default options in either fallback case.
pub fn select_config(
    system: Option<(hickory_resolver::config::ResolverConfig, hickory_resolver::config::ResolverOpts)>,
    resolv_conf: Option<&str>,
) -> (r: (hickory_resolver::config::ResolverConfig, hickory_resolver::config::ResolverOpts, ConfigSource))
    ensures
        system matches Some(sys) ==> r.0 == sys.0 && r.1 == sys.1 && r.2 == ConfigSource::System,
        system is None ==> config_name_servers(r.0) == fallback_entries(text_view(resolv_conf)),
        system is None ==> (r.2 == ConfigSource::PrefixFile <==> nameserver_ips_present(
            text_view(resolv_conf),
        )),
        system is None && !nameserver_ips_present(text_view(resolv_conf)) ==> r.2
            == ConfigSource::DefaultServers,
{
    match system {
        Some(pair) => (pair.0, pair.1, ConfigSource::System),
        None => {
            let mut model = DnsConfig::new();
            match resolv_conf {
                Some(text) => {
                    add_nameservers_from_resolv_conf(text, &mut model);
                    proof {
                        assert(model@ =~= entries_for_ips(nameserver_ips(text@)));
                        lemma_entries_count(nameserver_ips(text@));
                    }
                },
                None => {},
            }
            if model.name_servers().len() == 0 {
                (google_config(), default_opts(), ConfigSource::DefaultServers)
            } else {
                let mut c = empty_config();
                let ns = model.name_servers();
                let mut i: usize = 0;
                while i < ns.len()
                    invariant
                        i <= ns.len(),
                        config_name_servers(c) == ns@.take(i as int),
                    decreases ns.len() - i,
                {
                    config_add_entry(&mut c, &ns[i]);
                    i = i + 1;
                    proof {
                        assert(ns@.take(i as int - 1).push(ns@[i as int - 1]) =~= ns@.take(
                            i as int,
                        ));
                    }
                }
                proof {
                    assert(ns@.take(ns@.len() as int) =~= ns@);
                }
                (c, default_opts(), ConfigSource::PrefixFile)
            }
        },
    }
}

/// Whether the fallback file text yields at least one nameserver entry.
pub open spec fn nameserver_ips_present(text: Option<Seq<char>>) -> bool {
    match text {
        Some(t) => nameserver_ips(t).len() > 0,
        None => false,
    }
}

/// The configuration and options the resolver is built from: the system
/// configuration when the platform yields one, the fallback tiers of
/// `select_config` otherwise.  What the system probe returns depends on the
/// machine, so no more is stated here; the tier logic itself is stated and
/// proved on `select_config`.
pub fn resolver_config_and_options(
    resolv_conf: Option<&str>,
) -> (hickory_resolver::config::ResolverConfig, hickory_resolver::config::ResolverOpts) {
    let system = read_system_conf_opt();
    let (config, options, _source) = select_config(system, resolv_conf);
    (config, options)
}

// ---------------------------------------------------------------------------
// The resolver component
// ---------------------------------------------------------------------------

/// The fallback resolver: an immutable, shared handle to the DNS client
/// built from the chosen configuration.
pub struct TermuxResolver {
    resolver: DnsClientHandle,
}

impl Clone for TermuxResolver {
    /// Another handle to the same client.
    fn clone(&self) -> (r: TermuxResolver)
        ensures
            r.spec_client() == self.spec_client(),
    {
        TermuxResolver { resolver: self.resolver.duplicate() }
    }
}

impl TermuxResolver {
    /// The client handle, for specifications.
    pub closed spec fn spec_client(&self) -> DnsClientHandle {
        self.resolver
    }

    /// Build the DNS client from the chosen configuration.  `resolv_conf` is
    /// the fallback file's text, where the caller could read it.  Every tier
    /// yields a configuration, so construction fails only where the DNS
    /// client library rejects the one built.
    pub fn new(resolv_conf: Option<&str>) -> Result<TermuxResolver, String> {
        let (config, options) = resolver_config_and_options(resolv_conf);
        match build_tokio_resolver(config, options) {
            Ok(handle) => Ok(TermuxResolver { resolver: handle }),
            Err(message) => Err(message),
        }
    }

    /// The shared DNS client handle, for the lookup adapter.
    pub fn client(&self) -> (r: &DnsClientHandle)
        ensures
            *r == self.spec_client(),
    {
        &self.resolver
    }
}

} // verus!
