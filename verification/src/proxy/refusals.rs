//! What the user is told when an action fails.

use crate::proxy::config_toml::{DomainListen, ProxyPass, ProxyPassTunnel, ProxyPassTunnel2};
use crate::proxy::error::{numbered, ParseError};
use crate::proxy::served::{count, joins, of_key_counts};
use crate::proxy::step;
use crate::proxy::step::{Event, ParseView, Phase};
use crate::util::text;
use vstd::prelude::*;

verus! {

/// A failure that has to do with an access log names the log that was being prepared, by
/// its format or its file, and says what went wrong.
pub proof fn access_failure_is_told(v: ParseView, event: Event, error: ParseError)
    requires
        v.valid(),
        step::is_failure(event),
        step::fails_with(v, event, error),
    ensures
        match (v.phase, event) {
            (Phase::AccessFormat { server, access }, Event::Failed(e)) => {
                let log = v.config._domain->0._server@[server as int].access->0@[access as int];
                error.text() == "err:access_format => access_format:"@ + log.access_format@
                    + ", e:"@ + e@
            },
            (Phase::AccessPath { server, access, .. }, Event::Failed(e)) => {
                let log = v.config._domain->0._server@[server as int].access->0@[access as int];
                error.text() == "err:access_log_file => access_log_file:"@ + log.access_log_file@
                    + ", e:err:path.canonicalize() => e:"@ + e@
            },
            (Phase::AccessPath { server, access, .. }, Event::NotUnicode) => {
                let log = v.config._domain->0._server@[server as int].access->0@[access as int];
                error.text() == "err:access_log_file => access_log_file:"@ + log.access_log_file@
                    + ", e:err:"@ + log.access_log_file@
            },
            (Phase::AccessOpen { server, access, .. }, Event::Failed(e)) => {
                let log = v.config._domain->0._server@[server as int].access->0@[access as int];
                error.text() == "err:access_log_file => access_log_file:"@ + log.access_log_file@
                    + ", e:err::open "@ + log.access_log_file@ + " => e:"@ + e@
            },
            _ => true,
        },
{
}

/// A failure to look up an address or to find listen addresses names the address as the
/// configuration has it, and says what went wrong.
pub proof fn address_failure_is_told(v: ParseView, e: String, error: ParseError)
    requires
        v.valid(),
        step::fails_with(v, Event::Failed(e), error),
    ensures
        match v.phase {
            Phase::LookupHost { server, .. } => {
                let address = match v.config._domain->0._server@[server as int].proxy_pass {
                    ProxyPass::Tcp(pass) => pass.address,
                    ProxyPass::Quic(pass) => pass.address,
                    ProxyPass::Tunnel(ProxyPassTunnel::Tcp(pass)) => pass.address,
                    ProxyPass::Tunnel(ProxyPassTunnel::Quic(pass)) => pass.address,
                    ProxyPass::Tunnel2(ProxyPassTunnel2::Tcp(pass)) => pass.address,
                    ProxyPass::Tunnel2(ProxyPassTunnel2::Quic(pass)) => pass.address,
                    _ => e,
                };
                error.text() == "err:lookup_host => address:"@ + address@ + " e:"@ + e@
            },
            Phase::Listen { server, listen } => {
                let address = match v.config._domain->0._server@[server as int].listen->0@[listen as int] {
                    DomainListen::Tcp(tcp) => tcp.address,
                    DomainListen::Quic(quic) => quic.address,
                };
                error.text() == "err:address => address:"@ + address@ + ", e:"@ + e@
            },
            _ => true,
        },
{
}

/// A failure to make endpoints, a connector, certificates or a server is told as it was
/// said.
pub proof fn other_failure_is_told(v: ParseView, e: String, error: ParseError)
    requires
        v.valid(),
        step::fails_with(v, Event::Failed(e), error),
        v.phase is Endpoints || v.phase is ServerEndpoints || v.phase is Connect || v.phase is Sni
            || v.phase is Server,
    ensures
        error.text() == e@,
{
}

/// A domain name that is refused is told as the domain has it, in the place that the
/// listener has come to.
pub proof fn name_failure_is_told(v: ParseView, h: int, e: String, error: ParseError)
    requires
        v.valid(),
        step::fails_with(v, Event::Failed(e), error),
        v.phase is Domain,
        0 <= h < v.history.len(),
        joins(v.history[h], v.keys()[v.phase->Domain_listener as int]),
        count(v.history.take(h), v.keys()[v.phase->Domain_listener as int])
            == v.phase->Domain_context,
    ensures
        error.text() == "err:domain => domain:"@ + text::debug_quoted(
            v.history[h].context.domain@,
        ) + ", e:"@ + e@,
{
    of_key_counts(v.history, v.keys()[v.phase->Domain_listener as int]);
}

/// Domain names that are refused together are all told, in order.
pub proof fn index_failure_is_told(v: ParseView, e: String, error: ParseError)
    requires
        v.valid(),
        step::fails_with(v, Event::Failed(e), error),
        v.phase is DomainIndex,
    ensures
        ({
            let key = v.keys()[v.phase->DomainIndex_listener as int];
            &&& error matches ParseError::DomainIndex { domains, e: said }
            &&& said == e
            &&& domains@.len() == count(v.history, key)
            &&& forall|h: int|
                0 <= h < v.history.len() && joins(#[trigger] v.history[h], key) ==> domains@[count(
                    v.history.take(h),
                    key,
                ) as int] == v.history[h].context.domain
        }),
{
    of_key_counts(v.history, v.keys()[v.phase->DomainIndex_listener as int]);
}

/// A named upstream and a listen address that belongs to no listener are told by name.
pub proof fn refusals_are_told(upstream: String, address: String, key: String, e: String)
    ensures
        (ParseError::Upstream { upstream }).text() == "err:not support upstream"@ + upstream@,
        (ParseError::Address { address, e }).text() == "err:address => address:"@ + address@
            + ", e:"@ + e@,
        (ParseError::KeyExists { address, key }).text() == "err:address => address:"@ + address@
            + ", e:err:key is exist => key:"@ + key@,
        (ParseError::UdpKeyExists { address, key }).text() == "err:address => address:"@ + address@
            + ", e:err:udp_key is exist => key:"@ + key@,
{
}

/// Domain names that are refused together are shown as a map from their numbers, counting
/// from one, to the name in quotes and the number again.
pub proof fn index_is_shown(domains: Seq<String>, domain: String, refused: Vec<String>, e: String)
    ensures
        ({
            let number = text::decimal(domains.len() + 1);
            let entry = number + ": ("@ + text::debug_quoted(domain@) + ", "@ + number + ")"@;
            &&& domains.len() == 0 ==> numbered(domains.push(domain)) == entry
            &&& domains.len() > 0 ==> numbered(domains.push(domain)) == numbered(domains) + ", "@
                + entry
        }),
        (ParseError::DomainIndex { domains: refused, e }).text() == "err:domain => index_map:{"@
            + numbered(refused@) + "}, e:"@ + e@,
{
    let number = text::decimal(domains.len() + 1);
    let entry = number + ": ("@ + text::debug_quoted(domain@) + ", "@ + number + ")"@;
    assert(domains.push(domain).drop_last() =~= domains);
    if domains.len() == 0 {
        assert(numbered(domains.push(domain)) =~= entry);
    } else {
        assert(numbered(domains.push(domain)) =~= numbered(domains) + ", "@ + entry);
    }
}

/// An action that failed, or a path that is not Unicode, is a failure wherever it comes;
/// every other outcome lets the reading go on.
pub proof fn failures_end_the_reading(event: Event)
    ensures
        step::is_failure(event) <==> match event {
            Event::Failed(_) => true,
            Event::NotUnicode => true,
            Event::Passed => false,
            Event::Handle(_) => false,
            Event::Path(_) => false,
            Event::Addrs(_) => false,
        },
{
}

} // verus!
