//! Why a configuration is refused.

use crate::util::text;
use vstd::prelude::*;

verus! {

/// Why a configuration is refused. `e` is what the failed operation said.
#[derive(Debug)]
pub enum ParseError {
    /// QUIC endpoints could not be made.
    Endpoints { e: String },
    /// An access log format is wrong.
    AccessFormat { access_format: String, e: String },
    /// The path of an access log could not be resolved.
    AccessLogPath { access_log_file: String, e: String },
    /// The resolved path of an access log is not Unicode.
    AccessLogName { access_log_file: String },
    /// An access log could not be opened.
    AccessLogOpen { access_log_file: String, e: String },
    /// A domain is to be passed on to a named upstream.
    Upstream { upstream: String },
    /// A connector could not be made.
    Connect { e: String },
    /// The address that a domain is passed on to could not be looked up.
    LookupHost { address: String, e: String },
    /// A listen address is wrong.
    Address { address: String, e: String },
    /// A TCP listen address needs a socket that another listener reserved.
    KeyExists { address: String, key: String },
    /// A QUIC listen address needs a socket that another listener reserved.
    UdpKeyExists { address: String, key: String },
    /// A domain name is wrong.
    Domain { domain: String, e: String },
    /// The domain names of a listener, numbered from one, do not go together.
    DomainIndex { domains: Vec<String>, e: String },
    /// The certificates of a listener could not be loaded.
    Sni { e: String },
    /// A server could not be made.
    Server { e: String },
}

/// Domain names numbered from one, the way a map from a number to a name and that number
/// again is shown.
pub open spec fn numbered(domains: Seq<String>) -> Seq<char>
    decreases domains.len(),
{
    if domains.len() == 0 {
        Seq::empty()
    } else {
        let init = domains.drop_last();
        let number = text::decimal(domains.len());
        (if init.len() == 0 {
            Seq::empty()
        } else {
            numbered(init) + ", "@
        }) + number + ": ("@ + text::debug_quoted(domains.last()@) + ", "@ + number + ")"@
    }
}

impl ParseError {
    /// The message for the user.
    pub open spec fn text(self) -> Seq<char> {
        match self {
            ParseError::Endpoints { e } => e@,
            ParseError::AccessFormat { access_format, e } => "err:access_format => access_format:"@
                + access_format@ + ", e:"@ + e@,
            ParseError::AccessLogPath { access_log_file, e } =>
                "err:access_log_file => access_log_file:"@ + access_log_file@
                + ", e:err:path.canonicalize() => e:"@ + e@,
            ParseError::AccessLogName { access_log_file } =>
                "err:access_log_file => access_log_file:"@ + access_log_file@ + ", e:err:"@
                + access_log_file@,
            ParseError::AccessLogOpen { access_log_file, e } =>
                "err:access_log_file => access_log_file:"@ + access_log_file@ + ", e:err::open "@
                + access_log_file@ + " => e:"@ + e@,
            ParseError::Upstream { upstream } => "err:not support upstream"@ + upstream@,
            ParseError::Connect { e } => e@,
            ParseError::LookupHost { address, e } => "err:lookup_host => address:"@ + address@
                + " e:"@ + e@,
            ParseError::Address { address, e } => "err:address => address:"@ + address@ + ", e:"@
                + e@,
            ParseError::KeyExists { address, key } => "err:address => address:"@ + address@
                + ", e:err:key is exist => key:"@ + key@,
            ParseError::UdpKeyExists { address, key } => "err:address => address:"@ + address@
                + ", e:err:udp_key is exist => key:"@ + key@,
            ParseError::Domain { domain, e } => "err:domain => domain:"@ + text::debug_quoted(
                domain@,
            ) + ", e:"@ + e@,
            ParseError::DomainIndex { domains, e } => "err:domain => index_map:{"@ + numbered(
                domains@,
            ) + "}, e:"@ + e@,
            ParseError::Sni { e } => e@,
            ParseError::Server { e } => e@,
        }
    }

    /// The message for the user.
    pub fn message(&self) -> (message: String)
        ensures
            message@ == self.text(),
    {
        match self {
            ParseError::Endpoints { e } => e.clone(),
            ParseError::AccessFormat { access_format, e } =>
                "err:access_format => access_format:".to_string().concat(access_format).concat(
                ", e:",
            ).concat(e),
            ParseError::AccessLogPath { access_log_file, e } =>
                "err:access_log_file => access_log_file:".to_string().concat(
                access_log_file,
            ).concat(", e:err:path.canonicalize() => e:").concat(e),
            ParseError::AccessLogName { access_log_file } =>
                "err:access_log_file => access_log_file:".to_string().concat(
                access_log_file,
            ).concat(", e:err:").concat(access_log_file),
            ParseError::AccessLogOpen { access_log_file, e } =>
                "err:access_log_file => access_log_file:".to_string().concat(
                access_log_file,
            ).concat(", e:err::open ").concat(access_log_file).concat(" => e:").concat(e),
            ParseError::Upstream { upstream } => "err:not support upstream".to_string().concat(
                upstream,
            ),
            ParseError::Connect { e } => e.clone(),
            ParseError::LookupHost { address, e } =>
                "err:lookup_host => address:".to_string().concat(address).concat(" e:").concat(e),
            ParseError::Address { address, e } =>
                "err:address => address:".to_string().concat(address).concat(", e:").concat(e),
            ParseError::KeyExists { address, key } =>
                "err:address => address:".to_string().concat(address).concat(
                ", e:err:key is exist => key:",
            ).concat(key),
            ParseError::UdpKeyExists { address, key } =>
                "err:address => address:".to_string().concat(address).concat(
                ", e:err:udp_key is exist => key:",
            ).concat(key),
            ParseError::Domain { domain, e } => "err:domain => domain:".to_string().concat(
                text::debug_text(domain).as_str(),
            ).concat(", e:").concat(e),
            ParseError::DomainIndex { domains, e } =>
                "err:domain => index_map:{".to_string().concat(
                numbered_text(domains).as_str(),
            ).concat("}, e:").concat(e),
            ParseError::Sni { e } => e.clone(),
            ParseError::Server { e } => e.clone(),
        }
    }
}

fn numbered_text(domains: &Vec<String>) -> (shown: String)
    ensures
        shown@ == numbered(domains@),
{
    let mut shown = String::new();
    let mut i: usize = 0;
    while i < domains.len()
        invariant
            i <= domains@.len(),
            shown@ == numbered(domains@.take(i as int)),
        decreases domains@.len() - i,
    {
        if i > 0 {
            shown.append(", ");
        }
        let number = text::decimal_text(i as u64 + 1);
        shown.append(number.as_str());
        shown.append(": (");
        shown.append(text::debug_text(domains[i].as_str()).as_str());
        shown.append(", ");
        shown.append(number.as_str());
        shown.append(")");
        i += 1;
        assert(domains@.take(i as int).drop_last() =~= domains@.take(i - 1));
        assert(shown@ =~= numbered(domains@.take(i as int)));
    }
    assert(domains@.take(i as int) =~= domains@);
    shown
}

} // verus!
