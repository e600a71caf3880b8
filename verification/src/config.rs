//! The configuration shapes of the proxy.
//!
//! The embedding program decodes the configuration text (JSON or YAML)
//! into these types; this module owns the shapes themselves, the format
//! detection, and every default.

use vstd::prelude::*;
use vstd::string::StringExecFns;
use crate::Addr;

verus! {

/// The default per-direction pipe buffer size in bytes.
pub const DEFAULT_BUFFER_SIZE: usize = 65536;

/// The default resolver polling interval in seconds.
pub const DEFAULT_INTERVAL_SECS: u64 = 60;

/// The default bound on queued waiters.
pub const DEFAULT_MAX_WAITERS: usize = 8;

/// Which syntax a configuration document uses.
#[derive(Clone, Copy, PartialEq, Eq, Structural, Debug)]
pub enum ConfigFormat {
    Json,
    Yaml,
}

pub open spec fn is_ascii_ws(b: u8) -> bool {
    b == 32 || b == 9 || b == 10 || b == 13
}

/// The format of a document: JSON exactly when its first byte that is not
/// ASCII whitespace is `{`.
pub open spec fn format_of(s: Seq<u8>) -> ConfigFormat
    decreases s.len(),
{
    if s.len() == 0 {
        ConfigFormat::Yaml
    } else if is_ascii_ws(s[0]) {
        format_of(s.drop_first())
    } else if s[0] == 123 {
        ConfigFormat::Json
    } else {
        ConfigFormat::Yaml
    }
}

/// Detects the syntax of a configuration document from its bytes.
pub fn config_format(txt: &Vec<u8>) -> (r: ConfigFormat)
    ensures
        r == format_of(txt@),
{
    let n = txt.len();
    let mut i: usize = 0;
    proof {
        assert(txt@.skip(0) =~= txt@);
    }
    while i < n
        invariant
            0 <= i <= n,
            n == txt@.len(),
            format_of(txt@) == format_of(txt@.skip(i as int)),
            forall|j: int| 0 <= j < i ==> is_ascii_ws(#[trigger] txt@[j]),
        decreases n - i,
    {
        let b = txt[i];
        if b == 32 || b == 9 || b == 10 || b == 13 {
            proof {
                assert(txt@.skip(i as int).drop_first() =~= txt@.skip(i as int + 1));
            }
            i = i + 1;
        } else if b == 123 {
            return ConfigFormat::Json;
        } else {
            return ConfigFormat::Yaml;
        }
    }
    proof {
        assert(txt@.skip(i as int).len() == 0);
    }
    ConfigFormat::Yaml
}

/// A TLS serving identity: certificate chain files and a private key file.
#[derive(Debug)]
pub struct TlsServerIdentity {
    pub cert_paths: Vec<String>,
    pub private_key_path: String,
}

/// Client-side TLS: the name to present and verify, and optional trust
/// anchors.
#[derive(Debug)]
pub struct TlsClientConfig {
    pub name: String,
    pub trust_cert_paths: Option<Vec<String>>,
}

/// Outbound-side configuration of one proxy.
#[derive(Debug)]
pub struct ClientConfig {
    pub tls: Option<TlsClientConfig>,
}

/// One listener: plain TCP, or TLS termination with its identities.
#[derive(Debug)]
pub enum ServerConfig {
    Tcp {
        addr: Addr,
    },
    Tls {
        addr: Addr,
        alpn_protocols: Option<Vec<String>>,
        default_identity: Option<TlsServerIdentity>,
        identities: Option<Vec<(String, TlsServerIdentity)>>,
    },
}

impl ServerConfig {
    /// The address the listener binds, whichever kind it is.
    pub fn addr(&self) -> (r: Addr)
        ensures
            r == (match *self {
                ServerConfig::Tcp { addr } => addr,
                ServerConfig::Tls { addr, .. } => addr,
            }),
    {
        match *self {
            ServerConfig::Tcp { ref addr } => *addr,
            ServerConfig::Tls { ref addr, .. } => *addr,
        }
    }
}

/// Where and how often to poll the naming service.
#[derive(Debug)]
pub struct NamerdConfig {
    pub addr: Addr,
    pub path: String,
    pub namespace: Option<String>,
    pub interval_secs: Option<u64>,
}

impl NamerdConfig {
    pub fn interval_secs_or_default(&self) -> (r: u64)
        ensures
            r == (match self.interval_secs {
                Some(s) => s,
                None => DEFAULT_INTERVAL_SECS,
            }),
    {
        match self.interval_secs {
            Some(s) => s,
            None => DEFAULT_INTERVAL_SECS,
        }
    }

    /// The namespace to resolve in; "default" when none is configured.
    pub fn namespace_or_default(&self) -> (r: String)
        ensures
            r@ == (match self.namespace {
                Some(ns) => ns@,
                None => "default"@,
            }),
    {
        match &self.namespace {
            Some(ns) => ns.clone(),
            None => String::from_str("default"),
        }
    }
}

/// One proxy instance: its listeners, its resolver target, its outbound
/// client settings, and its admission bound.
#[derive(Debug)]
pub struct ProxyConfig {
    pub servers: Vec<ServerConfig>,
    pub namerd: NamerdConfig,
    pub client: Option<ClientConfig>,
    pub max_waiters: Option<usize>,
}

impl ProxyConfig {
    pub fn max_waiters_or_default(&self) -> (r: usize)
        ensures
            r == (match self.max_waiters {
                Some(m) => m,
                None => DEFAULT_MAX_WAITERS,
            }),
    {
        match self.max_waiters {
            Some(m) => m,
            None => DEFAULT_MAX_WAITERS,
        }
    }
}

/// A whole configuration document.
#[derive(Debug)]
pub struct AppConfig {
    pub proxies: Vec<ProxyConfig>,
    pub buffer_size: Option<usize>,
}

impl AppConfig {
    pub fn buffer_size_or_default(&self) -> (r: usize)
        ensures
            r == (match self.buffer_size {
                Some(s) => s,
                None => DEFAULT_BUFFER_SIZE,
            }),
    {
        match self.buffer_size {
            Some(s) => s,
            None => DEFAULT_BUFFER_SIZE,
        }
    }
}

} // verus!
