//! Configuration data: the listen address, one backend selection, and the
//! construction of the upstream base URL from it.

use vstd::prelude::*;
use crate::text::{dec_str_of, u64_to_dec};

verus! {

/// The upstream backend selection.
#[derive(Debug)]
pub struct SatoriConfig {
    /// should be "http" or "https"
    pub scheme: String,
    /// host of the satori server.
    pub host: String,
    /// port of the satori server.
    pub port: u16,
    /// an optional path prefix, with its trailing slash; the version is
    /// **not** included, use the `version` field.
    pub path: Option<String>,
    /// satori protocol version, e.g. "v1".
    pub version: String,
    pub token: Option<String>,
}

/// The base URL string the configuration stands for:
/// `{scheme}://{host}:{port}/{path}{version}/`.
pub open spec fn spec_base_url(c: SatoriConfig) -> Seq<char> {
    c.scheme@ + "://"@ + c.host@ + ":"@ + dec_str_of(c.port as nat) + "/"@ + (match c.path {
        Some(p) => p@,
        None => Seq::<char>::empty(),
    }) + c.version@ + "/"@
}

impl SatoriConfig {
    /// The upstream base URL, with the trailing slash that relative RPC
    /// endpoints require.
    pub fn base_url_string(&self) -> (r: String)
        ensures
            r@ == spec_base_url(*self),
    {
        let mut out = String::new();
        out.append(self.scheme.as_str());
        out.append("://");
        out.append(self.host.as_str());
        out.append(":");
        let port = u64_to_dec(self.port as u64);
        out.append(port.as_str());
        out.append("/");
        match &self.path {
            Some(p) => out.append(p.as_str()),
            None => {},
        }
        out.append(self.version.as_str());
        out.append("/");
        out
    }
}

#[derive(Debug)]
pub struct ServerConfig {
    pub listen: String,
    pub rust_log: Option<String>,
}

#[derive(Debug)]
pub enum BackendConfig {
    Satori(SatoriConfig),
}

#[derive(Debug)]
pub struct Config {
    pub server: ServerConfig,
    pub backend: BackendConfig,
}

impl Config {
    /// The example configuration written out for a new installation.
    pub fn example() -> (r: Self)
        ensures
            r.server.listen@ == "127.0.0.1:51405"@,
            r.server.rust_log matches Some(l) && l@ == "info"@,
            r.backend matches BackendConfig::Satori(c) && {
                &&& c.scheme@ == "http"@
                &&& c.host@ == "127.0.0.1"@
                &&& c.port == 15500
                &&& c.path is None
                &&& c.token matches Some(t) && t@ == "super_secret"@
                &&& c.version@ == "v1"@
            },
    {
        Config {
            server: ServerConfig {
                listen: String::from_str("127.0.0.1:51405"),
                rust_log: Some(String::from_str("info")),
            },
            backend: BackendConfig::Satori(
                SatoriConfig {
                    scheme: String::from_str("http"),
                    host: String::from_str("127.0.0.1"),
                    port: 15500,
                    path: None,
                    token: Some(String::from_str("super_secret")),
                    version: String::from_str("v1"),
                },
            ),
        }
    }
}

} // verus!
