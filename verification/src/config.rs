//! The configuration of a run: the servers to ask, the aggregate query
//! rate, and the number of attempts per query.

use vstd::prelude::*;
use vstd::string::*;
use crate::addr::{addr_of_text, parse_server, with_default_port, ServerAddr};

verus! {

/// Attempts per query when the configuration names none.
pub const DEFAULT_TIMEOUT_RETRIES: u32 = 10;

/// Queries per second when the configuration names none.
pub const DEFAULT_QPS: u32 = 5000;

/// The configuration of a run.
#[derive(Debug, PartialEq, Eq)]
pub struct Config {
    pub dns_list: Vec<ServerAddr>,
    pub qps: u32,
    pub timeout_retries: u32,
}

/// The recognised keys of a configuration file, each as written or absent.
#[derive(Debug, PartialEq, Eq)]
pub struct RawConfig {
    pub dns: Option<Vec<String>>,
    pub retry: Option<u32>,
    pub queries_per_second: Option<u32>,
}

/// Why a configuration was refused.
#[derive(Debug, PartialEq, Eq)]
pub enum ConfigError {
    /// A server entry is not an address; the text is the entry.
    AddrParseError(String),
    /// The file is not well-formed; the text says why.
    TomlParseError(String),
}

pub type ConfigResult<T> = Result<T, ConfigError>;

/// The server that a configured entry names: the entry read as an address,
/// with port 53 when it gives none.
pub open spec fn server_of(entry: Seq<char>) -> Option<ServerAddr> {
    addr_of_text(with_default_port(entry))
}

/// True when every entry names a server.
pub open spec fn all_servers(entries: Seq<String>) -> bool {
    forall|i: int| 0 <= i < entries.len() ==> server_of(#[trigger] entries[i]@) is Some
}

/// The servers that the entries name, in order.
pub open spec fn servers_of(entries: Seq<String>) -> Seq<ServerAddr> {
    Seq::new(entries.len(), |i: int| server_of(entries[i]@)->0)
}

/// `i` is the first entry that names no server.
pub open spec fn first_bad_entry(entries: Seq<String>, i: int) -> bool {
    &&& 0 <= i < entries.len()
    &&& server_of(entries[i]@) is None
    &&& forall|j: int| 0 <= j < i ==> server_of(#[trigger] entries[j]@) is Some
}

impl ConfigError {
    /// The human-readable description of the error.
    pub fn description(&self) -> (s: String)
        ensures
            match self {
                ConfigError::AddrParseError(_) => s@ == "invalid socket address syntax"@,
                ConfigError::TomlParseError(text) => s@ == text@,
            },
    {
        match self {
            ConfigError::AddrParseError(_) => String::from_str("invalid socket address syntax"),
            ConfigError::TomlParseError(text) => text.clone(),
        }
    }

    /// Same as [`ConfigError::description`].
    pub fn to_string(&self) -> (s: String)
        ensures
            match self {
                ConfigError::AddrParseError(_) => s@ == "invalid socket address syntax"@,
                ConfigError::TomlParseError(text) => s@ == text@,
            },
    {
        self.description()
    }
}

impl Config {
    /// The configuration of a run that can start: at least one server, a
    /// positive rate, at least one attempt per query.
    pub open spec fn wf(&self) -> bool {
        self.dns_list@.len() > 0 && self.qps > 0 && self.timeout_retries >= 1
    }

    /// The defaults: the servers `8.8.8.8:53` and `8.8.4.4:53`, 5000
    /// queries per second, 10 attempts per query.
    pub fn new() -> (c: Config)
        ensures
            c.dns_list@ == seq![
                ServerAddr::V4 { a: 8, b: 8, c: 8, d: 8, port: 53 },
                ServerAddr::V4 { a: 8, b: 8, c: 4, d: 4, port: 53 },
            ],
            c.qps == DEFAULT_QPS,
            c.timeout_retries == DEFAULT_TIMEOUT_RETRIES,
            c.wf(),
    {
        let mut dns_list: Vec<ServerAddr> = Vec::new();
        dns_list.push(ServerAddr::V4 { a: 8, b: 8, c: 8, d: 8, port: 53 });
        dns_list.push(ServerAddr::V4 { a: 8, b: 8, c: 4, d: 4, port: 53 });
        Config { dns_list, qps: DEFAULT_QPS, timeout_retries: DEFAULT_TIMEOUT_RETRIES }
    }

    /// Attempts per query.
    pub fn timeout_retries(&self) -> (n: u32)
        ensures
            n == self.timeout_retries,
    {
        self.timeout_retries
    }

    /// Aggregate queries per second.
    pub fn qps(&self) -> (n: u32)
        ensures
            n == self.qps,
    {
        self.qps
    }

    /// The servers to ask, in the order they take turns.
    pub fn dns_list(&self) -> (list: &Vec<ServerAddr>)
        ensures
            list@ == self.dns_list@,
    {
        &self.dns_list
    }

    /// True when a run can start with this configuration.
    pub fn is_valid(&self) -> (b: bool)
        ensures
            b == self.wf(),
    {
        self.dns_list.len() > 0 && self.qps > 0 && self.timeout_retries >= 1
    }

    /// Takes over what `raw` sets: the servers (each entry read as an
    /// address, with port 53 when it gives none), the number of attempts,
    /// the rate. A key that is absent leaves its setting as it was. If an
    /// entry names no server, nothing is changed and the error carries the
    /// first such entry.
    pub fn parse(&mut self, raw: &RawConfig) -> (r: ConfigResult<()>)
        ensures
            r is Ok <==> (raw.dns is Some ==> all_servers(raw.dns->0@)),
            r is Ok ==> {
                &&& final(self).dns_list@ == if raw.dns is Some {
                    servers_of(raw.dns->0@)
                } else {
                    old(self).dns_list@
                }
                &&& final(self).timeout_retries == if raw.retry is Some {
                    raw.retry->0
                } else {
                    old(self).timeout_retries
                }
                &&& final(self).qps == if raw.queries_per_second is Some {
                    raw.queries_per_second->0
                } else {
                    old(self).qps
                }
            },
            r is Err ==> {
                &&& *final(self) == *old(self)
                &&& r->Err_0 is AddrParseError
                &&& exists|i: int|
                    #[trigger] first_bad_entry(raw.dns->0@, i) && r->Err_0->AddrParseError_0@
                        == raw.dns->0@[i]@
            },
    {
        match &raw.dns {
            Some(entries) => {
                assert(raw.dns->0 == *entries);
                let mut servers: Vec<ServerAddr> = Vec::new();
                let mut i: usize = 0;
                while i < entries.len()
                    invariant
                        i <= entries.len(),
                        servers@.len() == i,
                        forall|j: int| 0 <= j < i ==> server_of(#[trigger] entries@[j]@) is Some,
                        forall|j: int| 0 <= j < i ==> servers@[j] == server_of(entries@[j]@)->0,
                        *self == *old(self),
                        raw.dns is Some && raw.dns->0 == *entries,
                    decreases entries.len() - i,
                {
                    match parse_server(entries[i].as_str()) {
                        Some(addr) => {
                            servers.push(addr);
                        },
                        None => {
                            let text = entries[i].clone();
                            proof {
                                assert(server_of(entries@[i as int]@) is None);
                                assert(first_bad_entry(entries@, i as int) && text@
                                    == entries@[i as int]@);
                            }
                            return Err(ConfigError::AddrParseError(text));
                        },
                    }
                    i += 1;
                }
                assert(servers@ == servers_of(entries@));
                self.dns_list = servers;
            },
            None => {},
        }
        match raw.retry {
            Some(retry) => {
                self.timeout_retries = retry;
            },
            None => {},
        }
        match raw.queries_per_second {
            Some(qps) => {
                self.qps = qps;
            },
            None => {},
        }
        Ok(())
    }
}

impl Default for Config {
    fn default() -> (c: Config)
        ensures
            c.dns_list@ == seq![
                ServerAddr::V4 { a: 8, b: 8, c: 8, d: 8, port: 53 },
                ServerAddr::V4 { a: 8, b: 8, c: 4, d: 4, port: 53 },
            ],
            c.qps == DEFAULT_QPS,
            c.timeout_retries == DEFAULT_TIMEOUT_RETRIES,
    {
        Config::new()
    }
}

} // verus!
