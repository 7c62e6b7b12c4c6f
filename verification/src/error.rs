//! Failures of a lookup.

use vstd::prelude::*;
use vstd::string::*;

verus! {

/// How a single wire query can fail.
#[derive(Clone, Debug, PartialEq, Eq)]
pub enum ClientError {
    /// No response within the client's window.
    Timeout,
    /// The exchange was dropped before it finished; the text says why.
    Canceled(String),
    /// Any other wire-level failure, described by the text.
    Other(String),
}

/// How a lookup can fail.
#[derive(Clone, Debug, PartialEq, Eq)]
pub enum ResolverError {
    /// Every attempt timed out.
    ConnectionTimeout,
    /// A name server known only by name could not be turned into an address.
    NameServerNotResolved,
    /// The reverse-lookup walk ran out of name servers without an answer.
    NotFound,
    /// A wire-level failure other than a timeout, described by the text.
    DnsClientError(String),
}

impl ResolverError {
    /// The human-readable description of the error.
    pub open spec fn spec_description(&self) -> Seq<char> {
        match self {
            ResolverError::ConnectionTimeout => "Connection timeout"@,
            ResolverError::NameServerNotResolved => "Failed to resolve nameserver"@,
            ResolverError::NotFound => "Not found"@,
            ResolverError::DnsClientError(text) => text@,
        }
    }

    /// The human-readable description of the error.
    pub fn description(&self) -> (s: String)
        ensures
            s@ == self.spec_description(),
    {
        match self {
            ResolverError::ConnectionTimeout => String::from_str("Connection timeout"),
            ResolverError::NameServerNotResolved => String::from_str("Failed to resolve nameserver"),
            ResolverError::NotFound => String::from_str("Not found"),
            ResolverError::DnsClientError(text) => text.clone(),
        }
    }

    /// Same as [`ResolverError::description`].
    pub fn to_string(&self) -> (s: String)
        ensures
            s@ == self.spec_description(),
    {
        self.description()
    }
}

} // verus!
