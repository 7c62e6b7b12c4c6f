//! Settings of the resolver proper, each optional, with its default.

use vstd::prelude::*;
use crate::addr::ServerAddr;

verus! {

/// Attempts per query when none is set.
pub const DEFAULT_TIMEOUT_RETRIES: u32 = 10;

/// Tasks in flight when no number is set.
pub const DEFAULT_TASK_BUFFER_SIZE: usize = 100;

/// The servers asked when none is set: `8.8.8.8:53` and `8.8.4.4:53`.
pub open spec fn default_dns_servers() -> Seq<ServerAddr> {
    seq![
        ServerAddr::V4 { a: 8, b: 8, c: 8, d: 8, port: 53 },
        ServerAddr::V4 { a: 8, b: 8, c: 4, d: 4, port: 53 },
    ]
}

/// The settings, each as set or left unset.
#[derive(Debug, PartialEq, Eq)]
pub struct Config {
    pub dns_servers: Option<Vec<ServerAddr>>,
    pub timeout_retries: Option<u32>,
    pub task_buffer_size: Option<usize>,
}

impl Config {
    /// Nothing set.
    pub fn new() -> (c: Config)
        ensures
            c.dns_servers is None,
            c.timeout_retries is None,
            c.task_buffer_size is None,
    {
        Config { dns_servers: None, timeout_retries: None, task_buffer_size: None }
    }

    /// Sets the servers.
    pub fn dns_servers(self, servers: Vec<ServerAddr>) -> (c: Config)
        ensures
            c.dns_servers == Some(servers),
            c.timeout_retries == self.timeout_retries,
            c.task_buffer_size == self.task_buffer_size,
    {
        Config {
            dns_servers: Some(servers),
            timeout_retries: self.timeout_retries,
            task_buffer_size: self.task_buffer_size,
        }
    }

    /// Sets the attempts per query.
    pub fn timeout_retries(self, count: u32) -> (c: Config)
        ensures
            c.dns_servers == self.dns_servers,
            c.timeout_retries == Some(count),
            c.task_buffer_size == self.task_buffer_size,
    {
        Config {
            dns_servers: self.dns_servers,
            timeout_retries: Some(count),
            task_buffer_size: self.task_buffer_size,
        }
    }

    /// Sets the number of tasks in flight.
    pub fn task_buffer_size(self, size: usize) -> (c: Config)
        ensures
            c.dns_servers == self.dns_servers,
            c.timeout_retries == self.timeout_retries,
            c.task_buffer_size == Some(size),
    {
        Config {
            dns_servers: self.dns_servers,
            timeout_retries: self.timeout_retries,
            task_buffer_size: Some(size),
        }
    }

    /// The servers, as set or by default.
    pub fn get_dns_servers(&self) -> (servers: Vec<ServerAddr>)
        ensures
            servers@ == match self.dns_servers {
                Some(list) => list@,
                None => default_dns_servers(),
            },
    {
        match &self.dns_servers {
            Some(list) => {
                let mut servers: Vec<ServerAddr> = Vec::new();
                let mut i: usize = 0;
                while i < list.len()
                    invariant
                        i <= list.len(),
                        servers@ == list@.subrange(0, i as int),
                    decreases list.len() - i,
                {
                    servers.push(list[i]);
                    i += 1;
                    assert(servers@ == list@.subrange(0, i as int));
                }
                assert(list@.subrange(0, list.len() as int) == list@);
                servers
            },
            None => {
                let mut servers: Vec<ServerAddr> = Vec::new();
                servers.push(ServerAddr::V4 { a: 8, b: 8, c: 8, d: 8, port: 53 });
                servers.push(ServerAddr::V4 { a: 8, b: 8, c: 4, d: 4, port: 53 });
                assert(servers@ == default_dns_servers());
                servers
            },
        }
    }

    /// The attempts per query, as set or by default.
    pub fn get_timeout_retries(&self) -> (count: u32)
        ensures
            count == match self.timeout_retries {
                Some(n) => n,
                None => DEFAULT_TIMEOUT_RETRIES,
            },
    {
        match self.timeout_retries {
            Some(n) => n,
            None => DEFAULT_TIMEOUT_RETRIES,
        }
    }

    /// The number of tasks in flight, as set or by default.
    pub fn get_task_buffer_size(&self) -> (size: usize)
        ensures
            size == match self.task_buffer_size {
                Some(n) => n,
                None => DEFAULT_TASK_BUFFER_SIZE,
            },
    {
        match self.task_buffer_size {
            Some(n) => n,
            None => DEFAULT_TASK_BUFFER_SIZE,
        }
    }
}

} // verus!
