//! Name servers with a rate of their own: each server may be handed out a
//! given number of times within any one second of its own counting.

use vstd::prelude::*;
use crate::addr::ServerAddr;

verus! {

/// The length of a counting window, in nanoseconds: one second.
pub const WINDOW_NANOS: u64 = 1_000_000_000;

/// A name server and the queries per second it may be sent.
#[derive(Copy, Clone, Debug, PartialEq, Eq, Structural)]
pub struct Dns {
    pub addr: ServerAddr,
    pub qps: u32,
}

/// A name server that counts how often it was handed out in the current
/// window. Time is a count of nanoseconds that the caller reads off a
/// monotonic clock.
#[derive(Copy, Clone, Debug, PartialEq, Eq, Structural)]
pub struct CountingDns {
    pub addr: ServerAddr,
    pub max_qps: u32,
    pub qps: u32,
    pub instant: u64,
}

/// A list of counting name servers.
#[derive(Debug, PartialEq, Eq)]
pub struct DnsStore {
    pub servers: Vec<CountingDns>,
}

impl Dns {
    /// A server and its rate.
    pub fn new(addr: ServerAddr, qps: u32) -> (d: Dns)
        ensures
            d == (Dns { addr, qps }),
    {
        Dns { addr, qps }
    }

    /// The server of `dns` with its full rate.
    pub fn from(dns: &CountingDns) -> (d: Dns)
        ensures
            d == (Dns { addr: dns.addr, qps: dns.max_qps }),
    {
        Dns { addr: dns.addr, qps: dns.max_qps }
    }
}

impl CountingDns {
    /// True when a full window has passed at `now` since counting began.
    pub open spec fn window_over(&self, now: u64) -> bool {
        now >= self.instant && now - self.instant >= WINDOW_NANOS
    }

    /// The state after the server was asked for at `now`.
    pub open spec fn after_get(&self, now: u64) -> CountingDns {
        if self.window_over(now) {
            CountingDns { qps: 1, instant: now, ..*self }
        } else if self.qps < self.max_qps {
            CountingDns { qps: (self.qps + 1) as u32, ..*self }
        } else {
            *self
        }
    }

    /// True when the server is handed out at `now`.
    pub open spec fn available(&self, now: u64) -> bool {
        self.window_over(now) || self.qps < self.max_qps
    }

    /// `dns`, not yet handed out, its window beginning at `now`.
    pub fn from(dns: &Dns, now: u64) -> (c: CountingDns)
        ensures
            c == (CountingDns { addr: dns.addr, max_qps: dns.qps, qps: 0, instant: now }),
    {
        CountingDns { addr: dns.addr, max_qps: dns.qps, qps: 0, instant: now }
    }

    /// Hands the server out at `now` if its rate allows: within a window,
    /// while it was handed out fewer times than its rate; after a full
    /// window, always, and a new window begins.
    pub fn get_addr(&mut self, now: u64) -> (r: Option<ServerAddr>)
        ensures
            *final(self) == old(self).after_get(now),
            r == if old(self).available(now) {
                Some(old(self).addr)
            } else {
                None
            },
    {
        if now >= self.instant && now - self.instant >= WINDOW_NANOS {
            self.instant = now;
            self.qps = 1;
            Some(self.addr)
        } else if self.qps < self.max_qps {
            self.qps = self.qps + 1;
            Some(self.addr)
        } else {
            None
        }
    }
}

/// The sum of the rates of `servers`.
pub open spec fn rate_sum(servers: Seq<CountingDns>) -> nat
    decreases servers.len(),
{
    if servers.len() == 0 {
        0
    } else {
        rate_sum(servers.drop_last()) + servers.last().max_qps as nat
    }
}

/// `i` is the first server of `servers` that is handed out at `now`.
pub open spec fn first_available(servers: Seq<CountingDns>, now: u64, i: int) -> bool {
    &&& 0 <= i < servers.len()
    &&& servers[i].available(now)
    &&& forall|j: int| 0 <= j < i ==> !(#[trigger] servers[j]).available(now)
}

impl DnsStore {
    /// The servers of `servers`, none handed out yet, their windows
    /// beginning at `now`.
    pub fn new(servers: &Vec<Dns>, now: u64) -> (s: DnsStore)
        ensures
            s.servers@.len() == servers@.len(),
            forall|i: int|
                0 <= i < servers@.len() ==> #[trigger] s.servers@[i] == (CountingDns {
                    addr: servers@[i].addr,
                    max_qps: servers@[i].qps,
                    qps: 0,
                    instant: now,
                }),
    {
        let mut counting: Vec<CountingDns> = Vec::new();
        let mut i: usize = 0;
        while i < servers.len()
            invariant
                i <= servers.len(),
                counting@.len() == i,
                forall|j: int|
                    0 <= j < i ==> #[trigger] counting@[j] == (CountingDns {
                        addr: servers@[j].addr,
                        max_qps: servers@[j].qps,
                        qps: 0,
                        instant: now,
                    }),
            decreases servers.len() - i,
        {
            counting.push(CountingDns::from(&servers[i], now));
            i += 1;
        }
        DnsStore { servers: counting }
    }

    /// Hands out the first server whose rate allows it at `now`. Servers
    /// before it are left as they were; with none available, all are.
    pub fn get_dns(&mut self, now: u64) -> (r: Option<ServerAddr>)
        ensures
            final(self).servers@.len() == old(self).servers@.len(),
            match r {
                Some(addr) => exists|i: int| #[trigger]
                    first_available(old(self).servers@, now, i) && addr == old(self).servers@[i].addr
                        && final(self).servers@ == old(self).servers@.update(
                        i,
                        old(self).servers@[i].after_get(now),
                    ),
                None => final(self).servers@ == old(self).servers@ && forall|j: int|
                    0 <= j < old(self).servers@.len() ==> !(#[trigger] old(self).servers@[j]).available(
                        now,
                    ),
            },
    {
        let mut i: usize = 0;
        while i < self.servers.len()
            invariant
                i <= self.servers.len(),
                self.servers@ == old(self).servers@,
                forall|j: int| 0 <= j < i ==> !(#[trigger] old(self).servers@[j]).available(now),
            decreases self.servers.len() - i,
        {
            let mut server = self.servers[i];
            match server.get_addr(now) {
                Some(addr) => {
                    self.servers[i] = server;
                    proof {
                        assert(first_available(old(self).servers@, now, i as int));
                    }
                    return Some(addr);
                },
                None => {},
            }
            i += 1;
        }
        None
    }

    /// The servers with their full rates.
    pub fn get_hosts(&self) -> (hosts: Vec<Dns>)
        ensures
            hosts@.len() == self.servers@.len(),
            forall|i: int|
                0 <= i < hosts@.len() ==> #[trigger] hosts@[i] == (Dns {
                    addr: self.servers@[i].addr,
                    qps: self.servers@[i].max_qps,
                }),
    {
        let mut hosts: Vec<Dns> = Vec::new();
        let mut i: usize = 0;
        while i < self.servers.len()
            invariant
                i <= self.servers.len(),
                hosts@.len() == i,
                forall|j: int|
                    0 <= j < i ==> #[trigger] hosts@[j] == (Dns {
                        addr: self.servers@[j].addr,
                        qps: self.servers@[j].max_qps,
                    }),
            decreases self.servers.len() - i,
        {
            hosts.push(Dns::from(&self.servers[i]));
            i += 1;
        }
        hosts
    }

    /// The sum of the rates of all servers (stopping at the largest
    /// `usize`).
    pub fn overall_qps(&self) -> (sum: usize)
        ensures
            sum == if rate_sum(self.servers@) > usize::MAX {
                usize::MAX
            } else {
                rate_sum(self.servers@) as usize
            },
    {
        let mut sum: usize = 0;
        let mut i: usize = 0;
        while i < self.servers.len()
            invariant
                i <= self.servers.len(),
                sum == if rate_sum(self.servers@.subrange(0, i as int)) > usize::MAX {
                    usize::MAX
                } else {
                    rate_sum(self.servers@.subrange(0, i as int)) as usize
                },
            decreases self.servers.len() - i,
        {
            proof {
                let next = self.servers@.subrange(0, i as int + 1);
                assert(next.drop_last() == self.servers@.subrange(0, i as int));
                assert(next.last() == self.servers@[i as int]);
            }
            sum = sum.saturating_add(self.servers[i].max_qps as usize);
            i += 1;
        }
        proof {
            assert(self.servers@.subrange(0, self.servers.len() as int) == self.servers@);
        }
        sum
    }

    /// The mean rate of the servers, rounded down.
    pub fn average_qps(&self) -> (mean: usize)
        requires
            self.servers@.len() > 0,
        ensures
            mean == (if rate_sum(self.servers@) > usize::MAX {
                usize::MAX as int
            } else {
                rate_sum(self.servers@) as int
            }) / (self.servers@.len() as int),
    {
        self.overall_qps() / self.servers.len()
    }
}

/// A list of name servers that takes turns.
#[derive(Debug, PartialEq, Eq)]
pub struct LevellingClientFactory {
    pub dns_server_addrs: Vec<ServerAddr>,
    pub last_chosen: usize,
}

impl LevellingClientFactory {
    /// The servers of `dns_server_addrs`, the first one next.
    pub fn new(dns_server_addrs: Vec<ServerAddr>) -> (f: LevellingClientFactory)
        ensures
            f.dns_server_addrs == dns_server_addrs,
            f.last_chosen == 0,
    {
        LevellingClientFactory { dns_server_addrs, last_chosen: 0 }
    }

    /// The server whose turn it is; the turn passes to the next one, and
    /// from the last back to the first.
    pub fn next_namesrv(&mut self) -> (addr: ServerAddr)
        requires
            old(self).dns_server_addrs@.len() > 0,
            old(self).last_chosen < usize::MAX,
        ensures
            addr == old(self).dns_server_addrs@[old(self).last_chosen as int % old(
                self,
            ).dns_server_addrs@.len() as int],
            final(self).last_chosen == old(self).last_chosen + 1,
            final(self).dns_server_addrs == old(self).dns_server_addrs,
    {
        let idx: usize = self.last_chosen % self.dns_server_addrs.len();
        self.last_chosen = self.last_chosen + 1;
        self.dns_server_addrs[idx]
    }
}

} // verus!
