//! The trigger pacer: once a second it hands every worker the servers for
//! the queries that worker may start during that second.

use vstd::prelude::*;
use crate::addr::ServerAddr;
use crate::pool::{ceil_div, lemma_ceil_div_bounds};

verus! {

/// The length of a pacing round, in nanoseconds: one second.
pub const ROUND_NANOS: u64 = 1_000_000_000;

/// The pacer's bookkeeping.
#[derive(Debug, PartialEq, Eq)]
pub struct TriggerTimer {
    /// The number of workers that asked for a handle.
    pub handles: usize,
    /// How many queries each worker may start per round.
    pub worker_qps: usize,
    /// How many tokens were sent so far, over all workers.
    pub triggered: usize,
    /// How many tasks the batch holds.
    pub tasks_cnt: usize,
}

/// A worker's end of the pacer: its number, and the capacity of the channel
/// its tokens arrive on.
#[derive(Copy, Clone, Debug, PartialEq, Eq, Structural)]
pub struct TriggerHandle {
    pub worker: usize,
    pub capacity: usize,
}

/// The smaller of `n` and the largest `usize`.
pub open spec fn capped(n: int) -> usize {
    if n > usize::MAX {
        usize::MAX
    } else {
        n as usize
    }
}

/// The tokens of one round, for each worker: `count` servers taken from
/// `dns_list` in turn, starting over at its end.
pub open spec fn round_robin(dns_list: Seq<ServerAddr>, count: nat) -> Seq<ServerAddr> {
    Seq::new(count, |i: int| dns_list[i % (dns_list.len() as int)])
}

impl TriggerTimer {
    /// A pacer for `tasks_cnt` tasks and no workers yet.
    pub fn new(tasks_cnt: usize, worker_qps: usize) -> (t: TriggerTimer)
        ensures
            t == (TriggerTimer { handles: 0, worker_qps, triggered: 0, tasks_cnt }),
    {
        TriggerTimer { handles: 0, worker_qps, triggered: 0, tasks_cnt }
    }

    /// Registers one more worker. Its channel holds as many tokens as the
    /// worker may start queries per round.
    pub fn get_handle(&mut self) -> (h: TriggerHandle)
        requires
            old(self).handles < usize::MAX,
        ensures
            h == (TriggerHandle { worker: old(self).handles, capacity: old(self).worker_qps }),
            *final(self) == (TriggerTimer { handles: (old(self).handles + 1) as usize, ..*old(self) }),
    {
        let h = TriggerHandle { worker: self.handles, capacity: self.worker_qps };
        self.handles = self.handles + 1;
        h
    }

    /// True once as many tokens were sent as there are tasks: the pacer's
    /// work is done.
    pub fn finished(&self) -> (b: bool)
        ensures
            b == (self.triggered >= self.tasks_cnt),
    {
        self.triggered >= self.tasks_cnt
    }

    /// One round. Returns the tokens that every registered worker is sent
    /// during this round, in order: as many as a worker may start queries
    /// per round, the servers of `dns_list` taken in turn. Counts one token
    /// sent per token and worker (the count stops at the largest `usize`).
    pub fn trigger_qps(&mut self, dns_list: &Vec<ServerAddr>) -> (tokens: Vec<ServerAddr>)
        requires
            dns_list@.len() > 0,
        ensures
            tokens@ == round_robin(dns_list@, old(self).worker_qps as nat),
            final(self).triggered == capped(
                old(self).triggered + old(self).worker_qps * old(self).handles,
            ),
            final(self).handles == old(self).handles,
            final(self).worker_qps == old(self).worker_qps,
            final(self).tasks_cnt == old(self).tasks_cnt,
    {
        let mut tokens: Vec<ServerAddr> = Vec::new();
        let mut i: usize = 0;
        while i < self.worker_qps
            invariant
                i <= self.worker_qps,
                dns_list@.len() > 0,
                tokens@ == round_robin(dns_list@, i as nat),
                *self == *old(self),
            decreases self.worker_qps - i,
        {
            tokens.push(dns_list[i % dns_list.len()]);
            i += 1;
            assert(tokens@ == round_robin(dns_list@, i as nat));
        }
        let sent: usize = match self.worker_qps.checked_mul(self.handles) {
            Some(n) => n,
            None => usize::MAX,
        };
        self.triggered = self.triggered.saturating_add(sent);
        tokens
    }

    /// How long to wait before the next round: what is left of the second
    /// after a round that took `elapsed_nanos`, nothing if it took longer.
    pub fn pause(elapsed_nanos: u64) -> (wait: u64)
        ensures
            wait == pause_of(elapsed_nanos as int),
            elapsed_nanos + wait >= ROUND_NANOS,
    {
        if elapsed_nanos < ROUND_NANOS {
            ROUND_NANOS - elapsed_nanos
        } else {
            0
        }
    }
}

/// Rate law: with `workers` workers each allowed `ceil(qps / workers)`
/// starts per round, a round starts at least `qps` queries and fewer than
/// `qps + workers`.
pub proof fn lemma_round_within_rate(qps: nat, workers: nat)
    requires
        workers >= 1,
    ensures
        qps <= ceil_div(qps as int, workers as int) * workers < qps + workers,
{
    lemma_ceil_div_bounds(qps as int, workers as int);
}

/// Every token of a round is one of the listed servers, and the round holds
/// each server as often as any other, give or take one.
pub proof fn lemma_round_robin_members(dns_list: Seq<ServerAddr>, count: nat, i: int)
    requires
        dns_list.len() > 0,
        0 <= i < count,
    ensures
        dns_list.contains(round_robin(dns_list, count)[i]),
        i + dns_list.len() < count ==> round_robin(dns_list, count)[i + dns_list.len()]
            == round_robin(dns_list, count)[i],
{
    let n = dns_list.len() as int;
    assert(0 <= i % n < n) by (nonlinear_arith)
        requires
            n > 0,
            i >= 0,
    ;
    assert(dns_list[i % n] == round_robin(dns_list, count)[i]);
    assert((i + n) % n == i % n) by (nonlinear_arith)
        requires
            n > 0,
            i >= 0,
    ;
}

/// Rounds law: a pacer that sends `per_round` tokens a round has sent one
/// for each of `tasks` tasks after `ceil(tasks / per_round)` rounds, and
/// not before.
pub proof fn lemma_rounds_needed(tasks: nat, per_round: nat, rounds: nat)
    requires
        per_round >= 1,
    ensures
        rounds * per_round >= tasks <==> rounds >= ceil_div(tasks as int, per_round as int),
{
    lemma_ceil_div_bounds(tasks as int, per_round as int);
    let needed = ceil_div(tasks as int, per_round as int);
    if rounds >= needed {
        assert(rounds * per_round >= needed * per_round) by (nonlinear_arith)
            requires
                rounds >= needed,
                per_round >= 1,
        ;
    } else {
        assert(rounds * per_round <= needed * per_round - per_round) by (nonlinear_arith)
            requires
                rounds + 1 <= needed,
                per_round >= 1,
        ;
    }
}

/// The pause that follows a round which took `elapsed` nanoseconds.
pub open spec fn pause_of(elapsed: int) -> int {
    if elapsed < ROUND_NANOS {
        ROUND_NANOS - elapsed
    } else {
        0
    }
}

/// The readings of the pacer's clock, in nanoseconds, at which its rounds
/// begin and end: a round ends no earlier than it begins, and the next one
/// begins once the pause after it is over.
pub open spec fn paced(begins: Seq<int>, ends: Seq<int>) -> bool {
    &&& begins.len() == ends.len()
    &&& forall|i: int| 0 <= i < begins.len() ==> #[trigger] begins[i] <= ends[i]
    &&& forall|i: int|
        0 <= i < begins.len() - 1 ==> begins[i + 1] >= #[trigger] ends[i] + pause_of(
            ends[i] - begins[i],
        )
}

/// A token of round `round` is released at `time`: while that round lasts.
pub open spec fn released(begins: Seq<int>, ends: Seq<int>, round: int, time: int) -> bool {
    0 <= round < begins.len() && begins[round] <= time <= ends[round]
}

/// Every round releases its tokens the moment it begins.
pub open spec fn prompt(begins: Seq<int>, ends: Seq<int>) -> bool {
    forall|i: int| 0 <= i < begins.len() ==> #[trigger] ends[i] == begins[i]
}

/// Rounds begin at least a second apart, and none begins before the one
/// before it has ended.
pub proof fn lemma_rounds_a_second_apart(begins: Seq<int>, ends: Seq<int>, i: int, j: int)
    requires
        paced(begins, ends),
        0 <= i < j < begins.len(),
    ensures
        begins[j] >= begins[i] + (j - i) * ROUND_NANOS,
        begins[j] >= ends[i] + pause_of(ends[i] - begins[i]),
    decreases j - i,
{
    assert(begins[j] >= ends[j - 1] + pause_of(ends[j - 1] - begins[j - 1]));
    assert(begins[j - 1] <= ends[j - 1]);
    if i < j - 1 {
        lemma_rounds_a_second_apart(begins, ends, i, j - 1);
    }
}

/// Window law: two tokens released less than a second apart belong to the
/// same round or to two rounds that follow one another. So any window of
/// one second holds the tokens of at most two rounds, and each round
/// releases to every worker as many tokens as the worker may start queries
/// per second.
pub proof fn lemma_window_meets_two_rounds(
    begins: Seq<int>,
    ends: Seq<int>,
    i: int,
    t: int,
    j: int,
    u: int,
    window: int,
)
    requires
        paced(begins, ends),
        released(begins, ends, i, t),
        released(begins, ends, j, u),
        i <= j,
        window <= t < window + ROUND_NANOS,
        window <= u < window + ROUND_NANOS,
    ensures
        j == i || j == i + 1,
{
    if j >= i + 2 {
        lemma_rounds_a_second_apart(begins, ends, i + 1, j);
        lemma_rounds_a_second_apart(begins, ends, i, i + 1);
    }
}

/// Rate law: when every round releases its tokens the moment it begins,
/// all tokens released within any window of one second belong to one
/// round. With `ceil(qps / workers)` tokens for each of at most `workers`
/// workers, that is fewer than `qps + workers` tokens per window.
pub proof fn lemma_window_within_rate(
    begins: Seq<int>,
    ends: Seq<int>,
    i: int,
    t: int,
    j: int,
    u: int,
    window: int,
)
    requires
        paced(begins, ends),
        prompt(begins, ends),
        released(begins, ends, i, t),
        released(begins, ends, j, u),
        window <= t < window + ROUND_NANOS,
        window <= u < window + ROUND_NANOS,
    ensures
        i == j,
{
    if i < j {
        lemma_rounds_a_second_apart(begins, ends, i, j);
        assert(ends[i] == begins[i]);
    } else if j < i {
        lemma_rounds_a_second_apart(begins, ends, j, i);
        assert(ends[j] == begins[j]);
    }
}

/// A round sends fewer than `qps + workers` tokens in all: `ceil(qps /
/// workers)` to each of `handles` workers, of which there are no more than
/// `workers`.
pub proof fn lemma_round_size(qps: nat, workers: nat, handles: nat)
    requires
        workers >= 1,
        handles <= workers,
    ensures
        ceil_div(qps as int, workers as int) * handles < qps + workers,
{
    lemma_ceil_div_bounds(qps as int, workers as int);
    let each = ceil_div(qps as int, workers as int);
    assert(each * handles <= each * workers) by (nonlinear_arith)
        requires
            each >= 0,
            handles <= workers,
    ;
}

/// Once the pacer has sent a token for every task, each worker has been
/// sent at least as many tokens as its share holds tasks: no task waits
/// for a token that never comes.
pub proof fn lemma_tokens_cover_shares(
    tasks: nat,
    workers: nat,
    handles: nat,
    worker_qps: nat,
    rounds: nat,
)
    requires
        1 <= handles <= workers,
        rounds * worker_qps * handles >= tasks,
    ensures
        rounds * worker_qps >= ceil_div(tasks as int, workers as int),
{
    let each = rounds * worker_qps;
    assert(each * workers >= each * handles) by (nonlinear_arith)
        requires
            each >= 0,
            handles <= workers,
    ;
    lemma_rounds_needed(tasks, workers, each);
}

/// The server that the token at place `place` of a worker's channel names,
/// counting from the first token of the first round.
pub open spec fn server_at(dns_list: Seq<ServerAddr>, worker_qps: nat, place: int) -> ServerAddr {
    dns_list[(place % (worker_qps as int)) % (dns_list.len() as int)]
}

/// Token order law: the tokens of the rounds arrive one round after the
/// other, so the server a task is started with depends only on its place
/// in its worker's share, whenever the rounds happen.
pub proof fn lemma_token_order(
    dns_list: Seq<ServerAddr>,
    worker_qps: nat,
    round: nat,
    index: int,
)
    requires
        dns_list.len() > 0,
        0 <= index < worker_qps,
    ensures
        round_robin(dns_list, worker_qps)[index] == server_at(
            dns_list,
            worker_qps,
            round * worker_qps + index,
        ),
{
    let q = worker_qps as int;
    assert((round * q + index) % q == index) by (nonlinear_arith)
        requires
            0 <= index < q,
            round >= 0,
    ;
}

} // verus!
