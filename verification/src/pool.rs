//! The worker pool, as far as it decides anything: how the tasks are shared
//! out among the workers, how many queries each worker may start per second,
//! and which lines a finished task puts into its sink.

use vstd::prelude::*;
use crate::message::QueryType;
use crate::text::{strip_trailing_dot, without_trailing_dot};

verus! {

/// One input to resolve: the name, the kind of lookup, and the number of
/// the sink its results go to.
#[derive(Debug, PartialEq, Eq)]
pub struct ResolveTask {
    pub tx: usize,
    pub name: String,
    pub qtype: QueryType,
}

/// One line for a sink: the input it answers, and the text to write.
#[derive(Debug, PartialEq, Eq)]
pub struct Resolved {
    pub tx: usize,
    pub name: String,
    pub line: String,
}

/// The text written for an answer: a name found by a reverse lookup loses
/// its trailing dot, anything else is written as it is.
pub open spec fn line_text(qtype: QueryType, answer: Seq<char>) -> Seq<char> {
    if qtype is PTR {
        without_trailing_dot(answer)
    } else {
        answer
    }
}

/// The text written for an answer.
pub fn output_line(qtype: QueryType, answer: &str) -> (line: String)
    ensures
        line@ == line_text(qtype, answer@),
{
    match qtype {
        QueryType::PTR => strip_trailing_dot(answer),
        _ => answer.to_owned(),
    }
}

impl ResolveTask {
    /// The lines that go to the sink for the given answers: one per
    /// answer, in order.
    pub fn resolve(&self, answers: &Vec<String>) -> (out: Vec<Resolved>)
        ensures
            out@.len() == answers@.len(),
            forall|i: int|
                0 <= i < out@.len() ==> (#[trigger] out@[i]).tx == self.tx && out@[i].name@
                    == self.name@ && out@[i].line@ == line_text(self.qtype, answers@[i]@),
    {
        let mut out: Vec<Resolved> = Vec::new();
        let mut i: usize = 0;
        while i < answers.len()
            invariant
                i <= answers.len(),
                out@.len() == i,
                forall|j: int|
                    0 <= j < i ==> (#[trigger] out@[j]).tx == self.tx && out@[j].name@
                        == self.name@ && out@[j].line@ == line_text(self.qtype, answers@[j]@),
            decreases answers.len() - i,
        {
            let line = output_line(self.qtype, answers[i].as_str());
            out.push(Resolved { tx: self.tx, name: self.name.clone(), line });
            i += 1;
        }
        out
    }
}

/// `a / b`, rounded up.
pub open spec fn ceil_div(a: int, b: int) -> int
    recommends
        b > 0,
{
    if a % b == 0 {
        a / b
    } else {
        a / b + 1
    }
}

/// `a / b`, rounded up.
pub fn div_ceil(a: usize, b: usize) -> (q: usize)
    requires
        b >= 1,
    ensures
        q == ceil_div(a as int, b as int),
{
    if a % b == 0 {
        a / b
    } else {
        assert(a / b < a) by (nonlinear_arith)
            requires
                b >= 1,
                a % b != 0,
                a >= 0,
        ;
        a / b + 1
    }
}

/// Rounding up overshoots by less than one divisor: `ceil(a / b) * b` lies
/// in `a .. a + b`.
pub proof fn lemma_ceil_div_bounds(a: int, b: int)
    requires
        a >= 0,
        b >= 1,
    ensures
        a <= ceil_div(a, b) * b < a + b,
        ceil_div(a, b) >= 0,
        a > 0 ==> ceil_div(a, b) >= 1,
{
    assert(a == (a / b) * b + a % b && 0 <= a % b < b) by (nonlinear_arith)
        requires
            b >= 1,
    ;
    assert((a / b + 1) * b == (a / b) * b + b) by (nonlinear_arith);
    assert(a / b >= 0) by (nonlinear_arith)
        requires
            a >= 0,
            b >= 1,
    ;
    if a > 0 && ceil_div(a, b) < 1 {
        assert(ceil_div(a, b) * b <= 0) by (nonlinear_arith)
            requires
                ceil_div(a, b) <= 0,
                b >= 1,
        ;
    }
}

/// Trusted: `num_cpus::get` returns the number of logical CPUs available to
/// this process, which its documentation promises to be at least one. The
/// number depends on the machine, so nothing else is claimed of it.
#[verifier::external_body]
fn cpu_count() -> (n: usize)
    ensures
        n >= 1,
{
    num_cpus::get()
}

/// A pool of workers with the tasks handed to it so far.
#[derive(Debug, PartialEq, Eq)]
pub struct ResolverThreadPool {
    pub tasks: Vec<ResolveTask>,
    pub workers_cnt: usize,
}

/// How a pool goes to work.
#[derive(Debug, PartialEq, Eq)]
pub struct PoolPlan {
    /// The tasks of each worker.
    pub chunks: Vec<Vec<ResolveTask>>,
    /// How many queries each worker may start per second, which is also
    /// the depth of its buffer and the capacity of its trigger channel.
    pub worker_qps: usize,
    /// The number of tasks in all.
    pub tasks_cnt: usize,
}

/// The tasks of `chunks`, one chunk after the other.
pub open spec fn joined(chunks: Seq<Vec<ResolveTask>>) -> Seq<ResolveTask>
    decreases chunks.len(),
{
    if chunks.len() == 0 {
        Seq::empty()
    } else {
        joined(chunks.drop_last()) + chunks.last()@
    }
}

/// `chunks` share out `tasks` in order, `size` tasks to each chunk but the
/// last, which holds what is left: at least one task, at most `size`.
pub open spec fn is_partition(
    chunks: Seq<Vec<ResolveTask>>,
    tasks: Seq<ResolveTask>,
    size: int,
) -> bool {
    &&& joined(chunks) == tasks
    &&& chunks.len() == ceil_div(tasks.len() as int, size)
    &&& forall|k: int| 0 <= k < chunks.len() - 1 ==> (#[trigger] chunks[k])@.len() == size
    &&& chunks.len() > 0 ==> 1 <= chunks.last()@.len() <= size
}

/// Shares `tasks` out in consecutive chunks of `size`.
fn split_chunks(tasks: Vec<ResolveTask>, size: usize) -> (chunks: Vec<Vec<ResolveTask>>)
    requires
        size >= 1,
    ensures
        is_partition(chunks@, tasks@, size as int),
{
    let ghost all = tasks@;
    let total: usize = tasks.len();
    let mut rest = tasks;
    let mut chunks: Vec<Vec<ResolveTask>> = Vec::new();
    let ghost mut start: int = 0;
    assert(0 == 0 * size) by (nonlinear_arith);
    assert(joined(chunks@) + rest@ == all);
    while rest.len() > size
        invariant
            size >= 1,
            total == all.len(),
            start == chunks@.len() * size,
            start + rest@.len() == total,
            joined(chunks@) + rest@ == all,
            forall|k: int| 0 <= k < chunks@.len() ==> (#[trigger] chunks@[k])@.len() == size,
        decreases rest.len(),
    {
        let ghost whole = rest@;
        let ghost before = chunks@;
        let tail = rest.split_off(size);
        proof {
            assert((before.len() + 1) * size == before.len() * size + size) by (nonlinear_arith);
            assert(whole == rest@ + tail@);
        }
        chunks.push(rest);
        proof {
            assert(chunks@.drop_last() == before);
            assert(joined(chunks@) == joined(before) + rest@);
            assert(joined(chunks@) + tail@ == joined(before) + (rest@ + tail@));
            start = start + size;
        }
        rest = tail;
    }
    let ghost before = chunks@;
    proof {
        lemma_chunk_count(total as int, size as int, before.len() as int);
    }
    if rest.len() > 0 {
        let ghost last = rest@;
        chunks.push(rest);
        proof {
            assert(chunks@.drop_last() == before);
            assert(joined(chunks@) == joined(before) + last);
        }
    } else {
        assert(joined(chunks@) + rest@ == joined(chunks@));
    }
    chunks
}

/// With `k` full chunks of `size` taken from `total` and at most `size`
/// left over, the number of chunks in all is `ceil(total / size)`.
proof fn lemma_chunk_count(total: int, size: int, k: int)
    requires
        size >= 1,
        k >= 0,
        k * size <= total <= k * size + size,
    ensures
        ceil_div(total, size) == if total == k * size {
            k
        } else {
            k + 1
        },
{
    assert(total == (total / size) * size + total % size && 0 <= total % size < size)
        by (nonlinear_arith)
        requires
            size >= 1,
    ;
    let q = total / size;
    let r = total % size;
    if total == k * size {
        assert(q == k && r == 0) by (nonlinear_arith)
            requires
                total == k * size,
                total == q * size + r,
                0 <= r < size,
        ;
    } else if total == k * size + size {
        assert(q == k + 1 && r == 0) by (nonlinear_arith)
            requires
                total == k * size + size,
                total == q * size + r,
                0 <= r < size,
        ;
    } else {
        assert(q == k && r > 0) by (nonlinear_arith)
            requires
                k * size < total < k * size + size,
                total == q * size + r,
                0 <= r < size,
        ;
    }
}

impl ResolverThreadPool {
    /// A pool has at least one worker.
    pub open spec fn wf(&self) -> bool {
        self.workers_cnt >= 1
    }

    /// The size of a worker's share: the number of tasks divided by the
    /// number of workers, rounded up.
    pub open spec fn spec_chunk_size(&self) -> int {
        ceil_div(self.tasks@.len() as int, self.workers_cnt as int)
    }

    /// An empty pool of `num_cpus` workers.
    pub fn new(num_cpus: usize) -> (pool: ResolverThreadPool)
        requires
            num_cpus >= 1,
        ensures
            pool.workers_cnt == num_cpus,
            pool.tasks@.len() == 0,
            pool.wf(),
    {
        ResolverThreadPool { tasks: Vec::new(), workers_cnt: num_cpus }
    }

    /// An empty pool with one worker per logical CPU of this machine.
    pub fn num_cpus() -> (pool: ResolverThreadPool)
        ensures
            pool.tasks@.len() == 0,
            pool.wf(),
    {
        ResolverThreadPool::new(cpu_count())
    }

    /// Hands a task to the pool.
    pub fn spawn(&mut self, task: ResolveTask)
        ensures
            final(self).tasks@ == old(self).tasks@.push(task),
            final(self).workers_cnt == old(self).workers_cnt,
    {
        self.tasks.push(task)
    }

    /// Plans the run at an aggregate rate of `qps` queries per second: each
    /// worker gets a consecutive share of `ceil(tasks / workers)` tasks (the
    /// last share may be shorter, and workers beyond the last share get
    /// none), and may start `ceil(qps / workers)` queries per second.
    pub fn start(self, qps: u32) -> (plan: PoolPlan)
        requires
            self.wf(),
        ensures
            plan.tasks_cnt == self.tasks@.len(),
            plan.worker_qps == ceil_div(qps as int, self.workers_cnt as int),
            self.tasks@.len() == 0 ==> plan.chunks@.len() == 0,
            self.tasks@.len() > 0 ==> is_partition(
                plan.chunks@,
                self.tasks@,
                self.spec_chunk_size(),
            ),
            plan.chunks@.len() <= self.workers_cnt,
    {
        let tasks_cnt: usize = self.tasks.len();
        let workers: usize = self.workers_cnt;
        let worker_qps: usize = div_ceil(qps as usize, workers);
        let chunk_size: usize = div_ceil(tasks_cnt, workers);
        proof {
            lemma_ceil_div_bounds(tasks_cnt as int, workers as int);
        }
        if tasks_cnt == 0 {
            return PoolPlan { chunks: Vec::new(), worker_qps, tasks_cnt };
        }
        let chunks = split_chunks(self.tasks, chunk_size);
        proof {
            lemma_shares_fit(tasks_cnt as int, workers as int);
        }
        PoolPlan { chunks, worker_qps, tasks_cnt }
    }
}

/// Shares of `ceil(total / workers)` tasks are no more than `workers`.
pub proof fn lemma_shares_fit(total: int, workers: int)
    requires
        total >= 1,
        workers >= 1,
    ensures
        ceil_div(total, ceil_div(total, workers)) <= workers,
{
    lemma_ceil_div_bounds(total, workers);
    let size = ceil_div(total, workers);
    lemma_ceil_div_bounds(total, size);
    let n = ceil_div(total, size);
    // n * size < total + size and total <= size * workers
    if n > workers {
        assert(n * size >= (workers + 1) * size) by (nonlinear_arith)
            requires
                n >= workers + 1,
                size >= 1,
        ;
        assert((workers + 1) * size == size * workers + size) by (nonlinear_arith);
    }
}

} // verus!
