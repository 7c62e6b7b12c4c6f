//! A batch: groups of inputs, each with its kind of lookup and its sink.

use vstd::prelude::*;
use crate::message::QueryType;
use crate::pool::{ResolveTask, ResolverThreadPool};

verus! {

/// A group of inputs to resolve with one kind of lookup.
#[derive(Debug, PartialEq, Eq)]
pub struct BatchTask {
    pub input: Vec<String>,
    pub qtype: QueryType,
}

/// The groups of a batch and, for each, the number of its sink.
#[derive(Debug, PartialEq, Eq)]
pub struct Batch {
    pub tasks: Vec<BatchTask>,
    pub outputs: Vec<usize>,
}

/// What a task is, as plain values.
pub struct TaskView {
    pub tx: usize,
    pub name: Seq<char>,
    pub qtype: QueryType,
}

impl View for ResolveTask {
    type V = TaskView;

    open spec fn view(&self) -> TaskView {
        TaskView { tx: self.tx, name: self.name@, qtype: self.qtype }
    }
}

/// The views of a list of tasks.
pub open spec fn task_views(tasks: Seq<ResolveTask>) -> Seq<TaskView> {
    tasks.map_values(|t: ResolveTask| t@)
}

/// One task per input of `group`, in order, all for sink `tx`.
pub open spec fn group_tasks(group: BatchTask, tx: usize) -> Seq<TaskView> {
    Seq::new(
        group.input@.len(),
        |i: int| TaskView { tx, name: group.input@[i]@, qtype: group.qtype },
    )
}

/// The tasks of a batch: the groups taken last-added first, each group's
/// inputs in their own order.
pub open spec fn expanded(groups: Seq<BatchTask>, outputs: Seq<usize>) -> Seq<TaskView>
    decreases groups.len(),
{
    if groups.len() == 0 || outputs.len() == 0 {
        Seq::empty()
    } else {
        group_tasks(groups.last(), outputs.last()) + expanded(
            groups.drop_last(),
            outputs.drop_last(),
        )
    }
}

/// The number of inputs in all groups.
pub open spec fn total_inputs(groups: Seq<BatchTask>) -> nat
    decreases groups.len(),
{
    if groups.len() == 0 {
        0
    } else {
        total_inputs(groups.drop_last()) + groups.last().input@.len()
    }
}

impl BatchTask {
    /// A group of inputs.
    pub fn new(input: Vec<String>, qtype: QueryType) -> (t: BatchTask)
        ensures
            t.input == input,
            t.qtype == qtype,
    {
        BatchTask { input, qtype }
    }
}

impl Batch {
    /// Every group has its sink.
    pub open spec fn wf(&self) -> bool {
        self.tasks@.len() == self.outputs@.len()
    }

    /// An empty batch.
    pub fn new() -> (b: Batch)
        ensures
            b.tasks@.len() == 0,
            b.outputs@.len() == 0,
            b.wf(),
    {
        Batch { tasks: Vec::new(), outputs: Vec::new() }
    }

    /// Adds a group of inputs, to be resolved as `qtype`, with results
    /// going to sink `output`.
    pub fn add_task(&mut self, input: Vec<String>, output: usize, qtype: QueryType)
        ensures
            final(self).tasks@ == old(self).tasks@.push(BatchTask { input, qtype }),
            final(self).outputs@ == old(self).outputs@.push(output),
            old(self).wf() ==> final(self).wf(),
    {
        self.tasks.push(BatchTask::new(input, qtype));
        self.outputs.push(output)
    }

    /// Hands the batch to a pool with one worker per logical CPU of this
    /// machine: one task per input, the groups taken last-added first, each
    /// group's inputs in their own order.
    pub fn run(self) -> (pool: ResolverThreadPool)
        requires
            self.wf(),
        ensures
            pool.wf(),
            task_views(pool.tasks@) == expanded(self.tasks@, self.outputs@),
            pool.tasks@.len() == total_inputs(self.tasks@),
    {
        self.hand_to(ResolverThreadPool::num_cpus())
    }

    /// Hands the batch to the empty pool `pool`: one task per input, the
    /// groups taken last-added first, each group's inputs in their own
    /// order.
    pub fn hand_to(self, pool: ResolverThreadPool) -> (filled: ResolverThreadPool)
        requires
            self.wf(),
            pool.tasks@.len() == 0,
        ensures
            filled.workers_cnt == pool.workers_cnt,
            task_views(filled.tasks@) == expanded(self.tasks@, self.outputs@),
            filled.tasks@.len() == total_inputs(self.tasks@),
    {
        let workers: usize = pool.workers_cnt;
        let mut pool = pool;
        let mut tasks = self.tasks;
        let mut outputs = self.outputs;
        assert(task_views(pool.tasks@) == Seq::<TaskView>::empty());
        while tasks.len() > 0
            invariant
                tasks@.len() == outputs@.len(),
                pool.workers_cnt == workers,
                task_views(pool.tasks@) + expanded(tasks@, outputs@) == expanded(
                    self.tasks@,
                    self.outputs@,
                ),
                pool.tasks@.len() + total_inputs(tasks@) == total_inputs(self.tasks@),
            decreases tasks@.len(),
        {
            let ghost groups0 = tasks@;
            let ghost outputs0 = outputs@;
            let ghost done0 = task_views(pool.tasks@);
            let group = tasks.pop().unwrap();
            let out = outputs.pop().unwrap();
            let mut i: usize = 0;
            while i < group.input.len()
                invariant
                    i <= group.input.len(),
                    pool.workers_cnt == workers,
                    task_views(pool.tasks@) == done0 + group_tasks(group, out).subrange(
                        0,
                        i as int,
                    ),
                    pool.tasks@.len() == done0.len() + i,
                decreases group.input.len() - i,
            {
                let ghost before = pool.tasks@;
                let task = ResolveTask { tx: out, name: group.input[i].clone(), qtype: group.qtype };
                pool.spawn(task);
                i += 1;
                proof {
                    assert(task_views(pool.tasks@) == task_views(before).push(task@));
                    assert(group_tasks(group, out).subrange(0, i as int) == group_tasks(
                        group,
                        out,
                    ).subrange(0, i as int - 1).push(task@));
                }
            }
            proof {
                assert(group_tasks(group, out).subrange(0, group.input@.len() as int)
                    == group_tasks(group, out));
                assert(tasks@ == groups0.drop_last());
                assert(outputs@ == outputs0.drop_last());
                assert(expanded(groups0, outputs0) == group_tasks(group, out) + expanded(
                    tasks@,
                    outputs@,
                ));
                assert(task_views(pool.tasks@) + expanded(tasks@, outputs@) == done0 + expanded(
                    groups0,
                    outputs0,
                ));
            }
        }
        proof {
            assert(expanded(tasks@, outputs@) == Seq::<TaskView>::empty());
            assert(task_views(pool.tasks@) + Seq::<TaskView>::empty() == task_views(pool.tasks@));
        }
        pool
    }
}

/// A batch yields one task per input.
pub proof fn lemma_one_task_per_input(groups: Seq<BatchTask>, outputs: Seq<usize>)
    requires
        groups.len() == outputs.len(),
    ensures
        expanded(groups, outputs).len() == total_inputs(groups),
    decreases groups.len(),
{
    if groups.len() > 0 {
        lemma_one_task_per_input(groups.drop_last(), outputs.drop_last());
    }
}

} // verus!
