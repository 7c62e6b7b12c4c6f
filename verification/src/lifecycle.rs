//! The life of a task: it starts once, with a `Started` event and the
//! lookup to perform, and it finishes once, with its terminal event and the
//! lines for its sink. Whatever the order in which the tasks of a batch
//! start and finish, the counters folded from their events show every input
//! done and none running.

use vstd::prelude::*;
use vstd::set_lib::*;
use crate::batch::{expanded, lemma_one_task_per_input, total_inputs, BatchTask};
use crate::error::ResolverError;
use crate::message::{Message, QueryType};
use crate::pool::{line_text, Resolved, ResolveTask};
use crate::resolver::{
    answers_of, conclude, plan_query, ptr_name_text, root_anchored_text, QueryPlan,
};
use crate::status::{
    balanced, completions, count, lemma_update_tallies, orderly, starts, ResolveStatus, Status,
};

verus! {

broadcast use vstd::set::group_set_axioms;

/// A task whose lookup is under way.
#[derive(Debug, PartialEq, Eq)]
pub struct RunningTask {
    pub task: ResolveTask,
}

/// What starting a task yields: the event to report, the lookup to
/// perform, and the task to finish with the outcome of that lookup.
#[derive(Debug, PartialEq, Eq)]
pub struct StartedTask {
    pub event: ResolveStatus,
    pub plan: QueryPlan,
    pub running: RunningTask,
}

/// What finishing a task yields: the event to report, the lines for its
/// sink, and the error to log, if one surfaces.
#[derive(Debug, PartialEq, Eq)]
pub struct FinishedTask {
    pub event: ResolveStatus,
    pub lines: Vec<Resolved>,
    pub error: Option<ResolverError>,
}

/// The terminal event of a lookup of type `qtype` with the given outcome:
/// `Success` for at least one answer of that type, `Error` for a wire-level
/// failure, `Failure` for everything else.
pub open spec fn final_status(
    outcome: Result<Message, ResolverError>,
    qtype: QueryType,
) -> ResolveStatus {
    match answers_of(outcome, qtype) {
        Ok(texts) => if texts.len() == 0 {
            ResolveStatus::Failure
        } else {
            ResolveStatus::Success
        },
        Err(ResolverError::DnsClientError(_)) => ResolveStatus::Error,
        Err(_) => ResolveStatus::Failure,
    }
}

/// The texts written for a lookup of type `qtype` with the given outcome:
/// one per answer of that type, none after a failure.
pub open spec fn final_lines(outcome: Result<Message, ResolverError>, qtype: QueryType) -> Seq<
    Seq<char>,
> {
    match answers_of(outcome, qtype) {
        Ok(texts) => texts.map_values(|t: Seq<char>| line_text(qtype, t)),
        Err(_) => Seq::empty(),
    }
}

impl ResolveTask {
    /// Starts the task. The task is used up: it can start only once.
    pub fn start(self) -> (s: StartedTask)
        ensures
            s.event is Started,
            s.running.task == self,
            self.qtype is PTR ==> s.plan is Reverse && s.plan->Reverse_0@ == ptr_name_text(
                self.name@,
            ),
            !(self.qtype is PTR) ==> s.plan is Simple && s.plan->Simple_0@ == root_anchored_text(
                self.name@,
            ) && s.plan->Simple_1 == self.qtype,
    {
        let plan = plan_query(self.name.as_str(), self.qtype);
        StartedTask { event: ResolveStatus::Started, plan, running: RunningTask { task: self } }
    }
}

impl RunningTask {
    /// Finishes the task with the outcome of its lookup. The task is used
    /// up: it can finish only once. The event is never `Started`.
    pub fn finish(self, outcome: Result<Message, ResolverError>) -> (f: FinishedTask)
        ensures
            !(f.event is Started),
            f.event == final_status(outcome, self.task.qtype),
            f.lines@.len() == final_lines(outcome, self.task.qtype).len(),
            forall|i: int|
                0 <= i < f.lines@.len() ==> (#[trigger] f.lines@[i]).tx == self.task.tx
                    && f.lines@[i].name@ == self.task.name@ && f.lines@[i].line@ == final_lines(
                    outcome,
                    self.task.qtype,
                )[i],
            f.error == match outcome {
                Err(ResolverError::DnsClientError(text)) => Some(
                    ResolverError::DnsClientError(text),
                ),
                _ => None::<ResolverError>,
            },
    {
        let resolution = conclude(outcome, self.task.qtype);
        match resolution.answers {
            Ok(answers) => {
                let lines = self.task.resolve(&answers);
                proof {
                    let texts = crate::message::strings_view(answers@);
                    assert(texts.len() == answers@.len());
                    assert forall|i: int| 0 <= i < lines@.len() implies lines@[i].line@
                        == final_lines(outcome, self.task.qtype)[i] by {
                        assert(texts[i] == answers@[i]@);
                    }
                }
                FinishedTask { event: resolution.status, lines, error: None }
            },
            Err(error) => FinishedTask {
                event: resolution.status,
                lines: Vec::new(),
                error: Some(error),
            },
        }
    }
}

/// The tasks that have started among the first `upto` events, `owner`
/// telling which task each event belongs to.
pub open spec fn started(events: Seq<ResolveStatus>, owner: Seq<int>, upto: int) -> Set<int>
    decreases upto,
{
    if upto <= 0 {
        Set::empty()
    } else {
        let before = started(events, owner, upto - 1);
        if events[upto - 1] is Started {
            before.insert(owner[upto - 1])
        } else {
            before
        }
    }
}

/// The tasks that have finished among the first `upto` events.
pub open spec fn finished(events: Seq<ResolveStatus>, owner: Seq<int>, upto: int) -> Set<int>
    decreases upto,
{
    if upto <= 0 {
        Set::empty()
    } else {
        let before = finished(events, owner, upto - 1);
        if events[upto - 1] is Started {
            before
        } else {
            before.insert(owner[upto - 1])
        }
    }
}

/// The events of a batch of `inputs` tasks, in the order the aggregator
/// receives them: every event belongs to one of the tasks; a task starts
/// only if it has not started before and finishes only if it has started
/// and not finished before; and in the end every task has finished. The
/// tasks may start and finish in any order among themselves.
pub open spec fn every_task_once(
    events: Seq<ResolveStatus>,
    owner: Seq<int>,
    inputs: nat,
) -> bool {
    &&& owner.len() == events.len()
    &&& forall|i: int| 0 <= i < events.len() ==> 0 <= #[trigger] owner[i] < inputs
    &&& forall|i: int|
        0 <= i < events.len() && events[i] is Started ==> !started(events, owner, i).contains(
            #[trigger] owner[i],
        )
    &&& forall|i: int|
        0 <= i < events.len() && !(events[i] is Started) ==> started(events, owner, i).contains(
            #[trigger] owner[i],
        ) && !finished(events, owner, i).contains(owner[i])
    &&& forall|k: int| 0 <= k < inputs ==> finished(events, owner, events.len() as int).contains(k)
}

/// Among the first `upto` events of such a batch there are as many starts
/// as tasks started and as many completions as tasks finished, and only
/// started tasks have finished.
proof fn lemma_counts_follow_tasks(
    events: Seq<ResolveStatus>,
    owner: Seq<int>,
    inputs: nat,
    upto: int,
)
    requires
        every_task_once(events, owner, inputs),
        0 <= upto <= events.len(),
    ensures
        started(events, owner, upto).finite(),
        finished(events, owner, upto).finite(),
        finished(events, owner, upto).subset_of(started(events, owner, upto)),
        started(events, owner, upto).subset_of(set_int_range(0, inputs as int)),
        starts(events.subrange(0, upto)) == started(events, owner, upto).len(),
        completions(events.subrange(0, upto)) == finished(events, owner, upto).len(),
        balanced(events.subrange(0, upto)),
    decreases upto,
{
    lemma_int_range(0, inputs as int);
    if upto > 0 {
        lemma_counts_follow_tasks(events, owner, inputs, upto - 1);
        let prefix = events.subrange(0, upto);
        assert(prefix.drop_last() == events.subrange(0, upto - 1));
        assert(prefix.last() == events[upto - 1]);
        assert(0 <= owner[upto - 1] < inputs);
        assert(count(prefix, ResolveStatus::Started) == starts(prefix));
    }
    lemma_len_subset(finished(events, owner, upto), started(events, owner, upto));
}

/// Counter law: when every task of a batch of `inputs` tasks starts once
/// and finishes once, in whatever order, the events hold `inputs` starts
/// and `inputs` completions and nothing completes before it starts; so the
/// counters folded from them show `inputs` done and none running.
pub proof fn lemma_every_input_counted(
    events: Seq<ResolveStatus>,
    owner: Seq<int>,
    inputs: nat,
    s: Status,
)
    requires
        every_task_once(events, owner, inputs),
        s.tallies(events),
    ensures
        orderly(events),
        starts(events) == inputs,
        completions(events) == inputs,
        s.done == inputs,
        s.running == 0,
        s.done == s.success + s.fail + s.errored,
{
    let len = events.len() as int;
    assert forall|n: int| 0 <= n <= events.len() implies balanced(
        #[trigger] events.subrange(0, n),
    ) by {
        lemma_counts_follow_tasks(events, owner, inputs, n);
    }
    lemma_counts_follow_tasks(events, owner, inputs, len);
    assert(events.subrange(0, len) == events);
    lemma_int_range(0, inputs as int);
    let all = set_int_range(0, inputs as int);
    assert(finished(events, owner, len) =~= all);
    assert(started(events, owner, len) =~= all);
}

/// Counter law for a batch: when each task that the batch hands to the
/// pool starts once and finishes once, in whatever order, the counters
/// show as many done as the batch holds inputs, none running, and every
/// one of them counted under exactly one outcome.
pub proof fn lemma_batch_counted(
    groups: Seq<BatchTask>,
    outputs: Seq<usize>,
    events: Seq<ResolveStatus>,
    owner: Seq<int>,
    s: Status,
)
    requires
        groups.len() == outputs.len(),
        every_task_once(events, owner, expanded(groups, outputs).len()),
        s.tallies(events),
    ensures
        s.done == total_inputs(groups),
        s.running == 0,
        s.done == s.success + s.fail + s.errored,
{
    lemma_one_task_per_input(groups, outputs);
    lemma_every_input_counted(events, owner, expanded(groups, outputs).len(), s);
}

/// What a line is, as plain values: the sink, the input, and the text.
pub struct LineView {
    pub tx: usize,
    pub name: Seq<char>,
    pub line: Seq<char>,
}

/// The views of a list of lines.
pub open spec fn line_views(lines: Seq<Resolved>) -> Seq<LineView> {
    lines.map_values(|r: Resolved| LineView { tx: r.tx, name: r.name@, line: r.line@ })
}

/// The lines of `task` after a lookup with the given outcome.
pub open spec fn task_lines(task: ResolveTask, outcome: Result<Message, ResolverError>) -> Seq<
    LineView,
> {
    final_lines(outcome, task.qtype).map_values(
        |text: Seq<char>| LineView { tx: task.tx, name: task.name@, line: text },
    )
}

/// The events of the first `upto` tasks run one after the other, each
/// with the outcome its lookup comes to: for each task its start, then its
/// terminal event.
pub open spec fn events_in_turn(
    tasks: Seq<ResolveTask>,
    outcomes: Seq<Result<Message, ResolverError>>,
    upto: int,
) -> Seq<ResolveStatus>
    decreases upto,
{
    if upto <= 0 {
        Seq::empty()
    } else {
        events_in_turn(tasks, outcomes, upto - 1).push(ResolveStatus::Started).push(
            final_status(outcomes[upto - 1], tasks[upto - 1].qtype),
        )
    }
}

/// The lines of the first `upto` tasks, task by task.
pub open spec fn lines_in_turn(
    tasks: Seq<ResolveTask>,
    outcomes: Seq<Result<Message, ResolverError>>,
    upto: int,
) -> Seq<LineView>
    decreases upto,
{
    if upto <= 0 {
        Seq::empty()
    } else {
        lines_in_turn(tasks, outcomes, upto - 1) + task_lines(tasks[upto - 1], outcomes[upto - 1])
    }
}

/// What a finished batch leaves: the counters and the lines for the sinks.
#[derive(Debug, PartialEq, Eq)]
pub struct BatchReport {
    pub status: Status,
    pub resolved: Vec<Resolved>,
}

/// Runs the tasks one after the other, the lookup of each coming to the
/// outcome given for it, whatever that is: a response, a timeout, any
/// failure. Every task is started once and finished once, so the counters
/// end with every task done and none running, and the lines are those of
/// the tasks, task by task.
pub fn run_in_turn(tasks: Vec<ResolveTask>, outcomes: Vec<Result<Message, ResolverError>>) -> (report:
    BatchReport)
    requires
        tasks@.len() == outcomes@.len(),
    ensures
        report.status.done == tasks@.len(),
        report.status.running == 0,
        report.status.done == report.status.success + report.status.fail + report.status.errored,
        report.status.tallies(events_in_turn(tasks@, outcomes@, tasks@.len() as int)),
        line_views(report.resolved@) == lines_in_turn(tasks@, outcomes@, tasks@.len() as int),
{
    let n: usize = tasks.len();
    // both lists are turned round, so that taking from the end goes through them in order
    let mut tasks_left: Vec<ResolveTask> = Vec::new();
    let mut outcomes_left: Vec<Result<Message, ResolverError>> = Vec::new();
    let mut tasks_in = tasks;
    let mut outcomes_in = outcomes;
    while tasks_in.len() > 0
        invariant
            tasks_in@.len() == outcomes_in@.len(),
            tasks_in@.len() + tasks_left@.len() == n,
            tasks_left@.len() == outcomes_left@.len(),
            n == tasks@.len(),
            n == outcomes@.len(),
            tasks_in@ == tasks@.subrange(0, tasks_in@.len() as int),
            outcomes_in@ == outcomes@.subrange(0, outcomes_in@.len() as int),
            forall|j: int| 0 <= j < tasks_left@.len() ==> tasks_left@[j] == tasks@[n - 1 - j],
            forall|j: int| 0 <= j < outcomes_left@.len() ==> outcomes_left@[j] == outcomes@[n - 1 - j],
        decreases tasks_in@.len(),
    {
        let task = tasks_in.pop().unwrap();
        let outcome = outcomes_in.pop().unwrap();
        tasks_left.push(task);
        outcomes_left.push(outcome);
    }
    let mut status = Status::new();
    let mut resolved: Vec<Resolved> = Vec::new();
    let mut i: usize = 0;
    assert(line_views(resolved@) == lines_in_turn(tasks@, outcomes@, 0));
    while i < n
        invariant
            i <= n,
            n == tasks@.len(),
            n == outcomes@.len(),
            tasks_left@.len() == n - i,
            outcomes_left@.len() == n - i,
            forall|j: int| 0 <= j < n - i ==> tasks_left@[j] == tasks@[n - 1 - j],
            forall|j: int| 0 <= j < n - i ==> outcomes_left@[j] == outcomes@[n - 1 - j],
            status.wf(),
            status.done == i,
            status.running == 0,
            status.tallies(events_in_turn(tasks@, outcomes@, i as int)),
            line_views(resolved@) == lines_in_turn(tasks@, outcomes@, i as int),
        decreases n - i,
    {
        let task = tasks_left.pop().unwrap();
        let outcome = outcomes_left.pop().unwrap();
        assert(task == tasks@[i as int]);
        assert(outcome == outcomes@[i as int]);
        let ghost events = events_in_turn(tasks@, outcomes@, i as int);
        let started = task.start();
        proof {
            lemma_update_tallies(status, events, started.event);
        }
        status.update(started.event);
        let finished = started.running.finish(outcome);
        proof {
            lemma_update_tallies(status, events.push(started.event), finished.event);
        }
        status.update(finished.event);
        let ghost before = resolved@;
        let mut lines = finished.lines;
        let ghost added = lines@;
        resolved.append(&mut lines);
        proof {
            assert(resolved@ == before + added);
            assert(line_views(resolved@) == line_views(before) + line_views(added));
            assert(line_views(added) == task_lines(task, outcome));
        }
        i += 1;
    }
    BatchReport { status, resolved }
}

} // verus!
