//! Lookups run against a fixed DNS: a table that says what each server
//! answers to each question, every time it is asked. Against such a table
//! the result of a lookup is a function of the table, the server, and the
//! question; nothing else enters.

use vstd::prelude::*;
use crate::addr::ServerAddr;
use crate::batch::{total_inputs, Batch};
use crate::config::Config;
use crate::error::{ClientError, ResolverError};
use crate::message::{Message, QueryType, RData, Record};
use crate::lifecycle::{
    events_in_turn, final_lines, final_status, line_views, lines_in_turn, task_lines, BatchReport,
    FinishedTask, LineView,
};
use crate::pacer::server_at;
use crate::pool::{
    ceil_div, joined, lemma_ceil_div_bounds, Resolved, ResolveTask, ResolverThreadPool,
};
use crate::status::{lemma_update_tallies, ResolveStatus, Status};
use crate::recurse::{
    lemma_absorbed_keeps_order, lemma_absorbed_within, lemma_popped_keeps_order,
    lemma_popped_within, lemma_walk_bounded, ns_lookup_of, NsView, RecurseState, WalkAction,
    WalkView,
};
use crate::resolver::{ptr_name_text, root_anchored, root_anchored_text, QueryPlan};
use crate::retry::{settled, RetryState, RetryStep};

verus! {

/// What one server answers to one question.
#[derive(Debug, PartialEq, Eq)]
pub struct Answer {
    pub server: ServerAddr,
    pub name: String,
    pub qtype: QueryType,
    pub outcome: Result<Message, ClientError>,
}

/// A fixed DNS: the listed answers, the first that fits a question being
/// the answer to it; a question that no entry fits times out.
#[derive(Debug, PartialEq, Eq)]
pub struct FixedDns {
    pub answers: Vec<Answer>,
}

/// The two messages hold the same records.
pub open spec fn same_message(a: Message, b: Message) -> bool {
    a.answers@ == b.answers@ && a.name_servers@ == b.name_servers@
}

/// The two outcomes are the same failure, or responses with the same
/// records.
pub open spec fn same_outcome(
    a: Result<Message, ClientError>,
    b: Result<Message, ClientError>,
) -> bool {
    match (a, b) {
        (Ok(x), Ok(y)) => same_message(x, y),
        (Err(e), Err(f)) => e == f,
        _ => false,
    }
}

/// The two results are the same error, or responses with the same records.
pub open spec fn same_result(
    a: Result<Message, ResolverError>,
    b: Result<Message, ResolverError>,
) -> bool {
    match (a, b) {
        (Ok(x), Ok(y)) => same_message(x, y),
        (Err(e), Err(f)) => e == f,
        _ => false,
    }
}

/// The entry fits the question.
pub open spec fn fits(entry: Answer, server: ServerAddr, name: Seq<char>, qtype: QueryType) -> bool {
    entry.server == server && entry.name@ == name && entry.qtype == qtype
}

/// The answer to a question among the entries from `from` on.
pub open spec fn answer_from(
    entries: Seq<Answer>,
    server: ServerAddr,
    name: Seq<char>,
    qtype: QueryType,
    from: int,
) -> Result<Message, ClientError>
    decreases entries.len() - from,
{
    if from < 0 || from >= entries.len() {
        Err(ClientError::Timeout)
    } else if fits(entries[from], server, name, qtype) {
        entries[from].outcome
    } else {
        answer_from(entries, server, name, qtype, from + 1)
    }
}

fn copy_record(record: &Record) -> (r: Record)
    ensures
        r == *record,
{
    let rdata = match &record.rdata {
        RData::A(s) => RData::A(s.clone()),
        RData::AAAA(s) => RData::AAAA(s.clone()),
        RData::NS(s) => RData::NS(s.clone()),
        RData::PTR(s) => RData::PTR(s.clone()),
        RData::Other => RData::Other,
    };
    Record { name: record.name.clone(), rdata }
}

fn copy_records(records: &Vec<Record>) -> (r: Vec<Record>)
    ensures
        r@ == records@,
{
    let mut r: Vec<Record> = Vec::new();
    let mut i: usize = 0;
    while i < records.len()
        invariant
            i <= records.len(),
            r@ == records@.subrange(0, i as int),
        decreases records.len() - i,
    {
        r.push(copy_record(&records[i]));
        i += 1;
        assert(r@ == records@.subrange(0, i as int));
    }
    assert(records@.subrange(0, records.len() as int) == records@);
    r
}

/// A message with the same records.
pub fn copy_message(message: &Message) -> (r: Message)
    ensures
        same_message(r, *message),
{
    Message {
        answers: copy_records(&message.answers),
        name_servers: copy_records(&message.name_servers),
    }
}

fn copy_outcome(outcome: &Result<Message, ClientError>) -> (r: Result<Message, ClientError>)
    ensures
        same_outcome(r, *outcome),
{
    match outcome {
        Ok(message) => Ok(copy_message(message)),
        Err(ClientError::Timeout) => Err(ClientError::Timeout),
        Err(ClientError::Canceled(text)) => Err(ClientError::Canceled(text.clone())),
        Err(ClientError::Other(text)) => Err(ClientError::Other(text.clone())),
    }
}

impl FixedDns {
    /// What `server` answers when asked for `name` and `qtype`.
    pub open spec fn answer_of(&self, server: ServerAddr, name: Seq<char>, qtype: QueryType) -> Result<
        Message,
        ClientError,
    > {
        answer_from(self.answers@, server, name, qtype, 0)
    }

    /// Asks `server` for `name` and `qtype`.
    pub fn query(&self, server: ServerAddr, name: &String, qtype: QueryType) -> (r: Result<
        Message,
        ClientError,
    >)
        ensures
            same_outcome(r, self.answer_of(server, name@, qtype)),
    {
        let mut i: usize = 0;
        while i < self.answers.len()
            invariant
                i <= self.answers.len(),
                answer_from(self.answers@, server, name@, qtype, 0) == answer_from(
                    self.answers@,
                    server,
                    name@,
                    qtype,
                    i as int,
                ),
            decreases self.answers.len() - i,
        {
            let entry = &self.answers[i];
            if entry.server == server && entry.name == *name && entry.qtype == qtype {
                return copy_outcome(&entry.outcome);
            }
            i += 1;
        }
        Err(ClientError::Timeout)
    }

    /// The retry loop against this DNS: `server` is asked for `name` and
    /// `qtype` until it responds, fails for good, or `tries` attempts are
    /// used up. The result depends on what the server answers to that
    /// question, and on nothing else.
    pub fn resolve_retry(&self, server: ServerAddr, tries: u32, name: &String, qtype: QueryType) -> (r:
        Result<Message, ResolverError>)
        requires
            tries >= 1,
        ensures
            same_result(r, settled(self.answer_of(server, name@, qtype))),
    {
        let mut state = RetryState::new(tries);
        loop
            invariant
                state.active(),
            decreases state.tries_left,
        {
            let outcome = self.query(server, name, qtype);
            match state.on_result(outcome) {
                Err(error) => {
                    return Err(error);
                },
                Ok(RetryStep::Break(last)) => {
                    return last.finish();
                },
                Ok(RetryStep::Continue(next)) => {
                    state = next;
                },
            }
        }
    }
}

/// A walk that is about to start at `server`.
pub open spec fn start_walk(server: ServerAddr) -> WalkView {
    WalkView { stack: seq![NsView::Known(server)], seen: Seq::empty(), answer: None }
}

/// The result of a walk against `dns`, from the state `walk` and with the
/// server `pending` taken off the stack but not yet asked (none when the
/// walk has to decide what comes next). `origin` is the server the walk
/// started at, which is asked for the addresses of name servers; `name` is
/// the reverse name; `fuel` is the number of lookups the walk may still
/// make before it gives up with `NotFound`.
pub open spec fn walk_against(
    dns: FixedDns,
    walk: WalkView,
    pending: Option<NsView>,
    origin: ServerAddr,
    name: Seq<char>,
    fuel: nat,
) -> Result<Message, ResolverError>
    decreases fuel, (if pending is None { 1nat } else { 0nat }),
{
    match pending {
        None => if walk.answer is Some {
            Ok(walk.answer->0)
        } else if walk.stack.len() == 0 {
            Err(ResolverError::NotFound)
        } else {
            walk_against(dns, walk.popped(), Some(walk.stack.last()), origin, name, fuel)
        },
        Some(ns) => if fuel == 0 {
            Err(ResolverError::NotFound)
        } else {
            match ns {
                NsView::Unknown(domain) => match ns_lookup_of(
                    settled(dns.answer_of(origin, root_anchored_text(domain), QueryType::A)),
                ) {
                    Ok(addr) => walk_against(
                        dns,
                        walk,
                        Some(NsView::Known(addr)),
                        origin,
                        name,
                        (fuel - 1) as nat,
                    ),
                    Err(ResolverError::NameServerNotResolved) => walk_against(
                        dns,
                        walk,
                        None,
                        origin,
                        name,
                        (fuel - 1) as nat,
                    ),
                    Err(e) => Err(e),
                },
                NsView::Known(addr) => match settled(dns.answer_of(addr, name, QueryType::PTR)) {
                    Ok(message) => walk_against(
                        dns,
                        walk.absorbed(message),
                        None,
                        origin,
                        name,
                        (fuel - 1) as nat,
                    ),
                    Err(e) => Err(e),
                },
            }
        },
    }
}

/// What the lookup for an input comes to against `dns`: the walk for the
/// reverse name of a `PTR` input, the retry loop for the root-anchored name
/// of any other.
pub open spec fn lookup_against(
    dns: FixedDns,
    server: ServerAddr,
    name: Seq<char>,
    qtype: QueryType,
    fuel: nat,
) -> Result<Message, ResolverError> {
    if qtype is PTR {
        walk_against(dns, start_walk(server), None, server, ptr_name_text(name), fuel)
    } else {
        settled(dns.answer_of(server, root_anchored_text(name), qtype))
    }
}

/// `action`, taken in the state `walk`, leads to `target`.
pub open spec fn leads_to(
    dns: FixedDns,
    walk: WalkView,
    action: WalkAction,
    origin: ServerAddr,
    name: Seq<char>,
    fuel: nat,
    target: Result<Message, ResolverError>,
) -> bool {
    match action {
        WalkAction::Finish(result) => same_result(result, target),
        WalkAction::Query(addr) => walk.answer is None && walk_against(
            dns,
            walk,
            Some(NsView::Known(addr)),
            origin,
            name,
            fuel,
        ) == target,
        WalkAction::ResolveNs(domain) => walk.answer is None && walk_against(
            dns,
            walk,
            Some(NsView::Unknown(domain@)),
            origin,
            name,
            fuel,
        ) == target,
    }
}

/// Going on from `before` as the walk does leads where deciding what comes
/// next in a state with the same servers and an answer with the same
/// records leads.
proof fn lemma_continue_leads(
    dns: FixedDns,
    before: WalkView,
    model: WalkView,
    next: WalkView,
    action: WalkAction,
    origin: ServerAddr,
    name: Seq<char>,
    fuel: nat,
)
    requires
        before.continues_as(next, action),
        before.stack == model.stack,
        before.seen == model.seen,
        match (before.answer, model.answer) {
            (Some(x), Some(y)) => same_message(x, y),
            (None, None) => true,
            _ => false,
        },
    ensures
        leads_to(
            dns,
            next,
            action,
            origin,
            name,
            fuel,
            walk_against(dns, model, None, origin, name, fuel),
        ),
{
    if before.answer is None && before.stack.len() > 0 {
        assert(next == model.popped());
    }
}

impl FixedDns {
    /// The reverse-lookup walk against this DNS, started at `server`, for
    /// the reverse name `name`, making at most `limit` lookups. The result
    /// depends on what the servers answer, and on nothing else.
    pub fn recurse_ptr(&self, server: ServerAddr, tries: u32, name: &String, limit: usize) -> (r:
        Result<Message, ResolverError>)
        requires
            tries >= 1,
        ensures
            same_result(
                r,
                walk_against(*self, start_walk(server), None, server, name@, limit as nat),
            ),
    {
        let ghost target = walk_against(*self, start_walk(server), None, server, name@, limit as nat);
        let mut state = RecurseState::new(server);
        proof {
            assert(state@ == start_walk(server));
        }
        let ghost first = state@;
        let mut action = state.next_action();
        proof {
            lemma_continue_leads(*self, first, first, state@, action, server, name@, limit as nat);
        }
        let mut fuel: usize = limit;
        loop
            invariant
                tries >= 1,
                state.wf(),
                target == walk_against(
                    *self,
                    start_walk(server),
                    None,
                    server,
                    name@,
                    limit as nat,
                ),
                leads_to(*self, state@, action, server, name@, fuel as nat, target),
            decreases fuel + if action is Finish { 0int } else { 1int },
        {
            let ghost walk = state@;
            match action {
                WalkAction::Finish(result) => {
                    return result;
                },
                WalkAction::ResolveNs(domain) => {
                    if fuel == 0 {
                        return Err(ResolverError::NotFound);
                    }
                    let anchored = root_anchored(domain.as_str());
                    let outcome = self.resolve_retry(server, tries, &anchored, QueryType::A);
                    action = state.ns_resolved(outcome);
                    fuel = fuel - 1;
                    proof {
                        if ns_lookup_of(outcome) == Err::<ServerAddr, ResolverError>(
                            ResolverError::NameServerNotResolved,
                        ) {
                            lemma_continue_leads(
                                *self,
                                walk,
                                walk,
                                state@,
                                action,
                                server,
                                name@,
                                fuel as nat,
                            );
                        }
                    }
                },
                WalkAction::Query(addr) => {
                    if fuel == 0 {
                        return Err(ResolverError::NotFound);
                    }
                    let outcome = self.resolve_retry(addr, tries, name, QueryType::PTR);
                    let ghost model = settled(self.answer_of(addr, name@, QueryType::PTR));
                    action = state.response(outcome);
                    fuel = fuel - 1;
                    proof {
                        if outcome is Ok {
                            lemma_continue_leads(
                                *self,
                                walk.absorbed(outcome->Ok_0),
                                walk.absorbed(model->Ok_0),
                                state@,
                                action,
                                server,
                                name@,
                                fuel as nat,
                            );
                        }
                    }
                },
            }
        }
    }

    /// Starts and finishes `task` against this DNS, asking `server` first.
    /// The event and the lines depend on the task, the server, and what the
    /// servers answer, and on nothing else: neither on the number of
    /// attempts nor on when or in which order anything happens.
    pub fn resolve(&self, task: ResolveTask, server: ServerAddr, tries: u32, limit: usize) -> (f:
        FinishedTask)
        requires
            tries >= 1,
        ensures
            f.event == final_status(
                lookup_against(*self, server, task.name@, task.qtype, limit as nat),
                task.qtype,
            ),
            f.lines@.len() == final_lines(
                lookup_against(*self, server, task.name@, task.qtype, limit as nat),
                task.qtype,
            ).len(),
            forall|i: int|
                0 <= i < f.lines@.len() ==> (#[trigger] f.lines@[i]).tx == task.tx && f.lines@[i].name@
                    == task.name@ && f.lines@[i].line@ == final_lines(
                    lookup_against(*self, server, task.name@, task.qtype, limit as nat),
                    task.qtype,
                )[i],
    {
        let started = task.start();
        let outcome = match started.plan {
            QueryPlan::Simple(name, qtype) => self.resolve_retry(server, tries, &name, qtype),
            QueryPlan::Reverse(name) => self.recurse_ptr(server, tries, &name, limit),
        };
        started.running.finish(outcome)
    }
}

/// What the lookups of the tasks of a share come to against `dns`: the
/// task at each place is started with the server that the token at that
/// place names.
pub open spec fn share_outcomes(
    dns: FixedDns,
    tasks: Seq<ResolveTask>,
    dns_list: Seq<ServerAddr>,
    worker_qps: nat,
    fuel: nat,
) -> Seq<Result<Message, ResolverError>> {
    Seq::new(
        tasks.len(),
        |i: int|
            lookup_against(
                dns,
                server_at(dns_list, worker_qps, i),
                tasks[i].name@,
                tasks[i].qtype,
                fuel,
            ),
    )
}

impl FixedDns {
    /// Runs the share of one worker against this DNS: its tasks one after
    /// the other, each started with the server its token names. Every task
    /// is started once and finished once, whatever the servers answer, so
    /// the counters end with every task done and none running. Counters and
    /// lines depend on the tasks, the servers, and what the servers answer,
    /// and on nothing else.
    pub fn run_share(
        &self,
        tasks: &Vec<ResolveTask>,
        dns_list: &Vec<ServerAddr>,
        worker_qps: usize,
        tries: u32,
        limit: usize,
    ) -> (report: BatchReport)
        requires
            tries >= 1,
            worker_qps >= 1,
            dns_list@.len() > 0,
        ensures
            report.status.done == tasks@.len(),
            report.status.running == 0,
            report.status.done == report.status.success + report.status.fail
                + report.status.errored,
            report.status.tallies(
                events_in_turn(
                    tasks@,
                    share_outcomes(*self, tasks@, dns_list@, worker_qps as nat, limit as nat),
                    tasks@.len() as int,
                ),
            ),
            line_views(report.resolved@) == lines_in_turn(
                tasks@,
                share_outcomes(*self, tasks@, dns_list@, worker_qps as nat, limit as nat),
                tasks@.len() as int,
            ),
    {
        let ghost outcomes = share_outcomes(
            *self,
            tasks@,
            dns_list@,
            worker_qps as nat,
            limit as nat,
        );
        let n: usize = tasks.len();
        let mut status = Status::new();
        let mut resolved: Vec<Resolved> = Vec::new();
        let mut i: usize = 0;
        assert(line_views(resolved@) == lines_in_turn(tasks@, outcomes, 0));
        while i < n
            invariant
                i <= n,
                n == tasks@.len(),
                tries >= 1,
                worker_qps >= 1,
                dns_list@.len() > 0,
                outcomes == share_outcomes(
                    *self,
                    tasks@,
                    dns_list@,
                    worker_qps as nat,
                    limit as nat,
                ),
                status.wf(),
                status.done == i,
                status.running == 0,
                status.tallies(events_in_turn(tasks@, outcomes, i as int)),
                line_views(resolved@) == lines_in_turn(tasks@, outcomes, i as int),
            decreases n - i,
        {
            let task = ResolveTask {
                tx: tasks[i].tx,
                name: tasks[i].name.clone(),
                qtype: tasks[i].qtype,
            };
            assert(task == tasks@[i as int]);
            let server = dns_list[(i % worker_qps) % dns_list.len()];
            assert(server == server_at(dns_list@, worker_qps as nat, i as int));
            let ghost events = events_in_turn(tasks@, outcomes, i as int);
            proof {
                lemma_update_tallies(status, events, ResolveStatus::Started);
            }
            status.update(ResolveStatus::Started);
            let finished = self.resolve(task, server, tries, limit);
            proof {
                lemma_update_tallies(
                    status,
                    events.push(ResolveStatus::Started),
                    finished.event,
                );
            }
            status.update(finished.event);
            let ghost before = resolved@;
            let mut lines = finished.lines;
            let ghost added = lines@;
            resolved.append(&mut lines);
            proof {
                assert(resolved@ == before + added);
                assert(line_views(resolved@) == line_views(before) + line_views(added));
                assert(line_views(added) =~= task_lines(task, outcomes[i as int]));
            }
            i += 1;
        }
        BatchReport { status, resolved }
    }
}

/// Determinism law: two fixed DNS that answer every question alike give
/// every lookup the same result.
pub proof fn lemma_same_answers_same_lookup(
    first: FixedDns,
    second: FixedDns,
    walk: WalkView,
    pending: Option<NsView>,
    origin: ServerAddr,
    name: Seq<char>,
    fuel: nat,
)
    requires
        forall|server: ServerAddr, question: Seq<char>, qtype: QueryType|
            first.answer_of(server, question, qtype) == second.answer_of(server, question, qtype),
    ensures
        walk_against(first, walk, pending, origin, name, fuel) == walk_against(
            second,
            walk,
            pending,
            origin,
            name,
            fuel,
        ),
    decreases fuel, (if pending is None { 1nat } else { 0nat }),
{
    match pending {
        None => {
            if walk.answer is None && walk.stack.len() > 0 {
                lemma_same_answers_same_lookup(
                    first,
                    second,
                    walk.popped(),
                    Some(walk.stack.last()),
                    origin,
                    name,
                    fuel,
                );
            }
        },
        Some(ns) => {
            if fuel > 0 {
                match ns {
                    NsView::Unknown(domain) => {
                        let question = root_anchored_text(domain);
                        assert(first.answer_of(origin, question, QueryType::A)
                            == second.answer_of(origin, question, QueryType::A));
                        match ns_lookup_of(settled(first.answer_of(origin, question, QueryType::A))) {
                            Ok(addr) => {
                                lemma_same_answers_same_lookup(
                                    first,
                                    second,
                                    walk,
                                    Some(NsView::Known(addr)),
                                    origin,
                                    name,
                                    (fuel - 1) as nat,
                                );
                            },
                            Err(ResolverError::NameServerNotResolved) => {
                                lemma_same_answers_same_lookup(
                                    first,
                                    second,
                                    walk,
                                    None,
                                    origin,
                                    name,
                                    (fuel - 1) as nat,
                                );
                            },
                            Err(_) => {},
                        }
                    },
                    NsView::Known(addr) => {
                        assert(first.answer_of(addr, name, QueryType::PTR) == second.answer_of(
                            addr,
                            name,
                            QueryType::PTR,
                        ));
                        match settled(first.answer_of(addr, name, QueryType::PTR)) {
                            Ok(message) => {
                                lemma_same_answers_same_lookup(
                                    first,
                                    second,
                                    walk.absorbed(message),
                                    None,
                                    origin,
                                    name,
                                    (fuel - 1) as nat,
                                );
                            },
                            Err(_) => {},
                        }
                    },
                }
            }
        },
    }
}

/// The lines of the first `upto` shares run against `dns`, share by share.
pub open spec fn lines_of_shares(
    dns: FixedDns,
    chunks: Seq<Vec<ResolveTask>>,
    dns_list: Seq<ServerAddr>,
    worker_qps: nat,
    fuel: nat,
    upto: int,
) -> Seq<LineView>
    decreases upto,
{
    if upto <= 0 {
        Seq::empty()
    } else {
        lines_of_shares(dns, chunks, dns_list, worker_qps, fuel, upto - 1) + lines_in_turn(
            chunks[upto - 1]@,
            share_outcomes(dns, chunks[upto - 1]@, dns_list, worker_qps, fuel),
            chunks[upto - 1]@.len() as int,
        )
    }
}

impl FixedDns {
    /// Runs a whole batch against this DNS with `workers` workers: the
    /// batch is handed to the pool, the pool shares the tasks out, and the
    /// shares are run one after the other. Whatever the servers answer,
    /// the counters end with as many done as the batch holds inputs, none
    /// running, and every input counted under exactly one outcome. The
    /// lines are those of the shares, share by share.
    pub fn run_batch(&self, batch: Batch, config: &Config, workers: usize, limit: usize) -> (report:
        BatchReport)
        requires
            batch.wf(),
            config.wf(),
            workers >= 1,
        ensures
            report.status.done == total_inputs(batch.tasks@),
            report.status.running == 0,
            report.status.done == report.status.success + report.status.fail
                + report.status.errored,
            exists|chunks: Seq<Vec<ResolveTask>>|
                crate::batch::task_views(joined(chunks)) == crate::batch::expanded(
                    batch.tasks@,
                    batch.outputs@,
                ) && #[trigger] line_views(report.resolved@) == lines_of_shares(
                    *self,
                    chunks,
                    config.dns_list@,
                    ceil_div(config.qps as int, workers as int) as nat,
                    limit as nat,
                    chunks.len() as int,
                ),
    {
        let pool = batch.hand_to(ResolverThreadPool::new(workers));
        let ghost tasks = pool.tasks@;
        let total: usize = pool.tasks.len();
        let plan = pool.start(config.qps);
        proof {
            lemma_ceil_div_bounds(config.qps as int, workers as int);
        }
        let worker_qps: usize = plan.worker_qps;
        let chunks = plan.chunks;
        let ghost shares = chunks@;
        assert(joined(shares) == tasks) by {
            if tasks.len() == 0 {
                assert(joined(shares) =~= tasks);
            }
        }
        let mut status = Status::new();
        let mut resolved: Vec<Resolved> = Vec::new();
        let mut k: usize = 0;
        assert(line_views(resolved@) == lines_of_shares(
            *self,
            shares,
            config.dns_list@,
            worker_qps as nat,
            limit as nat,
            0,
        ));
        assert(joined(shares.subrange(0, 0)) =~= Seq::<ResolveTask>::empty());
        while k < chunks.len()
            invariant
                k <= chunks.len(),
                shares == chunks@,
                config.wf(),
                worker_qps >= 1,
                status.wf(),
                status.running == 0,
                status.done == joined(shares.subrange(0, k as int)).len(),
                joined(shares.subrange(0, k as int)).len() <= joined(shares).len(),
                joined(shares).len() == total,
                line_views(resolved@) == lines_of_shares(
                    *self,
                    shares,
                    config.dns_list@,
                    worker_qps as nat,
                    limit as nat,
                    k as int,
                ),
            decreases chunks.len() - k,
        {
            let part = self.run_share(
                &chunks[k],
                &config.dns_list,
                worker_qps,
                config.timeout_retries,
                limit,
            );
            proof {
                let next = shares.subrange(0, k as int + 1);
                assert(next.drop_last() == shares.subrange(0, k as int));
                assert(next.last() == shares[k as int]);
                lemma_joined_prefix(shares, k as int + 1);
                assert(joined(next).len() == joined(shares.subrange(0, k as int)).len()
                    + shares[k as int]@.len());
            }
            status = Status {
                done: status.done + part.status.done,
                success: status.success + part.status.success,
                fail: status.fail + part.status.fail,
                errored: status.errored + part.status.errored,
                running: 0,
            };
            let ghost before = resolved@;
            let mut lines = part.resolved;
            let ghost added = lines@;
            resolved.append(&mut lines);
            proof {
                assert(resolved@ == before + added);
                assert(line_views(resolved@) == line_views(before) + line_views(added));
            }
            k += 1;
        }
        proof {
            assert(shares.subrange(0, shares.len() as int) == shares);
            assert(tasks.len() == total_inputs(batch.tasks@));
        }
        BatchReport { status, resolved }
    }
}

/// The first `upto` shares hold no more tasks than all shares.
proof fn lemma_joined_prefix(chunks: Seq<Vec<ResolveTask>>, upto: int)
    requires
        0 <= upto <= chunks.len(),
    ensures
        joined(chunks.subrange(0, upto)).len() <= joined(chunks).len(),
    decreases chunks.len() - upto,
{
    if upto < chunks.len() {
        let next = chunks.subrange(0, upto + 1);
        assert(next.drop_last() == chunks.subrange(0, upto));
        lemma_joined_prefix(chunks, upto + 1);
    } else {
        assert(chunks.subrange(0, upto) == chunks);
    }
}

/// Every authority record in every response of `dns` names a server of
/// `universe`.
pub open spec fn refers_within(dns: FixedDns, universe: Set<NsView>) -> bool {
    forall|server: ServerAddr, question: Seq<char>, qtype: QueryType, k: int|
        dns.answer_of(server, question, qtype) is Ok && 0 <= k < (#[trigger] dns.answer_of(
            server,
            question,
            qtype,
        ))->Ok_0.name_servers@.len() ==> universe.contains(
            NsView::Unknown(
                #[trigger] dns.answer_of(server, question, qtype)->Ok_0.name_servers@[k].name@,
            ),
        )
}

/// The lookups a walk may still need: two for every server of `universe`
/// not yet asked (one for its address, one for the reverse name), and what
/// the pending server still needs.
pub open spec fn lookups_needed(
    walk: WalkView,
    pending: Option<NsView>,
    universe: Set<NsView>,
) -> int {
    2 * (universe.len() - walk.seen.len()) + match pending {
        None => 0int,
        Some(NsView::Known(_)) => 1int,
        Some(NsView::Unknown(_)) => 2int,
    }
}

/// Limit law: a walk over servers that refer to one another within a
/// finite set never runs out of lookups when it is given two for each
/// server; with more it comes to the same result.
pub proof fn lemma_limit_changes_nothing(
    dns: FixedDns,
    walk: WalkView,
    pending: Option<NsView>,
    origin: ServerAddr,
    name: Seq<char>,
    fuel: nat,
    more: nat,
    universe: Set<NsView>,
)
    requires
        walk.wf(),
        walk.within(universe),
        universe.finite(),
        refers_within(dns, universe),
        fuel >= lookups_needed(walk, pending, universe),
        more >= fuel,
    ensures
        walk_against(dns, walk, pending, origin, name, fuel) == walk_against(
            dns,
            walk,
            pending,
            origin,
            name,
            more,
        ),
    decreases fuel, (if pending is None { 1nat } else { 0nat }),
{
    lemma_walk_bounded(walk, universe);
    match pending {
        None => {
            if walk.answer is None && walk.stack.len() > 0 {
                lemma_popped_keeps_order(walk);
                lemma_popped_within(walk, universe);
                lemma_limit_changes_nothing(
                    dns,
                    walk.popped(),
                    Some(walk.stack.last()),
                    origin,
                    name,
                    fuel,
                    more,
                    universe,
                );
            }
        },
        Some(NsView::Unknown(domain)) => {
            let question = root_anchored_text(domain);
            match ns_lookup_of(settled(dns.answer_of(origin, question, QueryType::A))) {
                Ok(addr) => {
                    lemma_limit_changes_nothing(
                        dns,
                        walk,
                        Some(NsView::Known(addr)),
                        origin,
                        name,
                        (fuel - 1) as nat,
                        (more - 1) as nat,
                        universe,
                    );
                },
                Err(ResolverError::NameServerNotResolved) => {
                    lemma_limit_changes_nothing(
                        dns,
                        walk,
                        None,
                        origin,
                        name,
                        (fuel - 1) as nat,
                        (more - 1) as nat,
                        universe,
                    );
                },
                Err(_) => {},
            }
        },
        Some(NsView::Known(addr)) => {
            let outcome = dns.answer_of(addr, name, QueryType::PTR);
            match settled(outcome) {
                Ok(message) => {
                    assert(outcome == Ok::<Message, ClientError>(message));
                    assert forall|k: int| 0 <= k < message.name_servers@.len() implies universe.contains(
                        NsView::Unknown(#[trigger] message.name_servers@[k].name@),
                    ) by {
                        assert(dns.answer_of(addr, name, QueryType::PTR)->Ok_0 == message);
                    }
                    lemma_absorbed_keeps_order(walk, message);
                    lemma_absorbed_within(walk, message, universe);
                    lemma_limit_changes_nothing(
                        dns,
                        walk.absorbed(message),
                        None,
                        origin,
                        name,
                        (fuel - 1) as nat,
                        (more - 1) as nat,
                        universe,
                    );
                },
                Err(_) => {},
            }
        },
    }
}

} // verus!
