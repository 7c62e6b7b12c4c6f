use batch_resolve::pacer::{TriggerHandle, TriggerTimer, ROUND_NANOS};
use batch_resolve::pool::{div_ceil, output_line};
use batch_resolve::{
    Batch, BatchTask, Message, QueryPlan, QueryType, RData, Record, ResolveStatus, ResolveTask, Resolved,
    ResolverError, ResolverThreadPool, ServerAddr, Status,
};

fn task(tx: usize, name: &str, qtype: QueryType) -> ResolveTask {
    ResolveTask { tx, name: name.to_string(), qtype }
}

fn names(list: &[&str]) -> Vec<String> {
    list.iter().map(|s| s.to_string()).collect()
}

fn server(d: u8) -> ServerAddr {
    ServerAddr::V4 { a: 10, b: 0, c: 0, d, port: 53 }
}

#[test]
fn rounding_up() {
    assert_eq!(div_ceil(0, 4), 0);
    assert_eq!(div_ceil(1, 4), 1);
    assert_eq!(div_ceil(4, 4), 1);
    assert_eq!(div_ceil(5, 4), 2);
    assert_eq!(div_ceil(5000, 8), 625);
    assert_eq!(div_ceil(5000, 12), 417);
    assert_eq!(div_ceil(usize::MAX, 2), usize::MAX / 2 + 1);
    assert_eq!(div_ceil(usize::MAX, 1), usize::MAX);
}

#[test]
fn pool_collects_tasks() {
    let mut pool = ResolverThreadPool::new(4);
    assert_eq!(pool.workers_cnt, 4);
    assert!(pool.tasks.is_empty());
    pool.spawn(task(0, "a", QueryType::A));
    pool.spawn(task(1, "b", QueryType::PTR));
    assert_eq!(pool.tasks, vec![task(0, "a", QueryType::A), task(1, "b", QueryType::PTR)]);
    assert_eq!(pool.workers_cnt, 4);
}

#[test]
fn pool_has_a_worker_per_cpu() {
    let pool = ResolverThreadPool::num_cpus();
    assert!(pool.workers_cnt >= 1);
    assert!(pool.tasks.is_empty());
}

#[test]
fn tasks_are_shared_out_in_order() {
    let mut pool = ResolverThreadPool::new(3);
    for i in 0..10 {
        pool.spawn(task(0, &i.to_string(), QueryType::A));
    }
    let plan = pool.start(100);
    assert_eq!(plan.tasks_cnt, 10);
    assert_eq!(plan.worker_qps, 34);
    let sizes: Vec<usize> = plan.chunks.iter().map(|c| c.len()).collect();
    assert_eq!(sizes, vec![4, 4, 2]);
    let order: Vec<String> = plan.chunks.iter().flatten().map(|t| t.name.clone()).collect();
    assert_eq!(order, (0..10).map(|i| i.to_string()).collect::<Vec<_>>());
}

#[test]
fn fewer_tasks_than_workers() {
    let mut pool = ResolverThreadPool::new(8);
    pool.spawn(task(0, "a", QueryType::A));
    pool.spawn(task(0, "b", QueryType::A));
    let plan = pool.start(5000);
    assert_eq!(plan.worker_qps, 625);
    assert_eq!(plan.chunks, vec![vec![task(0, "a", QueryType::A)], vec![task(0, "b", QueryType::A)]]);
}

#[test]
fn even_split_and_empty_pool() {
    let mut pool = ResolverThreadPool::new(2);
    for i in 0..4 {
        pool.spawn(task(0, &i.to_string(), QueryType::NS));
    }
    let plan = pool.start(1);
    assert_eq!(plan.worker_qps, 1);
    assert_eq!(plan.chunks.iter().map(|c| c.len()).collect::<Vec<_>>(), vec![2, 2]);

    let plan = ResolverThreadPool::new(2).start(0);
    assert_eq!(plan.worker_qps, 0);
    assert_eq!(plan.tasks_cnt, 0);
    assert!(plan.chunks.is_empty());
}

#[test]
fn task_lines_go_to_its_sink() {
    let t = task(3, "1.1.1.1", QueryType::PTR);
    let out = t.resolve(&names(&["one.one.one.one.", "dns.example"]));
    assert_eq!(
        out,
        vec![
            Resolved { tx: 3, name: "1.1.1.1".to_string(), line: "one.one.one.one".to_string() },
            Resolved { tx: 3, name: "1.1.1.1".to_string(), line: "dns.example".to_string() },
        ]
    );
    assert_eq!(task(1, "x", QueryType::A).resolve(&vec![]), vec![]);
}

#[test]
fn only_reverse_names_lose_the_dot() {
    assert_eq!(output_line(QueryType::PTR, "example.com."), "example.com");
    assert_eq!(output_line(QueryType::NS, "ns.example.com."), "ns.example.com.");
    assert_eq!(output_line(QueryType::A, "1.2.3.4"), "1.2.3.4");
}

#[test]
fn batch_expands_groups_last_added_first() {
    let mut batch = Batch::new();
    assert!(batch.tasks.is_empty());
    batch.add_task(names(&["a.example", "b.example"]), 0, QueryType::A);
    batch.add_task(names(&["1.2.3.4"]), 1, QueryType::PTR);
    assert_eq!(batch.tasks[1], BatchTask::new(names(&["1.2.3.4"]), QueryType::PTR));
    assert_eq!(batch.outputs, vec![0, 1]);
    let pool = batch.hand_to(ResolverThreadPool::new(4));
    assert_eq!(pool.workers_cnt, 4);
    assert_eq!(
        pool.tasks,
        vec![task(1, "1.2.3.4", QueryType::PTR), task(0, "a.example", QueryType::A), task(0, "b.example", QueryType::A)]
    );
}

#[test]
fn pacer_hands_out_servers_in_turn() {
    let mut timer = TriggerTimer::new(7, 5);
    assert_eq!(timer.get_handle(), TriggerHandle { worker: 0, capacity: 5 });
    assert_eq!(timer.get_handle(), TriggerHandle { worker: 1, capacity: 5 });
    assert!(!timer.finished());
    let tokens = timer.trigger_qps(&vec![server(1), server(2)]);
    assert_eq!(tokens, vec![server(1), server(2), server(1), server(2), server(1)]);
    assert_eq!(timer.triggered, 10);
    assert!(timer.finished());
}

#[test]
fn pacer_runs_until_every_task_has_a_token() {
    let mut timer = TriggerTimer::new(1000, 13);
    for _ in 0..8 {
        timer.get_handle();
    }
    let mut rounds = 0;
    while !timer.finished() {
        assert_eq!(timer.trigger_qps(&vec![server(1)]).len(), 13);
        rounds += 1;
    }
    assert_eq!(rounds, 10);
    assert_eq!(timer.triggered, 1040);
}

#[test]
fn pacer_count_stops_at_the_machine_limit() {
    let mut timer = TriggerTimer { handles: usize::MAX, worker_qps: 2, triggered: 5, tasks_cnt: 9 };
    assert_eq!(timer.trigger_qps(&vec![server(1)]).len(), 2);
    assert_eq!(timer.triggered, usize::MAX);
}

#[test]
fn pacer_waits_out_the_second() {
    assert_eq!(TriggerTimer::pause(0), ROUND_NANOS);
    assert_eq!(TriggerTimer::pause(250_000_000), 750_000_000);
    assert_eq!(TriggerTimer::pause(999_999_999), 1);
    assert_eq!(TriggerTimer::pause(1_000_000_000), 0);
    assert_eq!(TriggerTimer::pause(u64::MAX), 0);
}

#[test]
fn a_round_stays_within_the_rate() {
    for (qps, workers) in [(100usize, 8usize), (5000, 12), (1, 16), (7, 7), (0, 3)] {
        let per_worker = div_ceil(qps, workers);
        assert!(per_worker * workers >= qps);
        assert!(per_worker * workers < qps + workers);
    }
}

#[test]
fn batch_runs_on_a_worker_per_cpu() {
    let mut batch = Batch::new();
    batch.add_task(names(&["a", "b"]), 0, QueryType::NS);
    batch.add_task(vec![], 1, QueryType::A);
    let pool = batch.run();
    assert!(pool.workers_cnt >= 1);
    assert_eq!(pool.tasks, vec![task(0, "a", QueryType::NS), task(0, "b", QueryType::NS)]);
    assert!(Batch::new().run().tasks.is_empty());
}

#[test]
fn a_task_starts_once_and_finishes_once() {
    let started = task(2, "1.1.1.1", QueryType::PTR).start();
    assert_eq!(started.event, ResolveStatus::Started);
    assert_eq!(started.plan, QueryPlan::Reverse("1.1.1.1.in-addr.arpa.".to_string()));
    let answer = Message {
        answers: vec![Record { name: "x.".to_string(), rdata: RData::PTR("one.one.one.one.".to_string()) }],
        name_servers: vec![],
    };
    let finished = started.running.finish(Ok(answer));
    assert_eq!(finished.event, ResolveStatus::Success);
    assert_eq!(
        finished.lines,
        vec![Resolved { tx: 2, name: "1.1.1.1".to_string(), line: "one.one.one.one".to_string() }]
    );
    assert_eq!(finished.error, None);

    let started = task(0, "example.com", QueryType::A).start();
    assert_eq!(started.plan, QueryPlan::Simple("example.com.".to_string(), QueryType::A));
    let finished = started.running.finish(Err(ResolverError::ConnectionTimeout));
    assert_eq!((finished.event, finished.lines.len(), finished.error), (ResolveStatus::Failure, 0, None));

    let failed = task(0, "example.com", QueryType::A).start().running.finish(Err(ResolverError::DnsClientError("io".to_string())));
    assert_eq!(failed.event, ResolveStatus::Error);
    assert!(failed.lines.is_empty());
    assert_eq!(failed.error, Some(ResolverError::DnsClientError("io".to_string())));
}

#[test]
fn every_input_is_counted_whatever_the_order() {
    // three tasks whose starts and finishes interleave
    let tasks = vec![task(0, "a", QueryType::A), task(0, "b", QueryType::A), task(1, "c", QueryType::NS)];
    let mut events = vec![];
    let mut running = vec![];
    for t in tasks {
        let started = t.start();
        events.push(started.event);
        running.push(started.running);
    }
    while let Some(r) = running.pop() {
        events.push(r.finish(Err(ResolverError::NotFound)).event);
    }
    let status = Status::collect(&events).unwrap();
    assert_eq!(status, Status { done: 3, success: 0, fail: 3, errored: 0, running: 0 });
    assert_eq!(events[..3], [ResolveStatus::Started; 3]);
}

#[test]
fn finished_pacer_has_served_every_share() {
    for (tasks, workers, qps) in [(10usize, 3usize, 1usize), (5, 4, 1), (1000, 8, 100), (7, 16, 5000), (1, 1, 1)] {
        let share = div_ceil(tasks, workers);
        let handles = div_ceil(tasks, share);
        let mut timer = TriggerTimer::new(tasks, div_ceil(qps, workers));
        for _ in 0..handles {
            timer.get_handle();
        }
        let mut per_worker = 0;
        while !timer.finished() {
            per_worker += timer.trigger_qps(&vec![server(1)]).len();
        }
        assert!(per_worker >= share, "{} {} {}", tasks, workers, qps);
    }
}

#[test]
fn a_batch_run_in_turn_counts_every_input() {
    let tasks = vec![
        task(0, "example.com", QueryType::A),
        task(1, "1.1.1.1", QueryType::PTR),
        task(0, "slow.example", QueryType::A),
        task(0, "broken.example", QueryType::A),
        task(1, "9.9.9.9", QueryType::PTR),
    ];
    let a = Message {
        answers: vec![
            Record { name: "example.com.".to_string(), rdata: RData::A("93.184.216.34".to_string()) },
            Record { name: "example.com.".to_string(), rdata: RData::A("93.184.216.35".to_string()) },
        ],
        name_servers: vec![],
    };
    let ptr = Message {
        answers: vec![Record { name: "x.".to_string(), rdata: RData::PTR("one.one.one.one.".to_string()) }],
        name_servers: vec![],
    };
    let outcomes = vec![
        Ok(a),
        Ok(ptr),
        Err(ResolverError::ConnectionTimeout),
        Err(ResolverError::DnsClientError("malformed".to_string())),
        Err(ResolverError::NotFound),
    ];
    let report = batch_resolve::run_in_turn(tasks, outcomes);
    assert_eq!(report.status, Status { done: 5, success: 2, fail: 2, errored: 1, running: 0 });
    let lines: Vec<(usize, &str, &str)> =
        report.resolved.iter().map(|r| (r.tx, r.name.as_str(), r.line.as_str())).collect();
    assert_eq!(
        lines,
        vec![
            (0, "example.com", "93.184.216.34"),
            (0, "example.com", "93.184.216.35"),
            (1, "1.1.1.1", "one.one.one.one"),
        ]
    );
    let empty = batch_resolve::run_in_turn(vec![], vec![]);
    assert_eq!(empty.status, Status::new());
    assert!(empty.resolved.is_empty());
}
