use batch_resolve::{
    Answer, Batch, ClientError, Config, FixedDns, Message, QueryType, RData, RawConfig, Record, ResolveStatus,
    ResolveTask, ResolverError, ServerAddr, Status,
};

fn addr(a: u8, b: u8, c: u8, d: u8) -> ServerAddr {
    ServerAddr::V4 { a, b, c, d, port: 53 }
}

fn answer(name: &str, rdata: RData) -> Result<Message, ClientError> {
    Ok(Message { answers: vec![Record { name: name.to_string(), rdata }], name_servers: vec![] })
}

fn referral(ns: &str) -> Result<Message, ClientError> {
    Ok(Message { answers: vec![], name_servers: vec![Record { name: ns.to_string(), rdata: RData::Other }] })
}

fn entry(server: ServerAddr, name: &str, qtype: QueryType, outcome: Result<Message, ClientError>) -> Answer {
    Answer { server, name: name.to_string(), qtype, outcome }
}

fn config(servers: &[&str], qps: u32, retries: u32) -> Config {
    let mut c = Config::new();
    let raw = RawConfig {
        dns: Some(servers.iter().map(|s| s.to_string()).collect()),
        retry: Some(retries),
        queries_per_second: Some(qps),
    };
    c.parse(&raw).unwrap();
    c
}

fn names(list: &[&str]) -> Vec<String> {
    list.iter().map(|s| s.to_string()).collect()
}

fn task(name: &str, qtype: QueryType) -> ResolveTask {
    ResolveTask { tx: 0, name: name.to_string(), qtype }
}

fn delegated() -> FixedDns {
    let s = addr(8, 8, 8, 8);
    FixedDns {
        answers: vec![
            entry(s, "1.1.1.1.in-addr.arpa.", QueryType::PTR, referral("ns1.example.")),
            entry(s, "ns1.example.", QueryType::A, answer("ns1.example.", RData::A("10.0.0.1".to_string()))),
            entry(
                addr(10, 0, 0, 1),
                "1.1.1.1.in-addr.arpa.",
                QueryType::PTR,
                answer("1.1.1.1.in-addr.arpa.", RData::PTR("one.one.one.one.".to_string())),
            ),
            entry(s, "example.com.", QueryType::A, answer("example.com.", RData::A("93.184.216.34".to_string()))),
            entry(s, "broken.example.", QueryType::A, Err(ClientError::Other("malformed".to_string()))),
            entry(s, "example.com.", QueryType::A, answer("example.com.", RData::A("0.0.0.0".to_string()))),
        ],
    }
}

fn cycle() -> FixedDns {
    let s = addr(8, 8, 8, 8);
    let name = "test.cycle.in-addr.arpa.";
    FixedDns {
        answers: vec![
            entry(s, name, QueryType::PTR, referral("ns1.")),
            entry(s, "ns1.", QueryType::A, answer("ns1.", RData::A("10.0.0.1".to_string()))),
            entry(s, "ns2.", QueryType::A, answer("ns2.", RData::A("10.0.0.2".to_string()))),
            entry(addr(10, 0, 0, 1), name, QueryType::PTR, referral("ns2.")),
            entry(addr(10, 0, 0, 2), name, QueryType::PTR, referral("ns1.")),
        ],
    }
}

#[test]
fn fixed_dns_answers_with_the_first_entry_that_fits() {
    let dns = delegated();
    let s = addr(8, 8, 8, 8);
    assert_eq!(dns.query(s, &"example.com.".to_string(), QueryType::A), answer("example.com.", RData::A("93.184.216.34".to_string())));
    assert_eq!(dns.query(s, &"example.com.".to_string(), QueryType::AAAA), Err(ClientError::Timeout));
    assert_eq!(dns.query(addr(1, 1, 1, 1), &"example.com.".to_string(), QueryType::A), Err(ClientError::Timeout));
    assert_eq!(dns.query(s, &"broken.example.".to_string(), QueryType::A), Err(ClientError::Other("malformed".to_string())));
}

#[test]
fn retry_loop_against_a_fixed_dns() {
    let dns = delegated();
    let s = addr(8, 8, 8, 8);
    for tries in [1, 3, 10] {
        assert_eq!(
            dns.resolve_retry(s, tries, &"example.com.".to_string(), QueryType::A).unwrap().extract_answer(QueryType::A),
            vec!["93.184.216.34"]
        );
        assert_eq!(dns.resolve_retry(s, tries, &"nobody.".to_string(), QueryType::A), Err(ResolverError::ConnectionTimeout));
        assert_eq!(
            dns.resolve_retry(s, tries, &"broken.example.".to_string(), QueryType::A),
            Err(ResolverError::DnsClientError("malformed".to_string()))
        );
    }
}

#[test]
fn walk_against_a_fixed_dns_follows_the_referral() {
    let dns = delegated();
    let r = dns.recurse_ptr(addr(8, 8, 8, 8), 3, &"1.1.1.1.in-addr.arpa.".to_string(), 100);
    assert_eq!(r.unwrap().extract_answer(QueryType::PTR), vec!["one.one.one.one."]);
    let f = dns.resolve(task("1.1.1.1", QueryType::PTR), addr(8, 8, 8, 8), 3, 100);
    assert_eq!(f.event, ResolveStatus::Success);
    assert_eq!(f.lines.iter().map(|l| l.line.as_str()).collect::<Vec<_>>(), vec!["one.one.one.one"]);
}

#[test]
fn walk_against_a_cycle_ends_in_not_found() {
    let dns = cycle();
    for limit in [5usize, 6, 100, usize::MAX] {
        assert_eq!(
            dns.recurse_ptr(addr(8, 8, 8, 8), 2, &"test.cycle.in-addr.arpa.".to_string(), limit),
            Err(ResolverError::NotFound)
        );
    }
    let f = dns.resolve(task("cycle.test", QueryType::PTR), addr(8, 8, 8, 8), 2, 100);
    assert_eq!((f.event, f.lines.len(), f.error), (ResolveStatus::Failure, 0, None));
}

#[test]
fn walk_gives_up_when_its_lookups_are_used_up() {
    let dns = delegated();
    let name = "1.1.1.1.in-addr.arpa.".to_string();
    assert_eq!(dns.recurse_ptr(addr(8, 8, 8, 8), 3, &name, 0), Err(ResolverError::NotFound));
    assert_eq!(dns.recurse_ptr(addr(8, 8, 8, 8), 3, &name, 2), Err(ResolverError::NotFound));
    assert!(dns.recurse_ptr(addr(8, 8, 8, 8), 3, &name, 3).is_ok());
}

#[test]
fn a_batch_against_a_fixed_dns_counts_every_input() {
    let dns = delegated();
    let cfg = config(&["8.8.8.8"], 100, 3);
    for workers in [1usize, 2, 3, 8] {
        let mut batch = Batch::new();
        batch.add_task(names(&["example.com", "silent.example", "broken.example"]), 0, QueryType::A);
        batch.add_task(names(&["1.1.1.1", "9.9.9.9"]), 1, QueryType::PTR);
        let report = dns.run_batch(batch, &cfg, workers, 100);
        assert_eq!(report.status, Status { done: 5, success: 2, fail: 2, errored: 1, running: 0 }, "{}", workers);
        let mut lines: Vec<(usize, String, String)> =
            report.resolved.into_iter().map(|r| (r.tx, r.name, r.line)).collect();
        lines.sort();
        assert_eq!(
            lines,
            vec![
                (0, "example.com".to_string(), "93.184.216.34".to_string()),
                (1, "1.1.1.1".to_string(), "one.one.one.one".to_string()),
            ]
        );
    }
}

#[test]
fn all_timeouts_fail_every_input() {
    let dns = FixedDns { answers: vec![] };
    let mut batch = Batch::new();
    batch.add_task(names(&["a", "b", "c"]), 0, QueryType::A);
    let report = dns.run_batch(batch, &config(&["8.8.8.8", "8.8.4.4"], 5000, 3), 4, 10);
    assert_eq!(report.status, Status { done: 3, success: 0, fail: 3, errored: 0, running: 0 });
    assert!(report.resolved.is_empty());
    let none = dns.run_batch(Batch::new(), &Config::new(), 2, 10);
    assert_eq!(none.status, Status::new());
}

#[test]
fn two_runs_against_the_same_dns_agree() {
    let cfg = config(&["8.8.8.8", "10.0.0.1"], 3, 2);
    let run = || {
        let mut batch = Batch::new();
        batch.add_task(names(&["example.com", "x.example", "example.com", "y.example"]), 0, QueryType::A);
        batch.add_task(names(&["1.1.1.1"]), 1, QueryType::PTR);
        delegated().run_batch(batch, &cfg, 2, 50)
    };
    assert_eq!(run(), run());
}

#[test]
fn a_share_starts_each_task_with_the_server_of_its_token() {
    let dns = FixedDns {
        answers: vec![
            entry(addr(1, 1, 1, 1), "n.", QueryType::A, answer("n.", RData::A("1.1.1.1".to_string()))),
            entry(addr(2, 2, 2, 2), "n.", QueryType::A, answer("n.", RData::A("2.2.2.2".to_string()))),
            entry(addr(3, 3, 3, 3), "n.", QueryType::A, answer("n.", RData::A("3.3.3.3".to_string()))),
        ],
    };
    let tasks: Vec<ResolveTask> = (0..5).map(|_| task("n", QueryType::A)).collect();
    let servers = vec![addr(1, 1, 1, 1), addr(2, 2, 2, 2), addr(3, 3, 3, 3)];
    let report = dns.run_share(&tasks, &servers, 2, 1, 10);
    let lines: Vec<&str> = report.resolved.iter().map(|r| r.line.as_str()).collect();
    assert_eq!(lines, vec!["1.1.1.1", "2.2.2.2", "1.1.1.1", "2.2.2.2", "1.1.1.1"]);
    let report = dns.run_share(&tasks, &servers, 5, 1, 10);
    let lines: Vec<&str> = report.resolved.iter().map(|r| r.line.as_str()).collect();
    assert_eq!(lines, vec!["1.1.1.1", "2.2.2.2", "3.3.3.3", "1.1.1.1", "2.2.2.2"]);
    assert_eq!(report.status, Status { done: 5, success: 5, fail: 0, errored: 0, running: 0 });
}
