use batch_resolve::{ClientError, Message, RData, Record, ResolverError, RetryState, RetryStep};

fn message(ip: &str) -> Message {
    Message {
        answers: vec![Record { name: "example.com.".to_string(), rdata: RData::A(ip.to_string()) }],
        name_servers: vec![],
    }
}

/// Runs a loop over the outcomes given, in order; returns the queries issued and the result.
fn run(tries: u32, outcomes: Vec<Result<Message, ClientError>>) -> (u32, Option<Result<Message, ResolverError>>) {
    let mut state = RetryState::new(tries);
    let mut queries = 0;
    for outcome in outcomes {
        queries += 1;
        match state.on_result(outcome) {
            Err(e) => return (queries, Some(Err(e))),
            Ok(RetryStep::Break(s)) => return (queries, Some(s.finish())),
            Ok(RetryStep::Continue(s)) => state = s,
        }
    }
    (queries, None)
}

#[test]
fn timeouts_use_every_try_then_fail() {
    let outcomes = (0..10).map(|_| Err(ClientError::Timeout)).collect();
    assert_eq!(run(3, outcomes), (3, Some(Err(ResolverError::ConnectionTimeout))));
}

#[test]
fn single_try_gives_up_after_one_timeout() {
    assert_eq!(
        run(1, vec![Err(ClientError::Timeout), Ok(message("1.1.1.1"))]),
        (1, Some(Err(ResolverError::ConnectionTimeout)))
    );
}

#[test]
fn first_response_stops_the_loop() {
    assert_eq!(
        run(3, vec![Ok(message("93.184.216.34")), Err(ClientError::Timeout)]),
        (1, Some(Ok(message("93.184.216.34"))))
    );
}

#[test]
fn response_after_timeouts_is_returned() {
    assert_eq!(
        run(3, vec![Err(ClientError::Timeout), Err(ClientError::Canceled("dropped".to_string())), Ok(message("10.0.0.1"))]),
        (3, Some(Ok(message("10.0.0.1"))))
    );
}

#[test]
fn canceled_counts_like_a_timeout() {
    let outcomes = (0..5).map(|_| Err(ClientError::Canceled("socket closed".to_string()))).collect();
    assert_eq!(run(2, outcomes), (2, Some(Err(ResolverError::ConnectionTimeout))));
}

#[test]
fn other_failure_surfaces_at_once() {
    assert_eq!(
        run(5, vec![Err(ClientError::Timeout), Err(ClientError::Other("malformed".to_string())), Ok(message("1.1.1.1"))]),
        (2, Some(Err(ResolverError::DnsClientError("malformed".to_string()))))
    );
}

#[test]
fn loop_waits_while_tries_remain() {
    assert_eq!(run(3, vec![Err(ClientError::Timeout), Err(ClientError::Timeout)]), (2, None));
}

#[test]
fn state_steps() {
    let s = RetryState::new(2);
    assert_eq!(s.tries_left, 2);
    assert!(s.message.is_none());
    assert!(s.has_next_step());
    let s = match s.next_step() {
        RetryStep::Continue(s) => s,
        other => panic!("{:?}", other),
    };
    assert_eq!(s.tries_left, 1);
    let s = match s.next_step() {
        RetryStep::Break(s) => s,
        other => panic!("{:?}", other),
    };
    assert_eq!(s.tries_left, 0);
    assert!(!s.has_next_step());
    assert_eq!(s.finish(), Err(ResolverError::ConnectionTimeout));
    let s = RetryState::new(4).with_message(message("1.2.3.4"));
    assert_eq!(s.tries_left, 4);
    assert_eq!(s.into_message(), Some(message("1.2.3.4")));
}

#[test]
fn error_descriptions() {
    assert_eq!(ResolverError::ConnectionTimeout.description(), "Connection timeout");
    assert_eq!(ResolverError::NameServerNotResolved.description(), "Failed to resolve nameserver");
    assert_eq!(ResolverError::NotFound.description(), "Not found");
    assert_eq!(ResolverError::DnsClientError("bad packet".to_string()).to_string(), "bad packet");
}

#[test]
fn a_steady_server_decides_the_result_alone() {
    for tries in [1u32, 2, 5] {
        let same = |o: Result<Message, ClientError>| (0..tries).map(|_| o.clone()).collect::<Vec<_>>();
        assert_eq!(run(tries, same(Ok(message("1.2.3.4")))).1, Some(Ok(message("1.2.3.4"))));
        assert_eq!(run(tries, same(Err(ClientError::Timeout))).1, Some(Err(ResolverError::ConnectionTimeout)));
        assert_eq!(
            run(tries, same(Err(ClientError::Canceled("x".to_string())))).1,
            Some(Err(ResolverError::ConnectionTimeout))
        );
        assert_eq!(
            run(tries, same(Err(ClientError::Other("x".to_string())))).1,
            Some(Err(ResolverError::DnsClientError("x".to_string())))
        );
    }
}
