use batch_resolve::recurse::contains_ns;
use batch_resolve::{Message, RData, Record, RecurseState, ResolverError, ServerAddr, WalkAction, NS};

fn start() -> ServerAddr {
    ServerAddr::V4 { a: 8, b: 8, c: 8, d: 8, port: 53 }
}

fn authority(names: &[&str]) -> Vec<Record> {
    names.iter().map(|n| Record { name: n.to_string(), rdata: RData::Other }).collect()
}

fn unknown(name: &str) -> NS {
    NS::Unknown(name.to_string())
}

#[test]
fn walk_starts_with_the_given_server() {
    let s = RecurseState::new(start());
    assert_eq!(s.nameservers, vec![NS::Known(start())]);
    assert!(s.visited.is_empty());
    assert!(s.answer.is_none());
}

#[test]
fn pop_marks_the_server_as_asked() {
    let mut s = RecurseState::new(start());
    assert_eq!(s.pop_ns(), Some(NS::Known(start())));
    assert!(s.nameservers.is_empty());
    assert_eq!(s.visited, vec![NS::Known(start())]);
    assert_eq!(s.pop_ns(), None);
    assert_eq!(s.visited, vec![NS::Known(start())]);
}

#[test]
fn push_skips_root_asked_and_waiting_servers() {
    let mut s = RecurseState::new(start());
    s.push_nameservers(&authority(&["ns1.example.", ".", "ns2.example.", "ns1.example.", ""]));
    assert_eq!(s.nameservers, vec![NS::Known(start()), unknown("ns1.example."), unknown("ns2.example.")]);
    assert_eq!(s.pop_ns(), Some(unknown("ns2.example.")));
    s.push_nameservers(&authority(&["ns2.example.", "ns3.example.", "ns1.example."]));
    assert_eq!(s.nameservers, vec![NS::Known(start()), unknown("ns1.example."), unknown("ns3.example.")]);
    assert_eq!(s.visited, vec![unknown("ns2.example.")]);
}

#[test]
fn walk_is_depth_first() {
    let mut s = RecurseState::new(start());
    assert_eq!(s.next_action(), WalkAction::Query(start()));
    let referral = Message { answers: vec![], name_servers: authority(&["a.", "b."]) };
    assert_eq!(s.response(Ok(referral)), WalkAction::ResolveNs("b.".to_string()));
    assert_eq!(s.nameservers, vec![unknown("a.")]);
    assert_eq!(s.visited, vec![NS::Known(start()), unknown("b.")]);
}

#[test]
fn answer_ends_the_walk() {
    let mut s = RecurseState::new(start());
    assert_eq!(s.next_action(), WalkAction::Query(start()));
    let m = Message {
        answers: vec![Record { name: "4.3.2.1.in-addr.arpa.".to_string(), rdata: RData::PTR("host.".to_string()) }],
        name_servers: authority(&["a."]),
    };
    assert_eq!(s.response(Ok(m.clone())), WalkAction::Finish(Ok(m)));
    assert_eq!(s.nameservers, vec![unknown("a.")]);
}

#[test]
fn add_answer_is_returned_by_next_action() {
    let mut s = RecurseState::new(start());
    let m = Message { answers: vec![], name_servers: vec![] };
    s.add_answer(m.clone());
    assert_eq!(s.answer, Some(m.clone()));
    assert_eq!(s.next_action(), WalkAction::Finish(Ok(m)));
    assert_eq!(s.nameservers, vec![NS::Known(start())]);
}

#[test]
fn exhausted_walk_is_not_found() {
    let mut s = RecurseState::new(start());
    assert_eq!(s.next_action(), WalkAction::Query(start()));
    let empty = Message { answers: vec![], name_servers: vec![] };
    assert_eq!(s.response(Ok(empty)), WalkAction::Finish(Err(ResolverError::NotFound)));
}

#[test]
fn failures_of_a_name_server_lookup() {
    let mut s = RecurseState::new(start());
    s.push_nameservers(&authority(&["a.", "b."]));
    assert_eq!(s.next_action(), WalkAction::ResolveNs("b.".to_string()));
    assert_eq!(s.ns_resolved(Err(ResolverError::ConnectionTimeout)), WalkAction::ResolveNs("a.".to_string()));
    assert_eq!(
        s.ns_resolved(Err(ResolverError::DnsClientError("io".to_string()))),
        WalkAction::Finish(Err(ResolverError::DnsClientError("io".to_string())))
    );
    let found = Message {
        answers: vec![Record { name: "a.".to_string(), rdata: RData::A("10.0.0.1".to_string()) }],
        name_servers: vec![],
    };
    assert_eq!(s.ns_resolved(Ok(found)), WalkAction::Query(ServerAddr::V4 { a: 10, b: 0, c: 0, d: 1, port: 53 }));
}

#[test]
fn failed_query_ends_the_walk() {
    let mut s = RecurseState::new(start());
    s.push_nameservers(&authority(&["a."]));
    assert_eq!(
        s.response(Err(ResolverError::ConnectionTimeout)),
        WalkAction::Finish(Err(ResolverError::ConnectionTimeout))
    );
}

#[test]
fn name_server_from_a_name() {
    assert_eq!(NS::try_from("ns1.example."), Ok(unknown("ns1.example.")));
    assert_eq!(NS::try_from("."), Err(()));
    assert_eq!(NS::try_from(""), Err(()));
    assert_eq!(NS::try_from(".."), Ok(unknown("..")));
    assert_eq!(NS::from(start()), NS::Known(start()));
}

#[test]
fn name_server_identity() {
    assert!(unknown("a.").same(&unknown("a.")));
    assert!(!unknown("a.").same(&unknown("b.")));
    assert!(!unknown("8.8.8.8:53").same(&NS::Known(start())));
    assert!(NS::Known(start()).same(&NS::Known(start())));
    assert_eq!(unknown("a.").duplicate(), unknown("a."));
    assert_eq!(NS::Known(start()).to_string(), "8.8.8.8:53");
    assert_eq!(unknown("ns.example.").to_string(), "ns.example.");
    let list = vec![unknown("a."), NS::Known(start())];
    assert!(contains_ns(&list, &NS::Known(start())));
    assert!(!contains_ns(&list, &unknown("b.")));
}
