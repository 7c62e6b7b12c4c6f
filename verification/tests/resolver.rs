use batch_resolve::text::strip_trailing_dot;
use batch_resolve::{
    conclude, partial_ok, plan_query, ptr_name, report_status, root_anchored, Message, QueryPlan,
    QueryType, RData, Record, ResolveStatus, ResolverError,
};

fn record(rdata: RData) -> Record {
    Record { name: "example.com.".to_string(), rdata }
}

fn mixed() -> Message {
    Message {
        answers: vec![
            record(RData::A("93.184.216.34".to_string())),
            record(RData::AAAA("2606:2800:220:1:248:1893:25c8:1946".to_string())),
            record(RData::Other),
            record(RData::A("93.184.216.35".to_string())),
            record(RData::NS("a.iana-servers.net.".to_string())),
            record(RData::PTR("one.one.one.one.".to_string())),
        ],
        name_servers: vec![record(RData::NS("ignored.example.".to_string()))],
    }
}

#[test]
fn ptr_label_construction() {
    assert_eq!(ptr_name("1.2.3.4"), "4.3.2.1.in-addr.arpa.");
}

#[test]
fn ptr_name_of_other_inputs() {
    assert_eq!(ptr_name("213.180.193.3"), "3.193.180.213.in-addr.arpa.");
    assert_eq!(ptr_name("10"), "10.in-addr.arpa.");
    assert_eq!(ptr_name(""), ".in-addr.arpa.");
}

#[test]
fn names_are_anchored_at_the_root() {
    assert_eq!(root_anchored("example.com"), "example.com.");
    assert_eq!(root_anchored("example.com."), "example.com.");
    assert_eq!(root_anchored(""), ".");
}

#[test]
fn plan_depends_on_the_query_type() {
    assert_eq!(plan_query("1.2.3.4", QueryType::PTR), QueryPlan::Reverse("4.3.2.1.in-addr.arpa.".to_string()));
    assert_eq!(plan_query("example.com", QueryType::A), QueryPlan::Simple("example.com.".to_string(), QueryType::A));
    assert_eq!(plan_query("example.com", QueryType::AAAA), QueryPlan::Simple("example.com.".to_string(), QueryType::AAAA));
    assert_eq!(plan_query("1.2.3.4", QueryType::NS), QueryPlan::Simple("1.2.3.4.".to_string(), QueryType::NS));
}

#[test]
fn trailing_dot_stripping() {
    assert_eq!(strip_trailing_dot("example.com."), "example.com");
    assert_eq!(strip_trailing_dot("example.com"), "example.com");
    assert_eq!(strip_trailing_dot("example.com.."), "example.com.");
    assert_eq!(strip_trailing_dot("."), "");
    assert_eq!(strip_trailing_dot(""), "");
}

#[test]
fn extraction_selects_by_variant() {
    let m = mixed();
    assert_eq!(m.extract_answer(QueryType::A), vec!["93.184.216.34", "93.184.216.35"]);
    assert_eq!(m.extract_answer(QueryType::AAAA), vec!["2606:2800:220:1:248:1893:25c8:1946"]);
    assert_eq!(m.extract_answer(QueryType::NS), vec!["a.iana-servers.net."]);
    assert_eq!(m.extract_answer(QueryType::PTR), vec!["one.one.one.one."]);
}

#[test]
fn aaaa_lookup_ignores_a_answers() {
    let m = Message { answers: vec![record(RData::A("1.2.3.4".to_string()))], name_servers: vec![] };
    assert_eq!(m.extract_answer(QueryType::AAAA), Vec::<String>::new());
}

#[test]
fn status_classification() {
    assert_eq!(report_status(&Ok(vec!["1.2.3.4".to_string()])), ResolveStatus::Success);
    assert_eq!(report_status(&Ok(vec![])), ResolveStatus::Failure);
    assert_eq!(report_status(&Err(ResolverError::ConnectionTimeout)), ResolveStatus::Failure);
    assert_eq!(report_status(&Err(ResolverError::NameServerNotResolved)), ResolveStatus::Failure);
    assert_eq!(report_status(&Err(ResolverError::NotFound)), ResolveStatus::Failure);
    assert_eq!(report_status(&Err(ResolverError::DnsClientError("x".to_string()))), ResolveStatus::Error);
}

#[test]
fn soft_failures_become_empty_success() {
    assert_eq!(partial_ok(Err(ResolverError::ConnectionTimeout)), Ok(vec![]));
    assert_eq!(partial_ok(Err(ResolverError::NameServerNotResolved)), Ok(vec![]));
    assert_eq!(partial_ok(Err(ResolverError::NotFound)), Ok(vec![]));
    assert_eq!(partial_ok(Ok(vec!["a".to_string()])), Ok(vec!["a".to_string()]));
    assert_eq!(
        partial_ok(Err(ResolverError::DnsClientError("x".to_string()))),
        Err(ResolverError::DnsClientError("x".to_string()))
    );
}

#[test]
fn conclusion_of_a_lookup() {
    let r = conclude(Ok(mixed()), QueryType::A);
    assert_eq!(r.status, ResolveStatus::Success);
    assert_eq!(r.answers, Ok(vec!["93.184.216.34".to_string(), "93.184.216.35".to_string()]));

    let empty = Message { answers: vec![], name_servers: vec![] };
    let r = conclude(Ok(empty), QueryType::A);
    assert_eq!(r.status, ResolveStatus::Failure);
    assert_eq!(r.answers, Ok(vec![]));

    let r = conclude(Err(ResolverError::NotFound), QueryType::PTR);
    assert_eq!(r.status, ResolveStatus::Failure);
    assert_eq!(r.answers, Ok(vec![]));

    let r = conclude(Err(ResolverError::DnsClientError("io".to_string())), QueryType::A);
    assert_eq!(r.status, ResolveStatus::Error);
    assert_eq!(r.answers, Err(ResolverError::DnsClientError("io".to_string())));
}

#[test]
fn wire_types() {
    assert_eq!(QueryType::A.wire_type(), 1);
    assert_eq!(QueryType::NS.wire_type(), 2);
    assert_eq!(QueryType::PTR.wire_type(), 12);
    assert_eq!(QueryType::AAAA.wire_type(), 28);
    for q in [QueryType::A, QueryType::AAAA, QueryType::PTR, QueryType::NS] {
        assert_eq!(QueryType::from_wire_type(q.wire_type()), Some(q));
    }
    assert_eq!(QueryType::from_wire_type(5), None);
}
