use batch_resolve::dns::{LevellingClientFactory, WINDOW_NANOS};
use batch_resolve::dns_data::{opt_msg_to_vec_dnsdata, report_status};
use batch_resolve::resolve_config::Config;
use batch_resolve::{CountingDns, Dns, DnsData, DnsStore, Message, RData, Record, ResolveStatus, ServerAddr};

fn server(d: u8) -> ServerAddr {
    ServerAddr::V4 { a: 10, b: 0, c: 0, d, port: 53 }
}

#[test]
fn server_is_handed_out_up_to_its_rate() {
    let mut dns = CountingDns::from(&Dns::new(server(1), 2), 1_000);
    assert_eq!(dns, CountingDns { addr: server(1), max_qps: 2, qps: 0, instant: 1_000 });
    assert_eq!(dns.get_addr(1_001), Some(server(1)));
    assert_eq!(dns.get_addr(1_002), Some(server(1)));
    assert_eq!(dns.get_addr(1_003), None);
    assert_eq!(dns.qps, 2);
    assert_eq!(dns.get_addr(1_000 + WINDOW_NANOS - 1), None);
}

#[test]
fn a_new_window_starts_after_a_second() {
    let mut dns = CountingDns { addr: server(1), max_qps: 1, qps: 1, instant: 5 };
    assert_eq!(dns.get_addr(5 + WINDOW_NANOS), Some(server(1)));
    assert_eq!(dns, CountingDns { addr: server(1), max_qps: 1, qps: 1, instant: 5 + WINDOW_NANOS });
    let mut idle = CountingDns { addr: server(2), max_qps: 0, qps: 0, instant: 0 };
    assert_eq!(idle.get_addr(10), None);
    assert_eq!(idle.get_addr(WINDOW_NANOS), Some(server(2)));
    assert_eq!(idle.qps, 1);
}

#[test]
fn clock_running_backwards_opens_no_window() {
    let mut dns = CountingDns { addr: server(1), max_qps: 1, qps: 1, instant: 2 * WINDOW_NANOS };
    assert_eq!(dns.get_addr(0), None);
    assert_eq!(dns.instant, 2 * WINDOW_NANOS);
}

#[test]
fn store_hands_out_the_first_available_server() {
    let mut store = DnsStore::new(&vec![Dns::new(server(1), 1), Dns::new(server(2), 2)], 0);
    assert_eq!(store.get_dns(1), Some(server(1)));
    assert_eq!(store.get_dns(2), Some(server(2)));
    assert_eq!(store.get_dns(3), Some(server(2)));
    assert_eq!(store.get_dns(4), None);
    assert_eq!(store.servers[0].qps, 1);
    assert_eq!(store.servers[1].qps, 2);
    assert_eq!(store.get_dns(WINDOW_NANOS), Some(server(1)));
    assert_eq!(store.servers[0].instant, WINDOW_NANOS);
    assert_eq!(store.servers[1].instant, 0);
}

#[test]
fn store_rates() {
    let store = DnsStore::new(&vec![Dns::new(server(1), 100), Dns::new(server(2), 50), Dns::new(server(3), 1)], 7);
    assert_eq!(store.overall_qps(), 151);
    assert_eq!(store.average_qps(), 50);
    assert_eq!(store.get_hosts(), vec![Dns::new(server(1), 100), Dns::new(server(2), 50), Dns::new(server(3), 1)]);
    assert_eq!(Dns::from(&store.servers[1]), Dns { addr: server(2), qps: 50 });
    assert_eq!(DnsStore::new(&vec![], 0).overall_qps(), 0);
    assert_eq!(DnsStore::new(&vec![], 0).get_dns(0), None);
}

#[test]
fn settings_fall_back_to_defaults() {
    let c = Config::new();
    assert_eq!(
        c.get_dns_servers(),
        vec![ServerAddr::V4 { a: 8, b: 8, c: 8, d: 8, port: 53 }, ServerAddr::V4 { a: 8, b: 8, c: 4, d: 4, port: 53 }]
    );
    assert_eq!(c.get_timeout_retries(), 10);
    assert_eq!(c.get_task_buffer_size(), 100);
}

#[test]
fn settings_are_kept_as_set() {
    let c = Config::new().dns_servers(vec![server(9)]).timeout_retries(3).task_buffer_size(7);
    assert_eq!(c.get_dns_servers(), vec![server(9)]);
    assert_eq!(c.get_timeout_retries(), 3);
    assert_eq!(c.get_task_buffer_size(), 7);
    let c = Config::new().task_buffer_size(0).dns_servers(vec![]);
    assert_eq!(c.get_dns_servers(), vec![]);
    assert_eq!(c.get_timeout_retries(), 10);
    assert_eq!(c.get_task_buffer_size(), 0);
}

#[test]
fn servers_take_turns() {
    let mut f = LevellingClientFactory::new(vec![server(1), server(2), server(3)]);
    let picked: Vec<ServerAddr> = (0..7).map(|_| f.next_namesrv()).collect();
    assert_eq!(picked, vec![server(1), server(2), server(3), server(1), server(2), server(3), server(1)]);
    assert_eq!(f.last_chosen, 7);
}

#[test]
fn presence_of_data_decides_the_status() {
    assert_eq!(report_status(&Some(vec![1, 2])), ResolveStatus::Success);
    assert_eq!(report_status(&Some(Vec::<u8>::new())), ResolveStatus::Success);
    assert_eq!(report_status(&None::<Vec<u8>>), ResolveStatus::Failure);
    let m = Message {
        answers: vec![Record { name: "x.".to_string(), rdata: RData::PTR("host.".to_string()) }],
        name_servers: vec![],
    };
    assert_eq!(
        opt_msg_to_vec_dnsdata(&Some(m)),
        Some(vec![DnsData { name: Some("host.".to_string()), ipv4: None, ipv6: None }])
    );
    assert_eq!(opt_msg_to_vec_dnsdata(&None), None);
}
