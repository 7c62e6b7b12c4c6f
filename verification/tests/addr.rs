use batch_resolve::{parse_addr, parse_server, ServerAddr};

fn addr(a: u8, b: u8, c: u8, d: u8, port: u16) -> ServerAddr {
    ServerAddr::V4 { a, b, c, d, port }
}

#[test]
fn bare_address_gets_port_53() {
    assert_eq!(parse_server("9.9.9.9"), Some(addr(9, 9, 9, 9, 53)));
}

#[test]
fn explicit_port_is_kept() {
    assert_eq!(parse_server("1.2.3.4:5353"), Some(addr(1, 2, 3, 4, 5353)));
    assert_eq!(parse_addr("1.2.3.4:5353"), Some(addr(1, 2, 3, 4, 5353)));
}

#[test]
fn parse_addr_needs_a_port() {
    assert_eq!(parse_addr("1.2.3.4"), None);
    assert_eq!(parse_addr("1.2.3.4:"), None);
}

#[test]
fn extreme_values_parse() {
    assert_eq!(parse_addr("255.255.255.255:65535"), Some(addr(255, 255, 255, 255, 65535)));
    assert_eq!(parse_addr("0.0.0.0:0"), Some(addr(0, 0, 0, 0, 0)));
}

#[test]
fn out_of_range_numbers_are_refused() {
    assert_eq!(parse_addr("256.1.1.1:53"), None);
    assert_eq!(parse_addr("1.1.1.1:65536"), None);
    assert_eq!(parse_addr("1.1.1.1:4294967349"), None);
}

#[test]
fn leading_zero_is_refused_in_an_octet_only() {
    assert_eq!(parse_addr("01.1.1.1:53"), None);
    assert_eq!(parse_addr("1.1.1.1:0053"), Some(addr(1, 1, 1, 1, 53)));
}

#[test]
fn malformed_texts_are_refused() {
    for text in [
        "", ":", "1.2.3:53", "1.2.3.4.5:53", "1..3.4:53", "a.b.c.d:53", "1.2.3.4:53:53",
        "1.2.3.4:5x", " 1.2.3.4:53", "1.2.3.4:53 ", "1234.1.1.1:1", "example.com", "[1.2.3.4]:53",
    ] {
        assert_eq!(parse_addr(text), None, "{}", text);
    }
    assert_eq!(parse_server("example.com"), None);
    assert_eq!(parse_server(""), None);
}

#[test]
fn address_is_written_as_it_is_read() {
    assert_eq!(addr(8, 8, 4, 4, 53).to_string(), "8.8.4.4:53");
    assert_eq!(addr(0, 10, 100, 255, 65535).to_string(), "0.10.100.255:65535");
    assert_eq!(addr(1, 2, 3, 4, 0).to_string(), "1.2.3.4:0");
    assert_eq!(addr(192, 168, 0, 1, 10000).to_string(), "192.168.0.1:10000");
    let a = addr(127, 0, 0, 1, 1053);
    assert_eq!(parse_addr(&a.to_string()), Some(a));
}

fn v6(g: [u16; 8], port: u16) -> ServerAddr {
    ServerAddr::V6 { g0: g[0], g1: g[1], g2: g[2], g3: g[3], g4: g[4], g5: g[5], g6: g[6], g7: g[7], port }
}

#[test]
fn ipv6_servers_are_read() {
    assert_eq!(parse_addr("[::1]:53"), Some(v6([0, 0, 0, 0, 0, 0, 0, 1], 53)));
    assert_eq!(parse_server("[::1]:53"), Some(v6([0, 0, 0, 0, 0, 0, 0, 1], 53)));
    assert_eq!(parse_addr("[::]:0"), Some(v6([0; 8], 0)));
    assert_eq!(
        parse_addr("[2001:4860:4860::8888]:5353"),
        Some(v6([0x2001, 0x4860, 0x4860, 0, 0, 0, 0, 0x8888], 5353))
    );
    assert_eq!(
        parse_addr("[1:2:3:4:5:6:7:8]:65535"),
        Some(v6([1, 2, 3, 4, 5, 6, 7, 8], 65535))
    );
    assert_eq!(parse_addr("[FE80::abCD:0]:53"), Some(v6([0xfe80, 0, 0, 0, 0, 0, 0xabcd, 0], 53)));
    assert_eq!(parse_addr("[1::]:53"), Some(v6([1, 0, 0, 0, 0, 0, 0, 0], 53)));
    assert_eq!(parse_addr("[1:2:3:4:5:6:7::]:53"), Some(v6([1, 2, 3, 4, 5, 6, 7, 0], 53)));
    assert_eq!(parse_addr("[::2:3:4:5:6:7:8]:53"), Some(v6([0, 2, 3, 4, 5, 6, 7, 8], 53)));
    assert_eq!(parse_addr("[::ffff:1.2.3.4]:53"), Some(v6([0, 0, 0, 0, 0, 0xffff, 0x0102, 0x0304], 53)));
    assert_eq!(parse_addr("[1:2:3:4:5:6:1.2.3.4]:53"), Some(v6([1, 2, 3, 4, 5, 6, 0x0102, 0x0304], 53)));
    assert_eq!(parse_addr("[0001:0:00:000::]:053"), Some(v6([1, 0, 0, 0, 0, 0, 0, 0], 53)));
}

#[test]
fn malformed_ipv6_servers_are_refused() {
    for text in [
        "::1", "[::1]", "[::1]:", "[::1]53", "::1:53", "[]:53", "[:]:53", "[:::]:53", "[1:::2]:53",
        "[1::2::3]:53", "[1:2:3:4:5:6:7]:53", "[1:2:3:4:5:6:7:8:9]:53", "[1:2:3:4:5:6:7:8::]:53",
        "[::1:2:3:4:5:6:7:8]:53", "[12345::]:53", "[g::]:53", "[:1]:53", "[1:]:53", "[1.2.3.4::]:53",
        "[1:2:1.2.3.4:5:6:7]:53", "[1:2:3:4:5:6::1.2.3.4]:53", "[::1.2.3]:53", "[::01.2.3.4]:53",
        "[::1%1]:53", "[::1]:65536", "[[::1]]:53", "[::1]:53]", " [::1]:53", "[::1 ]:53",
    ] {
        assert_eq!(parse_addr(text), None, "{}", text);
        assert_eq!(parse_server(text), None, "{}", text);
    }
}

#[test]
fn ipv6_address_is_written_with_all_groups() {
    let a = v6([0x2001, 0xdb8, 0, 0, 0, 0, 0xff00, 0x42], 53);
    assert_eq!(a.to_string(), "[2001:db8:0:0:0:0:ff00:42]:53");
    assert_eq!(parse_addr(&a.to_string()), Some(a));
    let b = v6([0xffff; 8], 65535);
    assert_eq!(b.to_string(), "[ffff:ffff:ffff:ffff:ffff:ffff:ffff:ffff]:65535");
    assert_eq!(parse_addr(&b.to_string()), Some(b));
    assert_eq!(v6([0; 8], 0).to_string(), "[0:0:0:0:0:0:0:0]:0");
    assert_eq!(a.port(), 53);
    assert_eq!(addr(1, 2, 3, 4, 99).port(), 99);
}

#[test]
fn ipv6_grammar_case_by_case() {
    let valid: [(&str, [u16; 8]); 17] = [
        ("::", [0, 0, 0, 0, 0, 0, 0, 0]),
        ("::1", [0, 0, 0, 0, 0, 0, 0, 1]),
        ("1::", [1, 0, 0, 0, 0, 0, 0, 0]),
        ("1::2", [1, 0, 0, 0, 0, 0, 0, 2]),
        ("1:2:3:4:5:6:7:8", [1, 2, 3, 4, 5, 6, 7, 8]),
        ("1:2:3:4:5:6:7::", [1, 2, 3, 4, 5, 6, 7, 0]),
        ("::2:3:4:5:6:7:8", [0, 2, 3, 4, 5, 6, 7, 8]),
        ("1:2:3:4::5:6:7", [1, 2, 3, 4, 0, 5, 6, 7]),
        ("::ffff:1.2.3.4", [0, 0, 0, 0, 0, 0xffff, 0x0102, 0x0304]),
        ("1:2:3:4:5:6:1.2.3.4", [1, 2, 3, 4, 5, 6, 0x0102, 0x0304]),
        ("1:2:3:4:5::1.2.3.4", [1, 2, 3, 4, 5, 0, 0x0102, 0x0304]),
        ("::1.2.3.4", [0, 0, 0, 0, 0, 0, 0x0102, 0x0304]),
        ("1::1.2.3.4", [1, 0, 0, 0, 0, 0, 0x0102, 0x0304]),
        ("::255.255.255.255", [0, 0, 0, 0, 0, 0, 0xffff, 0xffff]),
        ("::0.0.0.0", [0, 0, 0, 0, 0, 0, 0, 0]),
        ("0000::0000", [0, 0, 0, 0, 0, 0, 0, 0]),
        ("abcd:ef01:2345:6789:ABCD:EF01:2345:6789", [0xabcd, 0xef01, 0x2345, 0x6789, 0xabcd, 0xef01, 0x2345, 0x6789]),
    ];
    for (host, groups) in valid {
        assert_eq!(parse_addr(&format!("[{}]:53", host)), Some(v6(groups, 53)), "{}", host);
        assert_eq!(parse_addr(&format!("[{}]:053", host)), Some(v6(groups, 53)), "{}", host);
        assert_eq!(parse_addr(&format!("[{}]:65535", host)), Some(v6(groups, 65535)), "{}", host);
        for port in ["65536", "", "x", "5 3"] {
            assert_eq!(parse_addr(&format!("[{}]:{}", host, port)), None, "{} {}", host, port);
        }
    }
    let invalid = [
        "1:2:3:4:5:6:7", "1:2:3:4:5:6:7:8:9", ":::", "1:::2", "1::2::3", ":1", "1:", "", ":", "1:2:3:4:5:6::1.2.3.4",
        "1.2.3.4::", "::1.2.3.4:5", "1:2:3:4:5:1.2.3.4", "1:2:3:4:5:6:7:1.2.3.4", "::1.2.3", "::256.1.1.1",
        "12345::", "::g", "00000::", "1:2:3:4::5:6:7:8", "1.2.3.4", "::01.2.3.4", "::1.2.3.4.5",
    ];
    for host in invalid {
        assert_eq!(parse_addr(&format!("[{}]:53", host)), None, "{}", host);
    }
}
