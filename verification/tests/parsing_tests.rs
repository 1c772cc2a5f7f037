use host_scanner::json::details_to_json;
use host_scanner::netinfo::{cap_net_raw, default_route, dns_servers};
use host_scanner::ports::parse_port_list;
use host_scanner::probe::{http_banner, is_http_port, ping_outcome, tcp_banner};
use host_scanner::report::PortScanDetail;
use host_scanner::text::{lines, split_whitespace};

#[test]
fn port_list_keeps_valid_ports_in_order() {
    assert_eq!(parse_port_list("22,80,443,8080"), vec![22, 80, 443, 8080]);
    assert_eq!(parse_port_list(" 22 , 80,,x,443 "), vec![22, 80, 443]);
}

#[test]
fn port_list_follows_u16_parsing() {
    assert_eq!(parse_port_list("+22,-1,65535,65536,0080,+"), vec![22, 65535, 80]);
    assert_eq!(parse_port_list(""), Vec::<u16>::new());
    assert_eq!(parse_port_list(",,,"), Vec::<u16>::new());
    assert_eq!(parse_port_list("\t8\u{3000}"), vec![8]);
    assert_eq!(parse_port_list("99999999999999999999"), Vec::<u16>::new());
}

#[test]
fn port_list_agrees_with_std_parsing() {
    let inputs = ["1, 2 ,3", "abc,12a,7", " +5 ,++5, 5 ", "65534,65535,65536", "0,00,000"];
    for input in inputs {
        let expected: Vec<u16> = input
            .split(',')
            .map(|s| s.trim())
            .filter(|s| !s.is_empty())
            .filter_map(|s| s.parse::<u16>().ok())
            .collect();
        assert_eq!(parse_port_list(input), expected, "input {:?}", input);
    }
}

fn detail(port: u16, status: &str, banner: Option<&str>) -> PortScanDetail {
    PortScanDetail {
        port,
        status: status.to_string(),
        banner: banner.map(|b| b.to_string()),
    }
}

#[test]
fn port_details_are_stored_as_compact_json() {
    assert_eq!(details_to_json(&Vec::new()), "[]");
    assert_eq!(
        details_to_json(&vec![detail(22, "open", Some("SSH-2.0-OpenSSH"))]),
        r#"[{"port":22,"status":"open","banner":"SSH-2.0-OpenSSH"}]"#
    );
    assert_eq!(
        details_to_json(&vec![detail(22, "open", None), detail(80, "refused", None)]),
        r#"[{"port":22,"status":"open","banner":null},{"port":80,"status":"refused","banner":null}]"#
    );
}

#[test]
fn json_strings_are_escaped() {
    let json = details_to_json(&vec![detail(1, "open", Some("a\"b\\c\nd\te\u{1}f\u{7f}é"))]);
    assert_eq!(
        json,
        "[{\"port\":1,\"status\":\"open\",\"banner\":\"a\\\"b\\\\c\\nd\\te\\u0001f\u{7f}é\"}]"
    );
    let parsed: serde_json::Value = serde_json::from_str(&json).unwrap();
    assert_eq!(parsed[0]["banner"], "a\"b\\c\nd\te\u{1}f\u{7f}é");
    assert_eq!(parsed[0]["port"], 1);
}

#[test]
fn lines_and_words_follow_std() {
    let samples = ["", "a", "a\n", "a\r\nb\r\n", "a\r", "\n\nx", " one  two\tthree ", "x\r\r\n"];
    for s in samples {
        let ours = lines(s);
        let std_lines: Vec<String> = s.lines().map(|l| l.to_string()).collect();
        assert_eq!(ours, std_lines, "lines of {:?}", s);
        let words = split_whitespace(s);
        let std_words: Vec<String> = s.split_whitespace().map(|w| w.to_string()).collect();
        assert_eq!(words, std_words, "words of {:?}", s);
    }
}

#[test]
fn default_route_is_read_from_the_routing_table() {
    let table = "Iface\tDestination\tGateway\tFlags\n\
                 eth0\t0000FEA9\t00000000\t0001\n\
                 eth0\t00000000\t0100A8C0\t0003\n";
    assert_eq!(default_route(table).as_deref(), Some("eth0 via 192.168.0.1"));
    assert_eq!(default_route("Iface Destination Gateway\n"), None);
    assert_eq!(default_route(""), None);
    let bad_gateway = "h\neth0 00000000 zz\neth1 00000000 0101A8C0\n";
    assert_eq!(default_route(bad_gateway).as_deref(), Some("eth1 via 192.168.1.1"));
}

#[test]
fn name_servers_are_read_from_resolver_configuration() {
    let conf = "# comment\nnameserver 10.0.0.2\nnameserver  1.1.1.1  \nnameserver a b\nsearch x\n";
    assert_eq!(dns_servers(conf), vec!["10.0.0.2".to_string(), "1.1.1.1".to_string()]);
    assert!(dns_servers("").is_empty());
}

#[test]
fn raw_socket_capability_is_bit_13_of_the_effective_set() {
    assert!(cap_net_raw("Name:\tx\nCapEff:\t00000000a80425fb\n"));
    assert!(!cap_net_raw("CapEff:\t0000000000000000\n"));
    assert!(!cap_net_raw("Name: x\n"));
    assert!(cap_net_raw("CapEff: zz\nCapEff: 2000\n"));
}

#[test]
fn ping_output_is_interpreted() {
    let (status, detail) = ping_outcome(true, b"PING x\n64 bytes\n\nrtt min/avg 0.1/0.2 ms\n\n", b"");
    assert_eq!(status, "alive");
    assert_eq!(detail, "rtt min/avg 0.1/0.2 ms");
    let (status, detail) = ping_outcome(true, b"  \n", b"");
    assert_eq!(status, "alive");
    assert_eq!(detail, "Ping succeeded; host is online");
    let (status, detail) = ping_outcome(false, b"", b"ping: socket: Operation not permitted\n");
    assert_eq!(status, "error");
    assert_eq!(detail, "Ping failed: CAP_NET_RAW capability is required");
    let (status, detail) = ping_outcome(false, b"", b"");
    assert_eq!(status, "timeout");
    assert_eq!(detail, "ICMP request timed out without a response");
}

#[test]
fn service_banners_are_cleaned() {
    assert_eq!(tcp_banner(b"  SSH-2.0-OpenSSH_9.6\r\n").as_deref(), Some("SSH-2.0-OpenSSH_9.6"));
    assert_eq!(tcp_banner(b"\x00\x01 \xff").as_deref(), Some(" "));
    assert_eq!(tcp_banner(b" \x00 ").as_deref(), None);
    assert_eq!(tcp_banner(b"").as_deref(), None);
    assert_eq!(tcp_banner(b"a\x00b c").as_deref(), Some("ab c"));
}

#[test]
fn http_banners_combine_title_and_server() {
    let s = Some("nginx".to_string());
    let t = Some("Home".to_string());
    assert_eq!(http_banner(s.clone(), t.clone()).as_deref(), Some("HTTP Title: \"Home\" | Server: nginx"));
    assert_eq!(http_banner(None, t).as_deref(), Some("HTTP Title: \"Home\""));
    assert_eq!(http_banner(s, None).as_deref(), Some("HTTP Server: nginx"));
    assert_eq!(http_banner(None, None), None);
    assert!(is_http_port(80) && is_http_port(8080) && is_http_port(3000) && is_http_port(8000));
    assert!(!is_http_port(443));
}
