use host_scanner::report::{
    host_progress_status, icmp_host_result, port_probe_detail, tcp_host_result, tcp_probe_report,
    ConnectOutcome, PortScanDetail, ScanHostResult,
};

fn port(port: u16, status: &str) -> PortScanDetail {
    PortScanDetail {
        port,
        status: status.to_string(),
        banner: None,
    }
}

#[test]
fn refused_tcp_ports_are_preserved_for_report_verification() {
    let refused_ports = [22, 80, 443, 3389, 8080]
        .into_iter()
        .map(|value| port(value, "refused"))
        .collect();

    let result = tcp_host_result("192.0.2.10", refused_ports).unwrap();

    assert_eq!(result.ports.len(), 5);
    assert!(result.ports.iter().all(|port| port.status == "refused"));
    assert_eq!(
        result.detail,
        "Connection refused on 5 TCP ports (RST received; host is online)"
    );
}

#[test]
fn mixed_tcp_results_keep_open_and_refused_port_statuses() {
    let result =
        tcp_host_result("192.0.2.11", vec![port(22, "open"), port(80, "refused")]).unwrap();

    assert_eq!(result.ports, vec![port(22, "open"), port(80, "refused")]);
    assert_eq!(
        result.detail,
        "Found 1 open TCP port; 1 TCP port refused the connection"
    );
}

#[test]
fn tcp_result_requires_an_open_or_refused_response() {
    assert!(tcp_host_result("192.0.2.12", Vec::new()).is_none());
}

#[test]
fn single_open_port_reads_singular() {
    let result = tcp_host_result("192.0.2.20", vec![port(22, "open")]).unwrap();
    assert_eq!(result.host, "192.0.2.20");
    assert_eq!(result.status, "alive");
    assert_eq!(result.detail, "Found 1 open TCP port");
}

#[test]
fn many_open_ports_read_plural() {
    let ports = (1..=12).map(|p| port(p, "open")).collect();
    let result = tcp_host_result("192.0.2.21", ports).unwrap();
    assert_eq!(result.detail, "Found 12 open TCP ports");
}

#[test]
fn single_refused_port_reads_singular() {
    let result = tcp_host_result("192.0.2.22", vec![port(443, "refused")]).unwrap();
    assert_eq!(
        result.detail,
        "Connection refused on 1 TCP port (RST received; host is online)"
    );
}

#[test]
fn ports_with_other_statuses_do_not_count() {
    assert!(tcp_host_result("192.0.2.23", vec![port(22, "filtered")]).is_none());
    let result =
        tcp_host_result("192.0.2.23", vec![port(22, "filtered"), port(23, "open")]).unwrap();
    assert_eq!(result.ports.len(), 2);
    assert_eq!(result.detail, "Found 1 open TCP port");
}

#[test]
fn probe_outcomes_become_port_details() {
    let open = port_probe_detail(22, ConnectOutcome::Connected(Some("SSH-2.0".to_string())))
        .unwrap();
    assert_eq!(open.port, 22);
    assert_eq!(open.status, "open");
    assert_eq!(open.banner.as_deref(), Some("SSH-2.0"));
    let refused = port_probe_detail(80, ConnectOutcome::Refused).unwrap();
    assert_eq!(refused, port(80, "refused"));
    assert!(port_probe_detail(81, ConnectOutcome::NoAnswer).is_none());
}

#[test]
fn probe_report_keeps_answered_ports_in_order() {
    let result = tcp_probe_report(
        "192.0.2.30",
        vec![
            (22, ConnectOutcome::Connected(None)),
            (23, ConnectOutcome::NoAnswer),
            (80, ConnectOutcome::Refused),
            (443, ConnectOutcome::Connected(None)),
        ],
    )
    .unwrap();
    assert_eq!(
        result.ports,
        vec![port(22, "open"), port(80, "refused"), port(443, "open")]
    );
    assert_eq!(
        result.detail,
        "Found 2 open TCP ports; 1 TCP port refused the connection"
    );
    assert!(tcp_probe_report("192.0.2.31", vec![(22, ConnectOutcome::NoAnswer)]).is_none());
}

#[test]
fn ping_results_keep_only_alive_hosts() {
    let alive = icmp_host_result("192.0.2.40", "alive".to_string(), "rtt 1 ms".to_string()).unwrap();
    assert_eq!(alive.host, "192.0.2.40");
    assert!(alive.ports.is_empty());
    assert_eq!(alive.detail, "rtt 1 ms");
    assert!(icmp_host_result("192.0.2.41", "timeout".to_string(), "x".to_string()).is_none());
}

#[test]
fn host_progress_status_classifies_hosts() {
    let (status, open) = host_progress_status(&None);
    assert_eq!(status, "offline");
    assert!(open.is_empty());

    let with_port = Some(ScanHostResult {
        host: "192.0.2.50".to_string(),
        status: "alive".to_string(),
        ports: vec![port(22, "open"), port(80, "refused"), port(8080, "open")],
        detail: String::new(),
    });
    let (status, open) = host_progress_status(&with_port);
    assert_eq!(status, "alive-with-port");
    assert_eq!(open, vec![22, 8080]);

    let no_port = Some(ScanHostResult {
        host: "192.0.2.51".to_string(),
        status: "alive".to_string(),
        ports: vec![port(80, "refused")],
        detail: String::new(),
    });
    let (status, open) = host_progress_status(&no_port);
    assert_eq!(status, "alive-no-port");
    assert!(open.is_empty());
}
