use host_scanner::assets::{asset_path, content_type, content_type_for, falls_back_to_index};
use host_scanner::audit::{
    request_audit, request_failure_code, terminal_audit, AuditImpact, AuditOutcome, AuditedRequest,
};
use host_scanner::driver::ScanDriver;
use host_scanner::plan::{
    ipv4_to_string, is_icmp_scan, plan_scan_request, prepare_scan, request_error_message,
    ScanRequestError, ScanStart,
};
use host_scanner::report::{PortScanDetail, ScanHostResult};
use host_scanner::task::{
    host_record, is_terminal_task_status, progress_feed, should_flush_task_progress, ProgressFeed,
};

#[test]
fn terminal_statuses_are_completed_failed_and_canceled() {
    assert!(is_terminal_task_status("completed"));
    assert!(is_terminal_task_status("failed"));
    assert!(is_terminal_task_status("canceled"));
    assert!(!is_terminal_task_status("scanning"));
    assert!(!is_terminal_task_status("pending"));
    assert!(!is_terminal_task_status("Completed"));
}

#[test]
fn progress_is_flushed_every_eight_hosts_and_at_the_end() {
    assert!(!should_flush_task_progress(7, 100, 0));
    assert!(should_flush_task_progress(8, 100, 0));
    assert!(!should_flush_task_progress(15, 100, 8));
    assert!(should_flush_task_progress(16, 100, 8));
    assert!(should_flush_task_progress(3, 3, 2));
}

#[test]
fn scan_requests_are_checked() {
    let plan = plan_scan_request(" 192.0.2.0/24 ", "TCP", None, None).unwrap();
    assert_eq!(plan.cidr, "192.0.2.0/24");
    assert_eq!(plan.total_hosts, 254);
    assert_eq!(plan.scan_type, "tcp");
    assert_eq!(plan.ports, "22,80,443,8080");
    assert_eq!(plan.max_concurrency, 64);

    let plan = plan_scan_request("10.0.0.1/32", "icmp", Some("22".to_string()), Some(0)).unwrap();
    assert_eq!(plan.total_hosts, 1);
    assert_eq!(plan.ports, "22");
    assert_eq!(plan.max_concurrency, 1);
    let plan = plan_scan_request("10.0.0.0/31", "Icmp", None, Some(1000)).unwrap();
    assert_eq!(plan.total_hosts, 2);
    assert_eq!(plan.max_concurrency, 256);
}

#[test]
fn scan_requests_are_refused_with_their_reason() {
    let e = plan_scan_request("not a cidr", "tcp", None, None).err().unwrap();
    assert_eq!(e, ScanRequestError::InvalidCidr);
    assert_eq!(request_error_message(&e), "Invalid CIDR: invalid IP address syntax");
    let e = plan_scan_request("10.0.0.0/16", "tcp", None, None).err().unwrap();
    assert_eq!(e, ScanRequestError::TooManyHosts(65534));
    assert_eq!(request_error_message(&e), "Host count (65534) exceeds the per-scan limit of 256");
    let e = plan_scan_request("10.0.0.0/24", "udp", None, None).err().unwrap();
    assert_eq!(e, ScanRequestError::UnsupportedScanType);
    assert_eq!(request_error_message(&e), "Unsupported scan type");
    assert_eq!(
        request_error_message(&ScanRequestError::NoUsableHosts),
        "The CIDR does not contain any usable host addresses"
    );
    assert_eq!(plan_scan_request("10.0.0.0/33", "tcp", None, None).err(), Some(ScanRequestError::InvalidCidr));
}

#[test]
fn stored_scans_prepare_hosts_and_ports() {
    match prepare_scan("10.0.0.0/30", "22, 80") {
        ScanStart::Ready { hosts, ports } => {
            let names: Vec<String> = hosts.iter().map(|h| ipv4_to_string(*h)).collect();
            assert_eq!(names, vec!["10.0.0.1".to_string(), "10.0.0.2".to_string()]);
            assert_eq!(ports, vec![22, 80]);
        }
        _ => panic!("expected a ready scan"),
    }
    match prepare_scan("10.0.0.7/31", "") {
        ScanStart::Ready { hosts, ports } => {
            assert_eq!(hosts, vec![0x0a000006, 0x0a000007]);
            assert!(ports.is_empty());
        }
        _ => panic!("expected a ready scan"),
    }
    assert!(matches!(prepare_scan("x", "22"), ScanStart::InvalidCidr));
    match prepare_scan("10.0.0.0/20", "22") {
        ScanStart::Ready { hosts, ports } => {
            assert_eq!(hosts.len(), 4094);
            assert_eq!(hosts[0], 0x0a000001);
            assert_eq!(hosts[4093], 0x0a000ffe);
            assert_eq!(ports, vec![22]);
        }
        _ => panic!("expected a ready scan"),
    }
    assert!(is_icmp_scan("icmp"));
    assert!(!is_icmp_scan("tcp"));
}

#[test]
fn addresses_print_as_dotted_quads() {
    assert_eq!(ipv4_to_string(0), "0.0.0.0");
    assert_eq!(ipv4_to_string(0xc0000201), "192.0.2.1");
    assert_eq!(ipv4_to_string(u32::MAX), "255.255.255.255");
}

fn host(name: &str, open: bool) -> ScanHostResult {
    ScanHostResult {
        host: name.to_string(),
        status: "alive".to_string(),
        ports: vec![PortScanDetail {
            port: 22,
            status: if open { "open" } else { "refused" }.to_string(),
            banner: None,
        }],
        detail: "d".to_string(),
    }
}

#[test]
fn driver_hands_out_hosts_in_order_within_the_concurrency() {
    let mut d = ScanDriver::new(3, 2);
    assert_eq!(d.next_host(false), Some(0));
    assert_eq!(d.next_host(false), Some(1));
    assert_eq!(d.next_host(false), None);
    let (flush_results, flush_progress) = d.host_scanned("t", &Some(host("a", true)));
    assert!(!flush_results);
    assert!(!flush_progress);
    assert_eq!(d.next_host(true), None);
    assert_eq!(d.next_host(false), Some(2));
    assert_eq!(d.next_host(false), None);
    d.probe_lost();
    let (_, flush_progress) = d.host_scanned("t", &None);
    assert!(!flush_progress);
    assert!(d.is_idle());
    assert_eq!(d.scanned(), 2);
    assert_eq!(d.pending_results().len(), 1);
    assert_eq!(d.pending_results()[0].host, "a");
    assert_eq!(d.pending_results()[0].task_id, "t");
    d.results_stored();
    assert!(d.pending_results().is_empty());
    let end = d.finish(false);
    assert_eq!(end.status, "completed");
    assert_eq!(end.scanned_hosts, 3);
    assert!(end.complete);
    let end = d.finish(true);
    assert_eq!(end.status, "canceled");
    assert_eq!(end.scanned_hosts, 2);
}

#[test]
fn driver_asks_for_writes_at_the_batch_and_interval() {
    let mut d = ScanDriver::new(40, 40);
    let mut progress_writes = Vec::new();
    let mut result_writes = Vec::new();
    for i in 0..40 {
        assert_eq!(d.next_host(false), Some(i));
    }
    for i in 0..40 {
        let (flush_results, flush_progress) = d.host_scanned("t", &Some(host("h", i % 2 == 0)));
        if flush_results {
            result_writes.push(i + 1);
            d.results_stored();
        }
        if flush_progress {
            progress_writes.push(i + 1);
            d.progress_stored();
        }
    }
    assert_eq!(result_writes, vec![32]);
    assert_eq!(progress_writes, vec![8, 16, 24, 32, 40]);
    assert_eq!(d.pending_results().len(), 8);
}

#[test]
fn stored_records_hold_port_json() {
    let record = host_record("task-9", &host("192.0.2.9", true));
    assert_eq!(record.id, 0);
    assert_eq!(record.task_id, "task-9");
    assert_eq!(record.host, "192.0.2.9");
    assert_eq!(record.status, "alive");
    assert_eq!(record.ports, r#"[{"port":22,"status":"open","banner":null}]"#);
    assert_eq!(record.detail, "d");
}

#[test]
fn asset_paths_are_normalised() {
    assert_eq!(asset_path("/"), "index.html");
    assert_eq!(asset_path(""), "index.html");
    assert_eq!(asset_path("//assets/app.js"), "assets/app.js");
    assert_eq!(asset_path("/main/"), "index.html");
    assert_eq!(asset_path("/main/assets/x.css"), "assets/x.css");
    assert_eq!(asset_path("/docs/"), "docs/index.html");
    assert!(falls_back_to_index("tasks/1"));
    assert!(!falls_back_to_index("index.html"));
}

#[test]
fn content_types_fall_back_by_extension() {
    assert_eq!(content_type("style.css"), "text/css");
    assert_eq!(content_type("index.html"), "text/html");
    assert_eq!(content_type("blob.unknownext"), "application/octet-stream");
    assert_eq!(content_type_for("a.css", "application/octet-stream".to_string()), "text/css");
    assert_eq!(content_type_for("a.js", "application/octet-stream".to_string()), "application/javascript");
    assert_eq!(content_type_for("a.svg", "application/octet-stream".to_string()), "image/svg+xml");
    assert_eq!(
        content_type_for("a.html", "application/octet-stream".to_string()),
        "text/html; charset=utf-8"
    );
    assert_eq!(content_type_for("a.bin", "application/octet-stream".to_string()), "application/octet-stream");
    assert_eq!(content_type_for("a.css", "text/plain".to_string()), "text/plain");
}

#[test]
fn terminal_audits_follow_the_status() {
    let a = terminal_audit("completed");
    assert_eq!(a.code, "scan_succeeded");
    assert_eq!(a.en_us, "Scan completed");
    assert_eq!(a.zh_cn, "扫描完成");
    assert_eq!(a.outcome, AuditOutcome::Success);
    assert_eq!(a.impact, AuditImpact::Info);
    let a = terminal_audit("canceled");
    assert_eq!(a.code, "scan_canceled");
    assert_eq!(a.outcome, AuditOutcome::Canceled);
    let a = terminal_audit("failed");
    assert_eq!(a.code, "scan_failed");
    assert_eq!(a.zh_cn, "扫描失败");
    assert_eq!(a.outcome, AuditOutcome::Failure);
    assert_eq!(a.impact, AuditImpact::Error);
}

#[test]
fn progress_feeds_depend_on_history_and_state() {
    assert_eq!(progress_feed(false, true), ProgressFeed::HistoryThenLive);
    assert_eq!(progress_feed(true, true), ProgressFeed::HistoryOnly);
    assert_eq!(progress_feed(true, false), ProgressFeed::StoredSnapshot);
    assert_eq!(progress_feed(false, false), ProgressFeed::StoredSnapshot);
}

#[test]
fn request_audits_follow_the_request_and_its_result() {
    let a = request_audit(AuditedRequest::Submit, true);
    assert_eq!(a.code, "scan_submitted");
    assert_eq!(a.zh_cn, "提交扫描");
    assert_eq!(a.en_us, "Submit scan");
    assert_eq!(a.outcome, AuditOutcome::Success);
    assert_eq!(a.impact, AuditImpact::Info);
    let a = request_audit(AuditedRequest::Cancel, true);
    assert_eq!(a.code, "scan_canceled");
    assert_eq!(a.en_us, "Cancel scan");
    assert_eq!(a.outcome, AuditOutcome::Canceled);
    assert_eq!(a.impact, AuditImpact::Info);
    let a = request_audit(AuditedRequest::Delete, true);
    assert_eq!(a.code, "scan_deleted");
    assert_eq!(a.zh_cn, "删除扫描");
    assert_eq!(a.outcome, AuditOutcome::Success);
    assert_eq!(a.impact, AuditImpact::Warning);
    for request in [AuditedRequest::Submit, AuditedRequest::Cancel, AuditedRequest::Delete] {
        let a = request_audit(request, false);
        assert_eq!(a.outcome, AuditOutcome::Failure);
        assert_eq!(a.impact, AuditImpact::Error);
    }
    assert_eq!(request_failure_code(AuditedRequest::Submit), "SCAN_CREATE_FAILED");
    assert_eq!(request_failure_code(AuditedRequest::Cancel), "SCAN_CANCEL_FAILED");
    assert_eq!(request_failure_code(AuditedRequest::Delete), "SCAN_DELETE_FAILED");
}

#[test]
fn concurrency_and_counts_stay_within_bounds() {
    let mut d = ScanDriver::new(5, 2);
    let mut running = 0;
    let mut last_scanned = 0;
    let mut next = 0;
    while next < 5 || running > 0 {
        while let Some(i) = d.next_host(false) {
            assert_eq!(i, next);
            next += 1;
            running += 1;
            assert!(running <= 2);
        }
        if running > 0 {
            if next % 2 == 0 {
                d.probe_lost();
            } else {
                let _ = d.host_scanned("t", &None);
            }
            running -= 1;
        }
        assert_eq!(d.total_hosts(), 5);
        assert!(d.scanned() >= last_scanned);
        assert!(d.scanned() <= 5);
        last_scanned = d.scanned();
    }
    assert!(d.is_idle());
}
