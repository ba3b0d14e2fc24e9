use dsh_launcher::http::{
    dsh_signature_ok, group_alive, parse_pids, parse_status_code, probe_request, probe_status,
    signature_step, SignatureStep, StderrCapture, STDERR_CAPACITY,
};

#[test]
fn parse_status_code_extracts_code() {
    assert_eq!(parse_status_code("HTTP/1.1 200 OK\r\ncontent-type: text/html\r\n\r\n"), Some(200));
    assert_eq!(parse_status_code("HTTP/1.0 404 Not Found\r\n\r\n"), Some(404));
    assert_eq!(parse_status_code("<html>not http</html>"), None);
    assert_eq!(parse_status_code(""), None);
}

#[test]
fn status_code_edge_cases() {
    assert_eq!(parse_status_code("HTTP/1.1 99999 Big\r\n"), None);
    assert_eq!(parse_status_code("HTTP/1.1\r\n"), None);
    assert_eq!(parse_status_code("\nHTTP/1.1 200 OK"), None);
    assert_eq!(parse_status_code("HTTP/2 +204"), Some(204));
    assert_eq!(probe_status(b"HTTP/1.0 503 Service Unavailable\r\n"), Some(503));
}

#[test]
fn probe_request_text() {
    assert_eq!(
        probe_request("127.0.0.1", 3080, "/api"),
        "GET /api HTTP/1.0\r\nHost: 127.0.0.1:3080\r\nConnection: close\r\nAccept: */*\r\n\r\n"
    );
}

#[test]
fn signature_needs_all_three_answers() {
    assert!(dsh_signature_ok(Some(200), Some(200), Some(404)));
    assert!(!dsh_signature_ok(Some(200), Some(200), Some(200)));
    assert!(!dsh_signature_ok(None, Some(200), Some(404)));
    assert_eq!(signature_step(&[]), SignatureStep::Probe("/".to_string()));
    assert_eq!(signature_step(&[Some(200)]), SignatureStep::Probe("/manifest.webmanifest".to_string()));
    assert_eq!(signature_step(&[Some(200), Some(200)]), SignatureStep::Probe("/api".to_string()));
    assert_eq!(signature_step(&[Some(500)]), SignatureStep::Verdict(false));
    assert_eq!(signature_step(&[Some(200), None]), SignatureStep::Verdict(false));
    assert_eq!(signature_step(&[Some(200), Some(200), Some(404)]), SignatureStep::Verdict(true));
}

#[test]
fn pid_listing_and_liveness() {
    assert_eq!(parse_pids(b"123\n456\nabc\n-7\n"), vec![123, 456, -7]);
    assert!(parse_pids(b"").is_empty());
    assert!(group_alive(b" 42\n"));
    assert!(!group_alive(b" \n\t"));
}

#[test]
fn stderr_capture_keeps_the_tail() {
    let mut c = StderrCapture::new();
    c.append(b"  boot ok\n");
    assert_eq!(c.tail(), "boot ok");
    let big = vec![b'x'; STDERR_CAPACITY + 10];
    c.append(&big);
    c.append(b"END");
    let t = c.tail();
    assert_eq!(t.len(), STDERR_CAPACITY);
    assert!(t.ends_with("xxEND"));
}
