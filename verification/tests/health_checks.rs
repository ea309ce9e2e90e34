use service_flow::config::{HealthCheck, HealthCheckConfig, HealthCheckUnion, Service};
use service_flow::healthcheck::{
    check, check_http, check_tcp, http_outcome, monitored, report, Beat, CheckResult,
    HealthChecker, HttpStatus, Probe, ProbeLoop, Pulse,
};

fn legacy(kind: &str, host: Option<&str>, port: Option<u16>, url: Option<&str>) -> HealthCheck {
    HealthCheck {
        kind: kind.to_string(),
        host: host.map(|h| h.to_string()),
        port,
        url: url.map(|u| u.to_string()),
        interval: 5,
        timeout: 3,
    }
}

fn service(id: &str, health_check: Option<HealthCheckUnion>) -> Service {
    Service {
        id: id.to_string(),
        name: id.to_string(),
        description: None,
        kind: None,
        group_id: String::new(),
        path: String::new(),
        work_dir: None,
        args: None,
        env: None,
        auto_start: false,
        startup_delay: 0,
        dependencies: Vec::new(),
        dependency_configs: None,
        retry_config: None,
        timeout_config: None,
        log_config: None,
        resource_limits: None,
        process_config: None,
        health_check,
        metrics: None,
        pid: None,
        started_at: None,
        exit_code: None,
        exit_signal: None,
        crash_count: None,
        last_crash_time: None,
    }
}

#[test]
fn tcp_check_connects_to_the_declared_host_and_port() {
    let hc = legacy("tcp", Some("10.0.0.7"), Some(5432), None);
    assert_eq!(
        check(&hc),
        Probe::Tcp { host: "10.0.0.7", port: 5432 }
    );
}

#[test]
fn tcp_host_defaults_to_localhost() {
    let hc = legacy("tcp", None, Some(80), None);
    assert_eq!(
        check(&hc),
        Probe::Tcp { host: "localhost", port: 80 }
    );
}

#[test]
fn tcp_check_without_a_port_fails_at_once() {
    let none = legacy("tcp", Some("h"), None, None);
    let zero = legacy("tcp", Some("h"), Some(0), None);
    let settled = Probe::Settled("TCP port not specified".to_string());
    assert_eq!(check(&none), settled);
    assert_eq!(check(&zero), settled);
}

#[test]
fn http_check_fetches_the_address_within_the_timeout() {
    let hc = legacy("http", None, None, Some("http://localhost:8080/health"));
    assert_eq!(
        check(&hc),
        Probe::Http { url: "http://localhost:8080/health", timeout: 3 }
    );
    let missing = legacy("http", None, Some(80), None);
    assert_eq!(
        check(&missing),
        Probe::Settled("HTTP URL not specified".to_string())
    );
}

#[test]
fn unknown_type_fails_with_its_name() {
    let hc = legacy("grpc", None, Some(80), Some("x"));
    assert_eq!(
        check(&hc),
        Probe::Settled("Unknown health check type: grpc".to_string())
    );
}

#[test]
fn closed_port_fails_and_open_port_passes() {
    assert_eq!(
        check_tcp(Err("Connection refused (os error 111)".to_string())),
        (false, "TCP connection failed: Connection refused (os error 111)".to_string())
    );
    assert_eq!(
        check_tcp(Ok(())),
        (true, "TCP connection successful".to_string())
    );
}

#[test]
fn http_outcome_follows_the_status_class() {
    let ok = HttpStatus::new(200).unwrap();
    let bad = HttpStatus::new(503).unwrap();
    assert_eq!(check_http(Ok(ok)), (true, "HTTP check successful: 200 OK".to_string()));
    assert_eq!(
        check_http(Ok(bad)),
        (false, "HTTP check failed: 503 Service Unavailable".to_string())
    );
    assert_eq!(
        check_http(Err("timed out".to_string())),
        (false, "HTTP request failed: timed out".to_string())
    );
}

#[test]
fn success_class_runs_from_200_to_299() {
    assert_eq!(
        check_http(Ok(HttpStatus::new(199).unwrap())),
        (false, "HTTP check failed: 199 <unknown status code>".to_string())
    );
    assert_eq!(
        check_http(Ok(HttpStatus::new(204).unwrap())),
        (true, "HTTP check successful: 204 No Content".to_string())
    );
    assert_eq!(
        check_http(Ok(HttpStatus::new(299).unwrap())),
        (true, "HTTP check successful: 299 <unknown status code>".to_string())
    );
    assert_eq!(
        check_http(Ok(HttpStatus::new(300).unwrap())),
        (false, "HTTP check failed: 300 Multiple Choices".to_string())
    );
    assert_eq!(
        check_http(Ok(HttpStatus::new(404).unwrap())),
        (false, "HTTP check failed: 404 Not Found".to_string())
    );
}

#[test]
fn status_codes_run_from_100_to_999() {
    assert!(HttpStatus::new(99).is_none());
    assert!(HttpStatus::new(1000).is_none());
    assert!(HttpStatus::new(0).is_none());
    assert_eq!(HttpStatus::new(100).map(|s| s.number()), Some(100));
    assert_eq!(HttpStatus::new(999).map(|s| s.number()), Some(999));
}

#[test]
fn outcome_of_a_fetch_reads_as_told() {
    assert_eq!(
        http_outcome(Ok((true, "anything".to_string()))),
        (true, "HTTP check successful: anything".to_string())
    );
    assert_eq!(
        http_outcome(Ok((false, "".to_string()))),
        (false, "HTTP check failed: ".to_string())
    );
    assert_eq!(
        http_outcome(Err("dns".to_string())),
        (false, "HTTP request failed: dns".to_string())
    );
}

#[test]
fn report_carries_the_service_id() {
    let result = report("db", (false, "down".to_string()));
    assert_eq!(
        result,
        CheckResult { task_id: "db".to_string(), status: false, message: "down".to_string() }
    );
}

#[test]
fn only_the_legacy_declaration_is_monitored() {
    let old = service("a", Some(HealthCheckUnion::Old(legacy("tcp", None, Some(1), None))));
    assert_eq!(monitored(&old).map(|hc| hc.port), Some(Some(1)));
    let new = service(
        "b",
        Some(HealthCheckUnion::New(HealthCheckConfig {
            enabled: true,
            kind: "tcp".to_string(),
            config: serde_json::Value::Null,
            interval: 1,
            timeout: 1,
            retries: 1,
            failure_threshold: 1,
            success_threshold: 1,
            start_period: None,
        })),
    );
    assert!(monitored(&new).is_none());
    assert!(monitored(&service("c", None)).is_none());
}

#[test]
fn stop_checking_hands_back_the_registered_loop() {
    let mut checker: HealthChecker<u32> = HealthChecker::new();
    assert_eq!(checker.stop_checking("a"), None);
    checker.start_checking("a", 1);
    checker.start_checking("b", 2);
    assert_eq!(checker.stop_checking("a"), Some(1));
    assert_eq!(checker.stop_checking("a"), None);
    assert_eq!(checker.stop_checking("b"), Some(2));
}

#[test]
fn second_start_leaves_the_first_loop_running() {
    let mut checker: HealthChecker<u32> = HealthChecker::new();
    checker.start_checking("a", 1);
    checker.start_checking("a", 2);
    assert_eq!(checker.stop_checking("a"), Some(2));
    assert_eq!(checker.shutdown(), vec![1]);
}

#[test]
fn restart_leaves_one_loop_per_service() {
    let mut checker: HealthChecker<u32> = HealthChecker::new();
    checker.start_checking("a", 1);
    checker.start_checking("b", 7);
    checker.start_checking("a", 2);
    checker.start_checking("a", 3);
    assert_eq!(checker.restart_checking("a", 4), vec![1, 2, 3]);
    assert_eq!(checker.restart_checking("a", 5), vec![4]);
    assert_eq!(checker.restart_checking("c", 9), Vec::<u32>::new());
    let mut rest = checker.shutdown();
    rest.sort();
    assert_eq!(rest, vec![5, 7, 9]);
}

#[test]
fn shutdown_cancels_registered_and_stray_loops() {
    let mut checker: HealthChecker<u32> = HealthChecker::new();
    checker.start_checking("a", 1);
    checker.start_checking("a", 2);
    checker.start_checking("b", 3);
    let mut all = checker.shutdown();
    all.sort();
    assert_eq!(all, vec![1, 2, 3]);
    assert!(checker.shutdown().is_empty());
}

#[test]
fn probe_loop_probes_reports_and_sleeps_in_turn() {
    let hc = legacy("tcp", None, Some(5432), None);
    let mut probe_loop = ProbeLoop::new("db", &hc);
    assert_eq!(probe_loop.beat(), Beat::Connect { host: "localhost", port: 5432 });
    assert_eq!(
        probe_loop.step(Pulse::Slept),
        Beat::Connect { host: "localhost", port: 5432 }
    );
    assert_eq!(
        probe_loop.step(Pulse::Connected(Err("refused".to_string()))),
        Beat::Notify(CheckResult {
            task_id: "db".to_string(),
            status: false,
            message: "TCP connection failed: refused".to_string()
        })
    );
    assert_eq!(probe_loop.step(Pulse::Notified), Beat::Sleep(5));
    assert_eq!(probe_loop.step(Pulse::Notified), Beat::Sleep(5));
    assert_eq!(
        probe_loop.step(Pulse::Slept),
        Beat::Connect { host: "localhost", port: 5432 }
    );
    assert_eq!(
        probe_loop.step(Pulse::Fetched(Err("x".to_string()))),
        Beat::Connect { host: "localhost", port: 5432 }
    );
    assert_eq!(
        probe_loop.step(Pulse::Connected(Ok(()))),
        Beat::Notify(CheckResult {
            task_id: "db".to_string(),
            status: true,
            message: "TCP connection successful".to_string()
        })
    );
}

#[test]
fn probe_loop_of_an_http_check_fetches() {
    let hc = legacy("http", None, None, Some("http://h/health"));
    let mut probe_loop = ProbeLoop::new("web", &hc);
    assert_eq!(probe_loop.beat(), Beat::Fetch { url: "http://h/health", timeout: 3 });
    let ok = HttpStatus::new(204).unwrap();
    assert_eq!(
        probe_loop.step(Pulse::Fetched(Ok(ok))),
        Beat::Notify(CheckResult {
            task_id: "web".to_string(),
            status: true,
            message: "HTTP check successful: 204 No Content".to_string()
        })
    );
}

#[test]
fn probe_loop_of_a_settled_declaration_reports_at_once() {
    let hc = legacy("icmp", None, None, None);
    let mut probe_loop = ProbeLoop::new("x", &hc);
    let failure = CheckResult {
        task_id: "x".to_string(),
        status: false,
        message: "Unknown health check type: icmp".to_string(),
    };
    assert_eq!(probe_loop.beat(), Beat::Notify(failure.clone()));
    assert_eq!(probe_loop.step(Pulse::Notified), Beat::Sleep(5));
    assert_eq!(probe_loop.step(Pulse::Slept), Beat::Notify(failure));
}
