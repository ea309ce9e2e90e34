use service_flow::netstat::{child_port, listening_port};

const LISTING: &str = "\r\nActive Connections\r\n\r\n  Proto  Local Address          Foreign Address        State           PID\r\n  TCP    0.0.0.0:135            0.0.0.0:0              LISTENING       1044\r\n  TCP    127.0.0.1:5432         0.0.0.0:0              LISTENING       777\r\n  TCP    10.0.0.5:50123         52.1.2.3:443           ESTABLISHED     4321\r\n  TCP    [::]:8080              [::]:0                 LISTENING       4321\r\n  TCP    0.0.0.0:9090           0.0.0.0:0              LISTENING       4321\r\n  UDP    0.0.0.0:5353           *:*                                    1234\r\n";

#[test]
fn port_of_a_listening_process_is_found() {
    assert_eq!(listening_port(LISTING.as_bytes(), 1044), Some(135));
    assert_eq!(listening_port(LISTING.as_bytes(), 777), Some(5432));
}

#[test]
fn first_listening_line_of_the_process_wins() {
    assert_eq!(listening_port(LISTING.as_bytes(), 4321), Some(8080));
}

#[test]
fn process_without_a_listening_socket_has_no_port() {
    assert_eq!(listening_port(LISTING.as_bytes(), 1234), None);
    assert_eq!(listening_port(LISTING.as_bytes(), 104), None);
    assert_eq!(listening_port(LISTING.as_bytes(), 10440), None);
    assert_eq!(listening_port(b"", 1), None);
}

#[test]
fn lines_with_fewer_than_five_fields_do_not_count() {
    assert_eq!(listening_port(b"TCP 0.0.0.0:80 LISTENING 42", 42), None);
    assert_eq!(listening_port(b"TCP 0.0.0.0:80 x LISTENING 42", 42), Some(80));
    assert_eq!(listening_port(b"TCP 0.0.0.0:80 x LISTENING 42 ", 42), Some(80));
}

#[test]
fn both_words_must_occur() {
    assert_eq!(listening_port(b"UDP 0.0.0.0:80 x LISTENING 42", 42), None);
    assert_eq!(listening_port(b"TCP 0.0.0.0:80 x LISTEN 42", 42), None);
    assert_eq!(listening_port(b"a 0.0.0.0:80 TCPLISTENING b 42", 42), Some(80));
}

#[test]
fn address_without_a_readable_port_is_passed_over() {
    let text = b"TCP nocolon x LISTENING 42\nTCP host:http x LISTENING 42\nTCP host:70000 x LISTENING 42\nTCP host: x LISTENING 42\nTCP a:1:+0081 x LISTENING 42\n";
    assert_eq!(listening_port(text, 42), Some(81));
}

#[test]
fn pid_must_fit_and_match() {
    assert_eq!(listening_port(b"TCP h:80 x LISTENING 4294967295", u32::MAX), Some(80));
    assert_eq!(listening_port(b"TCP h:80 x LISTENING 4294967296", 0), None);
    assert_eq!(listening_port(b"TCP h:80 x LISTENING 99999999999999999999999", 0), None);
    assert_eq!(listening_port(b"TCP h:80 x LISTENING -1", 1), None);
    assert_eq!(listening_port(b"TCP h:80 x LISTENING +7", 7), Some(80));
    assert_eq!(listening_port(b"TCP h:80 x LISTENING 007", 7), Some(80));
    assert_eq!(listening_port(b"TCP h:65535 x LISTENING 7", 7), Some(65535));
    assert_eq!(listening_port(b"TCP h:65536 x LISTENING 7", 7), None);
}

#[test]
fn port_of_the_first_child_with_one_is_taken() {
    let children = b"ProcessId  \r\n5555       \r\n4321       \r\n777        \r\n\r\n";
    assert_eq!(child_port(LISTING.as_bytes(), children), Some(8080));
    assert_eq!(child_port(LISTING.as_bytes(), b"ProcessId\r\n5555\r\n"), None);
    assert_eq!(child_port(LISTING.as_bytes(), b"  777"), Some(5432));
    assert_eq!(child_port(LISTING.as_bytes(), b""), None);
    assert_eq!(child_port(LISTING.as_bytes(), b"7 77\n1044\n"), Some(135));
}
