use bnetchat::connection::{Connection, Lifecycle};

#[test]
fn connection_starts_disconnected() {
    let c = Connection::new();
    assert_eq!(c.state(), Lifecycle::Disconnected);
    assert_eq!(c.attempts(), 0);
    assert_eq!(c.banner(), None);
}

#[test]
fn authenticated_only_after_a_handshake() {
    let mut c = Connection::new();
    assert!(!c.established());
    assert_eq!(c.state(), Lifecycle::Disconnected);
    c.begin();
    assert_eq!(c.state(), Lifecycle::Handshaking);
    assert!(c.established());
    assert_eq!(c.state(), Lifecycle::Authenticated);
    assert!(!c.established());
    assert_eq!(c.state(), Lifecycle::Authenticated);
}

#[test]
fn failures_are_counted_up_to_three_and_then_start_over() {
    let mut c = Connection::new();
    for expected in [1u32, 2, 3, 0, 1] {
        c.begin();
        c.failed("refused");
        assert_eq!(c.state(), Lifecycle::Disconnected);
        assert_eq!(c.attempts(), expected);
    }
    assert_eq!(c.banner(), Some("Connection failed: refused (Attempt 1/3)".to_string()));
}

#[test]
fn banner_reports_reason_and_attempt() {
    let mut c = Connection::new();
    c.begin();
    c.failed("Authentication failed: Login failed.");
    c.begin();
    assert_eq!(c.state(), Lifecycle::Handshaking);
    c.failed("Connection failed: timed out");
    assert_eq!(
        c.banner(),
        Some("Connection failed: Connection failed: timed out (Attempt 2/3)".to_string())
    );
}

#[test]
fn success_forgets_earlier_failures() {
    let mut c = Connection::new();
    c.begin();
    c.failed("refused");
    c.begin();
    assert!(c.established());
    assert_eq!(c.attempts(), 0);
    assert_eq!(c.banner(), None);
}

#[test]
fn close_forgets_everything() {
    let mut c = Connection::new();
    c.begin();
    c.failed("refused");
    c.close();
    assert_eq!(c.state(), Lifecycle::Closed);
    assert_eq!(c.attempts(), 0);
    assert_eq!(c.banner(), None);
    c.begin();
    assert_eq!(c.state(), Lifecycle::Handshaking);
}
