use bnetchat::framing::ReadOutcome;
use bnetchat::handshake::{ExtraMessages, Handshake, HandshakeError, Progress, Stage};
use bnetchat::protocol::{CodeTable, EventKind};

fn s(text: &str) -> String {
    text.to_string()
}

fn data(text: &str) -> ReadOutcome {
    ReadOutcome::Data(text.as_bytes().to_vec())
}

/// Plays the server's part: feeds `reads` to the exchange one by one and
/// records what the client sends.
fn run(mut h: Handshake, reads: &[ReadOutcome]) -> (Vec<String>, Option<Progress>) {
    let mut sent = Vec::new();
    for outcome in reads {
        match h.advance(0, outcome) {
            Progress::Reading(next) => h = next,
            Progress::Sending(next, text) => {
                sent.push(text);
                h = next;
            }
            done => return (sent, Some(done)),
        }
    }
    (sent, Some(Progress::Reading(h)))
}

fn established(p: Option<Progress>) -> ExtraMessages {
    match p {
        Some(Progress::Established(extra)) => extra,
        _ => panic!("the exchange did not complete"),
    }
}

fn failure(p: Option<Progress>) -> HandshakeError {
    match p {
        Some(Progress::Failed(e)) => e,
        _ => panic!("the exchange did not fail"),
    }
}

#[test]
fn empty_credentials_are_refused() {
    assert_eq!(Handshake::new("", "secret").err(), Some(HandshakeError::Precondition));
    assert_eq!(Handshake::new("bob", "").err(), Some(HandshakeError::Precondition));
    assert_eq!(Handshake::new("", "").err(), Some(HandshakeError::Precondition));
    assert!(Handshake::new("bob", "secret").is_ok());
}

#[test]
fn opening_is_the_selector_byte() {
    assert_eq!(Handshake::opening(), vec![3u8]);
}

#[test]
fn plain_exchange_completes() {
    let h = Handshake::new("bob", "secret").unwrap();
    assert_eq!(h.stage(), Stage::Username);
    let (sent, end) = run(
        h,
        &[
            data("Welcome\r\nUsername: "),
            data("Password: "),
            data("\r\n2010 NAME bob\r\n"),
            data("1007 CHANNEL \"w3\"\r\n"),
        ],
    );
    assert_eq!(sent, vec![s("bob\r\n"), s("secret\r\n"), s("/join w3\r\n")]);
    let extra = established(end);
    assert_eq!(extra.lines, vec![s("Welcome")]);
    assert_eq!(extra.partial, s(""));
}

#[test]
fn chat_line_before_the_password_prompt_is_kept() {
    let h = Handshake::new("alice", "pw").unwrap();
    let (sent, end) = run(
        h,
        &[
            data("Username: "),
            data("1005 X Bob hi\r\n"),
            data("Password: "),
            data("2010 NAME alice\r\n"),
            data("1007 CHANNEL w3\r\n"),
        ],
    );
    assert_eq!(sent, vec![s("alice\r\n"), s("pw\r\n"), s("/join w3\r\n")]);
    assert_eq!(established(end).lines, vec![s("1005 X Bob hi")]);
}

#[test]
fn chat_line_in_the_same_burst_as_the_prompt_is_kept() {
    let h = Handshake::new("alice", "pw").unwrap();
    let (_, end) = run(
        h,
        &[
            data("Username: "),
            data("1005 X Bob hi\r\nPassword: "),
            data("2010 NAME alice\r\n"),
            data("1007 CHANNEL w3\r\n"),
        ],
    );
    assert_eq!(established(end).lines, vec![s("1005 X Bob hi")]);
}

#[test]
fn extra_lines_keep_their_order_across_stages() {
    let h = Handshake::new("alice", "pw").unwrap();
    let (_, end) = run(
        h,
        &[
            data("one\r\nUsername: \r\ntwo\r\n"),
            data("three\r\n\r\nPassword: "),
            data("four\r\n2010 NAME alice\r\nfive\r\n"),
            data("six\r\n1007 CHANNEL w3\r\n1001 USER alice 0000\r\n1001 USER bo"),
        ],
    );
    let extra = established(end);
    assert_eq!(
        extra.lines,
        vec![
            s("one"),
            s("two"),
            s("three"),
            s("four"),
            s("five"),
            s("six"),
            s("1001 USER alice 0000"),
        ]
    );
    assert_eq!(extra.partial, s("1001 USER bo"));
}

#[test]
fn unfinished_line_waits_for_its_end_in_the_next_stage() {
    let h = Handshake::new("alice", "pw").unwrap();
    let (_, end) = run(
        h,
        &[
            data("Username: \r\n1005 X Bo"),
            data("b hi\r\nPassword: "),
            data("2010 NAME alice\r\n"),
            data("1007 CHANNEL w3\r\n"),
        ],
    );
    assert_eq!(established(end).lines, vec![s("1005 X Bob hi")]);
}

#[test]
fn prompt_cut_in_two_is_recognised() {
    let h = Handshake::new("alice", "pw").unwrap();
    let (sent, end) = run(h, &[data("User"), ReadOutcome::Idle, data("name: ")]);
    assert_eq!(sent, vec![s("alice\r\n")]);
    match end {
        Some(Progress::Reading(h)) => assert_eq!(h.stage(), Stage::Password),
        _ => panic!("expected the wait for the password prompt"),
    }
}

#[test]
fn missing_username_prompt_times_out() {
    let h = Handshake::new("alice", "pw").unwrap();
    assert!(!h.timed_out(10_000));
    assert!(h.timed_out(10_001));
    let h = match h.advance(9_000, &ReadOutcome::Idle) {
        Progress::Reading(h) => h,
        _ => panic!("expected to go on reading"),
    };
    let h = match h.advance(10_000, &data("Welcome\r\n")) {
        Progress::Reading(h) => h,
        _ => panic!("expected to go on reading"),
    };
    match h.advance(10_001, &ReadOutcome::Idle) {
        Progress::Failed(e) => {
            assert_eq!(e, HandshakeError::Timeout(Stage::Username));
            match e {
                HandshakeError::Timeout(stage) => assert_eq!(stage.label(), "username"),
                _ => unreachable!(),
            }
            assert_eq!(e.message(), "Timeout waiting for 'Username:'");
        }
        _ => panic!("expected a timeout"),
    }
}

#[test]
fn timeout_wins_over_whatever_was_read() {
    let h = Handshake::new("alice", "pw").unwrap().with_timeout(50);
    match h.advance(51, &data("Username: ")) {
        Progress::Failed(e) => assert_eq!(e, HandshakeError::Timeout(Stage::Username)),
        _ => panic!("expected a timeout"),
    }
}

#[test]
fn each_wait_reports_its_own_timeout() {
    let h = Handshake::new("alice", "pw").unwrap();
    let (_, end) = run(h, &[data("Username: ")]);
    let h = match end {
        Some(Progress::Reading(h)) => h,
        _ => panic!(),
    };
    assert_eq!(h.stage(), Stage::Password);
    match h.advance(20_000, &ReadOutcome::Idle) {
        Progress::Failed(e) => {
            assert_eq!(e, HandshakeError::Timeout(Stage::Password));
            assert_eq!(e.message(), "Timeout waiting for 'Password:'");
        }
        _ => panic!("expected a timeout"),
    }
    assert_eq!(Stage::Login.label(), "login");
    assert_eq!(Stage::Join.label(), "join");
    assert_eq!(Stage::Password.label(), "password");
    assert_eq!(
        HandshakeError::Timeout(Stage::Login).message(),
        "Timeout waiting for login response"
    );
    assert_eq!(
        HandshakeError::Timeout(Stage::Join).message(),
        "Timeout waiting for join confirmation"
    );
}

#[test]
fn rejected_login_fails() {
    let h = Handshake::new("alice", "wrong").unwrap();
    let (sent, end) = run(h, &[data("Username: "), data("Password: "), data("Login failed.\r\n")]);
    assert_eq!(sent.len(), 2);
    let e = failure(end);
    assert_eq!(e, HandshakeError::Auth);
    assert_eq!(e.message(), "Login failed.");
}

#[test]
fn rejection_wins_when_both_verdicts_are_there() {
    let h = Handshake::new("alice", "pw").unwrap();
    let (_, end) = run(
        h,
        &[data("Username: "), data("Password: "), data("2010 NAME alice\r\nLogin failed.")],
    );
    assert_eq!(failure(end), HandshakeError::Auth);
}

#[test]
fn closed_connection_fails() {
    let h = Handshake::new("alice", "pw").unwrap();
    let (_, end) = run(h, &[data("Username: "), ReadOutcome::Closed]);
    let e = failure(end);
    assert_eq!(e, HandshakeError::ConnectionClosed);
    assert_eq!(e.message(), "Connection closed by server");
}

#[test]
fn failed_read_fails_with_its_cause() {
    let h = Handshake::new("alice", "pw").unwrap();
    let (_, end) = run(h, &[ReadOutcome::Failed(s("connection reset"))]);
    let e = failure(end);
    assert_eq!(e, HandshakeError::Io(s("Read error: connection reset")));
    assert_eq!(e.message(), "Read error: connection reset");
}

#[test]
fn bytes_that_are_not_text_abort_the_exchange() {
    let h = Handshake::new("alice", "pw").unwrap();
    let (_, end) = run(h, &[ReadOutcome::Data(vec![b'U', b's', 0xff, b'e'])]);
    let e = failure(end);
    assert_eq!(e, HandshakeError::InvalidEncoding);
    assert_eq!(e.message(), "Invalid UTF-8 received from server");
}

#[test]
fn precondition_has_its_message() {
    assert_eq!(HandshakeError::Precondition.message(), "Username and password cannot be empty");
}

#[test]
fn join_is_confirmed_by_the_code_not_by_the_digits() {
    let h = Handshake::new("alice", "pw").unwrap();
    let (_, end) = run(
        h,
        &[
            data("Username: "),
            data("Password: "),
            data("2010 NAME alice\r\n"),
            data("1005 X Bob room 1007 is free\r\n"),
        ],
    );
    let h = match end {
        Some(Progress::Reading(h)) => h,
        _ => panic!("chat that mentions the digits must not confirm the join"),
    };
    assert_eq!(h.stage(), Stage::Join);
    match h.advance(0, &data("1007 CHANNEL w3\r\n")) {
        Progress::Established(extra) => {
            assert_eq!(extra.lines, vec![s("1005 X Bob room 1007 is free")]);
        }
        _ => panic!("expected the exchange to complete"),
    }
}

#[test]
fn join_confirmation_follows_the_table_in_use() {
    let mut table = CodeTable::new();
    table.insert("77", EventKind::Channel);
    let h = Handshake::new("alice", "pw").unwrap().with_table(table);
    let (_, end) = run(
        h,
        &[
            data("Username: "),
            data("Password: "),
            data("2010 NAME alice\r\n"),
            data("1007 CHANNEL w3\r\n77 X w3\r\n"),
        ],
    );
    assert_eq!(established(end).lines, vec![s("1007 CHANNEL w3")]);
}

#[test]
fn incomplete_channel_line_does_not_confirm_yet() {
    let h = Handshake::new("alice", "pw").unwrap();
    let (_, end) = run(
        h,
        &[data("Username: "), data("Password: "), data("2010 NAME alice\r\n"), data("1007 CHAN")],
    );
    match end {
        Some(Progress::Reading(h)) => assert_eq!(h.stage(), Stage::Join),
        _ => panic!("expected to go on reading"),
    }
}
