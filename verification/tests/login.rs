use bnetchat::login::{Credentials, Login};

fn s(text: &str) -> String {
    text.to_string()
}

fn form(server: &str, user: &str, password: &str) -> Login {
    Login::prefilled(&Credentials { server: s(server), user: s(user), password: s(password) })
}

#[test]
fn default_form_is_empty() {
    let login = Login::default();
    assert_eq!(login.server, "");
    assert_eq!(login.user, "");
    assert_eq!(login.password, "");
    assert_eq!(login.error, None);
    assert!(!login.remember_me && !login.show_password && !login.is_loading);
    assert_eq!(login.server_error, None);
    assert_eq!(login.user_error, None);
    assert_eq!(login.password_error, None);
}

#[test]
fn prefilled_form_round_trips_credentials() {
    let c = Credentials { server: s("localhost:6112"), user: s("bob"), password: s("pw") };
    let login = Login::prefilled(&c);
    assert_eq!(login.credentials(), c);
}

#[test]
fn good_form_is_valid() {
    let mut login = form("localhost:6112", "bob", "secret");
    assert!(login.needs_probe());
    assert!(login.validate_form(&Ok(())));
    assert_eq!(login.server_error, None);
    assert_eq!(login.user_error, None);
    assert_eq!(login.password_error, None);
    assert!(!login.is_loading);
}

#[test]
fn empty_form_has_three_complaints() {
    let mut login = Login::default();
    assert!(!login.needs_probe());
    assert!(!login.validate_form(&Ok(())));
    assert_eq!(login.server_error, Some(s("Server address is required")));
    assert_eq!(login.user_error, Some(s("Username is required")));
    assert_eq!(login.password_error, Some(s("Password is required")));
}

#[test]
fn blank_fields_count_as_empty() {
    let mut login = form(" \t", "\u{a0} ", "\n");
    assert!(!login.validate_form(&Ok(())));
    assert_eq!(login.server_error, Some(s("Server address is required")));
    assert_eq!(login.user_error, Some(s("Username is required")));
    assert_eq!(login.password_error, Some(s("Password is required")));
}

#[test]
fn server_without_port_is_refused_whatever_the_probe_found() {
    let mut login = form("localhost", "bob", "pw");
    assert!(!login.needs_probe());
    assert!(!login.validate_form(&Err(s("unreachable"))));
    assert_eq!(
        login.server_error,
        Some(s("Server address must include port (e.g., localhost:6112)"))
    );
    assert_eq!(login.user_error, None);
    assert_eq!(login.password_error, None);
}

#[test]
fn unreachable_server_is_reported_with_the_cause() {
    let mut login = form("localhost:6112", "bob", "pw");
    assert!(!login.validate_form(&Err(s("Connection failed: refused"))));
    assert_eq!(
        login.server_error,
        Some(s("Cannot connect to server: Connection failed: refused"))
    );
}

#[test]
fn one_letter_user_name_is_too_short() {
    let mut login = form("localhost:6112", "b", "pw");
    assert!(!login.validate_form(&Ok(())));
    assert_eq!(login.user_error, Some(s("Username must be at least 2 characters")));
    // The length is counted in bytes of UTF-8.
    let mut login = form("localhost:6112", "é", "pw");
    assert!(login.validate_form(&Ok(())));
    assert_eq!(login.user_error, None);
}

#[test]
fn old_complaints_are_cleared() {
    let mut login = Login::default();
    assert!(!login.validate_form(&Ok(())));
    login.server = s("localhost:6112");
    login.user = s("bob");
    login.password = s("pw");
    login.error = Some(s("kept"));
    assert!(login.validate_form(&Ok(())));
    assert_eq!(login.server_error, None);
    assert_eq!(login.user_error, None);
    assert_eq!(login.password_error, None);
    assert_eq!(login.error, Some(s("kept")));
    assert_eq!(login.server, "localhost:6112");
}

#[test]
fn submit_marks_a_valid_form_as_loading() {
    let mut login = form("localhost:6112", "bob", "pw");
    assert!(login.submit(&Ok(())));
    assert!(login.is_loading);
    let mut login = form("localhost:6112", "", "pw");
    assert!(!login.submit(&Ok(())));
    assert!(!login.is_loading);
}
