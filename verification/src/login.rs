//! The sign-in form: what the user typed, and the check of it before a
//! connection is attempted.
//!
//! The check itself opens no connection. Whether the server answers is
//! found out by the caller, who passes the finding in.

use crate::text::{chars_of, glue, is_blank, trim_bounds};
use vstd::prelude::*;
use vstd::utf8::encode_utf8;

verus! {

/// Server address, user name and password, as handed to the login
/// exchange.
#[derive(Clone, Debug, PartialEq, Eq, Default)]
pub struct Credentials {
    pub server: String,
    pub user: String,
    pub password: String,
}

/// The sign-in form.
#[derive(Clone, Debug)]
pub struct Login {
    pub server: String,
    pub user: String,
    pub password: String,
    /// A message for the whole form, such as the reason why the last
    /// attempt to connect failed.
    pub error: Option<String>,
    pub remember_me: bool,
    pub show_password: bool,
    /// True while an attempt to connect is under way.
    pub is_loading: bool,
    pub server_error: Option<String>,
    pub user_error: Option<String>,
    pub password_error: Option<String>,
}

/// The view of an optional message.
pub open spec fn message_view(m: Option<String>) -> Option<Seq<char>> {
    match m {
        Some(t) => Some(t@),
        None => None,
    }
}

/// What probing the server found: `Ok` when it answered, otherwise the
/// reason why not.
pub open spec fn probe_view(probe: Result<(), String>) -> Result<(), Seq<char>> {
    match probe {
        Ok(_) => Ok(()),
        Err(cause) => Err(cause@),
    }
}

/// True when a server address is worth probing: it is not blank and names
/// a port.
pub open spec fn server_is_plausible(server: Seq<char>) -> bool {
    !is_blank(server) && server.contains(':')
}

/// The complaint about the server field, if any.
pub open spec fn server_verdict(server: Seq<char>, probe: Result<(), Seq<char>>) -> Option<
    Seq<char>,
> {
    if is_blank(server) {
        Some("Server address is required"@)
    } else if !server.contains(':') {
        Some("Server address must include port (e.g., localhost:6112)"@)
    } else {
        match probe {
            Ok(_) => None,
            Err(cause) => Some("Cannot connect to server: "@ + cause),
        }
    }
}

/// The complaint about the user name, if any. The length that counts is
/// that of the name's UTF-8 encoding.
pub open spec fn user_verdict(user: Seq<char>) -> Option<Seq<char>> {
    if is_blank(user) {
        Some("Username is required"@)
    } else if encode_utf8(user).len() < 2 {
        Some("Username must be at least 2 characters"@)
    } else {
        None
    }
}

/// The complaint about the password, if any.
pub open spec fn password_verdict(password: Seq<char>) -> Option<Seq<char>> {
    if is_blank(password) {
        Some("Password is required"@)
    } else {
        None
    }
}

/// Whether `text` is empty or all whitespace.
fn blank(text: &str) -> (r: bool)
    ensures
        r == is_blank(text@),
{
    let chars = chars_of(text);
    let (from, to) = trim_bounds(chars.as_slice());
    from == to
}

/// Whether `text` holds the character `c`.
fn has_char(text: &str, c: char) -> (r: bool)
    ensures
        r == text@.contains(c),
{
    let chars = chars_of(text);
    let n = chars.len();
    let mut i: usize = 0;
    while i < n
        invariant
            n == chars@.len(),
            i <= n,
            chars@ == text@,
            forall|j: int| 0 <= j < i ==> chars@[j] != c,
        decreases n - i,
    {
        if chars[i] == c {
            return true;
        }
        i += 1;
    }
    false
}

impl Default for Login {
    /// The empty form.
    fn default() -> (login: Login)
        ensures
            login.server@.len() == 0,
            login.user@.len() == 0,
            login.password@.len() == 0,
            login.error is None,
            !login.remember_me,
            !login.show_password,
            !login.is_loading,
            login.server_error is None,
            login.user_error is None,
            login.password_error is None,
    {
        Login {
            server: String::new(),
            user: String::new(),
            password: String::new(),
            error: None,
            remember_me: false,
            show_password: false,
            is_loading: false,
            server_error: None,
            user_error: None,
            password_error: None,
        }
    }
}

impl Login {
    /// The form filled in with credentials that were kept from an earlier
    /// session.
    pub fn prefilled(credentials: &Credentials) -> (login: Login)
        ensures
            login.server@ == credentials.server@,
            login.user@ == credentials.user@,
            login.password@ == credentials.password@,
            login.error is None,
            !login.remember_me,
            !login.show_password,
            !login.is_loading,
            login.server_error is None,
            login.user_error is None,
            login.password_error is None,
    {
        Login {
            server: credentials.server.clone(),
            user: credentials.user.clone(),
            password: credentials.password.clone(),
            error: None,
            remember_me: false,
            show_password: false,
            is_loading: false,
            server_error: None,
            user_error: None,
            password_error: None,
        }
    }

    /// The credentials as typed.
    pub fn credentials(&self) -> (c: Credentials)
        ensures
            c.server@ == self.server@,
            c.user@ == self.user@,
            c.password@ == self.password@,
    {
        Credentials {
            server: self.server.clone(),
            user: self.user.clone(),
            password: self.password.clone(),
        }
    }

    /// Whether the server field is worth probing. When it is not,
    /// [`Login::validate_form`] does not look at the probe's finding.
    pub fn needs_probe(&self) -> (r: bool)
        ensures
            r == server_is_plausible(self.server@),
    {
        !blank(self.server.as_str()) && has_char(self.server.as_str(), ':')
    }

    /// Checks the three fields. Replaces the complaint under each field by
    /// the one that applies now, or by none, and returns whether the form
    /// may be submitted, that is, whether no field has a complaint.
    ///
    /// `probe` is what an attempt to reach the server found.
    pub fn validate_form(&mut self, probe: &Result<(), String>) -> (valid: bool)
        ensures
            message_view(final(self).server_error) == server_verdict(
                old(self).server@,
                probe_view(*probe),
            ),
            message_view(final(self).user_error) == user_verdict(old(self).user@),
            message_view(final(self).password_error) == password_verdict(old(self).password@),
            valid == (final(self).server_error is None && final(self).user_error is None
                && final(self).password_error is None),
            final(self).server == old(self).server,
            final(self).user == old(self).user,
            final(self).password == old(self).password,
            final(self).error == old(self).error,
            final(self).remember_me == old(self).remember_me,
            final(self).show_password == old(self).show_password,
            final(self).is_loading == old(self).is_loading,
    {
        let mut is_valid = true;

        self.server_error = None;
        self.user_error = None;
        self.password_error = None;

        if blank(self.server.as_str()) {
            self.server_error = Some("Server address is required".to_owned());
            is_valid = false;
        } else if !has_char(self.server.as_str(), ':') {
            self.server_error = Some(
                "Server address must include port (e.g., localhost:6112)".to_owned(),
            );
            is_valid = false;
        } else {
            match probe {
                Ok(_) => {},
                Err(cause) => {
                    self.server_error = Some(glue("Cannot connect to server: ", cause.as_str()));
                    is_valid = false;
                },
            }
        }

        if blank(self.user.as_str()) {
            self.user_error = Some("Username is required".to_owned());
            is_valid = false;
        } else if self.user.as_str().as_bytes().len() < 2 {
            self.user_error = Some("Username must be at least 2 characters".to_owned());
            is_valid = false;
        }

        if blank(self.password.as_str()) {
            self.password_error = Some("Password is required".to_owned());
            is_valid = false;
        }

        is_valid
    }

    /// Checks the form as [`Login::validate_form`] does and, if it may be
    /// submitted, marks it as loading.
    pub fn submit(&mut self, probe: &Result<(), String>) -> (accepted: bool)
        ensures
            message_view(final(self).server_error) == server_verdict(
                old(self).server@,
                probe_view(*probe),
            ),
            message_view(final(self).user_error) == user_verdict(old(self).user@),
            message_view(final(self).password_error) == password_verdict(old(self).password@),
            accepted == (final(self).server_error is None && final(self).user_error is None
                && final(self).password_error is None),
            final(self).is_loading == (accepted || old(self).is_loading),
            final(self).server == old(self).server,
            final(self).user == old(self).user,
            final(self).password == old(self).password,
            final(self).error == old(self).error,
            final(self).remember_me == old(self).remember_me,
            final(self).show_password == old(self).show_password,
    {
        let accepted = self.validate_form(probe);
        if accepted {
            self.is_loading = true;
        }
        accepted
    }
}

} // verus!
