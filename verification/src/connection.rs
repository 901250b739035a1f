//! The life of a connection as the user sees it: not connected, logging
//! in, logged in, closed; with the count of failed attempts that the
//! sign-in form reports.

use crate::display::{decimal, decimal_text};
use crate::text::glue;
use vstd::prelude::*;

verus! {

/// After this many failed attempts in a row the count starts over.
pub const MAX_ATTEMPTS: u32 = 3;

/// Where a connection stands.
#[derive(Clone, Copy, Debug, PartialEq, Eq, Structural)]
pub enum Lifecycle {
    /// No connection, and none being set up.
    Disconnected,
    /// The socket is open and the login exchange is under way.
    Handshaking,
    /// The login exchange has succeeded; lines are being read.
    Authenticated,
    /// The connection was given up, by logout or after a fatal error.
    Closed,
}

/// The mathematical value of a [`Connection`].
pub struct ConnectionView {
    pub state: Lifecycle,
    /// Failed attempts in a row, as reported to the user.
    pub attempts: u32,
    /// Why the last attempt failed, if it did.
    pub error: Option<Seq<char>>,
}

/// The state after an attempt has failed for the reason `reason`: not
/// connected, the reason recorded, the count of attempts raised by one, or
/// back at zero once it had reached the maximum.
pub open spec fn after_failure(c: ConnectionView, reason: Seq<char>) -> ConnectionView {
    ConnectionView {
        state: Lifecycle::Disconnected,
        attempts: if c.attempts < MAX_ATTEMPTS {
            (c.attempts + 1) as u32
        } else {
            0
        },
        error: Some(reason),
    }
}

/// The sentence on the sign-in form after a failed attempt.
pub open spec fn banner_text(reason: Seq<char>, attempts: u32) -> Seq<char> {
    "Connection failed: "@ + reason + " (Attempt "@ + decimal_text(attempts as nat) + "/3)"@
}

/// Keeps track of one connection after the other.
pub struct Connection {
    state: Lifecycle,
    attempts: u32,
    error: Option<String>,
}

impl View for Connection {
    type V = ConnectionView;

    closed spec fn view(&self) -> ConnectionView {
        ConnectionView {
            state: self.state,
            attempts: self.attempts,
            error: match self.error {
                Some(reason) => Some(reason@),
                None => None,
            },
        }
    }
}

impl Connection {
    /// Not connected, no attempt made.
    pub fn new() -> (c: Connection)
        ensures
            c@ == (ConnectionView { state: Lifecycle::Disconnected, attempts: 0, error: None }),
    {
        Connection { state: Lifecycle::Disconnected, attempts: 0, error: None }
    }

    /// Where the connection stands.
    pub fn state(&self) -> (state: Lifecycle)
        ensures
            state == self@.state,
    {
        self.state
    }

    /// Failed attempts in a row.
    pub fn attempts(&self) -> (n: u32)
        ensures
            n == self@.attempts,
    {
        self.attempts
    }

    /// Why the last attempt failed, if it did.
    pub fn error(&self) -> (reason: Option<&String>)
        ensures
            match self@.error {
                Some(text) => reason matches Some(r) && r@ == text,
                None => reason is None,
            },
    {
        self.error.as_ref()
    }

    /// An attempt to connect begins. Attempts and the last error stay as
    /// they are, so that the form can go on showing them.
    pub fn begin(&mut self)
        ensures
            final(self)@ == (ConnectionView { state: Lifecycle::Handshaking, ..old(self)@ }),
    {
        self.state = Lifecycle::Handshaking;
    }

    /// The login exchange has succeeded. Has an effect only while an
    /// attempt is under way, and says whether it had: a connection becomes
    /// authenticated in no other way.
    pub fn established(&mut self) -> (done: bool)
        ensures
            done == (old(self)@.state == Lifecycle::Handshaking),
            done ==> final(self)@ == (ConnectionView {
                state: Lifecycle::Authenticated,
                attempts: 0,
                error: None,
            }),
            !done ==> final(self)@ == old(self)@,
    {
        match self.state {
            Lifecycle::Handshaking => {
                self.state = Lifecycle::Authenticated;
                self.attempts = 0;
                self.error = None;
                true
            },
            _ => false,
        }
    }

    /// An attempt has failed for the reason `reason`.
    pub fn failed(&mut self, reason: &str)
        ensures
            final(self)@ == after_failure(old(self)@, reason@),
    {
        self.state = Lifecycle::Disconnected;
        if self.attempts < MAX_ATTEMPTS {
            self.attempts = self.attempts + 1;
        } else {
            self.attempts = 0;
        }
        self.error = Some(reason.to_owned());
    }

    /// The connection is given up: the user logged out, or reading failed
    /// for good. Nothing of earlier failures is kept.
    pub fn close(&mut self)
        ensures
            final(self)@ == (ConnectionView { state: Lifecycle::Closed, attempts: 0, error: None }),
    {
        self.state = Lifecycle::Closed;
        self.attempts = 0;
        self.error = None;
    }

    /// The sentence for the sign-in form, if the last attempt failed.
    pub fn banner(&self) -> (text: Option<String>)
        ensures
            match self@.error {
                Some(reason) => text matches Some(t) && t@ == banner_text(reason, self@.attempts),
                None => text is None,
            },
    {
        match &self.error {
            Some(reason) => {
                let a = glue("Connection failed: ", reason.as_str());
                let b = glue(a.as_str(), " (Attempt ");
                let n = decimal(self.attempts as u64);
                let c = glue(b.as_str(), n.as_str());
                Some(glue(c.as_str(), "/3)"))
            },
            None => None,
        }
    }
}

} // verus!
